//! Bidirectional maps between symbols and numerical values.

use crate::key::Sealed;
use crate::prelude::{Error, ErrorView};
use fnv::{FnvHashMap, FnvHasher};
use std::hash::{BuildHasherDefault, Hash};
use vstd::prelude::*;
use vstd::string::StrSliceExecFns;

verus! {

#[verifier::external_type_specification]
#[verifier::external_body]
pub struct ExFnvHasher(FnvHasher);

#[verifier::external_type_specification]
#[verifier::external_body]
#[verifier::reject_recursive_types(H)]
pub struct ExBuildHasherDefault<H>(BuildHasherDefault<H>);

/// A key type of the symbol maps: `char` and the unsigned integers, whose `==` and `Hash`
/// agree with identity of values.
pub trait MapKey: Copy + Eq + Hash + Sealed {}

impl MapKey for char {}
impl MapKey for u8 {}
impl MapKey for u16 {}
impl MapKey for u32 {}

/// Relies on `HashMap::insert` (over fnv's hasher): afterwards `k` maps to `v`, and every
/// other key keeps its value.
#[verifier::external_body]
fn map_insert<K: MapKey, V>(m: &mut FnvHashMap<K, V>, k: K, v: V)
    ensures
        final(m)@ == old(m)@.insert(k, v),
{
    m.insert(k, v);
}

/// Relies on `HashMap::get` (over fnv's hasher): the value that `k` maps to, if any.
#[verifier::external_body]
fn map_get<K: MapKey, V: Copy>(m: &FnvHashMap<K, V>, k: K) -> (r: Option<V>)
    ensures
        r == (if m@.contains_key(k) {
            Some(m@[k])
        } else {
            None
        }),
{
    m.get(&k).copied()
}

/// Relies on `String::push`: appends one character.
#[verifier::external_body]
fn push_char(s: &mut String, c: char)
    ensures
        final(s)@ == old(s)@.push(c),
{
    s.push(c);
}

/// `m` and `inv` are inverse to each other.
pub open spec fn bijective<K, V>(m: Map<K, V>, inv: Map<V, K>) -> bool {
    &&& forall|k: K| #[trigger] m.contains_key(k) ==> inv.contains_key(m[k]) && inv[m[k]] == k
    &&& forall|v: V| #[trigger] inv.contains_key(v) ==> m.contains_key(inv[v]) && m[inv[v]] == v
}

/// The map that sends `ks[i]` to `vs[i]`; a later pair overrides an earlier one.
pub open spec fn zip_map<K, V>(ks: Seq<K>, vs: Seq<V>) -> Map<K, V>
    decreases ks.len(),
{
    if ks.len() == 0 || vs.len() == 0 {
        Map::empty()
    } else {
        zip_map(ks.drop_last(), vs.drop_last()).insert(ks.last(), vs.last())
    }
}

/// The values `0, 1, ..., n - 1`, as bytes.
pub open spec fn index_bytes(n: nat) -> Seq<u8> {
    Seq::new(n, |i: int| i as u8)
}

/// The values `0, 1, ..., n - 1`, as 16-bit integers.
pub open spec fn index_words(n: nat) -> Seq<u16> {
    Seq::new(n, |i: int| i as u16)
}

/// The values `0, 1, ..., n - 1`, as 32-bit integers.
pub open spec fn index_dwords(n: nat) -> Seq<u32> {
    Seq::new(n, |i: int| i as u32)
}

/// Strict decoding: the value of each symbol of `s`, or the first symbol that `m` lacks.
pub open spec fn decode_strict<T>(m: Map<char, T>, s: Seq<char>) -> Result<Seq<T>, char>
    decreases s.len(),
{
    if s.len() == 0 {
        Ok(Seq::empty())
    } else {
        match decode_strict(m, s.drop_last()) {
            Err(c) => Err(c),
            Ok(vs) => if m.contains_key(s.last()) {
                Ok(vs.push(m[s.last()]))
            } else {
                Err(s.last())
            },
        }
    }
}

/// Lossy decoding: the value of each symbol of `s` that `m` holds, in order; others are skipped.
pub open spec fn decode_lossy<T>(m: Map<char, T>, s: Seq<char>) -> Seq<T>
    decreases s.len(),
{
    if s.len() == 0 {
        Seq::empty()
    } else if m.contains_key(s.last()) {
        decode_lossy(m, s.drop_last()).push(m[s.last()])
    } else {
        decode_lossy(m, s.drop_last())
    }
}

/// Encoding: the symbol of each value.
pub open spec fn encode<T>(inv: Map<T, char>, ns: Seq<T>) -> Seq<char> {
    ns.map_values(|n: T| inv[n])
}

/// The keys of `zip_map(ks, vs)` are the elements of `ks`.
pub proof fn lemma_zip_map_keys<K, V>(ks: Seq<K>, vs: Seq<V>, k: K)
    requires
        ks.len() == vs.len(),
    ensures
        zip_map(ks, vs).contains_key(k) <==> ks.contains(k),
    decreases ks.len(),
{
    if ks.len() > 0 {
        let front = ks.drop_last();
        lemma_zip_map_keys(front, vs.drop_last(), k);
        if front.contains(k) {
            let j = choose|j: int| 0 <= j < front.len() && front[j] == k;
            assert(ks[j] == k);
        }
        if ks.contains(k) && k != ks.last() {
            let j = choose|j: int| 0 <= j < ks.len() && ks[j] == k;
            assert(front[j] == k);
        }
    }
}

/// Each value of `zip_map(ks, vs)` is an element of `vs`.
pub proof fn lemma_zip_map_values<K, V>(ks: Seq<K>, vs: Seq<V>, k: K)
    requires
        ks.len() == vs.len(),
        zip_map(ks, vs).contains_key(k),
    ensures
        vs.contains(zip_map(ks, vs)[k]),
    decreases ks.len(),
{
    if ks.len() > 0 && k != ks.last() {
        lemma_zip_map_values(ks.drop_last(), vs.drop_last(), k);
        let j = choose|j: int|
            0 <= j < vs.len() - 1 && vs.drop_last()[j] == zip_map(ks, vs)[k];
        assert(vs[j] == zip_map(ks, vs)[k]);
    } else if ks.len() > 0 {
        assert(vs[vs.len() - 1] == zip_map(ks, vs)[k]);
    }
}

/// Without duplicate keys, `zip_map(ks, vs)` sends `ks[i]` to `vs[i]`.
pub proof fn lemma_zip_map_at<K, V>(ks: Seq<K>, vs: Seq<V>, i: int)
    requires
        ks.len() == vs.len(),
        ks.no_duplicates(),
        0 <= i < ks.len(),
    ensures
        zip_map(ks, vs).contains_key(ks[i]),
        zip_map(ks, vs)[ks[i]] == vs[i],
    decreases ks.len(),
{
    if i < ks.len() - 1 {
        lemma_zip_map_at(ks.drop_last(), vs.drop_last(), i);
    }
}

/// Once strict decoding of a prefix fails, decoding any longer prefix fails with the same symbol.
proof fn lemma_decode_strict_error_kept<T>(m: Map<char, T>, s: Seq<char>, k: int)
    requires
        0 <= k <= s.len(),
        decode_strict(m, s.take(k)) is Err,
    ensures
        decode_strict(m, s) == decode_strict(m, s.take(k)),
    decreases s.len() - k,
{
    if k < s.len() {
        assert(s.take(k + 1).drop_last() == s.take(k));
        lemma_decode_strict_error_kept(m, s, k + 1);
    } else {
        assert(s.take(k) == s);
    }
}

/// On a string whose every symbol the map holds, strict and lossy decoding agree, and strict
/// decoding succeeds.
pub proof fn lemma_lossy_agrees_with_strict<T>(m: Map<char, T>, s: Seq<char>)
    requires
        forall|i: int| 0 <= i < s.len() ==> m.contains_key(#[trigger] s[i]),
    ensures
        decode_strict(m, s) == Ok::<Seq<T>, char>(decode_lossy(m, s)),
    decreases s.len(),
{
    if s.len() > 0 {
        let front = s.drop_last();
        assert forall|i: int| 0 <= i < front.len() implies m.contains_key(#[trigger] front[i]) by {
            assert(front[i] == s[i]);
        }
        lemma_lossy_agrees_with_strict(m, front);
        assert(m.contains_key(s[s.len() - 1]));
    }
}

/// Bijectivity: a symbol of a well-formed map decodes strictly to one value, and encoding that
/// value gives the symbol back.
pub proof fn lemma_symbol_round_trip<T: MapKey>(map: &CharMap<T>, c: char)
    requires
        map.wf(),
        map@.contains_key(c),
    ensures
        decode_strict(map@, seq![c]) == Ok::<Seq<T>, char>(seq![map@[c]]),
        encode(map.inverse(), seq![map@[c]]) == seq![c],
{
    assert(seq![c].drop_last() == Seq::<char>::empty());
    assert(seq![c].last() == c);
    assert(decode_strict(map@, Seq::<char>::empty()) == Ok::<Seq<T>, char>(Seq::empty()));
    assert(Seq::<T>::empty().push(map@[c]) == seq![map@[c]]);
    assert(encode(map.inverse(), seq![map@[c]]) =~= seq![c]);
}

/// Provides character-to-numerical-value and numerical-value-to-character converters.
#[derive(Clone, Eq, PartialEq, Debug)]
pub struct CharMap<T: MapKey> {
    c_to_n: FnvHashMap<char, T>,
    n_to_c: FnvHashMap<T, char>,
}

impl<T: MapKey> View for CharMap<T> {
    type V = Map<char, T>;

    /// The value of each symbol.
    closed spec fn view(&self) -> Map<char, T> {
        self.c_to_n@
    }
}

impl<T: MapKey> CharMap<T> {
    /// The symbol of each value.
    pub closed spec fn inverse(&self) -> Map<T, char> {
        self.n_to_c@
    }

    /// The two directions of the map are inverse to each other.
    pub open spec fn wf(&self) -> bool {
        bijective(self@, self.inverse())
    }

    /// Creates char-to-num and num-to-char maps from a charset string and numerical value set.
    /// Both sets have the same length and no duplicate element.
    pub fn with_numset(charset: &str, numset: &[T]) -> (r: Self)
        requires
            charset@.len() == numset@.len(),
            charset@.no_duplicates(),
            numset@.no_duplicates(),
        ensures
            r.wf(),
            r@ == zip_map(charset@, numset@),
            r.inverse() == zip_map(numset@, charset@),
    {
        let mut c_to_n: FnvHashMap<char, T> = FnvHashMap::default();
        let mut n_to_c: FnvHashMap<T, char> = FnvHashMap::default();
        let mut i: usize = 0;
        for c in it: charset.chars()
            invariant
                it.seq() == charset@,
                i == it.index(),
                charset@.len() == numset@.len(),
                charset@.no_duplicates(),
                numset@.no_duplicates(),
                c_to_n@ == zip_map(charset@.take(i as int), numset@.take(i as int)),
                n_to_c@ == zip_map(numset@.take(i as int), charset@.take(i as int)),
                bijective(c_to_n@, n_to_c@),
        {
            let n = numset[i];
            proof {
                let cs = charset@.take(i as int);
                let ns = numset@.take(i as int);
                lemma_zip_map_keys(cs, ns, c);
                lemma_zip_map_keys(ns, cs, n);
                if cs.contains(c) {
                    let j = choose|j: int| 0 <= j < cs.len() && cs[j] == c;
                    assert(charset@[j] == charset@[i as int]);
                }
                if ns.contains(n) {
                    let j = choose|j: int| 0 <= j < ns.len() && ns[j] == n;
                    assert(numset@[j] == numset@[i as int]);
                }
                assert(charset@.take(i + 1).drop_last() == cs);
                assert(numset@.take(i + 1).drop_last() == ns);
            }
            map_insert(&mut c_to_n, c, n);
            map_insert(&mut n_to_c, n, c);
            i += 1;
        }
        let len = i;
        assert(charset@.take(len as int) == charset@);
        assert(numset@.take(len as int) == numset@);
        CharMap { c_to_n, n_to_c }
    }

    /// Converts a string into the sequence of the values of its characters. Returns
    /// `Err(UnknownCharInString)` with the first character that the map lacks, if any.
    pub fn convert_chars(&self, cs: &str) -> (r: Result<Vec<T>, Error>)
        ensures
            match decode_strict(self@, cs@) {
                Ok(vs) => r matches Ok(out) && out@ == vs,
                Err(c) => r matches Err(e) && e@ == ErrorView::UnknownCharInString(seq![c]),
            },
    {
        let mut out: Vec<T> = Vec::new();
        for c in it: cs.chars()
            invariant
                it.seq() == cs@,
                decode_strict(self@, cs@.take(it.index() as int)) == Ok::<Seq<T>, char>(out@),
        {
            let ghost i = it.index();
            assert(cs@.take(i + 1).drop_last() == cs@.take(i));
            match map_get(&self.c_to_n, c) {
                Some(n) => out.push(n),
                None => {
                    let mut text = String::new();
                    push_char(&mut text, c);
                    proof {
                        lemma_decode_strict_error_kept(self@, cs@, i + 1);
                    }
                    return Err(Error::UnknownCharInString(text));
                },
            }
        }
        assert(cs@.take(cs@.len() as int) == cs@);
        Ok(out)
    }

    /// Converts a string into the sequence of the values of its characters. This conversion is
    /// lossy: characters that the map lacks are skipped.
    pub fn convert_chars_lossy(&self, cs: &str) -> (r: Vec<T>)
        ensures
            r@ == decode_lossy(self@, cs@),
    {
        let mut out: Vec<T> = Vec::new();
        for c in it: cs.chars()
            invariant
                it.seq() == cs@,
                out@ == decode_lossy(self@, cs@.take(it.index() as int)),
        {
            assert(cs@.take(it.index() + 1).drop_last() == cs@.take(it.index() as int));
            if let Some(n) = map_get(&self.c_to_n, c) {
                out.push(n);
            }
        }
        assert(cs@.take(cs@.len() as int) == cs@);
        out
    }

    /// Converts a sequence of values into their characters and returns them as one string.
    /// Every value must be one of the map.
    pub fn convert_nums(&self, ns: &[T]) -> (r: String)
        requires
            forall|i: int| 0 <= i < ns@.len() ==> self.inverse().contains_key(#[trigger] ns@[i]),
        ensures
            r@ == encode(self.inverse(), ns@),
    {
        let mut out = String::new();
        let mut i: usize = 0;
        while i < ns.len()
            invariant
                i <= ns@.len(),
                forall|j: int| 0 <= j < ns@.len() ==> self.inverse().contains_key(#[trigger] ns@[j]),
                out@ == encode(self.inverse(), ns@.take(i as int)),
            decreases ns@.len() - i,
        {
            let c = map_get(&self.n_to_c, ns[i]).unwrap();
            push_char(&mut out, c);
            assert(encode(self.inverse(), ns@.take(i + 1)) == encode(self.inverse(), ns@.take(i as int)).push(c));
            i += 1;
        }
        assert(ns@.take(ns@.len() as int) == ns@);
        out
    }
}

impl CharMap<u8> {
    /// Takes a sequence of unique characters and maps them to the integers `0, 1, 2, ...` in
    /// order.
    pub fn from(charset: &str) -> (r: Self)
        requires
            charset@.no_duplicates(),
            charset@.len() <= 256,
        ensures
            r.wf(),
            r@ == zip_map(charset@, index_bytes(charset@.len())),
            r.inverse() == zip_map(index_bytes(charset@.len()), charset@),
    {
        let len = charset.unicode_len();
        let mut numset: Vec<u8> = Vec::new();
        let mut i: usize = 0;
        while i < len
            invariant
                len == charset@.len(),
                len <= 256,
                i <= len,
                numset@ == index_bytes(i as nat),
            decreases len - i,
        {
            numset.push(i as u8);
            assert(numset@ == index_bytes(i as nat + 1));
            i += 1;
        }
        assert forall|a: int, b: int|
            0 <= a < numset@.len() && 0 <= b < numset@.len() && a != b implies numset@[a]
            != numset@[b] by {}
        CharMap::with_numset(charset, numset.as_slice())
    }
}

impl CharMap<u16> {
    /// Takes a sequence of unique characters and maps them to the integers `0, 1, 2, ...` in
    /// order.
    pub fn from(charset: &str) -> (r: Self)
        requires
            charset@.no_duplicates(),
            charset@.len() <= 65536,
        ensures
            r.wf(),
            r@ == zip_map(charset@, index_words(charset@.len())),
            r.inverse() == zip_map(index_words(charset@.len()), charset@),
    {
        let len = charset.unicode_len();
        let mut numset: Vec<u16> = Vec::new();
        let mut i: usize = 0;
        while i < len
            invariant
                len == charset@.len(),
                len <= 65536,
                i <= len,
                numset@ == index_words(i as nat),
            decreases len - i,
        {
            numset.push(i as u16);
            assert(numset@ == index_words(i as nat + 1));
            i += 1;
        }
        assert forall|a: int, b: int|
            0 <= a < numset@.len() && 0 <= b < numset@.len() && a != b implies numset@[a]
            != numset@[b] by {}
        CharMap::with_numset(charset, numset.as_slice())
    }
}

impl CharMap<u32> {
    /// Takes a sequence of unique characters and maps them to the integers `0, 1, 2, ...` in
    /// order.
    pub fn from(charset: &str) -> (r: Self)
        requires
            charset@.no_duplicates(),
            charset@.len() <= 4294967296,
        ensures
            r.wf(),
            r@ == zip_map(charset@, index_dwords(charset@.len())),
            r.inverse() == zip_map(index_dwords(charset@.len()), charset@),
    {
        let len = charset.unicode_len();
        let mut numset: Vec<u32> = Vec::new();
        let mut i: usize = 0;
        while i < len
            invariant
                len == charset@.len(),
                len <= 4294967296,
                i <= len,
                numset@ == index_dwords(i as nat),
            decreases len - i,
        {
            numset.push(i as u32);
            assert(numset@ == index_dwords(i as nat + 1));
            i += 1;
        }
        assert forall|a: int, b: int|
            0 <= a < numset@.len() && 0 <= b < numset@.len() && a != b implies numset@[a]
            != numset@[b] by {}
        CharMap::with_numset(charset, numset.as_slice())
    }
}

} // verus!
