//! Reference implementation of the Luhn algorithm over the decimal digits.

use crate::prelude::{CheckDigitAlgo, Error, ErrorView};
use crate::util::charmap::{
    lemma_lossy_agrees_with_strict, decode_lossy, decode_strict, index_bytes, lemma_zip_map_at, lemma_zip_map_keys,
    lemma_zip_map_values, zip_map,
};
use crate::util::{build_protected_apend, split_protected_tail_n, CharMap};
use vstd::arithmetic::div_mod::lemma_add_mod_noop;
use vstd::prelude::*;

verus! {

/// Returns a new Luhn algorithm object, which skips characters that are not decimal digits.
pub fn ref_luhn() -> (r: RefLuhn)
    ensures
        r.wf(),
        r.is_lossy(),
{
    RefLuhn::default()
}

/// Character set for the Luhn algorithm.
const CHARSET: &'static str = "0123456789";

/// The decimal digit symbols, in order of value.
pub open spec fn decimal_symbols() -> Seq<char> {
    seq!['0', '1', '2', '3', '4', '5', '6', '7', '8', '9']
}

/// The value of each decimal digit symbol.
pub open spec fn decimal_map() -> Map<char, u8> {
    zip_map(decimal_symbols(), index_bytes(10))
}

/// The symbol of each decimal digit value.
pub open spec fn decimal_inverse() -> Map<u8, char> {
    zip_map(index_bytes(10), decimal_symbols())
}

/// A digit doubled, with its two decimal digits summed.
pub open spec fn doubled_digit(n: int) -> int {
    if n < 5 {
        2 * n
    } else {
        2 * n - 9
    }
}

/// The Luhn sum of `ds`: positions count from the right end starting at 0, and the digits at
/// even positions are doubled.
pub open spec fn luhn_sum(ds: Seq<u8>) -> int
    decreases ds.len(),
{
    if ds.len() == 0 {
        0
    } else {
        let n = ds[0] as int;
        (if (ds.len() - 1) % 2 == 0 {
            doubled_digit(n)
        } else {
            n
        }) + luhn_sum(ds.drop_first())
    }
}

/// The Luhn check digit of `ds`.
pub open spec fn check_digit(ds: Seq<u8>) -> int {
    (10 - luhn_sum(ds) % 10) % 10
}

/// Luhn algorithm over the decimal digits, with a policy for other characters.
#[derive(Clone, Eq, PartialEq, Debug)]
pub struct RefLuhn {
    lossy: bool,
    charmap: CharMap<u8>,
}

impl RefLuhn {
    /// Characters that are not decimal digits are skipped rather than rejected.
    pub closed spec fn is_lossy(&self) -> bool {
        self.lossy
    }

    /// The map between digit symbols and values.
    pub closed spec fn symbol_map(&self) -> CharMap<u8> {
        self.charmap
    }

    /// The digits of `s` under the decoding policy, or the first unknown character.
    pub open spec fn digits_of(&self, s: Seq<char>) -> Result<Seq<u8>, char> {
        if self.is_lossy() {
            Ok(decode_lossy(decimal_map(), s))
        } else {
            decode_strict(decimal_map(), s)
        }
    }
}

impl RefLuhn {
    /// A Luhn algorithm object that skips characters other than decimal digits when `lossy`,
    /// and rejects them otherwise.
    pub fn with_policy(lossy: bool) -> (r: Self)
        ensures
            r.wf(),
            r.is_lossy() == lossy,
    {
        proof {
            reveal_strlit("0123456789");
            assert(CHARSET@ == decimal_symbols());
        }
        let charmap = CharMap::<u8>::from(CHARSET);
        RefLuhn { lossy, charmap }
    }
}

impl Default for RefLuhn {
    fn default() -> (r: Self)
        ensures
            r.wf(),
            r.is_lossy(),
    {
        RefLuhn::with_policy(true)
    }
}

/// Every value of the decimal map is below ten, and each digit value has its symbol.
proof fn lemma_decimal_map()
    ensures
        forall|c: char| #[trigger]
            decimal_map().contains_key(c) ==> decimal_map()[c] < 10,
        forall|d: u8|
            d < 10 ==> #[trigger] decimal_inverse().contains_key(d) && decimal_inverse()[d]
                == decimal_symbols()[d as int],
{
    let syms = decimal_symbols();
    let vals = index_bytes(10);
    assert forall|c: char| #[trigger] decimal_map().contains_key(c) implies decimal_map()[c]
        < 10 by {
        lemma_zip_map_values(syms, vals, c);
    }
    assert forall|d: u8| d < 10 implies #[trigger] decimal_inverse().contains_key(d)
        && decimal_inverse()[d] == syms[d as int] by {
        assert(vals[d as int] == d);
        assert(vals.no_duplicates());
        lemma_zip_map_at(vals, syms, d as int);
    }
}

/// Every value that decoding over the decimal map yields is below ten.
proof fn lemma_decoded_below_ten(s: Seq<char>)
    ensures
        forall|i: int|
            0 <= i < decode_lossy(decimal_map(), s).len() ==> #[trigger] decode_lossy(
                decimal_map(),
                s,
            )[i] < 10,
        decode_strict(decimal_map(), s) matches Ok(ds) ==> forall|i: int|
            0 <= i < ds.len() ==> #[trigger] ds[i] < 10,
    decreases s.len(),
{
    lemma_decimal_map();
    if s.len() > 0 {
        let front = s.drop_last();
        lemma_decoded_below_ten(front);
        let m = decimal_map();
        if m.contains_key(s.last()) {
            let lossy = decode_lossy(m, s);
            assert(forall|i: int| 0 <= i < lossy.len() - 1 ==> lossy[i] == decode_lossy(m, front)[i]);
            assert(lossy[lossy.len() - 1] == m[s.last()]);
            if decode_strict(m, s) is Ok {
                let ds = decode_strict(m, s)->Ok_0;
                let fs = decode_strict(m, front)->Ok_0;
                assert(forall|i: int| 0 <= i < ds.len() - 1 ==> ds[i] == fs[i]);
                assert(ds[ds.len() - 1] == m[s.last()]);
            }
        } else {
            assert(decode_lossy(m, s) == decode_lossy(m, front));
        }
    }
}

#[inline]
fn is_even(n: usize) -> (r: bool)
    ensures
        r == (n % 2 == 0),
{
    assert(n & 1 == 0 <==> n % 2 == 0) by (bit_vector);
    n & 1 == 0
}

#[inline]
fn luhn_double(n: u8) -> (r: u8)
    requires
        n < 10,
    ensures
        r == doubled_digit(n as int),
{
    n * 2 - if n < 5 {
        0
    } else {
        9
    }
}

impl CheckDigitAlgo for RefLuhn {
    open spec fn wf(&self) -> bool {
        &&& self.symbol_map().wf()
        &&& self.symbol_map()@ == decimal_map()
        &&& self.symbol_map().inverse() == decimal_inverse()
    }

    open spec fn check_len(&self) -> nat {
        1
    }

    open spec fn check_chars_of(&self, unprotected: Seq<char>) -> Result<Seq<char>, ErrorView> {
        match self.digits_of(unprotected) {
            Ok(ds) => Ok(seq![decimal_symbols()[check_digit(ds)]]),
            Err(c) => Err(ErrorView::UnknownCharInString(seq![c])),
        }
    }

    fn validate(&self, protected: &str) -> (r: Result<bool, Error>) {
        let (unprotected, check_chars) = match split_protected_tail_n(protected, 1) {
            Ok(parts) => parts,
            Err(e) => return Err(e),
        };
        let computed = match self.compute(unprotected) {
            Ok(cs) => cs,
            Err(e) => return Err(e),
        };
        let tail = String::from_str(check_chars);
        Ok(tail == computed)
    }

    fn generate(&self, unprotected: &str) -> (r: Result<String, Error>) {
        match self.compute(unprotected) {
            Ok(cs) => build_protected_apend(unprotected, cs.as_str()),
            Err(e) => Err(e),
        }
    }

    fn compute(&self, unprotected: &str) -> (r: Result<String, Error>) {
        let ns = if self.lossy {
            self.charmap.convert_chars_lossy(unprotected)
        } else {
            match self.charmap.convert_chars(unprotected) {
                Ok(ns) => ns,
                Err(e) => return Err(e),
            }
        };
        proof {
            lemma_decoded_below_ten(unprotected@);
        }
        let len = ns.len();
        let mut sum: u8 = 0;
        let mut i: usize = 0;
        while i < len
            invariant
                len == ns@.len(),
                i <= len,
                sum < 10,
                forall|j: int| 0 <= j < len ==> #[trigger] ns@[j] < 10,
                sum as int == luhn_sum(ns@.subrange(len - i, len as int)) % 10,
            decreases len - i,
        {
            let n = ns[len - 1 - i];
            let t = if is_even(i) {
                luhn_double(n)
            } else {
                n
            };
            proof {
                let prev = ns@.subrange(len - i, len as int);
                let next = ns@.subrange(len - i - 1, len as int);
                assert(next.drop_first() == prev);
                assert(luhn_sum(next) == t + luhn_sum(prev));
                lemma_add_mod_noop(luhn_sum(prev), t as int, 10);
            }
            sum = (sum + t) % 10;
            i += 1;
        }
        assert(ns@.subrange(0, len as int) == ns@);
        let check = (10 - sum) % 10;
        proof {
            lemma_decimal_map();
        }
        let digits: Vec<u8> = vec![check];
        assert(digits@ == seq![check]);
        let cs = self.charmap.convert_nums(digits.as_slice());
        assert(decimal_inverse().contains_key(check));
        assert(self.charmap.inverse()[check] == decimal_symbols()[check as int]);
        assert(cs@ =~= seq![decimal_symbols()[check as int]]);
        Ok(cs)
    }
}

/// Round trip: for every string of decimal digit symbols, `generate` succeeds, and validating
/// what it returns succeeds with `true`: the protected string is long enough, and its tail
/// equals the check characters of its head.
pub proof fn lemma_round_trip(algo: &RefLuhn, unprotected: Seq<char>)
    requires
        algo.wf(),
        forall|i: int|
            0 <= i < unprotected.len() ==> decimal_map().contains_key(#[trigger] unprotected[i]),
    ensures
        algo.check_chars_of(unprotected) matches Ok(cs) && ({
            let protected = unprotected + cs;
            let cut = protected.len() - algo.check_len();
            &&& protected.len() >= algo.check_len()
            &&& algo.check_chars_of(protected.subrange(0, cut)) == Ok::<Seq<char>, ErrorView>(
                protected.subrange(cut, protected.len() as int),
            )
        }),
{
    lemma_lossy_agrees_with_strict(decimal_map(), unprotected);
    let cs = algo.check_chars_of(unprotected)->Ok_0;
    let protected = unprotected + cs;
    assert(protected.subrange(0, protected.len() - 1) == unprotected);
    assert(protected.subrange(protected.len() - 1, protected.len() as int) == cs);
}

/// Determinism: equal inputs have equal check characters, or equal errors.
pub proof fn lemma_compute_deterministic(algo: &RefLuhn, a: Seq<char>, b: Seq<char>)
    requires
        a == b,
    ensures
        algo.check_chars_of(a) == algo.check_chars_of(b),
{
}

/// Single-digit tampering: replacing the last symbol of a valid protected string by any other
/// decimal digit symbol makes validation succeed with `false`.
pub proof fn lemma_last_digit_tamper(algo: &RefLuhn, protected: Seq<char>, d: char)
    requires
        algo.wf(),
        protected.len() >= 1,
        algo.check_chars_of(protected.drop_last()) == Ok::<Seq<char>, ErrorView>(
            seq![protected.last()],
        ),
        decimal_map().contains_key(d),
        d != protected.last(),
    ensures
        ({
            let altered = protected.drop_last().push(d);
            let cut = altered.len() - algo.check_len();
            algo.check_chars_of(altered.subrange(0, cut)) matches Ok(cs) && cs != altered.subrange(
                cut,
                altered.len() as int,
            )
        }),
{
    let altered = protected.drop_last().push(d);
    assert(altered.subrange(0, altered.len() - 1) == protected.drop_last());
    assert(altered.subrange(altered.len() - 1, altered.len() as int)[0] == d);
}

} // verus!
