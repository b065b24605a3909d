//! Helpers shared by the check digit algorithms.

use crate::prelude::{Error, ErrorView};
use vstd::prelude::*;
use vstd::string::StringExecFns;
use vstd::string::StrSliceExecFns;

pub mod charmap;
pub use charmap::CharMap;

verus! {

/// Splits a string before its `n`th last character, returning a `(head, tail)` tuple where
/// `tail` consists of the last `n` characters of `protected` and `head` holds the rest.
pub fn split_protected_tail_n(protected: &str, n: usize) -> (r: Result<(&str, &str), Error>)
    ensures
        match r {
            Ok((head, tail)) => {
                &&& n <= protected@.len()
                &&& head@ == protected@.subrange(0, protected@.len() - n)
                &&& tail@ == protected@.subrange(protected@.len() - n, protected@.len() as int)
            },
            Err(e) => protected@.len() < n && e@ == ErrorView::InvalidProtectedString(protected@),
        },
{
    let len = protected.unicode_len();
    if n <= len {
        let mid = len - n;
        Ok((protected.substring_char(0, mid), protected.substring_char(mid, len)))
    } else {
        Err(Error::InvalidProtectedString(String::from_str(protected)))
    }
}

/// Creates a new `String` by appending `check_chars` to `unprotected`.
pub fn build_protected_apend(unprotected: &str, check_chars: &str) -> (r: Result<String, Error>)
    ensures
        r matches Ok(s) && s@ == unprotected@ + check_chars@,
{
    let mut protected = String::from_str(unprotected);
    protected.append(check_chars);
    Ok(protected)
}

} // verus!
