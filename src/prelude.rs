//! Common types of the check digit algorithms.

use vstd::prelude::*;
use vstd::string::StringExecFns;

verus! {

/// Describes why a check digit operation failed.
#[derive(Clone, Eq, PartialEq, Debug)]
pub enum Error {
    /// The protected string is too short to hold its check characters.
    InvalidProtectedString(String),
    /// The string holds a character that the symbol set does not know.
    UnknownCharInString(String),
}

impl Error {
    /// A human-readable description of the error.
    pub fn message(&self) -> (r: String)
        ensures
            r@ == match self@ {
                ErrorView::InvalidProtectedString(s) => "invalid protected string '"@ + s + "'"@,
                ErrorView::UnknownCharInString(c) => "unknown character '"@ + c + "' in string"@,
            },
    {
        match self {
            Error::InvalidProtectedString(ss) => {
                let mut r = String::from_str("invalid protected string '");
                r.append(ss.as_str());
                r.append("'");
                r
            },
            Error::UnknownCharInString(c) => {
                let mut r = String::from_str("unknown character '");
                r.append(c.as_str());
                r.append("' in string");
                r
            },
        }
    }
}

/// The mathematical value of an [`Error`]: its kind and the text it carries.
pub enum ErrorView {
    InvalidProtectedString(Seq<char>),
    UnknownCharInString(Seq<char>),
}

impl View for Error {
    type V = ErrorView;

    open spec fn view(&self) -> ErrorView {
        match self {
            Error::InvalidProtectedString(s) => ErrorView::InvalidProtectedString(s@),
            Error::UnknownCharInString(s) => ErrorView::UnknownCharInString(s@),
        }
    }
}

/// The value of a string result: the characters, or the error's view.
pub open spec fn text_result(r: Result<String, Error>) -> Result<Seq<char>, ErrorView> {
    match r {
        Ok(s) => Ok(s@),
        Err(e) => Err(e@),
    }
}

/// The value of a boolean result.
pub open spec fn bool_result(r: Result<bool, Error>) -> Result<bool, ErrorView> {
    match r {
        Ok(b) => Ok(b),
        Err(e) => Err(e@),
    }
}

/// Defines minimum common operations of check digit algorithms.
pub trait CheckDigitAlgo {
    /// The algorithm object is consistent.
    spec fn wf(&self) -> bool;

    /// How many check characters end a protected string.
    spec fn check_len(&self) -> nat;

    /// The check characters of `unprotected`, or the error that computing them reports.
    spec fn check_chars_of(&self, unprotected: Seq<char>) -> Result<Seq<char>, ErrorView>;

    /// Returns true if the argument is valid according to the algorithm. The argument must be a
    /// *protected* string that consists of an unprotected string and its check digit(s).
    fn validate(&self, protected: &str) -> (r: Result<bool, Error>)
        requires
            self.wf(),
        ensures
            protected@.len() < self.check_len() ==> bool_result(r) == Err::<bool, ErrorView>(
                ErrorView::InvalidProtectedString(protected@),
            ),
            protected@.len() >= self.check_len() ==> {
                let cut = protected@.len() - self.check_len();
                bool_result(r) == match self.check_chars_of(protected@.subrange(0, cut)) {
                    Ok(cs) => Ok(cs == protected@.subrange(cut, protected@.len() as int)),
                    Err(e) => Err(e),
                }
            },
    ;

    /// Generates a valid protected string for the argument: the unprotected string followed by
    /// its computed check digit(s).
    fn generate(&self, unprotected: &str) -> (r: Result<String, Error>)
        requires
            self.wf(),
        ensures
            text_result(r) == match self.check_chars_of(unprotected@) {
                Ok(cs) => Ok(unprotected@ + cs),
                Err(e) => Err(e),
            },
    ;

    /// Computes the check digit(s) for the argument. Unlike `generate()`, this method returns
    /// the check digit(s) only.
    fn compute(&self, unprotected: &str) -> (r: Result<String, Error>)
        requires
            self.wf(),
        ensures
            text_result(r) == self.check_chars_of(unprotected@),
    ;
}

} // verus!
