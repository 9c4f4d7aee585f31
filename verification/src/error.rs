//! The errors of the server.

use vstd::prelude::*;
use vstd::string::*;
use vstd::std_specs::convert::FromSpecImpl;
use crate::request::ParseRequestError;

verus! {

/// The error type of std's I/O, carried through opaquely.
#[verifier::external_type_specification]
#[verifier::external_body]
pub struct ExIoError(std::io::Error);

/// Possible errors in nanoserve.
#[derive(Debug)]
pub enum NanoserveError {
    /// IO error.
    Io(std::io::Error),
    /// Error parsing request.
    ParseRequest(ParseRequestError),
}

impl From<std::io::Error> for NanoserveError {
    fn from(error: std::io::Error) -> (wrapped: Self) {
        NanoserveError::Io(error)
    }
}

impl FromSpecImpl<std::io::Error> for NanoserveError {
    open spec fn obeys_from_spec() -> bool {
        true
    }

    open spec fn from_spec(error: std::io::Error) -> Self {
        NanoserveError::Io(error)
    }
}

impl From<ParseRequestError> for NanoserveError {
    fn from(error: ParseRequestError) -> (wrapped: Self) {
        NanoserveError::ParseRequest(error)
    }
}

impl FromSpecImpl<ParseRequestError> for NanoserveError {
    open spec fn obeys_from_spec() -> bool {
        true
    }

    open spec fn from_spec(error: ParseRequestError) -> Self {
        NanoserveError::ParseRequest(error)
    }
}

impl NanoserveError {
    /// What is said before the cause of an error.
    pub open spec fn spec_label(&self) -> Seq<char> {
        match self {
            NanoserveError::Io(_) => "IO error: "@,
            NanoserveError::ParseRequest(_) => "Parse request error: "@,
        }
    }

    /// The error in words: what kind of error it is, then its cause. The
    /// cause of a parse error is its description; that of an I/O error is
    /// what the error shows of itself.
    pub fn message(&self) -> (text: String)
        ensures
            text@.len() >= self.spec_label().len(),
            text@.subrange(0, self.spec_label().len() as int) == self.spec_label(),
            match self {
                NanoserveError::Io(_) => true,
                NanoserveError::ParseRequest(e) => text@ == self.spec_label()
                    + e.spec_description(),
            },
    {
        match self {
            NanoserveError::Io(e) => {
                let cause = e.to_string();
                let text = String::from_str("IO error: ").concat(cause.as_str());
                assert(text@.subrange(0, self.spec_label().len() as int) =~= self.spec_label());
                text
            },
            NanoserveError::ParseRequest(e) => {
                let text = String::from_str("Parse request error: ").concat(e.description());
                assert(text@.subrange(0, self.spec_label().len() as int) =~= self.spec_label());
                text
            },
        }
    }
}

} // verus!
