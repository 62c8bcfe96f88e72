//! What can go wrong while planning.

use vstd::prelude::*;
use crate::paged_kv::slots::HipError;

verus! {

/// A failure of the planner.
#[derive(Debug)]
pub enum ModelError {
    Hip(HipError),
    MissingWeight(String),
    InvalidConfig(String),
}

/// A failure as the contracts speak of it.
#[verifier::ext_equal]
pub enum Fault {
    Missing(Seq<char>),
    Invalid(Seq<char>),
}

impl ModelError {
    /// This error reports the given fault.
    pub open spec fn reports(&self, fault: Fault) -> bool {
        match fault {
            Fault::Missing(text) => self.is_missing(text),
            Fault::Invalid(text) => self.is_invalid(text),
        }
    }

    /// This is a missing-weight error with the given text.
    pub open spec fn is_missing(&self, text: Seq<char>) -> bool {
        self matches ModelError::MissingWeight(m) && m@ == text
    }

    /// This is an invalid-configuration error with the given text.
    pub open spec fn is_invalid(&self, text: Seq<char>) -> bool {
        self matches ModelError::InvalidConfig(m) && m@ == text
    }
}

/// A missing-weight error.
pub fn missing(text: &str) -> (r: ModelError)
    ensures
        r.is_missing(text@),
{
    ModelError::MissingWeight(text.to_owned())
}

/// An invalid-configuration error.
pub fn invalid(text: &str) -> (r: ModelError)
    ensures
        r.is_invalid(text@),
{
    ModelError::InvalidConfig(text.to_owned())
}

} // verus!
