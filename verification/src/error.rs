//! Typed error surface for the core layer.

use vstd::prelude::*;

verus! {

/// Errors of the core layer.
#[derive(Clone, Debug, PartialEq, Eq)]
pub enum CoreError {
    NotFound,
    Invalid(String),
    StateViolation(String),
}

impl CoreError {
    /// The user-facing text of the error.
    pub open spec fn spec_message(self) -> Seq<char> {
        match self {
            CoreError::NotFound => "entity not found"@,
            CoreError::Invalid(detail) => "invalid argument: "@ + detail@,
            CoreError::StateViolation(detail) => "state violation: "@ + detail@,
        }
    }

    /// The user-facing text of the error: "entity not found", or the kind
    /// of violation followed by its detail.
    pub fn message(&self) -> (s: String)
        ensures
            s@ == self.spec_message(),
    {
        match self {
            CoreError::NotFound => "entity not found".to_owned(),
            CoreError::Invalid(detail) => {
                let mut s = "invalid argument: ".to_owned();
                s.append(detail.as_str());
                s
            },
            CoreError::StateViolation(detail) => {
                let mut s = "state violation: ".to_owned();
                s.append(detail.as_str());
                s
            },
        }
    }
}

} // verus!
