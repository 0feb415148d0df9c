//! The structured outcomes that abort a search.

use vstd::prelude::*;

verus! {

/// Why a search ended without a solution.
#[derive(Clone, Copy, Debug, PartialEq, Eq, Structural)]
pub enum EngineError {
    /// The difficulty was zero, so no threshold exists.
    InvalidDifficulty,
    /// The address did not have exactly 20 bytes.
    EncodingFailure,
    /// The bounded search space was exhausted, or the search was stopped from
    /// outside, before any candidate met the threshold.
    NoSolutionFound,
}

impl EngineError {
    /// A short description for messages.
    pub fn message(&self) -> (r: &'static str)
        ensures
            r@.len() > 0,
    {
        match self {
            EngineError::InvalidDifficulty => {
                proof {
                    reveal_strlit("difficulty must be greater than zero");
                }
                "difficulty must be greater than zero"
            },
            EngineError::EncodingFailure => {
                proof {
                    reveal_strlit("address must be exactly 20 bytes");
                }
                "address must be exactly 20 bytes"
            },
            EngineError::NoSolutionFound => {
                proof {
                    reveal_strlit("no solution found");
                }
                "no solution found"
            },
        }
    }
}

} // verus!
