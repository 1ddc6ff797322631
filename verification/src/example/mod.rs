//! Provides sample settings models to be used in documentation which would otherwise be
//! cumbersome to write inline.
use vstd::prelude::*;

pub mod empty;
pub mod needs_migrator;

verus! {

/// Error type to make examples compile.
#[derive(Debug)]
pub struct EmptyError;

impl EmptyError {
    /// The message of the error.
    pub fn message(&self) -> (r: &'static str)
        ensures
            r@ == "EmptyError"@,
    {
        "EmptyError"
    }
}

} // verus!
