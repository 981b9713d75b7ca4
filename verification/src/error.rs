//! Errors raised by the verified core. Messages that need number formatting
//! are assembled by the caller from the structured variants.
use vstd::prelude::*;

verus! {

/// An error of the calculation setup.
#[derive(Debug)]
pub enum PwdftError {
    /// A configuration that the input format accepts but that has no
    /// implementation yet.
    NotImplemented { what: String },
}

} // verus!
