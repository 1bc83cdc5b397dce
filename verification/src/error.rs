use vstd::prelude::*;

verus! {

/// The error taxonomy of the library.
///
/// Out-of-range timestamp updates are advisory only and never reported as an
/// error; an empty statistical sample is represented by absent fields, not by
/// an error.
#[derive(Clone, Copy, Debug, PartialEq, Eq, Structural)]
pub enum FlowError {
    /// An address string could not be parsed as an IPv4 or IPv6 address.
    InvalidAddress,
    /// A persisted flow table was structurally malformed: wrong type, missing
    /// required field, duplicate or unknown field, or duplicate flow key.
    MalformedPersistedState,
}

impl FlowError {
    /// A short stable name for the error, for reporting by callers.
    pub fn describe(&self) -> (r: &'static str)
        ensures
            *self is InvalidAddress ==> r@ == "invalid address"@,
            *self is MalformedPersistedState ==> r@ == "malformed persisted state"@,
    {
        match self {
            FlowError::InvalidAddress => "invalid address",
            FlowError::MalformedPersistedState => "malformed persisted state",
        }
    }
}

} // verus!
