use vstd::prelude::*;

verus! {

/// Failures surfaced by loads, saves and updates.
#[derive(Clone, PartialEq, Eq, Debug)]
pub enum Error {
    /// A load found no value under the resolved flat key.
    NotFound,
    /// Stored bytes do not decode as the expected type. Absence and
    /// corruption are distinct: this is never turned into `NotFound`.
    Deserialize,
    /// A failure reported by a caller-supplied update action.
    Msg(String),
}

} // verus!
