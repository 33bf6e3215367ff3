//! Visibility modes of circuit values.
//!
//! A literal written in a program text may carry a visibility suffix
//! (`.constant`, `.public`, `.private`). The suffix is consumed by the
//! circuit environment that builds constraints; evaluation in this core
//! ignores it, but parsing, display and the circuit-cost bookkeeping all
//! speak of it.
use vstd::prelude::*;

verus! {

/// The visibility of a circuit value.
#[derive(Clone, Copy, Debug, PartialEq, Eq, Structural)]
pub enum Mode {
    Constant,
    Public,
    Private,
}

/// A tally of circuit objects: constants, public and private variables,
/// and constraints.
#[derive(Clone, Copy, Debug, PartialEq, Eq, Structural)]
pub struct Count {
    pub constants: u64,
    pub public: u64,
    pub private: u64,
    pub constraints: u64,
}

impl Count {
    /// An exact tally.
    pub fn is(constants: u64, public: u64, private: u64, constraints: u64) -> (r: Count)
        ensures
            r == (Count { constants, public, private, constraints }),
    {
        Count { constants, public, private, constraints }
    }
}

} // verus!
