//! References to one qubit of a pair: its process, its number and its side.
use vstd::prelude::*;

verus! {

/// The end of the pair that a qubit reference points at.
#[derive(Debug, Clone, Copy, PartialEq, Eq, Structural)]
pub enum QubitRefSide {
    Source,
    Destination,
}

/// One qubit of a pair.
#[derive(Debug, Clone, Copy, PartialEq, Eq, Structural)]
pub struct QubitRef {
    pub process_id: i32,
    pub qubit_nr: i32,
    pub side: QubitRefSide,
}

impl QubitRef {
    pub fn new(process_id: i32, qubit_nr: i32, side: QubitRefSide) -> (r: QubitRef)
        ensures
            r == (QubitRef { process_id, qubit_nr, side }),
    {
        QubitRef { process_id, qubit_nr, side }
    }
}

} // verus!
