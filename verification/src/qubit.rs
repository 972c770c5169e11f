//! References to a qubit by the hash of its process and the index of its pair.
use vstd::prelude::*;

verus! {

/// The end of the pair a qubit travels to.
#[derive(Debug, Clone, Copy, PartialEq, Eq, Structural)]
pub enum Side {
    Right,
    Left,
}

/// One qubit, named by the hash of its process and the index of its pair.
#[derive(Debug, Clone)]
pub struct QubitRef {
    pub process_hash: String,
    pub entangled_pair_id: usize,
    pub side: Side,
}

} // verus!
