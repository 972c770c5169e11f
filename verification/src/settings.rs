//! Constants of the simulation.
use vstd::prelude::*;

verus! {

/// The node type text of a client node.
pub const CLIENT_NODE: &'static str = "0";
/// The node type text of an EPR node.
pub const EPR_NODE: &'static str = "1";
/// Timeout used for pair events retry.
pub const TIMEOUT: i64 = 1000;
/// Desired key length after the key distribution, in bits.
pub const KEY_LENGTH: usize = 1024;
/// Number of qubits sent by the EPR node.
pub const QUBIT_AMOUNT: i32 = 10000;
/// Default resolution of a detector.
pub const DETECTOR_RESOLUTION: i64 = 10;
/// Default cooldown of a detector.
pub const DETECTOR_COOLDOWN_US: i64 = 10;
/// Time conversions.
pub const SECONDS_TO_MICROSECONDS: i64 = 1_000_000;
pub const SECONDS_TO_MILISECONDS: i64 = 1_000;
/// The CHSH value below which an eavesdropper is assumed.
pub const CHSH_THRESHOLD: i64 = 2;

} // verus!
