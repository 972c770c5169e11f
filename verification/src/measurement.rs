//! Measurements that clients (and an eavesdropper) make on single qubits.
use vstd::prelude::*;

use crate::basis::Basis;
use crate::error::PairError;

verus! {

/// What a client measured: the basis and the bit.
#[derive(Debug, Clone, Copy, PartialEq, Eq, Structural)]
pub struct ClientValue {
    pub basis: Basis,
    pub value: i16,
}

/// What an eavesdropper measured on the qubit before the client did.
#[derive(Debug, Clone, Copy, PartialEq, Eq, Structural)]
pub struct MalloryValue {
    pub basis: Basis,
    pub value: i16,
}

/// The client's part of an accepted measurement.
#[derive(Debug, Clone, Copy, PartialEq, Eq, Structural)]
pub struct AcceptedMeasurement {
    pub basis: Basis,
    pub value: i16,
}

/// A measurement made by a node on one qubit of a pair.
#[derive(Debug, Clone, Copy, PartialEq, Eq, Structural)]
pub struct Measurement {
    pub node_id: i32,
    pub process_id: i32,
    pub qubit_nr: i32,
    pub accepted: bool,
    pub mallory_value: Option<MalloryValue>,
    pub client_value: Option<ClientValue>,
}

impl ClientValue {
    pub fn new(basis: Basis, value: i16) -> (r: ClientValue)
        ensures
            r == (ClientValue { basis, value }),
    {
        ClientValue { basis, value }
    }
}

impl MalloryValue {
    pub fn new(basis: Basis, value: i16) -> (r: MalloryValue)
        ensures
            r == (MalloryValue { basis, value }),
    {
        MalloryValue { basis, value }
    }
}

/// The value that counts for a measurement: the eavesdropper's when there is one,
/// else the client's.
pub open spec fn effective_value(m: Measurement) -> Option<i16> {
    match m.mallory_value {
        Some(mv) => Some(mv.value),
        None => match m.client_value {
            Some(cv) => Some(cv.value),
            None => None,
        },
    }
}

/// The basis that counts for a measurement, with the same priority as [`effective_value`].
pub open spec fn effective_basis(m: Measurement) -> Option<Basis> {
    match m.mallory_value {
        Some(mv) => Some(mv.basis),
        None => match m.client_value {
            Some(cv) => Some(cv.basis),
            None => None,
        },
    }
}

impl Measurement {
    /// A fresh measurement with nothing recorded yet.
    pub fn new(node_id: i32, process_id: i32, qubit_nr: i32) -> (r: Measurement)
        ensures
            r == (Measurement {
                node_id,
                process_id,
                qubit_nr,
                accepted: false,
                mallory_value: None,
                client_value: None,
            }),
    {
        Measurement {
            node_id,
            process_id,
            qubit_nr,
            accepted: false,
            mallory_value: None,
            client_value: None,
        }
    }

    /// Marks the measurement as accepted: both qubits of the pair were measured.
    pub fn set_accepted(&mut self)
        ensures
            *final(self) == (Measurement { accepted: true, ..*old(self) }),
    {
        self.accepted = true;
    }

    /// The measured value; the eavesdropper's value has priority over the client's.
    pub fn get_value(&self) -> (r: Result<i16, PairError>)
        ensures
            match effective_value(*self) {
                Some(v) => r == Ok::<i16, PairError>(v),
                None => r matches Err(PairError::NotMeasured()),
            },
    {
        if let Some(mallory_value) = self.mallory_value {
            return Ok(mallory_value.value);
        }
        if let Some(client_value) = self.client_value {
            return Ok(client_value.value);
        }
        Err(PairError::NotMeasured())
    }

    /// The measured basis; the eavesdropper's basis has priority over the client's.
    pub fn get_basis(&self) -> (r: Result<Basis, PairError>)
        ensures
            match effective_basis(*self) {
                Some(b) => r == Ok::<Basis, PairError>(b),
                None => r matches Err(PairError::NotMeasured()),
            },
    {
        if let Some(mallory_value) = self.mallory_value {
            return Ok(mallory_value.basis);
        }
        if let Some(client_value) = self.client_value {
            return Ok(client_value.basis);
        }
        Err(PairError::NotMeasured())
    }
}

/// The value that a CHSH correlation uses for a bit: 0 becomes -1, anything else stays.
pub open spec fn chsh_value(v: i16) -> i16 {
    if v == 0 {
        -1i16
    } else {
        v
    }
}

impl AcceptedMeasurement {
    pub fn new(basis: Basis, value: i16) -> (r: AcceptedMeasurement)
        ensures
            r == (AcceptedMeasurement { basis, value }),
    {
        AcceptedMeasurement { basis, value }
    }

    /// Maps the bit 0 to -1 for the CHSH correlation.
    pub fn map_value(&mut self)
        ensures
            final(self).basis == old(self).basis,
            final(self).value == chsh_value(old(self).value),
    {
        if self.value == 0 {
            self.value = -1;
        }
    }
}

} // verus!
