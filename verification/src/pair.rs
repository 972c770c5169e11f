//! Entangled pairs and the accepted pairs that sifting works on.
use vstd::prelude::*;

use crate::basis::Side;
use crate::error::PairError;
use crate::measurement::{chsh_value, AcceptedMeasurement, Measurement};

verus! {

/// The bit pattern of the `f32` value 1.0, the fidelity of a freshly emitted pair.
pub const FULL_FIDELITY_BITS: u32 = 0x3f80_0000u32;

/// A pair of entangled qubits travelling to two clients.
///
/// The fidelity is kept as the bit pattern of its `f32` value.
#[derive(Debug, Clone, Copy, PartialEq, Eq, Structural)]
pub struct NewEntangledPair {
    pub src_id: i32,
    pub dst_id: i32,
    pub fidelity_bits: u32,
    pub created_at: i64,
    pub src_measurement: Option<Measurement>,
    pub dst_measurement: Option<Measurement>,
    pub timeout_timestamp: i64,
    pub process_id: i32,
    pub qubit_nr: i32,
    pub accepted: bool,
}

/// A pair whose two qubits were both measured by the clients.
#[derive(Debug, Clone, Copy, PartialEq, Eq, Structural)]
pub struct AcceptedPair {
    pub src_id: i32,
    pub dst_id: i32,
    pub src_measurement: AcceptedMeasurement,
    pub dst_measurement: AcceptedMeasurement,
    pub process_id: i32,
    pub qubit_nr: i32,
}

/// The measurement recorded on the given side.
pub open spec fn measurement_on(p: NewEntangledPair, side: Side) -> Option<Measurement> {
    match side {
        Side::Source => p.src_measurement,
        Side::Destination => p.dst_measurement,
    }
}

/// The client's part of a measurement, if the client has measured.
pub open spec fn client_part(m: Option<Measurement>) -> Option<AcceptedMeasurement> {
    match m {
        Some(mm) => match mm.client_value {
            Some(cv) => Some(AcceptedMeasurement { basis: cv.basis, value: cv.value }),
            None => None,
        },
        None => None,
    }
}

/// The accepted form of a pair, when both clients have measured.
pub open spec fn spec_accepted(p: NewEntangledPair) -> Option<AcceptedPair> {
    match (client_part(p.src_measurement), client_part(p.dst_measurement)) {
        (Some(s), Some(d)) => Some(
            AcceptedPair {
                src_id: p.src_id,
                dst_id: p.dst_id,
                src_measurement: s,
                dst_measurement: d,
                process_id: p.process_id,
                qubit_nr: p.qubit_nr,
            },
        ),
        _ => None,
    }
}

/// A pair with both values mapped for the CHSH correlation (0 becomes -1).
pub open spec fn mapped_pair(p: AcceptedPair) -> AcceptedPair {
    AcceptedPair {
        src_measurement: AcceptedMeasurement {
            value: chsh_value(p.src_measurement.value),
            ..p.src_measurement
        },
        dst_measurement: AcceptedMeasurement {
            value: chsh_value(p.dst_measurement.value),
            ..p.dst_measurement
        },
        ..p
    }
}

/// The bits of the source side of the pairs, in order.
pub open spec fn src_bits(pairs: Seq<AcceptedPair>) -> Seq<u8> {
    pairs.map_values(|p: AcceptedPair| p.src_measurement.value as u8)
}

/// The bits of the destination side of the pairs, in order.
pub open spec fn dst_bits(pairs: Seq<AcceptedPair>) -> Seq<u8> {
    pairs.map_values(|p: AcceptedPair| p.dst_measurement.value as u8)
}

/// Both values of every pair are bits.
pub open spec fn accepted_bits(pairs: Seq<AcceptedPair>) -> bool {
    forall|i: int|
        #![trigger pairs[i]]
        0 <= i < pairs.len() ==> 0 <= pairs[i].src_measurement.value <= 1 && 0
            <= pairs[i].dst_measurement.value <= 1
}

impl NewEntangledPair {
    /// A fresh, unmeasured pair of full fidelity.
    pub fn new(
        src_id: i32,
        dst_id: i32,
        process_id: i32,
        qubit_nr: i32,
        _save: bool,
        current_time: i64,
    ) -> (r: Result<NewEntangledPair, PairError>)
        ensures
            r matches Ok(p) && p == (NewEntangledPair {
                src_id,
                dst_id,
                fidelity_bits: FULL_FIDELITY_BITS,
                created_at: current_time,
                src_measurement: None,
                dst_measurement: None,
                timeout_timestamp: 0,
                process_id,
                qubit_nr,
                accepted: false,
            }),
    {
        let pair = NewEntangledPair {
            src_id,
            dst_id,
            fidelity_bits: FULL_FIDELITY_BITS,
            created_at: current_time,
            src_measurement: None,
            dst_measurement: None,
            timeout_timestamp: 0,
            process_id,
            qubit_nr,
            accepted: false,
        };
        Ok(pair)
    }

    /// Records the measurement of the given side.
    pub fn set_measurement(&mut self, side: Side, measurement: Measurement)
        ensures
            *final(self) == (match side {
                Side::Source => NewEntangledPair { src_measurement: Some(measurement), ..*old(self) },
                Side::Destination => NewEntangledPair {
                    dst_measurement: Some(measurement),
                    ..*old(self)
                },
            }),
    {
        match side {
            Side::Source => {
                self.src_measurement = Some(measurement);
            },
            Side::Destination => {
                self.dst_measurement = Some(measurement);
            },
        }
    }

    /// The measurement of the side opposite to `side`.
    pub fn get_measurement(&mut self, side: Side) -> (r: Result<Measurement, PairError>)
        ensures
            *final(self) == *old(self),
            match measurement_on(*old(self), side.other()) {
                Some(m) => r == Ok::<Measurement, PairError>(m),
                None => r matches Err(PairError::NotMeasured()),
            },
    {
        match side {
            Side::Source => match self.dst_measurement {
                Some(m) => Ok(m),
                None => Err(PairError::NotMeasured()),
            },
            Side::Destination => match self.src_measurement {
                Some(m) => Ok(m),
                None => Err(PairError::NotMeasured()),
            },
        }
    }

    /// The measurement recorded on `side`, if any.
    pub fn measurement_at(&self, side: Side) -> (r: Option<Measurement>)
        ensures
            r == measurement_on(*self, side),
    {
        match side {
            Side::Source => self.src_measurement,
            Side::Destination => self.dst_measurement,
        }
    }

    /// The accepted form of the pair: both clients' bases and values.
    pub fn map_accepted(&self) -> (r: Result<AcceptedPair, PairError>)
        ensures
            match spec_accepted(*self) {
                Some(a) => r == Ok::<AcceptedPair, PairError>(a),
                None => r matches Err(PairError::NotMeasured()),
            },
    {
        let src = match self.src_measurement {
            Some(m) => match m.client_value {
                Some(cv) => AcceptedMeasurement::new(cv.basis, cv.value),
                None => {
                    return Err(PairError::NotMeasured());
                },
            },
            None => {
                return Err(PairError::NotMeasured());
            },
        };
        let dst = match self.dst_measurement {
            Some(m) => match m.client_value {
                Some(cv) => AcceptedMeasurement::new(cv.basis, cv.value),
                None => {
                    return Err(PairError::NotMeasured());
                },
            },
            None => {
                return Err(PairError::NotMeasured());
            },
        };
        Ok(AcceptedPair::new(self.src_id, self.dst_id, src, dst, self.process_id, self.qubit_nr))
    }
}

impl AcceptedPair {
    pub fn new(
        src_id: i32,
        dst_id: i32,
        src_measurement: AcceptedMeasurement,
        dst_measurement: AcceptedMeasurement,
        process_id: i32,
        qubit_nr: i32,
    ) -> (r: AcceptedPair)
        ensures
            r == (AcceptedPair {
                src_id,
                dst_id,
                src_measurement,
                dst_measurement,
                process_id,
                qubit_nr,
            }),
    {
        AcceptedPair { src_id, dst_id, src_measurement, dst_measurement, process_id, qubit_nr }
    }

    /// Maps the values 0 to -1 on both sides, for the CHSH correlation.
    pub fn map_values(&mut self)
        ensures
            *final(self) == mapped_pair(*old(self)),
    {
        self.src_measurement.map_value();
        self.dst_measurement.map_value();
    }
}


impl AcceptedPair {
    /// The raw keys of both sides: the source bits and the destination bits, in order.
    pub fn get_qubits_vec(pairs: Vec<AcceptedPair>) -> (r: (Vec<u8>, Vec<u8>))
        requires
            accepted_bits(pairs@),
        ensures
            r.0@ == src_bits(pairs@),
            r.1@ == dst_bits(pairs@),
    {
        let mut src: Vec<u8> = Vec::new();
        let mut dst: Vec<u8> = Vec::new();
        let mut i: usize = 0;
        while i < pairs.len()
            invariant
                i <= pairs@.len(),
                accepted_bits(pairs@),
                src@ == src_bits(pairs@.take(i as int)),
                dst@ == dst_bits(pairs@.take(i as int)),
            decreases pairs@.len() - i,
        {
            let p = pairs[i];
            proof {
                assert(0 <= pairs@[i as int].src_measurement.value <= 1);
            }
            src.push(p.src_measurement.value as u8);
            dst.push(p.dst_measurement.value as u8);
            proof {
                assert(pairs@.take(i + 1) =~= pairs@.take(i as int).push(p));
                assert(src_bits(pairs@.take(i + 1)) =~= src_bits(pairs@.take(i as int)).push(p.src_measurement.value as u8));
                assert(dst_bits(pairs@.take(i + 1)) =~= dst_bits(pairs@.take(i as int)).push(p.dst_measurement.value as u8));
            }
            i = i + 1;
        }
        proof {
            assert(pairs@.take(i as int) =~= pairs@);
        }
        (src, dst)
    }
}

} // verus!
