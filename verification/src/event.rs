//! Events, their payloads and their place in simulated time.
use vstd::prelude::*;

use crate::basis::Side;
use crate::node::NodeKind;
use crate::state::PairKey;

verus! {

/// When an event is to run: at a given timestamp, or at the loop's current time.
#[derive(Debug, Clone, Copy, PartialEq, Eq, Structural)]
pub enum EventTime {
    At(i64),
    Now,
}

/// The event handlers the simulation knows.
#[derive(Debug, Clone, Copy, PartialEq, Eq, Hash, Structural)]
pub enum EventName {
    TestEvent,
    CreateNode,
    CreateLink,
    HandleQkdInit,
    ReceivePair,
    MeasurementTimeout,
    PostProcess,
    StoreSocket,
    DarkCount,
    PairTimeout,
    SameBasis,
}

/// Arguments of the node creation event.
#[derive(Debug, Clone)]
pub struct CreateNodePayload {
    pub name: String,
    pub node_type: NodeKind,
}

/// Arguments of the link creation event.
#[derive(Debug, Clone, Copy, PartialEq, Eq, Structural)]
pub struct CreateLinkPayload {
    pub src_id: i32,
    pub dst_id: i32,
    pub distance: i64,
    pub is_secure: bool,
}

/// Arguments of the event that starts a key distribution.
#[derive(Debug, Clone, Copy, PartialEq, Eq, Structural)]
pub struct HandleQkdInitPayload {
    pub src_node_id: i32,
    pub dst_node_id: i32,
    pub epr_node_id: i32,
    pub src_epr_link_id: i32,
    pub dst_epr_link_id: i32,
}

/// Arguments of the event of a qubit reaching a detector.
#[derive(Debug, Clone, Copy, PartialEq, Eq, Structural)]
pub struct ReceivePairPayload {
    pub node_id: i32,
    pub side: Side,
    pub qubit_nr: i32,
    pub process_id: i32,
    pub link_id: i32,
}

/// Arguments of a measurement timeout.
#[derive(Debug, Clone, Copy, PartialEq, Eq, Structural)]
pub struct MeasurementTimeoutPayload {
    pub process_id: i32,
    pub qubit_nr: i32,
}

/// Arguments of the classical post-processing of a process.
#[derive(Debug, Clone, Copy, PartialEq, Eq, Structural)]
pub struct PostProcessPayload {
    pub process_id: i32,
}

/// Arguments of the same-basis evaluation of a process.
#[derive(Debug, Clone, Copy, PartialEq, Eq, Structural)]
pub struct SameBasisPayload {
    pub process_id: i32,
}

/// Arguments of the event that stores a client connection; the connection itself is
/// kept by the program around the library under this number.
#[derive(Debug, Clone, Copy, PartialEq, Eq, Structural)]
pub struct StoreSocketPayload {
    pub connection_id: u64,
}

/// Arguments of a dark count on a detector.
#[derive(Debug, Clone, Copy, PartialEq, Eq, Structural)]
pub struct DarkCountPayload {
    pub detector_id: i32,
}

/// Arguments of the timeout of an emitted pair.
#[derive(Debug, Clone, Copy, PartialEq, Eq, Structural)]
pub struct PairTimeoutPayload {
    pub pair_key: PairKey,
    pub src_link: i32,
    pub dst_link: i32,
}

/// The arguments of an event, one variant per handler.
#[derive(Debug, Clone)]
pub enum EventPayload {
    TestEvent(),
    CreateNode(CreateNodePayload),
    CreateLink(CreateLinkPayload),
    HandleQkdInit(HandleQkdInitPayload),
    ReceivePair(ReceivePairPayload),
    MeasurementTimeout(MeasurementTimeoutPayload),
    PostProcess(PostProcessPayload),
    StoreSocket(StoreSocketPayload),
    DarkCount(DarkCountPayload),
    PairTimeout(PairTimeoutPayload),
    SameBasis(SameBasisPayload),
}

/// An event as producers submit it.
#[derive(Debug, Clone)]
pub struct Event {
    pub name: EventName,
    pub payload: EventPayload,
    pub timestamp: EventTime,
}

/// An event with its timestamp resolved, as the event loop stores it.
#[derive(Debug, Clone)]
pub struct ScheduledEvent {
    pub event: Event,
    pub timestamp: i64,
}

impl EventTime {
    pub open spec fn spec_resolve(self, current_time: i64) -> i64 {
        match self {
            EventTime::At(t) => t,
            EventTime::Now => current_time,
        }
    }

    /// The timestamp the event runs at, given the loop's current time.
    pub fn resolve(self, current_time: i64) -> (r: i64)
        ensures
            r == self.spec_resolve(current_time),
    {
        match self {
            EventTime::At(t) => t,
            EventTime::Now => current_time,
        }
    }
}

impl Event {
    pub fn new(name: EventName, payload: EventPayload, timestamp: EventTime) -> (r: Event)
        ensures
            r == (Event { name, payload, timestamp }),
    {
        Event { name, payload, timestamp }
    }

    /// An event to run at the loop's current time.
    pub fn new_now(name: EventName, payload: EventPayload) -> (r: Event)
        ensures
            r == (Event { name, payload, timestamp: EventTime::Now }),
    {
        Event::new(name, payload, EventTime::Now)
    }

    /// An event to run at `timestamp`.
    pub fn new_at(name: EventName, payload: EventPayload, timestamp: i64) -> (r: Event)
        ensures
            r == (Event { name, payload, timestamp: EventTime::At(timestamp) }),
    {
        Event::new(name, payload, EventTime::At(timestamp))
    }
}

impl ScheduledEvent {
    pub fn new(event: Event, timestamp: i64) -> (r: ScheduledEvent)
        ensures
            r == (ScheduledEvent { event, timestamp }),
    {
        ScheduledEvent { event, timestamp }
    }
}

} // verus!
