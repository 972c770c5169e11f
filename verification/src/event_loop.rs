//! The event loop: a priority queue of events in simulated time, and the handle that
//! producers use to submit events.
use vstd::prelude::*;

use std::sync::mpsc::Sender;

use crate::error::{Error, SimError};
use crate::event::{CreateLinkPayload, CreateNodePayload, Event, EventPayload, ScheduledEvent};
use crate::node::{Detector, Link, Node};
use crate::handlers::distinct_nodes;
use crate::registry::{exec_outcome, Registry};
use crate::heap::{is_min_of, BinHeap};
use vstd::multiset::Multiset;

verus! {

/// The sending end of a channel of std.
#[verifier::external_type_specification]
#[verifier::external_body]
#[verifier::reject_recursive_types(T)]
pub struct ExSender<T>(Sender<T>);

/// `Sender::send` of std. It fails only when the receiving end is gone; the std
/// documentation states that the value that could not be sent comes back in the error,
/// which this wrapper returns as it is. Whether the receiver is alive is not known here,
/// so success is not stated.
#[verifier::external_body]
fn send_on(tx: &Sender<Event>, event: Event) -> (r: Result<(), Event>)
    ensures
        r matches Err(e) ==> e == event,
{
    match tx.send(event) {
        Ok(()) => Ok(()),
        Err(e) => Err(e.0),
    }
}

/// Handle used by producers to submit events to the simulation loop. Beside the channel,
/// it keeps (in ghost state only) every event handed to the channel so far.
pub struct EventLoopHandler {
    tx: Sender<Event>,
    submitted: Ghost<Seq<Event>>,
}

impl EventLoopHandler {
    /// The channel the handle submits on.
    pub closed spec fn channel(&self) -> Sender<Event> {
        self.tx
    }

    /// The events handed to the channel through this handle, in order, whether or not the
    /// loop was still there to take them.
    pub closed spec fn sent(&self) -> Seq<Event> {
        self.submitted@
    }

    /// A handle that submits on the given channel.
    pub fn new(tx: Sender<Event>) -> (r: EventLoopHandler)
        ensures
            r.channel() == tx,
            r.sent() == Seq::<Event>::empty(),
    {
        EventLoopHandler { tx, submitted: Ghost(Seq::empty()) }
    }

    /// Sends an event to the loop; when the loop is gone, the event comes back in the error.
    pub fn push_event(&mut self, event: Event) -> (r: Result<(), SimError>)
        ensures
            final(self).channel() == old(self).channel(),
            final(self).sent() == old(self).sent().push(event),
            r matches Err(e) ==> e matches SimError::ChannelSendError { source } && source == event,
    {
        proof {
            self.submitted@ = self.submitted@.push(event);
        }
        match send_on(&self.tx, event) {
            Ok(()) => Ok(()),
            Err(e) => Err(SimError::ChannelSendError { source: e }),
        }
    }
}

/// Pending events in timestamp order, and the simulated time.
pub struct EventLoop {
    bin_heap: BinHeap,
    current_time: i64,
}

impl EventLoop {
    /// The events waiting to run.
    pub closed spec fn pending(&self) -> Multiset<ScheduledEvent> {
        self.bin_heap.items()
    }

    /// How many events are waiting.
    pub closed spec fn pending_count(&self) -> nat {
        self.bin_heap.arr@.len()
    }

    /// The simulated time.
    pub closed spec fn time(&self) -> i64 {
        self.current_time
    }

    /// The queue is in heap order.
    pub closed spec fn wf(&self) -> bool {
        self.bin_heap.wf()
    }

    /// An empty loop at time zero.
    pub fn new() -> (r: EventLoop)
        ensures
            r.wf(),
            r.pending() == Multiset::<ScheduledEvent>::empty(),
            r.pending_count() == 0,
            r.time() == 0,
    {
        EventLoop { bin_heap: BinHeap::new(), current_time: 0 }
    }

    /// Schedules an event at its timestamp, or at the current time when it is to run now.
    pub fn push_event(&mut self, event: Event)
        requires
            old(self).wf(),
            old(self).pending_count() < usize::MAX,
        ensures
            final(self).wf(),
            final(self).pending() == old(self).pending().insert(
                ScheduledEvent { timestamp: event.timestamp.spec_resolve(old(self).time()), event },
            ),
            final(self).pending_count() == old(self).pending_count() + 1,
            final(self).time() == old(self).time(),
    {
        let timestamp = event.timestamp.resolve(self.current_time);
        let schedule_event = ScheduledEvent::new(event, timestamp);
        self.bin_heap.insert(schedule_event);
    }

    /// Removes an event with the smallest timestamp, if any is waiting.
    pub fn pop_next_event(&mut self) -> (r: Option<ScheduledEvent>)
        requires
            old(self).wf(),
        ensures
            final(self).wf(),
            final(self).time() == old(self).time(),
            old(self).pending_count() == 0 ==> r is None && final(self).pending() == old(self).pending()
                && final(self).pending_count() == 0,
            old(self).pending_count() > 0 ==> (r matches Some(e) && old(self).pending().contains(e)
                && (forall|x: ScheduledEvent| #[trigger] old(self).pending().contains(x) ==> e.timestamp <= x.timestamp)
                && final(self).pending() == old(self).pending().remove(e)
                && final(self).pending_count() == old(self).pending_count() - 1),
    {
        let r = self.bin_heap.extract_min();
        proof {
            if old(self).pending_count() > 0 {
                let s = old(self).bin_heap.arr@;
                let e = s[0];
                assert(s.to_multiset().contains(e)) by {
                    vstd::seq_lib::to_multiset_contains(s, e);
                }
                assert forall|x: ScheduledEvent| #[trigger] s.to_multiset().contains(x) implies e.timestamp <= x.timestamp by {
                    vstd::seq_lib::to_multiset_contains(s, x);
                    let k = choose|k: int| 0 <= k < s.len() && s[k] == x;
                    assert(is_min_of(s, e));
                    assert(e.timestamp <= s[k].timestamp);
                }
            }
        }
        r
    }

    /// Moves the simulated time to `new_time` and returns it.
    pub fn set_new_timestamp(&mut self, new_time: i64) -> (r: i64)
        ensures
            r == new_time,
            final(self).time() == new_time,
            final(self).pending() == old(self).pending(),
            final(self).pending_count() == old(self).pending_count(),
            final(self).wf() == old(self).wf(),
    {
        self.current_time = new_time;
        self.current_time
    }

    /// One turn of the loop: takes an event with the smallest timestamp, moves the
    /// simulated time to it and runs it through the registry. An event that would start a
    /// key distribution between a client and itself is refused without running. With nothing waiting, nothing happens.
    pub fn run_next<
        F: Fn(u32, i64, i32) -> bool,
        G: Fn() -> usize,
        N: Fn(CreateNodePayload) -> Result<(Node, Detector), Error>,
        L: Fn(CreateLinkPayload) -> Result<Link, Error>,
    >(
        &mut self,
        registry: &mut Registry,
        handle: &mut EventLoopHandler,
        draw: &F,
        dark_counts: &G,
        make_node: &N,
        make_link: &L,
    ) -> (r: Option<Result<(), Error>>)
        requires
            old(self).wf(),
            old(registry).wf(),
            forall|f: u32, d: i64, a: i32| draw.requires((f, d, a)),
            dark_counts.requires(()),
            forall|a: CreateNodePayload| make_node.requires((a,)),
            forall|a: CreateLinkPayload| make_link.requires((a,)),
        ensures
            final(self).wf(),
            final(registry).wf(),
            final(registry).registered() == old(registry).registered(),
            final(handle).channel() == old(handle).channel(),
            old(self).pending_count() == 0 ==> {
                &&& r is None
                &&& final(self).pending() == old(self).pending()
                &&& final(self).pending_count() == 0
                &&& final(self).time() == old(self).time()
                &&& final(registry).state_view() == old(registry).state_view()
                &&& final(handle).sent() == old(handle).sent()
            },
            old(self).pending_count() > 0 ==> exists|e: ScheduledEvent|
                #![trigger old(self).pending().contains(e)]
                {
                    &&& old(self).pending().contains(e)
                    &&& forall|x: ScheduledEvent| #[trigger] old(self).pending().contains(x) ==> e.timestamp <= x.timestamp
                    &&& final(self).pending() == old(self).pending().remove(e)
                    &&& final(self).pending_count() == old(self).pending_count() - 1
                    &&& final(self).time() == e.timestamp
                    &&& r matches Some(res) && if !distinct_nodes(e.event.payload) {
                        &&& res matches Err(Error::Sim(SimError::NotValidInput(_)))
                        &&& final(registry).state_view() == old(registry).state_view()
                        &&& final(handle).sent() == old(handle).sent()
                    } else {
                        exec_outcome(
                            old(registry).registered(),
                            e,
                            draw,
                            dark_counts,
                            make_node,
                            make_link,
                            old(registry).state_view(),
                            old(handle).sent(),
                            final(registry).state_view(),
                            final(handle).sent(),
                            res,
                        )
                    }
                },
    {
        let scheduled_event = match self.pop_next_event() {
            Some(e) => e,
            None => {
                return None;
            },
        };
        let ghost e = scheduled_event;
        let timestamp = scheduled_event.timestamp;
        self.set_new_timestamp(timestamp);
        let distinct = match &scheduled_event.event.payload {
            EventPayload::HandleQkdInit(a) => a.src_node_id != a.dst_node_id,
            _ => true,
        };
        if !distinct {
            return Some(Err(Error::Sim(SimError::NotValidInput("event cannot run".to_owned()))));
        }
        let res = registry.exec_event(scheduled_event, handle, draw, dark_counts, make_node, make_link);
        Some(res)
    }

    /// The simulated time.
    pub fn get_current_time(&self) -> (r: i64)
        ensures
            r == self.time(),
    {
        self.current_time
    }
}

/// Events leave the loop in timestamp order: whatever is still waiting after an event was
/// taken runs no earlier than it.
pub proof fn law_events_leave_in_time_order(
    waiting: Multiset<ScheduledEvent>,
    first: ScheduledEvent,
    later: ScheduledEvent,
)
    requires
        waiting.contains(first),
        forall|x: ScheduledEvent| #[trigger] waiting.contains(x) ==> first.timestamp <= x.timestamp,
        waiting.remove(first).contains(later),
    ensures
        first.timestamp <= later.timestamp,
{
    broadcast use vstd::multiset::group_multiset_axioms;

    assert(waiting.contains(later));
}

} // verus!
