//! The registry of event handlers, and the state they work on.
use vstd::prelude::*;

use crate::error::{Error, SimError};
use crate::event::{CreateLinkPayload, CreateNodePayload, Event, EventName, EventPayload, ScheduledEvent};
use crate::event_loop::EventLoopHandler;
use crate::handlers::{
    count_fits, create_link, distinct_nodes, create_link_outcome, create_node, create_node_outcome, dark_count,
    dark_count_outcome, handle_qkd_init, handle_qkd_init_outcome, pair_timeout, pair_timeout_outcome,
    receive_pair, receive_pair_outcome,
};
use crate::node::{Detector, Link, Node};
use crate::postprocess::{post_process_key, post_process_outcome, same_basis, same_basis_outcome};
use crate::state::{SimulationState, StateView};

verus! {

/// The event handlers in service, and the state of the simulation.
pub struct Registry {
    pub funcs: Vec<EventName>,
    state: SimulationState,
}

/// What running the handler of `name` does, from the state `s0` and the submitted events
/// `sent0` to `s1` and `sent1`. A name without a handler in this library is answered with
/// [`Error::FunctionNotFound`].
pub open spec fn handler_outcome<
    F: Fn(u32, i64, i32) -> bool,
    G: Fn() -> usize,
    N: Fn(CreateNodePayload) -> Result<(Node, Detector), Error>,
    L: Fn(CreateLinkPayload) -> Result<Link, Error>,
>(
    name: EventName,
    payload: EventPayload,
    t: i64,
    draw: &F,
    dark_counts: &G,
    make_node: &N,
    make_link: &L,
    s0: StateView,
    sent0: Seq<Event>,
    s1: StateView,
    sent1: Seq<Event>,
    r: Result<(), Error>,
) -> bool {
    let quiet = sent1 == sent0;
    match name {
        EventName::HandleQkdInit => handle_qkd_init_outcome(payload, t, dark_counts, s0, sent0, s1, sent1, r),
        EventName::ReceivePair => if !count_fits(payload, s0.processes) {
            r matches Err(Error::Sim(SimError::NotValidInput(_))) && s1 == s0 && quiet
        } else {
            receive_pair_outcome(payload, t, draw, s0, sent0, s1, sent1, r)
        },
        EventName::CreateNode => create_node_outcome(payload, make_node, s0, s1, r) && quiet,
        EventName::CreateLink => create_link_outcome(payload, make_link, s0, s1, r) && quiet,
        EventName::SameBasis => same_basis_outcome(payload, s0, r) && s1 == s0 && quiet,
        EventName::PostProcess => post_process_outcome(payload, s0, s1, r) && quiet,
        EventName::DarkCount => dark_count_outcome(payload, t, s0, s1, r) && quiet,
        EventName::PairTimeout => pair_timeout_outcome(payload, t, s0, sent0, s1, sent1, r),
        _ => r matches Err(Error::FunctionNotFound(x)) && x == name && s1 == s0 && quiet,
    }
}

/// What running an event does: an event whose name has no handler in service is refused
/// with [`Error::NonExistantFunction`]; otherwise its handler runs on its payload at its time.
pub open spec fn exec_outcome<
    F: Fn(u32, i64, i32) -> bool,
    G: Fn() -> usize,
    N: Fn(CreateNodePayload) -> Result<(Node, Detector), Error>,
    L: Fn(CreateLinkPayload) -> Result<Link, Error>,
>(
    registered: Set<EventName>,
    ev: ScheduledEvent,
    draw: &F,
    dark_counts: &G,
    make_node: &N,
    make_link: &L,
    s0: StateView,
    sent0: Seq<Event>,
    s1: StateView,
    sent1: Seq<Event>,
    r: Result<(), Error>,
) -> bool {
    let name = ev.event.name;
    if !registered.contains(name) {
        r matches Err(Error::NonExistantFunction(x)) && x == name && s1 == s0 && sent1 == sent0
    } else {
        handler_outcome(
            name,
            ev.event.payload,
            ev.timestamp,
            draw,
            dark_counts,
            make_node,
            make_link,
            s0,
            sent0,
            s1,
            sent1,
            r,
        )
    }
}

/// The handlers that a registry puts in service when it is instantiated.
pub open spec fn default_handlers() -> Seq<EventName> {
    seq![
        EventName::HandleQkdInit,
        EventName::ReceivePair,
        EventName::CreateNode,
        EventName::CreateLink,
        EventName::SameBasis,
    ]
}

impl Registry {
    /// The names whose handlers are in service.
    pub closed spec fn registered(&self) -> Set<EventName> {
        self.funcs@.to_set()
    }

    /// The contents of the state.
    pub closed spec fn state_view(&self) -> StateView {
        self.state@
    }

    pub closed spec fn wf(&self) -> bool {
        self.state.wf()
    }

    /// A registry with no handler in service and an empty state.
    pub fn new() -> (r: Registry)
        ensures
            r.wf(),
            r.registered() == Set::<EventName>::empty(),
            r.state_view() == (StateView {
                pairs: Map::empty(),
                nodes: Map::empty(),
                processes: Map::empty(),
                detectors: Map::empty(),
                links: Map::empty(),
            }),
    {
        let r = Registry { funcs: Vec::new(), state: SimulationState::new() };
        proof {
            assert(r.funcs@.to_set() =~= Set::<EventName>::empty());
        }
        r
    }

    /// The state the handlers work on.
    pub fn state(&self) -> (r: &SimulationState)
        ensures
            r@ == self.state_view(),
            self.wf() ==> r.wf(),
    {
        &self.state
    }

    /// The handlers to put in service, by name.
    pub fn get_event_functions(&self) -> (r: Vec<EventName>)
        ensures
            r@ == default_handlers(),
    {
        let r = vec![
            EventName::HandleQkdInit,
            EventName::ReceivePair,
            EventName::CreateNode,
            EventName::CreateLink,
            EventName::SameBasis,
        ];
        proof {
            assert(r@ =~= default_handlers());
        }
        r
    }

    /// Puts the handler of `name` in service.
    pub fn push_func(&mut self, name: EventName)
        ensures
            final(self).registered() == old(self).registered().insert(name),
            final(self).state_view() == old(self).state_view(),
            final(self).wf() == old(self).wf(),
    {
        let mut i: usize = 0;
        let mut found = false;
        while i < self.funcs.len()
            invariant
                i <= self.funcs@.len(),
                found <==> exists|k: int| 0 <= k < i && self.funcs@[k] == name,
            decreases self.funcs@.len() - i,
        {
            if self.funcs[i] == name {
                found = true;
            }
            i = i + 1;
        }
        if found {
            proof {
                let k = choose|k: int| 0 <= k < i && self.funcs@[k] == name;
                assert(self.funcs@.to_set().contains(self.funcs@[k]));
                assert(self.funcs@.to_set() =~= old(self).funcs@.to_set().insert(name));
            }
        } else {
            let ghost before = self.funcs@;
            self.funcs.push(name);
            proof {
                assert forall|x: EventName| self.funcs@.to_set().contains(x) <==> before.to_set().insert(name).contains(x) by {
                    if self.funcs@.contains(x) && x != name {
                        let k = choose|k: int| 0 <= k < self.funcs@.len() && self.funcs@[k] == x;
                        assert(before[k] == x);
                    }
                    if before.contains(x) {
                        let k = choose|k: int| 0 <= k < before.len() && before[k] == x;
                        assert(self.funcs@[k] == x);
                    }
                    if x == name {
                        assert(self.funcs@[before.len() as int] == name);
                    }
                }
                assert(self.funcs@.to_set() =~= before.to_set().insert(name));
            }
        }
    }

    /// Puts the default handlers in service.
    pub fn instantiate_functions(&mut self)
        ensures
            final(self).registered() == old(self).registered() + default_handlers().to_set(),
            final(self).state_view() == old(self).state_view(),
            final(self).wf() == old(self).wf(),
    {
        let funcs = self.get_event_functions();
        let mut i: usize = 0;
        while i < funcs.len()
            invariant
                i <= funcs@.len(),
                funcs@ == default_handlers(),
                self.registered() == old(self).registered() + funcs@.take(i as int).to_set(),
                self.state_view() == old(self).state_view(),
                self.wf() == old(self).wf(),
            decreases funcs@.len() - i,
        {
            let ghost before = self.registered();
            self.push_func(funcs[i]);
            proof {
                assert(funcs@.take(i + 1) == funcs@.take(i as int).push(funcs@[i as int]));
                funcs@.take(i as int).lemma_push_to_set_commute(funcs@[i as int]);
                assert(funcs@.take(i + 1).to_set() =~= funcs@.take(i as int).to_set().insert(funcs@[i as int]));
                assert(self.registered() =~= old(self).registered() + funcs@.take(i + 1).to_set());
            }
            i = i + 1;
        }
        proof {
            assert(funcs@.take(i as int) =~= funcs@);
        }
    }

    /// Whether the handler of `name` is in service.
    fn is_registered(&self, name: EventName) -> (r: bool)
        ensures
            r == self.registered().contains(name),
    {
        let mut i: usize = 0;
        while i < self.funcs.len()
            invariant
                i <= self.funcs@.len(),
                forall|k: int| 0 <= k < i ==> self.funcs@[k] != name,
            decreases self.funcs@.len() - i,
        {
            if self.funcs[i] == name {
                proof {
                    assert(self.funcs@.to_set().contains(self.funcs@[i as int]));
                }
                return true;
            }
            i = i + 1;
        }
        proof {
            if self.funcs@.to_set().contains(name) {
                let k = choose|k: int| 0 <= k < self.funcs@.len() && self.funcs@[k] == name;
                assert(self.funcs@[k] != name);
            }
        }
        false
    }

    /// Whether one more accepted pair of the process a qubit arrival is for can be counted.
    fn has_count_room(&self, payload: &EventPayload) -> (r: bool)
        ensures
            r == count_fits(*payload, self.state_view().processes),
    {
        match payload {
            EventPayload::ReceivePair(a) => match self.state.get_process(a.process_id) {
                Some(p) => p.accepted_pairs < i32::MAX,
                None => true,
            },
            _ => true,
        }
    }

    /// Runs the handler of the event's name on its payload, at the event's time. An event
    /// whose name has no handler in service is refused.
    ///
    /// `draw` decides whether the second outcome of a pair is correlated, `dark_counts`
    /// how many dark counts a detector sees in a second, and `make_node` and `make_link`
    /// make nodes and links where they are kept for good.
    pub fn exec_event<
        F: Fn(u32, i64, i32) -> bool,
        G: Fn() -> usize,
        N: Fn(CreateNodePayload) -> Result<(Node, Detector), Error>,
        L: Fn(CreateLinkPayload) -> Result<Link, Error>,
    >(
        &mut self,
        scheduled_event: ScheduledEvent,
        handle: &mut EventLoopHandler,
        draw: &F,
        dark_counts: &G,
        make_node: &N,
        make_link: &L,
    ) -> (r: Result<(), Error>)
        requires
            old(self).wf(),
            distinct_nodes(scheduled_event.event.payload),
            forall|f: u32, d: i64, a: i32| draw.requires((f, d, a)),
            dark_counts.requires(()),
            forall|a: CreateNodePayload| make_node.requires((a,)),
            forall|a: CreateLinkPayload| make_link.requires((a,)),
        ensures
            final(self).wf(),
            final(self).registered() == old(self).registered(),
            final(handle).channel() == old(handle).channel(),
            exec_outcome(
                old(self).registered(),
                scheduled_event,
                draw,
                dark_counts,
                make_node,
                make_link,
                old(self).state_view(),
                old(handle).sent(),
                final(self).state_view(),
                final(handle).sent(),
                r,
            ),
    {
        let name = scheduled_event.event.name;
        let t = scheduled_event.timestamp;
        if !self.is_registered(name) {
            return Err(Error::NonExistantFunction(name));
        }
        let payload = scheduled_event.event.payload;
        match name {
            EventName::HandleQkdInit => handle_qkd_init(payload, t, &mut self.state, handle, dark_counts),
            EventName::ReceivePair => {
                if !self.has_count_room(&payload) {
                    return Err(Error::Sim(SimError::NotValidInput("accepted pair count overflow".to_owned())));
                }
                receive_pair(payload, t, &mut self.state, handle, draw)
            },
            EventName::CreateNode => create_node(payload, t, &mut self.state, handle, make_node),
            EventName::CreateLink => create_link(payload, t, &mut self.state, handle, make_link),
            EventName::SameBasis => same_basis(payload, t, &mut self.state, handle),
            EventName::PostProcess => post_process_key(payload, t, &mut self.state, handle),
            EventName::DarkCount => dark_count(payload, t, &mut self.state, handle),
            EventName::PairTimeout => pair_timeout(payload, t, &mut self.state, handle),
            _ => Err(Error::FunctionNotFound(name)),
        }
    }
}

/// Putting the default handlers in service adds exactly the start of a key distribution,
/// the arrival of a qubit, the creation of nodes and links and the same-basis evaluation;
/// in particular a qubit arrival is then run by its handler and never refused as unknown.
pub proof fn law_default_handlers_serve_arrivals<
    F: Fn(u32, i64, i32) -> bool,
    G: Fn() -> usize,
    N: Fn(CreateNodePayload) -> Result<(Node, Detector), Error>,
    L: Fn(CreateLinkPayload) -> Result<Link, Error>,
>(
    before: Set<EventName>,
    after: Set<EventName>,
    ev: ScheduledEvent,
    draw: &F,
    dark_counts: &G,
    make_node: &N,
    make_link: &L,
    s0: StateView,
    sent0: Seq<Event>,
    s1: StateView,
    sent1: Seq<Event>,
    r: Result<(), Error>,
)
    requires
        after == before + default_handlers().to_set(),
    ensures
        forall|x: EventName|
            #[trigger] after.contains(x) <==> (before.contains(x) || x == EventName::HandleQkdInit || x
                == EventName::ReceivePair || x == EventName::CreateNode || x == EventName::CreateLink || x
                == EventName::SameBasis),
        ev.event.name == EventName::ReceivePair ==> (exec_outcome(
            after,
            ev,
            draw,
            dark_counts,
            make_node,
            make_link,
            s0,
            sent0,
            s1,
            sent1,
            r,
        ) == handler_outcome(
            EventName::ReceivePair,
            ev.event.payload,
            ev.timestamp,
            draw,
            dark_counts,
            make_node,
            make_link,
            s0,
            sent0,
            s1,
            sent1,
            r,
        )),
{
    let d = default_handlers();
    assert forall|x: EventName| #[trigger] after.contains(x) <==> (before.contains(x) || x
        == EventName::HandleQkdInit || x == EventName::ReceivePair || x == EventName::CreateNode || x
        == EventName::CreateLink || x == EventName::SameBasis) by {
        if d.contains(x) {
            let k = choose|k: int| 0 <= k < d.len() && d[k] == x;
            assert(k == 0 || k == 1 || k == 2 || k == 3 || k == 4);
        }
        if x == EventName::HandleQkdInit {
            assert(d[0] == x);
        }
        if x == EventName::ReceivePair {
            assert(d[1] == x);
        }
        if x == EventName::CreateNode {
            assert(d[2] == x);
        }
        if x == EventName::CreateLink {
            assert(d[3] == x);
        }
        if x == EventName::SameBasis {
            assert(d[4] == x);
        }
    }
    assert(after.contains(EventName::ReceivePair));
}

} // verus!
