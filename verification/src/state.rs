//! The in-memory state of a simulation.
use vstd::prelude::*;

use std::collections::HashMap;

use crate::node::{Detector, Link, Node, Process};
use crate::measurement::Measurement;
use crate::pair::NewEntangledPair;

verus! {

broadcast use vstd::std_specs::hash::group_hash_axioms;

/// Identifies a pair: its process and its number within the process.
#[derive(Debug, Clone, Copy, PartialEq, Eq, Structural)]
pub struct PairKey {
    pub qubit_nr: i32,
    pub process_id: i32,
}

/// The slot under which the pair of a process and qubit number is stored.
pub open spec fn pair_slot(process_id: i32, qubit_nr: i32) -> i64 {
    (process_id as int * 0x1_0000_0000 + (qubit_nr as int + 0x8000_0000)) as i64
}

/// A recorded value is a bit.
pub open spec fn is_bit(v: i16) -> bool {
    0 <= v <= 1
}

/// Every value recorded in a measurement, by a client or an eavesdropper, is a bit.
pub open spec fn measurement_bits(m: Option<Measurement>) -> bool {
    match m {
        Some(mm) => (mm.mallory_value matches Some(v) ==> is_bit(v.value)) && (
        mm.client_value matches Some(v) ==> is_bit(v.value)),
        None => true,
    }
}

/// Every value recorded on the pair is a bit.
pub open spec fn pair_bits(p: NewEntangledPair) -> bool {
    measurement_bits(p.src_measurement) && measurement_bits(p.dst_measurement)
}

/// The slot of distinct pair keys differ.
pub proof fn lemma_pair_slot_injective(p1: i32, q1: i32, p2: i32, q2: i32)
    ensures
        pair_slot(p1, q1) == pair_slot(p2, q2) ==> p1 == p2 && q1 == q2,
{
    let a = p1 as int * 0x1_0000_0000 + (q1 as int + 0x8000_0000);
    let b = p2 as int * 0x1_0000_0000 + (q2 as int + 0x8000_0000);
    assert(i64::MIN <= a <= i64::MAX);
    assert(i64::MIN <= b <= i64::MAX);
    if a == b && p1 != p2 {
        if p1 < p2 {
            assert(p1 as int * 0x1_0000_0000 + 0x1_0000_0000 <= p2 as int * 0x1_0000_0000);
        } else {
            assert(p2 as int * 0x1_0000_0000 + 0x1_0000_0000 <= p1 as int * 0x1_0000_0000);
        }
    }
}

/// The slot of a pair.
pub fn slot_of(process_id: i32, qubit_nr: i32) -> (r: i64)
    ensures
        r == pair_slot(process_id, qubit_nr),
{
    process_id as i64 * 0x1_0000_0000i64 + (qubit_nr as i64 + 0x8000_0000i64)
}

/// The contents of a simulation state: pairs by slot, and nodes, processes, detectors and
/// links by id.
#[verifier::ext_equal]
pub ghost struct StateView {
    pub pairs: Map<i64, NewEntangledPair>,
    pub nodes: Map<i32, Node>,
    pub processes: Map<i32, Process>,
    pub detectors: Map<i32, Detector>,
    pub links: Map<i32, Link>,
}

/// Central in-memory state of the simulation, changed by the event loop only.
#[derive(Debug)]
pub struct SimulationState {
    pub(crate) pairs: HashMap<i64, NewEntangledPair>,
    pub(crate) nodes: HashMap<i32, Node>,
    pub(crate) processes: HashMap<i32, Process>,
    pub(crate) detectors: HashMap<i32, Detector>,
    pub(crate) links: HashMap<i32, Link>,
}

impl View for SimulationState {
    type V = StateView;

    open spec fn view(&self) -> StateView {
        StateView {
            pairs: self.pair_map(),
            nodes: self.node_map(),
            processes: self.process_map(),
            detectors: self.detector_map(),
            links: self.link_map(),
        }
    }
}

impl SimulationState {
    /// The pair of a process and qubit number, if it is held.
    pub open spec fn pair(&self, process_id: i32, qubit_nr: i32) -> Option<NewEntangledPair> {
        if self.pair_map().contains_key(pair_slot(process_id, qubit_nr)) {
            Some(self.pair_map()[pair_slot(process_id, qubit_nr)])
        } else {
            None
        }
    }

    pub closed spec fn pair_map(&self) -> Map<i64, NewEntangledPair> {
        self.pairs@
    }

    pub closed spec fn node_map(&self) -> Map<i32, Node> {
        self.nodes@
    }

    pub closed spec fn process_map(&self) -> Map<i32, Process> {
        self.processes@
    }

    pub closed spec fn detector_map(&self) -> Map<i32, Detector> {
        self.detectors@
    }

    pub closed spec fn link_map(&self) -> Map<i32, Link> {
        self.links@
    }

    /// Every entry is stored under its own key, and every recorded value is a bit.
    pub closed spec fn wf(&self) -> bool {
        &&& forall|s: i64|
            #[trigger] self.pairs@.contains_key(s) ==> s == pair_slot(
                self.pairs@[s].process_id,
                self.pairs@[s].qubit_nr,
            )
        &&& forall|s: i64| #[trigger] self.pairs@.contains_key(s) ==> pair_bits(self.pairs@[s])
    }

    /// In a well-formed state, each pair is stored under its own key and holds only bits.
    pub proof fn lemma_wf_facts(&self)
        requires
            self.wf(),
        ensures
            forall|s: i64|
                #[trigger] self.pair_map().contains_key(s) ==> s == pair_slot(
                    self.pair_map()[s].process_id,
                    self.pair_map()[s].qubit_nr,
                ),
            forall|s: i64| #[trigger] self.pair_map().contains_key(s) ==> pair_bits(self.pair_map()[s]),
    {
    }

    /// A pair held in a well-formed state carries the process and qubit number it is
    /// found under, and only bits.
    pub proof fn lemma_pair_found(&self, process_id: i32, qubit_nr: i32)
        requires
            self.wf(),
            self.pair(process_id, qubit_nr) is Some,
        ensures
            self.pair(process_id, qubit_nr).unwrap().process_id == process_id,
            self.pair(process_id, qubit_nr).unwrap().qubit_nr == qubit_nr,
            pair_bits(self.pair(process_id, qubit_nr).unwrap()),
    {
        let p = self.pair(process_id, qubit_nr).unwrap();
        assert(self.pairs@.contains_key(pair_slot(process_id, qubit_nr)));
        lemma_pair_slot_injective(process_id, qubit_nr, p.process_id, p.qubit_nr);
    }

    /// An empty state.
    pub fn new() -> (s: SimulationState)
        ensures
            s.wf(),
            s.pair_map() == Map::<i64, NewEntangledPair>::empty(),
            s.node_map() == Map::<i32, Node>::empty(),
            s.process_map() == Map::<i32, Process>::empty(),
            s.detector_map() == Map::<i32, Detector>::empty(),
            s.link_map() == Map::<i32, Link>::empty(),
    {
        SimulationState {
            pairs: HashMap::new(),
            nodes: HashMap::new(),
            processes: HashMap::new(),
            detectors: HashMap::new(),
            links: HashMap::new(),
        }
    }

    /// Stores a pair under its process and qubit number, replacing any pair there.
    pub fn insert_pair(&mut self, pair: NewEntangledPair)
        requires
            old(self).wf(),
            pair_bits(pair),
        ensures
            final(self).wf(),
            final(self).pair_map() == old(self).pair_map().insert(
                pair_slot(pair.process_id, pair.qubit_nr),
                pair,
            ),
            final(self).node_map() == old(self).node_map(),
            final(self).process_map() == old(self).process_map(),
            final(self).detector_map() == old(self).detector_map(),
            final(self).link_map() == old(self).link_map(),
    {
        let s = slot_of(pair.process_id, pair.qubit_nr);
        self.pairs.insert(s, pair);
    }

    /// The pair of a process and qubit number.
    pub fn get_pair(&self, process_id: i32, qubit_nr: i32) -> (r: Option<NewEntangledPair>)
        ensures
            r == self.pair(process_id, qubit_nr),
    {
        let s = slot_of(process_id, qubit_nr);
        match self.pairs.get(&s) {
            Some(p) => Some(*p),
            None => None,
        }
    }

    /// Removes and returns the pair of a process and qubit number.
    pub fn remove_pair(&mut self, process_id: i32, qubit_nr: i32) -> (r: Option<NewEntangledPair>)
        requires
            old(self).wf(),
        ensures
            final(self).wf(),
            r == old(self).pair(process_id, qubit_nr),
            final(self).pair_map() == old(self).pair_map().remove(pair_slot(process_id, qubit_nr)),
            final(self).node_map() == old(self).node_map(),
            final(self).process_map() == old(self).process_map(),
            final(self).detector_map() == old(self).detector_map(),
            final(self).link_map() == old(self).link_map(),
    {
        let s = slot_of(process_id, qubit_nr);
        self.pairs.remove(&s)
    }

    /// Inserts or replaces a node, under its id.
    pub fn upsert_node(&mut self, node: Node)
        requires
            old(self).wf(),
        ensures
            final(self).wf(),
            final(self).node_map() == old(self).node_map().insert(node.id, node),
            final(self).pair_map() == old(self).pair_map(),
            final(self).process_map() == old(self).process_map(),
            final(self).detector_map() == old(self).detector_map(),
            final(self).link_map() == old(self).link_map(),
    {
        self.nodes.insert(node.id, node);
    }

    /// Removes and returns the node with the given id, to be changed and stored back.
    pub fn take_node(&mut self, node_id: i32) -> (r: Option<Node>)
        requires
            old(self).wf(),
        ensures
            final(self).wf(),
            match r {
                Some(n) => old(self).node_map().contains_key(node_id) && n == old(self).node_map()[node_id],
                None => !old(self).node_map().contains_key(node_id),
            },
            final(self).node_map() == old(self).node_map().remove(node_id),
            final(self).pair_map() == old(self).pair_map(),
            final(self).process_map() == old(self).process_map(),
            final(self).detector_map() == old(self).detector_map(),
            final(self).link_map() == old(self).link_map(),
    {
        self.nodes.remove(&node_id)
    }

    /// Stores a node under the given id.
    pub fn put_node(&mut self, node_id: i32, node: Node)
        requires
            old(self).wf(),
        ensures
            final(self).wf(),
            final(self).node_map() == old(self).node_map().insert(node_id, node),
            final(self).pair_map() == old(self).pair_map(),
            final(self).process_map() == old(self).process_map(),
            final(self).detector_map() == old(self).detector_map(),
            final(self).link_map() == old(self).link_map(),
    {
        self.nodes.insert(node_id, node);
    }

    /// Inserts or replaces a detector, under its id.
    pub fn upsert_detector(&mut self, detector: Detector)
        requires
            old(self).wf(),
        ensures
            final(self).wf(),
            final(self).detector_map() == old(self).detector_map().insert(detector.id, detector),
            final(self).pair_map() == old(self).pair_map(),
            final(self).node_map() == old(self).node_map(),
            final(self).process_map() == old(self).process_map(),
            final(self).link_map() == old(self).link_map(),
    {
        self.detectors.insert(detector.id, detector);
    }

    /// Stores a detector under the given id.
    pub fn put_detector(&mut self, detector_id: i32, detector: Detector)
        requires
            old(self).wf(),
        ensures
            final(self).wf(),
            final(self).detector_map() == old(self).detector_map().insert(detector_id, detector),
            final(self).pair_map() == old(self).pair_map(),
            final(self).node_map() == old(self).node_map(),
            final(self).process_map() == old(self).process_map(),
            final(self).link_map() == old(self).link_map(),
    {
        self.detectors.insert(detector_id, detector);
    }

    /// Inserts or replaces a link, under its id.
    pub fn upsert_link(&mut self, link: Link)
        requires
            old(self).wf(),
        ensures
            final(self).wf(),
            final(self).link_map() == old(self).link_map().insert(link.id, link),
            final(self).pair_map() == old(self).pair_map(),
            final(self).node_map() == old(self).node_map(),
            final(self).process_map() == old(self).process_map(),
            final(self).detector_map() == old(self).detector_map(),
    {
        self.links.insert(link.id, link);
    }

    /// The process with the given id.
    pub fn get_process(&self, process_id: i32) -> (r: Option<&Process>)
        ensures
            match r {
                Some(p) => self.process_map().contains_key(process_id) && *p == self.process_map()[process_id],
                None => !self.process_map().contains_key(process_id),
            },
    {
        self.processes.get(&process_id)
    }

    /// Removes and returns the process with the given id, to be changed and stored back.
    pub fn take_process(&mut self, process_id: i32) -> (r: Option<Process>)
        requires
            old(self).wf(),
        ensures
            final(self).wf(),
            match r {
                Some(p) => old(self).process_map().contains_key(process_id) && p == old(self).process_map()[process_id],
                None => !old(self).process_map().contains_key(process_id),
            },
            final(self).process_map() == old(self).process_map().remove(process_id),
            final(self).pair_map() == old(self).pair_map(),
            final(self).node_map() == old(self).node_map(),
            final(self).detector_map() == old(self).detector_map(),
            final(self).link_map() == old(self).link_map(),
    {
        self.processes.remove(&process_id)
    }

    /// Stores a process under the given id.
    pub fn put_process(&mut self, process_id: i32, process: Process)
        requires
            old(self).wf(),
        ensures
            final(self).wf(),
            final(self).process_map() == old(self).process_map().insert(process_id, process),
            final(self).pair_map() == old(self).pair_map(),
            final(self).node_map() == old(self).node_map(),
            final(self).detector_map() == old(self).detector_map(),
            final(self).link_map() == old(self).link_map(),
    {
        self.processes.insert(process_id, process);
    }

    /// The detector with the given id.
    pub fn get_detector(&self, detector_id: i32) -> (r: Option<Detector>)
        ensures
            match r {
                Some(d) => self.detector_map().contains_key(detector_id) && d == self.detector_map()[detector_id],
                None => !self.detector_map().contains_key(detector_id),
            },
    {
        match self.detectors.get(&detector_id) {
            Some(d) => Some(*d),
            None => None,
        }
    }

    /// The link with the given id.
    pub fn get_link(&self, link_id: i32) -> (r: Option<Link>)
        ensures
            match r {
                Some(l) => self.link_map().contains_key(link_id) && l == self.link_map()[link_id],
                None => !self.link_map().contains_key(link_id),
            },
    {
        match self.links.get(&link_id) {
            Some(l) => Some(*l),
            None => None,
        }
    }

    /// The node with the given id.
    pub fn get_node(&self, node_id: i32) -> (r: Option<&Node>)
        ensures
            match r {
                Some(n) => self.node_map().contains_key(node_id) && *n == self.node_map()[node_id],
                None => !self.node_map().contains_key(node_id),
            },
    {
        self.nodes.get(&node_id)
    }

    /// Stores a new process under the next id (the number of processes so far, as an `i32`)
    /// and returns that id.
    pub fn push_process(&mut self, process: Process) -> (r: i32)
        requires
            old(self).wf(),
        ensures
            final(self).wf(),
            r == old(self).process_map().len() as i32,
            final(self).process_map() == old(self).process_map().insert(r, Process { id: r, ..process }),
            final(self).pair_map() == old(self).pair_map(),
            final(self).node_map() == old(self).node_map(),
            final(self).detector_map() == old(self).detector_map(),
            final(self).link_map() == old(self).link_map(),
    {
        let mut process = process;
        let new_id = #[verifier::truncate] (self.processes.len() as i32);
        process.id = new_id;
        self.processes.insert(new_id, process);
        new_id
    }

    /// The accepted pairs of a process, each once, in the order the map yields them.
    pub fn get_accepted_measurements(&self, process_id: i32) -> (r: Vec<NewEntangledPair>)
        requires
            self.wf(),
        ensures
            r@.no_duplicates(),
            forall|p: NewEntangledPair|
                #![trigger r@.contains(p)]
                r@.contains(p) <==> (self.pair_map().contains_key(pair_slot(p.process_id, p.qubit_nr))
                    && self.pair_map()[pair_slot(p.process_id, p.qubit_nr)] == p && p.process_id
                    == process_id && p.accepted),
    {
        let mut out: Vec<NewEntangledPair> = Vec::new();
        let ghost keys = self.pairs@.dom();
        for k in it: self.pairs.keys()
            invariant
                self.wf(),
                keys == self.pairs@.dom(),
                it.seq().unref().to_set() == keys,
                it.seq().unref().no_duplicates(),
                out@.no_duplicates(),
                forall|p: NewEntangledPair|
                    #![trigger out@.contains(p)]
                    out@.contains(p) <==> ((exists|t: int|
                        0 <= t < it.index() && #[trigger] self.pairs@[*it.seq()[t]] == p)
                        && p.process_id == process_id && p.accepted),
                it.index() == it.seq().len() ==> forall|p: NewEntangledPair|
                    #![trigger out@.contains(p)]
                    out@.contains(p) <==> (self.pair_map().contains_key(pair_slot(p.process_id, p.qubit_nr))
                        && self.pair_map()[pair_slot(p.process_id, p.qubit_nr)] == p && p.process_id
                        == process_id && p.accepted),
        {
            let ghost idx = it.index();
            proof {
                assert(it.seq().unref()[idx] == *it.seq()[idx]);
                assert(keys.contains(*it.seq()[idx])) by {
                    assert(it.seq().unref().contains(*it.seq()[idx]));
                }
                assert(*k == *it.seq()[idx]);
            }
            if let Some(p) = self.pairs.get(k) {
                let pair = *p;
                if pair.process_id == process_id && pair.accepted {
                    proof {
                        if out@.contains(pair) {
                            let t = choose|t: int| 0 <= t < idx && #[trigger] self.pairs@[*it.seq()[t]] == pair;
                            assert(keys.contains(*it.seq()[t])) by {
                                assert(it.seq().unref()[t] == *it.seq()[t]);
                                assert(it.seq().unref().contains(*it.seq()[t]));
                            }
                            assert(*it.seq()[t] == pair_slot(pair.process_id, pair.qubit_nr));
                            assert(*it.seq()[idx] == pair_slot(pair.process_id, pair.qubit_nr));
                            assert(it.seq().unref()[t] == it.seq().unref()[idx]);
                            assert(false);
                        }
                    }
                    let ghost before = out@;
                    out.push(pair);
                    proof {
                        assert forall|q: NewEntangledPair| #![trigger out@.contains(q)]
                            out@.contains(q) <==> ((exists|t: int|
                            0 <= t < idx + 1 && #[trigger] self.pairs@[*it.seq()[t]] == q)
                            && q.process_id == process_id && q.accepted) by {
                            assert(out@ == before.push(pair));
                            if q != pair {
                                if out@.contains(q) {
                                    let u = choose|u: int| 0 <= u < out@.len() && out@[u] == q;
                                    assert(before[u] == q);
                                    assert(before.contains(q));
                                }
                                if before.contains(q) {
                                    let u = choose|u: int| 0 <= u < before.len() && before[u] == q;
                                    assert(out@[u] == q);
                                }
                            } else {
                                assert(out@[before.len() as int] == q);
                            }
                            if q == pair {
                                assert(self.pairs@[*it.seq()[idx]] == q);
                            }
                        }
                    }
                }
            }
            proof {
                {
                    assert forall|p: NewEntangledPair|
                        #![trigger out@.contains(p)]
                        idx + 1 == it.seq().len() implies (out@.contains(p) <==> (self.pair_map().contains_key(pair_slot(p.process_id, p.qubit_nr))
                            && self.pair_map()[pair_slot(p.process_id, p.qubit_nr)] == p && p.process_id
                            == process_id && p.accepted)) by {
                        if out@.contains(p) {
                            let t = choose|t: int| 0 <= t < idx + 1 && #[trigger] self.pairs@[*it.seq()[t]] == p;
                            assert(it.seq().unref()[t] == *it.seq()[t]);
                            assert(it.seq().unref().contains(*it.seq()[t]));
                            assert(keys.contains(*it.seq()[t]));
                        }
                        if self.pair_map().contains_key(pair_slot(p.process_id, p.qubit_nr))
                            && self.pair_map()[pair_slot(p.process_id, p.qubit_nr)] == p && p.process_id
                            == process_id && p.accepted {
                            let key = pair_slot(p.process_id, p.qubit_nr);
                            assert(it.seq().unref().to_set().contains(key));
                            assert(it.seq().unref().contains(key));
                            let t = choose|t: int| 0 <= t < it.seq().unref().len() && it.seq().unref()[t] == key;
                            assert(*it.seq()[t] == key);
                            assert(self.pairs@[*it.seq()[t]] == p);
                        }
                    }
                }
            }
        }
        out
    }

    /// Empties the pairs, nodes, detectors and links; processes stay.
    pub fn clear(&mut self)
        requires
            old(self).wf(),
        ensures
            final(self).wf(),
            final(self).pair_map() == Map::<i64, NewEntangledPair>::empty(),
            final(self).node_map() == Map::<i32, Node>::empty(),
            final(self).detector_map() == Map::<i32, Detector>::empty(),
            final(self).link_map() == Map::<i32, Link>::empty(),
            final(self).process_map() == old(self).process_map(),
    {
        self.pairs.clear();
        self.nodes.clear();
        self.detectors.clear();
        self.links.clear();
    }
}

impl Default for SimulationState {
    fn default() -> (s: SimulationState)
        ensures
            s.wf(),
            s.pair_map() == Map::<i64, NewEntangledPair>::empty(),
            s.node_map() == Map::<i32, Node>::empty(),
            s.process_map() == Map::<i32, Process>::empty(),
            s.detector_map() == Map::<i32, Detector>::empty(),
            s.link_map() == Map::<i32, Link>::empty(),
    {
        SimulationState::new()
    }
}

} // verus!
