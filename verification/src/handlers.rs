//! The event handlers of a simulation: each takes the payload of its event, the time at
//! which it runs, the state and the handle on which it submits further events.
use vstd::prelude::*;

use crate::basis::Side;
use crate::error::{DetectorError, Error, LinkError, NodeError, PairError, SimError};
use crate::event::{CreateLinkPayload, CreateNodePayload, Event, EventPayload};
use crate::event_loop::EventLoopHandler;
use crate::measuring::{mallory_measure_qubit, mallory_measured, measure_qubit, measured};
use crate::node::{available, held_by, Detector, Link, Node, Process};
use crate::pair::NewEntangledPair;
use crate::scheduling::{
    arrival_event, arrival_time, dark_count_events, dark_counts_fit, dark_counts_sent, emit_pair,
    fresh_pair, offsets_drawn, pair_events, pair_times_fit, pair_times_fit_at, schedule_dark_counts,
    schedule_pair_event, schedule_pair_timeout, send_failed, sent_until_failure, timeout_event,
    timeout_time,
};
use crate::settings::QUBIT_AMOUNT;
use crate::state::{pair_slot, PairKey, SimulationState, StateView};

verus! {

/// The process that a qubit arrival is for, if it is held, can count one more accepted
/// pair in an `i32`.
pub open spec fn count_fits(payload: EventPayload, procs: Map<i32, Process>) -> bool {
    match payload {
        EventPayload::ReceivePair(a) => procs.contains_key(a.process_id) ==> procs[a.process_id].accepted_pairs
            < i32::MAX,
        _ => true,
    }
}

/// The result of a pair operation, as the handlers report it.
pub open spec fn pair_result(r: Result<(), PairError>) -> Result<(), Error> {
    match r {
        Ok(()) => Ok(()),
        Err(e) => Err(Error::Pair(e)),
    }
}

/// What a dark count does: the detector records a detection at `t`.
pub open spec fn dark_count_outcome(
    payload: EventPayload,
    t: i64,
    s0: StateView,
    s1: StateView,
    r: Result<(), Error>,
) -> bool {
    match payload {
        EventPayload::DarkCount(a) => if s0.detectors.contains_key(a.detector_id) {
            r is Ok && s1 == StateView {
                detectors: s0.detectors.insert(
                    a.detector_id,
                    Detector { last_detection_time: t, ..s0.detectors[a.detector_id] },
                ),
                ..s0
            }
        } else {
            r matches Err(Error::Detector(DetectorError::NotFound(x))) && x == a.detector_id && s1 == s0
        },
        _ => r matches Err(Error::WrongArgs()) && s1 == s0,
    }
}

/// A dark count on a detector: it records a detection, and so starts cooling down.
pub fn dark_count(
    payload: EventPayload,
    current_time: i64,
    state: &mut SimulationState,
    _handle: &EventLoopHandler,
) -> (r: Result<(), Error>)
    requires
        old(state).wf(),
    ensures
        final(state).wf(),
        dark_count_outcome(payload, current_time, old(state)@, final(state)@, r),
{
    let args = match payload {
        EventPayload::DarkCount(a) => a,
        _ => {
            return Err(Error::WrongArgs());
        },
    };
    let mut detector = match state.get_detector(args.detector_id) {
        Some(d) => d,
        None => {
            return Err(Error::Detector(DetectorError::NotFound(args.detector_id)));
        },
    };
    proof {
        state.lemma_wf_facts();
    }
    match detector.set_detection_time(current_time) {
        Ok(()) => {},
        Err(e) => {
            return Err(Error::Detector(e));
        },
    }
    state.put_detector(args.detector_id, detector);
    Ok(())
}

/// What the arrival of a qubit does, from the state `s0` and the events `sent0` to the
/// state `s1` and the events `sent1`.
pub open spec fn receive_pair_outcome<F: Fn(u32, i64, i32) -> bool>(
    payload: EventPayload,
    t: i64,
    draw: &F,
    s0: StateView,
    sent0: Seq<Event>,
    s1: StateView,
    sent1: Seq<Event>,
    r: Result<(), Error>,
) -> bool {
    let unchanged = s1 == s0 && sent1 == sent0;
    match payload {
        EventPayload::ReceivePair(a) => if !s0.nodes.contains_key(a.node_id) || !s0.links.contains_key(
            a.link_id,
        ) {
            r matches Err(Error::Node(NodeError::NodeNotFound(x))) && x == a.node_id && unchanged
        } else {
            let node = s0.nodes[a.node_id];
            let link = s0.links[a.link_id];
            if !s0.detectors.contains_key(node.detector_id) {
                r matches Err(Error::Detector(DetectorError::NotFound(x))) && x == node.detector_id
                    && unchanged
            } else {
                let d = s0.detectors[node.detector_id];
                if t < d.last_detection_time + d.cooldown_ps {
                    r is Ok && unchanged
                } else {
                    &&& s1.detectors == s0.detectors.insert(
                        node.detector_id,
                        Detector { last_detection_time: t, ..d },
                    )
                    &&& s1.links == s0.links
                    &&& if link.is_secure {
                        exists|r2: Result<(), PairError>|
                            r == #[trigger] pair_result(r2) && measured(
                                a.process_id,
                                a.qubit_nr,
                                a.side,
                                node,
                                link.length,
                                draw,
                                s0.pairs,
                                s0.processes,
                                s0.nodes,
                                sent0,
                                s1.pairs,
                                s1.processes,
                                s1.nodes,
                                sent1,
                                r2,
                            )
                    } else {
                        exists|mid: Map<i64, crate::pair::NewEntangledPair>, r1: Result<(), PairError>|
                            #[trigger] mallory_measured(
                                a.process_id,
                                a.qubit_nr,
                                a.side,
                                node.id,
                                s0.pairs,
                                mid,
                                r1,
                            ) && match r1 {
                                Err(e) => r == Err::<(), Error>(Error::Pair(e)) && s1.pairs == mid
                                    && s1.processes == s0.processes && s1.nodes == s0.nodes
                                    && sent1 == sent0,
                                Ok(()) => exists|r2: Result<(), PairError>|
                                    r == #[trigger] pair_result(r2) && measured(
                                        a.process_id,
                                        a.qubit_nr,
                                        a.side,
                                        node,
                                        link.length,
                                        draw,
                                        mid,
                                        s0.processes,
                                        s0.nodes,
                                        sent0,
                                        s1.pairs,
                                        s1.processes,
                                        s1.nodes,
                                        sent1,
                                        r2,
                                    ),
                            }
                    }
                }
            }
        },
        _ => r matches Err(Error::WrongArgs()) && unchanged,
    }
}

/// A qubit reaches the detector of a client. A detector that is still cooling down misses
/// it; otherwise the detection is recorded, an eavesdropper on an insecure link measures
/// first, and the client measures. `draw` decides whether the second outcome of a pair is
/// correlated (see [`crate::measuring::second_measurement`]).
pub fn receive_pair<F: Fn(u32, i64, i32) -> bool>(
    payload: EventPayload,
    current_time: i64,
    state: &mut SimulationState,
    handle: &mut EventLoopHandler,
    draw: &F,
) -> (r: Result<(), Error>)
    requires
        old(state).wf(),
        count_fits(payload, old(state)@.processes),
        forall|f: u32, d: i64, a: i32| draw.requires((f, d, a)),
    ensures
        final(state).wf(),
        final(handle).channel() == old(handle).channel(),
        receive_pair_outcome(
            payload,
            current_time,
            draw,
            old(state)@,
            old(handle).sent(),
            final(state)@,
            final(handle).sent(),
            r,
        ),
{
    let args = match payload {
        EventPayload::ReceivePair(a) => a,
        _ => {
            return Err(Error::WrongArgs());
        },
    };
    let node = match state.get_node(args.node_id) {
        Some(n) => n.duplicate(),
        None => {
            return Err(Error::Node(NodeError::NodeNotFound(args.node_id)));
        },
    };
    let link = match state.get_link(args.link_id) {
        Some(l) => l,
        None => {
            return Err(Error::Node(NodeError::NodeNotFound(args.node_id)));
        },
    };
    let mut detector = match state.get_detector(node.detector_id) {
        Some(d) => d,
        None => {
            return Err(Error::Detector(DetectorError::NotFound(node.detector_id)));
        },
    };
    proof {
        state.lemma_wf_facts();
    }
    if detector.is_cooling(current_time) {
        return Ok(());
    }
    match detector.set_detection_time(current_time) {
        Ok(()) => {},
        Err(e) => {
            return Err(Error::Detector(e));
        },
    }
    state.put_detector(node.detector_id, detector);
    let ghost s1 = state@;
    if !link.is_secure {
        let r1 = mallory_measure_qubit(args.process_id, args.qubit_nr, args.side, node.duplicate(), state);
        let ghost mid = state@.pairs;
        match r1 {
            Ok(()) => {},
            Err(e) => {
                proof {
                    assert(mallory_measured(
                        args.process_id,
                        args.qubit_nr,
                        args.side,
                        node.id,
                        old(state)@.pairs,
                        mid,
                        r1,
                    ));
                }
                return Err(Error::Pair(e));
            },
        }
        let ghost s2 = state@;
        let r2 = measure_qubit(args.process_id, args.qubit_nr, args.side, node, link.length, state, handle, draw);
        proof {
            assert(mallory_measured(
                args.process_id,
                args.qubit_nr,
                args.side,
                node.id,
                old(state)@.pairs,
                mid,
                r1,
            ));
        }
        let r = match r2 {
            Ok(()) => Ok(()),
            Err(e) => Err(Error::Pair(e)),
        };
        proof {
            assert(r == pair_result(r2));
        }
        r
    } else {
        let r2 = measure_qubit(args.process_id, args.qubit_nr, args.side, node, link.length, state, handle, draw);
        proof {
        }
        let r = match r2 {
            Ok(()) => Ok(()),
            Err(e) => Err(Error::Pair(e)),
        };
        proof {
            assert(r == pair_result(r2));
        }
        r
    }
}


/// What the timeout of a pair does: the state stays as it is; a pair not yet accepted is
/// sent again.
pub open spec fn pair_timeout_outcome(
    payload: EventPayload,
    t: i64,
    s0: StateView,
    sent0: Seq<Event>,
    s1: StateView,
    sent1: Seq<Event>,
    r: Result<(), Error>,
) -> bool {
    &&& s1 == s0
    &&& match payload {
        EventPayload::PairTimeout(a) => {
            let key = a.pair_key;
            let slot = pair_slot(key.process_id, key.qubit_nr);
            if !s0.pairs.contains_key(slot) {
                r matches Err(Error::Pair(PairError::PairNotFound(x))) && x == key.process_id
                    && sent1 == sent0
            } else if s0.pairs[slot].accepted {
                r is Ok && sent1 == sent0
            } else if !s0.links.contains_key(a.src_link) {
                r matches Err(Error::Link(LinkError::NotFound(x))) && x == a.src_link && sent1 == sent0
            } else if !s0.links.contains_key(a.dst_link) {
                r matches Err(Error::Link(LinkError::NotFound(x))) && x == a.dst_link && sent1 == sent0
            } else if !pair_times_fit(t, s0.links[a.src_link], s0.links[a.dst_link], key) {
                r matches Err(Error::Sim(SimError::NotValidInput(_))) && sent1 == sent0
            } else {
                let p = s0.pairs[slot];
                let evs = pair_events(p.src_id, p.dst_id, s0.links[a.src_link], s0.links[a.dst_link], key, t);
                match r {
                    Ok(()) => sent1 == sent0 + evs,
                    Err(e) => sent_until_failure(sent0, sent1, evs, e),
                }
            }
        },
        _ => r matches Err(Error::WrongArgs()) && sent1 == sent0,
    }
}

/// The timeout of an emitted pair: when the pair has not been accepted, both qubits are
/// sent again and a new timeout is scheduled. Times that do not fit in `i64` are refused
/// before anything is sent.
pub fn pair_timeout(
    payload: EventPayload,
    current_time: i64,
    state: &mut SimulationState,
    handle: &mut EventLoopHandler,
) -> (r: Result<(), Error>)
    requires
        old(state).wf(),
    ensures
        final(state).wf(),
        final(handle).channel() == old(handle).channel(),
        pair_timeout_outcome(payload, current_time, old(state)@, old(handle).sent(), final(state)@, final(handle).sent(), r),
{
    let args = match payload {
        EventPayload::PairTimeout(a) => a,
        _ => {
            return Err(Error::WrongArgs());
        },
    };
    let key = args.pair_key;
    let pair = match state.get_pair(key.process_id, key.qubit_nr) {
        Some(p) => p,
        None => {
            return Err(Error::Pair(PairError::PairNotFound(key.process_id)));
        },
    };
    if pair.accepted {
        return Ok(());
    }
    let src_link = match state.get_link(args.src_link) {
        Some(l) => l,
        None => {
            return Err(Error::Link(LinkError::NotFound(args.src_link)));
        },
    };
    let dst_link = match state.get_link(args.dst_link) {
        Some(l) => l,
        None => {
            return Err(Error::Link(LinkError::NotFound(args.dst_link)));
        },
    };
    if !pair_times_fit_at(current_time, &src_link, &dst_link, &key) {
        return Err(Error::Sim(SimError::NotValidInput("pair times out of range".to_owned())));
    }
    let ghost evs = pair_events(pair.src_id, pair.dst_id, src_link, dst_link, key, current_time);
    let ghost before = handle.sent();
    let src_ts = match schedule_pair_event(pair.src_id, Side::Source, &src_link, &key, current_time, handle) {
        Ok(ts) => ts,
        Err(e) => {
            proof {
                assert(handle.sent() =~= before + evs.take(1));
            }
            return Err(e);
        },
    };
    let dst_ts = match schedule_pair_event(
        pair.dst_id,
        Side::Destination,
        &dst_link,
        &key,
        current_time,
        handle,
    ) {
        Ok(ts) => ts,
        Err(e) => {
            proof {
                assert(handle.sent() =~= before + evs.take(2));
            }
            return Err(e);
        },
    };
    let later = if src_ts >= dst_ts {
        src_ts
    } else {
        dst_ts
    };
    match schedule_pair_timeout(&src_link, &dst_link, key, later, handle) {
        Ok(()) => {},
        Err(e) => {
            proof {
                assert(handle.sent() =~= before + evs.take(3));
            }
            return Err(e);
        },
    }
    proof {
        assert(handle.sent() =~= before + evs);
    }
    Ok(())
}


/// The events of the first `m` pairs of a process, qubit 1 first.
pub open spec fn qkd_events(
    src_id: i32,
    dst_id: i32,
    src_link: Link,
    dst_link: Link,
    process_id: i32,
    t: i64,
    m: int,
) -> Seq<Event>
    decreases m,
{
    if m <= 0 {
        Seq::empty()
    } else {
        qkd_events(src_id, dst_id, src_link, dst_link, process_id, t, m - 1) + pair_events(
            src_id,
            dst_id,
            src_link,
            dst_link,
            PairKey { qubit_nr: m as i32, process_id },
            t,
        )
    }
}

/// The pairs after the first `m` pairs of a process were emitted and stored.
pub open spec fn with_fresh_pairs(
    pairs: Map<i64, NewEntangledPair>,
    src_id: i32,
    dst_id: i32,
    process_id: i32,
    t: i64,
    m: int,
) -> Map<i64, NewEntangledPair>
    decreases m,
{
    if m <= 0 {
        pairs
    } else {
        with_fresh_pairs(pairs, src_id, dst_id, process_id, t, m - 1).insert(
            pair_slot(process_id, m as i32),
            fresh_pair(src_id, dst_id, PairKey { qubit_nr: m as i32, process_id }, t),
        )
    }
}

/// How many pairs were complete when the `m`-th event failed, the first `d` events being
/// dark counts and each pair having three events.
pub open spec fn pairs_done(m: int, d: int) -> int {
    if m <= d {
        0
    } else {
        (m - 1 - d) / 3
    }
}

/// The dark counts of both detectors are scheduled, then the pairs are emitted one by
/// one; a failed submission stops it all.
pub open spec fn emission_outcome<G: Fn() -> usize>(
    dark_counts: &G,
    src_detector: Detector,
    dst_detector: Detector,
    src_id: i32,
    dst_id: i32,
    src_link: Link,
    dst_link: Link,
    process_id: i32,
    t: i64,
    pairs0: Map<i64, NewEntangledPair>,
    sent0: Seq<Event>,
    pairs1: Map<i64, NewEntangledPair>,
    sent1: Seq<Event>,
    r: Result<(), Error>,
) -> bool {
    exists|o1: Seq<i64>|
        #[trigger] offsets_drawn(dark_counts, o1) && {
            let d1 = dark_count_events(src_detector.id, t, o1);
            ||| (r is Err && dark_counts_sent(src_detector.id, t, o1, sent0, sent1, r) && pairs1 == pairs0)
            ||| dark_counts_fit(t, o1) && exists|o2: Seq<i64>|
                #[trigger] offsets_drawn(dark_counts, o2) && {
                    let all = d1 + dark_count_events(dst_detector.id, t, o2) + qkd_events(
                        src_id,
                        dst_id,
                        src_link,
                        dst_link,
                        process_id,
                        t,
                        QUBIT_AMOUNT as int,
                    );
                    let d = (o1.len() + o2.len()) as int;
                    if !dark_counts_fit(t, o2) {
                        r matches Err(Error::Sim(SimError::NotValidInput(_))) && sent1 == sent0 + d1
                            && pairs1 == pairs0
                    } else {
                        match r {
                            Ok(()) => sent1 == sent0 + all && pairs1 == with_fresh_pairs(
                                pairs0,
                                src_id,
                                dst_id,
                                process_id,
                                t,
                                QUBIT_AMOUNT as int,
                            ),
                            Err(e) => sent_until_failure(sent0, sent1, all, e) && pairs1 == with_fresh_pairs(
                                pairs0,
                                src_id,
                                dst_id,
                                process_id,
                                t,
                                pairs_done(sent1.len() - sent0.len(), d),
                            ),
                        }
                    }
                }
        }
}

/// The times of pair `q` of the process can be computed in `i64`.
pub open spec fn times_fit_at(t: i64, src_link: Link, dst_link: Link, process_id: i32, q: int) -> bool {
    pair_times_fit(t, src_link, dst_link, PairKey { qubit_nr: q as i32, process_id })
}

/// The times of every pair of the process, 1 to `QUBIT_AMOUNT`, can be computed in `i64`.
pub open spec fn all_pair_times_fit(t: i64, src_link: Link, dst_link: Link, process_id: i32) -> bool {
    forall|q: int| 1 <= q <= QUBIT_AMOUNT ==> #[trigger] times_fit_at(t, src_link, dst_link, process_id, q)
}

/// Whether the times of every pair of the process can be computed in `i64`.
pub fn all_pair_times_fit_at(t: i64, src_link: &Link, dst_link: &Link, process_id: i32) -> (r: bool)
    ensures
        r == all_pair_times_fit(t, *src_link, *dst_link, process_id),
{
    let mut q: i32 = 1;
    while q <= QUBIT_AMOUNT
        invariant
            1 <= q <= QUBIT_AMOUNT + 1,
            forall|j: int| 1 <= j < q ==> #[trigger] times_fit_at(t, *src_link, *dst_link, process_id, j),
        decreases QUBIT_AMOUNT + 1 - q,
    {
        if !pair_times_fit_at(t, src_link, dst_link, &PairKey { qubit_nr: q, process_id }) {
            proof {
                assert(!times_fit_at(t, *src_link, *dst_link, process_id, q as int));
            }
            return false;
        }
        q = q + 1;
    }
    true
}

/// What the start of a key distribution does, from the state `s0` and the events `sent0`
/// to the state `s1` and the events `sent1`.
pub open spec fn handle_qkd_init_outcome<G: Fn() -> usize>(
    payload: EventPayload,
    t: i64,
    dark_counts: &G,
    s0: StateView,
    sent0: Seq<Event>,
    s1: StateView,
    sent1: Seq<Event>,
    r: Result<(), Error>,
) -> bool {
    match payload {
        EventPayload::HandleQkdInit(a) => {
            let pid = s0.processes.len() as i32;
            let same = s1.pairs == s0.pairs && sent1 == sent0;
            &&& s1.processes == s0.processes.insert(
                pid,
                Process { id: pid, started_at: t, accepted_pairs: 0, key: None },
            )
            &&& s1.detectors == s0.detectors
            &&& s1.links == s0.links
            &&& if !s0.nodes.contains_key(a.src_node_id) || !s0.nodes.contains_key(a.dst_node_id) {
                r matches Err(Error::Node(NodeError::NodeNotFound(x))) && x == 0 && s1.nodes == s0.nodes
                    && same
            } else if !s0.links.contains_key(a.src_epr_link_id) || !s0.links.contains_key(
                a.dst_epr_link_id,
            ) {
                r matches Err(Error::Sim(SimError::MissingArgument(m))) && m@ == "dst_node_id"@
                    && s1.nodes == s0.nodes && same
            } else {
                let sn = s0.nodes[a.src_node_id];
                let dn = s0.nodes[a.dst_node_id];
                if !available(sn, pid) {
                    r matches Err(Error::Node(NodeError::NodeInUse())) && s1.nodes == s0.nodes && same
                } else if !available(dn, pid) {
                    r matches Err(Error::Node(NodeError::NodeInUse())) && s1.nodes == s0.nodes.insert(
                        a.src_node_id,
                        held_by(sn, pid),
                    ) && same
                } else {
                    &&& s1.nodes == s0.nodes.insert(a.src_node_id, held_by(sn, pid)).insert(
                        a.dst_node_id,
                        held_by(dn, pid),
                    )
                    &&& if !s0.detectors.contains_key(sn.detector_id) {
                        r matches Err(Error::Detector(DetectorError::NotFound(x))) && x == sn.detector_id
                            && same
                    } else if !s0.detectors.contains_key(dn.detector_id) {
                        r matches Err(Error::Detector(DetectorError::NotFound(x))) && x == dn.detector_id
                            && same
                    } else if !all_pair_times_fit(
                        t,
                        s0.links[a.src_epr_link_id],
                        s0.links[a.dst_epr_link_id],
                        pid,
                    ) {
                        r matches Err(Error::Sim(SimError::NotValidInput(_))) && same
                    } else {
                        emission_outcome(
                            dark_counts,
                            s0.detectors[sn.detector_id],
                            s0.detectors[dn.detector_id],
                            sn.id,
                            dn.id,
                            s0.links[a.src_epr_link_id],
                            s0.links[a.dst_epr_link_id],
                            pid,
                            t,
                            s0.pairs,
                            sent0,
                            s1.pairs,
                            sent1,
                            r,
                        )
                    }
                }
            }
        },
        _ => r matches Err(Error::WrongArgs()) && s1 == s0 && sent1 == sent0,
    }
}

proof fn lemma_qkd_events_prefix(
    src_id: i32,
    dst_id: i32,
    src_link: Link,
    dst_link: Link,
    process_id: i32,
    t: i64,
    m: int,
    j: int,
)
    requires
        0 <= j <= m,
    ensures
        qkd_events(src_id, dst_id, src_link, dst_link, process_id, t, m).len() == 3 * m,
        qkd_events(src_id, dst_id, src_link, dst_link, process_id, t, m).take(3 * j) == qkd_events(
            src_id,
            dst_id,
            src_link,
            dst_link,
            process_id,
            t,
            j,
        ),
    decreases m,
{
    let q = qkd_events(src_id, dst_id, src_link, dst_link, process_id, t, m);
    if m == 0 {
        assert(q.take(0) =~= q);
    } else {
        let prev = qkd_events(src_id, dst_id, src_link, dst_link, process_id, t, m - 1);
        if j < m {
            lemma_qkd_events_prefix(src_id, dst_id, src_link, dst_link, process_id, t, m - 1, j);
            assert(q.take(3 * j) =~= prev.take(3 * j));
        } else {
            lemma_qkd_events_prefix(src_id, dst_id, src_link, dst_link, process_id, t, m - 1, m - 1);
            assert(q.take(3 * j) =~= q);
        }
    }
}

/// Starts a key distribution between two clients. A new process is stored first; then
/// both nodes are locked for it, the dark counts of both detectors are scheduled (as many
/// as `dark_counts` answers for each), and the pairs 1 to `QUBIT_AMOUNT` are emitted
/// and stored. A node held by another process refuses the start, and so do times of the
/// pairs or of the dark counts that do not fit in `i64`.
#[verifier::loop_isolation(false)]
pub fn handle_qkd_init<G: Fn() -> usize>(
    payload: EventPayload,
    current_time: i64,
    state: &mut SimulationState,
    handle: &mut EventLoopHandler,
    dark_counts: &G,
) -> (r: Result<(), Error>)
    requires
        old(state).wf(),
        distinct_nodes(payload),
        dark_counts.requires(()),
    ensures
        final(state).wf(),
        final(handle).channel() == old(handle).channel(),
        handle_qkd_init_outcome(
            payload,
            current_time,
            dark_counts,
            old(state)@,
            old(handle).sent(),
            final(state)@,
            final(handle).sent(),
            r,
        ),
{
    let args = match payload {
        EventPayload::HandleQkdInit(a) => a,
        _ => {
            return Err(Error::WrongArgs());
        },
    };
    let process_id = state.push_process(Process::new(current_time));
    let ghost s_p = state@;
    proof {
        assert(s_p.processes == old(state)@.processes.insert(
            process_id,
            Process { id: process_id, started_at: current_time, accepted_pairs: 0, key: None },
        ));
    }
    let src_found = match state.get_node(args.src_node_id) {
        Some(_) => true,
        None => false,
    };
    let dst_found = match state.get_node(args.dst_node_id) {
        Some(_) => true,
        None => false,
    };
    if !src_found || !dst_found {
        return Err(Error::Node(NodeError::NodeNotFound(0)));
    }
    let src_link = match state.get_link(args.src_epr_link_id) {
        Some(l) => l,
        None => {
            return Err(Error::Sim(SimError::MissingArgument("dst_node_id".to_owned())));
        },
    };
    let dst_link = match state.get_link(args.dst_epr_link_id) {
        Some(l) => l,
        None => {
            return Err(Error::Sim(SimError::MissingArgument("dst_node_id".to_owned())));
        },
    };
    let mut src_node = match state.take_node(args.src_node_id) {
        Some(n) => n,
        None => {
            return Err(Error::Node(NodeError::NodeNotFound(0)));
        },
    };
    let src_acquired = src_node.try_acquire(process_id);
    let src_id = src_node.id;
    let src_detector_id = src_node.detector_id;
    let ghost sn1 = src_node;
    state.put_node(args.src_node_id, src_node);
    if !src_acquired {
        proof {
            assert(sn1 == old(state)@.nodes[args.src_node_id]);
            assert(state@.nodes =~= old(state)@.nodes);
        }
        return Err(Error::Node(NodeError::NodeInUse()));
    }
    proof {
        assert(sn1 == held_by(old(state)@.nodes[args.src_node_id], process_id));
        assert(state@.nodes =~= old(state)@.nodes.insert(args.src_node_id, sn1));
    }
    let ghost nodes_a = state@.nodes;
    let mut dst_node = match state.take_node(args.dst_node_id) {
        Some(n) => n,
        None => {
            return Err(Error::Node(NodeError::NodeNotFound(0)));
        },
    };
    let dst_acquired = dst_node.try_acquire(process_id);
    let dst_id = dst_node.id;
    let dst_detector_id = dst_node.detector_id;
    let ghost dn1 = dst_node;
    state.put_node(args.dst_node_id, dst_node);
    if !dst_acquired {
        proof {
            assert(dn1 == old(state)@.nodes[args.dst_node_id]);
            assert(state@.nodes =~= nodes_a);
        }
        return Err(Error::Node(NodeError::NodeInUse()));
    }
    proof {
        assert(dn1 == held_by(old(state)@.nodes[args.dst_node_id], process_id));
        assert(state@.nodes =~= old(state)@.nodes.insert(args.src_node_id, sn1).insert(
            args.dst_node_id,
            dn1,
        ));
    }
    let src_detector = match state.get_detector(src_detector_id) {
        Some(d) => d,
        None => {
            return Err(Error::Detector(DetectorError::NotFound(src_detector_id)));
        },
    };
    let dst_detector = match state.get_detector(dst_detector_id) {
        Some(d) => d,
        None => {
            return Err(Error::Detector(DetectorError::NotFound(dst_detector_id)));
        },
    };
    if !all_pair_times_fit_at(current_time, &src_link, &dst_link, process_id) {
        return Err(Error::Sim(SimError::NotValidInput("pair times out of range".to_owned())));
    }
    let ghost sent0 = handle.sent();
    let src_scheduled = schedule_dark_counts(&src_detector, current_time, handle, dark_counts);
    let ghost o1 = choose|o: Seq<i64>|
        #[trigger] offsets_drawn(dark_counts, o) && dark_counts_sent(
            src_detector.id,
            current_time,
            o,
            sent0,
            handle.sent(),
            src_scheduled,
        );
    let ghost d1 = dark_count_events(src_detector.id, current_time, o1);
    match src_scheduled {
        Ok(()) => {},
        Err(e) => {
            return Err(e);
        },
    }
    let ghost sent_mid = handle.sent();
    let dst_scheduled = schedule_dark_counts(&dst_detector, current_time, handle, dark_counts);
    let ghost o2 = choose|o: Seq<i64>|
        #[trigger] offsets_drawn(dark_counts, o) && dark_counts_sent(
            dst_detector.id,
            current_time,
            o,
            sent_mid,
            handle.sent(),
            dst_scheduled,
        );
    let ghost d2 = dark_count_events(dst_detector.id, current_time, o2);
    let ghost all = d1 + d2 + qkd_events(
        src_id,
        dst_id,
        src_link,
        dst_link,
        process_id,
        current_time,
        QUBIT_AMOUNT as int,
    );
    let ghost dn: int = (o1.len() + o2.len()) as int;
    match dst_scheduled {
        Ok(()) => {},
        Err(e) => {
            proof {
                if dark_counts_fit(current_time, o2) {
                let k = choose|k: int|
                    0 <= k < d2.len() && handle.sent() == sent0 + d1 + d2.take(k + 1) && #[trigger] send_failed(
                        e,
                        d2[k],
                    );
                lemma_qkd_events_prefix(
                    src_id,
                    dst_id,
                    src_link,
                    dst_link,
                    process_id,
                    current_time,
                    QUBIT_AMOUNT as int,
                    0,
                );
                assert(all.take(d1.len() + k + 1) =~= d1 + d2.take(k + 1));
                assert(all[d1.len() + k] == d2[k]);
                assert(handle.sent() =~= sent0 + all.take(d1.len() + k + 1));
                assert(send_failed(e, all[d1.len() + k]));
                }
            }
            return Err(e);
        },
    }
    proof {
        assert(handle.sent() =~= sent0 + (d1 + d2));
    }
    let ghost pairs0 = state@.pairs;
    let mut qubit_nr: i32 = 1;
    while qubit_nr <= QUBIT_AMOUNT
        invariant
            1 <= qubit_nr <= QUBIT_AMOUNT + 1,
            state.wf(),
            all_pair_times_fit(current_time, src_link, dst_link, process_id),
            state@.pairs == with_fresh_pairs(pairs0, src_id, dst_id, process_id, current_time, qubit_nr - 1),
            state@.nodes == old(state)@.nodes.insert(args.src_node_id, sn1).insert(args.dst_node_id, dn1),
            state@.processes == s_p.processes,
            state@.detectors == old(state)@.detectors,
            state@.links == old(state)@.links,
            handle.channel() == old(handle).channel(),
            d1 == dark_count_events(src_detector.id, current_time, o1),
            d2 == dark_count_events(dst_detector.id, current_time, o2),
            dn == o1.len() + o2.len(),
            all == d1 + d2 + qkd_events(
                src_id,
                dst_id,
                src_link,
                dst_link,
                process_id,
                current_time,
                QUBIT_AMOUNT as int,
            ),
            handle.sent() == sent0 + (d1 + d2) + qkd_events(
                src_id,
                dst_id,
                src_link,
                dst_link,
                process_id,
                current_time,
                qubit_nr - 1,
            ),
        decreases QUBIT_AMOUNT + 1 - qubit_nr,
    {
        let key = PairKey { qubit_nr, process_id };
        proof {
            assert(times_fit_at(current_time, src_link, dst_link, process_id, qubit_nr as int));
        }
        let ghost before = handle.sent();
        match emit_pair(src_id, dst_id, src_link, dst_link, key, current_time, handle) {
            Ok(pair) => {
                state.insert_pair(pair);
            },
            Err(e) => {
                proof {
                    let pe = pair_events(src_id, dst_id, src_link, dst_link, key, current_time);
                    let k = choose|k: int|
                        0 <= k < pe.len() && handle.sent() == before + pe.take(k + 1) && #[trigger] send_failed(
                            e,
                            pe[k],
                        );
                    let q = qubit_nr as int;
                    let qm = qkd_events(
                        src_id,
                        dst_id,
                        src_link,
                        dst_link,
                        process_id,
                        current_time,
                        QUBIT_AMOUNT as int,
                    );
                    let qq = qkd_events(src_id, dst_id, src_link, dst_link, process_id, current_time, q);
                    let qprev = qkd_events(src_id, dst_id, src_link, dst_link, process_id, current_time, q - 1);
                    lemma_qkd_events_prefix(src_id, dst_id, src_link, dst_link, process_id, current_time, QUBIT_AMOUNT as int, q);
                    lemma_qkd_events_prefix(src_id, dst_id, src_link, dst_link, process_id, current_time, q - 1, 0);
                    assert(qq == qprev + pe);
                    let idx = 3 * (q - 1) + k;
                    assert(qm.take(idx + 1) =~= qq.take(idx + 1));
                    assert(qq.take(idx + 1) =~= qprev + pe.take(k + 1));
                    assert(qm.take(3 * q)[idx] == qm[idx]);
                    assert(qq[idx] == pe[k]);
                    assert(qm[idx] == pe[k]);
                    assert(d1.len() + d2.len() == dn);
                    assert(all.take(dn + idx + 1) =~= d1 + d2 + qm.take(idx + 1));
                    assert(all[dn + idx] == qm[idx]);
                    assert(handle.sent() =~= sent0 + all.take(dn + idx + 1));
                    assert(send_failed(e, all[dn + idx]));
                    assert(pairs_done(handle.sent().len() - sent0.len(), dn) == q - 1);
                }
                return Err(e);
            },
        }
        qubit_nr = qubit_nr + 1;
    }
    proof {
        lemma_qkd_events_prefix(src_id, dst_id, src_link, dst_link, process_id, current_time, QUBIT_AMOUNT as int, 0);
        assert(handle.sent() =~= sent0 + all);
    }
    Ok(())
}


/// What the creation of a node does: the node and the detector that `make_node` made
/// (and stored elsewhere) are added to the state.
pub open spec fn create_node_outcome<N: Fn(CreateNodePayload) -> Result<(Node, Detector), Error>>(
    payload: EventPayload,
    make_node: &N,
    s0: StateView,
    s1: StateView,
    r: Result<(), Error>,
) -> bool {
    match payload {
        EventPayload::CreateNode(a) => exists|made: Result<(Node, Detector), Error>|
            #[trigger] make_node.ensures((a,), made) && match made {
                Err(e) => r == Err::<(), Error>(e) && s1 == s0,
                Ok((n, d)) => r is Ok && s1 == StateView {
                    nodes: s0.nodes.insert(n.id, n),
                    detectors: s0.detectors.insert(d.id, d),
                    ..s0
                },
            },
        _ => r matches Err(Error::WrongArgs()) && s1 == s0,
    }
}

/// Creates a node. `make_node` makes the node and its detector where they are kept for
/// good (with their ids); the state then holds both.
pub fn create_node<N: Fn(CreateNodePayload) -> Result<(Node, Detector), Error>>(
    payload: EventPayload,
    _current_time: i64,
    state: &mut SimulationState,
    _handle: &EventLoopHandler,
    make_node: &N,
) -> (r: Result<(), Error>)
    requires
        old(state).wf(),
        forall|a: CreateNodePayload| make_node.requires((a,)),
    ensures
        final(state).wf(),
        create_node_outcome(payload, make_node, old(state)@, final(state)@, r),
{
    let args = match payload {
        EventPayload::CreateNode(a) => a,
        _ => {
            return Err(Error::WrongArgs());
        },
    };
    let ghost a = args;
    let made = make_node(args);
    proof {
        assert(make_node.ensures((a,), made));
    }
    let (node, detector) = match made {
        Ok(nd) => nd,
        Err(e) => {
            return Err(e);
        },
    };
    let ghost n = node;
    state.upsert_node(node);
    state.upsert_detector(detector);
    proof {
        assert(state@ =~= StateView {
            nodes: old(state)@.nodes.insert(n.id, n),
            detectors: old(state)@.detectors.insert(detector.id, detector),
            ..old(state)@
        });
    }
    Ok(())
}

/// What the creation of a link does: the link that `make_link` made (and stored
/// elsewhere) is added to the state.
pub open spec fn create_link_outcome<L: Fn(CreateLinkPayload) -> Result<Link, Error>>(
    payload: EventPayload,
    make_link: &L,
    s0: StateView,
    s1: StateView,
    r: Result<(), Error>,
) -> bool {
    match payload {
        EventPayload::CreateLink(a) => exists|made: Result<Link, Error>|
            #[trigger] make_link.ensures((a,), made) && match made {
                Err(e) => r == Err::<(), Error>(e) && s1 == s0,
                Ok(l) => r is Ok && s1 == StateView { links: s0.links.insert(l.id, l), ..s0 },
            },
        _ => r matches Err(Error::WrongArgs()) && s1 == s0,
    }
}

/// Creates a link. `make_link` makes the link where it is kept for good (with its id and
/// propagation delay); the state then holds it.
pub fn create_link<L: Fn(CreateLinkPayload) -> Result<Link, Error>>(
    payload: EventPayload,
    _current_time: i64,
    state: &mut SimulationState,
    _handle: &EventLoopHandler,
    make_link: &L,
) -> (r: Result<(), Error>)
    requires
        old(state).wf(),
        forall|a: CreateLinkPayload| make_link.requires((a,)),
    ensures
        final(state).wf(),
        create_link_outcome(payload, make_link, old(state)@, final(state)@, r),
{
    let args = match payload {
        EventPayload::CreateLink(a) => a,
        _ => {
            return Err(Error::WrongArgs());
        },
    };
    let made = make_link(args);
    let link = match made {
        Ok(l) => l,
        Err(e) => {
            return Err(e);
        },
    };
    state.upsert_link(link);
    proof {
        assert(state@ =~= StateView { links: old(state)@.links.insert(link.id, link), ..old(state)@ });
    }
    Ok(())
}

/// A started key distribution holds both clients for its new process, and all its pairs
/// have been emitted and stored, fresh.
pub proof fn law_started_session_holds_both_nodes<G: Fn() -> usize>(
    payload: EventPayload,
    t: i64,
    dark_counts: &G,
    s0: StateView,
    sent0: Seq<Event>,
    s1: StateView,
    sent1: Seq<Event>,
    r: Result<(), Error>,
)
    requires
        handle_qkd_init_outcome(payload, t, dark_counts, s0, sent0, s1, sent1, r),
        r is Ok,
        distinct_nodes(payload),
    ensures
        payload matches EventPayload::HandleQkdInit(a) && {
            let pid = s0.processes.len() as i32;
            &&& s1.nodes[a.src_node_id].locked_by == Some(pid)
            &&& s1.nodes[a.dst_node_id].locked_by == Some(pid)
            &&& s1.processes[pid].accepted_pairs == 0
            &&& s1.pairs == with_fresh_pairs(
                s0.pairs,
                s0.nodes[a.src_node_id].id,
                s0.nodes[a.dst_node_id].id,
                pid,
                t,
                QUBIT_AMOUNT as int,
            )
        },
{
}

/// A client held by another process refuses a new key distribution: no pair is emitted
/// and nothing is submitted.
pub proof fn law_busy_client_refuses_session<G: Fn() -> usize>(
    payload: EventPayload,
    t: i64,
    dark_counts: &G,
    s0: StateView,
    sent0: Seq<Event>,
    s1: StateView,
    sent1: Seq<Event>,
    r: Result<(), Error>,
    holder: i32,
)
    requires
        handle_qkd_init_outcome(payload, t, dark_counts, s0, sent0, s1, sent1, r),
        distinct_nodes(payload),
        holder != s0.processes.len() as i32,
        payload matches EventPayload::HandleQkdInit(a) && {
            &&& s0.nodes.contains_key(a.src_node_id)
            &&& s0.nodes.contains_key(a.dst_node_id)
            &&& s0.links.contains_key(a.src_epr_link_id)
            &&& s0.links.contains_key(a.dst_epr_link_id)
            &&& (s0.nodes[a.src_node_id].locked_by == Some(holder) || s0.nodes[a.dst_node_id].locked_by
                == Some(holder))
        },
    ensures
        r matches Err(Error::Node(NodeError::NodeInUse())),
        s1.pairs == s0.pairs,
        sent1 == sent0,
{
}

/// The two clients of a key distribution payload differ.
pub open spec fn distinct_nodes(payload: EventPayload) -> bool {
    payload matches EventPayload::HandleQkdInit(a) ==> a.src_node_id != a.dst_node_id
}

/// The timeout of a pair that was already accepted does nothing.
pub proof fn law_accepted_pair_timeout_is_quiet(
    payload: EventPayload,
    t: i64,
    s0: StateView,
    sent0: Seq<Event>,
    s1: StateView,
    sent1: Seq<Event>,
    r: Result<(), Error>,
)
    requires
        pair_timeout_outcome(payload, t, s0, sent0, s1, sent1, r),
        payload matches EventPayload::PairTimeout(a) && s0.pairs.contains_key(
            pair_slot(a.pair_key.process_id, a.pair_key.qubit_nr),
        ) && s0.pairs[pair_slot(a.pair_key.process_id, a.pair_key.qubit_nr)].accepted,
    ensures
        r is Ok,
        s1 == s0,
        sent1 == sent0,
{
}

/// A dark count blinds its detector for the cooldown: a qubit that reaches a client with
/// that detector before the cooldown ends is missed, and nothing changes.
pub proof fn law_dark_count_blinds_detector<F: Fn(u32, i64, i32) -> bool>(
    dark: EventPayload,
    t1: i64,
    s0: StateView,
    s1: StateView,
    r1: Result<(), Error>,
    arrival: EventPayload,
    t2: i64,
    draw: &F,
    sent0: Seq<Event>,
    s2: StateView,
    sent2: Seq<Event>,
    r2: Result<(), Error>,
)
    requires
        dark_count_outcome(dark, t1, s0, s1, r1),
        receive_pair_outcome(arrival, t2, draw, s1, sent0, s2, sent2, r2),
        dark matches EventPayload::DarkCount(d) && arrival matches EventPayload::ReceivePair(a) && {
            &&& s0.detectors.contains_key(d.detector_id)
            &&& s1.nodes.contains_key(a.node_id)
            &&& s1.links.contains_key(a.link_id)
            &&& s1.nodes[a.node_id].detector_id == d.detector_id
            &&& t1 <= t2 < t1 + s0.detectors[d.detector_id].cooldown_ps
        },
    ensures
        r2 is Ok,
        s2 == s1,
        sent2 == sent0,
{
}

} // verus!
