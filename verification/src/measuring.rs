//! What the clients, and an eavesdropper, record when a qubit reaches them.
use vstd::prelude::*;

use crate::basis::{
    bases_of, basis_difference_tenths, random_flag, spec_basis_difference, Basis, Side,
};
use crate::error::{NodeError, PairError, SimError};
use crate::event::{Event, EventName, EventPayload, EventTime, PostProcessPayload};
use crate::event_loop::EventLoopHandler;
use crate::measurement::{effective_basis, effective_value, ClientValue, MalloryValue, Measurement};
use crate::node::{after_release, available, Node, Process};
use crate::pair::{measurement_on, NewEntangledPair};
use crate::settings::QUBIT_AMOUNT;
use crate::state::{is_bit, pair_bits, pair_slot, SimulationState};

verus! {

/// The measurement on `side` that a new record starts from: the one already there (an
/// eavesdropper may have measured first), or a fresh one that carries the pair's process
/// id and qubit number.
pub open spec fn base_measurement(p: NewEntangledPair, side: Side, node_id: i32) -> Measurement {
    match measurement_on(p, side) {
        Some(m) => m,
        None => Measurement {
            node_id,
            process_id: p.process_id,
            qubit_nr: p.qubit_nr,
            accepted: false,
            mallory_value: None,
            client_value: None,
        },
    }
}

/// The pair with the measurement of `side` replaced.
pub open spec fn with_side(p: NewEntangledPair, side: Side, m: Measurement) -> NewEntangledPair {
    match side {
        Side::Source => NewEntangledPair { src_measurement: Some(m), ..p },
        Side::Destination => NewEntangledPair { dst_measurement: Some(m), ..p },
    }
}

/// The pair after the client on `side` recorded `basis` and `value`.
pub open spec fn client_recorded(
    p: NewEntangledPair,
    side: Side,
    node_id: i32,
    basis: Basis,
    value: i16,
) -> NewEntangledPair {
    with_side(
        p,
        side,
        Measurement {
            client_value: Some(ClientValue { basis, value }),
            ..base_measurement(p, side, node_id)
        },
    )
}

/// The pair after an eavesdropper on `side` recorded `basis` and `value`.
pub open spec fn mallory_recorded(
    p: NewEntangledPair,
    side: Side,
    node_id: i32,
    basis: Basis,
    value: i16,
) -> NewEntangledPair {
    with_side(
        p,
        side,
        Measurement {
            mallory_value: Some(MalloryValue { basis, value }),
            ..base_measurement(p, side, node_id)
        },
    )
}

/// The client on `side` measures first: the client on the other side has not measured.
pub open spec fn measures_first(p: NewEntangledPair, side: Side) -> bool {
    match measurement_on(p, side.other()) {
        Some(m) => m.client_value is None,
        None => true,
    }
}

/// The pair once both measurements are there: it becomes accepted.
pub open spec fn newly_accepted(p: NewEntangledPair) -> bool {
    p.src_measurement is Some && p.dst_measurement is Some && !p.accepted
}

/// The pair, marked accepted when both measurements are there.
pub open spec fn with_acceptance(p: NewEntangledPair) -> NewEntangledPair {
    if newly_accepted(p) {
        NewEntangledPair { accepted: true, ..p }
    } else {
        p
    }
}

/// The value the second client records: the first value when the outcomes are
/// correlated, its complement otherwise.
pub open spec fn second_value(first_value: i16, correlated: bool) -> i16 {
    if correlated {
        first_value
    } else {
        (1 - first_value) as i16
    }
}

/// The event that starts the classical post-processing of a process.
pub open spec fn post_process_event(process_id: i32) -> Event {
    Event {
        name: EventName::PostProcess,
        payload: EventPayload::PostProcess(PostProcessPayload { process_id }),
        timestamp: EventTime::Now,
    }
}

/// The node of this side as the state holds it, or the copy at hand when the state has
/// none under its id.
pub open spec fn own_node(node: Node, nodes: Map<i32, Node>) -> Node {
    if nodes.contains_key(node.id) {
        nodes[node.id]
    } else {
        node
    }
}

/// The nodes once this side's node is released in the state (when the state holds it).
pub open spec fn own_released(node: Node, pid: i32, nodes: Map<i32, Node>) -> Map<i32, Node> {
    if nodes.contains_key(node.id) {
        nodes.insert(node.id, after_release(nodes[node.id], pid))
    } else {
        nodes
    }
}

/// What the acceptance of the last pair of a process does: the nodes of both sides are
/// released in the state, this side's first and then the first side's, and post-processing
/// is started. A node held by another process, or a first node the state does not hold,
/// stops it there.
pub open spec fn last_pair_outcome(
    node: Node,
    first_node_id: i32,
    pid: i32,
    process_id: i32,
    nodes0: Map<i32, Node>,
    sent0: Seq<Event>,
    nodes1: Map<i32, Node>,
    sent1: Seq<Event>,
    r: Result<(), PairError>,
) -> bool {
    let nodes_a = own_released(node, pid, nodes0);
    if !available(own_node(node, nodes0), pid) {
        r matches Err(PairError::Node(NodeError::NotAuthorized(x))) && x == pid && nodes1 == nodes0
            && sent1 == sent0
    } else if !nodes_a.contains_key(first_node_id) {
        r matches Err(PairError::PairNotFound(x)) && x == first_node_id && nodes1 == nodes_a
            && sent1 == sent0
    } else if !available(nodes_a[first_node_id], pid) {
        r matches Err(PairError::Node(NodeError::NotAuthorized(x))) && x == pid && nodes1 == nodes_a
            && sent1 == sent0
    } else {
        &&& sent1 == sent0.push(post_process_event(process_id))
        &&& nodes1 == nodes_a.insert(first_node_id, after_release(nodes_a[first_node_id], pid))
        &&& (r matches Err(e) ==> e matches PairError::Sim(SimError::ChannelSendError { source })
            && source == post_process_event(process_id))
    }
}

/// Accepting the last pair releases both clients: when it succeeds, the node of this side
/// (as the state holds it) and the node of the first side are free.
pub proof fn law_last_pair_releases_both_nodes(
    node: Node,
    first_node_id: i32,
    pid: i32,
    process_id: i32,
    nodes0: Map<i32, Node>,
    sent0: Seq<Event>,
    nodes1: Map<i32, Node>,
    sent1: Seq<Event>,
    r: Result<(), PairError>,
)
    requires
        last_pair_outcome(node, first_node_id, pid, process_id, nodes0, sent0, nodes1, sent1, r),
        r is Ok,
        nodes0.contains_key(node.id),
    ensures
        nodes1[node.id].locked_by is None,
        nodes1[first_node_id].locked_by is None,
{
}

/// What the second measurement leaves behind, once `basis` and the correlation are drawn:
/// the pair `q`, the process `pr` and the nodes `nodes1`, from the pair `p`, the process
/// `proc0` and the nodes `nodes0`, with the result `r`.
pub open spec fn second_outcome(
    p: NewEntangledPair,
    side: Side,
    node: Node,
    basis: Basis,
    correlated: bool,
    proc0: Process,
    nodes0: Map<i32, Node>,
    sent0: Seq<Event>,
    q: NewEntangledPair,
    pr: Process,
    nodes1: Map<i32, Node>,
    sent1: Seq<Event>,
    r: Result<(), PairError>,
) -> bool {
    let unchanged = q == p && pr == proc0 && nodes1 == nodes0 && sent1 == sent0;
    match measurement_on(p, side.other()) {
        None => r matches Err(PairError::NotMeasured()) && unchanged,
        Some(f) => match effective_value(f) {
            None => r matches Err(PairError::NotMeasured()) && unchanged,
            Some(fv) => {
                let p1 = client_recorded(p, side, node.id, basis, second_value(fv, correlated));
                let count = if newly_accepted(p1) {
                    proc0.accepted_pairs + 1
                } else {
                    proc0.accepted_pairs as int
                };
                let pid = p.process_id;
                &&& q == with_acceptance(p1)
                &&& pr == Process { accepted_pairs: pr.accepted_pairs, ..proc0 }
                &&& pr.accepted_pairs == count
                &&& count < QUBIT_AMOUNT ==> r is Ok && nodes1 == nodes0 && sent1 == sent0
                &&& count >= QUBIT_AMOUNT ==> last_pair_outcome(
                    node,
                    f.node_id,
                    pid,
                    proc0.id,
                    nodes0,
                    sent0,
                    nodes1,
                    sent1,
                    r,
                )
            },
        },
    }
}

/// What the second measurement leaves behind when `draw` decides the correlation: for
/// some basis of the side and some answer that `draw` may give for it, the outcome of
/// [`second_outcome`].
pub open spec fn second_step<F: Fn(u32, i64, i32) -> bool>(
    p: NewEntangledPair,
    side: Side,
    node: Node,
    distance: i64,
    draw: &F,
    proc0: Process,
    nodes0: Map<i32, Node>,
    sent0: Seq<Event>,
    q: NewEntangledPair,
    pr: Process,
    nodes1: Map<i32, Node>,
    sent1: Seq<Event>,
    r: Result<(), PairError>,
) -> bool {
    let unchanged = q == p && pr == proc0 && nodes1 == nodes0 && sent1 == sent0;
    match measurement_on(p, side.other()) {
        None => r matches Err(PairError::NotMeasured()) && unchanged,
        Some(f) => match effective_basis(f) {
            None => r matches Err(PairError::NotMeasured()) && unchanged,
            Some(fb) => exists|b: Basis, c: bool|
                #![trigger draw.ensures((p.fidelity_bits, distance, spec_basis_difference(b, fb) as i32), c)]
                bases_of(side).contains(b) && draw.ensures(
                    (p.fidelity_bits, distance, spec_basis_difference(b, fb) as i32),
                    c,
                ) && second_outcome(p, side, node, b, c, proc0, nodes0, sent0, q, pr, nodes1, sent1, r),
        },
    }
}

/// What measuring qubit `qubit_nr` of process `process_id` on `side` does to the pairs,
/// the processes, the nodes and the submitted events (each before and after).
pub open spec fn measured<F: Fn(u32, i64, i32) -> bool>(
    process_id: i32,
    qubit_nr: i32,
    side: Side,
    node: Node,
    distance: i64,
    draw: &F,
    pairs0: Map<i64, NewEntangledPair>,
    procs0: Map<i32, Process>,
    nodes0: Map<i32, Node>,
    sent0: Seq<Event>,
    pairs1: Map<i64, NewEntangledPair>,
    procs1: Map<i32, Process>,
    nodes1: Map<i32, Node>,
    sent1: Seq<Event>,
    r: Result<(), PairError>,
) -> bool {
    let slot = pair_slot(process_id, qubit_nr);
    let unchanged = pairs1 == pairs0 && procs1 == procs0 && nodes1 == nodes0 && sent1 == sent0;
    if !pairs0.contains_key(slot) {
        r matches Err(PairError::PairNotFound(x)) && x == qubit_nr && unchanged
    } else if !procs0.contains_key(process_id) {
        r matches Err(PairError::NotMeasured()) && unchanged
    } else {
        let p = pairs0[slot];
        if measures_first(p, side) {
            &&& r is Ok
            &&& procs1 == procs0
            &&& nodes1 == nodes0
            &&& sent1 == sent0
            &&& exists|b: Basis, v: i16|
                bases_of(side).contains(b) && is_bit(v) && pairs1 == pairs0.insert(
                    slot,
                    #[trigger] client_recorded(p, side, node.id, b, v),
                )
        } else {
            &&& pairs1.contains_key(slot)
            &&& procs1.contains_key(process_id)
            &&& pairs1 == pairs0.insert(slot, pairs1[slot])
            &&& procs1 == procs0.insert(process_id, procs1[process_id])
            &&& second_step(
                p,
                side,
                node,
                distance,
                draw,
                procs0[process_id],
                nodes0,
                sent0,
                pairs1[slot],
                procs1[process_id],
                nodes1,
                sent1,
                r,
            )
        }
    }
}

/// What an eavesdropper's measurement of qubit `qubit_nr` of process `process_id` on `side`
/// does to the pairs: it records a basis of that side and a bit, or reports a missing pair.
pub open spec fn mallory_measured(
    process_id: i32,
    qubit_nr: i32,
    side: Side,
    node_id: i32,
    pairs0: Map<i64, NewEntangledPair>,
    pairs1: Map<i64, NewEntangledPair>,
    r: Result<(), PairError>,
) -> bool {
    let slot = pair_slot(process_id, qubit_nr);
    if !pairs0.contains_key(slot) {
        r matches Err(PairError::PairNotFound(x)) && x == qubit_nr && pairs1 == pairs0
    } else {
        &&& r is Ok
        &&& exists|b: Basis, v: i16|
            bases_of(side).contains(b) && is_bit(v) && pairs1 == pairs0.insert(
                slot,
                #[trigger] mallory_recorded(pairs0[slot], side, node_id, b, v),
            )
    }
}

/// A pair adds to the count of accepted pairs of its process at most once: measuring a
/// pair that is already accepted leaves the count as it was.
pub proof fn law_pair_counted_once(
    p: NewEntangledPair,
    side: Side,
    node: Node,
    basis: Basis,
    correlated: bool,
    proc0: Process,
    nodes0: Map<i32, Node>,
    sent0: Seq<Event>,
    q: NewEntangledPair,
    pr: Process,
    nodes1: Map<i32, Node>,
    sent1: Seq<Event>,
    r: Result<(), PairError>,
)
    requires
        second_outcome(p, side, node, basis, correlated, proc0, nodes0, sent0, q, pr, nodes1, sent1, r),
        p.accepted,
    ensures
        pr.accepted_pairs == proc0.accepted_pairs,
        q.accepted,
{
    match side {
        Side::Source => {},
        Side::Destination => {},
    }
}

/// The second client records the value that counts on the other side when the outcomes
/// are correlated, and its complement otherwise, in the basis it picked.
pub proof fn law_second_value_follows_first(
    p: NewEntangledPair,
    side: Side,
    node: Node,
    basis: Basis,
    correlated: bool,
    proc0: Process,
    nodes0: Map<i32, Node>,
    sent0: Seq<Event>,
    q: NewEntangledPair,
    pr: Process,
    nodes1: Map<i32, Node>,
    sent1: Seq<Event>,
    r: Result<(), PairError>,
)
    requires
        second_outcome(p, side, node, basis, correlated, proc0, nodes0, sent0, q, pr, nodes1, sent1, r),
        measurement_on(p, side.other()) matches Some(f) && effective_value(f) is Some,
    ensures
        measurement_on(p, side.other()) matches Some(f) && effective_value(f) matches Some(fv)
            && measurement_on(q, side) matches Some(m) && m.client_value == Some(
            ClientValue { basis, value: if correlated { fv } else { (1 - fv) as i16 } },
        ),
{
    match side {
        Side::Source => {},
        Side::Destination => {},
    }
}

/// Whether the client on `side` measures first.
pub fn is_first(entangled_pair: &NewEntangledPair, side: Side) -> (r: Result<bool, PairError>)
    ensures
        r matches Ok(b) && b == measures_first(*entangled_pair, side),
{
    match entangled_pair.measurement_at(side.opposite()) {
        Some(m) => Ok(m.client_value.is_none()),
        None => Ok(true),
    }
}

/// Records what the client on `side` measured.
pub fn record_client_value(
    entangled_pair: &mut NewEntangledPair,
    side: Side,
    node_id: i32,
    basis: Basis,
    value: i16,
)
    ensures
        *final(entangled_pair) == client_recorded(*old(entangled_pair), side, node_id, basis, value),
{
    let mut measurement = match entangled_pair.measurement_at(side) {
        Some(m) => m,
        None => Measurement::new(node_id, entangled_pair.process_id, entangled_pair.qubit_nr),
    };
    measurement.client_value = Some(ClientValue::new(basis, value));
    entangled_pair.set_measurement(side, measurement);
}

/// The first measurement: the client picks a basis of its side and a bit at random.
pub fn first_measurement(entangled_pair: &mut NewEntangledPair, side: Side, node: Node) -> (r: Result<
    (),
    PairError,
>)
    requires
        pair_bits(*old(entangled_pair)),
    ensures
        r is Ok,
        pair_bits(*final(entangled_pair)),
        exists|b: Basis, v: i16|
            bases_of(side).contains(b) && is_bit(v) && *final(entangled_pair) == #[trigger] client_recorded(
                *old(entangled_pair),
                side,
                node.id,
                b,
                v,
            ),
{
    let basis: Basis = Basis::get_random_basis(side);
    let value: i16 = if random_flag() {
        0
    } else {
        1
    };
    record_client_value(entangled_pair, side, node.id, basis, value);
    Ok(())
}

/// Records an eavesdropper's measurement on `side`: a basis of that side and a bit.
pub fn record_mallory_value(
    entangled_pair: &mut NewEntangledPair,
    side: Side,
    node_id: i32,
    basis: Basis,
    value: i16,
)
    ensures
        *final(entangled_pair) == mallory_recorded(*old(entangled_pair), side, node_id, basis, value),
{
    let mut measurement = match entangled_pair.measurement_at(side) {
        Some(m) => m,
        None => Measurement::new(node_id, entangled_pair.process_id, entangled_pair.qubit_nr),
    };
    measurement.mallory_value = Some(MalloryValue::new(basis, value));
    entangled_pair.set_measurement(side, measurement);
}

/// Releases the lock of a copy of a node: the result tells whether the process may let go.
fn release_copy(node: &Node, process_id: i32) -> (r: Result<(), NodeError>)
    ensures
        match node.locked_by {
            Some(owner) => owner != process_id ==> (r matches Err(NodeError::NotAuthorized(p))
                && p == process_id),
            None => true,
        },
        (node.locked_by is None || node.locked_by == Some(process_id)) ==> r is Ok,
{
    let mut copy = node.duplicate();
    copy.release(process_id)
}

/// The second measurement, once the basis and the correlation are drawn: the value is the
/// first side's value when correlated, its complement otherwise. When the process has
/// accepted nearly all its pairs, the lock of this side's node is given up on the copy at
/// hand (which is not stored back), the node of the first side is released in the state,
/// and post-processing is started.
pub fn complete_second_measurement(
    entangled_pair: &mut NewEntangledPair,
    side: Side,
    node: Node,
    basis: Basis,
    correlated: bool,
    process: &mut Process,
    state: &mut SimulationState,
    handle: &mut EventLoopHandler,
) -> (r: Result<(), PairError>)
    requires
        old(state).wf(),
        pair_bits(*old(entangled_pair)),
        old(process).accepted_pairs < i32::MAX,
    ensures
        final(state).wf(),
        pair_bits(*final(entangled_pair)),
        final(state).pair_map() == old(state).pair_map(),
        final(state).process_map() == old(state).process_map(),
        final(state).detector_map() == old(state).detector_map(),
        final(state).link_map() == old(state).link_map(),
        second_outcome(
            *old(entangled_pair),
            side,
            node,
            basis,
            correlated,
            *old(process),
            old(state).node_map(),
            old(handle).sent(),
            *final(entangled_pair),
            *final(process),
            final(state).node_map(),
            final(handle).sent(),
            r,
        ),
        final(handle).channel() == old(handle).channel(),
{
    let first = match entangled_pair.measurement_at(side.opposite()) {
        Some(m) => m,
        None => {
            return Err(PairError::NotMeasured());
        },
    };
    let first_value = match first.get_value() {
        Ok(v) => v,
        Err(e) => {
            return Err(e);
        },
    };
    proof {
        let p = *old(entangled_pair);
        match side {
            Side::Source => assert(measurement_on(p, side.other()) == p.dst_measurement),
            Side::Destination => assert(measurement_on(p, side.other()) == p.src_measurement),
        }
        assert(is_bit(first_value));
    }
    let value: i16 = if correlated {
        first_value
    } else {
        1 - first_value
    };
    record_client_value(entangled_pair, side, node.id, basis, value);
    if entangled_pair.src_measurement.is_some() && entangled_pair.dst_measurement.is_some()
        && !entangled_pair.accepted {
        entangled_pair.accepted = true;
        process.accepted_pairs = process.accepted_pairs + 1;
    }
    if process.accepted_pairs < QUBIT_AMOUNT {
        return Ok(());
    }
    let pid = entangled_pair.process_id;
    match state.take_node(node.id) {
        Some(mut own) => {
            let released = own.release(pid);
            state.put_node(node.id, own);
            match released {
                Ok(()) => {},
                Err(e) => {
                    proof {
                        assert(state.node_map() =~= old(state).node_map());
                    }
                    return Err(PairError::Node(e));
                },
            }
        },
        None => {
            proof {
                assert(state.node_map() =~= old(state).node_map());
            }
            match release_copy(&node, pid) {
                Ok(()) => {},
                Err(e) => {
                    return Err(PairError::Node(e));
                },
            }
        },
    }
    let ghost nodes_a = state.node_map();
    proof {
        assert(nodes_a =~= own_released(node, pid, old(state).node_map()));
    }
    let mut first_node = match state.take_node(first.node_id) {
        Some(n) => n,
        None => {
            proof {
                assert(state.node_map() =~= nodes_a);
            }
            return Err(PairError::PairNotFound(first.node_id));
        },
    };
    let released = first_node.release(pid);
    state.put_node(first.node_id, first_node);
    match released {
        Ok(()) => {},
        Err(e) => {
            proof {
                assert(state.node_map() =~= nodes_a);
            }
            return Err(PairError::Node(e));
        },
    }
    proof {
        assert(state.node_map() =~= nodes_a.insert(first.node_id, after_release(nodes_a[first.node_id], pid)));
    }
    let payload = PostProcessPayload { process_id: process.id };
    match handle.push_event(Event::new_now(EventName::PostProcess, EventPayload::PostProcess(payload))) {
        Ok(()) => Ok(()),
        Err(e) => Err(PairError::Sim(e)),
    }
}


/// The second measurement. The client picks a basis of its side at random; `draw` decides,
/// from the fidelity of the pair (the bits of an `f32`), the length of the link and the
/// angle between the two bases (tenths of a degree), whether the outcomes are correlated.
pub fn second_measurement<F: Fn(u32, i64, i32) -> bool>(
    entangled_pair: &mut NewEntangledPair,
    side: Side,
    node: Node,
    distance: i64,
    process: &mut Process,
    state: &mut SimulationState,
    handle: &mut EventLoopHandler,
    draw: &F,
) -> (r: Result<(), PairError>)
    requires
        old(state).wf(),
        pair_bits(*old(entangled_pair)),
        old(process).accepted_pairs < i32::MAX,
        forall|f: u32, d: i64, a: i32| draw.requires((f, d, a)),
    ensures
        final(state).wf(),
        pair_bits(*final(entangled_pair)),
        final(state).pair_map() == old(state).pair_map(),
        final(state).process_map() == old(state).process_map(),
        final(state).detector_map() == old(state).detector_map(),
        final(state).link_map() == old(state).link_map(),
        second_step(
            *old(entangled_pair),
            side,
            node,
            distance,
            draw,
            *old(process),
            old(state).node_map(),
            old(handle).sent(),
            *final(entangled_pair),
            *final(process),
            final(state).node_map(),
            final(handle).sent(),
            r,
        ),
        final(handle).channel() == old(handle).channel(),
{
    let first = match entangled_pair.measurement_at(side.opposite()) {
        Some(m) => m,
        None => {
            return Err(PairError::NotMeasured());
        },
    };
    let basis: Basis = Basis::get_random_basis(side);
    let first_basis = match first.get_basis() {
        Ok(b) => b,
        Err(e) => {
            return Err(e);
        },
    };
    let difference: i32 = basis_difference_tenths(basis, first_basis);
    let correlated: bool = draw(entangled_pair.fidelity_bits, distance, difference);
    let ghost p = *old(entangled_pair);
    proof {
        match side {
            Side::Source => assert(measurement_on(p, side.other()) == p.dst_measurement),
            Side::Destination => assert(measurement_on(p, side.other()) == p.src_measurement),
        }
    }
    let r = complete_second_measurement(
        entangled_pair,
        side,
        node,
        basis,
        correlated,
        process,
        state,
        handle,
    );
    proof {
        assert(effective_basis(first) == Some(first_basis));
        assert(draw.ensures(
            (p.fidelity_bits, distance, spec_basis_difference(basis, first_basis) as i32),
            correlated,
        ));
    }
    r
}


/// The client on `side` measures qubit `qubit_nr` of process `process_id`: first or second,
/// depending on whether the other client has measured. The pair and the process are
/// stored back whatever the outcome.
pub fn measure_qubit<F: Fn(u32, i64, i32) -> bool>(
    process_id: i32,
    qubit_nr: i32,
    side: Side,
    node: Node,
    distance: i64,
    state: &mut SimulationState,
    handle: &mut EventLoopHandler,
    draw: &F,
) -> (r: Result<(), PairError>)
    requires
        old(state).wf(),
        old(state).process_map().contains_key(process_id) ==> old(state).process_map()[process_id].accepted_pairs
            < i32::MAX,
        forall|f: u32, d: i64, a: i32| draw.requires((f, d, a)),
    ensures
        final(state).wf(),
        final(state).detector_map() == old(state).detector_map(),
        final(state).link_map() == old(state).link_map(),
        final(handle).channel() == old(handle).channel(),
        measured(
            process_id,
            qubit_nr,
            side,
            node,
            distance,
            draw,
            old(state).pair_map(),
            old(state).process_map(),
            old(state).node_map(),
            old(handle).sent(),
            final(state).pair_map(),
            final(state).process_map(),
            final(state).node_map(),
            final(handle).sent(),
            r,
        ),
{
    let mut pair = match state.get_pair(process_id, qubit_nr) {
        Some(p) => p,
        None => {
            return Err(PairError::PairNotFound(qubit_nr));
        },
    };
    proof {
        state.lemma_pair_found(process_id, qubit_nr);
    }
    let mut process = match state.take_process(process_id) {
        Some(p) => p,
        None => {
            proof {
                assert(state.process_map() =~= old(state).process_map());
            }
            return Err(PairError::NotMeasured());
        },
    };
    let first = match is_first(&pair, side) {
        Ok(b) => b,
        Err(e) => {
            state.put_process(process_id, process);
            return Err(e);
        },
    };
    let r = if first {
        first_measurement(&mut pair, side, node)
    } else {
        second_measurement(&mut pair, side, node, distance, &mut process, state, handle, draw)
    };
    proof {
        assert(pair.process_id == process_id && pair.qubit_nr == qubit_nr);
    }
    state.put_process(process_id, process);
    state.insert_pair(pair);
    proof {
        assert(state.process_map() =~= old(state).process_map().insert(process_id, process));
        if first {
            assert(state.process_map() =~= old(state).process_map());
        }
    }
    r
}


/// An eavesdropper on an insecure link measures the qubit before the client: in a basis
/// of the client's side picked at random, with a random outcome.
pub fn mallory_measure_qubit(
    process_id: i32,
    qubit_nr: i32,
    side: Side,
    node: Node,
    state: &mut SimulationState,
) -> (r: Result<(), PairError>)
    requires
        old(state).wf(),
    ensures
        final(state).wf(),
        final(state).process_map() == old(state).process_map(),
        final(state).node_map() == old(state).node_map(),
        final(state).detector_map() == old(state).detector_map(),
        final(state).link_map() == old(state).link_map(),
        mallory_measured(process_id, qubit_nr, side, node.id, old(state).pair_map(), final(state).pair_map(), r),
{
    let mut pair = match state.get_pair(process_id, qubit_nr) {
        Some(p) => p,
        None => {
            return Err(PairError::PairNotFound(qubit_nr));
        },
    };
    proof {
        state.lemma_pair_found(process_id, qubit_nr);
    }
    let basis: Basis = Basis::get_random_basis(side);
    let value: i16 = if random_flag() {
        0
    } else {
        1
    };
    let ghost p0 = pair;
    record_mallory_value(&mut pair, side, node.id, basis, value);
    proof {
        match side {
            Side::Source => {},
            Side::Destination => {},
        }
        assert(pair_bits(pair));
    }
    state.insert_pair(pair);
    proof {
        assert(pair == mallory_recorded(p0, side, node.id, basis, value));
    }
    Ok(())
}

} // verus!
