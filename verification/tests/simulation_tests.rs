use std::sync::mpsc::{channel, Receiver};

use qkd_simulator::basis::{Basis, Side};
use qkd_simulator::error::{DetectorError, Error, LinkError, NodeError, PairError, ProcessError, SimError, SiftingError};
use qkd_simulator::event::{
    CreateLinkPayload, CreateNodePayload, DarkCountPayload, Event, EventName, EventPayload, EventTime,
    HandleQkdInitPayload, PairTimeoutPayload, PostProcessPayload, ReceivePairPayload, SameBasisPayload,
    ScheduledEvent,
};
use qkd_simulator::event_loop::{EventLoop, EventLoopHandler};
use qkd_simulator::handlers::{create_link, create_node, dark_count, handle_qkd_init, pair_timeout, receive_pair};
use qkd_simulator::heap::BinHeap;
use qkd_simulator::measurement::{ClientValue, Measurement};
use qkd_simulator::measuring::{first_measurement, is_first, measure_qubit};
use qkd_simulator::node::{Detector, Link, Node, NodeKind, Process};
use qkd_simulator::pair::NewEntangledPair;
use qkd_simulator::postprocess::{post_process_key, same_basis};
use qkd_simulator::registry::Registry;
use qkd_simulator::scheduling::{calculate_dark_count_time, emit_pair, schedule_dark_counts};
use qkd_simulator::settings::QUBIT_AMOUNT;
use qkd_simulator::state::{PairKey, SimulationState};

fn client(id: i32) -> Node {
    Node { id, name: format!("c{}", id), locked_by: None, node_type: "0".to_string(), detector_id: id }
}

fn detector(id: i32) -> Detector {
    Detector { id, resolution_ps: 10, cooldown_ps: 10, dark_count_rate: 0, last_detection_time: 0 }
}

fn link(id: i32, src_id: i32, dst_id: i32, delay_us: i64, is_secure: bool) -> Link {
    Link {
        id,
        length: 1000,
        attenuation_bits: 0,
        error_rate_bits: 0,
        src_id,
        dst_id,
        next_available_time: 0,
        is_secure,
        delay_us,
    }
}

/// Two clients (1 and 2) linked to the EPR node 3 by links 10 and 11.
fn network(secure: bool) -> SimulationState {
    let mut state = SimulationState::new();
    state.upsert_node(client(1));
    state.upsert_node(client(2));
    state.upsert_node(Node { id: 3, name: "epr".to_string(), locked_by: None, node_type: "1".to_string(), detector_id: 3 });
    state.upsert_detector(detector(1));
    state.upsert_detector(detector(2));
    state.upsert_link(link(10, 1, 3, 5, secure));
    state.upsert_link(link(11, 2, 3, 7, true));
    state
}

fn init_payload() -> EventPayload {
    EventPayload::HandleQkdInit(HandleQkdInitPayload {
        src_node_id: 1,
        dst_node_id: 2,
        epr_node_id: 3,
        src_epr_link_id: 10,
        dst_epr_link_id: 11,
    })
}

fn drain(rx: &Receiver<Event>) -> Vec<Event> {
    let mut out = Vec::new();
    while let Ok(e) = rx.try_recv() {
        out.push(e);
    }
    out
}

fn arrival(node_id: i32, side: Side, qubit_nr: i32, link_id: i32) -> EventPayload {
    EventPayload::ReceivePair(ReceivePairPayload { node_id, side, qubit_nr, process_id: 0, link_id })
}

fn correlated(_f: u32, _d: i64, _a: i32) -> bool {
    true
}

fn no_dark_counts() -> usize {
    0
}

fn measured_pair(process_id: i32, qubit_nr: i32, src: (Basis, i16), dst: (Basis, i16)) -> NewEntangledPair {
    let mut p = NewEntangledPair::new(1, 2, process_id, qubit_nr, true, 0).unwrap();
    let mut s = Measurement::new(1, process_id, qubit_nr);
    s.client_value = Some(ClientValue::new(src.0, src.1));
    let mut d = Measurement::new(2, process_id, qubit_nr);
    d.client_value = Some(ClientValue::new(dst.0, dst.1));
    p.src_measurement = Some(s);
    p.dst_measurement = Some(d);
    p.accepted = true;
    p
}

fn event_at(ts: i64) -> ScheduledEvent {
    ScheduledEvent::new(Event::new_at(EventName::TestEvent, EventPayload::TestEvent(), ts), ts)
}

#[test]
fn heap_gives_events_in_time_order() {
    let mut heap = BinHeap::new();
    for ts in [50, 10, 40, 30, 20, 60, 0] {
        heap.insert(event_at(ts));
    }
    assert_eq!(heap.get_min().unwrap().timestamp, 0);
    let mut out = Vec::new();
    while let Some(e) = heap.extract_min() {
        out.push(e.timestamp);
    }
    assert_eq!(out, vec![0, 10, 20, 30, 40, 50, 60]);
    assert!(heap.get_min().is_none());
}

#[test]
fn heap_decreases_and_deletes_keys() {
    let mut heap = BinHeap::new();
    for ts in [10, 20, 30, 40] {
        heap.insert(event_at(ts));
    }
    let idx = heap.arr.iter().position(|e| e.timestamp == 40).unwrap();
    heap.decrease_key(idx, event_at(5));
    assert_eq!(heap.get_min().unwrap().timestamp, 5);
    let idx = heap.arr.iter().position(|e| e.timestamp == 20).unwrap();
    heap.delete_key(idx);
    heap.delete_key(99);
    let mut out = Vec::new();
    while let Some(e) = heap.extract_min() {
        out.push(e.timestamp);
    }
    assert_eq!(out, vec![5, 10, 30]);
}

#[test]
fn event_loop_resolves_times_and_pops_the_earliest() {
    let mut lp = EventLoop::new();
    assert_eq!(lp.get_current_time(), 0);
    assert_eq!(lp.set_new_timestamp(100), 100);
    lp.push_event(Event::new_at(EventName::TestEvent, EventPayload::TestEvent(), 300));
    lp.push_event(Event::new_now(EventName::TestEvent, EventPayload::TestEvent()));
    lp.push_event(Event::new(EventName::TestEvent, EventPayload::TestEvent(), EventTime::At(200)));
    assert_eq!(lp.pop_next_event().unwrap().timestamp, 100);
    assert_eq!(lp.pop_next_event().unwrap().timestamp, 200);
    assert_eq!(lp.pop_next_event().unwrap().timestamp, 300);
    assert!(lp.pop_next_event().is_none());
}

#[test]
fn handle_returns_the_event_when_the_loop_is_gone() {
    let (tx, rx) = channel();
    let mut handle = EventLoopHandler::new(tx);
    assert!(handle.push_event(Event::new_now(EventName::SameBasis, EventPayload::SameBasis(SameBasisPayload { process_id: 3 }))).is_ok());
    assert_eq!(rx.recv().unwrap().name, EventName::SameBasis);
    drop(rx);
    match handle.push_event(Event::new_at(EventName::DarkCount, EventPayload::DarkCount(DarkCountPayload { detector_id: 9 }), 12)) {
        Err(SimError::ChannelSendError { source }) => {
            assert_eq!(source.name, EventName::DarkCount);
            assert_eq!(source.timestamp, EventTime::At(12));
        },
        other => panic!("unexpected {:?}", other),
    }
}

#[test]
fn state_keys_pairs_and_processes() {
    let mut state = SimulationState::new();
    assert_eq!(state.push_process(Process::new(5)), 0);
    assert_eq!(state.push_process(Process::new(6)), 1);
    assert_eq!(state.get_process(1).unwrap().started_at, 6);
    assert_eq!(state.get_process(1).unwrap().id, 1);
    let p = NewEntangledPair::new(1, 2, 1, 7, false, 0).unwrap();
    state.insert_pair(p);
    assert_eq!(state.get_pair(1, 7), Some(p));
    assert_eq!(state.get_pair(7, 1), None);
    state.insert_pair(measured_pair(1, 8, (Basis::Deg0, 1), (Basis::Deg22_5, 0)));
    state.insert_pair(measured_pair(0, 9, (Basis::Deg0, 1), (Basis::Deg22_5, 0)));
    let acc = state.get_accepted_measurements(1);
    assert_eq!(acc.len(), 1);
    assert_eq!(acc[0].qubit_nr, 8);
    assert_eq!(state.remove_pair(1, 7), Some(p));
    assert_eq!(state.get_pair(1, 7), None);
    state.upsert_node(client(4));
    state.clear();
    assert!(state.get_node(4).is_none());
    assert!(state.get_process(0).is_some());
    let empty = SimulationState::default();
    assert!(empty.get_process(0).is_none());
    assert!(empty.get_accepted_measurements(0).is_empty());
}

#[test]
fn emitted_pair_schedules_arrivals_and_timeout() {
    let (tx, rx) = channel();
    let mut handle = EventLoopHandler::new(tx);
    let key = PairKey { qubit_nr: 3, process_id: 2 };
    let pair = emit_pair(1, 2, link(10, 1, 3, 5, true), link(11, 2, 3, 7, true), key, 100, &mut handle).unwrap();
    assert_eq!(pair.qubit_nr, 3);
    assert!(!pair.accepted);
    let events = drain(&rx);
    assert_eq!(events.len(), 3);
    assert_eq!(events[0].timestamp, EventTime::At(115));
    assert_eq!(events[1].timestamp, EventTime::At(121));
    assert_eq!(events[2].name, EventName::PairTimeout);
    assert_eq!(events[2].timestamp, EventTime::At(128));
}

#[test]
fn dark_counts_accumulate_offsets() {
    let offsets = calculate_dark_count_time(&|| 5usize);
    assert_eq!(offsets.len(), 5);
    assert!(offsets.iter().all(|o| 0 <= *o && *o < 1000));
    let (tx, rx) = channel();
    let mut handle = EventLoopHandler::new(tx);
    schedule_dark_counts(&detector(4), 50, &mut handle, &|| 3usize).unwrap();
    let events = drain(&rx);
    assert_eq!(events.len(), 3);
    let mut previous = 50;
    for e in events {
        assert_eq!(e.name, EventName::DarkCount);
        match e.payload {
            EventPayload::DarkCount(p) => assert_eq!(p.detector_id, 4),
            other => panic!("unexpected {:?}", other),
        }
        match e.timestamp {
            EventTime::At(t) => {
                assert!(previous <= t && t < previous + 1000);
                previous = t;
            },
            EventTime::Now => panic!("dark counts run at a time"),
        }
    }
    schedule_dark_counts(&detector(4), 50, &mut handle, &|| 0usize).unwrap();
    assert!(drain(&rx).is_empty());
}

#[test]
fn dark_count_starts_the_cooldown() {
    let mut state = network(true);
    let (tx, _rx) = channel();
    let handle = EventLoopHandler::new(tx);
    dark_count(EventPayload::DarkCount(DarkCountPayload { detector_id: 2 }), 40, &mut state, &handle).unwrap();
    assert_eq!(state.get_detector(2).unwrap().last_detection_time, 40);
    assert!(matches!(
        dark_count(EventPayload::DarkCount(DarkCountPayload { detector_id: 9 }), 40, &mut state, &handle),
        Err(Error::Detector(DetectorError::NotFound(9)))
    ));
    assert!(matches!(dark_count(EventPayload::TestEvent(), 40, &mut state, &handle), Err(Error::WrongArgs())));
}

#[test]
fn session_start_locks_nodes_and_emits_all_pairs() {
    let mut state = network(true);
    let (tx, rx) = channel();
    let mut handle = EventLoopHandler::new(tx);
    handle_qkd_init(init_payload(), 0, &mut state, &mut handle, &|| 2usize).unwrap();
    let events = drain(&rx);
    assert_eq!(events.len(), 4 + 3 * QUBIT_AMOUNT as usize);
    assert!(events[..4].iter().all(|e| e.name == EventName::DarkCount));
    assert_eq!(events[4].name, EventName::ReceivePair);
    assert_eq!(events[4].timestamp, EventTime::At(5));
    assert_eq!(state.get_node(1).unwrap().locked_by, Some(0));
    assert_eq!(state.get_node(2).unwrap().locked_by, Some(0));
    assert_eq!(state.get_process(0).unwrap().accepted_pairs, 0);
    assert!(state.get_pair(0, 1).is_some());
    assert!(state.get_pair(0, QUBIT_AMOUNT).is_some());
    assert!(state.get_pair(0, QUBIT_AMOUNT + 1).is_none());
}

#[test]
fn session_start_refuses_busy_or_missing_nodes() {
    let mut state = network(true);
    let (tx, _rx) = channel();
    let mut handle = EventLoopHandler::new(tx);
    handle_qkd_init(init_payload(), 0, &mut state, &mut handle, &no_dark_counts).unwrap();
    let again = handle_qkd_init(init_payload(), 0, &mut state, &mut handle, &no_dark_counts);
    assert!(matches!(again, Err(Error::Node(NodeError::NodeInUse()))));
    assert!(state.get_process(1).is_some());
    let missing = EventPayload::HandleQkdInit(HandleQkdInitPayload {
        src_node_id: 1,
        dst_node_id: 8,
        epr_node_id: 3,
        src_epr_link_id: 10,
        dst_epr_link_id: 11,
    });
    assert!(matches!(
        handle_qkd_init(missing, 0, &mut state, &mut handle, &no_dark_counts),
        Err(Error::Node(NodeError::NodeNotFound(0)))
    ));
    let mut fresh = network(true);
    let no_link = EventPayload::HandleQkdInit(HandleQkdInitPayload {
        src_node_id: 1,
        dst_node_id: 2,
        epr_node_id: 3,
        src_epr_link_id: 10,
        dst_epr_link_id: 99,
    });
    match handle_qkd_init(no_link, 0, &mut fresh, &mut handle, &no_dark_counts) {
        Err(Error::Sim(SimError::MissingArgument(s))) => assert_eq!(s, "dst_node_id"),
        other => panic!("unexpected {:?}", other),
    }
    let mut no_detector = network(true);
    no_detector.upsert_node(Node { detector_id: 42, ..client(2) });
    assert!(matches!(
        handle_qkd_init(init_payload(), 0, &mut no_detector, &mut handle, &no_dark_counts),
        Err(Error::Detector(DetectorError::NotFound(42)))
    ));
    assert!(matches!(
        handle_qkd_init(EventPayload::TestEvent(), 0, &mut no_detector, &mut handle, &no_dark_counts),
        Err(Error::WrongArgs())
    ));
}

#[test]
fn two_arrivals_accept_a_correlated_pair() {
    let mut state = network(true);
    let (tx, _rx) = channel();
    let mut handle = EventLoopHandler::new(tx);
    handle_qkd_init(init_payload(), 0, &mut state, &mut handle, &no_dark_counts).unwrap();
    receive_pair(arrival(1, Side::Source, 1, 10), 100, &mut state, &mut handle, &correlated).unwrap();
    let first = state.get_pair(0, 1).unwrap();
    let fresh = first.src_measurement.unwrap();
    assert_eq!((fresh.node_id, fresh.process_id, fresh.qubit_nr), (1, 0, 1));
    let src = fresh.client_value.unwrap();
    assert!(Basis::src_bases().contains(&src.basis));
    assert!(src.value == 0 || src.value == 1);
    assert!(!first.accepted);
    receive_pair(arrival(2, Side::Destination, 1, 11), 200, &mut state, &mut handle, &correlated).unwrap();
    let second = state.get_pair(0, 1).unwrap();
    let dst = second.dst_measurement.unwrap().client_value.unwrap();
    assert!(Basis::dst_bases().contains(&dst.basis));
    assert_eq!(dst.value, src.value);
    assert!(second.accepted);
    assert_eq!(state.get_process(0).unwrap().accepted_pairs, 1);
    assert_eq!(state.get_detector(2).unwrap().last_detection_time, 200);
    receive_pair(arrival(2, Side::Destination, 1, 11), 300, &mut state, &mut handle, &correlated).unwrap();
    assert_eq!(state.get_process(0).unwrap().accepted_pairs, 1);
    assert!(state.get_pair(0, 1).unwrap().accepted);
}

#[test]
fn anticorrelated_draw_flips_the_second_value() {
    let mut state = network(true);
    let (tx, _rx) = channel();
    let mut handle = EventLoopHandler::new(tx);
    handle_qkd_init(init_payload(), 0, &mut state, &mut handle, &no_dark_counts).unwrap();
    let never = |_f: u32, _d: i64, _a: i32| false;
    receive_pair(arrival(2, Side::Destination, 4, 11), 100, &mut state, &mut handle, &never).unwrap();
    receive_pair(arrival(1, Side::Source, 4, 10), 200, &mut state, &mut handle, &never).unwrap();
    let p = state.get_pair(0, 4).unwrap();
    let d = p.dst_measurement.unwrap().client_value.unwrap().value;
    let s = p.src_measurement.unwrap().client_value.unwrap().value;
    assert_eq!(s, 1 - d);
}

#[test]
fn cooling_detector_misses_the_qubit() {
    let mut state = network(true);
    let (tx, _rx) = channel();
    let mut handle = EventLoopHandler::new(tx);
    handle_qkd_init(init_payload(), 0, &mut state, &mut handle, &no_dark_counts).unwrap();
    dark_count(EventPayload::DarkCount(DarkCountPayload { detector_id: 1 }), 100, &mut state, &handle).unwrap();
    receive_pair(arrival(1, Side::Source, 2, 10), 105, &mut state, &mut handle, &correlated).unwrap();
    assert!(state.get_pair(0, 2).unwrap().src_measurement.is_none());
    assert_eq!(state.get_detector(1).unwrap().last_detection_time, 100);
}

#[test]
fn arrival_errors_name_what_is_missing() {
    let mut state = network(true);
    let (tx, _rx) = channel();
    let mut handle = EventLoopHandler::new(tx);
    assert!(matches!(
        receive_pair(arrival(9, Side::Source, 1, 10), 100, &mut state, &mut handle, &correlated),
        Err(Error::Node(NodeError::NodeNotFound(9)))
    ));
    assert!(matches!(
        receive_pair(arrival(1, Side::Source, 1, 99), 100, &mut state, &mut handle, &correlated),
        Err(Error::Node(NodeError::NodeNotFound(1)))
    ));
    assert!(matches!(
        receive_pair(arrival(1, Side::Source, 1, 10), 100, &mut state, &mut handle, &correlated),
        Err(Error::Pair(PairError::PairNotFound(1)))
    ));
}

#[test]
fn eavesdropper_measures_first_on_an_insecure_link() {
    let mut state = network(false);
    let (tx, _rx) = channel();
    let mut handle = EventLoopHandler::new(tx);
    handle_qkd_init(init_payload(), 0, &mut state, &mut handle, &no_dark_counts).unwrap();
    receive_pair(arrival(1, Side::Source, 3, 10), 100, &mut state, &mut handle, &correlated).unwrap();
    let p = state.get_pair(0, 3).unwrap();
    let m = p.src_measurement.unwrap();
    let eve = m.mallory_value.unwrap();
    assert!(Basis::src_bases().contains(&eve.basis));
    assert!(m.client_value.is_some());
    receive_pair(arrival(2, Side::Destination, 3, 11), 200, &mut state, &mut handle, &correlated).unwrap();
    let p = state.get_pair(0, 3).unwrap();
    assert_eq!(p.dst_measurement.unwrap().client_value.unwrap().value, eve.value);
}

#[test]
fn measuring_reports_missing_pairs_and_processes() {
    let mut state = SimulationState::new();
    let (tx, _rx) = channel();
    let mut handle = EventLoopHandler::new(tx);
    assert!(matches!(
        measure_qubit(0, 5, Side::Source, client(1), 0, &mut state, &mut handle, &correlated),
        Err(PairError::PairNotFound(5))
    ));
    state.insert_pair(NewEntangledPair::new(1, 2, 0, 5, false, 0).unwrap());
    assert!(matches!(
        measure_qubit(0, 5, Side::Source, client(1), 0, &mut state, &mut handle, &correlated),
        Err(PairError::NotMeasured())
    ));
    let mut p = NewEntangledPair::new(1, 2, 0, 5, false, 0).unwrap();
    assert!(is_first(&p, Side::Destination).unwrap());
    first_measurement(&mut p, Side::Source, client(1)).unwrap();
    assert!(!is_first(&p, Side::Destination).unwrap());
}

#[test]
fn timeout_resends_only_unaccepted_pairs() {
    let mut state = network(true);
    let (tx, rx) = channel();
    let mut handle = EventLoopHandler::new(tx);
    state.insert_pair(NewEntangledPair::new(1, 2, 0, 4, false, 0).unwrap());
    state.insert_pair(measured_pair(0, 6, (Basis::Deg0, 1), (Basis::Deg22_5, 1)));
    let timeout = |q: i32| {
        EventPayload::PairTimeout(PairTimeoutPayload { pair_key: PairKey { qubit_nr: q, process_id: 0 }, src_link: 10, dst_link: 11 })
    };
    pair_timeout(timeout(6), 1000, &mut state, &mut handle).unwrap();
    assert!(drain(&rx).is_empty());
    pair_timeout(timeout(4), 1000, &mut state, &mut handle).unwrap();
    let events = drain(&rx);
    assert_eq!(events.len(), 3);
    assert_eq!(events[0].timestamp, EventTime::At(1020));
    assert_eq!(events[1].timestamp, EventTime::At(1028));
    assert_eq!(events[2].timestamp, EventTime::At(1035));
    assert!(matches!(pair_timeout(timeout(8), 1000, &mut state, &mut handle), Err(Error::Pair(PairError::PairNotFound(0)))));
    let bad_link = EventPayload::PairTimeout(PairTimeoutPayload { pair_key: PairKey { qubit_nr: 4, process_id: 0 }, src_link: 77, dst_link: 11 });
    assert!(matches!(pair_timeout(bad_link, 1000, &mut state, &mut handle), Err(Error::Link(LinkError::NotFound(77)))));
}

#[test]
fn post_processing_stores_the_key_once() {
    let mut state = SimulationState::new();
    let (tx, _rx) = channel();
    let handle = EventLoopHandler::new(tx);
    let pid = state.push_process(Process::new(0));
    state.insert_pair(measured_pair(pid, 1, (Basis::Deg45, 1), (Basis::Deg45, 1)));
    state.insert_pair(measured_pair(pid, 2, (Basis::Deg45, 0), (Basis::Deg45, 1)));
    state.insert_pair(measured_pair(pid, 3, (Basis::Deg90, 0), (Basis::Deg22_5, 1)));
    let payload = EventPayload::PostProcess(PostProcessPayload { process_id: pid });
    post_process_key(payload.clone(), 10, &mut state, &handle).unwrap();
    assert_eq!(state.get_process(pid).unwrap().key.as_deref(), Some("c0"));
    post_process_key(payload, 11, &mut state, &handle).unwrap();
    assert_eq!(state.get_process(pid).unwrap().key.as_deref(), Some("c0"));
}

#[test]
fn post_processing_errors() {
    let mut state = SimulationState::new();
    let (tx, _rx) = channel();
    let handle = EventLoopHandler::new(tx);
    assert!(matches!(
        post_process_key(EventPayload::PostProcess(PostProcessPayload { process_id: 3 }), 0, &mut state, &handle),
        Err(Error::Process(ProcessError::NotFound(3)))
    ));
    let pid = state.push_process(Process::new(0));
    for q in 1..4 {
        state.insert_pair(measured_pair(pid, q, (Basis::Deg45, 1), (Basis::Deg45, 1)));
    }
    let payload = EventPayload::PostProcess(PostProcessPayload { process_id: pid });
    assert!(matches!(post_process_key(payload.clone(), 0, &mut state, &handle), Err(Error::Sifting(SiftingError::BadLength))));
    state.insert_pair(measured_pair(pid, 9, (Basis::Deg0, 1), (Basis::Deg45, 1)));
    assert!(matches!(
        post_process_key(payload.clone(), 0, &mut state, &handle),
        Err(Error::Sifting(SiftingError::NotKnownCombination(Basis::Deg0, Basis::Deg45)))
    ));
    let mut unmeasured = NewEntangledPair::new(1, 2, pid, 12, true, 0).unwrap();
    unmeasured.src_measurement = Some(Measurement::new(1, 12, pid));
    unmeasured.accepted = true;
    state.insert_pair(unmeasured);
    assert!(matches!(post_process_key(payload, 0, &mut state, &handle), Err(Error::Pair(PairError::NotMeasured()))));
    assert!(state.get_process(pid).unwrap().key.is_none());
}

#[test]
fn same_basis_runs_the_chsh_test() {
    let mut state = SimulationState::new();
    let (tx, _rx) = channel();
    let handle = EventLoopHandler::new(tx);
    state.insert_pair(measured_pair(0, 1, (Basis::Deg45, 1), (Basis::Deg45, 1)));
    let payload = EventPayload::SameBasis(SameBasisPayload { process_id: 0 });
    assert!(same_basis(payload.clone(), 0, &mut state, &handle).is_ok());
    state.insert_pair(measured_pair(0, 2, (Basis::Deg0, 1), (Basis::Deg22_5, 0)));
    state.insert_pair(measured_pair(0, 3, (Basis::Deg0, 1), (Basis::DegNeg22_5, 1)));
    state.insert_pair(measured_pair(0, 4, (Basis::Deg45, 1), (Basis::Deg22_5, 1)));
    state.insert_pair(measured_pair(0, 5, (Basis::Deg45, 1), (Basis::DegNeg22_5, 1)));
    match same_basis(payload, 0, &mut state, &handle) {
        Err(Error::Sifting(SiftingError::MalloryDetected(_, 0))) => {},
        other => panic!("unexpected {:?}", other),
    }
}

#[test]
fn nodes_and_links_join_the_state() {
    let mut state = SimulationState::new();
    let (tx, _rx) = channel();
    let handle = EventLoopHandler::new(tx);
    let make_node = |p: CreateNodePayload| -> Result<(Node, Detector), Error> {
        Ok((Node { id: 5, name: p.name, locked_by: None, node_type: p.node_type.code().to_string(), detector_id: 6 }, detector(6)))
    };
    let payload = EventPayload::CreateNode(CreateNodePayload { name: "alice".to_string(), node_type: NodeKind::ClientNode });
    create_node(payload, 0, &mut state, &handle, &make_node).unwrap();
    assert_eq!(state.get_node(5).unwrap().name, "alice");
    assert!(state.get_detector(6).is_some());
    let make_link = |p: CreateLinkPayload| -> Result<Link, Error> { Ok(link(20, p.src_id, p.dst_id, 3, p.is_secure)) };
    let lp = EventPayload::CreateLink(CreateLinkPayload { src_id: 5, dst_id: 6, distance: 100, is_secure: false });
    create_link(lp, 0, &mut state, &handle, &make_link).unwrap();
    assert!(!state.get_link(20).unwrap().is_secure);
    let far = |_p: CreateLinkPayload| -> Result<Link, Error> { Ok(link(21, 1, 2, 1 << 40, true)) };
    let lp = EventPayload::CreateLink(CreateLinkPayload { src_id: 5, dst_id: 6, distance: 100, is_secure: true });
    create_link(lp, 0, &mut state, &handle, &far).unwrap();
    assert_eq!(state.get_link(21).unwrap().delay_us, 1 << 40);
}

#[test]
fn registry_runs_only_registered_handlers() {
    let (tx, rx) = channel();
    let mut handle = EventLoopHandler::new(tx);
    let mut registry = Registry::new();
    let make_node = |p: CreateNodePayload| -> Result<(Node, Detector), Error> {
        Ok((Node { id: 1, name: p.name, locked_by: None, node_type: "0".to_string(), detector_id: 1 }, detector(1)))
    };
    let make_link = |_p: CreateLinkPayload| -> Result<Link, Error> { Ok(link(10, 1, 3, 5, true)) };
    let dark = ScheduledEvent::new(Event::new_at(EventName::DarkCount, EventPayload::DarkCount(DarkCountPayload { detector_id: 1 }), 5), 5);
    let r = registry.exec_event(dark.clone(), &mut handle, &correlated, &no_dark_counts, &make_node, &make_link);
    assert!(matches!(r, Err(Error::NonExistantFunction(EventName::DarkCount))));
    assert_eq!(registry.get_event_functions().len(), 5);
    registry.instantiate_functions();
    let node_ev = ScheduledEvent::new(
        Event::new_now(EventName::CreateNode, EventPayload::CreateNode(CreateNodePayload { name: "a".to_string(), node_type: NodeKind::ClientNode })),
        0,
    );
    registry.exec_event(node_ev, &mut handle, &correlated, &no_dark_counts, &make_node, &make_link).unwrap();
    assert!(registry.state().get_node(1).is_some());
    let r = registry.exec_event(dark.clone(), &mut handle, &correlated, &no_dark_counts, &make_node, &make_link);
    assert!(matches!(r, Err(Error::NonExistantFunction(EventName::DarkCount))));
    registry.push_func(EventName::DarkCount);
    registry.push_func(EventName::DarkCount);
    assert_eq!(registry.funcs.len(), 6);
    registry.exec_event(dark, &mut handle, &correlated, &no_dark_counts, &make_node, &make_link).unwrap();
    assert_eq!(registry.state().get_detector(1).unwrap().last_detection_time, 5);
    registry.push_func(EventName::TestEvent);
    let r = registry.exec_event(event_at(1), &mut handle, &correlated, &no_dark_counts, &make_node, &make_link);
    assert!(matches!(r, Err(Error::FunctionNotFound(EventName::TestEvent))));
    assert!(drain(&rx).is_empty());
}

#[test]
fn loop_turn_runs_the_earliest_event() {
    let (tx, _rx) = channel();
    let mut handle = EventLoopHandler::new(tx);
    let mut registry = Registry::new();
    registry.push_func(EventName::DarkCount);
    let make_node = |_p: CreateNodePayload| -> Result<(Node, Detector), Error> { Err(Error::WrongArgs()) };
    let make_link = |_p: CreateLinkPayload| -> Result<Link, Error> { Err(Error::WrongArgs()) };
    let mut lp = EventLoop::new();
    assert!(lp.run_next(&mut registry, &mut handle, &correlated, &no_dark_counts, &make_node, &make_link).is_none());
    lp.push_event(Event::new_at(EventName::DarkCount, EventPayload::DarkCount(DarkCountPayload { detector_id: 1 }), 30));
    lp.push_event(Event::new_at(EventName::SameBasis, EventPayload::SameBasis(SameBasisPayload { process_id: 0 }), 20));
    let first = lp.run_next(&mut registry, &mut handle, &correlated, &no_dark_counts, &make_node, &make_link).unwrap();
    assert!(matches!(first, Err(Error::NonExistantFunction(EventName::SameBasis))));
    assert_eq!(lp.get_current_time(), 20);
    let second = lp.run_next(&mut registry, &mut handle, &correlated, &no_dark_counts, &make_node, &make_link).unwrap();
    assert!(matches!(second, Err(Error::Detector(DetectorError::NotFound(1)))));
    assert_eq!(lp.get_current_time(), 30);
    lp.push_event(Event::new_at(EventName::DarkCount, EventPayload::DarkCount(DarkCountPayload { detector_id: 1 }), i64::MAX));
    let third = lp.run_next(&mut registry, &mut handle, &correlated, &no_dark_counts, &make_node, &make_link).unwrap();
    assert!(matches!(third, Err(Error::Detector(DetectorError::NotFound(1)))));
    assert_eq!(lp.get_current_time(), i64::MAX);
}

fn half_measured(process_id: i32, qubit_nr: i32) -> NewEntangledPair {
    let mut p = NewEntangledPair::new(1, 2, process_id, qubit_nr, false, 0).unwrap();
    let mut s = Measurement::new(1, process_id, qubit_nr);
    s.client_value = Some(ClientValue::new(Basis::Deg0, 1));
    p.src_measurement = Some(s);
    p
}

#[test]
fn last_accepted_pair_releases_and_starts_post_processing() {
    let mut state = SimulationState::new();
    let (tx, rx) = channel();
    let mut handle = EventLoopHandler::new(tx);
    let pid = state.push_process(Process::new(0));
    let mut process = state.take_process(pid).unwrap();
    process.accepted_pairs = QUBIT_AMOUNT - 1;
    state.put_process(pid, process);
    state.upsert_node(Node { locked_by: Some(pid), ..client(1) });
    state.upsert_node(Node { locked_by: Some(pid), ..client(2) });
    state.insert_pair(half_measured(pid, 7));
    let node2 = Node { locked_by: Some(pid), ..client(2) };
    measure_qubit(pid, 7, Side::Destination, node2, 0, &mut state, &mut handle, &correlated).unwrap();
    assert_eq!(state.get_process(pid).unwrap().accepted_pairs, QUBIT_AMOUNT);
    assert_eq!(state.get_node(1).unwrap().locked_by, None);
    assert_eq!(state.get_node(2).unwrap().locked_by, None);
    let events = drain(&rx);
    assert_eq!(events.len(), 1);
    assert_eq!(events[0].name, EventName::PostProcess);
    assert_eq!(events[0].timestamp, EventTime::Now);
    match &events[0].payload {
        EventPayload::PostProcess(p) => assert_eq!(p.process_id, pid),
        other => panic!("unexpected {:?}", other),
    }
}

#[test]
fn release_by_a_stranger_is_refused_at_the_end() {
    let mut state = SimulationState::new();
    let (tx, rx) = channel();
    let mut handle = EventLoopHandler::new(tx);
    let pid = state.push_process(Process::new(0));
    let mut process = state.take_process(pid).unwrap();
    process.accepted_pairs = QUBIT_AMOUNT - 1;
    state.put_process(pid, process);
    state.upsert_node(Node { locked_by: Some(pid), ..client(1) });
    state.insert_pair(half_measured(pid, 7));
    let stranger = Node { locked_by: Some(pid + 5), ..client(2) };
    let r = measure_qubit(pid, 7, Side::Destination, stranger, 0, &mut state, &mut handle, &correlated);
    assert!(matches!(r, Err(PairError::Node(NodeError::NotAuthorized(x))) if x == pid));
    assert!(state.get_pair(0, 7).unwrap().accepted);
    assert_eq!(state.get_node(1).unwrap().locked_by, Some(pid));
    assert!(drain(&rx).is_empty());
}

#[test]
fn long_delays_run_until_times_overflow() {
    let mut state = network(true);
    state.upsert_link(link(12, 1, 3, 1 << 40, true));
    let (tx, rx) = channel();
    let mut handle = EventLoopHandler::new(tx);
    state.insert_pair(NewEntangledPair::new(1, 2, 0, 1, false, 0).unwrap());
    let timeout = |src_link: i32| {
        EventPayload::PairTimeout(PairTimeoutPayload { pair_key: PairKey { qubit_nr: 1, process_id: 0 }, src_link, dst_link: 11 })
    };
    pair_timeout(timeout(12), 100, &mut state, &mut handle).unwrap();
    let events = drain(&rx);
    assert_eq!(events.len(), 3);
    assert_eq!(events[0].timestamp, EventTime::At(100 + (1 << 40)));
    assert_eq!(events[2].timestamp, EventTime::At(100 + (1 << 41)));
    let late = pair_timeout(timeout(12), i64::MAX - (1 << 40), &mut state, &mut handle);
    assert!(matches!(late, Err(Error::Sim(SimError::NotValidInput(_)))));
    assert!(drain(&rx).is_empty());
}

#[test]
fn session_start_refuses_times_beyond_i64() {
    let mut state = network(true);
    state.upsert_link(link(10, 1, 3, i64::MAX / 2, true));
    let (tx, rx) = channel();
    let mut handle = EventLoopHandler::new(tx);
    let r = handle_qkd_init(init_payload(), 0, &mut state, &mut handle, &no_dark_counts);
    assert!(matches!(r, Err(Error::Sim(SimError::NotValidInput(_)))));
    assert!(drain(&rx).is_empty());
    assert!(state.get_pair(0, 1).is_none());
    let mut late = network(true);
    let r = handle_qkd_init(init_payload(), i64::MAX - 10, &mut late, &mut handle, &no_dark_counts);
    assert!(matches!(r, Err(Error::Sim(SimError::NotValidInput(_)))));
    let mut instant = network(true);
    instant.upsert_link(link(10, 1, 3, 0, true));
    instant.upsert_link(link(11, 2, 3, 0, true));
    let r = handle_qkd_init(init_payload(), i64::MAX - 10, &mut instant, &mut handle, &|| 100usize);
    assert!(matches!(r, Err(Error::Sim(SimError::NotValidInput(_)))));
    assert!(drain(&rx).is_empty());
    assert!(instant.get_pair(0, 1).is_none());
}
