use qkd_simulator::basis::{basis_difference_tenths, Basis, Side};
use qkd_simulator::chsh::{chsh_below_threshold, perform_chsh, CHSHGroup, CHSH};
use qkd_simulator::command::Command;
use qkd_simulator::error::{ChshStatistic, CliError, GraphError, LinkError, NodeError, PairError, SiftingError};
use qkd_simulator::event::EventTime;
use qkd_simulator::graph::{Graph, GraphNode};
use qkd_simulator::measurement::{AcceptedMeasurement, ClientValue, MalloryValue, Measurement};
use qkd_simulator::node::{Detector, Link, Node, NodeKind, Process};
use qkd_simulator::pair::{AcceptedPair, NewEntangledPair, FULL_FIDELITY_BITS};
use qkd_simulator::qubit_ref::{QubitRef, QubitRefSide};

fn node(id: i32, node_type: &str) -> Node {
    Node { id, name: format!("n{}", id), locked_by: None, node_type: node_type.to_string(), detector_id: id }
}

fn link(id: i32, src_id: i32, dst_id: i32) -> Link {
    Link {
        id,
        length: 1000,
        attenuation_bits: 0,
        error_rate_bits: 0,
        src_id,
        dst_id,
        next_available_time: 0,
        is_secure: true,
        delay_us: 5,
    }
}

fn accepted(src: Basis, sv: i16, dst: Basis, dv: i16) -> AcceptedPair {
    AcceptedPair::new(1, 2, AcceptedMeasurement::new(src, sv), AcceptedMeasurement::new(dst, dv), 0, 1)
}

#[test]
fn bases_of_each_side() {
    assert_eq!(Basis::src_bases(), [Basis::Deg0, Basis::Deg45, Basis::Deg90]);
    assert_eq!(Basis::dst_bases(), [Basis::DegNeg22_5, Basis::Deg22_5, Basis::Deg45]);
    for _ in 0..50 {
        assert!(Basis::src_bases().contains(&Basis::get_random_basis(Side::Source)));
        assert!(Basis::dst_bases().contains(&Basis::get_random_basis(Side::Destination)));
    }
}

#[test]
fn basis_codes_round_trip() {
    for b in [Basis::Deg0, Basis::DegNeg22_5, Basis::Deg22_5, Basis::Deg45, Basis::Deg90] {
        assert_eq!(Basis::try_from(i32::from(b)).unwrap(), b);
    }
    assert_eq!(i32::from(Basis::Deg0), 1);
    assert_eq!(i32::from(Basis::Deg90), 5);
    assert_eq!(Basis::try_from(7).unwrap_err(), "Unknown Basis value: 7");
    assert_eq!(Basis::try_from(-42).unwrap_err(), "Unknown Basis value: -42");
    assert_eq!(Basis::try_from(1234).unwrap_err(), "Unknown Basis value: 1234");
}

#[test]
fn basis_angles_and_differences() {
    assert_eq!(Basis::DegNeg22_5.angle_tenths_deg(), -225);
    assert_eq!(basis_difference_tenths(Basis::Deg0, Basis::Deg90), 900);
    assert_eq!(basis_difference_tenths(Basis::DegNeg22_5, Basis::Deg45), 675);
    assert_eq!(basis_difference_tenths(Basis::Deg45, Basis::DegNeg22_5), 675);
    assert_eq!(basis_difference_tenths(Basis::Deg22_5, Basis::Deg22_5), 0);
}

#[test]
fn event_time_resolves_against_the_current_time() {
    assert_eq!(EventTime::Now.resolve(42), 42);
    assert_eq!(EventTime::At(7).resolve(42), 7);
}

#[test]
fn eavesdropper_value_has_priority() {
    let mut m = Measurement::new(3, 1, 2);
    assert!(matches!(m.get_value(), Err(PairError::NotMeasured())));
    assert!(matches!(m.get_basis(), Err(PairError::NotMeasured())));
    m.client_value = Some(ClientValue::new(Basis::Deg0, 1));
    assert_eq!(m.get_value().unwrap(), 1);
    assert_eq!(m.get_basis().unwrap(), Basis::Deg0);
    m.mallory_value = Some(MalloryValue::new(Basis::Deg45, 0));
    assert_eq!(m.get_value().unwrap(), 0);
    assert_eq!(m.get_basis().unwrap(), Basis::Deg45);
    m.set_accepted();
    assert!(m.accepted);
}

#[test]
fn values_map_to_plus_minus_one() {
    let mut a = AcceptedMeasurement::new(Basis::Deg0, 0);
    a.map_value();
    assert_eq!(a.value, -1);
    let mut b = AcceptedMeasurement::new(Basis::Deg0, 1);
    b.map_value();
    assert_eq!(b.value, 1);
    let mut p = accepted(Basis::Deg0, 0, Basis::Deg22_5, 1);
    p.map_values();
    assert_eq!(p.src_measurement.value, -1);
    assert_eq!(p.dst_measurement.value, 1);
}

#[test]
fn pairs_record_and_accept_measurements() {
    let mut pair = NewEntangledPair::new(1, 2, 5, 9, false, 100).unwrap();
    assert_eq!(pair.fidelity_bits, FULL_FIDELITY_BITS);
    assert_eq!(f32::from_bits(pair.fidelity_bits), 1.0);
    assert!(matches!(pair.map_accepted(), Err(PairError::NotMeasured())));
    let mut src = Measurement::new(1, 5, 9);
    src.client_value = Some(ClientValue::new(Basis::Deg45, 1));
    pair.set_measurement(Side::Source, src);
    assert!(matches!(pair.get_measurement(Side::Source), Err(PairError::NotMeasured())));
    assert_eq!(pair.get_measurement(Side::Destination).unwrap(), src);
    let mut dst = Measurement::new(2, 5, 9);
    dst.client_value = Some(ClientValue::new(Basis::Deg45, 0));
    pair.set_measurement(Side::Destination, dst);
    let a = pair.map_accepted().unwrap();
    assert_eq!(a.src_measurement, AcceptedMeasurement::new(Basis::Deg45, 1));
    assert_eq!(a.dst_measurement, AcceptedMeasurement::new(Basis::Deg45, 0));
    assert_eq!((a.process_id, a.qubit_nr), (5, 9));
    let (s, d) = AcceptedPair::get_qubits_vec(vec![a, a]);
    assert_eq!(s, vec![1, 1]);
    assert_eq!(d, vec![0, 0]);
}

#[test]
fn chsh_groups_by_basis_combination() {
    let mut chsh = CHSH::new();
    assert!(chsh.push_to_group(accepted(Basis::Deg0, 1, Basis::Deg22_5, 1)).is_ok());
    assert!(chsh.push_to_group(accepted(Basis::Deg45, 1, Basis::DegNeg22_5, -1)).is_ok());
    let e = chsh.push_to_group(accepted(Basis::Deg0, 1, Basis::Deg45, 1));
    assert!(matches!(e, Err(SiftingError::NotKnownCombination(Basis::Deg0, Basis::Deg45))));
    let (a0b0, a0b1, a1b0, a1b1) = chsh.groups();
    assert_eq!((a0b0.len(), a0b1.len(), a1b0.len(), a1b1.len()), (1, 0, 0, 1));
    assert_eq!(a1b1.correlation_sum(), -1);
    let mut g = CHSHGroup::new();
    g.push_pair(accepted(Basis::Deg0, -1, Basis::Deg22_5, -1));
    g.push_pair(accepted(Basis::Deg0, 1, Basis::Deg22_5, -1));
    assert_eq!(g.correlation_sum(), 0);
    assert_eq!(g.pairs().len(), 2);
}

#[test]
fn chsh_statistic_is_exact() {
    let pairs = vec![
        accepted(Basis::Deg0, 1, Basis::Deg22_5, 1),
        accepted(Basis::Deg0, 0, Basis::DegNeg22_5, 0),
        accepted(Basis::Deg45, 1, Basis::Deg22_5, 1),
        accepted(Basis::Deg45, 1, Basis::DegNeg22_5, 0),
    ];
    let chsh = CHSH::from_pairs(pairs).unwrap();
    let st = chsh.chsh_statistic();
    assert_eq!(st.sum_a0b0, 1);
    assert_eq!(st.sum_a0b1, 1);
    assert_eq!(st.sum_a1b0, 1);
    assert_eq!(st.sum_a1b1, -1);
    assert_eq!((st.count_a0b0, st.count_a0b1, st.count_a1b0, st.count_a1b1), (1, 1, 1, 1));
    assert!(!chsh_below_threshold(&st));
}

#[test]
fn chsh_flags_weak_correlations() {
    let weak = ChshStatistic {
        sum_a0b0: 1,
        count_a0b0: 2,
        sum_a0b1: 0,
        count_a0b1: 1,
        sum_a1b0: 1,
        count_a1b0: 1,
        sum_a1b1: 0,
        count_a1b1: 1,
    };
    assert!(chsh_below_threshold(&weak));
    let empty_group = ChshStatistic { count_a1b1: 0, ..weak };
    assert!(!chsh_below_threshold(&empty_group));
    let strong = ChshStatistic { sum_a1b1: -1, ..weak };
    assert!(!chsh_below_threshold(&ChshStatistic { sum_a0b0: 2, ..strong }));
}

#[test]
fn perform_chsh_reports_the_eavesdropper() {
    let pairs = vec![
        accepted(Basis::Deg0, 1, Basis::Deg22_5, 0),
        accepted(Basis::Deg0, 1, Basis::DegNeg22_5, 1),
        accepted(Basis::Deg45, 1, Basis::Deg22_5, 1),
        accepted(Basis::Deg45, 1, Basis::DegNeg22_5, 1),
    ];
    match perform_chsh(pairs, 4) {
        Err(SiftingError::MalloryDetected(st, 4)) => assert_eq!(st.sum_a0b0, -1),
        other => panic!("unexpected {:?}", other),
    }
    assert!(perform_chsh(vec![], 4).is_ok());
    let unknown = vec![accepted(Basis::Deg90, 1, Basis::Deg45, 1)];
    assert!(matches!(
        perform_chsh(unknown, 4),
        Err(SiftingError::NotKnownCombination(Basis::Deg90, Basis::Deg45))
    ));
}

#[test]
fn chsh_threshold_is_exact_on_large_counts() {
    let big: i128 = 1 << 62;
    let perfect = ChshStatistic {
        sum_a0b0: big,
        count_a0b0: big,
        sum_a0b1: big,
        count_a0b1: big,
        sum_a1b0: big,
        count_a1b0: big,
        sum_a1b1: -big,
        count_a1b1: big,
    };
    assert!(!chsh_below_threshold(&perfect));
    let random = ChshStatistic { sum_a0b0: 0, sum_a0b1: 0, sum_a1b0: 0, sum_a1b1: 0, ..perfect };
    assert!(chsh_below_threshold(&random));
    let just_below = ChshStatistic { sum_a0b0: big / 2 - 1, sum_a0b1: big / 2, sum_a1b0: big / 2, sum_a1b1: -(big / 2), ..perfect };
    assert!(chsh_below_threshold(&just_below));
    let at_two = ChshStatistic { sum_a0b0: big / 2, ..just_below };
    assert!(!chsh_below_threshold(&at_two));
}

#[test]
fn chsh_runs_on_more_than_a_million_pairs() {
    let per_group: usize = (1 << 18) + 1;
    let combos = [
        (Basis::Deg0, Basis::Deg22_5),
        (Basis::Deg0, Basis::DegNeg22_5),
        (Basis::Deg45, Basis::Deg22_5),
        (Basis::Deg45, Basis::DegNeg22_5),
    ];
    let mut correlated = Vec::new();
    let mut uncorrelated = Vec::new();
    for (k, (a, b)) in combos.iter().enumerate() {
        for i in 0..per_group {
            let second = if k == 3 { 0 } else { 1 };
            correlated.push(accepted(*a, 1, *b, second));
            uncorrelated.push(accepted(*a, 1, *b, (i % 2) as i16));
        }
    }
    assert!(correlated.len() > 1 << 20);
    assert!(perform_chsh(correlated, 6).is_ok());
    match perform_chsh(uncorrelated, 6) {
        Err(SiftingError::MalloryDetected(st, 6)) => {
            assert_eq!(st.count_a0b0, per_group as i128);
            assert_eq!(st.sum_a0b0, -1);
        },
        other => panic!("unexpected {:?}", other),
    }
}

#[test]
fn node_lock_is_held_by_one_process() {
    let mut n = node(1, "0");
    assert!(n.is_available_for(7));
    assert!(n.try_acquire(7));
    assert_eq!(n.is_locked(), Some(7));
    assert!(n.try_acquire(7));
    assert!(!n.try_acquire(8));
    assert!(!n.is_available_for(8));
    assert!(matches!(n.release(8), Err(NodeError::NotAuthorized(8))));
    assert_eq!(n.is_locked(), Some(7));
    assert!(n.release(7).is_ok());
    assert_eq!(n.is_locked(), None);
    assert!(n.try_acquire(8));
    assert_eq!(n.get_id(), 1);
}

#[test]
fn node_kinds_parse_from_codes() {
    assert_eq!(NodeKind::parse_kind(" 0 ").unwrap(), NodeKind::ClientNode);
    assert_eq!("1".parse::<NodeKind>().unwrap(), NodeKind::EprNode);
    assert_eq!(NodeKind::parse_kind("2").unwrap(), NodeKind::Mallory);
    match NodeKind::parse_kind("epr") {
        Err(CliError::NotValidInput(s)) => assert_eq!(s, "epr"),
        other => panic!("unexpected {:?}", other),
    }
    assert_eq!(NodeKind::Mallory.code(), "2");
}

#[test]
fn detector_cools_down_after_a_detection() {
    let mut d = Detector { id: 1, resolution_ps: 10, cooldown_ps: 10, dark_count_rate: 0, last_detection_time: 0 };
    assert!(d.is_cooling(5));
    assert!(!d.is_cooling(10));
    d.set_detection_time(100).unwrap();
    assert_eq!(d.last_detection_time, 100);
    assert!(d.is_cooling(109));
    assert!(!d.is_cooling(110));
}

#[test]
fn processes_start_empty() {
    let p = Process::new(33);
    assert_eq!((p.id, p.started_at, p.accepted_pairs), (0, 33, 0));
    assert!(p.key.is_none());
    assert!(p.is_complete(0));
    assert!(!p.is_complete(1));
    assert_eq!(link(1, 2, 3).propagation_delay_us(), 5);
}

#[test]
fn commands_are_read_in_any_case() {
    assert_eq!(Command::try_from("  Create_Node \n".to_string()).unwrap(), Command::CreateNode);
    assert_eq!(Command::try_from("create_link".to_string()).unwrap(), Command::CreateLink);
    assert_eq!(Command::try_from("GET_NODES".to_string()).unwrap(), Command::GetNodes);
    assert_eq!(Command::try_from("get_links".to_string()).unwrap(), Command::GetLinks);
    assert_eq!(Command::try_from("Start".to_string()).unwrap(), Command::Start);
    assert_eq!(Command::try_from("exit".to_string()).unwrap(), Command::Exit);
    match Command::try_from("  Fly ".to_string()) {
        Err(CliError::NotValidCommand(s)) => assert_eq!(s, "fly"),
        other => panic!("unexpected {:?}", other),
    }
}

#[test]
fn qubit_references_keep_their_fields() {
    let q = QubitRef::new(3, 4, QubitRefSide::Destination);
    assert_eq!((q.process_id, q.qubit_nr, q.side), (3, 4, QubitRefSide::Destination));
}

#[test]
fn graph_nodes_carry_their_ids() {
    assert_eq!(GraphNode::new(4, NodeKind::EprNode), GraphNode::EprNode(4));
    assert_eq!(GraphNode::new(5, NodeKind::ClientNode), GraphNode::ClientNode(5));
    assert_eq!(GraphNode::new(6, NodeKind::Mallory), GraphNode::ClientNode(6));
    assert_eq!(GraphNode::EprNode(4).get_id(), 4);
}

#[test]
fn graph_finds_the_shared_epr_node() {
    let nodes = vec![node(1, "0"), node(2, "0"), node(3, "1"), node(4, "1")];
    let links = vec![link(10, 1, 4), link(11, 2, 4), link(12, 3, 1), link(13, 3, 2)];
    let graph = Graph::from_data(nodes, links).unwrap();
    assert_eq!(graph.get_node_epr(1, 2).unwrap(), 3);
    assert_eq!(graph.get_node_epr(2, 1).unwrap(), 3);
    assert!(matches!(graph.get_node_epr(1, 9), Err(GraphError::Link(LinkError::MissingNode(9)))));
    assert!(matches!(graph.get_node_epr(8, 1), Err(GraphError::Link(LinkError::MissingNode(8)))));
    assert!(graph.connections[&1].contains(&GraphNode::EprNode(3)));
    assert!(graph.connections[&3].contains(&GraphNode::ClientNode(1)));
}

#[test]
fn graph_reports_missing_epr_and_bad_data() {
    let nodes = vec![node(1, "0"), node(2, "0"), node(3, "1")];
    let graph = Graph::from_data(nodes.clone(), vec![link(10, 1, 3)]).unwrap();
    assert!(matches!(graph.get_node_epr(1, 2), Err(GraphError::NoCommonEpr(1, 2))));
    assert!(matches!(
        Graph::from_data(nodes.clone(), vec![link(10, 1, 9)]),
        Err(GraphError::Link(LinkError::MissingNode(9)))
    ));
    match Graph::from_data(vec![node(1, "x")], vec![]) {
        Err(GraphError::Node(NodeError::NotValidKind(s))) => assert_eq!(s, "x"),
        other => panic!("unexpected {:?}", other),
    }
}

#[test]
fn node_kind_codes_read_back() {
    for k in [NodeKind::ClientNode, NodeKind::EprNode, NodeKind::Mallory] {
        assert_eq!(NodeKind::parse_kind(k.code()).unwrap(), k);
    }
}

#[test]
fn link_needs_both_ends() {
    assert!(Link::check_ends(1, 2, true, true).is_ok());
    assert!(matches!(Link::check_ends(1, 2, false, true), Err(LinkError::NonExistingNodes(1, 2))));
    assert!(matches!(Link::check_ends(1, 2, true, false), Err(LinkError::NonExistingNodes(1, 2))));
}

#[test]
fn normalised_text_names_its_command() {
    assert_eq!(Command::from_normalised("start"), Some(Command::Start));
    assert_eq!(Command::from_normalised("create_node"), Some(Command::CreateNode));
    assert_eq!(Command::from_normalised("exit"), Some(Command::Exit));
    assert_eq!(Command::from_normalised("Start"), None);
    assert_eq!(Command::from_normalised(" start"), None);
}
