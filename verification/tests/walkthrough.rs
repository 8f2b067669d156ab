use railnet::common::{EdgeEnd, JSwitch, NodeType, TrackError, END_A, END_B, SLOT_1, SLOT_2, SLOT_3};
use railnet::system::{create_system, System};

fn end(edge: &str, end: usize) -> EdgeEnd {
    EdgeEnd { ee_edge: String::from(edge), ee_end: end }
}

fn name(text: &str) -> String {
    String::from(text)
}

fn two_joined() -> System {
    let mut sys = create_system();
    assert_eq!(sys.create_edge("").map(|e| e.name.clone()), Some(name("tseg001")));
    assert_eq!(sys.create_edge("").map(|e| e.name.clone()), Some(name("tseg002")));
    assert_eq!(sys.connect_segments(&end("tseg001", END_B), &end("tseg002", END_A)), Ok(()));
    sys
}

fn three_joined() -> System {
    let mut sys = two_joined();
    assert_eq!(sys.create_edge("").map(|e| e.name.clone()), Some(name("tseg003")));
    assert_eq!(sys.connect_segments(&end("tseg001", END_B), &end("tseg003", END_A)), Ok(()));
    sys
}

#[test]
fn joining_two_segments_makes_a_continuation() {
    let sys = two_joined();
    let at = sys.get_edge(&name("tseg001")).unwrap().get_node(END_B);
    let other = sys.get_edge(&name("tseg002")).unwrap().get_node(END_A);
    assert_eq!(at.ns_node, other.ns_node);
    assert_eq!(at.ns_slot, SLOT_1);
    assert_eq!(other.ns_slot, SLOT_2);
    let node = sys.find_node(&at.ns_node).unwrap();
    assert_eq!(node.get_node_type(), NodeType::Continuation);
    assert_eq!(node.get_next(SLOT_1), end("tseg002", END_A));
    assert_eq!(node.get_next(SLOT_2), end("tseg001", END_B));
    assert_eq!(node.get_switch_pos(), JSwitch::JSwitchNone);
}

#[test]
fn joining_a_third_segment_makes_a_junction() {
    let mut sys = three_joined();
    let at = sys.get_edge(&name("tseg001")).unwrap().get_node(END_B);
    {
        let node = sys.find_node(&at.ns_node).unwrap();
        assert_eq!(node.get_node_type(), NodeType::Junction);
        assert_eq!(node.get_switch_pos(), JSwitch::JSwitchLeft);
        assert_eq!(node.get_next(SLOT_1), end("tseg002", END_A));
        assert_eq!(node.get_next(SLOT_1), node.get_edge_end(SLOT_2));
    }
    sys.get_node(&at.ns_node).unwrap().toggle_switch_pos();
    let node = sys.find_node(&at.ns_node).unwrap();
    assert_eq!(node.get_switch_pos(), JSwitch::JSwitchRight);
    assert_eq!(node.get_next(SLOT_1), end("tseg003", END_A));
    assert_eq!(node.get_next(SLOT_1), node.get_edge_end(SLOT_3));
    assert_eq!(sys.get_all_junctions(), vec![at.ns_node.clone()]);
}

#[test]
fn a_junction_takes_no_fourth_segment() {
    let mut sys = three_joined();
    assert_eq!(sys.create_edge("").map(|e| e.name.clone()), Some(name("tseg004")));
    let before = sys.clone();
    assert_eq!(
        sys.connect_segments(&end("tseg001", END_B), &end("tseg004", END_A)),
        Err(TrackError::AtJunction)
    );
    assert_eq!(sys, before);
    assert_eq!(
        sys.connect_segments(&end("tseg002", END_A), &end("tseg004", END_B)),
        Err(TrackError::AtJunction)
    );
    assert_eq!(sys, before);
}

#[test]
fn a_second_signal_on_the_same_end_is_refused() {
    let mut sys = create_system();
    sys.create_edge("");
    let edge = sys.get_edge_mut(&name("tseg001")).unwrap();
    assert_eq!(edge.place_signal_light(END_A), Ok(()));
    assert_eq!(edge.get_signal(END_A).edge, end("tseg001", END_A));
    assert!(edge.get_signal(END_A).signal_is_red());
    edge.get_signal(END_A).is_red = false;
    assert_eq!(edge.place_signal_light(END_A), Err(TrackError::SignalPresent));
    assert!(!edge.get_signal(END_A).signal_is_red());
    assert_eq!(edge.get_signal(END_A).edge, end("tseg001", END_A));
    assert_eq!(edge.place_signal_light(END_B), Ok(()));
}

#[test]
fn a_train_cannot_take_an_occupied_segment() {
    let mut sys = two_joined();
    assert_eq!(sys.create_train("").map(|t| t.name.clone()), Some(name("train1")));
    assert_eq!(sys.place_train(&name("train1"), &name("tseg001"), &name("tseg002")), Ok(()));
    assert_eq!(sys.create_train("").map(|t| t.name.clone()), Some(name("train2")));
    let before = sys.clone();
    assert_eq!(
        sys.place_train(&name("train2"), &name("tseg001"), &name("tseg002")),
        Err(TrackError::SegmentOccupied)
    );
    assert_eq!(sys, before);
    assert_eq!(sys.get_edge(&name("tseg001")).unwrap().get_train(), &name("train1"));
    assert_eq!(sys.get_train(&name("train2")).unwrap().get_position(), &end("", 2));
}
