use railnet::common::{
    EdgeEnd, JSwitch, NodeSlot, NodeType, TrackError, END_A, END_B, NUM_ENDS, SLOT_1, SLOT_2, SLOT_3,
};
use railnet::system::node::Node;
use railnet::system::{create_system, edge_count, System};

fn end(edge: &str, end: usize) -> EdgeEnd {
    EdgeEnd { ee_edge: String::from(edge), ee_end: end }
}

fn slot(node: &str, slot: usize) -> NodeSlot {
    NodeSlot { ns_node: String::from(node), ns_slot: slot }
}

fn name(text: &str) -> String {
    String::from(text)
}

fn with_edges(count: usize) -> System {
    let mut sys = create_system();
    for _ in 0..count {
        assert!(sys.create_edge("").is_some());
    }
    sys
}

fn bare_node(name: &str) -> Node {
    Node {
        name: String::from(name),
        slots: [end("", END_A), end("", END_A), end("", END_A)],
        switch_state: JSwitch::JSwitchNone,
    }
}

/// Every segment end leads to a node slot that holds that segment end, and
/// no node has an occupied slot behind an empty one.
fn assert_consistent(sys: &System, edges: &[&str], nodes: &[&str]) {
    for edge in edges {
        let e = sys.get_edge(&name(edge)).unwrap();
        for x in [END_A, END_B] {
            let at = e.get_node(x);
            let node = sys.find_node(&at.ns_node).unwrap();
            assert_eq!(node.get_edge_end(at.ns_slot), end(edge, x));
        }
    }
    for node in nodes {
        let n = sys.find_node(&name(node)).unwrap();
        for k in [SLOT_1, SLOT_2] {
            if !n.get_edge_end(k + 1).ee_edge.is_empty() {
                assert!(!n.get_edge_end(k).ee_edge.is_empty());
            }
        }
        assert_eq!(
            n.get_node_type() == NodeType::Junction,
            n.get_switch_pos() != JSwitch::JSwitchNone
        );
    }
}

const SIX_NODES: [&str; 6] = ["node001", "node002", "node003", "node004", "node005", "node006"];

#[test]
fn a_new_network_is_empty() {
    let sys = create_system();
    assert!(!sys.has_edge(&name("tseg001")));
    assert!(sys.get_edge(&name("tseg001")).is_none());
    assert!(sys.find_node(&name("node001")).is_none());
    assert!(sys.get_train(&name("train1")).is_none());
    assert!(sys.get_all_junctions().is_empty());
    assert_eq!(edge_count(), 0);
}

#[test]
fn a_new_segment_ends_in_two_new_terminators() {
    let mut sys = create_system();
    {
        let edge = sys.create_edge("").unwrap();
        assert_eq!(edge.name, "tseg001");
        assert_eq!(edge.get_node(END_A), slot("node001", SLOT_1));
        assert_eq!(edge.get_node(END_B), slot("node002", SLOT_1));
        assert_eq!(edge.get_adjacent(END_A), slot("node002", SLOT_1));
        assert_eq!(edge.get_adjacent(END_B), slot("node001", SLOT_1));
        assert_eq!(edge.get_train(), "");
        assert!(edge.get_signal(END_A).edge.ee_edge.is_empty());
        assert!(edge.get_signal(END_B).edge.ee_edge.is_empty());
    }
    assert!(sys.has_edge(&name("tseg001")));
    let a = sys.find_node(&name("node001")).unwrap();
    assert_eq!(a.get_node_type(), NodeType::Terminator);
    assert_eq!(a.get_edge_end(SLOT_1), end("tseg001", END_A));
    assert_eq!(a.get_switch_pos(), JSwitch::JSwitchNone);
    let b = sys.find_node(&name("node002")).unwrap();
    assert_eq!(b.get_node_type(), NodeType::Terminator);
    assert_eq!(b.get_edge_end(SLOT_1), end("tseg001", END_B));
    assert_consistent(&sys, &["tseg001"], &["node001", "node002"]);
}

#[test]
fn a_name_in_use_is_refused() {
    let mut sys = create_system();
    assert_eq!(sys.create_edge("main").map(|e| e.name.clone()), Some(name("main")));
    let before = sys.clone();
    assert!(sys.create_edge("main").is_none());
    assert_eq!(sys, before);
    assert!(sys.create_node("node001").is_none());
    assert_eq!(sys, before);
    assert_eq!(sys.create_train("express").map(|t| t.name.clone()), Some(name("express")));
    let before = sys.clone();
    assert!(sys.create_train("express").is_none());
    assert_eq!(sys, before);
}

#[test]
fn numbered_names_take_the_lowest_unused_number() {
    let mut sys = create_system();
    assert_eq!(sys.create_edge("tseg002").map(|e| e.name.clone()), Some(name("tseg002")));
    assert_eq!(sys.create_edge("").map(|e| e.name.clone()), Some(name("tseg001")));
    assert_eq!(sys.create_edge("").map(|e| e.name.clone()), Some(name("tseg003")));
    assert_eq!(sys.create_node("node008").map(|n| n.name.clone()), Some(name("node008")));
    assert_eq!(sys.create_node("").map(|n| n.name.clone()), Some(name("node007")));
    assert_eq!(sys.create_node("").map(|n| n.name.clone()), Some(name("node009")));
    assert_eq!(sys.create_train("train2").map(|t| t.name.clone()), Some(name("train2")));
    assert_eq!(sys.create_train("").map(|t| t.name.clone()), Some(name("train1")));
    assert_eq!(sys.create_train("").map(|t| t.name.clone()), Some(name("train3")));
}

#[test]
fn numbered_names_grow_beyond_three_digits() {
    let mut sys = create_system();
    for number in 1..1000 {
        assert!(sys.create_node(&format!("node{:03}", number)).is_some());
    }
    assert!(sys.find_node(&name("node999")).is_some());
    assert_eq!(sys.create_node("").map(|n| n.name.clone()), Some(name("node1000")));
    for _ in 0..9 {
        assert!(sys.create_train("").is_some());
    }
    assert_eq!(sys.create_train("").map(|t| t.name.clone()), Some(name("train10")));
}

#[test]
fn a_created_node_is_empty() {
    let mut sys = create_system();
    let node = sys.create_node("yard").unwrap();
    assert_eq!(*node, bare_node("yard"));
    assert_eq!(node.get_node_type(), NodeType::Empty);
    assert_eq!(node.get_switch_pos(), JSwitch::JSwitchNone);
}

#[test]
fn joining_leaves_the_taken_over_node_behind() {
    let mut sys = with_edges(2);
    assert_eq!(sys.connect_segments(&end("tseg001", END_B), &end("tseg002", END_A)), Ok(()));
    assert_eq!(sys.get_edge(&name("tseg002")).unwrap().get_node(END_A), slot("node002", SLOT_2));
    let left = sys.find_node(&name("node003")).unwrap();
    assert_eq!(left.get_node_type(), NodeType::Terminator);
    assert_eq!(left.get_edge_end(SLOT_1), end("tseg002", END_A));
    assert_eq!(sys.get_edge(&name("tseg001")).unwrap().get_node(END_A), slot("node001", SLOT_1));
    assert_eq!(sys.get_edge(&name("tseg002")).unwrap().get_node(END_B), slot("node004", SLOT_1));
    assert_consistent(&sys, &["tseg001", "tseg002"], &SIX_NODES[..4]);
}

#[test]
fn the_trunk_keeps_the_first_slot() {
    let mut sys = with_edges(3);
    assert_eq!(sys.connect_segments(&end("tseg001", END_B), &end("tseg002", END_A)), Ok(()));
    assert_eq!(sys.connect_segments(&end("tseg001", END_B), &end("tseg003", END_A)), Ok(()));
    let node = sys.find_node(&name("node002")).unwrap();
    assert_eq!(node.get_node_type(), NodeType::Junction);
    assert_eq!(node.get_edge_end(SLOT_1), end("tseg001", END_B));
    assert_eq!(node.get_edge_end(SLOT_2), end("tseg002", END_A));
    assert_eq!(node.get_edge_end(SLOT_3), end("tseg003", END_A));
    assert_eq!(sys.get_edge(&name("tseg001")).unwrap().get_node(END_B), slot("node002", SLOT_1));
    assert_eq!(sys.get_edge(&name("tseg002")).unwrap().get_node(END_A), slot("node002", SLOT_2));
    assert_eq!(sys.get_edge(&name("tseg003")).unwrap().get_node(END_A), slot("node002", SLOT_3));
    assert_consistent(&sys, &["tseg001", "tseg002", "tseg003"], &SIX_NODES);
}

#[test]
fn joining_from_the_second_slot_moves_the_trunk() {
    let mut sys = with_edges(3);
    assert_eq!(sys.connect_segments(&end("tseg001", END_B), &end("tseg002", END_A)), Ok(()));
    // tseg002 sits in the second slot of node002: joining from there makes
    // it the trunk, and tseg001 the left branch.
    assert_eq!(sys.connect_segments(&end("tseg002", END_A), &end("tseg003", END_A)), Ok(()));
    let node = sys.find_node(&name("node002")).unwrap();
    assert_eq!(node.get_node_type(), NodeType::Junction);
    assert_eq!(node.get_switch_pos(), JSwitch::JSwitchLeft);
    assert_eq!(node.get_edge_end(SLOT_1), end("tseg002", END_A));
    assert_eq!(node.get_edge_end(SLOT_2), end("tseg001", END_B));
    assert_eq!(node.get_edge_end(SLOT_3), end("tseg003", END_A));
    assert_eq!(sys.get_edge(&name("tseg002")).unwrap().get_node(END_A), slot("node002", SLOT_1));
    assert_eq!(sys.get_edge(&name("tseg001")).unwrap().get_node(END_B), slot("node002", SLOT_2));
    assert_eq!(sys.get_edge(&name("tseg003")).unwrap().get_node(END_A), slot("node002", SLOT_3));
    assert_consistent(&sys, &["tseg001", "tseg002", "tseg003"], &SIX_NODES);
}

#[test]
fn unknown_segments_and_ends_are_not_found() {
    let mut sys = with_edges(2);
    let before = sys.clone();
    assert_eq!(
        sys.connect_segments(&end("tseg009", END_A), &end("tseg002", END_A)),
        Err(TrackError::NotFound)
    );
    assert_eq!(
        sys.connect_segments(&end("tseg001", END_A), &end("", END_A)),
        Err(TrackError::NotFound)
    );
    assert_eq!(
        sys.connect_segments(&end("tseg001", NUM_ENDS), &end("tseg002", END_A)),
        Err(TrackError::NotFound)
    );
    assert_eq!(
        sys.connect_segments(&end("tseg001", END_A), &end("tseg002", 7)),
        Err(TrackError::NotFound)
    );
    assert_eq!(sys, before);
}

#[test]
fn an_end_that_is_connected_cannot_be_joined_again() {
    let mut sys = with_edges(3);
    assert_eq!(sys.connect_segments(&end("tseg001", END_B), &end("tseg002", END_A)), Ok(()));
    let before = sys.clone();
    assert_eq!(
        sys.connect_segments(&end("tseg003", END_A), &end("tseg002", END_A)),
        Err(TrackError::EndOccupied)
    );
    assert_eq!(
        sys.connect_segments(&end("tseg003", END_A), &end("tseg001", END_B)),
        Err(TrackError::EndOccupied)
    );
    assert_eq!(sys, before);
}

#[test]
fn a_segment_end_joined_to_itself_cannot_become_a_trunk() {
    let mut sys = with_edges(2);
    assert_eq!(sys.connect_segments(&end("tseg001", END_A), &end("tseg001", END_A)), Ok(()));
    let node = sys.find_node(&name("node001")).unwrap();
    assert_eq!(node.get_node_type(), NodeType::Continuation);
    assert_eq!(sys.get_edge(&name("tseg001")).unwrap().get_node(END_A), slot("node001", SLOT_2));
    assert_consistent(&sys, &["tseg001", "tseg002"], &SIX_NODES[..4]);
    let before = sys.clone();
    assert_eq!(
        sys.connect_segments(&end("tseg001", END_A), &end("tseg002", END_A)),
        Err(TrackError::Corrupt)
    );
    assert_eq!(sys, before);
}

#[test]
fn a_segment_can_close_a_loop() {
    let mut sys = with_edges(1);
    assert_eq!(sys.connect_segments(&end("tseg001", END_A), &end("tseg001", END_B)), Ok(()));
    let node = sys.find_node(&name("node001")).unwrap();
    assert_eq!(node.get_node_type(), NodeType::Continuation);
    assert_eq!(node.get_next(SLOT_1), end("tseg001", END_B));
    assert_eq!(node.get_next(SLOT_2), end("tseg001", END_A));
    assert_consistent(&sys, &["tseg001"], &SIX_NODES[..2]);
}

#[test]
fn the_kind_of_a_node_goes_by_its_occupied_slots() {
    let mut node = bare_node("n");
    assert_eq!(node.get_node_type(), NodeType::Empty);
    node.make_terminator(&end("a", END_A));
    assert_eq!(node.get_node_type(), NodeType::Terminator);
    assert_eq!(node.get_edge_end(SLOT_1), end("a", END_A));
    node.make_continuation(&end("b", END_B));
    assert_eq!(node.get_node_type(), NodeType::Continuation);
    assert_eq!(node.get_edge_end(SLOT_2), end("b", END_B));
    assert_eq!(node.get_switch_pos(), JSwitch::JSwitchNone);
    node.make_junction(&end("c", END_A));
    assert_eq!(node.get_node_type(), NodeType::Junction);
    assert_eq!(node.get_edge_end(SLOT_3), end("c", END_A));
    assert_eq!(node.get_switch_pos(), JSwitch::JSwitchLeft);
    node.set_edge_end(&end("d", END_B), SLOT_2);
    assert_eq!(node.get_edge_end(SLOT_2), end("d", END_B));
    assert_eq!(node.get_edge_end(SLOT_1), end("a", END_A));
    assert_eq!(node.get_node_type(), NodeType::Junction);
}

#[test]
fn a_terminator_is_a_dead_end() {
    let mut node = bare_node("n");
    node.make_terminator(&end("a", END_A));
    for k in [SLOT_1, SLOT_2, SLOT_3, 3, 17] {
        assert_eq!(node.get_next(k), end("", NUM_ENDS));
    }
}

#[test]
fn a_continuation_joins_its_two_slots() {
    let mut node = bare_node("n");
    node.make_terminator(&end("a", END_A));
    node.make_continuation(&end("b", END_B));
    assert_eq!(node.get_next(SLOT_1), end("b", END_B));
    assert_eq!(node.get_next(SLOT_2), end("a", END_A));
    assert_eq!(node.get_next(SLOT_3), end("", NUM_ENDS));
    assert_eq!(node.get_next(3), end("", NUM_ENDS));
}

#[test]
fn a_junction_routes_by_its_switch() {
    let mut node = bare_node("n");
    node.make_terminator(&end("a", END_A));
    node.make_continuation(&end("b", END_B));
    node.make_junction(&end("c", END_A));
    assert_eq!(node.get_next(SLOT_1), end("b", END_B));
    assert_eq!(node.get_next(SLOT_2), end("a", END_A));
    assert_eq!(node.get_next(SLOT_3), end("", NUM_ENDS));
    node.set_switch_pos(JSwitch::JSwitchRight);
    assert_eq!(node.get_switch_pos(), JSwitch::JSwitchRight);
    assert_eq!(node.get_next(SLOT_1), end("c", END_A));
    assert_eq!(node.get_next(SLOT_2), end("", NUM_ENDS));
    assert_eq!(node.get_next(SLOT_3), end("a", END_A));
    for k in [3, 4, 99] {
        assert_eq!(node.get_next(k), end("", NUM_ENDS));
    }
}

#[test]
fn a_switch_moved_twice_stands_where_it_stood() {
    for start in [JSwitch::JSwitchNone, JSwitch::JSwitchLeft, JSwitch::JSwitchRight] {
        let mut node = bare_node("n");
        node.make_terminator(&end("a", END_A));
        node.make_continuation(&end("b", END_B));
        node.make_junction(&end("c", END_A));
        node.set_switch_pos(start);
        let before = node.clone();
        node.toggle_switch_pos();
        assert_eq!(node.slots, before.slots);
        assert_eq!(node.name, before.name);
        node.toggle_switch_pos();
        assert_eq!(node, before);
    }
}

#[test]
fn toggling_moves_between_left_and_right_only() {
    let mut node = bare_node("n");
    node.toggle_switch_pos();
    assert_eq!(node.get_switch_pos(), JSwitch::JSwitchNone);
    node.set_switch_pos(JSwitch::JSwitchLeft);
    node.toggle_switch_pos();
    assert_eq!(node.get_switch_pos(), JSwitch::JSwitchRight);
    node.toggle_switch_pos();
    assert_eq!(node.get_switch_pos(), JSwitch::JSwitchLeft);
}

#[test]
fn junctions_are_listed_in_the_order_of_creation() {
    let mut sys = with_edges(6);
    assert_eq!(sys.connect_segments(&end("tseg004", END_A), &end("tseg005", END_A)), Ok(()));
    assert_eq!(sys.connect_segments(&end("tseg004", END_A), &end("tseg006", END_A)), Ok(()));
    assert_eq!(sys.connect_segments(&end("tseg001", END_B), &end("tseg002", END_A)), Ok(()));
    assert_eq!(sys.get_all_junctions(), vec![name("node007")]);
    assert_eq!(sys.connect_segments(&end("tseg001", END_B), &end("tseg003", END_A)), Ok(()));
    assert_eq!(sys.get_all_junctions(), vec![name("node002"), name("node007")]);
}

#[test]
fn moving_a_switch_through_the_network_keeps_the_links() {
    let mut sys = with_edges(3);
    assert_eq!(sys.connect_segments(&end("tseg001", END_B), &end("tseg002", END_A)), Ok(()));
    assert_eq!(sys.connect_segments(&end("tseg001", END_B), &end("tseg003", END_A)), Ok(()));
    assert!(sys.get_node(&name("nowhere")).is_none());
    let before = sys.clone();
    sys.get_node(&name("node002")).unwrap().toggle_switch_pos();
    assert_ne!(sys, before);
    assert_consistent(&sys, &["tseg001", "tseg002", "tseg003"], &SIX_NODES);
    sys.get_node(&name("node002")).unwrap().toggle_switch_pos();
    assert_eq!(sys, before);
    sys.update_all_signals();
    assert_eq!(sys, before);
}

#[test]
fn a_segment_records_where_its_ends_are_attached() {
    let mut sys = with_edges(1);
    let edge = sys.get_edge_mut(&name("tseg001")).unwrap();
    edge.assign_node_slot(&slot("yard", SLOT_3), END_B);
    assert_eq!(edge.get_node(END_B), slot("yard", SLOT_3));
    assert_eq!(edge.get_node(END_A), slot("node001", SLOT_1));
    assert_eq!(edge.get_adjacent(END_A), slot("yard", SLOT_3));
    edge.set_train("express");
    assert_eq!(edge.get_train(), "express");
    edge.set_train("");
    assert_eq!(edge.get_train(), "");
    assert!(sys.get_edge_mut(&name("tseg002")).is_none());
}

#[test]
fn a_segment_is_found_by_its_name_or_its_number() {
    let sys = with_edges(12);
    assert_eq!(sys.resolve_edge_name(&name("tseg003")), Some(name("tseg003")));
    assert_eq!(sys.resolve_edge_name(&name("3")), Some(name("tseg003")));
    assert_eq!(sys.resolve_edge_name(&name(" 12 ")), Some(name("tseg012")));
    assert_eq!(sys.resolve_edge_name(&name("13")), None);
    assert_eq!(sys.resolve_edge_name(&name("three")), None);
    assert_eq!(sys.resolve_edge_name(&name("")), None);
}
