use railnet::common::{EdgeEnd, JSwitch, TrackError, END_A, END_B, NUM_ENDS};
use railnet::system::node::Node;
use railnet::system::{create_system, System};

fn end(edge: &str, end: usize) -> EdgeEnd {
    EdgeEnd { ee_edge: String::from(edge), ee_end: end }
}

fn name(text: &str) -> String {
    String::from(text)
}

fn line(sys: &System, edge: &str, show_end: usize) -> Result<String, TrackError> {
    sys.get_edge(&name(edge)).unwrap().show(sys, show_end)
}

fn node_line(sys: &System, node: &str) -> String {
    sys.find_node(&name(node)).unwrap().show(sys)
}

fn junction() -> System {
    let mut sys = create_system();
    for _ in 0..3 {
        assert!(sys.create_edge("").is_some());
    }
    assert_eq!(sys.connect_segments(&end("tseg001", END_B), &end("tseg002", END_A)), Ok(()));
    assert_eq!(sys.connect_segments(&end("tseg001", END_B), &end("tseg003", END_A)), Ok(()));
    sys
}

#[test]
fn a_lone_segment_shows_two_buffer_stops() {
    let mut sys = create_system();
    sys.create_edge("");
    assert_eq!(line(&sys, "tseg001", NUM_ENDS), Ok(name("<term-> ||== _ tseg001 _ ==|| <-term>")));
    assert_eq!(line(&sys, "tseg001", END_A), Ok(name("<term-> ||== _ tseg001")));
    assert_eq!(line(&sys, "tseg001", END_B), Ok(name("tseg001 _ ==|| <-term>")));
    assert_eq!(line(&sys, "tseg001", 3), Ok(name("tseg001")));
}

#[test]
fn a_continuation_shows_the_segment_that_follows() {
    let mut sys = create_system();
    sys.create_edge("");
    sys.create_edge("");
    assert_eq!(sys.connect_segments(&end("tseg001", END_B), &end("tseg002", END_A)), Ok(()));
    assert_eq!(line(&sys, "tseg001", NUM_ENDS), Ok(name("<term-> ||== _ tseg001 _ <==> tseg002")));
    assert_eq!(line(&sys, "tseg002", NUM_ENDS), Ok(name("tseg001 <==> _ tseg002 _ ==|| <-term>")));
    assert_eq!(line(&sys, "tseg002", END_A), Ok(name("tseg001 <==> _ tseg002")));
}

#[test]
fn a_junction_shows_where_its_switch_leads() {
    let mut sys = junction();
    assert_eq!(line(&sys, "tseg001", NUM_ENDS), Ok(name("<term-> ||== _ tseg001 _ <=// tseg002")));
    assert_eq!(line(&sys, "tseg002", NUM_ENDS), Ok(name("tseg001 <=// _ tseg002 _ ==|| <-term>")));
    assert_eq!(line(&sys, "tseg003", NUM_ENDS), Ok(name("tseg001 X=// _ tseg003 _ ==|| <-term>")));
    sys.get_node(&name("node002")).unwrap().toggle_switch_pos();
    assert_eq!(line(&sys, "tseg001", NUM_ENDS), Ok(name("<term-> ||== _ tseg001 _ <=\\\\ tseg003")));
    assert_eq!(line(&sys, "tseg002", NUM_ENDS), Ok(name("tseg001 X=\\\\ _ tseg002 _ ==|| <-term>")));
    assert_eq!(line(&sys, "tseg003", NUM_ENDS), Ok(name("tseg001 <=\\\\ _ tseg003 _ ==|| <-term>")));
    sys.get_node(&name("node002")).unwrap().set_switch_pos(JSwitch::JSwitchNone);
    assert_eq!(line(&sys, "tseg001", NUM_ENDS), Ok(name("<term-> ||== _ tseg001 _ <=XX tseg002")));
    assert_eq!(line(&sys, "tseg002", NUM_ENDS), Ok(name("tseg001 <=XX _ tseg002 _ ==|| <-term>")));
    assert_eq!(line(&sys, "tseg003", NUM_ENDS), Ok(name("tseg001 X=XX _ tseg003 _ ==|| <-term>")));
}

#[test]
fn a_junction_behind_end_a_is_drawn_mirrored() {
    let mut sys = create_system();
    for _ in 0..3 {
        assert!(sys.create_edge("").is_some());
    }
    assert_eq!(sys.connect_segments(&end("tseg001", END_A), &end("tseg002", END_B)), Ok(()));
    assert_eq!(sys.connect_segments(&end("tseg001", END_A), &end("tseg003", END_B)), Ok(()));
    assert_eq!(line(&sys, "tseg001", NUM_ENDS), Ok(name("tseg002 //=> _ tseg001 _ ==|| <-term>")));
    assert_eq!(line(&sys, "tseg002", NUM_ENDS), Ok(name("<term-> ||== _ tseg002 _ //=> tseg001")));
    assert_eq!(line(&sys, "tseg003", NUM_ENDS), Ok(name("<term-> ||== _ tseg003 _ //=X tseg001")));
    sys.get_node(&name("node001")).unwrap().toggle_switch_pos();
    assert_eq!(line(&sys, "tseg001", NUM_ENDS), Ok(name("tseg003 \\\\=> _ tseg001 _ ==|| <-term>")));
    assert_eq!(line(&sys, "tseg002", NUM_ENDS), Ok(name("<term-> ||== _ tseg002 _ \\\\=X tseg001")));
    assert_eq!(line(&sys, "tseg003", NUM_ENDS), Ok(name("<term-> ||== _ tseg003 _ \\\\=> tseg001")));
    sys.get_node(&name("node001")).unwrap().set_switch_pos(JSwitch::JSwitchNone);
    assert_eq!(line(&sys, "tseg001", NUM_ENDS), Ok(name("tseg002 XX=> _ tseg001 _ ==|| <-term>")));
    assert_eq!(line(&sys, "tseg003", NUM_ENDS), Ok(name("<term-> ||== _ tseg003 _ XX=X tseg001")));
}

#[test]
fn signals_show_their_colour() {
    let mut sys = create_system();
    sys.create_edge("");
    {
        let edge = sys.get_edge_mut(&name("tseg001")).unwrap();
        assert_eq!(edge.place_signal_light(END_A), Ok(()));
    }
    assert_eq!(line(&sys, "tseg001", NUM_ENDS), Ok(name("<term-> ||== R tseg001 _ ==|| <-term>")));
    {
        let edge = sys.get_edge_mut(&name("tseg001")).unwrap();
        assert_eq!(edge.place_signal_light(END_B), Ok(()));
        edge.get_signal(END_A).is_red = false;
    }
    assert_eq!(line(&sys, "tseg001", NUM_ENDS), Ok(name("<term-> ||== G tseg001 R ==|| <-term>")));
    sys.get_edge_mut(&name("tseg001")).unwrap().get_signal(END_B).is_red = false;
    assert_eq!(line(&sys, "tseg001", END_B), Ok(name("tseg001 G ==|| <-term>")));
}

#[test]
fn a_train_shows_on_its_segment() {
    let mut sys = create_system();
    sys.create_edge("");
    sys.create_edge("");
    sys.create_train("");
    assert_eq!(sys.place_train(&name("train1"), &name("tseg001"), &name("tseg002")), Ok(()));
    assert_eq!(
        line(&sys, "tseg001", NUM_ENDS),
        Ok(name("<term-> ||== _ tseg001 _ ==|| <-term>   [o==o]-[o==o]\\ train1"))
    );
    assert_eq!(line(&sys, "tseg001", 5), Ok(name("tseg001   [o==o]-[o==o]\\ train1")));
    assert_eq!(line(&sys, "tseg002", NUM_ENDS), Ok(name("<term-> ||== _ tseg002 _ ==|| <-term>")));
    assert_eq!(
        sys.get_train(&name("train1")).unwrap().show(&sys),
        vec![
            name("Train: train1"),
            name("  Location: track segment \"tseg001\""),
            name("  Direction: toward segment end B"),
        ]
    );
}

#[test]
fn a_train_heading_for_end_a_is_drawn_the_other_way() {
    let mut sys = create_system();
    sys.create_edge("");
    sys.create_train("express");
    let mut copy = sys.get_edge(&name("tseg001")).unwrap().clone();
    copy.set_train("express");
    assert_eq!(copy.show(&sys, END_A), Ok(name("<term-> ||== _ tseg001   [o==o]-[o==o]\\ express")));
    let mut train = sys.get_train(&name("express")).unwrap().clone();
    assert_eq!(train.show(&sys), vec![name("Train: express")]);
    train.edge = end("tseg001", END_A);
    assert_eq!(
        train.show(&sys),
        vec![
            name("Train: express"),
            name("  Location: track segment \"tseg001\""),
            name("  Direction: toward segment end A"),
        ]
    );
    copy.set_train("ghost");
    assert_eq!(copy.show(&sys, END_A), Ok(name("<term-> ||== _ tseg001")));
}

#[test]
fn a_segment_outside_the_network_has_no_line() {
    let mut sys = create_system();
    sys.create_edge("");
    let mut copy = sys.get_edge(&name("tseg001")).unwrap().clone();
    copy.name = name("elsewhere");
    assert_eq!(copy.show(&sys, NUM_ENDS), Err(TrackError::NotFound));
    let other = create_system();
    assert_eq!(sys.get_edge(&name("tseg001")).unwrap().show(&other, END_A), Err(TrackError::NotFound));
}

#[test]
fn a_segment_whose_node_is_missing_has_no_line() {
    let mut sys = create_system();
    sys.create_edge("");
    sys.get_node(&name("node002")).unwrap().name = name("renamed");
    assert_eq!(line(&sys, "tseg001", END_A), Ok(name("<term-> ||== _ tseg001")));
    assert_eq!(line(&sys, "tseg001", END_B), Err(TrackError::Corrupt));
    assert_eq!(line(&sys, "tseg001", NUM_ENDS), Err(TrackError::Corrupt));
}

#[test]
fn nodes_show_their_neighbours() {
    let sys = junction();
    assert_eq!(
        node_line(&sys, "node002"),
        "     node002:   node001,   node004,   node006  (switch: left)"
    );
    assert_eq!(node_line(&sys, "node001"), "     node001:   node002");
    assert_eq!(node_line(&sys, "node003"), "     node003:   node004");
    assert_eq!(node_line(&sys, "node004"), "     node004:   node002");
}

#[test]
fn a_junction_shows_its_switch_in_words() {
    let mut sys = junction();
    sys.get_node(&name("node002")).unwrap().toggle_switch_pos();
    assert_eq!(
        node_line(&sys, "node002"),
        "     node002:   node001,   node004,   node006  (switch: right)"
    );
    sys.get_node(&name("node002")).unwrap().set_switch_pos(JSwitch::JSwitchNone);
    assert_eq!(
        node_line(&sys, "node002"),
        "     node002:   node001,   node004,   node006  (switch: none)"
    );
}

#[test]
fn a_node_shows_only_neighbours_that_the_network_knows() {
    let sys = junction();
    let empty = Node {
        name: name("a-node-with-a-long-name"),
        slots: [end("", END_A), end("", END_A), end("", END_A)],
        switch_state: JSwitch::JSwitchNone,
    };
    assert_eq!(empty.show(&sys), "a-node-with-a-long-name:");
    let mut stray = empty.clone();
    stray.name = name("x");
    stray.make_terminator(&end("unknown", END_A));
    stray.make_continuation(&end("tseg003", END_B));
    assert_eq!(stray.show(&sys), "           x:,   node002");
    let mut gap = empty.clone();
    gap.name = name("gap");
    gap.slots[1] = end("tseg001", END_A);
    gap.slots[2] = end("tseg001", END_A);
    assert_eq!(gap.show(&sys), "         gap:");
}

#[test]
fn segments_are_listed_by_name() {
    let mut sys = create_system();
    for wanted in ["yard", "main", "", "tseg10", "Zoo"] {
        assert!(sys.create_edge(wanted).is_some());
    }
    assert_eq!(sys.connect_segments(&end("main", END_B), &end("yard", END_A)), Ok(()));
    assert_eq!(
        sys.show_edges(),
        vec![
            name("<term-> ||== _ Zoo _ ==|| <-term>"),
            name("<term-> ||== _ main _ <==> yard"),
            name("<term-> ||== _ tseg001 _ ==|| <-term>"),
            name("<term-> ||== _ tseg10 _ ==|| <-term>"),
            name("main <==> _ yard _ ==|| <-term>"),
            name("TOTAL: 5 track segments"),
        ]
    );
}

#[test]
fn an_empty_network_lists_its_total_only() {
    let sys = create_system();
    assert_eq!(sys.show_edges(), vec![name("TOTAL: 0 track segments")]);
    assert!(sys.show_nodes().is_empty());
}

#[test]
fn nodes_are_listed_by_name() {
    let mut sys = create_system();
    assert!(sys.create_node("west").is_some());
    assert!(sys.create_edge("").is_some());
    assert!(sys.create_node("east").is_some());
    assert_eq!(
        sys.show_nodes(),
        vec![
            name("        east:"),
            name("     node001:   node002"),
            name("     node002:   node001"),
            name("        west:"),
        ]
    );
}

#[test]
fn names_are_ordered_by_their_characters() {
    let mut sys = create_system();
    for wanted in ["zz", "é", "z", "Z", "za", "10", "9", "€", "e"] {
        assert!(sys.create_node(wanted).is_some());
    }
    assert_eq!(
        sys.show_nodes(),
        vec![
            name("          10:"),
            name("           9:"),
            name("           Z:"),
            name("           e:"),
            name("           z:"),
            name("          za:"),
            name("          zz:"),
            name("           é:"),
            name("           €:"),
        ]
    );
}
