//! What holds of every valid network, and of the operations on it.

use vstd::prelude::*;
use crate::common::{End, EdgeEndView, JSwitch, NodeType, Slot, NUM_ENDS, NUM_SLOTS, SLOT_1, SLOT_2, SLOT_3};
use crate::system::connect::lemma_end_linked;
use crate::system::node::NodeView;
use crate::system::{
    lemma_contained_has_first, lemma_new_node_names, lemma_push_keeps_first, lemma_push_new_first,
    SystemView,
};

verus! {

/// The two directions of reference agree: the node slot that a segment end
/// is attached to exists and holds that very segment end.
pub proof fn lemma_references_agree(sv: SystemView, edge: Seq<char>, end: End)
    requires
        sv.wf(),
        sv.has_edge(edge),
        end < NUM_ENDS,
    ensures
        sv.edge(edge).name == edge,
        sv.has_node(sv.edge(edge).ends[end as int].node),
        sv.edge(edge).ends[end as int].slot < NUM_SLOTS,
        sv.node(sv.edge(edge).ends[end as int].node).slots[sv.edge(edge).ends[end as int].slot as int]
            == (EdgeEndView { edge, end }),
{
    lemma_end_linked(sv, EdgeEndView { edge, end });
}

/// No node of a valid network has a slot occupied while the slot before it
/// is empty.
pub proof fn lemma_slots_fill_in_order(sv: SystemView, node: Seq<char>, k: Slot)
    requires
        sv.wf(),
        sv.has_node(node),
        k + 1 < NUM_SLOTS,
        sv.node(node).occupied(k + 1),
    ensures
        sv.node(node).occupied(k as int),
{
    lemma_contained_has_first(sv.node_names(), node);
    assert(sv.nodes[sv.node_index(node)].wf());
}

/// A write that fits leaves the slots of a node filled in order: no slot
/// comes to be occupied behind an empty one.
pub proof fn lemma_fitting_write_keeps_order(n: NodeView, k: Slot, e: EdgeEndView)
    requires
        n.slots.len() == NUM_SLOTS,
        n.contiguous(),
        k < NUM_SLOTS,
        n.fits(k as int, e),
    ensures
        n.with_slot(k as int, e).contiguous(),
        forall|m: int|
            0 <= m < NUM_SLOTS - 1 && #[trigger] n.with_slot(k as int, e).occupied(m + 1) ==> n.with_slot(
                k as int,
                e,
            ).occupied(m),
{
    let after = n.with_slot(k as int, e);
    assert(after.occupied(0) == (if k == 0 { e.is_set() } else { n.occupied(0) }));
    assert(after.occupied(1) == (if k == 1 { e.is_set() } else { n.occupied(1) }));
    assert(after.occupied(2) == (if k == 2 { e.is_set() } else { n.occupied(2) }));
}

/// The kind of a node whose slots are filled in order goes by the number
/// of occupied slots alone: none makes it empty, one a terminator, two a
/// continuation and three a junction.
pub proof fn lemma_kind_by_count(n: NodeView)
    requires
        n.contiguous(),
    ensures
        n.node_type() == NodeView::type_of_count(n.occupied_count()),
{
}

/// A switch that is moved twice stands where it stood.
pub proof fn lemma_toggle_twice(sw: JSwitch)
    ensures
        sw.toggled().toggled() == sw,
{
}

/// Only the switch of a junction moves: on any other valid node, moving the
/// switch changes nothing.
pub proof fn lemma_toggle_moves_junctions_only(n: NodeView)
    requires
        n.wf(),
        n.node_type() != NodeType::Junction,
    ensures
        n.with_switch(n.switch_state.toggled()) == n,
{
}

/// Moving the switch leaves the slots as they are, and so the kind of the
/// node.
pub proof fn lemma_toggle_keeps_slots(n: NodeView)
    ensures
        n.with_switch(n.switch_state.toggled()).slots == n.slots,
        n.with_switch(n.switch_state.toggled()).node_type() == n.node_type(),
        n.wf() ==> n.with_switch(n.switch_state.toggled()).wf(),
{
    let m = n.with_switch(n.switch_state.toggled());
    assert forall|k: int| m.occupied(k) == n.occupied(k) by {}
}

/// A new segment ends in two terminators of its own: each of its ends is
/// attached to the first slot of a node that holds nothing else.
pub proof fn lemma_new_edge_ends(sv: SystemView, name: Seq<char>, end: End)
    requires
        sv.wf(),
        name.len() > 0,
        !sv.has_edge(name),
        end < NUM_ENDS,
    ensures
        sv.with_new_edge(name).has_edge(name),
        sv.with_new_edge(name).edge(name) == sv.edge_for(name),
        sv.with_new_edge(name).end_ref(EdgeEndView { edge: name, end }).slot == SLOT_1,
        !sv.has_node(sv.with_new_edge(name).end_ref(EdgeEndView { edge: name, end }).node),
        sv.with_new_edge(name).has_node(
            sv.with_new_edge(name).end_ref(EdgeEndView { edge: name, end }).node,
        ),
        sv.with_new_edge(name).node(
            sv.with_new_edge(name).end_ref(EdgeEndView { edge: name, end }).node,
        ) == NodeView::terminator(
            sv.with_new_edge(name).end_ref(EdgeEndView { edge: name, end }).node,
            EdgeEndView { edge: name, end },
        ),
        sv.with_new_edge(name).node(
            sv.with_new_edge(name).end_ref(EdgeEndView { edge: name, end }).node,
        ).node_type() == NodeType::Terminator,
{
    let after = sv.with_new_edge(name);
    let a = sv.node_a_for(name);
    let b = sv.node_b_for(name);
    let nn = sv.node_names();
    lemma_new_node_names(sv, name);
    assert(after.edge_names() =~= sv.edge_names().push(name));
    assert(after.node_names() =~= nn.push(a.name).push(b.name));
    lemma_push_new_first(sv.edge_names(), name);
    lemma_push_new_first(nn, a.name);
    assert(!nn.push(a.name).contains(b.name)) by {
        if nn.push(a.name).contains(b.name) {
            let k = choose|k: int| 0 <= k < nn.push(a.name).len() && nn.push(a.name)[k] == b.name;
            if k < nn.len() {
                assert(nn[k] == b.name);
            }
        }
    }
    lemma_push_new_first(nn.push(a.name), b.name);
    lemma_push_keeps_first(nn.push(a.name), b.name, a.name);
    assert(a.occupied(0));
    assert(!a.occupied(1));
    assert(!a.occupied(2));
    assert(b.occupied(0));
    assert(!b.occupied(1));
    assert(!b.occupied(2));
}

/// Creating a segment leaves every other segment, every node that was
/// there and every train as they were.
pub proof fn lemma_new_edge_keeps_rest(sv: SystemView, name: Seq<char>)
    requires
        sv.wf(),
        !sv.has_edge(name),
    ensures
        forall|other: Seq<char>| #[trigger]
            sv.has_edge(other) ==> sv.with_new_edge(name).has_edge(other) && sv.with_new_edge(
                name,
            ).edge(other) == sv.edge(other),
        forall|node: Seq<char>| #[trigger]
            sv.has_node(node) ==> sv.with_new_edge(name).has_node(node) && sv.with_new_edge(
                name,
            ).node(node) == sv.node(node),
        sv.with_new_edge(name).trains == sv.trains,
{
    let after = sv.with_new_edge(name);
    let a = sv.node_a_for(name);
    let b = sv.node_b_for(name);
    let nn = sv.node_names();
    assert(after.edge_names() =~= sv.edge_names().push(name));
    assert(after.node_names() =~= nn.push(a.name).push(b.name));
    assert forall|other: Seq<char>| #[trigger] sv.has_edge(other) implies after.has_edge(other)
        && after.edge(other) == sv.edge(other) by {
        lemma_push_keeps_first(sv.edge_names(), name, other);
    }
    assert forall|node: Seq<char>| #[trigger] sv.has_node(node) implies after.has_node(node)
        && after.node(node) == sv.node(node) by {
        lemma_push_keeps_first(nn, a.name, node);
        lemma_push_keeps_first(nn.push(a.name), b.name, node);
    }
}

/// A junction takes no more segments: joining at a segment end whose node
/// is a junction fails.
pub proof fn lemma_junction_is_full(sv: SystemView, s1: EdgeEndView, s2: EdgeEndView)
    requires
        sv.wf(),
        sv.has_end(s1),
        sv.node(sv.end_ref(s1).node).node_type() == NodeType::Junction,
    ensures
        sv.connect_outcome(s1, s2) is Err,
{
}

/// What joining makes of the node at `s1`. A terminator becomes a
/// continuation that leads from `s1` to `s2` and back. A continuation
/// becomes a junction with `s1` as its trunk, the segment end that was
/// joined before as its left branch, `s2` as its right branch, and the
/// switch to the left.
pub proof fn lemma_joined_node(sv: SystemView, s1: EdgeEndView, s2: EdgeEndView)
    requires
        sv.wf(),
        sv.connect_outcome(s1, s2) is Ok,
    ensures
        sv.node(sv.end_ref(s1).node).node_type() == NodeType::Terminator ==> {
            let n = sv.joined_node(s1, s2);
            &&& n.node_type() == NodeType::Continuation
            &&& n.next(SLOT_1) == s2
            &&& n.next(SLOT_2) == s1
        },
        sv.node(sv.end_ref(s1).node).node_type() == NodeType::Continuation ==> {
            let before = sv.node(sv.end_ref(s1).node);
            let n = sv.joined_node(s1, s2);
            &&& n.node_type() == NodeType::Junction
            &&& n.switch_state == JSwitch::JSwitchLeft
            &&& n.slots[SLOT_1 as int] == s1
            &&& n.slots[SLOT_3 as int] == s2
            &&& n.slots[SLOT_2 as int] == (if sv.must_swap(s1) {
                before.slots[SLOT_1 as int]
            } else {
                before.slots[SLOT_2 as int]
            })
            &&& n.next(SLOT_1) == n.slots[SLOT_2 as int]
            &&& n.with_switch(JSwitch::JSwitchRight).next(SLOT_1) == s2
        },
{
    lemma_end_linked(sv, s1);
    lemma_end_linked(sv, s2);
    let before = sv.node(sv.end_ref(s1).node);
    let n = sv.joined_node(s1, s2);
    assert(s2.is_set());
    if before.node_type() == NodeType::Terminator {
        assert(before.occupied(sv.end_ref(s1).slot as int));
        assert(n.occupied(1));
        assert(!n.occupied(2));
    } else {
        assert(n.occupied(2));
        assert(n.with_switch(JSwitch::JSwitchRight).occupied(2));
        assert(before.occupied(sv.end_ref(s1).slot as int));
    }
}

} // verus!
