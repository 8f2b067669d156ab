//! Joining segments: the node at one segment end takes up the open end of
//! another segment, and grows from terminator to continuation to junction.

use vstd::prelude::*;
use crate::common::{
    End, EdgeEnd, EdgeEndView, JSwitch, NodeSlot, NodeSlotView, NodeType, Slot, TrackError, NUM_ENDS,
    NUM_SLOTS, SLOT_1, SLOT_2, SLOT_3,
};
use crate::system::edge::EdgeView;
use crate::system::node::NodeView;
use crate::system::{
    lemma_contained_has_first, lemma_index_of_distinct, System, SystemView,
};

verus! {

impl SystemView {
    /// Slot `k` of the node called `name` holds a segment end of the
    /// network, and that end is attached to this very slot.
    pub open spec fn points_back(self, name: Seq<char>, k: Slot) -> bool {
        let held = self.node(name).slots[k as int];
        self.has_end(held) && self.end_ref(held) == (NodeSlotView { node: name, slot: k })
    }

    /// Joining at the node of `s1` has to move that node's trunk first: the
    /// node is a continuation and `s1` sits in its second slot.
    pub open spec fn must_swap(self, s1: EdgeEndView) -> bool {
        let at = self.end_ref(s1);
        self.node(at.node).node_type() == NodeType::Continuation && at.slot == SLOT_2
    }

    /// Whether the open end `s2` can be joined to the node at `s1`, and if
    /// not, why not.
    pub open spec fn connect_outcome(self, s1: EdgeEndView, s2: EdgeEndView) -> Result<
        (),
        TrackError,
    > {
        if !self.has_end(s1) || !self.has_end(s2) {
            Err(TrackError::NotFound)
        } else if self.node(self.end_ref(s2).node).node_type() != NodeType::Terminator {
            Err(TrackError::EndOccupied)
        } else {
            let at = self.end_ref(s1);
            match self.node(at.node).node_type() {
                NodeType::Terminator => Ok(()),
                NodeType::Continuation => {
                    if at.slot == SLOT_2 && !self.points_back(at.node, SLOT_1) {
                        Err(TrackError::Corrupt)
                    } else {
                        Ok(())
                    }
                },
                NodeType::Junction => Err(TrackError::AtJunction),
                NodeType::Empty => Err(TrackError::Corrupt),
            }
        }
    }

    /// The slot of the node at `s1` that takes up the joined end: the second
    /// of a terminator, the third of a continuation.
    pub open spec fn joining_slot(self, s1: EdgeEndView) -> Slot {
        if self.node(self.end_ref(s1).node).node_type() == NodeType::Terminator {
            SLOT_2
        } else {
            SLOT_3
        }
    }

    /// The node at `s1` after `s2` was joined to it. A terminator becomes a
    /// continuation. A continuation becomes a junction with its switch to
    /// the left, and with `s1` as its trunk: where `s1` sat in the second
    /// slot, the first two slots trade places.
    pub open spec fn joined_node(self, s1: EdgeEndView, s2: EdgeEndView) -> NodeView {
        let n = self.node(self.end_ref(s1).node);
        if n.node_type() == NodeType::Terminator {
            n.with_slot(SLOT_2 as int, s2)
        } else if self.must_swap(s1) {
            n.with_slot(SLOT_1 as int, n.slots[SLOT_2 as int]).with_slot(
                SLOT_2 as int,
                n.slots[SLOT_1 as int],
            ).with_slot(SLOT_3 as int, s2).with_switch(JSwitch::JSwitchLeft)
        } else {
            n.with_slot(SLOT_3 as int, s2).with_switch(JSwitch::JSwitchLeft)
        }
    }

    /// Where end `x` of the `i`-th segment is attached after `s2` was joined
    /// to the node at `s1`: `s2` at the slot that took it up, the two ends
    /// that traded slots at their new slots, and every other end where it
    /// was.
    pub open spec fn joined_ref(self, s1: EdgeEndView, s2: EdgeEndView, i: int, x: int) -> NodeSlotView {
        let at = self.end_ref(s1);
        let n = self.node(at.node);
        let here = EdgeEndView { edge: self.edges[i].name, end: x as End };
        if here == s2 {
            NodeSlotView { node: at.node, slot: self.joining_slot(s1) }
        } else if self.must_swap(s1) && here == n.slots[SLOT_1 as int] {
            NodeSlotView { node: at.node, slot: SLOT_2 }
        } else if self.must_swap(s1) && here == n.slots[SLOT_2 as int] {
            NodeSlotView { node: at.node, slot: SLOT_1 }
        } else {
            self.edges[i].ends[x]
        }
    }

    /// The `i`-th segment after `s2` was joined to the node at `s1`.
    pub open spec fn joined_edge(self, s1: EdgeEndView, s2: EdgeEndView, i: int) -> EdgeView {
        EdgeView {
            ends: Seq::new(NUM_ENDS as nat, |x: int| self.joined_ref(s1, s2, i, x)),
            ..self.edges[i]
        }
    }

    /// The network after `s2` was joined to the node at `s1`.
    pub open spec fn connected(self, s1: EdgeEndView, s2: EdgeEndView) -> SystemView {
        SystemView {
            edges: Seq::new(self.edges.len(), |i: int| self.joined_edge(s1, s2, i)),
            nodes: self.nodes.update(
                self.node_index(self.end_ref(s1).node),
                self.joined_node(s1, s2),
            ),
            trains: self.trains,
        }
    }
}

/// In a valid network the end of a segment leads to an existing node, whose
/// slot holds that end.
pub proof fn lemma_end_linked(sv: SystemView, s: EdgeEndView)
    requires
        sv.wf(),
        sv.has_end(s),
    ensures
        0 <= sv.edge_index(s.edge) < sv.edges.len(),
        sv.edge(s.edge).name == s.edge,
        sv.edge(s.edge).wf(),
        sv.end_ref(s).slot < NUM_SLOTS,
        sv.has_node(sv.end_ref(s).node),
        0 <= sv.node_index(sv.end_ref(s).node) < sv.nodes.len(),
        sv.node(sv.end_ref(s).node).name == sv.end_ref(s).node,
        sv.node(sv.end_ref(s).node).wf(),
        sv.node(sv.end_ref(s).node).slots[sv.end_ref(s).slot as int] == s,
        sv.node(sv.end_ref(s).node).occupied(sv.end_ref(s).slot as int),
{
    lemma_contained_has_first(sv.edge_names(), s.edge);
    let i = sv.edge_index(s.edge);
    assert(sv.edges[i].wf());
    assert(sv.end_linked(i, s.end as int));
    let at = sv.end_ref(s);
    lemma_contained_has_first(sv.node_names(), at.node);
    assert(sv.nodes[sv.node_index(at.node)].wf());
}

/// Joining a segment end keeps a valid network valid.
pub proof fn lemma_connect_keeps_wf(sv: SystemView, s1: EdgeEndView, s2: EdgeEndView)
    requires
        sv.wf(),
        sv.connect_outcome(s1, s2) is Ok,
    ensures
        sv.connected(s1, s2).wf(),
{
    let after = sv.connected(s1, s2);
    let at = sv.end_ref(s1);
    let j1 = sv.node_index(at.node);
    let n = sv.node(at.node);
    let n_new = sv.joined_node(s1, s2);
    lemma_end_linked(sv, s1);
    lemma_end_linked(sv, s2);
    assert(after.edge_names() =~= sv.edge_names());
    assert(after.node_names() =~= sv.node_names());
    assert(after.train_names() =~= sv.train_names());
    assert(s2.is_set());
    assert(n.occupied(0));
    assert(n_new.wf()) by {
        if n.node_type() == NodeType::Terminator {
            assert(n_new.occupied(0));
            assert(n_new.occupied(1));
            assert(!n_new.occupied(2));
        } else {
            assert(n.occupied(1));
            assert(n_new.occupied(0));
            assert(n_new.occupied(1));
            assert(n_new.occupied(2));
        }
    }
    assert forall|i: int| 0 <= i < after.edges.len() implies (#[trigger] after.edges[i]).wf() by {
        assert(sv.edges[i].wf());
    }
    assert forall|j: int| 0 <= j < after.nodes.len() implies (#[trigger] after.nodes[j]).wf()
        && after.nodes[j].name.len() > 0 by {
        assert(sv.nodes[j].wf());
    }
    assert forall|i: int, x: int| 0 <= i < after.edges.len() && 0 <= x < NUM_ENDS implies #[trigger] after.end_linked(
        i,
        x,
    ) by {
        let here = EdgeEndView { edge: sv.edges[i].name, end: x as End };
        let to = after.edges[i].ends[x];
        assert(to == sv.joined_ref(s1, s2, i, x));
        assert(sv.end_linked(i, x));
        if to.node == at.node {
            assert(after.node(to.node) == n_new);
            if to == sv.edges[i].ends[x] && here != s2 {
                assert(n.occupied(to.slot as int));
            }
        } else {
            lemma_contained_has_first(sv.node_names(), to.node);
            assert(after.node(to.node) == sv.node(to.node));
        }
    }
    assert forall|j: int, k: int| 0 <= j < after.nodes.len() && 0 <= k < NUM_SLOTS implies #[trigger] after.slot_known(
        j,
        k,
    ) by {
        assert(sv.slot_known(j, k));
        if j == j1 {
            assert(sv.slot_known(j, 0));
            assert(sv.slot_known(j, 1));
            assert(sv.slot_known(j, 2));
        }
    }
    assert forall|i: int| 0 <= i < after.edges.len() implies #[trigger] after.carries_known(i) by {
        assert(sv.carries_known(i));
    }
    assert forall|t: int| 0 <= t < after.trains.len() implies #[trigger] after.stands_known(t) by {
        assert(sv.stands_known(t));
        if sv.trains[t].is_placed() {
            lemma_contained_has_first(sv.edge_names(), sv.trains[t].edge.edge);
        }
    }
}

impl System {
    /// Joins the open segment end `s2` to the node at the segment end `s1`.
    /// Both must be ends of segments of the network, and the node at `s2`
    /// must be a bare terminator. A junction takes no more segments. On
    /// failure nothing has changed.
    pub fn connect_segments(&mut self, s1: &EdgeEnd, s2: &EdgeEnd) -> (done: Result<(), TrackError>)
        requires
            old(self)@.wf(),
        ensures
            done == old(self)@.connect_outcome(s1@, s2@),
            done is Ok ==> final(self)@ == old(self)@.connected(s1@, s2@),
            done is Err ==> *final(self) == *old(self),
            final(self)@.wf(),
    {
        let ghost sv = self@;
        // If either track is invalid, there is nothing more to do.
        let i1 = match self.edge_position(&s1.ee_edge) {
            None => {
                return Err(TrackError::NotFound);
            },
            Some(i) => i,
        };
        let i2 = match self.edge_position(&s2.ee_edge) {
            None => {
                return Err(TrackError::NotFound);
            },
            Some(i) => i,
        };
        if s1.ee_end >= NUM_ENDS || s2.ee_end >= NUM_ENDS {
            return Err(TrackError::NotFound);
        }
        proof {
            lemma_end_linked(sv, s1@);
            lemma_end_linked(sv, s2@);
        }
        let cnct_node = self.edges[i1].get_node(s1.ee_end);
        let rmov_node = self.edges[i2].get_node(s2.ee_end);

        // The end of the other track must be a terminator: unconnected.
        match self.node_position(&rmov_node.ns_node) {
            None => {
                assert(false);
                return Err(TrackError::Corrupt);
            },
            Some(j) => {
                if self.nodes[j].get_node_type() != NodeType::Terminator {
                    return Err(TrackError::EndOccupied);
                }
            },
        }
        let j1 = match self.node_position(&cnct_node.ns_node) {
            None => {
                assert(false);
                return Err(TrackError::Corrupt);
            },
            Some(j) => j,
        };
        let ghost n = sv.nodes[j1 as int];
        assert(n == sv.node(cnct_node@.node));
        assert(self.nodes@[j1 as int]@ == n);

        // Connect to the other track as implied by this track's connection.
        match self.nodes[j1].get_node_type() {
            NodeType::Terminator => {
                // Connect results in a continuation node.
                self.nodes[j1].make_continuation(s2);
                assert(self.nodes@[j1 as int]@ == sv.joined_node(s1@, s2@));

                // Replace the other edge's node slot entry.
                let repl_node = NodeSlot { ns_node: self.nodes[j1].name.clone(), ns_slot: SLOT_2 };
                self.edges[i2].assign_node_slot(&repl_node, s2.ee_end);
            },
            NodeType::Continuation => {
                // This connection results in a junction from this track to
                // the currently connected track (left) or to the new track
                // (right).
                if cnct_node.ns_slot == SLOT_2 {
                    // The common edge is on the second slot: swap the first
                    // two. Both the node's slots and the two edges' records
                    // are updated together.
                    let e1 = self.nodes[j1].get_edge_end(SLOT_1);
                    let e2 = self.nodes[j1].get_edge_end(SLOT_2);
                    assert(sv.slot_known(j1 as int, 0));
                    assert(n.occupied(0));
                    let ia = match self.edge_position(&e1.ee_edge) {
                        None => {
                            assert(false);
                            return Err(TrackError::Corrupt);
                        },
                        Some(i) => i,
                    };
                    let back = self.edges[ia].get_node(e1.ee_end);
                    if !(back.ns_slot == SLOT_1 && back.ns_node == self.nodes[j1].name) {
                        return Err(TrackError::Corrupt);
                    }
                    assert(e2@ == s1@);
                    let to_second = NodeSlot { ns_node: back.ns_node, ns_slot: SLOT_2 };
                    self.edges[ia].assign_node_slot(&to_second, e1.ee_end);
                    let to_first = NodeSlot { ns_node: cnct_node.ns_node, ns_slot: SLOT_1 };
                    self.edges[i1].assign_node_slot(&to_first, e2.ee_end);
                    self.nodes[j1].set_edge_end(&e1, SLOT_2);
                    self.nodes[j1].set_edge_end(&e2, SLOT_1);
                }
                self.nodes[j1].make_junction(s2);
                assert(self.nodes@[j1 as int]@.slots =~= sv.joined_node(s1@, s2@).slots);
                assert(self.nodes@[j1 as int]@ == sv.joined_node(s1@, s2@));

                // Replace the other edge's node slot entry.
                let repl_node = NodeSlot { ns_node: self.nodes[j1].name.clone(), ns_slot: SLOT_3 };
                self.edges[i2].assign_node_slot(&repl_node, s2.ee_end);
            },
            NodeType::Junction => {
                // We cannot connect any more tracks to this end.
                return Err(TrackError::AtJunction);
            },
            NodeType::Empty => {
                return Err(TrackError::Corrupt);
            },
        }
        proof {
            let want = sv.connected(s1@, s2@);
            lemma_connect_keeps_wf(sv, s1@, s2@);
            assert forall|j: int| 0 <= j < sv.nodes.len() implies self@.nodes[j] == want.nodes[j] by {
                if j != j1 {
                    assert(self.nodes@[j] == old(self).nodes@[j]);
                }
            }
            assert(self@.nodes =~= want.nodes);
            assert forall|i: int| 0 <= i < sv.edges.len() implies self@.edges[i] == want.edges[i] by {
                lemma_index_of_distinct(sv.edge_names(), i);
                assert(sv.edges[i].wf());
                assert(self@.edges[i].ends =~= want.edges[i].ends);
            }
            assert(self@.edges =~= want.edges);
        }
        Ok(())
    }
}

} // verus!
