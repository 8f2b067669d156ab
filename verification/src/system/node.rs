//! Connection points: up to three slots, each holding the segment end that is
//! attached there, and a switch position once three segments meet.

use vstd::prelude::*;
use crate::common::{
    EdgeEnd, EdgeEndView, JSwitch, NodeType, Slot, NUM_ENDS, NUM_SLOTS, SLOT_1, SLOT_2, SLOT_3,
};
use crate::system::{System, SystemView};
use crate::text::{right_align, right_aligned};

verus! {

/// A connection point. `slots` is indexed by `SLOT_1` to `SLOT_3`; a slot
/// is empty when it names no segment.
#[derive(Clone, Debug, PartialEq, Eq)]
pub struct Node {
    pub name: String,
    pub slots: [EdgeEnd; NUM_SLOTS],
    pub switch_state: JSwitch,
}

/// Mathematical value of a `Node`.
pub struct NodeView {
    pub name: Seq<char>,
    pub slots: Seq<EdgeEndView>,
    pub switch_state: JSwitch,
}

impl View for Node {
    type V = NodeView;

    open spec fn view(&self) -> NodeView {
        NodeView {
            name: self.name@,
            slots: Seq::new(NUM_SLOTS as nat, |k: int| self.slots[k]@),
            switch_state: self.switch_state,
        }
    }
}

impl NodeView {
    /// A node called `name` with nothing attached.
    pub open spec fn fresh(name: Seq<char>) -> NodeView {
        NodeView {
            name,
            slots: Seq::new(NUM_SLOTS as nat, |k: int| EdgeEndView::unset()),
            switch_state: JSwitch::JSwitchNone,
        }
    }

    /// A node called `name` at which the segment end `e` ends.
    pub open spec fn terminator(name: Seq<char>, e: EdgeEndView) -> NodeView {
        NodeView::fresh(name).with_slot(SLOT_1 as int, e)
    }

    /// Slot `k` holds a segment end.
    pub open spec fn occupied(self, k: int) -> bool {
        self.slots[k].is_set()
    }

    /// The slots before `k` are all occupied.
    pub open spec fn filled_upto(self, k: int) -> bool {
        forall|m: int| 0 <= m < k ==> #[trigger] self.occupied(m)
    }

    /// How many of the three slots hold a segment end.
    pub open spec fn occupied_count(self) -> nat {
        (if self.occupied(0) { 1nat } else { 0nat })
            + (if self.occupied(1) { 1nat } else { 0nat })
            + (if self.occupied(2) { 1nat } else { 0nat })
    }

    /// No slot is occupied while the one before it is empty.
    pub open spec fn contiguous(self) -> bool {
        &&& self.occupied(SLOT_2 as int) ==> self.occupied(SLOT_1 as int)
        &&& self.occupied(SLOT_3 as int) ==> self.occupied(SLOT_2 as int)
    }

    /// The kind of the node, read off the highest occupied slot.
    pub open spec fn node_type(self) -> NodeType {
        if self.occupied(SLOT_3 as int) {
            NodeType::Junction
        } else if self.occupied(SLOT_2 as int) {
            NodeType::Continuation
        } else if self.occupied(SLOT_1 as int) {
            NodeType::Terminator
        } else {
            NodeType::Empty
        }
    }

    /// Every occupied slot names one of the two ends of its segment.
    pub open spec fn ends_valid(self) -> bool {
        forall|k: int| 0 <= k < NUM_SLOTS && #[trigger] self.occupied(k) ==> self.slots[k].end < NUM_ENDS
    }

    /// Writing `e` to slot `k` leaves no gap: a segment end comes to lie
    /// next to an occupied slot or in the first slot, and a slot is emptied
    /// only where none behind it is occupied.
    pub open spec fn fits(self, k: int, e: EdgeEndView) -> bool {
        if e.is_set() {
            k == SLOT_1 || self.occupied(k - 1)
        } else {
            k == SLOT_3 || !self.occupied(k + 1)
        }
    }

    /// The node leads somewhere or is a dead end: a segment is attached,
    /// and a junction has its switch in a position.
    pub open spec fn routes(self) -> bool {
        &&& self.node_type() != NodeType::Empty
        &&& self.node_type() == NodeType::Junction ==> self.switch_state != JSwitch::JSwitchNone
    }

    /// The kind of a node with `count` segments attached.
    pub open spec fn type_of_count(count: nat) -> NodeType {
        if count == 0 {
            NodeType::Empty
        } else if count == 1 {
            NodeType::Terminator
        } else if count == 2 {
            NodeType::Continuation
        } else {
            NodeType::Junction
        }
    }

    /// A valid node: three slots filled in order, each occupied slot naming
    /// a real end, and a switch position exactly when it is a junction.
    pub open spec fn wf(self) -> bool {
        &&& self.slots.len() == NUM_SLOTS
        &&& self.contiguous()
        &&& self.ends_valid()
        &&& (self.node_type() == NodeType::Junction <==> self.switch_state != JSwitch::JSwitchNone)
    }

    /// The node with slot `k` holding `e`.
    pub open spec fn with_slot(self, k: int, e: EdgeEndView) -> NodeView {
        NodeView { slots: self.slots.update(k, e), ..self }
    }

    /// The node with its switch in position `s`.
    pub open spec fn with_switch(self, s: JSwitch) -> NodeView {
        NodeView { switch_state: s, ..self }
    }

    /// Where a traveller who arrives through `slot` goes on: the segment end
    /// in the slot that the node leads to, or nowhere when the way is
    /// blocked. A terminator is a dead end, a continuation joins its two
    /// slots, and a junction joins the trunk with the branch that the switch
    /// selects. Only a node that `routes` has a way on.
    pub open spec fn next(self, slot: Slot) -> EdgeEndView
        recommends
            self.routes(),
    {
        match self.node_type() {
            NodeType::Empty => EdgeEndView::nowhere(),
            NodeType::Terminator => EdgeEndView::nowhere(),
            NodeType::Continuation => {
                if slot == SLOT_1 {
                    self.slots[SLOT_2 as int]
                } else if slot == SLOT_2 {
                    self.slots[SLOT_1 as int]
                } else {
                    EdgeEndView::nowhere()
                }
            },
            NodeType::Junction => match self.switch_state {
                JSwitch::JSwitchLeft => {
                    if slot == SLOT_1 {
                        self.slots[SLOT_2 as int]
                    } else if slot == SLOT_2 {
                        self.slots[SLOT_1 as int]
                    } else {
                        EdgeEndView::nowhere()
                    }
                },
                JSwitch::JSwitchRight => {
                    if slot == SLOT_1 {
                        self.slots[SLOT_3 as int]
                    } else if slot == SLOT_3 {
                        self.slots[SLOT_1 as int]
                    } else {
                        EdgeEndView::nowhere()
                    }
                },
                JSwitch::JSwitchNone => EdgeEndView::nowhere(),
            },
        }
    }
}

/// The switch position in words.
pub open spec fn switch_word(sw: JSwitch) -> Seq<char> {
    match sw {
        JSwitch::JSwitchNone => ": none)"@,
        JSwitch::JSwitchLeft => ": left)"@,
        JSwitch::JSwitchRight => ": right)"@,
    }
}

impl SystemView {
    /// The name of the node at the far end of the segment that `held` is an
    /// end of.
    pub open spec fn far_node(self, held: EdgeEndView) -> Seq<char> {
        self.edge(held.edge).ends[1 - held.end].node
    }

    /// What the line of a node says of slot `k`: the node at the far end of
    /// the segment held there, ten characters wide, behind a comma for
    /// every slot but the first. Nothing where the network does not have
    /// the segment or the far end is not attached.
    pub open spec fn neighbour_entry(self, n: NodeView, k: int) -> Seq<char> {
        let held = n.slots[k];
        if self.has_edge(held.edge) && self.far_node(held).len() > 0 {
            (if k > 0 {
                ","@
            } else {
                Seq::<char>::empty()
            }) + right_aligned(self.far_node(held), 10)
        } else {
            Seq::<char>::empty()
        }
    }

    /// The line of a node up to and without slot `k`: its name, twelve
    /// characters wide, a colon, and the entries of the slots before `k`,
    /// ending at the first empty slot.
    pub open spec fn node_line_upto(self, n: NodeView, k: int) -> Seq<char>
        decreases k,
    {
        if k <= 0 {
            right_aligned(n.name, 12) + ":"@
        } else if n.filled_upto(k) {
            self.node_line_upto(n, k - 1) + self.neighbour_entry(n, k - 1)
        } else {
            self.node_line_upto(n, k - 1)
        }
    }

    /// The one-line description of a node: its name, the nodes next to it,
    /// and, where all three slots are occupied, the switch position.
    pub open spec fn node_line(self, n: NodeView) -> Seq<char> {
        if n.filled_upto(NUM_SLOTS as int) {
            self.node_line_upto(n, NUM_SLOTS as int) + right_aligned("(switch"@, 9) + switch_word(
                n.switch_state,
            )
        } else {
            self.node_line_upto(n, NUM_SLOTS as int)
        }
    }
}

impl Node {
    /// Attaches the first segment end to an empty node.
    pub fn make_terminator(&mut self, track: &EdgeEnd)
        requires
            old(self)@.node_type() == NodeType::Empty,
        ensures
            final(self)@ == old(self)@.with_slot(SLOT_1 as int, track@),
            final(self)@.contiguous(),
    {
        self.slots[SLOT_1] = EdgeEnd { ee_edge: track.ee_edge.clone(), ee_end: track.ee_end };
        assert(self@.slots =~= old(self)@.slots.update(SLOT_1 as int, track@));
    }

    /// Attaches a second segment end to a terminator.
    pub fn make_continuation(&mut self, track: &EdgeEnd)
        requires
            old(self)@.node_type() == NodeType::Terminator,
        ensures
            final(self)@ == old(self)@.with_slot(SLOT_2 as int, track@),
            final(self)@.contiguous(),
    {
        self.slots[SLOT_2] = EdgeEnd { ee_edge: track.ee_edge.clone(), ee_end: track.ee_end };
        assert(self@.slots =~= old(self)@.slots.update(SLOT_2 as int, track@));
    }

    /// Attaches a third segment end to a continuation and sets the switch to
    /// the left branch.
    pub fn make_junction(&mut self, track: &EdgeEnd)
        requires
            old(self)@.node_type() == NodeType::Continuation,
        ensures
            final(self)@ == old(self)@.with_slot(SLOT_3 as int, track@).with_switch(
                JSwitch::JSwitchLeft,
            ),
            old(self)@.contiguous() ==> final(self)@.contiguous(),
    {
        self.slots[SLOT_3] = EdgeEnd { ee_edge: track.ee_edge.clone(), ee_end: track.ee_end };
        self.switch_state = JSwitch::JSwitchLeft;
        assert(self@.slots =~= old(self)@.slots.update(SLOT_3 as int, track@));
    }

    /// The kind of the node, read off its slots: see `NodeView::node_type`.
    pub fn get_node_type(&self) -> (kind: NodeType)
        ensures
            kind == self@.node_type(),
    {
        if !self.slots[SLOT_3].ee_edge.as_str().is_empty() {
            return NodeType::Junction;
        }
        if !self.slots[SLOT_2].ee_edge.as_str().is_empty() {
            return NodeType::Continuation;
        }
        if !self.slots[SLOT_1].ee_edge.as_str().is_empty() {
            return NodeType::Terminator;
        }
        NodeType::Empty
    }

    /// A copy of what slot `slot` holds.
    pub fn get_edge_end(&self, slot: Slot) -> (held: EdgeEnd)
        requires
            slot < NUM_SLOTS,
        ensures
            held@ == self@.slots[slot as int],
    {
        EdgeEnd { ee_edge: self.slots[slot].ee_edge.clone(), ee_end: self.slots[slot].ee_end }
    }

    /// Overwrites slot `slot` with a copy of `edge`. The write must leave no
    /// gap among the slots.
    pub fn set_edge_end(&mut self, edge: &EdgeEnd, slot: Slot)
        requires
            slot < NUM_SLOTS,
            old(self)@.fits(slot as int, edge@),
        ensures
            final(self)@ == old(self)@.with_slot(slot as int, edge@),
            old(self)@.contiguous() ==> final(self)@.contiguous(),
    {
        self.slots[slot] = EdgeEnd { ee_edge: edge.ee_edge.clone(), ee_end: edge.ee_end };
        assert(self@.slots =~= old(self)@.slots.update(slot as int, edge@));
    }

    /// Routing through the node: see `NodeView::next`. The node has to
    /// hold a segment, and a junction needs its switch in a position.
    pub fn get_next(&self, slot: Slot) -> (onward: EdgeEnd)
        requires
            self@.node_type() != NodeType::Empty,
            self@.node_type() == NodeType::Junction ==> self@.switch_state != JSwitch::JSwitchNone,
        ensures
            onward@ == self@.next(slot),
    {
        match self.get_node_type() {
            NodeType::Empty => {
                assert(false);
                blocked()
            },
            NodeType::Terminator => blocked(),
            NodeType::Continuation => {
                if slot == SLOT_1 {
                    self.get_edge_end(SLOT_2)
                } else if slot == SLOT_2 {
                    self.get_edge_end(SLOT_1)
                } else {
                    blocked()
                }
            },
            NodeType::Junction => match self.switch_state {
                JSwitch::JSwitchLeft => {
                    if slot == SLOT_1 {
                        self.get_edge_end(SLOT_2)
                    } else if slot == SLOT_2 {
                        self.get_edge_end(SLOT_1)
                    } else {
                        blocked()
                    }
                },
                JSwitch::JSwitchRight => {
                    if slot == SLOT_1 {
                        self.get_edge_end(SLOT_3)
                    } else if slot == SLOT_3 {
                        self.get_edge_end(SLOT_1)
                    } else {
                        blocked()
                    }
                },
                JSwitch::JSwitchNone => {
                    assert(false);
                    blocked()
                },
            },
        }
    }

    /// The position of the switch.
    pub fn get_switch_pos(&self) -> (pos: JSwitch)
        ensures
            pos == self@.switch_state,
    {
        self.switch_state
    }

    /// Puts the switch in position `jsw`.
    pub fn set_switch_pos(&mut self, jsw: JSwitch)
        ensures
            final(self)@ == old(self)@.with_switch(jsw),
            final(self)@.contiguous() == old(self)@.contiguous(),
    {
        self.switch_state = jsw;
    }

    /// Moves the switch to the other branch. A node without a switch
    /// position keeps none.
    pub fn toggle_switch_pos(&mut self)
        ensures
            final(self)@ == old(self)@.with_switch(old(self)@.switch_state.toggled()),
            final(self)@.contiguous() == old(self)@.contiguous(),
    {
        self.switch_state = match self.switch_state {
            JSwitch::JSwitchNone => JSwitch::JSwitchNone,
            JSwitch::JSwitchLeft => JSwitch::JSwitchRight,
            JSwitch::JSwitchRight => JSwitch::JSwitchLeft,
        };
    }

    /// The one-line description of the node as it lies in `sys`: see
    /// `SystemView::node_line`.
    pub fn show(&self, sys: &System) -> (line: String)
        requires
            self@.ends_valid(),
        ensures
            line@ == sys@.node_line(self@),
    {
        let mut nstr = right_align(self.name.as_str(), 12);
        nstr.append(":");
        let mut ix: usize = 0;
        let mut open_end = false;
        while ix < NUM_SLOTS && !open_end
            invariant
                ix <= NUM_SLOTS,
                self@.ends_valid(),
                !open_end ==> self@.filled_upto(ix as int),
                open_end ==> !self@.filled_upto(NUM_SLOTS as int),
                open_end ==> nstr@ == sys@.node_line_upto(self@, NUM_SLOTS as int),
                !open_end ==> nstr@ == sys@.node_line_upto(self@, ix as int),
            decreases NUM_SLOTS - ix + (if open_end { 0int } else { 1int }),
        {
            let edge = &self.slots[ix].ee_edge;
            if !edge.as_str().is_empty() {
                assert(self@.occupied(ix as int));
                assert(self@.filled_upto(ix + 1));
                let ghost before = nstr@;
                if let Some(eref) = sys.get_edge(edge) {
                    let next = eref.get_adjacent(self.slots[ix].ee_end).ns_node;
                    if !next.as_str().is_empty() {
                        if ix > 0 {
                            nstr.append(",");
                        }
                        nstr.append(right_align(next.as_str(), 10).as_str());
                    }
                }
                assert(nstr@ =~= before + sys@.neighbour_entry(self@, ix as int));
                ix = ix + 1;
            } else {
                assert(!self@.occupied(ix as int));
                proof {
                    lemma_line_ends_at_gap(sys@, self@, ix as int, NUM_SLOTS as int);
                }
                open_end = true;
            }
        }

        // No slot was empty: the node is a junction.
        if !open_end {
            nstr.append(right_align("(switch", 9).as_str());
            match self.switch_state {
                JSwitch::JSwitchNone => nstr.append(": none)"),
                JSwitch::JSwitchLeft => nstr.append(": left)"),
                JSwitch::JSwitchRight => nstr.append(": right)"),
            }
        }
        nstr
    }
}

/// Behind an empty slot the line of a node gets no more entries.
proof fn lemma_line_ends_at_gap(sv: SystemView, n: NodeView, gap: int, k: int)
    requires
        0 <= gap <= k,
        !n.occupied(gap),
    ensures
        sv.node_line_upto(n, k) == sv.node_line_upto(n, gap),
        gap < k ==> !n.filled_upto(k),
    decreases k,
{
    if gap < k {
        assert(!n.filled_upto(k)) by {
            if n.filled_upto(k) {
                assert(n.occupied(gap));
            }
        }
        lemma_line_ends_at_gap(sv, n, gap, k - 1);
    }
}

/// The reference that leads nowhere.
fn blocked() -> (e: EdgeEnd)
    ensures
        e@ == EdgeEndView::nowhere(),
{
    EdgeEnd { ee_edge: String::new(), ee_end: NUM_ENDS }
}

} // verus!
