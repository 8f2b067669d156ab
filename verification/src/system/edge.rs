//! Track segments: two ends, each attached to a slot of a node, an optional
//! signal at each end, and the train that is on the segment, if any.

use vstd::prelude::*;
use crate::common::{
    End, EdgeEnd, EdgeEndView, JSwitch, NodeSlot, NodeSlotView, NodeType, Slot, TrackError, END_A, END_B,
    NUM_ENDS, NUM_SLOTS, SLOT_1, SLOT_2, SLOT_3,
};
use crate::system::edge::rrsignal::{RRsignal, SignalView};
use crate::system::node::{Node, NodeView};
use crate::system::{System, SystemView};

pub mod rrsignal;

verus! {

/// A track segment. `ends` and `signals` are indexed by `END_A` and `END_B`;
/// `train` is the name of the train on the segment, empty when there is
/// none.
#[derive(Clone, Debug, PartialEq, Eq)]
pub struct Edge {
    pub name: String,
    pub ends: [NodeSlot; NUM_ENDS],
    pub signals: [RRsignal; NUM_ENDS],
    pub train: String,
}

/// Mathematical value of an `Edge`. No train is on the segment when `train`
/// is empty.
pub struct EdgeView {
    pub name: Seq<char>,
    pub ends: Seq<NodeSlotView>,
    pub signals: Seq<SignalView>,
    pub train: Seq<char>,
}

impl View for Edge {
    type V = EdgeView;

    open spec fn view(&self) -> EdgeView {
        EdgeView {
            name: self.name@,
            ends: Seq::new(NUM_ENDS as nat, |x: int| self.ends[x]@),
            signals: Seq::new(NUM_ENDS as nat, |x: int| self.signals[x]@),
            train: self.train@,
        }
    }
}

impl EdgeView {
    /// A segment called `name` between the trunk slots of the nodes `a` and
    /// `b`, without signals or train.
    pub open spec fn fresh(name: Seq<char>, a: Seq<char>, b: Seq<char>) -> EdgeView {
        EdgeView {
            name,
            ends: seq![
                NodeSlotView { node: a, slot: SLOT_1 },
                NodeSlotView { node: b, slot: SLOT_1 },
            ],
            signals: seq![SignalView::unplaced(), SignalView::unplaced()],
            train: Seq::<char>::empty(),
        }
    }

    /// A valid segment: it has a name, two ends and two signal places, and
    /// each end refers to one of the three slots of a node.
    pub open spec fn wf(self) -> bool {
        &&& self.name.len() > 0
        &&& self.ends.len() == NUM_ENDS
        &&& self.signals.len() == NUM_ENDS
        &&& forall|x: int| 0 <= x < NUM_ENDS ==> (#[trigger] self.ends[x]).slot < NUM_SLOTS
    }

    /// A signal stands at end `x`.
    pub open spec fn has_signal(self, x: int) -> bool {
        self.signals[x].is_placed()
    }

    /// A train is on the segment.
    pub open spec fn is_occupied(self) -> bool {
        self.train.len() > 0
    }

    /// The segment with end `x` attached to `to`.
    pub open spec fn with_end(self, x: int, to: NodeSlotView) -> EdgeView {
        EdgeView { ends: self.ends.update(x, to), ..self }
    }

    /// The segment with `signal` at end `x`.
    pub open spec fn with_signal(self, x: int, signal: SignalView) -> EdgeView {
        EdgeView { signals: self.signals.update(x, signal), ..self }
    }

    /// The segment with `train` on it; an empty name clears it.
    pub open spec fn with_train(self, train: Seq<char>) -> EdgeView {
        EdgeView { train, ..self }
    }

    /// The signal as it stands once placed at end `x`: bound to this end,
    /// its colour as it was.
    pub open spec fn placed_signal(self, x: int) -> SignalView {
        SignalView {
            is_red: self.signals[x].is_red,
            edge: EdgeEndView { edge: self.name, end: x as End },
        }
    }
}

/// The name of the segment that `held` refers to, or `<empty>` where it
/// refers to none.
pub open spec fn name_or_empty(held: EdgeEndView) -> Seq<char> {
    if held.is_set() {
        held.edge
    } else {
        "<empty>"@
    }
}

/// How the signal place at end A reads: `_` without a signal, else `R` or
/// `G` for its colour.
pub open spec fn signal_mark_a(signal: SignalView) -> Seq<char> {
    if !signal.is_placed() {
        "_ "@
    } else if signal.is_red {
        "R "@
    } else {
        "G "@
    }
}

/// How the signal place at end B reads.
pub open spec fn signal_mark_b(signal: SignalView) -> Seq<char> {
    if !signal.is_placed() {
        " _"@
    } else if signal.is_red {
        " R"@
    } else {
        " G"@
    }
}

/// The switch as drawn towards the right: slashes for the left branch,
/// backslashes for the right one, crosses for none.
pub open spec fn switch_mark_right(sw: JSwitch) -> Seq<char> {
    match sw {
        JSwitch::JSwitchNone => " XX"@,
        JSwitch::JSwitchLeft => " //"@,
        JSwitch::JSwitchRight => " \\\\"@,
    }
}

/// The switch as drawn towards the left.
pub open spec fn switch_mark_left(sw: JSwitch) -> Seq<char> {
    match sw {
        JSwitch::JSwitchNone => "XX "@,
        JSwitch::JSwitchLeft => "// "@,
        JSwitch::JSwitchRight => "\\\\ "@,
    }
}

impl NodeView {
    /// The branch slot that the switch selects; the left one where the
    /// switch has no position.
    pub open spec fn selected_branch(self) -> Slot {
        if self.switch_state == JSwitch::JSwitchRight {
            SLOT_3
        } else {
            SLOT_2
        }
    }

    /// What stands before a segment whose end A is attached to slot `slot`
    /// of this node. A terminator shows as a buffer stop and a continuation
    /// as the segment that follows. At a junction, the trunk shows the
    /// branch that the switch selects, and a branch shows the trunk and
    /// whether the switch leads to it.
    pub open spec fn glyph_a(self, slot: Slot) -> Seq<char> {
        match self.node_type() {
            NodeType::Empty => Seq::<char>::empty(),
            NodeType::Terminator => "<term-> ||== "@,
            NodeType::Continuation => self.next(slot).edge + " <==> "@,
            NodeType::Junction => {
                if slot == SLOT_1 {
                    name_or_empty(self.slots[self.selected_branch() as int]) + switch_mark_right(
                        self.switch_state,
                    ) + "=> "@
                } else {
                    name_or_empty(self.slots[SLOT_1 as int]) + (if self.selected_branch() == slot {
                        " <="@
                    } else {
                        " X="@
                    }) + switch_mark_left(self.switch_state)
                }
            },
        }
    }

    /// What stands behind a segment whose end B is attached to slot `slot`
    /// of this node: the same as before end A, mirrored.
    pub open spec fn glyph_b(self, slot: Slot) -> Seq<char> {
        match self.node_type() {
            NodeType::Empty => Seq::<char>::empty(),
            NodeType::Terminator => " ==|| <-term>"@,
            NodeType::Continuation => " <==> "@ + self.next(slot).edge,
            NodeType::Junction => {
                if slot == SLOT_1 {
                    " <="@ + switch_mark_left(self.switch_state) + name_or_empty(
                        self.slots[self.selected_branch() as int],
                    )
                } else {
                    switch_mark_right(self.switch_state) + (if self.selected_branch() == slot {
                        "=> "@
                    } else {
                        "=X "@
                    }) + name_or_empty(self.slots[SLOT_1 as int])
                }
            },
        }
    }
}

impl SystemView {
    /// The train on `edge`, drawn as two cars with the engine at the end it
    /// is heading for, and its name. Empty without a train that the network
    /// knows.
    pub open spec fn train_mark(self, edge: EdgeView) -> Seq<char> {
        if edge.is_occupied() && self.has_train(edge.train) {
            (if self.train(edge.train).edge.end == END_A {
                "  /[o==o]-[o==o]  "@
            } else {
                "   [o==o]-[o==o]\\ "@
            }) + self.train(edge.train).name
        } else {
            Seq::<char>::empty()
        }
    }

    /// The part of the line before the segment's name, where end A is
    /// asked for.
    pub open spec fn line_part_a(self, edge: EdgeView, show_end: End) -> Seq<char> {
        if show_end == END_A || show_end == NUM_ENDS {
            let at = self.edge(edge.name).ends[END_A as int];
            self.node(at.node).glyph_a(at.slot) + signal_mark_a(edge.signals[END_A as int])
        } else {
            Seq::<char>::empty()
        }
    }

    /// The part of the line behind the segment's name, where end B is asked
    /// for.
    pub open spec fn line_part_b(self, edge: EdgeView, show_end: End) -> Seq<char> {
        if show_end == END_B || show_end == NUM_ENDS {
            let at = self.edge(edge.name).ends[END_B as int];
            signal_mark_b(edge.signals[END_B as int]) + self.node(at.node).glyph_b(at.slot)
        } else {
            Seq::<char>::empty()
        }
    }

    /// A node that the line has to show is missing from the network.
    pub open spec fn line_lacks_node(self, edge: EdgeView, show_end: End) -> bool {
        let ends = self.edge(edge.name).ends;
        ||| (show_end == END_A || show_end == NUM_ENDS) && !self.has_node(ends[END_A as int].node)
        ||| (show_end == END_B || show_end == NUM_ENDS) && !self.has_node(ends[END_B as int].node)
    }

    /// The one-line description of `edge`, for end A, for end B, or with
    /// `NUM_ENDS` for both. The attachments are those that the network
    /// records under the segment's name; signals and train are those of
    /// `edge`.
    pub open spec fn edge_line(self, edge: EdgeView, show_end: End) -> Result<Seq<char>, TrackError> {
        if !self.has_edge(edge.name) {
            Err(TrackError::NotFound)
        } else if self.line_lacks_node(edge, show_end) {
            Err(TrackError::Corrupt)
        } else {
            Ok(
                self.line_part_a(edge, show_end) + edge.name + self.line_part_b(edge, show_end)
                    + self.train_mark(edge),
            )
        }
    }
}

/// Text for `name_or_empty`.
fn held_name(held: &EdgeEnd) -> (text: String)
    ensures
        text@ == name_or_empty(held@),
{
    if held.ee_edge.as_str().is_empty() {
        String::from_str("<empty>")
    } else {
        held.ee_edge.clone()
    }
}

/// Text for `signal_mark_a`.
fn signal_text_a(signal: &RRsignal) -> (text: &'static str)
    ensures
        text@ == signal_mark_a(signal@),
{
    if signal.edge.ee_edge.as_str().is_empty() {
        "_ "
    } else if signal.signal_is_red() {
        "R "
    } else {
        "G "
    }
}

/// Text for `signal_mark_b`.
fn signal_text_b(signal: &RRsignal) -> (text: &'static str)
    ensures
        text@ == signal_mark_b(signal@),
{
    if signal.edge.ee_edge.as_str().is_empty() {
        " _"
    } else if signal.signal_is_red() {
        " R"
    } else {
        " G"
    }
}

/// Text for `switch_mark_right`.
fn switch_text_right(sw: JSwitch) -> (text: &'static str)
    ensures
        text@ == switch_mark_right(sw),
{
    match sw {
        JSwitch::JSwitchNone => " XX",
        JSwitch::JSwitchLeft => " //",
        JSwitch::JSwitchRight => " \\\\",
    }
}

/// Text for `switch_mark_left`.
fn switch_text_left(sw: JSwitch) -> (text: &'static str)
    ensures
        text@ == switch_mark_left(sw),
{
    match sw {
        JSwitch::JSwitchNone => "XX ",
        JSwitch::JSwitchLeft => "// ",
        JSwitch::JSwitchRight => "\\\\ ",
    }
}

/// Text for `NodeView::glyph_a`.
fn glyph_text_a(n: &Node, slot: Slot) -> (text: String)
    ensures
        text@ == n@.glyph_a(slot),
{
    match n.get_node_type() {
        NodeType::Empty => String::new(),
        NodeType::Terminator => String::from_str("<term-> ||== "),
        NodeType::Continuation => {
            let edge = n.get_next(slot);
            let mut text = edge.ee_edge;
            text.append(" <==> ");
            text
        },
        NodeType::Junction => {
            let sw = n.get_switch_pos();
            let branch: Slot = if sw == JSwitch::JSwitchRight {
                SLOT_3
            } else {
                SLOT_2
            };
            if slot == SLOT_1 {
                let edge = n.get_edge_end(branch);
                let mut text = held_name(&edge);
                text.append(switch_text_right(sw));
                text.append("=> ");
                text
            } else {
                let edge = n.get_edge_end(SLOT_1);
                let mut text = held_name(&edge);
                if branch == slot {
                    text.append(" <=");
                } else {
                    text.append(" X=");
                }
                text.append(switch_text_left(sw));
                text
            }
        },
    }
}

/// Text for `NodeView::glyph_b`.
fn glyph_text_b(n: &Node, slot: Slot) -> (text: String)
    ensures
        text@ == n@.glyph_b(slot),
{
    match n.get_node_type() {
        NodeType::Empty => String::new(),
        NodeType::Terminator => String::from_str(" ==|| <-term>"),
        NodeType::Continuation => {
            let edge = n.get_next(slot);
            let mut text = String::from_str(" <==> ");
            text.append(edge.ee_edge.as_str());
            text
        },
        NodeType::Junction => {
            let sw = n.get_switch_pos();
            let branch: Slot = if sw == JSwitch::JSwitchRight {
                SLOT_3
            } else {
                SLOT_2
            };
            if slot == SLOT_1 {
                let mut text = String::from_str(" <=");
                let edge = n.get_edge_end(branch);
                text.append(switch_text_left(sw));
                text.append(held_name(&edge).as_str());
                text
            } else {
                let mut text = String::from_str(switch_text_right(sw));
                if branch == slot {
                    text.append("=> ");
                } else {
                    text.append("=X ");
                }
                let edge = n.get_edge_end(SLOT_1);
                text.append(held_name(&edge).as_str());
                text
            }
        },
    }
}

/// Text for `SystemView::train_mark`.
fn train_text(sys: &System, edge: &Edge) -> (text: String)
    ensures
        text@ == sys@.train_mark(edge@),
{
    if !edge.train.as_str().is_empty() {
        if let Some(tref) = sys.get_train(&edge.train) {
            let tpos = tref.get_position();
            let mut text = if tpos.ee_end == END_A {
                String::from_str("  /[o==o]-[o==o]  ")
            } else {
                String::from_str("   [o==o]-[o==o]\\ ")
            };
            text.append(tref.name.as_str());
            return text;
        }
    }
    String::new()
}

impl Edge {
    /// The signal place at `end`, for reading or changing.
    pub fn get_signal(&mut self, end: End) -> (signal: &mut RRsignal)
        requires
            end < NUM_ENDS,
        ensures
            signal@ == old(self)@.signals[end as int],
            final(self)@.name == old(self)@.name,
            final(self)@.ends == old(self)@.ends,
            final(self)@.train == old(self)@.train,
            final(self)@.signals =~= old(self)@.signals.update(end as int, final(signal)@),
    {
        &mut self.signals[end]
    }

    /// Places a signal at `end`, unless one stands there already.
    pub fn place_signal_light(&mut self, end: End) -> (placed: Result<(), TrackError>)
        requires
            end < NUM_ENDS,
        ensures
            old(self)@.has_signal(end as int) ==> placed == Err::<(), TrackError>(
                TrackError::SignalPresent,
            ) && *final(self) == *old(self),
            !old(self)@.has_signal(end as int) ==> placed is Ok && final(self)@ == old(self)@.with_signal(
                end as int,
                old(self)@.placed_signal(end as int),
            ),
    {
        if self.signals[end].edge.ee_edge.as_str().is_empty() {
            self.signals[end].edge.ee_edge = self.name.clone();
            self.signals[end].edge.ee_end = end;
            assert(self@.signals =~= old(self)@.signals.update(
                end as int,
                old(self)@.placed_signal(end as int),
            ));
            assert(self@.ends =~= old(self)@.ends);
            return Ok(());
        }
        Err(TrackError::SignalPresent)
    }

    /// Name of the train on the segment; empty when there is none.
    pub fn get_train(&self) -> (train: &String)
        ensures
            train@ == self@.train,
    {
        &self.train
    }

    /// Records `train` as the train on the segment; an empty name clears it.
    pub fn set_train(&mut self, train: &str)
        ensures
            final(self)@ == old(self)@.with_train(train@),
    {
        self.train = train.to_owned();
        assert(self@.ends =~= old(self)@.ends);
        assert(self@.signals =~= old(self)@.signals);
    }

    /// The node slot that `end` is attached to.
    pub fn get_node(&self, end: End) -> (at: NodeSlot)
        requires
            end < NUM_ENDS,
        ensures
            at@ == self@.ends[end as int],
    {
        NodeSlot { ns_node: self.ends[end].ns_node.clone(), ns_slot: self.ends[end].ns_slot }
    }

    /// The node slot that the end opposite to `end` is attached to.
    pub fn get_adjacent(&self, end: End) -> (at: NodeSlot)
        requires
            end < NUM_ENDS,
        ensures
            at@ == self@.ends[1 - end],
    {
        if end == END_A {
            self.get_node(END_B)
        } else {
            self.get_node(END_A)
        }
    }

    /// Attaches end `node_end` to the node slot `node`.
    pub fn assign_node_slot(&mut self, node: &NodeSlot, node_end: End)
        requires
            node_end < NUM_ENDS,
        ensures
            final(self)@ == old(self)@.with_end(node_end as int, node@),
    {
        self.ends[node_end].ns_node = node.ns_node.clone();
        self.ends[node_end].ns_slot = node.ns_slot;
        assert(self@.ends =~= old(self)@.ends.update(node_end as int, node@));
        assert(self@.signals =~= old(self)@.signals);
    }

    /// The one-line description of the segment as it lies in `sys`: what
    /// follows at each end that `show_end` asks for, the signals there, the
    /// segment's name, and the train on it. `show_end` is `END_A`, `END_B`,
    /// or `NUM_ENDS` for both.
    pub fn show(&self, sys: &System, show_end: End) -> (line: Result<String, TrackError>)
        ensures
            match line {
                Ok(text) => sys@.edge_line(self@, show_end) == Ok::<Seq<char>, TrackError>(text@),
                Err(e) => sys@.edge_line(self@, show_end) == Err::<Seq<char>, TrackError>(e),
            },
    {
        let show_edge = match sys.get_edge(&self.name) {
            None => {
                return Err(TrackError::NotFound);
            },
            Some(e) => e,
        };
        let mut msg = String::new();
        if show_end == END_A || show_end == NUM_ENDS {
            let node = &show_edge.ends[END_A];
            assert(node@ == show_edge@.ends[END_A as int]);
            match sys.find_node(&node.ns_node) {
                None => {
                    return Err(TrackError::Corrupt);
                },
                Some(n) => {
                    msg = glyph_text_a(n, node.ns_slot);
                },
            }
            msg.append(signal_text_a(&self.signals[END_A]));
        }
        msg.append(self.name.as_str());

        let mut behind = String::new();
        if show_end == END_B || show_end == NUM_ENDS {
            behind.append(signal_text_b(&self.signals[END_B]));
            let node = &show_edge.ends[END_B];
            assert(node@ == show_edge@.ends[END_B as int]);
            match sys.find_node(&node.ns_node) {
                None => {
                    return Err(TrackError::Corrupt);
                },
                Some(n) => {
                    behind.append(glyph_text_b(n, node.ns_slot).as_str());
                },
            }
            assert(behind@ =~= sys@.line_part_b(self@, show_end));
        }
        msg.append(behind.as_str());
        msg.append(train_text(sys, self).as_str());
        Ok(msg)
    }
}

} // verus!
