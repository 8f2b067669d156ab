//! Vocabulary shared by every part of the track network: node kinds, switch
//! positions, slot and end indices, the two kinds of cross-reference, and the
//! failure conditions that operations report.

use vstd::prelude::*;

verus! {

/// What a connection point is, going by how many segments meet there.
#[derive(Clone, Copy, Debug, PartialEq, Eq, Structural)]
pub enum NodeType {
    /// No segment is attached.
    Empty,
    /// One segment ends here.
    Terminator,
    /// Two segments are joined here.
    Continuation,
    /// A trunk segment and two branches meet here.
    Junction,
}

/// Position of the switch at a junction.
#[derive(Clone, Copy, Debug, PartialEq, Eq, Structural)]
pub enum JSwitch {
    /// No position: the node is not a junction.
    JSwitchNone,
    /// The trunk leads to the left branch.
    JSwitchLeft,
    /// The trunk leads to the right branch.
    JSwitchRight,
}

/// Index of one of the three attachment points of a node. At a junction
/// `SLOT_1` is the trunk, `SLOT_2` the left branch and `SLOT_3` the right one.
pub type Slot = usize;

/// The first slot: the trunk of a junction.
pub const SLOT_1: Slot = 0;

/// The second slot: the left branch of a junction.
pub const SLOT_2: Slot = 1;

/// The third slot: the right branch of a junction.
pub const SLOT_3: Slot = 2;

/// How many slots a node has.
pub const NUM_SLOTS: Slot = 3;

/// Index of one of the two ends of a segment. `NUM_ENDS` stands for "no end"
/// in a reference that leads nowhere, and for "both ends" in a request.
pub type End = usize;

/// The first end of a segment.
pub const END_A: End = 0;

/// The second end of a segment.
pub const END_B: End = 1;

/// How many ends a segment has.
pub const NUM_ENDS: End = 2;

/// Reference from a segment end to the slot of the node it is attached to.
#[derive(Clone, Debug, PartialEq, Eq)]
pub struct NodeSlot {
    pub ns_node: String,
    pub ns_slot: Slot,
}

/// Reference from a node slot to the segment end attached there.
#[derive(Clone, Debug, PartialEq, Eq)]
pub struct EdgeEnd {
    pub ee_edge: String,
    pub ee_end: End,
}

/// Why an operation on the network was refused.
#[derive(Clone, Copy, Debug, PartialEq, Eq, Structural)]
pub enum TrackError {
    /// A segment, segment end, node or train that was named does not exist.
    NotFound,
    /// The segment end to attach is already connected elsewhere.
    EndOccupied,
    /// The node already joins three segments.
    AtJunction,
    /// A signal already stands at that segment end.
    SignalPresent,
    /// Another train is on that segment.
    SegmentOccupied,
    /// A back-reference between a node and a segment was found broken.
    Corrupt,
}

/// Mathematical value of a `NodeSlot`.
pub struct NodeSlotView {
    pub node: Seq<char>,
    pub slot: Slot,
}

/// Mathematical value of an `EdgeEnd`.
pub struct EdgeEndView {
    pub edge: Seq<char>,
    pub end: End,
}

impl View for NodeSlot {
    type V = NodeSlotView;

    open spec fn view(&self) -> NodeSlotView {
        NodeSlotView { node: self.ns_node@, slot: self.ns_slot }
    }
}

impl View for EdgeEnd {
    type V = EdgeEndView;

    open spec fn view(&self) -> EdgeEndView {
        EdgeEndView { edge: self.ee_edge@, end: self.ee_end }
    }
}

impl EdgeEndView {
    /// The reference that leads nowhere: no segment name, no end.
    pub open spec fn nowhere() -> EdgeEndView {
        EdgeEndView { edge: Seq::<char>::empty(), end: NUM_ENDS }
    }

    /// What an empty slot holds: no segment name.
    pub open spec fn unset() -> EdgeEndView {
        EdgeEndView { edge: Seq::<char>::empty(), end: END_A }
    }

    /// A reference names a segment when its name is not empty.
    pub open spec fn is_set(self) -> bool {
        self.edge.len() > 0
    }
}

impl JSwitch {
    /// The other branch; a node without a switch position keeps none.
    pub open spec fn toggled(self) -> JSwitch {
        match self {
            JSwitch::JSwitchNone => JSwitch::JSwitchNone,
            JSwitch::JSwitchLeft => JSwitch::JSwitchRight,
            JSwitch::JSwitchRight => JSwitch::JSwitchLeft,
        }
    }
}

} // verus!
