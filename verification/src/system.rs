//! The network itself: every segment, connection point and train, by name.
//!
//! Segments and nodes refer to each other by name. A segment end records the
//! node slot it is attached to, and that slot records the segment end in
//! turn; the network keeps the two in step.

use vstd::prelude::*;
use crate::common::{
    End, EdgeEnd, EdgeEndView, JSwitch, NodeSlot, NodeSlotView, NodeType, END_A, END_B, NUM_ENDS,
    NUM_SLOTS, SLOT_1,
};
use crate::system::edge::{Edge, EdgeView};
use crate::system::node::{Node, NodeView};
use crate::system::train::{Train, TrainView};
use crate::system::edge::rrsignal::{RRsignal, SignalView};
use crate::text::{
    first_free, lemma_first_free, lemma_first_free_exists, lemma_numbered_names_bound,
    lemma_numbered_nonempty, name_from_number, numbered, numbered_name, segment_name_from,
};

pub mod connect;
pub mod edge;
pub mod listing;
pub mod node;
pub mod train;

verus! {

/// A track network: its segments, its nodes and its trains, each kind in
/// the order of creation and under names that are unique within the kind.
#[derive(Clone, Debug, PartialEq, Eq)]
pub struct System {
    edges: Vec<Edge>,
    nodes: Vec<Node>,
    trains: Vec<Train>,
}

/// Mathematical value of a `System`: its segments, nodes and trains, each
/// kind in the order of creation.
pub struct SystemView {
    pub edges: Seq<EdgeView>,
    pub nodes: Seq<NodeView>,
    pub trains: Seq<TrainView>,
}

impl View for System {
    type V = SystemView;

    closed spec fn view(&self) -> SystemView {
        SystemView {
            edges: Seq::new(self.edges@.len(), |i: int| self.edges@[i]@),
            nodes: Seq::new(self.nodes@.len(), |i: int| self.nodes@[i]@),
            trains: Seq::new(self.trains@.len(), |i: int| self.trains@[i]@),
        }
    }
}

/// `i` is the first place in `names` where `name` stands.
pub open spec fn is_first(names: Seq<Seq<char>>, name: Seq<char>, i: int) -> bool {
    &&& 0 <= i < names.len()
    &&& names[i] == name
    &&& forall|j: int| 0 <= j < i ==> names[j] != name
}

/// The first place in `names` where `name` stands.
pub open spec fn first_index(names: Seq<Seq<char>>, name: Seq<char>) -> int {
    choose|i: int| is_first(names, name, i)
}

/// A first place is the first place.
pub proof fn lemma_first_index(names: Seq<Seq<char>>, name: Seq<char>, i: int)
    requires
        is_first(names, name, i),
    ensures
        first_index(names, name) == i,
        names.contains(name),
{
    let c = first_index(names, name);
    assert(is_first(names, name, c));
    if c < i {
        assert(names[c] != name);
    }
    if i < c {
        assert(names[i] != name);
    }
}

/// Among names that are all different, any place where a name stands is its
/// first.
pub proof fn lemma_index_of_distinct(names: Seq<Seq<char>>, i: int)
    requires
        names.no_duplicates(),
        0 <= i < names.len(),
    ensures
        first_index(names, names[i]) == i,
        names.contains(names[i]),
{
    assert(is_first(names, names[i], i));
    lemma_first_index(names, names[i], i);
}

/// A name that occurs has a first place.
pub proof fn lemma_contained_has_first(names: Seq<Seq<char>>, name: Seq<char>)
    requires
        names.contains(name),
    ensures
        is_first(names, name, first_index(names, name)),
{
    let k = choose|k: int| 0 <= k < names.len() && names[k] == name;
    lemma_first_below(names, name, k);
}

proof fn lemma_first_below(names: Seq<Seq<char>>, name: Seq<char>, k: int)
    requires
        0 <= k < names.len(),
        names[k] == name,
    ensures
        exists|i: int| is_first(names, name, i),
    decreases k,
{
    if forall|j: int| 0 <= j < k ==> names[j] != name {
        assert(is_first(names, name, k));
    } else {
        let j = choose|j: int| 0 <= j < k && names[j] == name;
        lemma_first_below(names, name, j);
    }
}

impl SystemView {
    /// The names of the segments, in the order of creation.
    pub open spec fn edge_names(self) -> Seq<Seq<char>> {
        Seq::new(self.edges.len(), |i: int| self.edges[i].name)
    }

    /// The names of the nodes, in the order of creation.
    pub open spec fn node_names(self) -> Seq<Seq<char>> {
        Seq::new(self.nodes.len(), |i: int| self.nodes[i].name)
    }

    /// The names of the trains, in the order of creation.
    pub open spec fn train_names(self) -> Seq<Seq<char>> {
        Seq::new(self.trains.len(), |i: int| self.trains[i].name)
    }

    /// A segment is called `name`.
    pub open spec fn has_edge(self, name: Seq<char>) -> bool {
        self.edge_names().contains(name)
    }

    /// Place of the segment called `name` among the segments.
    pub open spec fn edge_index(self, name: Seq<char>) -> int {
        first_index(self.edge_names(), name)
    }

    /// The segment called `name`, where there is one.
    pub open spec fn edge(self, name: Seq<char>) -> EdgeView {
        self.edges[self.edge_index(name)]
    }

    /// A node is called `name`.
    pub open spec fn has_node(self, name: Seq<char>) -> bool {
        self.node_names().contains(name)
    }

    /// Place of the node called `name` among the nodes.
    pub open spec fn node_index(self, name: Seq<char>) -> int {
        first_index(self.node_names(), name)
    }

    /// The node called `name`, where there is one.
    pub open spec fn node(self, name: Seq<char>) -> NodeView {
        self.nodes[self.node_index(name)]
    }

    /// A train is called `name`.
    pub open spec fn has_train(self, name: Seq<char>) -> bool {
        self.train_names().contains(name)
    }

    /// Place of the train called `name` among the trains.
    pub open spec fn train_index(self, name: Seq<char>) -> int {
        first_index(self.train_names(), name)
    }

    /// The train called `name`, where there is one.
    pub open spec fn train(self, name: Seq<char>) -> TrainView {
        self.trains[self.train_index(name)]
    }

    /// `s` names an end of a segment of the network.
    pub open spec fn has_end(self, s: EdgeEndView) -> bool {
        self.has_edge(s.edge) && s.end < NUM_ENDS
    }

    /// The node slot that the segment end `s` is attached to.
    pub open spec fn end_ref(self, s: EdgeEndView) -> NodeSlotView {
        self.edge(s.edge).ends[s.end as int]
    }

    /// Names are unique within each kind and never empty, and every segment
    /// and node is valid by itself.
    pub open spec fn names_ok(self) -> bool {
        &&& self.edge_names().no_duplicates()
        &&& self.node_names().no_duplicates()
        &&& self.train_names().no_duplicates()
        &&& forall|i: int| 0 <= i < self.edges.len() ==> (#[trigger] self.edges[i]).wf()
        &&& forall|j: int|
            0 <= j < self.nodes.len() ==> (#[trigger] self.nodes[j]).wf() && self.nodes[j].name.len() > 0
        &&& forall|t: int| 0 <= t < self.trains.len() ==> (#[trigger] self.trains[t]).name.len() > 0
    }

    /// End `x` of the `i`-th segment is attached to a slot of an existing
    /// node, and that slot holds this very end.
    pub open spec fn end_linked(self, i: int, x: int) -> bool {
        let at = self.edges[i].ends[x];
        &&& self.has_node(at.node)
        &&& self.node(at.node).slots[at.slot as int] == (EdgeEndView {
            edge: self.edges[i].name,
            end: x as End,
        })
    }

    /// Every end of every segment is linked both ways.
    pub open spec fn links_ok(self) -> bool {
        forall|i: int, x: int|
            0 <= i < self.edges.len() && 0 <= x < NUM_ENDS ==> #[trigger] self.end_linked(i, x)
    }

    /// Slot `k` of the `j`-th node, where occupied, names an existing
    /// segment.
    pub open spec fn slot_known(self, j: int, k: int) -> bool {
        self.nodes[j].occupied(k) ==> self.has_edge(self.nodes[j].slots[k].edge)
    }

    /// Every occupied slot of every node names an existing segment.
    pub open spec fn slots_ok(self) -> bool {
        forall|j: int, k: int|
            0 <= j < self.nodes.len() && 0 <= k < NUM_SLOTS ==> #[trigger] self.slot_known(j, k)
    }

    /// The train that the `i`-th segment carries, if any, exists and stands
    /// on that segment.
    pub open spec fn carries_known(self, i: int) -> bool {
        self.edges[i].is_occupied() ==> self.has_train(self.edges[i].train) && self.train(
            self.edges[i].train,
        ).edge.edge == self.edges[i].name
    }

    /// The segment that the `t`-th train stands on, if any, exists and
    /// carries that train.
    pub open spec fn stands_known(self, t: int) -> bool {
        self.trains[t].is_placed() ==> self.has_edge(self.trains[t].edge.edge) && self.edge(
            self.trains[t].edge.edge,
        ).train == self.trains[t].name
    }

    /// Segments and trains agree on which train stands where.
    pub open spec fn occupancy_ok(self) -> bool {
        &&& forall|i: int| 0 <= i < self.edges.len() ==> #[trigger] self.carries_known(i)
        &&& forall|t: int| 0 <= t < self.trains.len() ==> #[trigger] self.stands_known(t)
    }

    /// A valid network.
    pub open spec fn wf(self) -> bool {
        &&& self.names_ok()
        &&& self.links_ok()
        &&& self.slots_ok()
        &&& self.occupancy_ok()
    }

    /// The network with `e` in place of its `i`-th segment.
    pub open spec fn with_edge_at(self, i: int, e: EdgeView) -> SystemView {
        SystemView { edges: self.edges.update(i, e), ..self }
    }

    /// The network with `n` in place of its `j`-th node.
    pub open spec fn with_node_at(self, j: int, n: NodeView) -> SystemView {
        SystemView { nodes: self.nodes.update(j, n), ..self }
    }

    /// The name that a segment gets when the caller gives none: `tseg` and
    /// the lowest unused number from 1 on, in three digits at least.
    pub open spec fn fresh_edge_name(self) -> Seq<char> {
        numbered("tseg"@, first_free(self.edge_names(), "tseg"@, 3), 3)
    }

    /// The name that a node gets when the caller gives none: `node` and the
    /// lowest unused number from 1 on, in three digits at least.
    pub open spec fn fresh_node_name(self) -> Seq<char> {
        numbered("node"@, first_free(self.node_names(), "node"@, 3), 3)
    }

    /// The name that a train gets when the caller gives none: `train` and
    /// the lowest unused number from 1 on.
    pub open spec fn fresh_train_name(self) -> Seq<char> {
        numbered("train"@, first_free(self.train_names(), "train"@, 0), 0)
    }

    /// The name of a new segment for which the caller asked for `name`.
    pub open spec fn edge_name_for(self, name: Seq<char>) -> Seq<char> {
        if name.len() > 0 {
            name
        } else {
            self.fresh_edge_name()
        }
    }

    /// The name of a new node for which the caller asked for `name`.
    pub open spec fn node_name_for(self, name: Seq<char>) -> Seq<char> {
        if name.len() > 0 {
            name
        } else {
            self.fresh_node_name()
        }
    }

    /// The name of a new train for which the caller asked for `name`.
    pub open spec fn train_name_for(self, name: Seq<char>) -> Seq<char> {
        if name.len() > 0 {
            name
        } else {
            self.fresh_train_name()
        }
    }

    /// The network with one more node.
    pub open spec fn push_node(self, n: NodeView) -> SystemView {
        SystemView { nodes: self.nodes.push(n), ..self }
    }

    /// The network with one more segment.
    pub open spec fn push_edge(self, e: EdgeView) -> SystemView {
        SystemView { edges: self.edges.push(e), ..self }
    }

    /// The network with one more train.
    pub open spec fn push_train(self, t: TrainView) -> SystemView {
        SystemView { trains: self.trains.push(t), ..self }
    }

    /// The node that a new segment called `name` gets at its end A.
    pub open spec fn node_a_for(self, name: Seq<char>) -> NodeView {
        NodeView::terminator(self.fresh_node_name(), EdgeEndView { edge: name, end: END_A })
    }

    /// The node that a new segment called `name` gets at its end B.
    pub open spec fn node_b_for(self, name: Seq<char>) -> NodeView {
        NodeView::terminator(
            self.push_node(self.node_a_for(name)).fresh_node_name(),
            EdgeEndView { edge: name, end: END_B },
        )
    }

    /// The new segment called `name`, as it is created: each end at the
    /// trunk slot of a new node of its own.
    pub open spec fn edge_for(self, name: Seq<char>) -> EdgeView {
        EdgeView::fresh(name, self.node_a_for(name).name, self.node_b_for(name).name)
    }

    /// The network after a segment called `name` was created.
    pub open spec fn with_new_edge(self, name: Seq<char>) -> SystemView {
        self.push_node(self.node_a_for(name)).push_node(self.node_b_for(name)).push_edge(
            self.edge_for(name),
        )
    }

    /// The names of the junctions among `nodes`, in their order.
    pub open spec fn junctions_among(nodes: Seq<NodeView>) -> Seq<Seq<char>>
        decreases nodes.len(),
    {
        if nodes.len() == 0 {
            Seq::<Seq<char>>::empty()
        } else if nodes.last().node_type() == NodeType::Junction {
            SystemView::junctions_among(nodes.drop_last()).push(nodes.last().name)
        } else {
            SystemView::junctions_among(nodes.drop_last())
        }
    }

    /// The names of all junctions, in the order in which their nodes were
    /// created.
    pub open spec fn junction_names(self) -> Seq<Seq<char>> {
        SystemView::junctions_among(self.nodes)
    }

    /// The segment that `input` stands for: the one called so, or else the
    /// one whose number `input` writes.
    pub open spec fn resolved(self, input: Seq<char>) -> Option<Seq<char>> {
        if self.has_edge(input) {
            Some(input)
        } else if self.has_edge(segment_name_from(input)) {
            Some(segment_name_from(input))
        } else {
            None
        }
    }

    /// A change to a segment that leaves the network valid: anything but its
    /// name, its attachments and its train.
    pub open spec fn edge_change_ok(before: EdgeView, after: EdgeView) -> bool {
        &&& after.name == before.name
        &&& after.ends == before.ends
        &&& after.train == before.train
        &&& after.signals.len() == NUM_ENDS
    }

    /// A change to a node that leaves the network valid: another position of
    /// a switch that has one.
    pub open spec fn node_change_ok(before: NodeView, after: NodeView) -> bool {
        &&& after.name == before.name
        &&& after.slots == before.slots
        &&& (after.switch_state == JSwitch::JSwitchNone <==> before.switch_state
            == JSwitch::JSwitchNone)
    }
}


/// Replacing a segment by one of the same name leaves every name where it
/// was.
pub proof fn lemma_edge_names_kept(sv: SystemView, i: int, e: EdgeView)
    requires
        0 <= i < sv.edges.len(),
        e.name == sv.edges[i].name,
    ensures
        sv.with_edge_at(i, e).edge_names() == sv.edge_names(),
        sv.with_edge_at(i, e).node_names() == sv.node_names(),
        sv.with_edge_at(i, e).train_names() == sv.train_names(),
{
    assert(sv.with_edge_at(i, e).edge_names() =~= sv.edge_names());
}

/// Replacing a node by one of the same name leaves every name where it was.
pub proof fn lemma_node_names_kept(sv: SystemView, j: int, n: NodeView)
    requires
        0 <= j < sv.nodes.len(),
        n.name == sv.nodes[j].name,
    ensures
        sv.with_node_at(j, n).edge_names() == sv.edge_names(),
        sv.with_node_at(j, n).node_names() == sv.node_names(),
        sv.with_node_at(j, n).train_names() == sv.train_names(),
{
    assert(sv.with_node_at(j, n).node_names() =~= sv.node_names());
}

/// A valid network stays valid when a segment changes in nothing but its
/// signals.
pub proof fn lemma_edge_change_keeps_wf(sv: SystemView, i: int, e: EdgeView)
    requires
        sv.wf(),
        0 <= i < sv.edges.len(),
        SystemView::edge_change_ok(sv.edges[i], e),
    ensures
        sv.with_edge_at(i, e).wf(),
{
    let after = sv.with_edge_at(i, e);
    lemma_edge_names_kept(sv, i, e);
    assert(sv.edges[i].wf());
    assert forall|i2: int, x: int| 0 <= i2 < after.edges.len() && 0 <= x < NUM_ENDS implies #[trigger] after.end_linked(
        i2,
        x,
    ) by {
        assert(sv.end_linked(i2, x));
    }
    assert forall|j: int, k: int| 0 <= j < after.nodes.len() && 0 <= k < NUM_SLOTS implies #[trigger] after.slot_known(
        j,
        k,
    ) by {
        assert(sv.slot_known(j, k));
    }
    assert forall|i2: int| 0 <= i2 < after.edges.len() implies #[trigger] after.carries_known(i2) by {
        assert(sv.carries_known(i2));
    }
    assert forall|t: int| 0 <= t < after.trains.len() implies #[trigger] after.stands_known(t) by {
        assert(sv.stands_known(t));
        if sv.trains[t].is_placed() {
            lemma_contained_has_first(sv.edge_names(), sv.trains[t].edge.edge);
        }
    }
    assert forall|i2: int| 0 <= i2 < after.edges.len() implies (#[trigger] after.edges[i2]).wf() by {
        assert(sv.edges[i2].wf());
    }
}

/// A valid network stays valid when the switch of a node that has one is
/// moved.
pub proof fn lemma_node_change_keeps_wf(sv: SystemView, j: int, n: NodeView)
    requires
        sv.wf(),
        0 <= j < sv.nodes.len(),
        SystemView::node_change_ok(sv.nodes[j], n),
    ensures
        sv.with_node_at(j, n).wf(),
{
    let after = sv.with_node_at(j, n);
    lemma_node_names_kept(sv, j, n);
    assert(sv.nodes[j].wf());
    assert(n.wf()) by {
        assert forall|k: int| 0 <= k < NUM_SLOTS && #[trigger] n.occupied(k) implies n.slots[k].end
            < NUM_ENDS by {
            assert(sv.nodes[j].occupied(k));
        }
    }
    assert forall|j2: int| 0 <= j2 < after.nodes.len() implies (#[trigger] after.nodes[j2]).wf()
        && after.nodes[j2].name.len() > 0 by {
        assert(sv.nodes[j2].wf());
    }
    assert forall|i: int, x: int| 0 <= i < after.edges.len() && 0 <= x < NUM_ENDS implies #[trigger] after.end_linked(
        i,
        x,
    ) by {
        assert(sv.end_linked(i, x));
        lemma_contained_has_first(sv.node_names(), sv.edges[i].ends[x].node);
    }
    assert forall|j2: int, k: int| 0 <= j2 < after.nodes.len() && 0 <= k < NUM_SLOTS implies #[trigger] after.slot_known(
        j2,
        k,
    ) by {
        assert(sv.slot_known(j2, k));
    }
    assert forall|i: int| 0 <= i < after.edges.len() implies #[trigger] after.carries_known(i) by {
        assert(sv.carries_known(i));
    }
    assert forall|t: int| 0 <= t < after.trains.len() implies #[trigger] after.stands_known(t) by {
        assert(sv.stands_known(t));
    }
}

/// One more name at the end leaves every earlier name where it was.
pub proof fn lemma_push_keeps_first(names: Seq<Seq<char>>, extra: Seq<char>, name: Seq<char>)
    requires
        names.contains(name),
    ensures
        first_index(names.push(extra), name) == first_index(names, name),
        names.push(extra).contains(name),
        0 <= first_index(names, name) < names.len(),
{
    lemma_contained_has_first(names, name);
    let i = first_index(names, name);
    let longer = names.push(extra);
    assert forall|j: int| 0 <= j < i implies longer[j] != name by {
        assert(longer[j] == names[j]);
    }
    assert(longer[i] == names[i]);
    assert(is_first(longer, name, i));
    lemma_first_index(longer, name, i);
}

/// A new name at the end stands there first.
pub proof fn lemma_push_new_first(names: Seq<Seq<char>>, extra: Seq<char>)
    requires
        !names.contains(extra),
    ensures
        first_index(names.push(extra), extra) == names.len(),
        names.push(extra).contains(extra),
        names.no_duplicates() ==> names.push(extra).no_duplicates(),
{
    let longer = names.push(extra);
    assert forall|j: int| 0 <= j < names.len() implies longer[j] != extra by {
        assert(longer[j] == names[j]);
    }
    assert(longer[names.len() as int] == extra);
    assert(is_first(longer, extra, names.len() as int));
    lemma_first_index(longer, extra, names.len() as int);
    if names.no_duplicates() {
        assert forall|i: int, j: int|
            0 <= i < longer.len() && 0 <= j < longer.len() && i != j implies longer[i] != longer[j] by {
            if i < names.len() {
                assert(longer[i] == names[i]);
            }
            if j < names.len() {
                assert(longer[j] == names[j]);
            }
        }
    }
}

/// A valid network stays valid when it gets a node that is valid, has a new
/// name and holds only segments that the network has.
pub proof fn lemma_push_node_keeps_wf(sv: SystemView, n: NodeView)
    requires
        sv.wf(),
        n.wf(),
        n.name.len() > 0,
        !sv.has_node(n.name),
        forall|k: int| 0 <= k < NUM_SLOTS && #[trigger] n.occupied(k) ==> sv.has_edge(n.slots[k].edge),
    ensures
        sv.push_node(n).wf(),
{
    let after = sv.push_node(n);
    assert(after.node_names() =~= sv.node_names().push(n.name));
    assert(after.edge_names() =~= sv.edge_names());
    assert(after.train_names() =~= sv.train_names());
    lemma_push_new_first(sv.node_names(), n.name);
    assert forall|j: int| 0 <= j < after.nodes.len() implies (#[trigger] after.nodes[j]).wf()
        && after.nodes[j].name.len() > 0 by {
        if j < sv.nodes.len() {
            assert(sv.nodes[j].wf());
        }
    }
    assert forall|i: int, x: int| 0 <= i < after.edges.len() && 0 <= x < NUM_ENDS implies #[trigger] after.end_linked(
        i,
        x,
    ) by {
        assert(sv.end_linked(i, x));
        lemma_push_keeps_first(sv.node_names(), n.name, sv.edges[i].ends[x].node);
    }
    assert forall|j: int, k: int| 0 <= j < after.nodes.len() && 0 <= k < NUM_SLOTS implies #[trigger] after.slot_known(
        j,
        k,
    ) by {
        if j < sv.nodes.len() {
            assert(sv.slot_known(j, k));
        } else {
            if after.nodes[j].occupied(k) {
                assert(n.occupied(k));
            }
        }
    }
    assert forall|i: int| 0 <= i < after.edges.len() implies #[trigger] after.carries_known(i) by {
        assert(sv.carries_known(i));
    }
    assert forall|t: int| 0 <= t < after.trains.len() implies #[trigger] after.stands_known(t) by {
        assert(sv.stands_known(t));
    }
}

/// A valid network stays valid when it gets a train that stands nowhere and
/// has a new name.
pub proof fn lemma_push_train_keeps_wf(sv: SystemView, t: TrainView)
    requires
        sv.wf(),
        t.name.len() > 0,
        !sv.has_train(t.name),
        !t.is_placed(),
    ensures
        sv.push_train(t).wf(),
{
    let after = sv.push_train(t);
    assert(after.train_names() =~= sv.train_names().push(t.name));
    assert(after.edge_names() =~= sv.edge_names());
    assert(after.node_names() =~= sv.node_names());
    lemma_push_new_first(sv.train_names(), t.name);
    assert forall|i: int, x: int| 0 <= i < after.edges.len() && 0 <= x < NUM_ENDS implies #[trigger] after.end_linked(
        i,
        x,
    ) by {
        assert(sv.end_linked(i, x));
    }
    assert forall|j: int, k: int| 0 <= j < after.nodes.len() && 0 <= k < NUM_SLOTS implies #[trigger] after.slot_known(
        j,
        k,
    ) by {
        assert(sv.slot_known(j, k));
    }
    assert forall|i: int| 0 <= i < after.edges.len() implies #[trigger] after.carries_known(i) by {
        assert(sv.carries_known(i));
        if sv.edges[i].is_occupied() {
            lemma_push_keeps_first(sv.train_names(), t.name, sv.edges[i].train);
        }
    }
    assert forall|k: int| 0 <= k < after.trains.len() implies #[trigger] after.stands_known(k) by {
        if k < sv.trains.len() {
            assert(sv.stands_known(k));
        }
    }
    assert forall|k: int| 0 <= k < after.trains.len() implies (#[trigger] after.trains[k]).name.len()
        > 0 by {
        if k < sv.trains.len() {
            assert(sv.trains[k].name.len() > 0);
        }
    }
}

/// The names that a new segment's nodes get are new, not empty, and differ
/// from each other.
pub proof fn lemma_new_node_names(sv: SystemView, name: Seq<char>)
    ensures
        !sv.has_node(sv.node_a_for(name).name),
        !sv.has_node(sv.node_b_for(name).name),
        sv.node_a_for(name).name != sv.node_b_for(name).name,
        sv.node_a_for(name).name.len() > 0,
        sv.node_b_for(name).name.len() > 0,
{
    let a = sv.node_a_for(name);
    let with_a = sv.push_node(a);
    lemma_first_free_exists(sv.node_names(), "node"@, 3);
    lemma_first_free_exists(with_a.node_names(), "node"@, 3);
    lemma_numbered_nonempty("node"@, first_free(sv.node_names(), "node"@, 3), 3);
    lemma_numbered_nonempty("node"@, first_free(with_a.node_names(), "node"@, 3), 3);
    assert(with_a.node_names() =~= sv.node_names().push(a.name));
    let b = sv.node_b_for(name).name;
    assert(!with_a.node_names().contains(b));
    assert(with_a.node_names()[sv.nodes.len() as int] == a.name);
    if sv.has_node(b) {
        let k = choose|k: int| 0 <= k < sv.node_names().len() && sv.node_names()[k] == b;
        assert(with_a.node_names()[k] == b);
    }
}

/// A valid network stays valid when a segment with a new name is created in
/// it, with a new terminator at each end.
pub proof fn lemma_new_edge_keeps_wf(sv: SystemView, name: Seq<char>)
    requires
        sv.wf(),
        name.len() > 0,
        !sv.has_edge(name),
    ensures
        sv.with_new_edge(name).wf(),
{
    let a = sv.node_a_for(name);
    let b = sv.node_b_for(name);
    let e = sv.edge_for(name);
    let after = sv.with_new_edge(name);
    lemma_new_node_names(sv, name);
    let nn = sv.node_names();
    assert(after.node_names() =~= nn.push(a.name).push(b.name));
    assert(after.edge_names() =~= sv.edge_names().push(name));
    assert(after.train_names() =~= sv.train_names());
    lemma_push_new_first(sv.edge_names(), name);
    lemma_push_new_first(nn, a.name);
    assert(!nn.push(a.name).contains(b.name)) by {
        if nn.push(a.name).contains(b.name) {
            let k = choose|k: int| 0 <= k < nn.push(a.name).len() && nn.push(a.name)[k] == b.name;
            if k < nn.len() {
                assert(nn[k] == b.name);
            }
        }
    }
    lemma_push_new_first(nn.push(a.name), b.name);
    lemma_push_keeps_first(nn.push(a.name), b.name, a.name);
    let ja = sv.nodes.len() as int;
    let jb = ja + 1;
    let ie = sv.edges.len() as int;
    assert(after.node_index(a.name) == ja);
    assert(after.node_index(b.name) == jb);
    assert(after.nodes[ja] == a);
    assert(after.nodes[jb] == b);
    assert(after.edges[ie] == e);
    assert(a.wf()) by {
        assert(!a.occupied(1));
        assert(!a.occupied(2));
    }
    assert(b.wf()) by {
        assert(!b.occupied(1));
        assert(!b.occupied(2));
    }
    assert forall|i: int| 0 <= i < after.edges.len() implies (#[trigger] after.edges[i]).wf() by {
        if i < ie {
            assert(sv.edges[i].wf());
        }
    }
    assert forall|j: int| 0 <= j < after.nodes.len() implies (#[trigger] after.nodes[j]).wf()
        && after.nodes[j].name.len() > 0 by {
        if j < ja {
            assert(sv.nodes[j].wf());
        }
    }
    assert forall|i: int, x: int| 0 <= i < after.edges.len() && 0 <= x < NUM_ENDS implies #[trigger] after.end_linked(
        i,
        x,
    ) by {
        if i < ie {
            assert(sv.end_linked(i, x));
            let at = sv.edges[i].ends[x];
            lemma_push_keeps_first(nn, a.name, at.node);
            lemma_push_keeps_first(nn.push(a.name), b.name, at.node);
        }
    }
    assert forall|j: int, k: int| 0 <= j < after.nodes.len() && 0 <= k < NUM_SLOTS implies #[trigger] after.slot_known(
        j,
        k,
    ) by {
        if j < ja {
            assert(sv.slot_known(j, k));
            if sv.nodes[j].occupied(k) {
                lemma_push_keeps_first(sv.edge_names(), name, sv.nodes[j].slots[k].edge);
            }
        }
    }
    assert forall|i: int| 0 <= i < after.edges.len() implies #[trigger] after.carries_known(i) by {
        if i < ie {
            assert(sv.carries_known(i));
        }
    }
    assert forall|t: int| 0 <= t < after.trains.len() implies #[trigger] after.stands_known(t) by {
        assert(sv.stands_known(t));
        if sv.trains[t].is_placed() {
            lemma_push_keeps_first(sv.edge_names(), name, sv.trains[t].edge.edge);
        }
    }
}

impl System {
    /// Place of the segment called `name` among the segments.
    fn edge_position(&self, name: &String) -> (found: Option<usize>)
        ensures
            match found {
                Some(i) => is_first(self@.edge_names(), name@, i as int) && self@.has_edge(name@)
                    && self@.edge_index(name@) == i && i < self.edges.len(),
                None => !self@.has_edge(name@),
            },
    {
        let mut i: usize = 0;
        while i < self.edges.len()
            invariant
                i <= self.edges.len(),
                forall|j: int| 0 <= j < i ==> self@.edge_names()[j] != name@,
            decreases self.edges.len() - i,
        {
            if self.edges[i].name == *name {
                proof {
                    lemma_first_index(self@.edge_names(), name@, i as int);
                }
                return Some(i);
            }
            i = i + 1;
        }
        None
    }

    /// Place of the node called `name` among the nodes.
    fn node_position(&self, name: &String) -> (found: Option<usize>)
        ensures
            match found {
                Some(j) => is_first(self@.node_names(), name@, j as int) && self@.has_node(name@)
                    && self@.node_index(name@) == j && j < self.nodes.len(),
                None => !self@.has_node(name@),
            },
    {
        let mut j: usize = 0;
        while j < self.nodes.len()
            invariant
                j <= self.nodes.len(),
                forall|k: int| 0 <= k < j ==> self@.node_names()[k] != name@,
            decreases self.nodes.len() - j,
        {
            if self.nodes[j].name == *name {
                proof {
                    lemma_first_index(self@.node_names(), name@, j as int);
                }
                return Some(j);
            }
            j = j + 1;
        }
        None
    }

    /// Place of the train called `name` among the trains.
    fn train_position(&self, name: &String) -> (found: Option<usize>)
        ensures
            match found {
                Some(t) => is_first(self@.train_names(), name@, t as int) && self@.has_train(name@)
                    && self@.train_index(name@) == t && t < self.trains.len(),
                None => !self@.has_train(name@),
            },
    {
        let mut t: usize = 0;
        while t < self.trains.len()
            invariant
                t <= self.trains.len(),
                forall|k: int| 0 <= k < t ==> self@.train_names()[k] != name@,
            decreases self.trains.len() - t,
        {
            if self.trains[t].name == *name {
                proof {
                    lemma_first_index(self@.train_names(), name@, t as int);
                }
                return Some(t);
            }
            t = t + 1;
        }
        None
    }

    /// Whether a segment is called `name`.
    pub fn has_edge(&self, name: &String) -> (known: bool)
        ensures
            known == self@.has_edge(name@),
    {
        self.edge_position(name).is_some()
    }

    /// The segment called `name`.
    pub fn get_edge(&self, name: &String) -> (found: Option<&Edge>)
        ensures
            match found {
                Some(e) => self@.has_edge(name@) && e@ == self@.edge(name@),
                None => !self@.has_edge(name@),
            },
    {
        match self.edge_position(name) {
            Some(i) => Some(&self.edges[i]),
            None => None,
        }
    }

    /// The segment called `name`, for changing. The network takes up
    /// whatever the caller leaves in it, and stays valid as long as only the
    /// signals are touched.
    pub fn get_edge_mut(&mut self, name: &String) -> (found: Option<&mut Edge>)
        ensures
            match found {
                Some(e) => {
                    &&& old(self)@.has_edge(name@)
                    &&& e@ == old(self)@.edge(name@)
                    &&& final(self)@.edges =~= old(self)@.edges.update(
                        old(self)@.edge_index(name@),
                        final(e)@,
                    )
                    &&& final(self)@.nodes == old(self)@.nodes
                    &&& final(self)@.trains == old(self)@.trains
                    &&& old(self)@.wf() && SystemView::edge_change_ok(e@, final(e)@)
                        ==> final(self)@.wf()
                },
                None => !old(self)@.has_edge(name@) && *final(self) == *old(self),
            },
    {
        match self.edge_position(name) {
            Some(i) => {
                proof {
                    let sv = self@;
                    assert forall|after: System|
                        after.edges@ == self.edges@.update(i as int, after.edges@[i as int])
                            && after.nodes == self.nodes && after.trains == self.trains && sv.wf()
                            && SystemView::edge_change_ok(
                            sv.edges[i as int],
                            after.edges@[i as int]@,
                        ) implies (#[trigger] after@).wf() by {
                        let e = after.edges@[i as int]@;
                        lemma_edge_change_keeps_wf(sv, i as int, e);
                        assert(after@.edges =~= sv.with_edge_at(i as int, e).edges);
                    }
                }
                Some(&mut self.edges[i])
            },
            None => None,
        }
    }

    /// The node called `name`, for reading.
    pub fn find_node(&self, name: &String) -> (found: Option<&Node>)
        ensures
            match found {
                Some(n) => self@.has_node(name@) && n@ == self@.node(name@),
                None => !self@.has_node(name@),
            },
    {
        match self.node_position(name) {
            Some(j) => Some(&self.nodes[j]),
            None => None,
        }
    }

    /// The node called `name`, for changing. The network takes up whatever
    /// the caller leaves in it, and stays valid as long as only the switch
    /// of a junction is moved.
    pub fn get_node(&mut self, name: &String) -> (found: Option<&mut Node>)
        ensures
            match found {
                Some(n) => {
                    &&& old(self)@.has_node(name@)
                    &&& n@ == old(self)@.node(name@)
                    &&& final(self)@.nodes =~= old(self)@.nodes.update(
                        old(self)@.node_index(name@),
                        final(n)@,
                    )
                    &&& final(self)@.edges == old(self)@.edges
                    &&& final(self)@.trains == old(self)@.trains
                    &&& old(self)@.wf() && SystemView::node_change_ok(n@, final(n)@)
                        ==> final(self)@.wf()
                },
                None => !old(self)@.has_node(name@) && *final(self) == *old(self),
            },
    {
        match self.node_position(name) {
            Some(j) => {
                proof {
                    let sv = self@;
                    assert forall|after: System|
                        after.nodes@ == self.nodes@.update(j as int, after.nodes@[j as int])
                            && after.edges == self.edges && after.trains == self.trains && sv.wf()
                            && SystemView::node_change_ok(
                            sv.nodes[j as int],
                            after.nodes@[j as int]@,
                        ) implies (#[trigger] after@).wf() by {
                        let n = after.nodes@[j as int]@;
                        lemma_node_change_keeps_wf(sv, j as int, n);
                        assert(after@.nodes =~= sv.with_node_at(j as int, n).nodes);
                    }
                }
                Some(&mut self.nodes[j])
            },
            None => None,
        }
    }

    /// The train called `name`.
    pub fn get_train(&self, name: &String) -> (found: Option<&Train>)
        ensures
            match found {
                Some(t) => self@.has_train(name@) && t@ == self@.train(name@),
                None => !self@.has_train(name@),
            },
    {
        match self.train_position(name) {
            Some(t) => Some(&self.trains[t]),
            None => None,
        }
    }
}

/// What an empty slot holds.
fn unset_edge_end() -> (e: EdgeEnd)
    ensures
        e@ == EdgeEndView::unset(),
{
    EdgeEnd { ee_edge: String::new(), ee_end: END_A }
}

/// A signal that has not been placed.
fn unplaced_signal() -> (signal: RRsignal)
    ensures
        signal@ == SignalView::unplaced(),
{
    RRsignal { is_red: true, edge: EdgeEnd { ee_edge: String::new(), ee_end: NUM_ENDS } }
}

impl System {
    /// The lowest numbered segment name that is not in use.
    fn get_unique_edge_name(&self) -> (name: String)
        ensures
            name@ == self@.fresh_edge_name(),
            !self@.has_edge(name@),
            name@.len() > 0,
    {
        let mut ix: u128 = 1;
        let mut name = numbered_name("tseg", ix, 3);
        while self.edge_position(&name).is_some()
            invariant
                1 <= ix <= self.edges.len() + 1,
                name@ == numbered("tseg"@, ix as nat, 3),
                forall|j: nat|
                    1 <= j < ix ==> self@.edge_names().contains(#[trigger] numbered("tseg"@, j, 3)),
            decreases self.edges.len() + 1 - ix,
        {
            proof {
                lemma_numbered_names_bound(self@.edge_names(), "tseg"@, 3, ix as nat);
            }
            ix = ix + 1;
            name = numbered_name("tseg", ix, 3);
        }
        proof {
            lemma_first_free(self@.edge_names(), "tseg"@, 3, ix as nat);
            lemma_numbered_nonempty("tseg"@, ix as nat, 3);
        }
        name
    }

    /// The lowest numbered node name that is not in use.
    fn get_unique_node_name(&self) -> (name: String)
        ensures
            name@ == self@.fresh_node_name(),
            !self@.has_node(name@),
            name@.len() > 0,
    {
        let mut ix: u128 = 1;
        let mut name = numbered_name("node", ix, 3);
        while self.node_position(&name).is_some()
            invariant
                1 <= ix <= self.nodes.len() + 1,
                name@ == numbered("node"@, ix as nat, 3),
                forall|j: nat|
                    1 <= j < ix ==> self@.node_names().contains(#[trigger] numbered("node"@, j, 3)),
            decreases self.nodes.len() + 1 - ix,
        {
            proof {
                lemma_numbered_names_bound(self@.node_names(), "node"@, 3, ix as nat);
            }
            ix = ix + 1;
            name = numbered_name("node", ix, 3);
        }
        proof {
            lemma_first_free(self@.node_names(), "node"@, 3, ix as nat);
            lemma_numbered_nonempty("node"@, ix as nat, 3);
        }
        name
    }

    /// The lowest numbered train name that is not in use.
    fn get_unique_train_name(&self) -> (name: String)
        ensures
            name@ == self@.fresh_train_name(),
            !self@.has_train(name@),
            name@.len() > 0,
    {
        let mut ix: u128 = 1;
        let mut name = numbered_name("train", ix, 0);
        while self.train_position(&name).is_some()
            invariant
                1 <= ix <= self.trains.len() + 1,
                name@ == numbered("train"@, ix as nat, 0),
                forall|j: nat|
                    1 <= j < ix ==> self@.train_names().contains(#[trigger] numbered("train"@, j, 0)),
            decreases self.trains.len() + 1 - ix,
        {
            proof {
                lemma_numbered_names_bound(self@.train_names(), "train"@, 0, ix as nat);
            }
            ix = ix + 1;
            name = numbered_name("train", ix, 0);
        }
        proof {
            lemma_first_free(self@.train_names(), "train"@, 0, ix as nat);
            lemma_numbered_nonempty("train"@, ix as nat, 0);
        }
        name
    }

    /// Appends a node called `name` with nothing attached.
    fn add_node(&mut self, name: String) -> (j: usize)
        ensures
            final(self)@ == old(self)@.push_node(NodeView::fresh(name@)),
            j == old(self).nodes.len(),
            final(self).nodes.len() == j + 1,
            final(self).nodes@.drop_last() == old(self).nodes@,
            final(self).nodes@[j as int]@ == NodeView::fresh(name@),
            final(self).edges == old(self).edges,
            final(self).trains == old(self).trains,
    {
        let node = Node {
            name,
            slots: [unset_edge_end(), unset_edge_end(), unset_edge_end()],
            switch_state: JSwitch::JSwitchNone,
        };
        assert(node@.slots =~= NodeView::fresh(name@).slots);
        self.nodes.push(node);
        assert(self@.nodes =~= old(self)@.nodes.push(NodeView::fresh(name@)));
        self.nodes.len() - 1
    }

    /// Creates a node with nothing attached. An empty `name` asks for a
    /// numbered one. Nothing is created when the name is in use.
    pub fn create_node(&mut self, name: &str) -> (created: Option<&mut Node>)
        requires
            old(self)@.wf(),
        ensures
            match created {
                Some(n) => {
                    &&& !(name@.len() > 0 && old(self)@.has_node(name@))
                    &&& n@ == NodeView::fresh(old(self)@.node_name_for(name@))
                    &&& final(self)@.nodes =~= old(self)@.nodes.push(final(n)@)
                    &&& final(self)@.edges == old(self)@.edges
                    &&& final(self)@.trains == old(self)@.trains
                    &&& SystemView::node_change_ok(n@, final(n)@) ==> final(self)@.wf()
                },
                None => name@.len() > 0 && old(self)@.has_node(name@) && *final(self) == *old(self),
            },
    {
        let node_name = if name.is_empty() {
            self.get_unique_node_name()
        } else {
            let given = String::from_str(name);
            if self.node_position(&given).is_some() {
                return None;
            }
            given
        };
        let j = self.add_node(node_name);
        proof {
            let sv = self@;
            let fresh = NodeView::fresh(old(self)@.node_name_for(name@));
            assert(sv.nodes[j as int] == fresh);
            assert forall|k: int| 0 <= k < j implies (#[trigger] self.nodes@[k])@ == old(self)@.nodes[k] by {
                assert(self.nodes@[k] == self.nodes@.drop_last()[k]);
            }
            assert(fresh.wf()) by {
                assert(!fresh.occupied(0));
                assert(!fresh.occupied(1));
                assert(!fresh.occupied(2));
            }
            lemma_push_node_keeps_wf(old(self)@, fresh);
            assert forall|after: System|
                after.nodes@.len() == self.nodes@.len() && after.nodes@ == self.nodes@.update(
                    j as int,
                    after.nodes@[j as int],
                ) && after.edges == self.edges && after.trains == self.trains
                    && SystemView::node_change_ok(
                    sv.nodes[j as int],
                    after.nodes@[j as int]@,
                ) implies (#[trigger] after@).wf() by {
                let n = after.nodes@[j as int]@;
                lemma_node_change_keeps_wf(sv, j as int, n);
                assert(after@.nodes =~= sv.with_node_at(j as int, n).nodes);
            }
        }
        Some(&mut self.nodes[j])
    }

    /// Creates a segment with a new terminator node at each end. An empty
    /// `name` asks for a numbered one. Nothing is created when the name is
    /// in use.
    pub fn create_edge(&mut self, name: &str) -> (created: Option<&mut Edge>)
        requires
            old(self)@.wf(),
        ensures
            match created {
                Some(e) => {
                    let edge_name = old(self)@.edge_name_for(name@);
                    let after = old(self)@.with_new_edge(edge_name);
                    &&& !(name@.len() > 0 && old(self)@.has_edge(name@))
                    &&& e@ == old(self)@.edge_for(edge_name)
                    &&& final(self)@.edges =~= after.edges.update(
                        old(self)@.edges.len() as int,
                        final(e)@,
                    )
                    &&& final(self)@.nodes == after.nodes
                    &&& final(self)@.trains == after.trains
                    &&& SystemView::edge_change_ok(e@, final(e)@) ==> final(self)@.wf()
                },
                None => name@.len() > 0 && old(self)@.has_edge(name@) && *final(self) == *old(self),
            },
    {
        let edge_name = if name.is_empty() {
            self.get_unique_edge_name()
        } else {
            let given = String::from_str(name);
            if self.edge_position(&given).is_some() {
                return None;
            }
            given
        };
        let ghost before = self@;
        let ghost wanted = edge_name@;
        let edge = Edge {
            name: edge_name.clone(),
            ends: [
                NodeSlot { ns_node: String::new(), ns_slot: SLOT_1 },
                NodeSlot { ns_node: String::new(), ns_slot: SLOT_1 },
            ],
            signals: [unplaced_signal(), unplaced_signal()],
            train: String::new(),
        };
        self.edges.push(edge);
        let i = self.edges.len() - 1;

        // Place terminator nodes at each end of the edge.
        let node_a_name = self.get_unique_node_name();
        let ja = self.add_node(node_a_name.clone());
        assert forall|k: int| 0 <= k < ja implies (#[trigger] self.nodes@[k])@ == before.nodes[k] by {
            assert(self.nodes@[k] == self.nodes@.drop_last()[k]);
        }
        self.nodes[ja].make_terminator(&EdgeEnd { ee_edge: edge_name.clone(), ee_end: END_A });
        assert(self@.nodes =~= before.nodes.push(before.node_a_for(wanted)));
        assert(self@.node_names() =~= before.push_node(before.node_a_for(wanted)).node_names());
        let node_b_name = self.get_unique_node_name();
        let jb = self.add_node(node_b_name.clone());
        assert forall|k: int| 0 <= k < jb implies (#[trigger] self.nodes@[k])@ == before.nodes.push(
            before.node_a_for(wanted),
        )[k] by {
            assert(self.nodes@[k] == self.nodes@.drop_last()[k]);
        }
        self.nodes[jb].make_terminator(&EdgeEnd { ee_edge: edge_name, ee_end: END_B });
        assert(self@.nodes =~= before.nodes.push(before.node_a_for(wanted)).push(
            before.node_b_for(wanted),
        ));

        self.edges[i].assign_node_slot(&NodeSlot { ns_node: node_a_name, ns_slot: SLOT_1 }, END_A);
        self.edges[i].assign_node_slot(&NodeSlot { ns_node: node_b_name, ns_slot: SLOT_1 }, END_B);
        proof {
            let sv = self@;
            let made = before.edge_for(wanted);
            assert(sv.edges[i as int].ends =~= made.ends);
            assert(sv.edges[i as int].signals =~= made.signals);
            assert(sv.edges =~= before.edges.push(made));
            assert(sv == before.with_new_edge(wanted));
            lemma_new_edge_keeps_wf(before, wanted);
            assert forall|after: System|
                after.edges@.len() == self.edges@.len() && after.edges@ == self.edges@.update(
                    i as int,
                    after.edges@[i as int],
                ) && after.nodes == self.nodes && after.trains == self.trains
                    && SystemView::edge_change_ok(
                    sv.edges[i as int],
                    after.edges@[i as int]@,
                ) implies (#[trigger] after@).wf() by {
                let e = after.edges@[i as int]@;
                lemma_edge_change_keeps_wf(sv, i as int, e);
                assert(after@.edges =~= sv.with_edge_at(i as int, e).edges);
            }
        }
        Some(&mut self.edges[i])
    }

    /// Creates a train that stands nowhere. An empty `name` asks for a
    /// numbered one. Nothing is created when the name is in use.
    pub fn create_train(&mut self, name: &str) -> (created: Option<&Train>)
        requires
            old(self)@.wf(),
        ensures
            final(self)@.wf(),
            match created {
                Some(t) => {
                    &&& !old(self)@.has_train(name@)
                    &&& t@ == TrainView::fresh(old(self)@.train_name_for(name@))
                    &&& final(self)@ == old(self)@.push_train(t@)
                },
                None => old(self)@.has_train(name@) && *final(self) == *old(self),
            },
    {
        let given = String::from_str(name);
        if self.train_position(&given).is_some() {
            return None;
        }
        let train_name = if name.is_empty() {
            self.get_unique_train_name()
        } else {
            given
        };
        let train = Train {
            name: train_name,
            edge: EdgeEnd { ee_edge: String::new(), ee_end: NUM_ENDS },
            destination: String::new(),
        };
        proof {
            lemma_push_train_keeps_wf(self@, train@);
        }
        self.trains.push(train);
        assert(self@.trains =~= old(self)@.trains.push(train@));
        let t = self.trains.len() - 1;
        Some(&self.trains[t])
    }
}

impl System {
    /// The names of all junctions, in the order in which their nodes were
    /// created.
    pub fn get_all_junctions(&self) -> (names: Vec<String>)
        ensures
            names.deep_view() == self@.junction_names(),
    {
        let mut rval: Vec<String> = Vec::new();
        let mut j: usize = 0;
        assert(self@.nodes.take(0) =~= Seq::<NodeView>::empty());
        while j < self.nodes.len()
            invariant
                j <= self.nodes.len(),
                rval.deep_view() == SystemView::junctions_among(self@.nodes.take(j as int)),
            decreases self.nodes.len() - j,
        {
            let ghost before = rval.deep_view();
            assert(self@.nodes.take(j + 1).drop_last() =~= self@.nodes.take(j as int));
            if self.nodes[j].get_node_type() == NodeType::Junction {
                rval.push(self.nodes[j].name.clone());
                assert(rval.deep_view() =~= before.push(self@.nodes[j as int].name));
            }
            j = j + 1;
        }
        assert(self@.nodes.take(j as int) =~= self@.nodes);
        rval
    }

    /// The name of the segment that `input` stands for: see
    /// `SystemView::resolved`.
    pub fn resolve_edge_name(&self, input: &String) -> (name: Option<String>)
        ensures
            match name {
                Some(n) => self@.resolved(input@) == Some(n@),
                None => self@.resolved(input@) is None,
            },
    {
        if self.has_edge(input) {
            return Some(input.clone());
        }
        let rnum = name_from_number(input);
        if self.has_edge(&rnum) {
            Some(rnum)
        } else {
            None
        }
    }

    /// Sets every signal to what the positions of the trains ask for. No
    /// rule for that exists yet: the network stays as it is.
    pub fn update_all_signals(&mut self)
        ensures
            *final(self) == *old(self),
    {
    }
}

/// The number of segments that are kept outside any network: none, since
/// every segment belongs to the `System` that created it.
pub fn edge_count() -> (count: i32)
    ensures
        count == 0,
{
    0
}

/// A network without segments, nodes or trains.
pub fn create_system() -> (sys: System)
    ensures
        sys@.wf(),
        sys@.edges.len() == 0,
        sys@.nodes.len() == 0,
        sys@.trains.len() == 0,
{
    System { edges: Vec::new(), nodes: Vec::new(), trains: Vec::new() }
}

} // verus!
