//! Trains: a name, the segment end the train is heading for, and the
//! segment it is bound for.

use vstd::prelude::*;
use crate::common::{EdgeEnd, EdgeEndView, TrackError, END_A, END_B, NUM_ENDS, NUM_SLOTS};
use crate::system::edge::{Edge, EdgeView};
use crate::system::{
    first_index, is_first, lemma_contained_has_first, lemma_first_index, lemma_index_of_distinct,
    System, SystemView,
};

verus! {

/// A train. `edge` is the segment end it is heading for, on the segment it
/// stands on; `destination` is the name of the segment it is bound for.
#[derive(Clone, Debug, PartialEq, Eq)]
pub struct Train {
    pub name: String,
    pub edge: EdgeEnd,
    pub destination: String,
}

/// Mathematical value of a `Train`. The train is on no segment when `edge`
/// names none.
pub struct TrainView {
    pub name: Seq<char>,
    pub edge: EdgeEndView,
    pub destination: Seq<char>,
}

impl View for Train {
    type V = TrainView;

    open spec fn view(&self) -> TrainView {
        TrainView { name: self.name@, edge: self.edge@, destination: self.destination@ }
    }
}

impl TrainView {
    /// A train called `name` that stands nowhere and is bound for nowhere.
    pub open spec fn fresh(name: Seq<char>) -> TrainView {
        TrainView { name, edge: EdgeEndView::nowhere(), destination: Seq::<char>::empty() }
    }

    /// The train stands on a segment.
    pub open spec fn is_placed(self) -> bool {
        self.edge.is_set()
    }

    /// The train heading for end B of segment `start`, bound for `end`.
    pub open spec fn placed_on(self, start: Seq<char>, end: Seq<char>) -> TrainView {
        TrainView { name: self.name, edge: EdgeEndView { edge: start, end: END_B }, destination: end }
    }

    /// The train taken off the track; its destination stays.
    pub open spec fn taken_off(self) -> TrainView {
        TrainView { edge: EdgeEndView::nowhere(), ..self }
    }
}

impl SystemView {
    /// What there is to say of a train: its name and, while it stands on a
    /// segment of the network, that segment and the end it is heading for.
    pub open spec fn train_lines(self, t: TrainView) -> Seq<Seq<char>> {
        if self.has_edge(t.edge.edge) {
            seq![
                "Train: "@ + t.name,
                "  Location: track segment \""@ + self.edge(t.edge.edge).name + "\""@,
                "  Direction: toward segment end "@ + (if t.edge.end == END_A {
                    "A"@
                } else {
                    "B"@
                }),
            ]
        } else {
            seq!["Train: "@ + t.name]
        }
    }
}

/// The values of `edges`, in their order.
pub open spec fn edge_views(edges: Seq<Edge>) -> Seq<EdgeView> {
    Seq::new(edges.len(), |i: int| edges[i]@)
}

/// The names of `edges`, in their order.
pub open spec fn track_names(edges: Seq<EdgeView>) -> Seq<Seq<char>> {
    Seq::new(edges.len(), |i: int| edges[i].name)
}

impl TrainView {
    /// Both a start and an end are given: neither name is empty.
    pub open spec fn both_given(start: Seq<char>, end: Seq<char>) -> bool {
        start.len() > 0 && end.len() > 0
    }

    /// The segment called `start` carries a train other than this one.
    pub open spec fn finds_taken(self, edges: Seq<EdgeView>, start: Seq<char>) -> bool {
        let held = edges[first_index(track_names(edges), start)].train;
        held.len() > 0 && held != self.name
    }

    /// Whether the train can be placed on `start`, bound for `end`, and if
    /// not, why not. An empty name stands for a segment that is not given.
    /// A segment that is given has to be among `edges`, and the start must
    /// not carry another train.
    pub open spec fn place_outcome(self, edges: Seq<EdgeView>, start: Seq<char>, end: Seq<char>) -> Result<
        (),
        TrackError,
    > {
        let names = track_names(edges);
        if (start.len() > 0 && !names.contains(start)) || (end.len() > 0 && !names.contains(end)) {
            Err(TrackError::NotFound)
        } else if TrainView::both_given(start, end) && self.finds_taken(edges, start) {
            Err(TrackError::SegmentOccupied)
        } else {
            Ok(())
        }
    }

    /// The train after it was placed: on `start`, heading for its end B and
    /// bound for `end`, if both are given; off the track if not.
    pub open spec fn placed(self, start: Seq<char>, end: Seq<char>) -> TrainView {
        if TrainView::both_given(start, end) {
            self.placed_on(start, end)
        } else {
            self.taken_off()
        }
    }

    /// The `i`-th of `edges` after the train was placed: the start, if both
    /// segments are given, carries the train; the segment the train stood
    /// on carries none; every other segment is as it was.
    pub open spec fn edge_after(self, edges: Seq<EdgeView>, start: Seq<char>, end: Seq<char>, i: int) -> EdgeView {
        let names = track_names(edges);
        if TrainView::both_given(start, end) && i == first_index(names, start) {
            edges[i].with_train(self.name)
        } else if names.contains(self.edge.edge) && i == first_index(names, self.edge.edge) {
            edges[i].with_train(Seq::<char>::empty())
        } else {
            edges[i]
        }
    }

    /// The segments after the train was placed.
    pub open spec fn track_after(self, edges: Seq<EdgeView>, start: Seq<char>, end: Seq<char>) -> Seq<
        EdgeView,
    > {
        Seq::new(edges.len(), |i: int| self.edge_after(edges, start, end, i))
    }
}

impl SystemView {
    /// Whether the train called `train` can be placed on `start`, bound for
    /// `end`, and if not, why not: the train has to exist, and the rest is
    /// `TrainView::place_outcome`.
    pub open spec fn place_outcome(self, train: Seq<char>, start: Seq<char>, end: Seq<char>) -> Result<
        (),
        TrackError,
    > {
        if !self.has_train(train) {
            Err(TrackError::NotFound)
        } else {
            self.train(train).place_outcome(self.edges, start, end)
        }
    }

    /// The network after the train called `train` was placed on `start`,
    /// bound for `end`.
    pub open spec fn placed(self, train: Seq<char>, start: Seq<char>, end: Seq<char>) -> SystemView {
        SystemView {
            edges: self.train(train).track_after(self.edges, start, end),
            nodes: self.nodes,
            trains: self.trains.update(self.train_index(train), self.train(train).placed(start, end)),
        }
    }
}

/// Placing a train keeps a valid network valid.
pub proof fn lemma_place_keeps_wf(sv: SystemView, train: Seq<char>, start: Seq<char>, end: Seq<char>)
    requires
        sv.wf(),
        sv.place_outcome(train, start, end) is Ok,
    ensures
        sv.placed(train, start, end).wf(),
{
    let after = sv.placed(train, start, end);
    let names = sv.edge_names();
    assert(track_names(sv.edges) =~= names);
    lemma_contained_has_first(sv.train_names(), train);
    let it = sv.train_index(train);
    let t = sv.trains[it];
    let given = TrainView::both_given(start, end);
    let is = first_index(names, start);
    let ip = first_index(names, t.edge.edge);
    let on_track = names.contains(t.edge.edge);
    assert(sv.trains[it].name.len() > 0);
    assert(sv.stands_known(it));
    if given {
        lemma_contained_has_first(names, start);
        assert(sv.edges[is].wf());
    }
    if on_track {
        lemma_contained_has_first(names, t.edge.edge);
        assert(sv.edges[ip].wf());
    }
    assert(after.edge_names() =~= names);
    assert(after.node_names() =~= sv.node_names());
    assert(after.train_names() =~= sv.train_names());
    assert forall|i: int| 0 <= i < after.edges.len() implies (#[trigger] after.edges[i]).wf() by {
        assert(sv.edges[i].wf());
    }
    assert forall|k: int| 0 <= k < after.trains.len() implies (#[trigger] after.trains[k]).name.len()
        > 0 by {
        assert(sv.trains[k].name.len() > 0);
    }
    assert forall|i: int, x: int| 0 <= i < after.edges.len() && 0 <= x < NUM_ENDS implies #[trigger] after.end_linked(
        i,
        x,
    ) by {
        assert(sv.end_linked(i, x));
    }
    assert forall|j: int, k: int| 0 <= j < after.nodes.len() && 0 <= k < NUM_SLOTS implies #[trigger] after.slot_known(
        j,
        k,
    ) by {
        assert(sv.slot_known(j, k));
    }
    assert forall|i: int| 0 <= i < after.edges.len() implies #[trigger] after.carries_known(i) by {
        assert(sv.carries_known(i));
        assert(sv.edges[i].wf());
        if given && i == is {
            assert(after.train(t.name) == t.placed(start, end));
        } else if on_track && i == ip {
        } else if sv.edges[i].is_occupied() {
            let x = sv.edges[i].train;
            lemma_contained_has_first(sv.train_names(), x);
            if sv.train_index(x) == it {
                lemma_index_of_distinct(names, i);
            }
        }
    }
    assert forall|k: int| 0 <= k < after.trains.len() implies #[trigger] after.stands_known(k) by {
        assert(sv.stands_known(k));
        if k != it && sv.trains[k].is_placed() {
            let y = sv.trains[k].edge.edge;
            lemma_contained_has_first(names, y);
            lemma_index_of_distinct(sv.train_names(), k);
            lemma_index_of_distinct(sv.train_names(), it);
            assert(sv.trains[k].name.len() > 0);
        }
    }
}

/// Place of the segment called `name` among `edges`.
fn find_edge(edges: &Vec<Edge>, name: &String) -> (found: Option<usize>)
    ensures
        match found {
            Some(i) => i < edges.len() && is_first(
                track_names(edge_views(edges@)),
                name@,
                i as int,
            ) && first_index(track_names(edge_views(edges@)), name@) == i && track_names(
                edge_views(edges@),
            ).contains(name@),
            None => !track_names(edge_views(edges@)).contains(name@),
        },
{
    let mut i: usize = 0;
    while i < edges.len()
        invariant
            i <= edges.len(),
            forall|j: int| 0 <= j < i ==> track_names(edge_views(edges@))[j] != name@,
        decreases edges.len() - i,
    {
        if edges[i].name == *name {
            proof {
                lemma_first_index(track_names(edge_views(edges@)), name@, i as int);
            }
            return Some(i);
        }
        i = i + 1;
    }
    None
}

impl Train {
    /// The segment end that the train is heading for.
    pub fn get_position(&self) -> (at: &EdgeEnd)
        ensures
            at@ == self@.edge,
    {
        &self.edge
    }

    /// Whether the train can be placed on `start`, bound for `end`: see
    /// `TrainView::place_outcome`.
    fn check_place(&self, edges: &Vec<Edge>, start: &String, end: &String) -> (found: Result<
        (),
        TrackError,
    >)
        ensures
            found == self@.place_outcome(edge_views(edges@), start@, end@),
    {
        let at_start = find_edge(edges, start);
        if !start.as_str().is_empty() && at_start.is_none() {
            return Err(TrackError::NotFound);
        }
        if !end.as_str().is_empty() && find_edge(edges, end).is_none() {
            return Err(TrackError::NotFound);
        }
        if !start.as_str().is_empty() && !end.as_str().is_empty() {
            if let Some(i) = at_start {
                let held = edges[i].get_train();
                if !held.as_str().is_empty() && !(*held == self.name) {
                    return Err(TrackError::SegmentOccupied);
                }
            }
        }
        Ok(())
    }

    /// Puts the train on the segment `start` of `edges`, heading for its
    /// end B and bound for `end`. An empty name stands for a segment that
    /// is not given: without both, the train is only taken off the track.
    /// A segment that is given has to be among `edges`, and the start must
    /// not carry another train; where this fails, nothing changes.
    /// Otherwise the segment that the train stood on carries no train any
    /// more, and the start carries this one.
    pub fn place_on_track(&mut self, edges: &mut Vec<Edge>, start: &String, end: &String) -> (done: Result<
        (),
        TrackError,
    >)
        ensures
            done == old(self)@.place_outcome(edge_views(old(edges)@), start@, end@),
            done is Err ==> *final(self) == *old(self) && *final(edges) == *old(edges),
            done is Ok ==> final(self)@ == old(self)@.placed(start@, end@),
            done is Ok ==> edge_views(final(edges)@) == old(self)@.track_after(
                edge_views(old(edges)@),
                start@,
                end@,
            ),
    {
        let ghost before = edge_views(edges@);
        let ghost names = track_names(before);
        let ghost me = self@;
        if let Err(why) = self.check_place(edges, start, end) {
            return Err(why);
        }
        let given = !start.as_str().is_empty() && !end.as_str().is_empty();
        let is: usize = match find_edge(edges, start) {
            Some(i) => i,
            None => 0,
        };
        // Leave the segment the train stands on.
        if let Some(ip) = find_edge(edges, &self.edge.ee_edge) {
            edges[ip].set_train("");
        }
        proof {
            reveal_strlit("");
            assert(""@ =~= Seq::<char>::empty());
            assert(track_names(edge_views(edges@)) =~= names);
        }
        if given {
            self.edge.ee_edge = start.clone();
            self.edge.ee_end = END_B;
            self.destination = end.clone();
            edges[is].set_train(self.name.as_str());
        } else {
            self.edge.ee_edge = String::new();
            self.edge.ee_end = NUM_ENDS;
        }
        assert(edge_views(edges@) =~= me.track_after(before, start@, end@));
        Ok(())
    }

    /// What there is to say of the train as it stands in `sys`, line by
    /// line: see `SystemView::train_lines`.
    pub fn show(&self, sys: &System) -> (lines: Vec<String>)
        ensures
            lines.deep_view() == sys@.train_lines(self@),
    {
        let mut lines: Vec<String> = Vec::new();
        let mut head = String::from_str("Train: ");
        head.append(self.name.as_str());
        lines.push(head);
        if let Some(eref) = sys.get_edge(&self.edge.ee_edge) {
            let mut place = String::from_str("  Location: track segment \"");
            place.append(eref.name.as_str());
            place.append("\"");
            lines.push(place);
            let mut heading = String::from_str("  Direction: toward segment end ");
            if self.edge.ee_end == END_A {
                heading.append("A");
            } else {
                heading.append("B");
            }
            lines.push(heading);
        }
        assert(lines.deep_view() =~= sys@.train_lines(self@));
        lines
    }

    /// Plans the way to the destination. No way is planned yet: the train
    /// and the network stay as they are.
    pub fn get_optimal_route(&mut self, _sys: &mut System)
        ensures
            *final(self) == *old(self),
            *final(_sys) == *old(_sys),
    {
    }
}

impl System {
    /// Whether the train called `train` can be placed on `start`, bound for
    /// `end`, and if not, why not. The network stays as it is.
    pub fn can_place_train(&self, train: &String, start: &String, end: &String) -> (found: Result<
        (),
        TrackError,
    >)
        ensures
            found == self@.place_outcome(train@, start@, end@),
    {
        match self.train_position(train) {
            None => Err(TrackError::NotFound),
            Some(it) => {
                assert(edge_views(self.edges@) =~= self@.edges);
                self.trains[it].check_place(&self.edges, start, end)
            },
        }
    }

    /// Places the train called `train` on the segment `start`, bound for
    /// `end`: see `Train::place_on_track`. Nothing changes when the train is
    /// unknown or the placement is refused.
    pub fn place_train(&mut self, train: &String, start: &String, end: &String) -> (done: Result<
        (),
        TrackError,
    >)
        requires
            old(self)@.wf(),
        ensures
            done == old(self)@.place_outcome(train@, start@, end@),
            done is Err ==> *final(self) == *old(self),
            done is Ok ==> final(self)@ == old(self)@.placed(train@, start@, end@),
            final(self)@.wf(),
    {
        let ghost sv = self@;
        let it = match self.train_position(train) {
            None => {
                return Err(TrackError::NotFound);
            },
            Some(t) => t,
        };
        assert(edge_views(self.edges@) =~= sv.edges);
        if let Err(why) = self.trains[it].check_place(&self.edges, start, end) {
            return Err(why);
        }
        let done = self.trains[it].place_on_track(&mut self.edges, start, end);
        proof {
            lemma_place_keeps_wf(sv, train@, start@, end@);
            assert(self@.edges =~= sv.placed(train@, start@, end@).edges);
            assert(self@.trains =~= sv.placed(train@, start@, end@).trains);
            assert(self@.nodes =~= sv.nodes);
        }
        done
    }
}

} // verus!
