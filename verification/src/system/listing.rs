//! Listings of the network: every segment and every node on a line of its
//! own, in the order of their names.

use vstd::prelude::*;
use itertools::Itertools;
use crate::common::NUM_ENDS;
use crate::system::{lemma_contained_has_first, System, SystemView};
use crate::text::{decimal, format_decimal, in_order, lemma_in_order, sorted_from};

verus! {

/// `itertools::Itertools::sorted` on a list of names. It collects what it
/// is given, sorts it with the stable sort of slices and hands the result
/// on: the same names, each as often as before, in ascending order.
/// `String` orders by bytes, which in UTF-8 is the order of code points
/// that `comes_first` states. None of this is proved here: the contract is
/// taken from the documentation of `sorted` and of the order of `str`.
#[verifier::external_body]
fn sorted_names(names: &Vec<String>) -> (sorted: Vec<String>)
    ensures
        sorted_from(sorted.deep_view(), names.deep_view()),
{
    names.iter().cloned().sorted().collect()
}

impl SystemView {
    /// The line that describes the segment called `name` with both its
    /// ends.
    pub open spec fn line_of(self, name: Seq<char>) -> Seq<char> {
        match self.edge_line(self.edge(name), NUM_ENDS) {
            Ok(text) => text,
            Err(_) => Seq::<char>::empty(),
        }
    }

    /// The line that closes the listing of segments.
    pub open spec fn total_line(self) -> Seq<char> {
        "TOTAL: "@ + decimal(self.edges.len()) + " track segments"@
    }

    /// The listing of the segments called `order`, in that order, and the
    /// closing line.
    pub open spec fn edge_listing(self, order: Seq<Seq<char>>) -> Seq<Seq<char>> {
        Seq::new(order.len(), |i: int| self.line_of(order[i])).push(self.total_line())
    }

    /// The listing of the nodes called `order`, in that order.
    pub open spec fn node_listing(self, order: Seq<Seq<char>>) -> Seq<Seq<char>> {
        Seq::new(order.len(), |i: int| self.node_line(self.node(order[i])))
    }
}

/// In a valid network every segment has a line.
pub proof fn lemma_edge_has_line(sv: SystemView, name: Seq<char>)
    requires
        sv.wf(),
        sv.has_edge(name),
    ensures
        sv.edge_line(sv.edge(name), NUM_ENDS) is Ok,
{
    lemma_contained_has_first(sv.edge_names(), name);
    let i = sv.edge_index(name);
    assert(sv.end_linked(i, 0));
    assert(sv.end_linked(i, 1));
}

/// What is in a sorted list of names is one of the names.
proof fn lemma_sorted_member(order: Seq<Seq<char>>, names: Seq<Seq<char>>, i: int)
    requires
        sorted_from(order, names),
        0 <= i < order.len(),
    ensures
        names.contains(order[i]),
        order.len() == names.len(),
{
    order.to_multiset_ensures();
    names.to_multiset_ensures();
    assert(order.contains(order[i]));
    assert(order.to_multiset().count(order[i]) > 0);
    assert(names.to_multiset().count(order[i]) > 0);
}

impl System {
    /// The names of the segments, in the order of creation.
    fn edge_name_list(&self) -> (names: Vec<String>)
        ensures
            names.deep_view() == self@.edge_names(),
    {
        let mut names: Vec<String> = Vec::new();
        let mut i: usize = 0;
        while i < self.edges.len()
            invariant
                i <= self.edges.len(),
                names.len() == i,
                forall|k: int| 0 <= k < i ==> (#[trigger] names@[k])@ == self@.edges[k].name,
            decreases self.edges.len() - i,
        {
            names.push(self.edges[i].name.clone());
            i = i + 1;
        }
        assert(names.deep_view() =~= self@.edge_names());
        names
    }

    /// The names of the nodes, in the order of creation.
    fn node_name_list(&self) -> (names: Vec<String>)
        ensures
            names.deep_view() == self@.node_names(),
    {
        let mut names: Vec<String> = Vec::new();
        let mut j: usize = 0;
        while j < self.nodes.len()
            invariant
                j <= self.nodes.len(),
                names.len() == j,
                forall|k: int| 0 <= k < j ==> (#[trigger] names@[k])@ == self@.nodes[k].name,
            decreases self.nodes.len() - j,
        {
            names.push(self.nodes[j].name.clone());
            j = j + 1;
        }
        assert(names.deep_view() =~= self@.node_names());
        names
    }

    /// The listing of all segments: one line for each, with both ends, in
    /// the ascending order of their names, and a closing line with their
    /// number.
    pub fn show_edges(&self) -> (lines: Vec<String>)
        requires
            self@.wf(),
        ensures
            lines.deep_view() == self@.edge_listing(in_order(self@.edge_names())),
    {
        let names = self.edge_name_list();
        let sorted = sorted_names(&names);
        let ghost order = sorted.deep_view();
        let mut lines: Vec<String> = Vec::new();
        let mut i: usize = 0;
        while i < sorted.len()
            invariant
                i <= sorted.len(),
                self@.wf(),
                order == sorted.deep_view(),
                sorted_from(order, self@.edge_names()),
                lines.deep_view() =~= Seq::new(i as nat, |k: int| self@.line_of(order[k])),
            decreases sorted.len() - i,
        {
            let ghost before = lines.deep_view();
            proof {
                lemma_sorted_member(order, self@.edge_names(), i as int);
                lemma_edge_has_line(self@, order[i as int]);
                assert(sorted@[i as int]@ == order[i as int]);
            }
            match self.get_edge(&sorted[i]) {
                None => {
                    assert(false);
                },
                Some(e) => {
                    match e.show(self, NUM_ENDS) {
                        Ok(text) => {
                            lines.push(text);
                            assert(lines.deep_view() =~= before.push(self@.line_of(order[i as int])));
                        },
                        Err(_) => {
                            assert(false);
                        },
                    }
                },
            }
            i = i + 1;
        }
        let mut total = String::from_str("TOTAL: ");
        total.append(format_decimal(self.edges.len() as u128).as_str());
        total.append(" track segments");
        let ghost listed = lines.deep_view();
        lines.push(total);
        assert(lines.deep_view() =~= listed.push(self@.total_line()));
        assert(lines.deep_view() =~= self@.edge_listing(order));
        proof {
            lemma_in_order(order, self@.edge_names());
        }
        lines
    }

    /// The listing of all nodes: one line for each, in the ascending order
    /// of their names.
    pub fn show_nodes(&self) -> (lines: Vec<String>)
        requires
            self@.wf(),
        ensures
            lines.deep_view() == self@.node_listing(in_order(self@.node_names())),
    {
        let names = self.node_name_list();
        let sorted = sorted_names(&names);
        let ghost order = sorted.deep_view();
        let mut lines: Vec<String> = Vec::new();
        let mut j: usize = 0;
        while j < sorted.len()
            invariant
                j <= sorted.len(),
                self@.wf(),
                order == sorted.deep_view(),
                sorted_from(order, self@.node_names()),
                lines.deep_view() =~= Seq::new(j as nat, |k: int| self@.node_line(self@.node(order[k]))),
            decreases sorted.len() - j,
        {
            let ghost before = lines.deep_view();
            proof {
                lemma_sorted_member(order, self@.node_names(), j as int);
                lemma_contained_has_first(self@.node_names(), order[j as int]);
                assert(sorted@[j as int]@ == order[j as int]);
                assert(self@.nodes[self@.node_index(order[j as int])].wf());
            }
            match self.find_node(&sorted[j]) {
                None => {
                    assert(false);
                },
                Some(n) => {
                    lines.push(n.show(self));
                    assert(lines.deep_view() =~= before.push(
                        self@.node_line(self@.node(order[j as int])),
                    ));
                },
            }
            j = j + 1;
        }
        assert(lines.deep_view() =~= self@.node_listing(order));
        proof {
            lemma_in_order(order, self@.node_names());
        }
        lines
    }
}

} // verus!
