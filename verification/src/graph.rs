//! The dependency graph of a project: files and derivation handles as
//! nodes, "depends on" as edges.

use std::collections::HashMap;
use std::collections::HashSet;

use vstd::prelude::*;

use crate::attr::Attrname;
use crate::fs::{same_abs_path, AbsolutePathBuf, AbsolutePathView};
use crate::path::{
    char_views, components, components_exec, join_exec, parent_exec, parent_of, push_path, render,
    render_exec,
};
use crate::text::{chars_of, copy_chars, str_eq, string_from_chars};

verus! {

broadcast use vstd::std_specs::hash::group_hash_axioms;

/// A node: a file, and the handle it defines when it defines one.
#[derive(Debug, Clone)]
pub struct GraphNode {
    pub path: AbsolutePathBuf,
    pub derivation: Option<Attrname>,
}

/// A node's path and handle.
pub type GraphNodeView = (AbsolutePathView, Option<Seq<char>>);

impl View for GraphNode {
    type V = GraphNodeView;

    open spec fn view(&self) -> GraphNodeView {
        (
            self.path@,
            match self.derivation {
                Some(a) => Some(a@),
                None => None,
            },
        )
    }
}

impl GraphNode {
    /// The node's path.
    pub fn as_path(&self) -> (r: &AbsolutePathBuf)
        ensures
            r@ == self@.0,
    {
        &self.path
    }

    /// The node for a file that defines no handle.
    pub fn from_path(path: AbsolutePathBuf) -> (r: GraphNode)
        ensures
            r@ == (path@, None::<Seq<char>>),
    {
        GraphNode { path, derivation: None }
    }

    /// A copy of the node.
    pub fn duplicate(&self) -> (r: GraphNode)
        ensures
            r@ == self@,
    {
        GraphNode {
            path: self.path.duplicate(),
            derivation: match &self.derivation {
                Some(a) => Some(a.duplicate()),
                None => None,
            },
        }
    }

    /// What `Display` prints: the handle when there is one, the path
    /// otherwise.
    pub fn to_text(&self) -> (r: String)
        ensures
            r@ == match self@.1 {
                Some(a) => a,
                None => self@.0.1,
            },
    {
        match &self.derivation {
            Some(a) => a.to_text(),
            None => self.path.to_text(),
        }
    }
}

/// An edge, from the node that depends to the node it depends on.
#[derive(Debug)]
pub struct Edge(pub GraphNode, pub GraphNode);

/// How a node is looked up: by handle or by path.
#[derive(Debug)]
pub enum NodeId {
    Attrname(Attrname),
    Path(AbsolutePathBuf),
}

/// The abstract form of a node id.
pub enum NodeIdView {
    Attrname(Seq<char>),
    Path(AbsolutePathView),
}

impl View for NodeId {
    type V = NodeIdView;

    open spec fn view(&self) -> NodeIdView {
        match self {
            NodeId::Attrname(a) => NodeIdView::Attrname(a@),
            NodeId::Path(p) => NodeIdView::Path(p@),
        }
    }
}

/// What decides whether two node ids are equal: the handle's text, or the
/// path's kind and components.
pub enum NodeKey {
    Attr(Seq<char>),
    Path(bool, Seq<Seq<char>>),
}

/// The key of a node id.
pub open spec fn key_of(id: NodeIdView) -> NodeKey {
    match id {
        NodeIdView::Attrname(a) => NodeKey::Attr(a),
        NodeIdView::Path(p) => NodeKey::Path(p.0, components(p.1)),
    }
}

impl NodeId {
    /// Whether two node ids are equal.
    pub fn same_key(&self, other: &NodeId) -> (r: bool)
        ensures
            r == (key_of(self@) == key_of(other@)),
    {
        match (self, other) {
            (NodeId::Attrname(a), NodeId::Attrname(b)) => str_eq(a.as_str(), b.as_str()),
            (NodeId::Path(p), NodeId::Path(q)) => p.same_as(q),
            _ => false,
        }
    }

    /// A copy of the id.
    pub fn duplicate(&self) -> (r: NodeId)
        ensures
            r@ == self@,
    {
        match self {
            NodeId::Attrname(a) => NodeId::Attrname(a.duplicate()),
            NodeId::Path(p) => NodeId::Path(p.duplicate()),
        }
    }
}

/// A node is the one an id names: by handle, the node defines it; by path,
/// the node's path is that path.
pub open spec fn node_matches(id: NodeIdView, n: GraphNodeView) -> bool {
    match id {
        NodeIdView::Attrname(a) => n.1 == Some(a),
        NodeIdView::Path(p) => same_abs_path(n.0, p),
    }
}

/// There is an edge from `a` to `b`.
pub open spec fn has_edge(edges: Seq<(usize, usize)>, a: int, b: int) -> bool {
    exists|i: int| 0 <= i < edges.len() && #[trigger] edges[i] == (a as usize, b as usize) && a
        == edges[i].0 && b == edges[i].1
}

/// Consecutive entries of `w` are joined by edges.
pub open spec fn is_walk(edges: Seq<(usize, usize)>, w: Seq<int>) -> bool {
    w.len() >= 1 && forall|i: int| 0 <= i < w.len() - 1 ==> #[trigger] has_edge(edges, w[i], w[i + 1])
}

/// `to` can be reached from `from` by following one edge or more.
pub open spec fn reachable(edges: Seq<(usize, usize)>, from: int, to: int) -> bool {
    exists|w: Seq<int>|
        #[trigger] is_walk(edges, w) && w.len() >= 2 && w[0] == from && w.last() == to
}

/// Every edge ends at one of the first `n` nodes.
pub open spec fn edges_end_at_nodes(edges: Seq<(usize, usize)>, n: int) -> bool {
    forall|i: int| 0 <= i < edges.len() ==> (#[trigger] edges[i]).1 < n
}

/// Every node reachable from `idx` is one of the first `n` nodes.
pub open spec fn reach_within(edges: Seq<(usize, usize)>, idx: int, n: int) -> bool {
    forall|k: int| #[trigger] reachable(edges, idx, k) ==> k < n
}

/// The nodes that the edges leaving `idx` lead to, in edge order.
pub open spec fn targets_of(edges: Seq<(usize, usize)>, idx: usize) -> Seq<usize>
    decreases edges.len(),
{
    if edges.len() == 0 {
        seq![]
    } else {
        let rest = targets_of(edges.drop_last(), idx);
        if edges.last().0 == idx {
            rest.push(edges.last().1)
        } else {
            rest
        }
    }
}

/// The dependency graph. Every edge leaves a node; it ends at a node, or,
/// when it follows a handle recorded for a node that was never added, at
/// the index the next node would get.
#[derive(Debug)]
pub struct Graph {
    nodes: Vec<GraphNode>,
    edges: Vec<(usize, usize)>,
}

/// The views of a sequence of nodes.
pub open spec fn node_views(v: Seq<GraphNode>) -> Seq<GraphNodeView> {
    v.map_values(|n: GraphNode| n@)
}

impl Graph {
    #[verifier::type_invariant]
    spec fn edges_in_range(&self) -> bool {
        &&& self.nodes@.len() < usize::MAX
        &&& forall|i: int|
            0 <= i < self.edges@.len() ==> (#[trigger] self.edges@[i]).0 < self.nodes@.len()
                && self.edges@[i].1 <= self.nodes@.len()
    }

    /// The graph with these nodes and edges: each edge leaves a node, and
    /// ends at a node or at the index the next node would get.
    pub(crate) fn from_parts(nodes: Vec<GraphNode>, edges: Vec<(usize, usize)>) -> (g: Graph)
        requires
            nodes@.len() < usize::MAX,
            forall|i: int|
                0 <= i < edges@.len() ==> (#[trigger] edges@[i]).0 < nodes@.len() && edges@[i].1
                    <= nodes@.len(),
        ensures
            g.nodes_view() == node_views(nodes@),
            g.edges_view() == edges@,
    {
        Graph { nodes, edges }
    }

    /// The nodes, by index.
    pub closed spec fn nodes_view(&self) -> Seq<GraphNodeView> {
        node_views(self.nodes@)
    }

    /// The edges, each from the depending node's index to the index of the
    /// node it depends on, in the order they were found.
    pub closed spec fn edges_view(&self) -> Seq<(usize, usize)> {
        self.edges@
    }

    /// The number of nodes.
    pub fn node_count(&self) -> (n: usize)
        ensures
            n == self.nodes_view().len(),
    {
        self.nodes.len()
    }

    /// The node at `idx`.
    pub fn node(&self, idx: usize) -> (r: &GraphNode)
        requires
            idx < self.nodes_view().len(),
        ensures
            r@ == self.nodes_view()[idx as int],
    {
        &self.nodes[idx]
    }

    /// The paths of the nodes, by index.
    pub fn to_nodes(&self) -> (r: Vec<&AbsolutePathBuf>)
        ensures
            r@.len() == self.nodes_view().len(),
            forall|i: int| 0 <= i < r@.len() ==> #[trigger] r@[i]@ == self.nodes_view()[i].0,
    {
        let mut out: Vec<&AbsolutePathBuf> = Vec::new();
        let mut i: usize = 0;
        while i < self.nodes.len()
            invariant
                i <= self.nodes.len(),
                out@.len() == i,
                forall|k: int| 0 <= k < i ==> #[trigger] out@[k]@ == self.nodes@[k].path@,
            decreases self.nodes.len() - i,
        {
            out.push(&self.nodes[i].path);
            i = i + 1;
        }
        out
    }

    /// Whether every edge ends at a node (see `edges_end_at_nodes`).
    pub fn all_edges_end_at_nodes(&self) -> (r: bool)
        ensures
            r == edges_end_at_nodes(self.edges_view(), self.nodes_view().len() as int),
    {
        let n = self.nodes.len();
        let mut i: usize = 0;
        while i < self.edges.len()
            invariant
                i <= self.edges.len(),
                n == self.nodes@.len(),
                forall|k: int| 0 <= k < i ==> (#[trigger] self.edges@[k]).1 < n,
            decreases self.edges.len() - i,
        {
            if self.edges[i].1 >= n {
                return false;
            }
            i = i + 1;
        }
        true
    }

    /// The edges, each as the pair of nodes it joins, in the order they
    /// were found; every edge must end at a node.
    pub fn to_edges(&self) -> (r: Vec<Edge>)
        requires
            edges_end_at_nodes(self.edges_view(), self.nodes_view().len() as int),
        ensures
            r@.len() == self.edges_view().len(),
            forall|i: int|
                0 <= i < r@.len() ==> (#[trigger] r@[i]).0@ == self.nodes_view()[self.edges_view()[i].0 as int]
                    && r@[i].1@ == self.nodes_view()[self.edges_view()[i].1 as int],
    {
        proof {
            use_type_invariant(self);
        }
        let mut out: Vec<Edge> = Vec::new();
        let mut i: usize = 0;
        while i < self.edges.len()
            invariant
                i <= self.edges.len(),
                out@.len() == i,
                forall|k: int|
                    0 <= k < self.edges@.len() ==> (#[trigger] self.edges@[k]).0
                        < self.nodes@.len(),
                edges_end_at_nodes(self.edges@, self.nodes@.len() as int),
                forall|k: int|
                    0 <= k < i ==> (#[trigger] out@[k]).0@ == self.nodes@[self.edges@[k].0 as int]@
                        && out@[k].1@ == self.nodes@[self.edges@[k].1 as int]@,
            decreases self.edges.len() - i,
        {
            let (a, b) = self.edges[i];
            out.push(Edge(self.nodes[a].duplicate(), self.nodes[b].duplicate()));
            i = i + 1;
        }
        out
    }

    /// The first node that `id` names, with its index.
    pub fn find_node(&self, id: &NodeId) -> (r: Option<(usize, &GraphNode)>)
        ensures
            match r {
                Some((i, n)) => i < self.nodes_view().len() && n@ == self.nodes_view()[i as int]
                    && node_matches(id@, n@) && forall|k: int|
                    0 <= k < i ==> !node_matches(id@, #[trigger] self.nodes_view()[k]),
                None => forall|k: int|
                    0 <= k < self.nodes_view().len() ==> !node_matches(
                        id@,
                        #[trigger] self.nodes_view()[k],
                    ),
            },
    {
        let mut i: usize = 0;
        while i < self.nodes.len()
            invariant
                i <= self.nodes.len(),
                forall|k: int| 0 <= k < i ==> !node_matches(id@, #[trigger] self.nodes@[k]@),
            decreases self.nodes.len() - i,
        {
            let node = &self.nodes[i];
            let hit = match id {
                NodeId::Attrname(a) => match &node.derivation {
                    Some(d) => str_eq(a.as_str(), d.as_str()),
                    None => false,
                },
                NodeId::Path(p) => node.path.same_as(p),
            };
            if hit {
                return Some((i, node));
            }
            i = i + 1;
        }
        None
    }
}


/// `w` is the target of an edge from a node visited in `v` but not in
/// `v0`.
pub open spec fn new_succ(e: Seq<(usize, usize)>, v0: Set<usize>, v: Set<usize>, w: usize) -> bool {
    exists|x: usize| v.contains(x) && !v0.contains(x) && #[trigger] has_edge(e, x as int, w as int)
}

/// The targets of edges from nodes newly visited between `v0` and `v2`
/// are those newly visited between `v0` and `v1`, and between `v1` and
/// `v2`.
proof fn lemma_new_succ_split(
    e: Seq<(usize, usize)>,
    v0: Set<usize>,
    v1: Set<usize>,
    v2: Set<usize>,
    w: usize,
)
    requires
        v0.subset_of(v1),
        v1.subset_of(v2),
    ensures
        new_succ(e, v0, v2, w) <==> new_succ(e, v0, v1, w) || new_succ(e, v1, v2, w),
{
    if new_succ(e, v0, v2, w) {
        let x = choose|x: usize| v2.contains(x) && !v0.contains(x) && #[trigger] has_edge(e, x as int, w as int);
        if v1.contains(x) {
            assert(new_succ(e, v0, v1, w));
        } else {
            assert(new_succ(e, v1, v2, w));
        }
    }
    if new_succ(e, v0, v1, w) {
        let x = choose|x: usize| v1.contains(x) && !v0.contains(x) && #[trigger] has_edge(e, x as int, w as int);
        assert(v2.contains(x));
    }
    if new_succ(e, v1, v2, w) {
        let x = choose|x: usize| v2.contains(x) && !v1.contains(x) && #[trigger] has_edge(e, x as int, w as int);
        assert(!v0.contains(x));
    }
}

/// The number of node indices below `n` not yet visited.
pub open spec fn unvisited_count(v: Set<usize>, n: usize) -> nat {
    Set::range(0usize, n).difference(v).len()
}

/// One edge followed by zero or more edges is a walk of one edge or more.
proof fn lemma_reach_prepend(edges: Seq<(usize, usize)>, a: int, b: int, c: int)
    requires
        has_edge(edges, a, b),
        b == c || reachable(edges, b, c),
    ensures
        reachable(edges, a, c),
{
    if b == c {
        let w = seq![a, b];
        assert(is_walk(edges, w)) by {
            assert forall|i: int| 0 <= i < w.len() - 1 implies #[trigger] has_edge(
                edges,
                w[i],
                w[i + 1],
            ) by {
                assert(i == 0);
            }
        }
        assert(w.last() == c);
    } else {
        let w0 = choose|w: Seq<int>|
            #[trigger] is_walk(edges, w) && w.len() >= 2 && w[0] == b && w.last() == c;
        let w = seq![a] + w0;
        assert(is_walk(edges, w)) by {
            assert forall|i: int| 0 <= i < w.len() - 1 implies #[trigger] has_edge(
                edges,
                w[i],
                w[i + 1],
            ) by {
                if i > 0 {
                    assert(w[i] == w0[i - 1] && w[i + 1] == w0[i]);
                    assert(has_edge(edges, w0[i - 1], w0[(i - 1) + 1]));
                }
            }
        }
        assert(w.last() == c);
    }
}

/// A walk of one edge or more followed by one edge.
proof fn lemma_reach_append(edges: Seq<(usize, usize)>, a: int, b: int, c: int)
    requires
        reachable(edges, a, b),
        has_edge(edges, b, c),
    ensures
        reachable(edges, a, c),
{
    let w0 = choose|w: Seq<int>|
        #[trigger] is_walk(edges, w) && w.len() >= 2 && w[0] == a && w.last() == b;
    let w = w0.push(c);
    assert(is_walk(edges, w)) by {
        assert forall|i: int| 0 <= i < w.len() - 1 implies #[trigger] has_edge(
            edges,
            w[i],
            w[i + 1],
        ) by {
            if i < w0.len() - 1 {
                assert(w[i] == w0[i] && w[i + 1] == w0[i + 1]);
            } else {
                assert(w[i] == b);
            }
        }
    }
    assert(w[0] == a);
    assert(w.last() == c);
}

/// Records that `idx` is visited and that it depends on the nodes its edges
/// lead to; gives those nodes (in edge order), or `None`, changing nothing,
/// when `idx` was visited already. Every node reachable from `idx` must be
/// a node of the graph.
fn set_dependencies<'graph>(
    dependencies: &mut HashMap<usize, &'graph GraphNode>,
    visited: &mut HashSet<usize>,
    graph: &'graph Graph,
    idx: usize,
) -> (r: Option<Vec<usize>>)
    requires
        reach_within(graph.edges_view(), idx as int, graph.nodes_view().len() as int),
    ensures
        old(visited)@.contains(idx) ==> r is None && final(visited)@ == old(visited)@
            && final(dependencies)@ == old(dependencies)@,
        !old(visited)@.contains(idx) ==> (r matches Some(next) && next@ == targets_of(
            graph.edges_view(),
            idx,
        ) && final(visited)@ == old(visited)@.insert(idx) && (forall|w: usize| #[trigger]
            next@.contains(w) <==> has_edge(graph.edges_view(), idx as int, w as int)) && (forall|
            j: int,
        | 0 <= j < next@.len() ==> #[trigger] next@[j] < graph.nodes_view().len()) && (forall|
            w: usize,
        | #[trigger]
            final(dependencies)@.contains_key(w) <==> old(dependencies)@.contains_key(w)
                || next@.contains(w)) && (forall|w: usize| #[trigger]
            next@.contains(w) ==> final(dependencies)@[w]@ == graph.nodes_view()[w as int]) && (
        forall|w: usize| #[trigger]
            old(dependencies)@.contains_key(w) && !next@.contains(w) ==> final(dependencies)@[w]
                == old(dependencies)@[w])),
{
    proof {
        use_type_invariant(graph);
    }
    if visited.contains(&idx) {
        None
    } else {
        let ghost d0 = dependencies@;
        let ghost v0 = visited@;
        let ghost e = graph.edges_view();
        let mut next: Vec<usize> = Vec::new();
        let mut i: usize = 0;
        proof {
            assert(e.take(0) =~= Seq::<(usize, usize)>::empty());
        }
        while i < graph.edges.len()
            invariant
                i <= graph.edges.len(),
                e == graph.edges@,
                v0 == visited@,
                !v0.contains(idx),
                reach_within(e, idx as int, graph.nodes@.len() as int),
                forall|w: usize| #[trigger]
                    dependencies@.contains_key(w) <==> (d0.contains_key(w) || next@.contains(w)),
                forall|w: usize| #[trigger]
                    next@.contains(w) ==> dependencies@[w]@ == graph.nodes_view()[w as int],
                forall|w: usize| #[trigger]
                    d0.contains_key(w) && !next@.contains(w) ==> dependencies@[w] == d0[w],
                forall|w: usize| #[trigger]
                    next@.contains(w) <==> exists|k: int|
                        0 <= k < i && graph.edges@[k].0 == idx && #[trigger] graph.edges@[k].1
                            == w,
                next@ == targets_of(e.take(i as int), idx),
                forall|j: int| 0 <= j < next@.len() ==> #[trigger] next@[j] < graph.nodes@.len(),
            decreases graph.edges.len() - i,
        {
            proof {
                assert(e.take(i + 1).drop_last() =~= e.take(i as int));
                assert(e.take(i + 1).last() == e[i as int]);
            }
            let (home, dep) = graph.edges[i];
            if home == idx {
                proof {
                    assert(has_edge(e, idx as int, dep as int)) by {
                        assert(e[i as int] == (idx, dep));
                    }
                    lemma_reach_prepend(e, idx as int, dep as int, dep as int);
                }
                let ghost before = next@;
                let ghost dbefore = dependencies@;
                dependencies.insert(dep, &graph.nodes[dep]);
                next.push(dep);
                proof {
                    assert(next@ =~= before.push(dep));
                    assert(dependencies@[dep]@ == graph.nodes_view()[dep as int]);
                    assert forall|w: usize| #[trigger]
                        next@.contains(w) <==> exists|k: int|
                            0 <= k < i + 1 && graph.edges@[k].0 == idx && #[trigger] graph.edges@[k].1
                                == w by {
                        if next@.contains(w) {
                            let p = choose|p: int| 0 <= p < next@.len() && next@[p] == w;
                            if p < before.len() {
                                assert(before.contains(w));
                            } else {
                                assert(graph.edges@[i as int].1 == w);
                            }
                        }
                        if exists|k: int|
                            0 <= k < i + 1 && graph.edges@[k].0 == idx && #[trigger] graph.edges@[k].1
                                == w {
                            let k = choose|k: int|
                                0 <= k < i + 1 && graph.edges@[k].0 == idx && #[trigger] graph.edges@[k].1
                                    == w;
                            if k < i {
                                assert(before.contains(w));
                                let p = choose|p: int| 0 <= p < before.len() && before[p] == w;
                                assert(next@[p] == w);
                            } else {
                                assert(next@[next@.len() - 1] == w);
                            }
                        }
                    }
                    assert forall|w: usize| #[trigger]
                        next@.contains(w) implies dependencies@[w]@ == graph.nodes_view()[w as int] by {
                        if w != dep {
                            let p = choose|p: int| 0 <= p < next@.len() && next@[p] == w;
                            assert(p < before.len());
                            assert(before.contains(w));
                        }
                    }
                    assert forall|w: usize| #[trigger]
                        dependencies@.contains_key(w) <==> (d0.contains_key(w) || next@.contains(w)) by {
                        if w == dep {
                            assert(next@[next@.len() - 1] == w);
                        } else if before.contains(w) {
                            let p = choose|p: int| 0 <= p < before.len() && before[p] == w;
                            assert(next@[p] == w);
                        } else if next@.contains(w) {
                            let p = choose|p: int| 0 <= p < next@.len() && next@[p] == w;
                            assert(p < before.len());
                            assert(before.contains(w));
                        }
                    }
                    assert forall|w: usize| #[trigger]
                        d0.contains_key(w) && !next@.contains(w) implies dependencies@[w] == d0[w] by {
                        if before.contains(w) {
                            let p = choose|p: int| 0 <= p < before.len() && before[p] == w;
                            assert(next@[p] == w);
                        }
                        if w == dep {
                            assert(next@[next@.len() - 1] == w);
                        }
                    }
                }
            }
            i = i + 1;
        }
        visited.insert(idx);
        proof {
            assert(e.take(i as int) =~= e);
            assert forall|w: usize| #[trigger]
                next@.contains(w) <==> has_edge(e, idx as int, w as int) by {
                if next@.contains(w) {
                    let k = choose|k: int|
                        0 <= k < graph.edges@.len() && graph.edges@[k].0 == idx && #[trigger] graph.edges@[k].1
                            == w;
                    assert(e[k] == (idx, w));
                }
                if has_edge(e, idx as int, w as int) {
                    let k = choose|k: int|
                        0 <= k < e.len() && #[trigger] e[k] == (idx, w) && idx == e[k].0 && w
                            == e[k].1;
                    assert(graph.edges@[k].1 == w);
                }
            }
        }
        Some(next)
    }
}


proof fn lemma_unvisited_decreases(v0: Set<usize>, v: Set<usize>, idx: usize, n: usize)
    requires
        v0.subset_of(v),
        v.contains(idx),
        !v0.contains(idx),
        idx < n,
    ensures
        unvisited_count(v, n) < unvisited_count(v0, n),
{
    let r = Set::range(0usize, n);
    vstd::set_lib::range_set_properties(0usize, n);
    let a = r.difference(v);
    let b = r.difference(v0);
    assert(a.subset_of(b.remove(idx)));
    vstd::set_lib::lemma_len_subset(a, b.remove(idx));
    vstd::set_lib::lemma_len_subset(b, r);
    assert(b.contains(idx));
}

/// Visits `idx` and, depth first, every node reachable from it that was not
/// visited yet, recording the nodes that visited nodes depend on. Every
/// node reachable from `idx` must be a node of the graph.
fn set_dependencies_r<'graph>(
    parents: &mut HashMap<usize, &'graph GraphNode>,
    visited: &mut HashSet<usize>,
    graph: &'graph Graph,
    idx: usize,
)
    requires
        reach_within(graph.edges_view(), idx as int, graph.nodes_view().len() as int),
    ensures
        forall|w: usize| #[trigger]
            final(parents)@.contains_key(w) <==> old(parents)@.contains_key(w) || new_succ(
                graph.edges_view(),
                old(visited)@,
                final(visited)@,
                w,
            ),
        forall|w: usize| #[trigger]
            new_succ(graph.edges_view(), old(visited)@, final(visited)@, w) ==> w
                < graph.nodes_view().len() && final(parents)@[w]@ == graph.nodes_view()[w as int],
        forall|w: usize|
            old(parents)@.contains_key(w) && !new_succ(
                graph.edges_view(),
                old(visited)@,
                final(visited)@,
                w,
            ) ==> #[trigger] final(parents)@[w] == old(parents)@[w],
        old(visited)@.subset_of(final(visited)@),
        final(visited)@.contains(idx),
        forall|w: usize| #[trigger]
            final(visited)@.contains(w) && !old(visited)@.contains(w) ==> w == idx || reachable(
                graph.edges_view(),
                idx as int,
                w as int,
            ),
        forall|w: usize, x: usize|
            final(visited)@.contains(w) && !old(visited)@.contains(w) && #[trigger] has_edge(
                graph.edges_view(),
                w as int,
                x as int,
            ) ==> final(visited)@.contains(x),
    decreases unvisited_count(old(visited)@, graph.nodes_view().len() as usize),
{
    proof {
        use_type_invariant(graph);
    }
    let ghost v0 = visited@;
    let ghost d0 = parents@;
    let n: usize = graph.nodes.len();
    let ghost e = graph.edges_view();
    if let Some(next) = set_dependencies(parents, visited, graph, idx) {
        proof {
            assert forall|w: usize| #[trigger] new_succ(e, v0, visited@, w) <==> next@.contains(w) by {
                if new_succ(e, v0, visited@, w) {
                    let x = choose|x: usize|
                        visited@.contains(x) && !v0.contains(x) && #[trigger] has_edge(e, x as int, w as int);
                    assert(x == idx);
                }
                if next@.contains(w) {
                    assert(has_edge(e, idx as int, w as int));
                }
            }
            assert forall|w: usize| #[trigger] next@.contains(w) implies w < n by {
                let j = choose|j: int| 0 <= j < next@.len() && next@[j] == w;
            }
            if next@.len() > 0 {
                assert(next@.contains(next@[0]));
                assert(has_edge(e, idx as int, next@[0] as int));
                let k = choose|k: int|
                    0 <= k < e.len() && #[trigger] e[k] == (idx, next@[0]) && idx == e[k].0
                        && next@[0] == e[k].1;
                assert(graph.edges@[k].0 < graph.nodes@.len());
            }
        }
        let mut i: usize = 0;
        while i < next.len()
            invariant
                i <= next.len(),
                n == graph.nodes_view().len(),
                v0 == old(visited)@,
                e == graph.edges_view(),
                next@.len() > 0 ==> idx < n,
                reach_within(e, idx as int, n as int),
                !v0.contains(idx),
                v0.insert(idx).subset_of(visited@),
                d0 == old(parents)@,
                forall|w: usize| #[trigger]
                    parents@.contains_key(w) <==> d0.contains_key(w) || new_succ(e, v0, visited@, w),
                forall|w: usize| #[trigger]
                    new_succ(e, v0, visited@, w) ==> w < n && parents@[w]@
                        == graph.nodes_view()[w as int],
                forall|w: usize|
                    d0.contains_key(w) && !new_succ(e, v0, visited@, w) ==> #[trigger] parents@[w]
                        == d0[w],
                forall|w: usize| #[trigger] next@.contains(w) <==> has_edge(e, idx as int, w as int),
                forall|j: int| 0 <= j < i ==> visited@.contains(#[trigger] next@[j]),
                forall|w: usize| #[trigger]
                    visited@.contains(w) && !v0.contains(w) ==> w == idx || reachable(
                        e,
                        idx as int,
                        w as int,
                    ),
                forall|w: usize, x: usize|
                    visited@.contains(w) && !v0.contains(w) && w != idx && #[trigger] has_edge(
                        e,
                        w as int,
                        x as int,
                    ) ==> visited@.contains(x),
            decreases next.len() - i,
        {
            let x = next[i];
            let ghost v1 = visited@;
            let ghost p1 = parents@;
            proof {
                lemma_unvisited_decreases(v0, v1, idx, n);
                assert(next@.contains(x));
                assert(n == graph.nodes_view().len() as usize);
                assert(unvisited_count(visited@, graph.nodes_view().len() as usize)
                    < unvisited_count(old(visited)@, graph.nodes_view().len() as usize));
                assert(has_edge(e, idx as int, x as int));
                assert forall|k: int| #[trigger] reachable(e, x as int, k) implies k < n by {
                    lemma_reach_prepend(e, idx as int, x as int, k);
                }
            }
            set_dependencies_r(parents, visited, graph, x);
            proof {
                let v2 = visited@;
                assert forall|w: usize| #[trigger]
                    parents@.contains_key(w) <==> d0.contains_key(w) || new_succ(e, v0, v2, w) by {
                    lemma_new_succ_split(e, v0, v1, v2, w);
                }
                assert forall|w: usize| #[trigger]
                    new_succ(e, v0, v2, w) implies w < n && parents@[w]@ == graph.nodes_view()[w as int] by {
                    lemma_new_succ_split(e, v0, v1, v2, w);
                    if !new_succ(e, v1, v2, w) {
                        assert(p1.contains_key(w));
                        assert(parents@[w] == p1[w]);
                    }
                }
                assert forall|w: usize|
                    d0.contains_key(w) && !new_succ(e, v0, v2, w) implies #[trigger] parents@[w] == d0[w] by {
                    lemma_new_succ_split(e, v0, v1, v2, w);
                    assert(p1.contains_key(w));
                    assert(parents@[w] == p1[w]);
                }
                assert forall|w: usize| #[trigger]
                    visited@.contains(w) && !v0.contains(w) implies w == idx || reachable(
                    e,
                    idx as int,
                    w as int,
                ) by {
                    if !v1.contains(w) {
                        lemma_reach_prepend(e, idx as int, x as int, w as int);
                    }
                }
                assert forall|w: usize, y: usize|
                    visited@.contains(w) && !v0.contains(w) && w != idx && #[trigger] has_edge(
                        e,
                        w as int,
                        y as int,
                    ) implies visited@.contains(y) by {
                    if v1.contains(w) {
                        assert(v1.contains(y));
                    }
                }
                assert forall|j: int| 0 <= j < i + 1 implies visited@.contains(#[trigger] next@[j]) by {
                    if j < i {
                        assert(v1.contains(next@[j]));
                    }
                }
            }
            i = i + 1;
        }
        proof {
            assert forall|w: usize, y: usize|
                visited@.contains(w) && !v0.contains(w) && #[trigger] has_edge(
                    e,
                    w as int,
                    y as int,
                ) implies visited@.contains(y) by {
                if w == idx {
                    assert(next@.contains(y));
                    let j = choose|j: int| 0 <= j < next@.len() && next@[j] == y;
                    assert(visited@.contains(next@[j]));
                }
            }
        }
    }
}

/// Every walk from a node of a set that is closed under edges stays in it.
proof fn lemma_closed_walk(e: Seq<(usize, usize)>, v: Set<usize>, w: Seq<int>, k: int)
    requires
        is_walk(e, w),
        w[0] >= 0 && v.contains(w[0] as usize),
        forall|a: usize, b: usize| v.contains(a) && #[trigger] has_edge(e, a as int, b as int) ==> v.contains(b),
        forall|i: int| 0 <= i < e.len() ==> (#[trigger] e[i]).0 >= 0,
        0 <= k < w.len(),
    ensures
        w[k] >= 0 && v.contains(w[k] as usize),
    decreases k,
{
    if k > 0 {
        lemma_closed_walk(e, v, w, k - 1);
        assert(has_edge(e, w[k - 1], w[(k - 1) + 1]));
        let i = choose|i: int|
            0 <= i < e.len() && #[trigger] e[i] == (w[k - 1] as usize, w[k] as usize) && w[k - 1]
                == e[i].0 && w[k] == e[i].1;
        assert(has_edge(e, (w[k - 1] as usize) as int, (w[k] as usize) as int));
    }
}

/// Marks `idx` and, depth first, every node reachable from it that was not
/// marked yet; the nodes need not be nodes of the graph.
fn mark_reachable(visited: &mut HashSet<usize>, graph: &Graph, idx: usize)
    ensures
        old(visited)@.subset_of(final(visited)@),
        final(visited)@.contains(idx),
        forall|w: usize| #[trigger]
            final(visited)@.contains(w) && !old(visited)@.contains(w) ==> w == idx || reachable(
                graph.edges_view(),
                idx as int,
                w as int,
            ),
        forall|w: usize, x: usize|
            final(visited)@.contains(w) && !old(visited)@.contains(w) && #[trigger] has_edge(
                graph.edges_view(),
                w as int,
                x as int,
            ) ==> final(visited)@.contains(x),
    decreases unvisited_count(old(visited)@, (graph.nodes_view().len() + 1) as usize),
{
    proof {
        use_type_invariant(graph);
    }
    if visited.contains(&idx) {
        return;
    }
    let ghost v0 = visited@;
    let ghost e = graph.edges_view();
    let ghost m = (graph.nodes@.len() + 1) as usize;
    visited.insert(idx);
    let mut i: usize = 0;
    while i < graph.edges.len()
        invariant
            i <= graph.edges.len(),
            e == graph.edges@,
            m == graph.nodes@.len() + 1,
            forall|k: int| 0 <= k < e.len() ==> (#[trigger] e[k]).0 < graph.nodes@.len(),
            v0 == old(visited)@,
            !v0.contains(idx),
            v0.insert(idx).subset_of(visited@),
            forall|k: int| 0 <= k < i && (#[trigger] e[k]).0 == idx ==> visited@.contains(e[k].1),
            forall|w: usize| #[trigger]
                visited@.contains(w) && !v0.contains(w) ==> w == idx || reachable(
                    e,
                    idx as int,
                    w as int,
                ),
            forall|w: usize, x: usize|
                visited@.contains(w) && !v0.contains(w) && w != idx && #[trigger] has_edge(
                    e,
                    w as int,
                    x as int,
                ) ==> visited@.contains(x),
        decreases graph.edges.len() - i,
    {
        let (home, dep) = graph.edges[i];
        if home == idx {
            let ghost v1 = visited@;
            proof {
                assert(e[i as int] == (home, dep));
                lemma_unvisited_decreases(v0, v1, idx, m);
                assert(has_edge(e, idx as int, dep as int));
            }
            mark_reachable(visited, graph, dep);
            proof {
                assert forall|w: usize| #[trigger]
                    visited@.contains(w) && !v0.contains(w) implies w == idx || reachable(
                    e,
                    idx as int,
                    w as int,
                ) by {
                    if !v1.contains(w) {
                        lemma_reach_prepend(e, idx as int, dep as int, w as int);
                    }
                }
                assert forall|w: usize, y: usize|
                    visited@.contains(w) && !v0.contains(w) && w != idx && #[trigger] has_edge(
                        e,
                        w as int,
                        y as int,
                    ) implies visited@.contains(y) by {
                    if v1.contains(w) {
                        assert(v1.contains(y));
                    }
                }
                assert forall|k: int|
                    0 <= k < i + 1 && (#[trigger] e[k]).0 == idx implies visited@.contains(e[k].1) by {
                    if k < i {
                        assert(v1.contains(e[k].1));
                    }
                }
            }
        }
        i = i + 1;
    }
    proof {
        assert forall|w: usize, y: usize|
            visited@.contains(w) && !v0.contains(w) && #[trigger] has_edge(
                e,
                w as int,
                y as int,
            ) implies visited@.contains(y) by {
            if w == idx {
                let k = choose|k: int|
                    0 <= k < e.len() && #[trigger] e[k] == (w, y) && w as int == e[k].0 && y as int
                        == e[k].1;
                assert(e[k].0 == idx);
            }
        }
    }
}

impl Graph {
    /// Whether every node reachable from `idx` is a node of the graph (see
    /// `reach_within`).
    pub fn dependencies_within_nodes(&self, idx: usize) -> (r: bool)
        ensures
            r == reach_within(self.edges_view(), idx as int, self.nodes_view().len() as int),
    {
        proof {
            use_type_invariant(self);
        }
        let ghost e = self.edges_view();
        let mut visited: HashSet<usize> = HashSet::new();
        mark_reachable(&mut visited, self, idx);
        let n = self.nodes.len();
        let mut i: usize = 0;
        while i < self.edges.len()
            invariant
                i <= self.edges.len(),
                e == self.edges@,
                n == self.nodes@.len(),
                visited@.contains(idx),
                forall|w: usize| #[trigger]
                    visited@.contains(w) ==> w == idx || reachable(e, idx as int, w as int),
                forall|w: usize, x: usize|
                    visited@.contains(w) && #[trigger] has_edge(e, w as int, x as int)
                        ==> visited@.contains(x),
                forall|k: int| 0 <= k < i && visited@.contains((#[trigger] e[k]).0) ==> e[k].1 < n,
            decreases self.edges.len() - i,
        {
            let (a, b) = self.edges[i];
            if visited.contains(&a) && b >= n {
                proof {
                    assert(e[i as int] == (a, b));
                    assert(has_edge(e, a as int, b as int));
                    if a == idx {
                        lemma_reach_prepend(e, idx as int, b as int, b as int);
                    } else {
                        lemma_reach_append(e, idx as int, a as int, b as int);
                    }
                    assert(reachable(e, idx as int, b as int));
                }
                return false;
            }
            i = i + 1;
        }
        proof {
            assert forall|k: int| #[trigger] reachable(e, idx as int, k) implies k < n by {
                let w = choose|w: Seq<int>|
                    #[trigger] is_walk(e, w) && w.len() >= 2 && w[0] == idx && w.last() == k;
                lemma_closed_walk(e, visited@, w, w.len() - 2);
                assert(has_edge(e, w[w.len() - 2], w[(w.len() - 2) + 1]));
                let j = choose|j: int|
                    0 <= j < e.len() && #[trigger] e[j] == (w[w.len() - 2] as usize, k as usize)
                        && w[w.len() - 2] == e[j].0 && k == e[j].1;
                assert(visited@.contains(e[j].0));
            }
        }
        true
    }

    /// Every node reachable from `idx` by one edge or more, by index; each
    /// of them must be a node of the graph (see `dependencies_within_nodes`).
    pub fn find_dependencies_of(&self, idx: usize) -> (r: HashMap<usize, &GraphNode>)
        requires
            reach_within(self.edges_view(), idx as int, self.nodes_view().len() as int),
        ensures
            forall|k: usize| #[trigger]
                r@.contains_key(k) <==> reachable(self.edges_view(), idx as int, k as int),
            forall|k: usize| #[trigger]
                r@.contains_key(k) ==> k < self.nodes_view().len() && r@[k]@ == self.nodes_view()[k as int],
    {
        let mut dependencies: HashMap<usize, &GraphNode> = HashMap::new();
        let mut visited: HashSet<usize> = HashSet::new();
        let ghost e = self.edges_view();
        let ghost v0 = visited@;
        set_dependencies_r(&mut dependencies, &mut visited, self, idx);
        proof {
            let v = visited@;
            assert forall|k: usize| #[trigger]
                dependencies@.contains_key(k) <==> reachable(e, idx as int, k as int) by {
                if dependencies@.contains_key(k) {
                    assert(new_succ(e, v0, v, k));
                    let x = choose|x: usize|
                        v.contains(x) && !v0.contains(x) && #[trigger] has_edge(e, x as int, k as int);
                    if x == idx {
                        lemma_reach_prepend(e, idx as int, k as int, k as int);
                    } else {
                        lemma_reach_append(e, idx as int, x as int, k as int);
                    }
                }
                if reachable(e, idx as int, k as int) {
                    let w = choose|w: Seq<int>|
                        #[trigger] is_walk(e, w) && w.len() >= 2 && w[0] == idx && w.last() == k;
                    lemma_closed_walk(e, v, w, w.len() - 2);
                    assert(has_edge(e, w[w.len() - 2], w[(w.len() - 2) + 1]));
                    let j = choose|j: int|
                        0 <= j < e.len() && #[trigger] e[j] == (w[w.len() - 2] as usize, k)
                            && w[w.len() - 2] == e[j].0 && k == e[j].1;
                    assert(has_edge(e, e[j].0 as int, k as int));
                    assert(new_succ(e, v0, v, k));
                }
            }
            assert forall|k: usize| #[trigger] dependencies@.contains_key(k) implies k
                < self.nodes_view().len() && dependencies@[k]@ == self.nodes_view()[k as int] by {
                assert(new_succ(e, v0, v, k));
            }
        }
        dependencies
    }
}


/// The number of `..` components.
pub open spec fn up_count(c: Seq<Seq<char>>) -> nat
    decreases c.len(),
{
    if c.len() == 0 {
        0
    } else if c.last() == seq!['.', '.'] {
        up_count(c.drop_last()) + 1
    } else {
        up_count(c.drop_last())
    }
}

/// The components that are neither `..` nor `.`, in order.
pub open spec fn down_components(c: Seq<Seq<char>>) -> Seq<Seq<char>>
    decreases c.len(),
{
    if c.len() == 0 {
        seq![]
    } else if c.last() == seq!['.', '.'] || c.last() == seq!['.'] {
        down_components(c.drop_last())
    } else {
        down_components(c.drop_last()).push(c.last())
    }
}

/// `p` after taking its parent `n` times, if it has that many.
pub open spec fn ancestor(p: Seq<char>, n: nat) -> Option<Seq<char>>
    decreases n,
{
    if n == 0 {
        Some(p)
    } else {
        match parent_of(p) {
            Some(q) => ancestor(q, (n - 1) as nat),
            None => None,
        }
    }
}

/// Where a path written in the file `relative_to` leads: from the file's
/// directory, one level up for each `..` in the path (wherever it stands),
/// then down the path's other components (`.` components dropped); `None`
/// when that climbs above the root, or when the file has no directory.
pub open spec fn resolve_relative(path: Seq<char>, relative_to: Seq<char>) -> Option<Seq<char>> {
    let c = components(path);
    match parent_of(relative_to) {
        Some(dir) => match ancestor(dir, up_count(c)) {
            Some(base) => Some(push_path(base, render(down_components(c)))),
            None => None,
        },
        None => None,
    }
}

/// The number of `..` components of `path`, and its components that are
/// neither `..` nor `.`.
pub fn split_relative(path: &str) -> (r: (usize, Vec<Vec<char>>))
    ensures
        r.0 == up_count(components(path@)),
        char_views(r.1@) == down_components(components(path@)),
{
    let pc = chars_of(path);
    let comps = components_exec(pc.as_slice());
    let ghost c = components(path@);
    let mut ups: usize = 0;
    let mut downs: Vec<Vec<char>> = Vec::new();
    let mut i: usize = 0;
    proof {
        assert(c.take(0) =~= Seq::<Seq<char>>::empty());
    }
    while i < comps.len()
        invariant
            i <= comps.len(),
            c == components(path@),
            char_views(comps@) == c,
            ups == up_count(c.take(i as int)),
            ups <= i,
            char_views(downs@) == down_components(c.take(i as int)),
        decreases comps.len() - i,
    {
        proof {
            assert(c.take(i + 1).drop_last() =~= c.take(i as int));
            assert(c.take(i + 1).last() == comps@[i as int]@);
        }
        let comp = &comps[i];
        let is_up = comp.len() == 2 && comp[0] == '.' && comp[1] == '.';
        let is_cur = comp.len() == 1 && comp[0] == '.';
        proof {
            if comp@ == seq!['.', '.'] {
                assert(comp@.len() == 2);
            }
            if comp@ == seq!['.'] {
                assert(comp@.len() == 1);
            }
            if is_up {
                assert(comp@ =~= seq!['.', '.']);
            }
            if is_cur {
                assert(comp@ =~= seq!['.']);
            }
        }
        if is_up {
            ups = ups + 1;
        } else if !is_cur {
            let ghost before = char_views(downs@);
            let x = copy_chars(comp.as_slice());
            downs.push(x);
            proof {
                assert(char_views(downs@) =~= before.push(comp@));
            }
        }
        i = i + 1;
    }
    proof {
        assert(c.take(comps.len() as int) =~= c);
    }
    (ups, downs)
}

/// Where the path `path`, written in the file `relative_to`, leads (see
/// `resolve_relative`); `relative_to` must have a directory (it is not the
/// root).
pub fn from_relative(path: &str, relative_to: &AbsolutePathBuf) -> (r: Option<String>)
    requires
        parent_of(relative_to@.1) is Some,
    ensures
        match r {
            Some(p) => resolve_relative(path@, relative_to@.1) == Some(p@),
            None => resolve_relative(path@, relative_to@.1) is None,
        },
{
    let start = match relative_to.parent() {
        Some(p) => p,
        None => {
            return None;
        },
    };
    let (ups, downs) = split_relative(path);
    let mut base = chars_of(start.as_str());
    let mut k: usize = 0;
    while k < ups
        invariant
            k <= ups,
            ups == up_count(components(path@)),
            parent_of(relative_to@.1) == Some(start@),
            ancestor(start@, ups as nat) == ancestor(base@, (ups - k) as nat),
        decreases ups - k,
    {
        match parent_exec(base.as_slice()) {
            Some(q) => {
                base = q;
            },
            None => {
                return None;
            },
        }
        k = k + 1;
    }
    let down_path = render_exec(&downs);
    let joined = join_exec(base.as_slice(), down_path.as_slice());
    Some(string_from_chars(joined.as_slice()))
}

} // verus!
