//! What `show` prints: the files to watch, and the edges of the graph as
//! pairs of files.

use vstd::prelude::*;

use crate::attr::{handle_prefix, Attrname};
use crate::cache::{dedup_consecutive, first_match};
use crate::fs::{relative_under, same_abs_path, AbsolutePathBuf, AbsolutePathView, DirFacts, DirFactsView};
use crate::graph::{
    edges_end_at_nodes, reach_within, reachable, Graph, GraphNodeView, NodeId, NodeIdView,
};
use crate::text::{
    is_prefix, lemma_lex_order, lex_le, lex_lt, lex_sorted, sort_strings, str_eq, str_less, str_views,
};

verus! {

broadcast use vstd::std_specs::hash::group_hash_axioms;

/// Why the files to watch could not be listed.
#[derive(Debug, Clone, Copy)]
pub enum ShowWatchFilesError {
    CreatingGraph,
    GettingGeneratedPaths,
    InvalidPaths,
}

/// Why the edges could not be listed.
#[derive(Debug, Clone, Copy)]
pub enum FileEdgePairsError {
    CreatingGraph,
    CalculatingRelativePath,
}

/// Why the graph could not be shown.
#[derive(Debug, Clone, Copy)]
pub enum ShowGraphError {
    FileEdges,
}

/// Why `show` failed.
#[derive(Debug, Clone, Copy)]
pub enum ShowError {
    WatchFiles,
    Graph,
}

/// The paths of the nodes reachable from `start`, by index, among the
/// first `n` nodes.
pub open spec fn reachable_paths(
    nodes: Seq<GraphNodeView>,
    edges: Seq<(usize, usize)>,
    start: int,
    n: int,
) -> Seq<AbsolutePathView>
    decreases n,
{
    if n <= 0 {
        seq![]
    } else {
        let rest = reachable_paths(nodes, edges, start, n - 1);
        if reachable(edges, start, n - 1) {
            rest.push(nodes[n - 1].0)
        } else {
            rest
        }
    }
}

/// For each derivation asked for that is a handle naming a node: that
/// node's path, then the paths of the nodes it depends on.
pub open spec fn handle_files(
    nodes: Seq<GraphNodeView>,
    edges: Seq<(usize, usize)>,
    drvs: Seq<Seq<char>>,
) -> Seq<AbsolutePathView>
    decreases drvs.len(),
{
    if drvs.len() == 0 {
        seq![]
    } else {
        let rest = handle_files(nodes, edges, drvs.drop_last());
        let d = drvs.last();
        if is_prefix(handle_prefix(), d) {
            match first_match(nodes, NodeIdView::Attrname(d)) {
                Some(i) => rest + seq![nodes[i].0] + reachable_paths(
                    nodes,
                    edges,
                    i,
                    nodes.len() as int,
                ),
                None => rest,
            }
        } else {
            rest
        }
    }
}

/// Listing the files to watch looks up the dependencies of the node that
/// each derivation asked for names, when it is a handle naming one: each
/// of those must reach only nodes of the graph.
pub open spec fn watch_within_nodes(
    nodes: Seq<GraphNodeView>,
    edges: Seq<(usize, usize)>,
    drvs: Seq<Seq<char>>,
) -> bool {
    forall|j: int|
        0 <= j < drvs.len() && is_prefix(handle_prefix(), #[trigger] drvs[j]) ==> match first_match(
            nodes,
            NodeIdView::Attrname(drvs[j]),
        ) {
            Some(i) => reach_within(edges, i, nodes.len() as int),
            None => true,
        }
}

/// The files that are candidates for watching: every node's when no
/// derivation is asked for, else those of the derivations.
pub open spec fn watch_candidates(
    nodes: Seq<GraphNodeView>,
    edges: Seq<(usize, usize)>,
    drvs: Seq<Seq<char>>,
) -> Seq<AbsolutePathView> {
    if drvs.len() == 0 {
        nodes.map_values(|n: GraphNodeView| n.0)
    } else {
        handle_files(nodes, edges, drvs)
    }
}

/// The candidates other than the generated file, relative to the
/// directory; `None` when one of them cannot be.
pub open spec fn shown_paths(
    cands: Seq<AbsolutePathView>,
    generated: AbsolutePathView,
    dir: DirFactsView,
) -> Option<Seq<Seq<char>>>
    decreases cands.len(),
{
    if cands.len() == 0 {
        Some(seq![])
    } else {
        match shown_paths(cands.drop_last(), generated, dir) {
            Some(r) => {
                let c = cands.last();
                if same_abs_path(c, generated) {
                    Some(r)
                } else {
                    match relative_under(dir, c.1) {
                        Some(x) => Some(r.push(x)),
                        None => None,
                    }
                }
            },
            None => None,
        }
    }
}

/// Once a prefix cannot be shown, neither can the whole.
proof fn lemma_shown_none(cands: Seq<AbsolutePathView>, g: AbsolutePathView, d: DirFactsView, n: int)
    requires
        0 <= n <= cands.len(),
        shown_paths(cands.take(n), g, d) is None,
    ensures
        shown_paths(cands, g, d) is None,
    decreases cands.len(),
{
    if n == cands.len() {
        assert(cands.take(n) =~= cands);
    } else {
        assert(cands.drop_last().take(n) =~= cands.take(n));
        lemma_shown_none(cands.drop_last(), g, d, n);
    }
}

/// The views of a sequence of absolute paths.
pub open spec fn abs_views(v: Seq<AbsolutePathBuf>) -> Seq<AbsolutePathView> {
    v.map_values(|p: AbsolutePathBuf| p@)
}

/// Appends the paths of the nodes reachable from `start`.
fn push_reachable(graph: &Graph, start: usize, out: &mut Vec<AbsolutePathBuf>)
    requires
        reach_within(graph.edges_view(), start as int, graph.nodes_view().len() as int),
    ensures
        abs_views(final(out)@) == abs_views(old(out)@) + reachable_paths(
            graph.nodes_view(),
            graph.edges_view(),
            start as int,
            graph.nodes_view().len() as int,
        ),
{
    let deps = graph.find_dependencies_of(start);
    let n = graph.node_count();
    let ghost base = abs_views(out@);
    let mut k: usize = 0;
    proof {
        assert(base + Seq::<AbsolutePathView>::empty() =~= base);
    }
    while k < n
        invariant
            k <= n,
            n == graph.nodes_view().len(),
            forall|x: usize| #[trigger]
                deps@.contains_key(x) <==> reachable(graph.edges_view(), start as int, x as int),
            abs_views(out@) == base + reachable_paths(
                graph.nodes_view(),
                graph.edges_view(),
                start as int,
                k as int,
            ),
        decreases n - k,
    {
        if deps.contains_key(&k) {
            let ghost before = abs_views(out@);
            out.push(graph.node(k).path.duplicate());
            proof {
                assert(abs_views(out@) =~= before.push(graph.nodes_view()[k as int].0));
            }
        }
        k = k + 1;
    }
}

/// The candidate files (see `watch_candidates`).
fn candidates(graph: &Graph, derivations: &Vec<String>) -> (r: Vec<AbsolutePathBuf>)
    requires
        watch_within_nodes(graph.nodes_view(), graph.edges_view(), str_views(derivations@)),
    ensures
        abs_views(r@) == watch_candidates(
            graph.nodes_view(),
            graph.edges_view(),
            str_views(derivations@),
        ),
{
    let ghost nodes = graph.nodes_view();
    let ghost edges = graph.edges_view();
    let mut out: Vec<AbsolutePathBuf> = Vec::new();
    if derivations.len() == 0 {
        let n = graph.node_count();
        let mut k: usize = 0;
        while k < n
            invariant
                k <= n,
                n == nodes.len(),
                nodes == graph.nodes_view(),
                abs_views(out@) == nodes.map_values(|x: GraphNodeView| x.0).take(k as int),
            decreases n - k,
        {
            let ghost before = abs_views(out@);
            let nd = graph.node(k);
            out.push(nd.path.duplicate());
            proof {
                let m = nodes.map_values(|x: GraphNodeView| x.0);
                assert(m.take(k + 1) =~= m.take(k as int).push(nodes[k as int].0));
                assert(abs_views(out@) =~= before.push(nd.path@));
            }
            k = k + 1;
        }
        proof {
            assert(nodes.map_values(|x: GraphNodeView| x.0).take(n as int) =~= nodes.map_values(
                |x: GraphNodeView| x.0,
            ));
        }
        return out;
    }
    let ghost dv = str_views(derivations@);
    let mut i: usize = 0;
    proof {
        assert(dv.take(0) =~= Seq::<Seq<char>>::empty());
        assert(abs_views(out@) =~= Seq::<AbsolutePathView>::empty());
    }
    while i < derivations.len()
        invariant
            i <= derivations.len(),
            dv == str_views(derivations@),
            nodes == graph.nodes_view(),
            edges == graph.edges_view(),
            watch_within_nodes(nodes, edges, dv),
            abs_views(out@) == handle_files(nodes, edges, dv.take(i as int)),
        decreases derivations.len() - i,
    {
        proof {
            assert(dv.take(i + 1).drop_last() =~= dv.take(i as int));
            assert(dv.take(i + 1).last() == derivations@[i as int]@);
        }
        match Attrname::try_from_str(derivations[i].as_str()) {
            Ok(a) => {
                match graph.find_node(&NodeId::Attrname(a)) {
                    Some((idx, node)) => {
                        proof {
                            crate::cache::lemma_first_match_of(nodes, NodeIdView::Attrname(derivations@[i as int]@), idx as int);
                            assert(dv[i as int] == derivations@[i as int]@);
                        }
                        let ghost before = abs_views(out@);
                        out.push(node.path.duplicate());
                        push_reachable(graph, idx, &mut out);
                        proof {
                            assert(abs_views(out@) =~= before + seq![nodes[idx as int].0] + reachable_paths(
                                nodes,
                                edges,
                                idx as int,
                                nodes.len() as int,
                            ));
                        }
                    },
                    None => {},
                }
            },
            Err(_) => {},
        }
        i = i + 1;
    }
    proof {
        assert(dv.take(derivations.len() as int) =~= dv);
    }
    out
}

/// Whether the dependencies that listing the files to watch looks up
/// reach only nodes of the graph (see `watch_within_nodes`).
pub fn watch_reaches_only_nodes(graph: &Graph, derivations: &Vec<String>) -> (r: bool)
    ensures
        r == watch_within_nodes(graph.nodes_view(), graph.edges_view(), str_views(derivations@)),
{
    let ghost nodes = graph.nodes_view();
    let ghost edges = graph.edges_view();
    let ghost dv = str_views(derivations@);
    let mut i: usize = 0;
    while i < derivations.len()
        invariant
            i <= derivations.len(),
            dv == str_views(derivations@),
            nodes == graph.nodes_view(),
            edges == graph.edges_view(),
            forall|j: int|
                0 <= j < i && is_prefix(handle_prefix(), #[trigger] dv[j]) ==> match first_match(
                    nodes,
                    NodeIdView::Attrname(dv[j]),
                ) {
                    Some(x) => reach_within(edges, x, nodes.len() as int),
                    None => true,
                },
        decreases derivations.len() - i,
    {
        proof {
            assert(dv[i as int] == derivations@[i as int]@);
        }
        match Attrname::try_from_str(derivations[i].as_str()) {
            Ok(a) => {
                match graph.find_node(&NodeId::Attrname(a)) {
                    Some((idx, _)) => {
                        proof {
                            crate::cache::lemma_first_match_of(nodes, NodeIdView::Attrname(dv[i as int]), idx as int);
                        }
                        if !graph.dependencies_within_nodes(idx) {
                            return false;
                        }
                    },
                    None => {
                        proof {
                            let id = NodeIdView::Attrname(dv[i as int]);
                            if exists|x: int| crate::cache::is_first_match(nodes, id, x) {
                                let x = choose|x: int| crate::cache::is_first_match(nodes, id, x);
                                assert(!crate::graph::node_matches(id, nodes[x]));
                            }
                        }
                    },
                }
            },
            Err(_) => {},
        }
        i = i + 1;
    }
    true
}

/// The files to watch: the candidates (see `watch_candidates`) other than
/// the generated file, relative to the project directory, with runs of
/// repeats dropped, sorted; refused when one cannot be made relative.
/// Each dependency looked up must be a node of the graph.
pub fn watch_files(
    graph: &Graph,
    derivations: &Vec<String>,
    generated: &AbsolutePathBuf,
    dir: &DirFacts,
) -> (r: Result<Vec<String>, ShowWatchFilesError>)
    requires
        watch_within_nodes(graph.nodes_view(), graph.edges_view(), str_views(derivations@)),
    ensures
        match (
            shown_paths(
                watch_candidates(graph.nodes_view(), graph.edges_view(), str_views(derivations@)),
                generated@,
                dir@,
            ),
            r,
        ) {
            (Some(s), Ok(v)) => lex_sorted(str_views(v@)) && str_views(v@).to_multiset()
                == dedup_consecutive(s).to_multiset(),
            (None, Err(e)) => e is InvalidPaths,
            _ => false,
        },
{
    let cands = candidates(graph, derivations);
    let ghost cv = abs_views(cands@);
    let mut shown: Vec<String> = Vec::new();
    let mut i: usize = 0;
    proof {
        assert(cv.take(0) =~= Seq::<AbsolutePathView>::empty());
        assert(str_views(shown@) =~= Seq::<Seq<char>>::empty());
    }
    while i < cands.len()
        invariant
            i <= cands.len(),
            cv == abs_views(cands@),
            cv == watch_candidates(graph.nodes_view(), graph.edges_view(), str_views(derivations@)),
            shown_paths(cv.take(i as int), generated@, dir@) == Some(str_views(shown@)),
        decreases cands.len() - i,
    {
        proof {
            assert(cv.take(i + 1).drop_last() =~= cv.take(i as int));
            assert(cv.take(i + 1).last() == cands@[i as int]@);
        }
        if !cands[i].same_as(generated) {
            match cands[i].relative_in(dir) {
                Some(x) => {
                    let ghost before = str_views(shown@);
                    shown.push(x);
                    proof {
                        assert(str_views(shown@) =~= before.push(shown@.last()@));
                    }
                },
                None => {
                    proof {
                        lemma_shown_none(cv, generated@, dir@, i + 1);
                    }
                    return Err(ShowWatchFilesError::InvalidPaths);
                },
            }
        }
        i = i + 1;
    }
    proof {
        assert(cv.take(cands.len() as int) =~= cv);
    }
    let ghost sv = str_views(shown@);
    let mut kept: Vec<String> = Vec::new();
    let mut j: usize = 0;
    proof {
        assert(sv.take(0) =~= Seq::<Seq<char>>::empty());
        assert(str_views(kept@) =~= Seq::<Seq<char>>::empty());
    }
    while j < shown.len()
        invariant
            j <= shown.len(),
            sv == str_views(shown@),
            str_views(kept@) == dedup_consecutive(sv.take(j as int)),
        decreases shown.len() - j,
    {
        let ghost t = sv.take(j + 1);
        proof {
            assert(t.drop_last() =~= sv.take(j as int));
            assert(t.last() == shown@[j as int]@);
            if j > 0 {
                assert(t[t.len() - 2] == shown@[j - 1]@);
            }
        }
        if j == 0 || !str_eq(shown[j].as_str(), shown[j - 1].as_str()) {
            let ghost before = str_views(kept@);
            kept.push(shown[j].clone());
            proof {
                assert(str_views(kept@) =~= before.push(shown@[j as int]@));
            }
        }
        j = j + 1;
    }
    proof {
        assert(sv.take(shown.len() as int) =~= sv);
    }
    Ok(sort_strings(kept))
}

/// Each edge as the pair of its nodes' paths relative to the directory;
/// `None` when one of them cannot be.
pub open spec fn edge_pairs(
    nodes: Seq<GraphNodeView>,
    edges: Seq<(usize, usize)>,
    dir: DirFactsView,
) -> Option<Seq<(Seq<char>, Seq<char>)>>
    decreases edges.len(),
{
    if edges.len() == 0 {
        Some(seq![])
    } else {
        match edge_pairs(nodes, edges.drop_last(), dir) {
            Some(r) => {
                let e = edges.last();
                match (
                    relative_under(dir, nodes[e.0 as int].0.1),
                    relative_under(dir, nodes[e.1 as int].0.1),
                ) {
                    (Some(a), Some(b)) => Some(r.push((a, b))),
                    _ => None,
                }
            },
            None => None,
        }
    }
}

/// Once a prefix of the edges cannot be shown, neither can all of them.
proof fn lemma_pairs_none(
    nodes: Seq<GraphNodeView>,
    edges: Seq<(usize, usize)>,
    d: DirFactsView,
    n: int,
)
    requires
        0 <= n <= edges.len(),
        edge_pairs(nodes, edges.take(n), d) is None,
    ensures
        edge_pairs(nodes, edges, d) is None,
    decreases edges.len(),
{
    if n == edges.len() {
        assert(edges.take(n) =~= edges);
    } else {
        assert(edges.drop_last().take(n) =~= edges.take(n));
        lemma_pairs_none(nodes, edges.drop_last(), d, n);
    }
}

/// The views of a sequence of pairs of strings.
pub open spec fn pair_views(v: Seq<(String, String)>) -> Seq<(Seq<char>, Seq<char>)> {
    v.map_values(|p: (String, String)| (p.0@, p.1@))
}

/// The edges as pairs of files (see `edge_pairs`), in the graph's order;
/// every edge must end at a node.
pub fn file_edge_pairs(graph: &Graph, dir: &DirFacts) -> (r: Result<
    Vec<(String, String)>,
    FileEdgePairsError,
>)
    requires
        edges_end_at_nodes(graph.edges_view(), graph.nodes_view().len() as int),
    ensures
        match (edge_pairs(graph.nodes_view(), graph.edges_view(), dir@), r) {
            (Some(p), Ok(v)) => pair_views(v@) == p,
            (None, Err(e)) => e is CalculatingRelativePath,
            _ => false,
        },
{
    let edges = graph.to_edges();
    let ghost nodes = graph.nodes_view();
    let ghost ev = graph.edges_view();
    let mut out: Vec<(String, String)> = Vec::new();
    let mut i: usize = 0;
    proof {
        assert(ev.take(0) =~= Seq::<(usize, usize)>::empty());
        assert(pair_views(out@) =~= Seq::<(Seq<char>, Seq<char>)>::empty());
    }
    while i < edges.len()
        invariant
            i <= edges.len(),
            edges@.len() == ev.len(),
            nodes == graph.nodes_view(),
            ev == graph.edges_view(),
            forall|k: int|
                0 <= k < edges@.len() ==> (#[trigger] edges@[k]).0@ == nodes[ev[k].0 as int]
                    && edges@[k].1@ == nodes[ev[k].1 as int],
            edge_pairs(nodes, ev.take(i as int), dir@) == Some(pair_views(out@)),
        decreases edges.len() - i,
    {
        proof {
            assert(ev.take(i + 1).drop_last() =~= ev.take(i as int));
            assert(ev.take(i + 1).last() == ev[i as int]);
        }
        let a = edges[i].0.path.relative_in(dir);
        let b = edges[i].1.path.relative_in(dir);
        match (a, b) {
            (Some(x), Some(y)) => {
                let ghost before = pair_views(out@);
                out.push((x, y));
                proof {
                    assert(pair_views(out@) =~= before.push((out@.last().0@, out@.last().1@)));
                }
            },
            _ => {
                proof {
                    lemma_pairs_none(nodes, ev, dir@, i + 1);
                }
                return Err(FileEdgePairsError::CalculatingRelativePath);
            },
        }
        i = i + 1;
    }
    proof {
        assert(ev.take(edges.len() as int) =~= ev);
    }
    Ok(out)
}

/// Pairs ordered by their first string, then by their second.
pub open spec fn pair_lt(x: (Seq<char>, Seq<char>), y: (Seq<char>, Seq<char>)) -> bool {
    lex_lt(x.0, y.0) || (x.0 == y.0 && lex_lt(x.1, y.1))
}

/// `x` is not after `y`.
pub open spec fn pair_le(x: (Seq<char>, Seq<char>), y: (Seq<char>, Seq<char>)) -> bool {
    pair_lt(x, y) || x == y
}

/// Each pair is at most every later one.
pub open spec fn pairs_sorted(v: Seq<(Seq<char>, Seq<char>)>) -> bool {
    forall|i: int, j: int| 0 <= i < j < v.len() ==> pair_le(#[trigger] v[i], #[trigger] v[j])
}

/// The order on pairs is a total order.
pub proof fn lemma_pair_order(
    x: (Seq<char>, Seq<char>),
    y: (Seq<char>, Seq<char>),
    z: (Seq<char>, Seq<char>),
)
    ensures
        !pair_lt(x, x),
        pair_lt(x, y) ==> !pair_lt(y, x),
        pair_lt(x, y) && pair_lt(y, z) ==> pair_lt(x, z),
        x != y ==> pair_lt(x, y) || pair_lt(y, x),
{
    lemma_lex_order(x.0, y.0, z.0);
    lemma_lex_order(x.1, y.1, z.1);
    lemma_lex_order(y.0, x.0, z.0);
    lemma_lex_order(y.1, x.1, z.1);
    lemma_lex_order(x.0, x.0, y.0);
    lemma_lex_order(x.1, x.1, y.1);
    if x.0 == y.0 && x.1 == y.1 {
        assert(x == y);
    }
}

/// Whether pair `x` comes strictly before pair `y`.
fn pair_less(x: &(String, String), y: &(String, String)) -> (r: bool)
    ensures
        r == pair_lt((x.0@, x.1@), (y.0@, y.1@)),
{
    str_less(x.0.as_str(), y.0.as_str()) || (str_eq(x.0.as_str(), y.0.as_str()) && str_less(
        x.1.as_str(),
        y.1.as_str(),
    ))
}

/// Sorts the pairs by their first string, then by their second (as the
/// edges are printed).
pub fn sort_pairs(v: Vec<(String, String)>) -> (out: Vec<(String, String)>)
    ensures
        pairs_sorted(pair_views(out@)),
        pair_views(out@).to_multiset() == pair_views(v@).to_multiset(),
{
    let mut out: Vec<(String, String)> = Vec::new();
    let mut i: usize = 0;
    proof {
        assert(pair_views(v@.take(0)) =~= pair_views(out@));
    }
    while i < v.len()
        invariant
            i <= v.len(),
            pairs_sorted(pair_views(out@)),
            pair_views(out@).to_multiset() == pair_views(v@.take(i as int)).to_multiset(),
        decreases v.len() - i,
    {
        let x = (v[i].0.clone(), v[i].1.clone());
        let ghost xv = (x.0@, x.1@);
        let mut j: usize = 0;
        while j < out.len() && !pair_less(&x, &out[j])
            invariant
                j <= out.len(),
                xv == (x.0@, x.1@),
                forall|k: int| 0 <= k < j ==> pair_le(#[trigger] pair_views(out@)[k], xv),
            decreases out.len() - j,
        {
            proof {
                let o = pair_views(out@)[j as int];
                if o != xv {
                    lemma_pair_order(o, xv, xv);
                }
            }
            j = j + 1;
        }
        let ghost before = pair_views(out@);
        proof {
            assert forall|k: int| j <= k < before.len() implies pair_lt(xv, #[trigger] before[k]) by {
                lemma_pair_order(xv, before[j as int], before[k]);
                lemma_pair_order(before[j as int], before[k], before[k]);
            }
        }
        out.insert(j, x);
        proof {
            let after = pair_views(out@);
            assert(after =~= before.insert(j as int, xv));
            assert forall|p: int, q: int| 0 <= p < q < after.len() implies pair_le(
                #[trigger] after[p],
                #[trigger] after[q],
            ) by {
                if q < j {
                } else if p < j && q == j {
                } else if p < j {
                    assert(pair_le(before[p], xv));
                    assert(pair_lt(xv, before[q - 1]));
                    lemma_pair_order(before[p], xv, before[q - 1]);
                } else if p == j {
                    assert(pair_lt(xv, before[q - 1]));
                } else {
                    assert(pair_le(before[p - 1], before[q - 1]));
                }
            }
            assert(before.insert(j as int, xv) =~= before.subrange(0, j as int).push(xv)
                + before.subrange(j as int, before.len() as int));
            vstd::seq_lib::lemma_multiset_commutative(
                before.subrange(0, j as int).push(xv),
                before.subrange(j as int, before.len() as int),
            );
            vstd::seq_lib::lemma_multiset_commutative(
                before.subrange(0, j as int),
                before.subrange(j as int, before.len() as int),
            );
            assert(before.subrange(0, j as int) + before.subrange(j as int, before.len() as int)
                =~= before);
            before.subrange(0, j as int).to_multiset_ensures();
            assert(pair_views(v@.take(i + 1)) =~= pair_views(v@.take(i as int)).push(xv));
            pair_views(v@.take(i as int)).to_multiset_ensures();
        }
        i = i + 1;
    }
    proof {
        assert(v@.take(v.len() as int) =~= v@);
    }
    out
}

/// How the graph is shown.
#[derive(Debug, Clone, Copy, PartialEq, Eq, Structural)]
pub enum GraphFormat {
    /// Each edge on a line: the depending node, then the node it depends on.
    EdgePairs,
    /// As a tree.
    Tree,
    /// The `lib` nodes that nothing reaches.
    UnreachableLib,
}

impl Default for GraphFormat {
    fn default() -> (r: GraphFormat)
        ensures
            r == GraphFormat::EdgePairs,
    {
        GraphFormat::EdgePairs
    }
}

/// How nodes are named when the graph is shown.
#[derive(Debug, Clone, Copy, PartialEq, Eq, Structural)]
pub enum GraphKind {
    /// By file path.
    Files,
    /// By handle, leaving out nodes that define none.
    Handles,
}

impl Default for GraphKind {
    fn default() -> (r: GraphKind)
        ensures
            r == GraphKind::Files,
    {
        GraphKind::Files
    }
}

/// The options of `show graph`.
#[derive(Debug, Clone, Copy)]
pub struct GraphOptions {
    pub format: GraphFormat,
    pub kind: GraphKind,
}

/// What `show` shows.
#[derive(Debug, Clone, Copy)]
pub enum Target {
    /// The files to watch.
    WatchFiles,
    /// The dependency graph.
    Graph(GraphOptions),
}

/// The options of `show`.
#[derive(Debug, Clone)]
pub struct Options {
    pub target: Target,
    /// Another configuration file.
    pub config: Option<String>,
}

/// Whether the graph can be shown so: only as edge pairs of files.
pub fn graph_supported(options: &GraphOptions) -> (r: bool)
    ensures
        r == (options.format == GraphFormat::EdgePairs && options.kind == GraphKind::Files),
{
    match (options.format, options.kind) {
        (GraphFormat::EdgePairs, GraphKind::Files) => true,
        _ => false,
    }
}

/// Among the first `n` nodes, the path of every node reachable from
/// `start` is listed.
proof fn lemma_reachable_paths_hold(
    nodes: Seq<GraphNodeView>,
    edges: Seq<(usize, usize)>,
    start: int,
    n: int,
    k: int,
)
    requires
        0 <= k < n,
        reachable(edges, start, k),
    ensures
        reachable_paths(nodes, edges, start, n).contains(nodes[k].0),
    decreases n,
{
    let rest = reachable_paths(nodes, edges, start, n - 1);
    if k == n - 1 {
        let r = reachable_paths(nodes, edges, start, n);
        assert(r == rest.push(nodes[k].0));
        assert(r[rest.len() as int] == nodes[k].0);
    } else {
        lemma_reachable_paths_hold(nodes, edges, start, n - 1, k);
        let j = choose|j: int| 0 <= j < rest.len() && rest[j] == nodes[k].0;
        let r = reachable_paths(nodes, edges, start, n);
        assert(r[j] == nodes[k].0);
    }
}

/// For each handle asked for, the files to watch include the file of the
/// node it names and of every node that node depends on, whatever kind of
/// file it is: when the `j`-th derivation asked for is a handle whose first
/// node is `i`, the candidates hold `i`'s path and the path of every node
/// `k` reachable from `i`.
pub proof fn lemma_watch_holds_dependencies(
    nodes: Seq<GraphNodeView>,
    edges: Seq<(usize, usize)>,
    drvs: Seq<Seq<char>>,
    j: int,
    i: int,
    k: int,
)
    requires
        0 <= j < drvs.len(),
        is_prefix(handle_prefix(), drvs[j]),
        first_match(nodes, NodeIdView::Attrname(drvs[j])) == Some(i),
    ensures
        watch_candidates(nodes, edges, drvs).contains(nodes[i].0),
        0 <= k < nodes.len() && reachable(edges, i, k) ==> watch_candidates(
            nodes,
            edges,
            drvs,
        ).contains(nodes[k].0),
    decreases drvs.len(),
{
    let h = handle_files(nodes, edges, drvs);
    let rest = handle_files(nodes, edges, drvs.drop_last());
    let own = seq![nodes[i].0];
    let deps = reachable_paths(nodes, edges, i, nodes.len() as int);
    if j == drvs.len() - 1 {
        assert(h == rest + own + deps);
        assert(h[rest.len() as int] == nodes[i].0);
        if 0 <= k < nodes.len() && reachable(edges, i, k) {
            lemma_reachable_paths_hold(nodes, edges, i, nodes.len() as int, k);
            let m = choose|m: int| 0 <= m < deps.len() && deps[m] == nodes[k].0;
            assert(h[rest.len() + 1 + m] == nodes[k].0);
        }
    } else {
        let d2 = drvs.drop_last();
        assert(d2[j] == drvs[j]);
        lemma_watch_holds_dependencies(nodes, edges, d2, j, i, k);
        assert(rest.is_prefix_of(h)) by {
            let d = drvs.last();
            if is_prefix(handle_prefix(), d) {
                match first_match(nodes, NodeIdView::Attrname(d)) {
                    Some(x) => {
                        assert(h == rest + seq![nodes[x].0] + reachable_paths(
                            nodes,
                            edges,
                            x,
                            nodes.len() as int,
                        ));
                        assert(h.take(rest.len() as int) =~= rest);
                    },
                    None => {},
                }
            }
        }
        let m = choose|m: int| 0 <= m < rest.len() && rest[m] == nodes[i].0;
        assert(h[m] == nodes[i].0);
        if 0 <= k < nodes.len() && reachable(edges, i, k) {
            let m2 = choose|m2: int| 0 <= m2 < rest.len() && rest[m2] == nodes[k].0;
            assert(h[m2] == nodes[k].0);
        }
    }
}

} // verus!
