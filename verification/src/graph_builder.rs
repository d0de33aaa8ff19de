//! Building the dependency graph.
//!
//! Starting from the entry file and the files that define handles, every
//! Nix file is read and the expressions in it are followed: a path literal
//! leads to the file it names (created as a node when new, and read in turn,
//! depth first), a handle leads to the node that defines it. Reading files
//! and resolving paths on disk is left to the caller: the builder is a state
//! machine that says, at each step, what it needs to know next, and is told
//! the answer.

use vstd::prelude::*;

use crate::assoc::{distinct_keys, has_key, lemma_map_of_distinct, lemma_push_new_key, map_of_pairs};
use crate::ast::{
    nix_syntax_nodes, FileReadError, NixAst, NixAstNodes, NixAstView, ast_views, walk_nodes,
};
use crate::attr::{handle_prefix, internal_prefix, Attrname};
use crate::fs::{is_nix, AbsolutePathBuf, AbsolutePathBufError, AbsolutePathView};
use crate::graph::{
    from_relative, key_of, node_views, resolve_relative, Graph, GraphNode, GraphNodeView, NodeId,
    NodeIdView, NodeKey,
};
use crate::path::{components, is_nix_path, push_path};
use crate::text::{chars_of, is_prefix, string_from_chars};

verus! {

/// Why the graph could not be built.
#[derive(Debug, Clone)]
pub enum GraphError {
    /// No entry file (configured, `flake.nix` or `default.nix`) was found.
    GettingEntrypoint,
    /// The project's handles could not be listed.
    GettingPathAttrset,
    /// A file could not be read or parsed, or names a handle wrongly.
    InvalidNode,
    /// A path written in a file leads nowhere on disk.
    RelativePath { path: String, parent: AbsolutePathBuf },
}

/// The abstract form of a graph error.
pub enum GraphErrorView {
    GettingEntrypoint,
    GettingPathAttrset,
    InvalidNode,
    RelativePath(Seq<char>, AbsolutePathView),
}

impl View for GraphError {
    type V = GraphErrorView;

    open spec fn view(&self) -> GraphErrorView {
        match self {
            GraphError::GettingEntrypoint => GraphErrorView::GettingEntrypoint,
            GraphError::GettingPathAttrset => GraphErrorView::GettingPathAttrset,
            GraphError::InvalidNode => GraphErrorView::InvalidNode,
            GraphError::RelativePath { path, parent } => GraphErrorView::RelativePath(
                path@,
                parent@,
            ),
        }
    }
}

/// What the builder needs next.
#[derive(Debug)]
pub enum GraphStep {
    /// The contents of this file (answer with `file_read`).
    ReadFile(String),
    /// This path made absolute, with its kind (answer with `path_resolved`).
    ResolvePath(String),
    /// Whether this path is a file (answer with `file_checked`).
    CheckIsFile(String),
    /// Nothing from outside: call `step` again.
    Continue,
    /// The graph is complete: call `finish`.
    Finished,
}

/// The abstract form of a step.
pub enum StepView {
    ReadFile(Seq<char>),
    ResolvePath(Seq<char>),
    CheckIsFile(Seq<char>),
    Continue,
    Finished,
}

impl View for GraphStep {
    type V = StepView;

    open spec fn view(&self) -> StepView {
        match self {
            GraphStep::ReadFile(p) => StepView::ReadFile(p@),
            GraphStep::ResolvePath(p) => StepView::ResolvePath(p@),
            GraphStep::CheckIsFile(p) => StepView::CheckIsFile(p@),
            GraphStep::Continue => StepView::Continue,
            GraphStep::Finished => StepView::Finished,
        }
    }
}

/// What the builder waits for.
pub enum PhaseView {
    /// Nothing: `step` may be called.
    Ready,
    /// The contents of the file of this node.
    AwaitRead(usize),
    /// This path made absolute; `true` when it came from a directory literal.
    AwaitResolve(bool, Seq<char>),
    /// Whether this path is a file.
    AwaitCheck(Seq<char>),
    /// Nothing more: the graph is complete.
    Done,
}

/// The whole state of the builder.
#[verifier::ext_equal]
pub struct BuilderState {
    /// The nodes found so far, by index.
    pub nodes: Seq<GraphNodeView>,
    /// The edges found so far, in order.
    pub edges: Seq<(usize, usize)>,
    /// The index of each handle and path seen.
    pub lookup: Map<NodeKey, usize>,
    /// The files being followed, innermost last: each node's index and the
    /// expressions of its file not yet followed.
    pub frames: Seq<(usize, Seq<NixAstView>)>,
    /// The next of the starting nodes to follow.
    pub next_root: usize,
    /// How many nodes the graph started from.
    pub root_count: usize,
    pub phase: PhaseView,
}

/// The state with another phase.
pub open spec fn with_phase(s: BuilderState, p: PhaseView) -> BuilderState {
    BuilderState {
        nodes: s.nodes,
        edges: s.edges,
        lookup: s.lookup,
        frames: s.frames,
        next_root: s.next_root,
        root_count: s.root_count,
        phase: p,
    }
}

/// The state with other frames.
pub open spec fn with_frames(s: BuilderState, f: Seq<(usize, Seq<NixAstView>)>) -> BuilderState {
    BuilderState {
        nodes: s.nodes,
        edges: s.edges,
        lookup: s.lookup,
        frames: f,
        next_root: s.next_root,
        root_count: s.root_count,
        phase: s.phase,
    }
}

/// The state with another edge.
pub open spec fn with_edge(s: BuilderState, e: (usize, usize)) -> BuilderState {
    BuilderState {
        nodes: s.nodes,
        edges: s.edges.push(e),
        lookup: s.lookup,
        frames: s.frames,
        next_root: s.next_root,
        root_count: s.root_count,
        phase: s.phase,
    }
}

/// The lookup key of a path.
pub open spec fn path_key(p: AbsolutePathView) -> NodeKey {
    NodeKey::Path(p.0, components(p.1))
}

/// Adding a node: its handle, if it has one not yet seen, is recorded at
/// the index the next new node gets; a node whose path was seen is not
/// added again (its index is given); a new one gets the next index.
pub open spec fn add_node_spec(s: BuilderState, n: GraphNodeView) -> (BuilderState, usize) {
    let current = s.nodes.len() as usize;
    let lookup1 = match n.1 {
        Some(a) => if s.lookup.contains_key(NodeKey::Attr(a)) {
            s.lookup
        } else {
            s.lookup.insert(NodeKey::Attr(a), current)
        },
        None => s.lookup,
    };
    let k = path_key(n.0);
    if lookup1.contains_key(k) {
        (
            BuilderState {
                nodes: s.nodes,
                edges: s.edges,
                lookup: lookup1,
                frames: s.frames,
                next_root: s.next_root,
                root_count: s.root_count,
                phase: s.phase,
            },
            lookup1[k],
        )
    } else {
        (
            BuilderState {
                nodes: s.nodes.push(n),
                edges: s.edges,
                lookup: lookup1.insert(k, current),
                frames: s.frames,
                next_root: s.next_root,
                root_count: s.root_count,
                phase: s.phase,
            },
            current,
        )
    }
}

/// Starting to follow node `idx`: a Nix file is asked for; anything else
/// has nothing to follow.
pub open spec fn enter_spec(s: BuilderState, idx: usize) -> (BuilderState, StepView) {
    let p = s.nodes[idx as int].0.1;
    if is_nix_path(p) {
        (with_phase(s, PhaseView::AwaitRead(idx)), StepView::ReadFile(p))
    } else {
        (with_phase(s, PhaseView::Ready), StepView::Continue)
    }
}

/// Following an expression of the innermost file to the absolute path
/// `abs`: an edge to the node already at that path, or to a new node for
/// it, which is then followed.
pub open spec fn link_spec(s: BuilderState, abs: AbsolutePathView) -> (BuilderState, StepView) {
    let idx = s.frames.last().0;
    let k = path_key(abs);
    if s.lookup.contains_key(k) {
        (with_phase(with_edge(s, (idx, s.lookup[k])), PhaseView::Ready), StepView::Continue)
    } else {
        let current = s.nodes.len() as usize;
        let s2 = with_edge(s, (idx, current));
        let (s3, _) = add_node_spec(s2, (abs, None));
        enter_spec(s3, current)
    }
}

/// One step of the builder: refused unless it waits for nothing. With no
/// file being followed, the next starting node is entered, or the graph is
/// complete. Otherwise the next expression of the innermost file is
/// followed (a file with none left is done): `import _/name` leads nowhere;
/// a path literal is resolved against the file (a directory literal `./x/.`
/// without its final `.`), and one that climbs above the root is refused;
/// a handle must start with `_.`, an internal one (`_.mrx`) and an unknown
/// one lead nowhere, and a known one gives an edge to the index recorded for
/// it. That index is its node's, except for a handle that came with a path
/// already seen: it names the index the next new node gets, and the edge
/// ends there.
pub open spec fn step_spec(s: BuilderState) -> Result<(BuilderState, StepView), GraphErrorView> {
    if !(s.phase is Ready) {
        Err(GraphErrorView::InvalidNode)
    } else if s.frames.len() == 0 {
        if s.next_root < s.root_count {
            let s1 = BuilderState {
                nodes: s.nodes,
                edges: s.edges,
                lookup: s.lookup,
                frames: s.frames,
                next_root: (s.next_root + 1) as usize,
                root_count: s.root_count,
                phase: s.phase,
            };
            Ok(enter_spec(s1, s.next_root))
        } else {
            Ok((with_phase(s, PhaseView::Done), StepView::Finished))
        }
    } else {
        let top = s.frames.last();
        if top.1.len() == 0 {
            Ok((with_frames(s, s.frames.drop_last()), StepView::Continue))
        } else {
            let a = top.1[0];
            let s1 = with_frames(s, s.frames.update(s.frames.len() - 1, (top.0, top.1.skip(1))));
            let parent = s.nodes[top.0 as int].0;
            match a {
                NixAstView::ImportOwnNameModuleExpression => Ok((s1, StepView::Continue)),
                NixAstView::SimplePath(p) => match resolve_relative(p, parent.1) {
                    Some(q) => Ok(
                        (with_phase(s1, PhaseView::AwaitResolve(false, q)), StepView::ResolvePath(q)),
                    ),
                    None => Err(GraphErrorView::RelativePath(p, parent)),
                },
                NixAstView::NixDirectoryPath(p) => if p.len() > 0 && p.last() == '.' {
                    let stripped = p.drop_last();
                    match resolve_relative(stripped, parent.1) {
                        Some(q) => Ok(
                            (
                                with_phase(s1, PhaseView::AwaitResolve(true, q)),
                                StepView::ResolvePath(q),
                            ),
                        ),
                        None => Err(GraphErrorView::RelativePath(stripped, parent)),
                    }
                } else {
                    Ok((s1, StepView::Continue))
                },
                NixAstView::MrxDerivation(n) => if !is_prefix(handle_prefix(), n) {
                    Err(GraphErrorView::InvalidNode)
                } else if is_prefix(internal_prefix(), n) {
                    Ok((s1, StepView::Continue))
                } else if s.lookup.contains_key(NodeKey::Attr(n)) {
                    Ok((with_edge(s1, (top.0, s.lookup[NodeKey::Attr(n)])), StepView::Continue))
                } else {
                    Ok((s1, StepView::Continue))
                },
            }
        }
    }
}

/// `default.nix`
pub open spec fn default_nix() -> Seq<char> {
    seq!['d', 'e', 'f', 'a', 'u', 'l', 't', '.', 'n', 'i', 'x']
}

/// Being told what a path resolved to: a simple path is linked; a directory
/// literal leads to asking whether the directory holds `default.nix`.
pub open spec fn resolved_spec(s: BuilderState, r: Option<AbsolutePathView>) -> Result<
    (BuilderState, StepView),
    GraphErrorView,
> {
    match s.phase {
        PhaseView::AwaitResolve(dir, q) => match r {
            Some(abs) => if dir {
                let cand = push_path(abs.1, default_nix());
                Ok((with_phase(s, PhaseView::AwaitCheck(cand)), StepView::CheckIsFile(cand)))
            } else {
                Ok(link_spec(s, abs))
            },
            None => Err(GraphErrorView::RelativePath(q, s.nodes[s.frames.last().0 as int].0)),
        },
        _ => Err(GraphErrorView::InvalidNode),
    }
}

/// Being told whether the directory's `default.nix` is a file: if so, it is
/// linked.
pub open spec fn checked_spec(s: BuilderState, is_file: bool) -> (BuilderState, StepView) {
    match s.phase {
        PhaseView::AwaitCheck(cand) => if is_file {
            link_spec(s, (true, cand))
        } else {
            (with_phase(s, PhaseView::Ready), StepView::Continue)
        },
        _ => (s, StepView::Continue),
    }
}

/// Being told a node's file contents: its expressions become the innermost
/// file to follow; a file that cannot be read or is not UTF-8 is refused.
pub open spec fn read_spec(s: BuilderState, contents: Option<Seq<u8>>) -> Result<
    (BuilderState, StepView),
    GraphErrorView,
> {
    match s.phase {
        PhaseView::AwaitRead(idx) => match contents {
            Some(bytes) => if vstd::utf8::valid_utf8(bytes) {
                let asts = walk_nodes(nix_syntax_nodes(vstd::utf8::decode_utf8(bytes)));
                Ok(
                    (
                        with_phase(with_frames(s, s.frames.push((idx, asts))), PhaseView::Ready),
                        StepView::Continue,
                    ),
                )
            } else {
                Err(GraphErrorView::InvalidNode)
            },
            None => Err(GraphErrorView::InvalidNode),
        },
        _ => Err(GraphErrorView::InvalidNode),
    }
}

/// The state the builder starts in: the entry file as its only node.
pub open spec fn initial_state(entry: AbsolutePathView) -> BuilderState {
    BuilderState {
        nodes: seq![(entry, None)],
        edges: seq![],
        lookup: map![path_key(entry) => 0usize],
        frames: seq![],
        next_root: 0,
        root_count: 0,
        phase: PhaseView::Ready,
    }
}

/// Recording a node that defines the handle `name`, at `path` when the path
/// could be made absolute; a path that does not exist is skipped, any other
/// failure refused.
pub open spec fn add_known_spec(
    s: BuilderState,
    name: Seq<char>,
    path: Result<AbsolutePathView, bool>,
) -> Result<BuilderState, GraphErrorView> {
    match path {
        Ok(p) => Ok(add_node_spec(s, (p, Some(name))).0),
        Err(not_found) => if not_found {
            Ok(s)
        } else {
            Err(GraphErrorView::InvalidNode)
        },
    }
}

/// Starting the walk: every node known so far is a starting node.
pub open spec fn start_spec(s: BuilderState) -> BuilderState {
    BuilderState {
        nodes: s.nodes,
        edges: s.edges,
        lookup: s.lookup,
        frames: s.frames,
        next_root: s.next_root,
        root_count: s.nodes.len() as usize,
        phase: s.phase,
    }
}

/// The invariant of the builder's state.
pub open spec fn state_inv(s: BuilderState) -> bool {
    &&& forall|i: int|
        0 <= i < s.edges.len() ==> (#[trigger] s.edges[i]).0 < s.nodes.len() && s.edges[i].1
            <= s.nodes.len()
    &&& forall|k: NodeKey| #[trigger] s.lookup.contains_key(k) ==> s.lookup[k] <= s.nodes.len()
    &&& forall|k: NodeKey|
        #[trigger] s.lookup.contains_key(k) && k is Path ==> s.lookup[k] < s.nodes.len()
            && path_key(s.nodes[s.lookup[k] as int].0) == k
    &&& forall|i: int|
        0 <= i < s.nodes.len() ==> s.lookup.contains_key(path_key(#[trigger] s.nodes[i].0))
            && s.lookup[path_key(s.nodes[i].0)] == i
    &&& forall|i: int|
        0 <= i < s.frames.len() ==> (#[trigger] s.frames[i]).0 < s.nodes.len() && is_nix_path(
            s.nodes[s.frames[i].0 as int].0.1,
        )
    &&& s.next_root <= s.root_count <= s.nodes.len()
    &&& s.nodes.len() < usize::MAX
    &&& match s.phase {
        PhaseView::AwaitRead(i) => i < s.nodes.len() && is_nix_path(s.nodes[i as int].0.1),
        PhaseView::AwaitResolve(_, _) => s.frames.len() > 0,
        PhaseView::AwaitCheck(_) => s.frames.len() > 0,
        _ => true,
    }
}


/// Adding a node keeps the invariant, while there is room for one more.
proof fn lemma_add_node_inv(s: BuilderState, n: GraphNodeView)
    requires
        state_inv(s),
        s.nodes.len() + 1 < usize::MAX,
    ensures
        state_inv(add_node_spec(s, n).0),
        add_node_spec(s, n).1 < add_node_spec(s, n).0.nodes.len(),
        add_node_spec(s, n).0.frames == s.frames,
        add_node_spec(s, n).0.phase == s.phase,
        add_node_spec(s, n).0.edges == s.edges,
        add_node_spec(s, n).0.next_root == s.next_root,
        add_node_spec(s, n).0.root_count == s.root_count,
        s.nodes.len() <= add_node_spec(s, n).0.nodes.len() <= s.nodes.len() + 1,
        forall|i: int| 0 <= i < s.nodes.len() ==> add_node_spec(s, n).0.nodes[i] == s.nodes[i],
{
}

/// A file being followed: its node, its expressions, and how many of them
/// were followed.
struct Frame {
    idx: usize,
    asts: Vec<NixAst>,
    pos: usize,
}

/// What the builder waits for.
enum Phase {
    Ready,
    AwaitRead(usize),
    AwaitResolve(bool, String),
    AwaitCheck(String),
    Done,
}

/// The graph under construction.
pub struct GraphBuilder {
    nodes: Vec<GraphNode>,
    edges: Vec<(usize, usize)>,
    lookup: Vec<(NodeId, usize)>,
    frames: Vec<Frame>,
    next_root: usize,
    root_count: usize,
    phase: Phase,
}

/// The keys and indices of a lookup list.
pub open spec fn lookup_views(l: Seq<(NodeId, usize)>) -> Seq<(NodeKey, usize)> {
    l.map_values(|e: (NodeId, usize)| (key_of(e.0@), e.1))
}

spec fn frame_view(f: Frame) -> (usize, Seq<NixAstView>) {
    (f.idx, ast_views(f.asts@).skip(f.pos as int))
}

spec fn phase_view(p: Phase) -> PhaseView {
    match p {
        Phase::Ready => PhaseView::Ready,
        Phase::AwaitRead(i) => PhaseView::AwaitRead(i),
        Phase::AwaitResolve(d, q) => PhaseView::AwaitResolve(d, q@),
        Phase::AwaitCheck(c) => PhaseView::AwaitCheck(c@),
        Phase::Done => PhaseView::Done,
    }
}

impl GraphBuilder {
    /// The builder's state.
    pub closed spec fn state(&self) -> BuilderState {
        BuilderState {
            nodes: node_views(self.nodes@),
            edges: self.edges@,
            lookup: map_of_pairs(lookup_views(self.lookup@)),
            frames: self.frames@.map_values(|f: Frame| frame_view(f)),
            next_root: self.next_root,
            root_count: self.root_count,
            phase: phase_view(self.phase),
        }
    }

    /// The builder is well formed.
    pub closed spec fn wf(&self) -> bool {
        &&& state_inv(self.state())
        &&& distinct_keys(lookup_views(self.lookup@))
        &&& forall|i: int|
            0 <= i < self.frames@.len() ==> (#[trigger] self.frames@[i]).pos <= self.frames@[i].asts@.len()
    }

    /// The index recorded for `id`.
    fn lookup_get(&self, id: &NodeId) -> (r: Option<usize>)
        requires
            distinct_keys(lookup_views(self.lookup@)),
        ensures
            match r {
                Some(v) => self.state().lookup.contains_key(key_of(id@)) && self.state().lookup[key_of(
                    id@,
                )] == v,
                None => !self.state().lookup.contains_key(key_of(id@)),
            },
    {
        let ghost lv = lookup_views(self.lookup@);
        proof {
            lemma_map_of_distinct(lv);
        }
        let mut i: usize = 0;
        while i < self.lookup.len()
            invariant
                i <= self.lookup.len(),
                lv == lookup_views(self.lookup@),
                distinct_keys(lv),
                forall|k: int| 0 <= k < i ==> #[trigger] lv[k].0 != key_of(id@),
            decreases self.lookup.len() - i,
        {
            if self.lookup[i].0.same_key(id) {
                proof {
                    lemma_map_of_distinct(lv);
                    assert(lv[i as int] == (key_of(self.lookup@[i as int].0@), self.lookup@[i as int].1));
                    assert(map_of_pairs(lv).contains_key(lv[i as int].0));
                }
                return Some(self.lookup[i].1);
            }
            i = i + 1;
        }
        proof {
            if has_key(lv, key_of(id@)) {
                let k = choose|k: int| 0 <= k < lv.len() && #[trigger] lv[k].0 == key_of(id@);
                assert(lv[k].0 != key_of(id@));
            }
        }
        None
    }

    /// Records `id` at `v`; `id` must be new.
    fn lookup_insert(&mut self, id: NodeId, v: usize)
        requires
            distinct_keys(lookup_views(old(self).lookup@)),
            !old(self).state().lookup.contains_key(key_of(id@)),
        ensures
            distinct_keys(lookup_views(final(self).lookup@)),
            final(self).state().lookup == old(self).state().lookup.insert(key_of(id@), v),
            final(self).nodes == old(self).nodes,
            final(self).edges == old(self).edges,
            final(self).frames == old(self).frames,
            final(self).next_root == old(self).next_root,
            final(self).root_count == old(self).root_count,
            final(self).phase == old(self).phase,
    {
        let ghost lv = lookup_views(self.lookup@);
        proof {
            lemma_map_of_distinct(lv);
            lemma_push_new_key(lv, (key_of(id@), v));
        }
        let ghost k = key_of(id@);
        self.lookup.push((id, v));
        proof {
            assert(lookup_views(self.lookup@) =~= lv.push((k, v)));
        }
    }

    /// Adds a node (see `add_node_spec`).
    fn add_node(&mut self, node: GraphNode) -> (r: usize)
        requires
            old(self).wf(),
            forall|k: NodeKey| #[trigger]
                old(self).state().lookup.contains_key(k) && k is Path ==> old(self).state().lookup[k]
                    < old(self).nodes@.len(),
            old(self).nodes@.len() + 1 < usize::MAX,
        ensures
            (final(self).state(), r) == add_node_spec(old(self).state(), node@),
            distinct_keys(lookup_views(final(self).lookup@)),
            final(self).frames == old(self).frames,
            final(self).phase == old(self).phase,
    {
        let current = self.nodes.len();
        let ghost s0 = self.state();
        match &node.derivation {
            Some(d) => {
                let id = NodeId::Attrname(d.duplicate());
                if self.lookup_get(&id).is_none() {
                    self.lookup_insert(id, current);
                }
            },
            None => {},
        }
        let path_id = NodeId::Path(node.path.duplicate());
        match self.lookup_get(&path_id) {
            Some(existing) => existing,
            None => {
                self.lookup_insert(path_id, current);
                self.nodes.push(node);
                proof {
                    assert(node_views(self.nodes@) =~= s0.nodes.push(node@));
                }
                current
            },
        }
    }
}

impl GraphBuilder {
    /// A builder whose only node is the entry file.
    pub fn new(entry: AbsolutePathBuf) -> (r: GraphBuilder)
        ensures
            r.wf(),
            r.state() == initial_state(entry@),
    {
        let mut b = GraphBuilder {
            nodes: Vec::new(),
            edges: Vec::new(),
            lookup: Vec::new(),
            frames: Vec::new(),
            next_root: 0,
            root_count: 0,
            phase: Phase::Ready,
        };
        proof {
            assert(lookup_views(b.lookup@) =~= Seq::<(NodeKey, usize)>::empty());
            assert(b.state().lookup =~= Map::<NodeKey, usize>::empty());
            assert(b.state().nodes =~= Seq::<GraphNodeView>::empty());
            assert(b.state().frames =~= Seq::<(usize, Seq<NixAstView>)>::empty());
            lemma_add_node_inv(b.state(), (entry@, None));
        }
        let ghost s0 = b.state();
        b.add_node(GraphNode::from_path(entry));
        proof {
            assert(b.state().lookup =~= map![path_key(entry@) => 0usize]);
            assert(b.state().nodes =~= seq![(entry@, None::<Seq<char>>)]);
            assert(b.state() =~= initial_state(entry@));
        }
        b
    }

    /// The number of nodes found so far.
    pub fn node_count(&self) -> (n: usize)
        ensures
            n == self.state().nodes.len(),
    {
        self.nodes.len()
    }

    /// Records a node that defines the handle `name`, given what making its
    /// path absolute gave (see `add_known_spec`).
    pub fn add_known(&mut self, name: Attrname, path: Result<AbsolutePathBuf, AbsolutePathBufError>) -> (r:
        Result<(), GraphError>)
        requires
            old(self).wf(),
            old(self).state().nodes.len() + 1 < usize::MAX,
        ensures
            match (
                add_known_spec(
                    old(self).state(),
                    name@,
                    match path {
                        Ok(p) => Ok(p@),
                        Err(e) => Err(e is NotFound),
                    },
                ),
                r,
            ) {
                (Ok(s2), Ok(())) => final(self).state() == s2 && final(self).wf(),
                (Err(e), Err(x)) => x@ == e,
                _ => false,
            },
    {
        match path {
            Ok(p) => {
                proof {
                    lemma_add_node_inv(self.state(), (p@, Some(name@)));
                }
                self.add_node(GraphNode { path: p, derivation: Some(name) });
                Ok(())
            },
            Err(AbsolutePathBufError::NotFound) => Ok(()),
            Err(_) => Err(GraphError::InvalidNode),
        }
    }

    /// Starts the walk from every node known so far.
    pub fn start(&mut self)
        requires
            old(self).wf(),
        ensures
            final(self).wf(),
            final(self).state() == start_spec(old(self).state()),
    {
        self.root_count = self.nodes.len();
        proof {
            assert(self.state() =~= start_spec(old(self).state()));
        }
    }

    /// The graph built.
    pub fn finish(self) -> (g: Graph)
        requires
            self.wf(),
        ensures
            g.nodes_view() == self.state().nodes,
            g.edges_view() == self.state().edges,
    {
        proof {
            let st = self.state();
            assert(st.nodes.len() == self.nodes@.len());
            assert forall|i: int| 0 <= i < self.edges@.len() implies (#[trigger] self.edges@[i]).0
                < self.nodes@.len() && self.edges@[i].1 <= self.nodes@.len() by {
                assert(st.edges[i] == self.edges@[i]);
            }
        }
        Graph::from_parts(self.nodes, self.edges)
    }
}

impl GraphBuilder {
    /// Starts following node `idx` (see `enter_spec`).
    fn enter(&mut self, idx: usize) -> (r: GraphStep)
        requires
            old(self).wf(),
            idx < old(self).state().nodes.len(),
        ensures
            final(self).state() == enter_spec(old(self).state(), idx).0,
            r@ == enter_spec(old(self).state(), idx).1,
            final(self).wf(),
    {
        let ghost s0 = self.state();
        let p = self.nodes[idx].path.to_text();
        proof {
            assert(s0.nodes[idx as int] == self.nodes@[idx as int]@);
        }
        if is_nix(p.as_str()) {
            self.phase = Phase::AwaitRead(idx);
            proof {
                assert(self.state() =~= enter_spec(s0, idx).0);
            }
            GraphStep::ReadFile(p)
        } else {
            self.phase = Phase::Ready;
            proof {
                assert(self.state() =~= enter_spec(s0, idx).0);
            }
            GraphStep::Continue
        }
    }

    /// Follows an expression of the innermost file to `abs` (see
    /// `link_spec`).
    fn link(&mut self, abs: AbsolutePathBuf) -> (r: GraphStep)
        requires
            old(self).wf(),
            old(self).state().frames.len() > 0,
            old(self).state().nodes.len() + 1 < usize::MAX,
        ensures
            final(self).state() == link_spec(old(self).state(), abs@).0,
            r@ == link_spec(old(self).state(), abs@).1,
            final(self).wf(),
    {
        let ghost s0 = self.state();
        let idx = self.frames[self.frames.len() - 1].idx;
        proof {
            assert(s0.frames.last().0 == idx);
        }
        let id = NodeId::Path(abs.duplicate());
        match self.lookup_get(&id) {
            Some(i) => {
                self.edges.push((idx, i));
                self.phase = Phase::Ready;
                proof {
                    assert(self.state() =~= link_spec(s0, abs@).0);
                }
                GraphStep::Continue
            },
            None => {
                let current = self.nodes.len();
                proof {
                    lemma_add_node_inv(s0, (abs@, None));
                }
                self.add_node(GraphNode::from_path(abs));
                self.edges.push((idx, current));
                proof {
                    let s2 = with_edge(s0, (idx, current));
                    assert(self.state() =~= add_node_spec(s2, (abs@, None)).0);
                }
                self.enter(current)
            },
        }
    }
}

impl GraphBuilder {
    /// One step of the walk while the builder waits for nothing (see
    /// `step_spec`): the next starting node, or the next expression of the
    /// innermost file.
    pub fn step(&mut self) -> (r: Result<GraphStep, GraphError>)
        requires
            old(self).wf(),
            old(self).state().nodes.len() + 1 < usize::MAX,
        ensures
            match (step_spec(old(self).state()), r) {
                (Ok((s2, st)), Ok(x)) => final(self).state() == s2 && x@ == st && final(self).wf(),
                (Err(e), Err(x)) => x@ == e,
                _ => false,
            },
    {
        let ghost s0 = self.state();
        match self.phase {
            Phase::Ready => {},
            _ => {
                return Err(GraphError::InvalidNode);
            },
        }
        if self.frames.len() == 0 {
            if self.next_root < self.root_count {
                let idx = self.next_root;
                self.next_root = idx + 1;
                proof {
                    let s1 = BuilderState {
                        nodes: s0.nodes,
                        edges: s0.edges,
                        lookup: s0.lookup,
                        frames: s0.frames,
                        next_root: (s0.next_root + 1) as usize,
                        root_count: s0.root_count,
                        phase: s0.phase,
                    };
                    assert(self.state() =~= s1);
                }
                return Ok(self.enter(idx));
            }
            self.phase = Phase::Done;
            proof {
                assert(self.state() =~= with_phase(s0, PhaseView::Done));
            }
            return Ok(GraphStep::Finished);
        }
        let ghost fr0 = self.frames@;
        let mut frame = self.frames.pop().unwrap();
        proof {
            assert(self.frames@ =~= fr0.drop_last());
            assert(s0.frames.last() == frame_view(frame));
        }
        if frame.pos >= frame.asts.len() {
            proof {
                assert(frame_view(frame).1.len() == 0);
                assert(self.state() =~= with_frames(s0, s0.frames.drop_last()));
            }
            return Ok(GraphStep::Continue);
        }
        let item = frame.asts[frame.pos].duplicate();
        let top = frame.idx;
        let ghost fv = frame_view(frame);
        frame.pos = frame.pos + 1;
        proof {
            assert(fv.1[0] == item@);
            assert(frame_view(frame).1 =~= fv.1.skip(1));
        }
        self.frames.push(frame);
        let ghost s1 = with_frames(s0, s0.frames.update(s0.frames.len() - 1, (fv.0, fv.1.skip(1))));
        proof {
            assert(self.state() =~= s1);
            assert(s0.nodes[top as int] == self.nodes@[top as int]@);
        }
        match item {
            NixAst::ImportOwnNameModuleExpression => Ok(GraphStep::Continue),
            NixAst::SimplePath { path } => {
                match from_relative(path.as_str(), &self.nodes[top].path) {
                    Some(q) => {
                        let q2 = q.clone();
                        self.phase = Phase::AwaitResolve(false, q);
                        proof {
                            assert(self.state() =~= with_phase(s1, PhaseView::AwaitResolve(false, q2@)));
                        }
                        Ok(GraphStep::ResolvePath(q2))
                    },
                    None => Err(
                        GraphError::RelativePath { path, parent: self.nodes[top].path.duplicate() },
                    ),
                }
            },
            NixAst::NixDirectoryPath { path } => {
                let mut c = chars_of(path.as_str());
                if c.len() > 0 && c[c.len() - 1] == '.' {
                    c.pop();
                    let stripped = string_from_chars(c.as_slice());
                    proof {
                        assert(stripped@ =~= path@.drop_last());
                    }
                    match from_relative(stripped.as_str(), &self.nodes[top].path) {
                        Some(q) => {
                            let q2 = q.clone();
                            self.phase = Phase::AwaitResolve(true, q);
                            proof {
                                assert(self.state() =~= with_phase(
                                    s1,
                                    PhaseView::AwaitResolve(true, q2@),
                                ));
                            }
                            Ok(GraphStep::ResolvePath(q2))
                        },
                        None => Err(
                            GraphError::RelativePath {
                                path: stripped,
                                parent: self.nodes[top].path.duplicate(),
                            },
                        ),
                    }
                } else {
                    Ok(GraphStep::Continue)
                }
            },
            NixAst::MrxDerivation { name } => {
                match Attrname::try_from_string(name) {
                    Err(_) => Err(GraphError::InvalidNode),
                    Ok(a) => {
                        if a.is_internal() {
                            Ok(GraphStep::Continue)
                        } else {
                            match self.lookup_get(&NodeId::Attrname(a)) {
                                Some(i) => {
                                    self.edges.push((top, i));
                                    proof {
                                        assert(self.state() =~= with_edge(s1, (top, i)));
                                    }
                                    Ok(GraphStep::Continue)
                                },
                                None => Ok(GraphStep::Continue),
                            }
                        }
                    },
                }
            },
        }
    }
}

impl GraphBuilder {
    /// Takes the contents of the file asked for (see `read_spec`).
    pub fn file_read(&mut self, contents: Result<Vec<u8>, FileReadError>) -> (r: Result<
        GraphStep,
        GraphError,
    >)
        requires
            old(self).wf(),
        ensures
            match (
                read_spec(
                    old(self).state(),
                    match contents {
                        Ok(b) => Some(b@),
                        Err(_) => None,
                    },
                ),
                r,
            ) {
                (Ok((s2, st)), Ok(x)) => final(self).state() == s2 && x@ == st && final(self).wf(),
                (Err(e), Err(x)) => x@ == e,
                _ => false,
            },
    {
        let ghost s0 = self.state();
        let idx = match self.phase {
            Phase::AwaitRead(i) => i,
            _ => {
                return Err(GraphError::InvalidNode);
            },
        };
        let path = self.nodes[idx].path.to_text();
        match NixAstNodes::from_file_contents(path.as_str(), contents) {
            Ok(n) => {
                let ghost av = n@;
                self.frames.push(Frame { idx, asts: n.0, pos: 0 });
                self.phase = Phase::Ready;
                proof {
                    assert(ast_views(self.frames@.last().asts@).skip(0) =~= av);
                    assert(self.state() =~= with_phase(
                        with_frames(s0, s0.frames.push((idx, av))),
                        PhaseView::Ready,
                    ));
                }
                Ok(GraphStep::Continue)
            },
            Err(_) => Err(GraphError::InvalidNode),
        }
    }

    /// Takes what the path asked for resolved to (see `resolved_spec`).
    pub fn path_resolved(&mut self, resolved: Result<AbsolutePathBuf, AbsolutePathBufError>) -> (r:
        Result<GraphStep, GraphError>)
        requires
            old(self).wf(),
            old(self).state().nodes.len() + 1 < usize::MAX,
        ensures
            match (
                resolved_spec(
                    old(self).state(),
                    match resolved {
                        Ok(p) => Some(p@),
                        Err(_) => None,
                    },
                ),
                r,
            ) {
                (Ok((s2, st)), Ok(x)) => final(self).state() == s2 && x@ == st && final(self).wf(),
                (Err(e), Err(x)) => x@ == e,
                _ => false,
            },
    {
        let ghost s0 = self.state();
        let (dir, q) = match &self.phase {
            Phase::AwaitResolve(d, q) => (*d, q.clone()),
            _ => {
                return Err(GraphError::InvalidNode);
            },
        };
        match resolved {
            Ok(abs) => {
                if dir {
                    let cand = abs.join("default.nix");
                    proof {
                        reveal_strlit("default.nix");
                        assert("default.nix"@ =~= default_nix());
                    }
                    let cand2 = cand.clone();
                    self.phase = Phase::AwaitCheck(cand);
                    proof {
                        assert(self.state() =~= with_phase(s0, PhaseView::AwaitCheck(cand2@)));
                    }
                    Ok(GraphStep::CheckIsFile(cand2))
                } else {
                    Ok(self.link(abs))
                }
            },
            Err(_) => {
                let top = self.frames[self.frames.len() - 1].idx;
                proof {
                    assert(s0.frames.last().0 == top);
                    assert(s0.nodes[top as int] == self.nodes@[top as int]@);
                }
                Err(GraphError::RelativePath { path: q, parent: self.nodes[top].path.duplicate() })
            },
        }
    }

    /// Takes whether the directory's `default.nix` is a file (see
    /// `checked_spec`).
    pub fn file_checked(&mut self, is_file: bool) -> (r: GraphStep)
        requires
            old(self).wf(),
            old(self).state().nodes.len() + 1 < usize::MAX,
        ensures
            final(self).state() == checked_spec(old(self).state(), is_file).0,
            r@ == checked_spec(old(self).state(), is_file).1,
            final(self).wf(),
    {
        let ghost s0 = self.state();
        let cand = match &self.phase {
            Phase::AwaitCheck(c) => c.clone(),
            _ => {
                return GraphStep::Continue;
            },
        };
        if is_file {
            self.link(AbsolutePathBuf::File(cand))
        } else {
            self.phase = Phase::Ready;
            proof {
                assert(self.state() =~= with_phase(s0, PhaseView::Ready));
            }
            GraphStep::Continue
        }
    }
}

/// A file is never two nodes: in a well-formed builder, and so in the
/// graph it finishes into, no two nodes have the same path.
pub proof fn lemma_paths_distinct(b: &GraphBuilder, i: int, j: int)
    requires
        b.wf(),
        0 <= i < j < b.state().nodes.len(),
    ensures
        path_key(b.state().nodes[i].0) != path_key(b.state().nodes[j].0),
{
    let s = b.state();
    assert(s.lookup[path_key(s.nodes[i].0)] == i);
    assert(s.lookup[path_key(s.nodes[j].0)] == j);
}

/// Every edge of a well-formed builder leaves one of its nodes, and ends
/// at one of them or at the index the next new node gets.
pub proof fn lemma_edges_in_range(b: &GraphBuilder, i: int)
    requires
        b.wf(),
        0 <= i < b.state().edges.len(),
    ensures
        b.state().edges[i].0 < b.state().nodes.len(),
        b.state().edges[i].1 <= b.state().nodes.len(),
{
}

/// The nodes and edges of `s` are kept, in place, in `s2`.
pub open spec fn keeps_found(s: BuilderState, s2: BuilderState) -> bool {
    s.nodes.is_prefix_of(s2.nodes) && s.edges.is_prefix_of(s2.edges)
}

/// Adding a node keeps what was found.
proof fn lemma_add_node_keeps(s: BuilderState, n: GraphNodeView)
    ensures
        keeps_found(s, add_node_spec(s, n).0),
{
    let s2 = add_node_spec(s, n).0;
    if s2.nodes.len() > s.nodes.len() {
        assert(s2.nodes.take(s.nodes.len() as int) =~= s.nodes);
    } else {
        assert(s2.nodes.take(s.nodes.len() as int) =~= s.nodes);
    }
    assert(s2.edges.take(s.edges.len() as int) =~= s.edges);
}

/// Linking keeps what was found.
proof fn lemma_link_keeps(s: BuilderState, abs: AbsolutePathView)
    ensures
        keeps_found(s, link_spec(s, abs).0),
{
    let idx = s.frames.last().0;
    let k = path_key(abs);
    if s.lookup.contains_key(k) {
        let s2 = link_spec(s, abs).0;
        assert(s2.nodes.take(s.nodes.len() as int) =~= s.nodes);
        assert(s2.edges.take(s.edges.len() as int) =~= s.edges);
    } else {
        let current = s.nodes.len() as usize;
        let s2 = with_edge(s, (idx, current));
        lemma_add_node_keeps(s2, (abs, None));
        let s3 = add_node_spec(s2, (abs, None)).0;
        assert(s2.edges.take(s.edges.len() as int) =~= s.edges);
        assert(s3.edges.take(s.edges.len() as int) =~= s2.edges.take(s.edges.len() as int));
        assert(s3.nodes.take(s.nodes.len() as int) =~= s.nodes);
    }
}

/// The builder only ever adds to the nodes and edges it found: every
/// answer and every step keeps them, in place.
pub proof fn lemma_builder_keeps_found(
    s: BuilderState,
    name: Seq<char>,
    path: Result<AbsolutePathView, bool>,
    resolved: Option<AbsolutePathView>,
    is_file: bool,
    contents: Option<Seq<u8>>,
)
    ensures
        add_known_spec(s, name, path) matches Ok(s2) ==> keeps_found(s, s2),
        keeps_found(s, start_spec(s)),
        step_spec(s) matches Ok(r) ==> keeps_found(s, r.0),
        resolved_spec(s, resolved) matches Ok(r) ==> keeps_found(s, r.0),
        keeps_found(s, checked_spec(s, is_file).0),
        read_spec(s, contents) matches Ok(r) ==> keeps_found(s, r.0),
{
    assert(s.nodes.take(s.nodes.len() as int) =~= s.nodes);
    assert(s.edges.take(s.edges.len() as int) =~= s.edges);
    if let Ok(p) = path {
        lemma_add_node_keeps(s, (p, Some(name)));
    }
    if let Some(abs) = resolved {
        lemma_link_keeps(s, abs);
    }
    if let PhaseView::AwaitCheck(cand) = s.phase {
        lemma_link_keeps(s, (true, cand));
    }
    if let Ok(r) = step_spec(s) {
        let s2 = r.0;
        assert(s2.nodes.take(s.nodes.len() as int) =~= s.nodes);
        assert(s2.edges.take(s.edges.len() as int) =~= s.edges);
    }
}

/// What the builder is told, or asked to do, in turn: a known handle with
/// what making its path absolute gave (`Err(true)` when it was not found),
/// the start of the walk, a step, and the answers to what a step asked.
pub enum BuilderEvent {
    Known(Seq<char>, Result<AbsolutePathView, bool>),
    Start,
    Step,
    Resolved(Option<AbsolutePathView>),
    Checked(bool),
    Read(Option<Seq<u8>>),
}

/// The state after one event; `None` when the builder refuses it, or when
/// there is no room for another node.
pub open spec fn apply_event(s: BuilderState, ev: BuilderEvent) -> Option<BuilderState> {
    if s.nodes.len() + 1 >= usize::MAX {
        None
    } else {
        match ev {
            BuilderEvent::Known(name, path) => match add_known_spec(s, name, path) {
                Ok(s2) => Some(s2),
                Err(_) => None,
            },
            BuilderEvent::Start => Some(start_spec(s)),
            BuilderEvent::Step => match step_spec(s) {
                Ok(r) => Some(r.0),
                Err(_) => None,
            },
            BuilderEvent::Resolved(r) => match resolved_spec(s, r) {
                Ok(x) => Some(x.0),
                Err(_) => None,
            },
            BuilderEvent::Checked(b) => Some(checked_spec(s, b).0),
            BuilderEvent::Read(c) => match read_spec(s, c) {
                Ok(x) => Some(x.0),
                Err(_) => None,
            },
        }
    }
}

/// The state after the events, in order; `None` once one is refused.
pub open spec fn run_events(s: BuilderState, evs: Seq<BuilderEvent>) -> Option<BuilderState>
    decreases evs.len(),
{
    if evs.len() == 0 {
        Some(s)
    } else {
        match run_events(s, evs.drop_last()) {
            Some(t) => apply_event(t, evs.last()),
            None => None,
        }
    }
}

/// Some node of `s` is at the path `p`.
pub open spec fn has_node_at(s: BuilderState, p: AbsolutePathView) -> bool {
    exists|i: int| 0 <= i < s.nodes.len() && path_key(#[trigger] s.nodes[i].0) == path_key(p)
}

/// Following a link keeps the invariant.
proof fn lemma_link_inv(s: BuilderState, abs: AbsolutePathView)
    requires
        state_inv(s),
        s.frames.len() > 0,
        s.nodes.len() + 1 < usize::MAX,
    ensures
        state_inv(link_spec(s, abs).0),
{
    let idx = s.frames.last().0;
    let k = path_key(abs);
    if !s.lookup.contains_key(k) {
        let current = s.nodes.len() as usize;
        let s2 = with_edge(s, (idx, current));
        assert(state_inv(s2));
        lemma_add_node_inv(s2, (abs, None));
    }
}

/// One event keeps the invariant and what was found, and a known handle
/// whose path was made absolute leaves a node at that path.
proof fn lemma_event_inv(s: BuilderState, ev: BuilderEvent)
    requires
        state_inv(s),
        apply_event(s, ev) is Some,
    ensures
        state_inv(apply_event(s, ev).unwrap()),
        keeps_found(s, apply_event(s, ev).unwrap()),
        ev matches BuilderEvent::Known(_, Ok(p)) ==> has_node_at(apply_event(s, ev).unwrap(), p),
{
    let t = apply_event(s, ev).unwrap();
    match ev {
        BuilderEvent::Known(name, path) => {
            lemma_builder_keeps_found(s, name, path, None, false, None);
            if let Ok(p) = path {
                lemma_add_node_inv(s, (p, Some(name)));
                let k = path_key(p);
                if s.lookup.contains_key(k) {
                    let j = s.lookup[k] as int;
                    assert(t.nodes[j] == s.nodes[j]);
                    assert(path_key(t.nodes[j].0) == k);
                } else {
                    assert(path_key(t.nodes[s.nodes.len() as int].0) == k);
                }
            }
        },
        BuilderEvent::Start => {
            lemma_builder_keeps_found(s, seq![], Err(true), None, false, None);
        },
        BuilderEvent::Step => {
            lemma_builder_keeps_found(s, seq![], Err(true), None, false, None);
            if s.frames.len() > 0 && s.frames.last().1.len() > 0 {
                let top = s.frames.last();
                let s1 = with_frames(s, s.frames.update(s.frames.len() - 1, (top.0, top.1.skip(1))));
                assert(state_inv(s1));
            }
        },
        BuilderEvent::Resolved(r) => {
            lemma_builder_keeps_found(s, seq![], Err(true), r, false, None);
            if let Some(abs) = r {
                lemma_link_inv(s, abs);
            }
        },
        BuilderEvent::Checked(b) => {
            lemma_builder_keeps_found(s, seq![], Err(true), None, b, None);
            if let PhaseView::AwaitCheck(cand) = s.phase {
                lemma_link_inv(s, (true, cand));
            }
        },
        BuilderEvent::Read(c) => {
            lemma_builder_keeps_found(s, seq![], Err(true), None, false, c);
        },
    }
}

/// Nodes and edges kept in place keep a node at a path.
proof fn lemma_keeps_node_at(s: BuilderState, t: BuilderState, p: AbsolutePathView)
    requires
        keeps_found(s, t),
        has_node_at(s, p),
    ensures
        has_node_at(t, p),
{
    let i = choose|i: int| 0 <= i < s.nodes.len() && path_key(#[trigger] s.nodes[i].0) == path_key(p);
    assert(t.nodes[i] == s.nodes[i]);
}

/// The graph as the builder leaves it, after any run of events from the
/// entry file: the entry file is its first node, no two nodes have the
/// same path, every edge leaves a node and ends at a node or at the index
/// the next node would get, and every known handle whose path was made
/// absolute has a node at that path.
pub proof fn lemma_built_graph(entry: AbsolutePathView, evs: Seq<BuilderEvent>)
    requires
        run_events(initial_state(entry), evs) is Some,
    ensures
        ({
            let s = run_events(initial_state(entry), evs).unwrap();
            &&& state_inv(s)
            &&& s.nodes.len() >= 1 && s.nodes[0] == (entry, None::<Seq<char>>)
            &&& forall|i: int, j: int|
                0 <= i < j < s.nodes.len() ==> path_key(#[trigger] s.nodes[i].0) != path_key(
                    #[trigger] s.nodes[j].0,
                )
            &&& forall|i: int|
                0 <= i < s.edges.len() ==> (#[trigger] s.edges[i]).0 < s.nodes.len() && s.edges[i].1
                    <= s.nodes.len()
            &&& forall|k: int|
                0 <= k < evs.len() ==> (#[trigger] evs[k] matches BuilderEvent::Known(_, Ok(p))
                    ==> has_node_at(s, p))
        }),
    decreases evs.len(),
{
    let s0 = initial_state(entry);
    if evs.len() == 0 {
        assert(state_inv(s0));
    } else {
        let init = evs.drop_last();
        lemma_built_graph(entry, init);
        let t = run_events(s0, init).unwrap();
        let s = apply_event(t, evs.last()).unwrap();
        lemma_event_inv(t, evs.last());
        assert(s.nodes[0] == t.nodes[0]);
        assert forall|i: int, j: int|
            0 <= i < j < s.nodes.len() implies path_key(#[trigger] s.nodes[i].0) != path_key(
            #[trigger] s.nodes[j].0,
        ) by {
            assert(s.lookup[path_key(s.nodes[i].0)] == i);
            assert(s.lookup[path_key(s.nodes[j].0)] == j);
        }
        assert forall|k: int|
            0 <= k < evs.len() implies (#[trigger] evs[k] matches BuilderEvent::Known(_, Ok(p))
            ==> has_node_at(s, p)) by {
            if k < evs.len() - 1 {
                assert(evs[k] == init[k]);
                if let BuilderEvent::Known(_, Ok(p)) = evs[k] {
                    lemma_keeps_node_at(t, s, p);
                }
            }
        }
    }
}

/// The lookup agrees with the nodes: each key recorded names a node, a
/// path key the node at that path, a handle key the node that defines the
/// handle.
pub open spec fn lookup_consistent(s: BuilderState) -> bool {
    forall|k: NodeKey| #[trigger]
        s.lookup.contains_key(k) ==> s.lookup[k] < s.nodes.len() && match k {
            NodeKey::Path(_, _) => path_key(s.nodes[s.lookup[k] as int].0) == k,
            NodeKey::Attr(a) => s.nodes[s.lookup[k] as int].1 == Some(a),
        }
}

/// Adding a node gives the index of the node already at its path, leaving
/// the nodes as they were, or adds it at the next index; either way a
/// lookup that agreed with the nodes still does. This fails, and is not
/// stated, for a node whose path was seen and whose handle was not: the
/// handle is then recorded at the next index, where no node is added.
pub proof fn lemma_add_node_lookup(s: BuilderState, n: GraphNodeView)
    requires
        state_inv(s),
        s.nodes.len() + 1 < usize::MAX,
        lookup_consistent(s),
        s.lookup.contains_key(path_key(n.0)) ==> (n.1 matches Some(a) ==> s.lookup.contains_key(
            NodeKey::Attr(a),
        )),
    ensures
        s.lookup.contains_key(path_key(n.0)) ==> add_node_spec(s, n).1 == s.lookup[path_key(n.0)]
            && add_node_spec(s, n).0.nodes == s.nodes,
        !s.lookup.contains_key(path_key(n.0)) ==> add_node_spec(s, n).1 == s.nodes.len()
            && add_node_spec(s, n).0.nodes == s.nodes.push(n),
        lookup_consistent(add_node_spec(s, n).0),
{
    let t = add_node_spec(s, n).0;
    assert forall|k: NodeKey| #[trigger] t.lookup.contains_key(k) implies t.lookup[k] < t.nodes.len()
        && match k {
        NodeKey::Path(_, _) => path_key(t.nodes[t.lookup[k] as int].0) == k,
        NodeKey::Attr(a) => t.nodes[t.lookup[k] as int].1 == Some(a),
    } by {
        if s.lookup.contains_key(k) {
            assert(t.lookup[k] == s.lookup[k]);
            assert(t.nodes[s.lookup[k] as int] == s.nodes[s.lookup[k] as int]);
        }
    }
}

/// An edge may end at `v` in `s`: `v` is a node, or the index recorded for
/// some handle.
pub open spec fn target_known(s: BuilderState, v: usize) -> bool {
    v < s.nodes.len() || exists|a: Seq<char>|
        s.lookup.contains_key(NodeKey::Attr(a)) && #[trigger] s.lookup[NodeKey::Attr(a)] == v
}

/// Every edge of `s` ends at a node or at the index recorded for a handle.
pub open spec fn edges_known(s: BuilderState) -> bool {
    forall|i: int| 0 <= i < s.edges.len() ==> target_known(s, (#[trigger] s.edges[i]).1)
}

/// What `s` recorded is recorded, unchanged, in `t`, and `t` has at least
/// the nodes of `s`.
pub open spec fn lookup_grows(s: BuilderState, t: BuilderState) -> bool {
    &&& s.nodes.len() <= t.nodes.len()
    &&& forall|k: NodeKey| #[trigger]
        s.lookup.contains_key(k) ==> t.lookup.contains_key(k) && t.lookup[k] == s.lookup[k]
}

/// A target that may be ended at stays so as the lookup grows.
proof fn lemma_target_known_carry(s: BuilderState, t: BuilderState, v: usize)
    requires
        target_known(s, v),
        lookup_grows(s, t),
    ensures
        target_known(t, v),
{
    if v >= s.nodes.len() {
        let a = choose|a: Seq<char>|
            s.lookup.contains_key(NodeKey::Attr(a)) && #[trigger] s.lookup[NodeKey::Attr(a)] == v;
        assert(t.lookup.contains_key(NodeKey::Attr(a)));
        assert(t.lookup[NodeKey::Attr(a)] == v);
    }
}

/// Adding a node only records what was not recorded.
proof fn lemma_add_node_grows(s: BuilderState, n: GraphNodeView)
    ensures
        lookup_grows(s, add_node_spec(s, n).0),
        add_node_spec(s, n).0.edges == s.edges,
{
}

/// Following a link only records, and its edge ends at a node.
proof fn lemma_link_known(s: BuilderState, abs: AbsolutePathView)
    requires
        state_inv(s),
        edges_known(s),
        s.frames.len() > 0,
        s.nodes.len() + 1 < usize::MAX,
    ensures
        lookup_grows(s, link_spec(s, abs).0),
        edges_known(link_spec(s, abs).0),
{
    let idx = s.frames.last().0;
    let k = path_key(abs);
    let t = link_spec(s, abs).0;
    if s.lookup.contains_key(k) {
        assert forall|i: int| 0 <= i < t.edges.len() implies target_known(t, (#[trigger] t.edges[i]).1) by {
            if i < s.edges.len() {
                assert(t.edges[i] == s.edges[i]);
                lemma_target_known_carry(s, t, s.edges[i].1);
            }
        }
    } else {
        let current = s.nodes.len() as usize;
        let s2 = with_edge(s, (idx, current));
        lemma_add_node_grows(s2, (abs, None));
        lemma_add_node_inv(s2, (abs, None));
        let s3 = add_node_spec(s2, (abs, None)).0;
        assert(lookup_grows(s, s3));
        assert forall|i: int| 0 <= i < s3.edges.len() implies target_known(s3, (#[trigger] s3.edges[i]).1) by {
            if i < s.edges.len() {
                assert(s3.edges[i] == s.edges[i]);
                lemma_target_known_carry(s, s3, s.edges[i].1);
            }
        }
    }
}

/// A state with the same nodes, edges and lookup has the same edge ends.
proof fn lemma_same_known(s: BuilderState, t: BuilderState)
    requires
        edges_known(s),
        t.nodes == s.nodes,
        t.edges == s.edges,
        t.lookup == s.lookup,
    ensures
        edges_known(t),
{
    assert forall|i: int| 0 <= i < t.edges.len() implies target_known(t, (#[trigger] t.edges[i]).1) by {
        assert(target_known(s, s.edges[i].1));
    }
}

/// One event keeps every edge ending at a node or at a recorded handle.
proof fn lemma_event_known(s: BuilderState, ev: BuilderEvent)
    requires
        state_inv(s),
        edges_known(s),
        apply_event(s, ev) is Some,
    ensures
        edges_known(apply_event(s, ev).unwrap()),
{
    let t = apply_event(s, ev).unwrap();
    match ev {
        BuilderEvent::Known(name, path) => {
            if let Ok(p) = path {
                lemma_add_node_grows(s, (p, Some(name)));
            }
            assert(lookup_grows(s, t));
            assert(t.edges == s.edges);
            assert forall|i: int| 0 <= i < t.edges.len() implies target_known(t, (#[trigger] t.edges[i]).1) by {
                assert(t.edges[i] == s.edges[i]);
                lemma_target_known_carry(s, t, s.edges[i].1);
            }
            assert(edges_known(t));
        },
        BuilderEvent::Step => {
            assert(lookup_grows(s, t));
            assert forall|i: int| 0 <= i < t.edges.len() implies target_known(t, (#[trigger] t.edges[i]).1) by {
                if i < s.edges.len() {
                    assert(t.edges[i] == s.edges[i]);
                    lemma_target_known_carry(s, t, s.edges[i].1);
                } else {
                    let top = s.frames.last();
                    if let NixAstView::MrxDerivation(n) = top.1[0] {
                        assert(t.lookup[NodeKey::Attr(n)] == t.edges[i].1);
                    }
                }
            }
            assert(edges_known(t));
        },
        BuilderEvent::Resolved(r) => {
            match (r, s.phase) {
                (Some(abs), PhaseView::AwaitResolve(false, _)) => {
                    lemma_link_known(s, abs);
                },
                _ => {
                    lemma_same_known(s, t);
                },
            }
        },
        BuilderEvent::Checked(b) => {
            match s.phase {
                PhaseView::AwaitCheck(cand) => if b {
                    lemma_link_known(s, (true, cand));
                } else {
                    lemma_same_known(s, t);
                },
                _ => {
                    lemma_same_known(s, t);
                },
            }
        },
        _ => {
            assert(lookup_grows(s, t));
            assert forall|i: int| 0 <= i < t.edges.len() implies target_known(t, (#[trigger] t.edges[i]).1) by {
                assert(t.edges[i] == s.edges[i]);
                lemma_target_known_carry(s, t, s.edges[i].1);
            }
        },
    }
}

/// After any run of events from the entry file, every edge ends at a node
/// or at the index recorded for a handle.
proof fn lemma_run_edges_known(entry: AbsolutePathView, evs: Seq<BuilderEvent>)
    requires
        run_events(initial_state(entry), evs) is Some,
    ensures
        edges_known(run_events(initial_state(entry), evs).unwrap()),
    decreases evs.len(),
{
    if evs.len() > 0 {
        let init = evs.drop_last();
        lemma_run_edges_known(entry, init);
        lemma_built_graph(entry, init);
        let t = run_events(initial_state(entry), init).unwrap();
        lemma_event_known(t, evs.last());
    }
}

/// Where the handle indices kept their promise, the graph has no dangling
/// edge: after any run of events from the entry file in which every handle
/// recorded names one of the nodes (no known handle came with a path
/// already seen, or a later node filled its index), every edge ends at a
/// node, so listing the edges cannot fail.
pub proof fn lemma_built_graph_edges_at_nodes(entry: AbsolutePathView, evs: Seq<BuilderEvent>)
    requires
        run_events(initial_state(entry), evs) is Some,
        ({
            let s = run_events(initial_state(entry), evs).unwrap();
            forall|a: Seq<char>| #[trigger]
                s.lookup.contains_key(NodeKey::Attr(a)) ==> s.lookup[NodeKey::Attr(a)] < s.nodes.len()
        }),
    ensures
        ({
            let s = run_events(initial_state(entry), evs).unwrap();
            crate::graph::edges_end_at_nodes(s.edges, s.nodes.len() as int)
        }),
{
    lemma_run_edges_known(entry, evs);
    let s = run_events(initial_state(entry), evs).unwrap();
    assert forall|i: int| 0 <= i < s.edges.len() implies (#[trigger] s.edges[i]).1 < s.nodes.len() by {
        assert(target_known(s, s.edges[i].1));
        if s.edges[i].1 >= s.nodes.len() {
            let a = choose|a: Seq<char>|
                s.lookup.contains_key(NodeKey::Attr(a)) && #[trigger] s.lookup[NodeKey::Attr(a)]
                    == s.edges[i].1;
            assert(s.lookup.contains_key(NodeKey::Attr(a)));
        }
    }
}

/// A simple path literal that resolves, to a file or to a directory, gives
/// one more edge: from the file being read to the node at that path (a node
/// already there, or a new one added for it); nothing else of the edges
/// changes.
pub proof fn lemma_resolved_path_links(s: BuilderState, q: Seq<char>, abs: AbsolutePathView)
    requires
        state_inv(s),
        s.nodes.len() + 1 < usize::MAX,
        s.phase == PhaseView::AwaitResolve(false, q),
    ensures
        resolved_spec(s, Some(abs)) matches Ok((t, _)) && {
            &&& t.edges.len() == s.edges.len() + 1
            &&& t.edges.drop_last() == s.edges
            &&& t.edges.last().0 == s.frames.last().0
            &&& t.edges.last().1 < t.nodes.len()
            &&& path_key(t.nodes[t.edges.last().1 as int].0) == path_key(abs)
            &&& s.nodes.is_prefix_of(t.nodes)
        },
{
    let k = path_key(abs);
    let t = link_spec(s, abs).0;
    lemma_link_inv(s, abs);
    lemma_link_keeps(s, abs);
    if s.lookup.contains_key(k) {
        assert(t.edges =~= s.edges.push((s.frames.last().0, s.lookup[k])));
    } else {
        let current = s.nodes.len() as usize;
        let s2 = with_edge(s, (s.frames.last().0, current));
        lemma_add_node_inv(s2, (abs, None));
        assert(t.edges =~= s.edges.push((s.frames.last().0, current)));
        assert(t.nodes[current as int] == (abs, None::<Seq<char>>));
    }
    assert(t.edges.drop_last() =~= s.edges);
}

} // verus!
