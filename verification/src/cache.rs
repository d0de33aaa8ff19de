//! Caching built derivations: modification times, what went stale, what to
//! rebuild, and which store paths to record for which handle.

use vstd::prelude::*;

use crate::attr::Attrname;
use crate::fs::{same_abs_path, AbsolutePathBuf, AbsolutePathView};
use crate::graph::{
    reach_within, reachable, Graph, GraphNode, GraphNodeView, NodeId, NodeIdView, node_matches,
};
use crate::nix_build::NixBuildOutput;
use crate::nix_references::store_views;
use crate::nix_store_path::{classify_store_path, is_store_path, NixStorePath, StorePathView};
use crate::text::{chars_of, push_all, str_views, string_from_chars};

verus! {

broadcast use vstd::std_specs::hash::group_hash_axioms;

/// A modification time, in whole seconds since the Unix epoch; never
/// negative.
#[derive(Debug, Clone, Copy, PartialEq, Eq, Structural, PartialOrd, Ord)]
pub struct UnixSeconds(i64);

impl View for UnixSeconds {
    type V = i64;

    closed spec fn view(&self) -> i64 {
        self.0
    }
}

/// The time for a number of seconds: negative numbers count as zero.
pub open spec fn seconds_of(value: i64) -> i64 {
    if value > 0 {
        value
    } else {
        0
    }
}

impl From<i64> for UnixSeconds {
    fn from(value: i64) -> (r: UnixSeconds) {
        UnixSeconds(if value > 0 {
            value
        } else {
            0
        })
    }
}

impl vstd::std_specs::convert::FromSpecImpl<i64> for UnixSeconds {
    open spec fn obeys_from_spec() -> bool {
        true
    }

    closed spec fn from_spec(v: i64) -> UnixSeconds {
        UnixSeconds(seconds_of(v))
    }
}

impl Default for UnixSeconds {
    fn default() -> (r: UnixSeconds)
        ensures
            r@ == 0,
    {
        UnixSeconds(0)
    }
}

impl UnixSeconds {
    /// The time for `value` seconds (see `seconds_of`).
    pub fn from_seconds(value: i64) -> (r: UnixSeconds)
        ensures
            r@ == seconds_of(value),
    {
        UnixSeconds::from(value)
    }

    /// The number of seconds, as stored in the database.
    pub fn to_sql(self) -> (r: i64)
        ensures
            r == self@,
    {
        self.0
    }

    /// Whether this time is strictly earlier than `other`.
    pub fn is_before(&self, other: &UnixSeconds) -> (r: bool)
        ensures
            r == (self@ < other@),
    {
        self.0 < other.0
    }
}

/// Why the database could not be opened.
#[derive(Debug, Clone, Copy)]
pub enum ConnectError {
    Environment,
    Connect,
    Layout,
    Migrations,
    Pragmas,
}

/// Why a store path could not be recorded for a handle.
#[derive(Debug, Clone, Copy, PartialEq, Eq, Structural)]
pub enum WriteStoreError {
    /// The database failed.
    DbError,
    /// The handle is not recorded yet; recording it and retrying is in
    /// order.
    MissingAlias,
}

impl WriteStoreError {
    /// Whether the handle was missing (so a retry after recording it is in
    /// order).
    pub fn is_missing_alias(&self) -> (r: bool)
        ensures
            r == (*self == WriteStoreError::MissingAlias),
    {
        match self {
            WriteStoreError::MissingAlias => true,
            WriteStoreError::DbError => false,
        }
    }
}

/// What follows a first attempt to record a handle's store path.
#[derive(Debug, Clone, Copy, PartialEq, Eq, Structural)]
pub enum StoreWriteStep {
    /// It was recorded: nothing more.
    Written,
    /// The handle had no row yet: record it, with the modification time of
    /// the file of the node that defines it, and write once more.
    RecordAliasAndRetry,
    /// The database failed: caching fails.
    Failed,
}

/// What follows a first attempt to record a handle's store path: a missing
/// handle is recorded and the write tried once more; any other failure is
/// final.
pub fn store_write_step(first: &Result<(), WriteStoreError>) -> (r: StoreWriteStep)
    ensures
        r == match first {
            Ok(()) => StoreWriteStep::Written,
            Err(WriteStoreError::MissingAlias) => StoreWriteStep::RecordAliasAndRetry,
            Err(WriteStoreError::DbError) => StoreWriteStep::Failed,
        },
{
    match first {
        Ok(()) => StoreWriteStep::Written,
        Err(e) => if e.is_missing_alias() {
            StoreWriteStep::RecordAliasAndRetry
        } else {
            StoreWriteStep::Failed
        },
    }
}

/// Why caching failed.
#[derive(Debug)]
pub enum CacheError {
    Static(String),
    Build(String),
    StoreNode(GraphNode, String),
    WriteStore,
}

/// A node is stale when no time was saved for it, or the saved time is
/// earlier than its file's: then the file's time is what to save.
pub open spec fn stale_time(saved: Option<i64>, file_mtime: i64) -> Option<i64> {
    match saved {
        None => Some(file_mtime),
        Some(s) => if s < file_mtime {
            Some(file_mtime)
        } else {
            None
        },
    }
}

/// Whether a node is stale (see `stale_time`): the time to save if so.
pub fn is_stale(saved: Option<UnixSeconds>, file_mtime: UnixSeconds) -> (r: Option<UnixSeconds>)
    ensures
        match r {
            Some(t) => stale_time(
                match saved {
                    Some(s) => Some(s@),
                    None => None,
                },
                file_mtime@,
            ) == Some(t@),
            None => stale_time(
                match saved {
                    Some(s) => Some(s@),
                    None => None,
                },
                file_mtime@,
            ) is None,
        },
{
    match saved {
        None => Some(file_mtime),
        Some(s) => if s.is_before(&file_mtime) {
            Some(file_mtime)
        } else {
            None
        },
    }
}

/// The refusal of an empty list of handles.
pub open spec fn no_derivations_message() -> Seq<char> {
    "No derivations provided. Provide at least one as a positional argument."@
}

/// The handles asked for; at least one is needed.
pub fn cache_attrnames(derivations: &Vec<String>) -> (r: Result<Vec<Attrname>, CacheError>)
    ensures
        match r {
            Ok(v) => derivations@.len() > 0 && v@.len() == derivations@.len() && forall|i: int|
                0 <= i < v@.len() ==> #[trigger] v@[i]@ == derivations@[i]@,
            Err(e) => derivations@.len() == 0 && (e matches CacheError::Static(m) && m@
                == no_derivations_message()),
        },
{
    proof {
        reveal_strlit("No derivations provided. Provide at least one as a positional argument.");
    }
    if derivations.len() == 0 {
        let m: &str = "No derivations provided. Provide at least one as a positional argument.";
        return Err(CacheError::Static(m.to_owned()));
    }
    let mut out: Vec<Attrname> = Vec::new();
    let mut i: usize = 0;
    while i < derivations.len()
        invariant
            i <= derivations.len(),
            out@.len() == i,
            forall|k: int| 0 <= k < i ==> #[trigger] out@[k]@ == derivations@[k]@,
        decreases derivations.len() - i,
    {
        out.push(Attrname(derivations[i].clone()));
        i = i + 1;
    }
    Ok(out)
}

/// `#`
pub open spec fn hash_sign() -> Seq<char> {
    seq!['#']
}

/// The installable of each handle: `#` and the handle.
pub fn build_targets(attrnames: &Vec<Attrname>) -> (r: Vec<String>)
    ensures
        r@.len() == attrnames@.len(),
        forall|i: int| 0 <= i < r@.len() ==> #[trigger] r@[i]@ == hash_sign() + attrnames@[i]@,
{
    let mut out: Vec<String> = Vec::new();
    let mut i: usize = 0;
    while i < attrnames.len()
        invariant
            i <= attrnames.len(),
            out@.len() == i,
            forall|k: int| 0 <= k < i ==> #[trigger] out@[k]@ == hash_sign() + attrnames@[k]@,
        decreases attrnames.len() - i,
    {
        let mut t: Vec<char> = Vec::new();
        t.push('#');
        let name = chars_of(attrnames[i].as_str());
        push_all(&mut t, name.as_slice());
        proof {
            assert(t@ =~= hash_sign() + attrnames@[i as int]@);
        }
        out.push(string_from_chars(t.as_slice()));
        i = i + 1;
    }
    out
}

/// The `out` path of each build output that has one, in order.
pub open spec fn out_paths_of(outputs: Seq<(Option<StorePathView>, Option<StorePathView>)>) -> Seq<
    StorePathView,
>
    decreases outputs.len(),
{
    if outputs.len() == 0 {
        seq![]
    } else {
        let rest = out_paths_of(outputs.drop_last());
        match outputs.last().1 {
            Some(p) => rest.push(p),
            None => rest,
        }
    }
}

/// The `out` paths of the build outputs (see `out_paths_of`).
pub fn out_paths(outputs: Vec<NixBuildOutput>) -> (r: Vec<NixStorePath>)
    ensures
        store_views(r@) == out_paths_of(crate::nix_build::output_views(outputs@)),
{
    let ghost all = outputs@;
    let ghost ov = crate::nix_build::output_views(all);
    let mut rest = outputs;
    let mut out: Vec<NixStorePath> = Vec::new();
    let n = rest.len();
    let mut i: usize = 0;
    proof {
        assert(ov.take(0) =~= Seq::<(Option<StorePathView>, Option<StorePathView>)>::empty());
        assert(store_views(out@) =~= Seq::<StorePathView>::empty());
        assert(rest@ =~= all.skip(0));
    }
    while i < n
        invariant
            n == all.len(),
            i <= n,
            ov == crate::nix_build::output_views(all),
            rest@ == all.skip(i as int),
            store_views(out@) == out_paths_of(ov.take(i as int)),
        decreases n - i,
    {
        let o = rest.remove(0);
        proof {
            assert(o == all[i as int]);
            assert(rest@ =~= all.skip(i + 1));
            assert(ov.take(i + 1).drop_last() =~= ov.take(i as int));
            assert(ov.take(i + 1).last() == o@);
        }
        match o.out {
            Some(p) => {
                let ghost before = store_views(out@);
                out.push(p);
                proof {
                    assert(store_views(out@) =~= before.push(out@.last()@));
                }
            },
            None => {},
        }
        i = i + 1;
    }
    proof {
        assert(ov.take(n as int) =~= ov);
    }
    out
}

/// A node found stale while looking for what to rebuild: the index of the
/// handle asked for, the node's index in the graph, and its file's time.
#[derive(Debug, Clone, Copy)]
pub struct StaleNodeInfo {
    pub attrname_idx: usize,
    pub node_idx: usize,
    pub mtime: UnixSeconds,
}

/// What to do about the handles asked for: use what the store already
/// holds, or build these handles.
#[derive(Debug)]
pub enum BuildStrategy {
    UseCached(Vec<NixStorePath>),
    Build(Vec<Attrname>),
}

/// The abstract form of a build strategy.
pub enum BuildStrategyView {
    UseCached(Seq<StorePathView>),
    Build(Seq<Seq<char>>),
}

/// The views of a sequence of handles.
pub open spec fn attr_views(v: Seq<Attrname>) -> Seq<Seq<char>> {
    v.map_values(|a: Attrname| a@)
}

impl View for BuildStrategy {
    type V = BuildStrategyView;

    open spec fn view(&self) -> BuildStrategyView {
        match self {
            BuildStrategy::UseCached(p) => BuildStrategyView::UseCached(store_views(p@)),
            BuildStrategy::Build(a) => BuildStrategyView::Build(attr_views(a@)),
        }
    }
}

/// The sequence with each run of equal neighbours kept once (`dedup`).
pub open spec fn dedup_consecutive<A>(s: Seq<A>) -> Seq<A>
    decreases s.len(),
{
    if s.len() <= 1 {
        s
    } else if s.last() == s[s.len() - 2] {
        dedup_consecutive(s.drop_last())
    } else {
        dedup_consecutive(s.drop_last()).push(s.last())
    }
}

/// The names at the given indices, skipping indices out of range.
pub open spec fn names_at(names: Seq<Seq<char>>, idxs: Seq<usize>) -> Seq<Seq<char>>
    decreases idxs.len(),
{
    if idxs.len() == 0 {
        seq![]
    } else {
        let rest = names_at(names, idxs.drop_last());
        if (idxs.last() as int) < names.len() {
            rest.push(names[idxs.last() as int])
        } else {
            rest
        }
    }
}

/// The paths that are present, in order.
pub open spec fn present_paths(c: Seq<Option<StorePathView>>) -> Seq<StorePathView>
    decreases c.len(),
{
    if c.len() == 0 {
        seq![]
    } else {
        let rest = present_paths(c.drop_last());
        match c.last() {
            Some(p) => rest.push(p),
            None => rest,
        }
    }
}

/// What to do: when nodes went stale, build the handles they were found
/// for (each run of one handle once); otherwise use the store paths cached
/// for the handles if there are any, else build every handle.
pub open spec fn strategy_of(
    names: Seq<Seq<char>>,
    stale_idxs: Seq<usize>,
    cached: Seq<Option<StorePathView>>,
) -> BuildStrategyView {
    if stale_idxs.len() > 0 {
        BuildStrategyView::Build(names_at(names, dedup_consecutive(stale_idxs)))
    } else {
        let p = present_paths(cached);
        if p.len() > 0 {
            BuildStrategyView::UseCached(p)
        } else {
            BuildStrategyView::Build(names)
        }
    }
}

/// The handle indices of stale nodes, in order.
pub open spec fn stale_idxs_of(stale: Seq<StaleNodeInfo>) -> Seq<usize> {
    stale.map_values(|x: StaleNodeInfo| x.attrname_idx)
}

/// The views of a sequence of optional store paths.
pub open spec fn opt_store_views(v: Seq<Option<NixStorePath>>) -> Seq<Option<StorePathView>> {
    v.map_values(|p: Option<NixStorePath>| crate::nix_build::opt_store_view(p))
}

impl BuildStrategy {
    /// Whether the store paths cached for the handles are needed to decide:
    /// only when nothing went stale.
    pub fn needs_cached_paths(stale: &Vec<StaleNodeInfo>) -> (r: bool)
        ensures
            r == (stale@.len() == 0),
    {
        stale.len() == 0
    }

    /// What to do (see `strategy_of`), given the stale nodes and, when
    /// none went stale, the store path cached for each handle.
    pub fn new(
        attrnames: &Vec<Attrname>,
        stale: &Vec<StaleNodeInfo>,
        cached: Vec<Option<NixStorePath>>,
    ) -> (r: BuildStrategy)
        ensures
            r@ == strategy_of(attr_views(attrnames@), stale_idxs_of(stale@), opt_store_views(cached@)),
    {
        let ghost names = attr_views(attrnames@);
        if stale.len() > 0 {
            let ghost idxs = stale_idxs_of(stale@);
            let mut kept: Vec<usize> = Vec::new();
            let mut i: usize = 0;
            proof {
                assert(idxs.take(0) =~= Seq::<usize>::empty());
            }
            while i < stale.len()
                invariant
                    i <= stale.len(),
                    idxs == stale_idxs_of(stale@),
                    kept@ == dedup_consecutive(idxs.take(i as int)),
                decreases stale.len() - i,
            {
                let ghost t = idxs.take(i + 1);
                proof {
                    assert(t.drop_last() =~= idxs.take(i as int));
                    assert(t.last() == stale@[i as int].attrname_idx);
                    if i > 0 {
                        assert(t[t.len() - 2] == stale@[i - 1].attrname_idx);
                    }
                }
                if i == 0 || stale[i].attrname_idx != stale[i - 1].attrname_idx {
                    kept.push(stale[i].attrname_idx);
                }
                i = i + 1;
            }
            proof {
                assert(idxs.take(stale.len() as int) =~= idxs);
            }
            let mut out: Vec<Attrname> = Vec::new();
            let mut j: usize = 0;
            proof {
                assert(kept@.take(0) =~= Seq::<usize>::empty());
                assert(attr_views(out@) =~= Seq::<Seq<char>>::empty());
            }
            while j < kept.len()
                invariant
                    j <= kept.len(),
                    names == attr_views(attrnames@),
                    attr_views(out@) == names_at(names, kept@.take(j as int)),
                decreases kept.len() - j,
            {
                proof {
                    assert(kept@.take(j + 1).drop_last() =~= kept@.take(j as int));
                    assert(kept@.take(j + 1).last() == kept@[j as int]);
                }
                let idx = kept[j];
                if idx < attrnames.len() {
                    let ghost before = attr_views(out@);
                    out.push(attrnames[idx].duplicate());
                    proof {
                        assert(attr_views(out@) =~= before.push(names[idx as int]));
                    }
                }
                j = j + 1;
            }
            proof {
                assert(kept@.take(kept@.len() as int) =~= kept@);
            }
            BuildStrategy::Build(out)
        } else {
            let ghost cv = opt_store_views(cached@);
            let mut rest = cached;
            let n = rest.len();
            let mut paths: Vec<NixStorePath> = Vec::new();
            let mut i: usize = 0;
            let ghost all = rest@;
            proof {
                assert(cv.take(0) =~= Seq::<Option<StorePathView>>::empty());
                assert(store_views(paths@) =~= Seq::<StorePathView>::empty());
                assert(rest@ =~= all.skip(0));
            }
            while i < n
                invariant
                    n == all.len(),
                    i <= n,
                    cv == opt_store_views(all),
                    rest@ == all.skip(i as int),
                    store_views(paths@) == present_paths(cv.take(i as int)),
                decreases n - i,
            {
                let c = rest.remove(0);
                proof {
                    assert(c == all[i as int]);
                    assert(rest@ =~= all.skip(i + 1));
                    assert(cv.take(i + 1).drop_last() =~= cv.take(i as int));
                    assert(cv.take(i + 1).last() == crate::nix_build::opt_store_view(c));
                }
                match c {
                    Some(p) => {
                        let ghost before = store_views(paths@);
                        paths.push(p);
                        proof {
                            assert(store_views(paths@) =~= before.push(paths@.last()@));
                        }
                    },
                    None => {},
                }
                i = i + 1;
            }
            proof {
                assert(cv.take(n as int) =~= cv);
            }
            if paths.len() > 0 {
                BuildStrategy::UseCached(paths)
            } else {
                let mut all_names: Vec<Attrname> = Vec::new();
                let mut k: usize = 0;
                while k < attrnames.len()
                    invariant
                        k <= attrnames.len(),
                        attr_views(all_names@) == names.take(k as int),
                        names == attr_views(attrnames@),
                    decreases attrnames.len() - k,
                {
                    let ghost before = attr_views(all_names@);
                    all_names.push(attrnames[k].duplicate());
                    proof {
                        assert(attr_views(all_names@) =~= before.push(names[k as int]));
                        assert(names.take(k + 1) =~= names.take(k as int).push(names[k as int]));
                    }
                    k = k + 1;
                }
                proof {
                    assert(names.take(attrnames.len() as int) =~= names);
                }
                BuildStrategy::Build(all_names)
            }
        }
    }
}

/// `/bin/`
pub open spec fn bin_slash() -> Seq<char> {
    seq!['/', 'b', 'i', 'n', '/']
}

/// What to record for a store path that the built outputs need: for a form
/// that carries a handle, the handle's executable (an output directory's
/// `bin/<handle>`, a `bin` directory's path followed by the handle, an
/// executable itself), classified anew, with the handle.
pub open spec fn reference_of(v: StorePathView) -> Option<(StorePathView, Seq<char>)> {
    match v {
        StorePathView::MrxOutDir(p, a) => Some((classify_store_path(p + bin_slash() + a), a)),
        StorePathView::MrxBinDir(p, a) => Some((classify_store_path(p + a), a)),
        StorePathView::MrxExe(p, a) => Some((classify_store_path(p), a)),
        _ => None,
    }
}

/// What to record for each store path, in order (see `reference_of`).
pub open spec fn references_of(v: Seq<StorePathView>) -> Seq<(StorePathView, Seq<char>)>
    decreases v.len(),
{
    if v.len() == 0 {
        seq![]
    } else {
        let rest = references_of(v.drop_last());
        match reference_of(v.last()) {
            Some(r) => rest.push(r),
            None => rest,
        }
    }
}

/// A store path followed by anything is still a store path.
proof fn lemma_store_path_extend(p: Seq<char>, x: Seq<char>)
    requires
        is_store_path(p),
    ensures
        is_store_path(p + x),
{
    let q = p + x;
    assert(q.take(store_prefix_len()) =~= p.take(store_prefix_len()));
    let i = choose|i: int| 0 <= i < p.len() && p[i] == '-';
    assert(q[i] == '-');
}

/// The length of `/nix/store/`.
spec fn store_prefix_len() -> int {
    11
}

/// The views of pairs of a store path and a handle.
pub open spec fn reference_views(v: Seq<(NixStorePath, Attrname)>) -> Seq<(StorePathView, Seq<char>)> {
    v.map_values(|x: (NixStorePath, Attrname)| (x.0@, x.1@))
}

/// What to record for each of the store paths (see `references_of`).
pub fn reference_paths(paths: Vec<NixStorePath>) -> (r: Vec<(NixStorePath, Attrname)>)
    requires
        forall|i: int| 0 <= i < paths@.len() ==> is_store_path(#[trigger] paths@[i]@.text()),
    ensures
        reference_views(r@) == references_of(store_views(paths@)),
{
    let ghost all = paths@;
    let ghost sv = store_views(all);
    let mut rest = paths;
    let n = rest.len();
    let mut out: Vec<(NixStorePath, Attrname)> = Vec::new();
    let mut i: usize = 0;
    proof {
        assert(sv.take(0) =~= Seq::<StorePathView>::empty());
        assert(reference_views(out@) =~= Seq::<(StorePathView, Seq<char>)>::empty());
        assert(rest@ =~= all.skip(0));
    }
    while i < n
        invariant
            n == all.len(),
            i <= n,
            sv == store_views(all),
            forall|k: int| 0 <= k < all.len() ==> is_store_path(#[trigger] all[k]@.text()),
            rest@ == all.skip(i as int),
            reference_views(out@) == references_of(sv.take(i as int)),
        decreases n - i,
    {
        let item = rest.remove(0);
        proof {
            assert(item == all[i as int]);
            assert(rest@ =~= all.skip(i + 1));
            assert(sv.take(i + 1).drop_last() =~= sv.take(i as int));
            assert(sv.take(i + 1).last() == item@);
            assert(is_store_path(all[i as int]@.text()));
        }
        let ghost before = reference_views(out@);
        match item {
            NixStorePath::MrxOutDir(m) => {
                let mut t = chars_of(m.0.as_str());
                let bin: [char; 5] = ['/', 'b', 'i', 'n', '/'];
                push_all(&mut t, bin.as_slice());
                let name = chars_of(m.1.as_str());
                push_all(&mut t, name.as_slice());
                proof {
                    assert(bin@ =~= bin_slash());
                    assert(t@ =~= m.0@ + bin_slash() + m.1@);
                    lemma_store_path_extend(m.0@, bin_slash() + m.1@);
                    assert(m.0@ + bin_slash() + m.1@ =~= m.0@ + (bin_slash() + m.1@));
                }
                let path = NixStorePath::new(string_from_chars(t.as_slice()));
                out.push((path, m.1));
                proof {
                    assert(reference_views(out@) =~= before.push(reference_of(item@).unwrap()));
                }
            },
            NixStorePath::MrxBinDir(m) => {
                let mut t = chars_of(m.0.as_str());
                let name = chars_of(m.1.as_str());
                push_all(&mut t, name.as_slice());
                proof {
                    lemma_store_path_extend(m.0@, m.1@);
                }
                let path = NixStorePath::new(string_from_chars(t.as_slice()));
                out.push((path, m.1));
                proof {
                    assert(reference_views(out@) =~= before.push(reference_of(item@).unwrap()));
                }
            },
            NixStorePath::MrxExe(m) => {
                let path = NixStorePath::new(m.0);
                out.push((path, m.1));
                proof {
                    assert(reference_views(out@) =~= before.push(reference_of(item@).unwrap()));
                }
            },
            _ => {},
        }
        i = i + 1;
    }
    proof {
        assert(sv.take(n as int) =~= sv);
    }
    out
}

/// The executable that a store path stands for (see
/// `NixStorePath::into_mrx_exe`).
pub open spec fn mrx_exe_of(v: StorePathView) -> Option<StorePathView> {
    match v {
        StorePathView::MrxBinDir(p, a) => Some(StorePathView::MrxExe(p + a, a)),
        StorePathView::MrxExe(p, a) => Some(StorePathView::MrxExe(p, a)),
        StorePathView::MrxOutDir(p, a) => Some(StorePathView::MrxExe(p + bin_slash() + a, a)),
        _ => None,
    }
}

/// The executables that the store paths stand for, in order, skipping
/// those that stand for none.
pub open spec fn mrx_exes_of(v: Seq<StorePathView>) -> Seq<StorePathView>
    decreases v.len(),
{
    if v.len() == 0 {
        seq![]
    } else {
        let rest = mrx_exes_of(v.drop_last());
        match mrx_exe_of(v.last()) {
            Some(e) => rest.push(e),
            None => rest,
        }
    }
}

/// The executables that the built paths stand for (see `mrx_exes_of`).
pub fn mrx_exes(paths: Vec<NixStorePath>) -> (r: Vec<NixStorePath>)
    ensures
        store_views(r@) == mrx_exes_of(store_views(paths@)),
{
    let ghost all = paths@;
    let ghost sv = store_views(all);
    let mut rest = paths;
    let n = rest.len();
    let mut out: Vec<NixStorePath> = Vec::new();
    let mut i: usize = 0;
    proof {
        assert(sv.take(0) =~= Seq::<StorePathView>::empty());
        assert(store_views(out@) =~= Seq::<StorePathView>::empty());
        assert(rest@ =~= all.skip(0));
    }
    while i < n
        invariant
            n == all.len(),
            i <= n,
            sv == store_views(all),
            rest@ == all.skip(i as int),
            store_views(out@) == mrx_exes_of(sv.take(i as int)),
        decreases n - i,
    {
        let item = rest.remove(0);
        proof {
            assert(item == all[i as int]);
            assert(rest@ =~= all.skip(i + 1));
            assert(sv.take(i + 1).drop_last() =~= sv.take(i as int));
            assert(sv.take(i + 1).last() == item@);
            assert(bin_slash() =~= seq!['/', 'b', 'i', 'n', '/']);
        }
        let ghost before = store_views(out@);
        match item.into_mrx_exe() {
            Some(e) => {
                out.push(e);
                proof {
                    assert(store_views(out@) =~= before.push(out@.last()@));
                }
            },
            None => {},
        }
        i = i + 1;
    }
    proof {
        assert(sv.take(n as int) =~= sv);
    }
    out
}

/// `i` is the first node that `id` names.
pub open spec fn is_first_match(nodes: Seq<GraphNodeView>, id: NodeIdView, i: int) -> bool {
    &&& 0 <= i < nodes.len()
    &&& node_matches(id, nodes[i])
    &&& forall|k: int| 0 <= k < i ==> !node_matches(id, #[trigger] nodes[k])
}

/// The first node that `id` names, if any (what `Graph::find_node` finds).
pub open spec fn first_match(nodes: Seq<GraphNodeView>, id: NodeIdView) -> Option<int> {
    if exists|i: int| is_first_match(nodes, id, i) {
        Some(choose|i: int| is_first_match(nodes, id, i))
    } else {
        None
    }
}

/// There is at most one first match.
pub proof fn lemma_first_match_of(nodes: Seq<GraphNodeView>, id: NodeIdView, i: int)
    requires
        is_first_match(nodes, id, i),
    ensures
        first_match(nodes, id) == Some(i),
{
    lemma_first_match(nodes, id, i);
}

/// There is at most one first match.
proof fn lemma_first_match(nodes: Seq<GraphNodeView>, id: NodeIdView, i: int)
    requires
        is_first_match(nodes, id, i),
    ensures
        first_match(nodes, id) == Some(i),
{
    let j = choose|j: int| is_first_match(nodes, id, j);
    if j < i {
        assert(!node_matches(id, nodes[j]));
    } else if i < j {
        assert(!node_matches(id, nodes[i]));
    }
}

/// The id by which a node is looked up again: its handle when it defines
/// one, its path otherwise.
pub open spec fn id_of_node(n: GraphNodeView) -> NodeIdView {
    match n.1 {
        Some(a) => NodeIdView::Attrname(a),
        None => NodeIdView::Path(n.0),
    }
}

/// The nodes to check beside the node of a handle: among the first `n`
/// nodes, in order, each one reachable from node `start` whose path is not
/// the generated file, looked up again by its id.
pub open spec fn dep_nodes(
    nodes: Seq<GraphNodeView>,
    edges: Seq<(usize, usize)>,
    start: int,
    generated: AbsolutePathView,
    n: int,
) -> Seq<usize>
    decreases n,
{
    if n <= 0 {
        seq![]
    } else {
        let rest = dep_nodes(nodes, edges, start, generated, n - 1);
        let k = n - 1;
        if reachable(edges, start, k) && !same_abs_path(nodes[k].0, generated) {
            match first_match(nodes, id_of_node(nodes[k])) {
                Some(j) => rest.push(j as usize),
                None => rest,
            }
        } else {
            rest
        }
    }
}

/// One handle to look at: its index among the handles asked for, and its
/// node.
#[derive(Debug)]
pub struct StaleProbe {
    pub attrname_idx: usize,
    pub node_idx: usize,
}

/// The abstract form of a probe.
pub type ProbeView = (usize, usize);

impl View for StaleProbe {
    type V = ProbeView;

    open spec fn view(&self) -> ProbeView {
        (self.attrname_idx, self.node_idx)
    }
}

/// The views of a sequence of probes.
pub open spec fn probe_views(v: Seq<StaleProbe>) -> Seq<ProbeView> {
    v.map_values(|p: StaleProbe| p@)
}

/// What to look at for the first `m` handles asked for: each handle that
/// names a node, with the first node it names.
pub open spec fn probe_plan(nodes: Seq<GraphNodeView>, names: Seq<Seq<char>>, m: int) -> Seq<
    ProbeView,
>
    decreases m,
{
    if m <= 0 {
        seq![]
    } else {
        let rest = probe_plan(nodes, names, m - 1);
        let ai = m - 1;
        match first_match(nodes, NodeIdView::Attrname(names[ai])) {
            Some(j) => rest.push((ai as usize, j as usize)),
            None => rest,
        }
    }
}

/// The first node that `id` names (see `first_match`), by index.
fn find_index(graph: &Graph, id: &NodeId) -> (r: Option<usize>)
    ensures
        match r {
            Some(i) => first_match(graph.nodes_view(), id@) == Some(i as int),
            None => first_match(graph.nodes_view(), id@) is None,
        },
{
    match graph.find_node(id) {
        Some((i, _)) => {
            proof {
                lemma_first_match(graph.nodes_view(), id@, i as int);
            }
            Some(i)
        },
        None => None,
    }
}

/// The nodes to check beside the node of the handle at `start` among
/// those asked for (see `dep_nodes`): the dependencies are looked up from
/// the node at that index, each of which must be a node of the graph (see
/// `Graph::dependencies_within_nodes`).
pub fn dependency_nodes(graph: &Graph, start: usize, generated: &AbsolutePathBuf) -> (r: Vec<usize>)
    requires
        reach_within(graph.edges_view(), start as int, graph.nodes_view().len() as int),
    ensures
        r@ == dep_nodes(
            graph.nodes_view(),
            graph.edges_view(),
            start as int,
            generated@,
            graph.nodes_view().len() as int,
        ),
{
    let deps = graph.find_dependencies_of(start);
    let n = graph.node_count();
    let mut out: Vec<usize> = Vec::new();
    let mut k: usize = 0;
    while k < n
        invariant
            k <= n,
            n == graph.nodes_view().len(),
            forall|x: usize| #[trigger]
                deps@.contains_key(x) <==> reachable(graph.edges_view(), start as int, x as int),
            out@ == dep_nodes(graph.nodes_view(), graph.edges_view(), start as int, generated@, k as int),
        decreases n - k,
    {
        if deps.contains_key(&k) {
            let node = graph.node(k);
            if !node.path.same_as(generated) {
                let id = match &node.derivation {
                    Some(a) => NodeId::Attrname(a.duplicate()),
                    None => NodeId::Path(node.path.duplicate()),
                };
                proof {
                    assert(id@ == id_of_node(graph.nodes_view()[k as int]));
                }
                match find_index(graph, &id) {
                    Some(j) => {
                        out.push(j);
                    },
                    None => {},
                }
            }
        }
        k = k + 1;
    }
    out
}

/// What to look at for each handle asked for (see `probe_plan`).
pub fn stale_plan(graph: &Graph, attrnames: &Vec<Attrname>) -> (r: Vec<StaleProbe>)
    ensures
        probe_views(r@) == probe_plan(
            graph.nodes_view(),
            attr_views(attrnames@),
            attrnames@.len() as int,
        ),
{
    let mut out: Vec<StaleProbe> = Vec::new();
    let mut ai: usize = 0;
    proof {
        assert(probe_views(out@) =~= Seq::<ProbeView>::empty());
    }
    while ai < attrnames.len()
        invariant
            ai <= attrnames.len(),
            probe_views(out@) == probe_plan(graph.nodes_view(), attr_views(attrnames@), ai as int),
        decreases attrnames.len() - ai,
    {
        let id = NodeId::Attrname(attrnames[ai].duplicate());
        proof {
            assert(attr_views(attrnames@)[ai as int] == attrnames@[ai as int]@);
        }
        match find_index(graph, &id) {
            Some(j) => {
                let ghost before = probe_views(out@);
                out.push(StaleProbe { attrname_idx: ai, node_idx: j });
                proof {
                    assert(probe_views(out@) =~= before.push(out@.last()@));
                }
            },
            None => {},
        }
        ai = ai + 1;
    }
    out
}

/// What the search for stale nodes needs next.
#[derive(Debug, Clone, Copy, PartialEq, Eq, Structural)]
pub enum SearchStep {
    /// Whether this node is stale (answer with `record`).
    Check(usize),
    /// The nodes to check beside the node of the handle at this index
    /// among those asked for, which was found fresh (answer with
    /// `record_dependencies`).
    Dependencies(usize),
    /// Nothing: the search is over (call `finish`).
    Done,
}

/// Where the search stands within one probe.
pub enum ProbePhase {
    /// The handle's own node is to be checked.
    Node,
    /// The node was fresh: the nodes beside it are to be told.
    AwaitDeps,
    /// The nodes beside it, the `k`-th to be checked next.
    Deps(Seq<usize>, int),
}

/// Where a search for stale nodes stands: the probes, the probe being
/// looked at and where within it, and the stale nodes found so far
/// (handle index, node index, time).
pub struct SearchView {
    pub probes: Seq<ProbeView>,
    pub pos: int,
    pub phase: ProbePhase,
    pub found: Seq<(usize, usize, i64)>,
}

/// What the search needs next.
pub open spec fn search_next(s: SearchView) -> SearchStep {
    if s.pos >= s.probes.len() {
        SearchStep::Done
    } else {
        match s.phase {
            ProbePhase::Node => SearchStep::Check(s.probes[s.pos].1),
            ProbePhase::AwaitDeps => SearchStep::Dependencies(s.probes[s.pos].0),
            ProbePhase::Deps(d, k) => SearchStep::Check(d[k]),
        }
    }
}

/// On to the next probe, with `found` as the stale nodes found.
pub open spec fn next_probe(s: SearchView, found: Seq<(usize, usize, i64)>) -> SearchView {
    SearchView { probes: s.probes, pos: s.pos + 1, phase: ProbePhase::Node, found }
}

/// Being told whether the node asked for is stale (its time if so): a
/// stale node of a handle is recorded and the handle is done; a fresh one
/// leads to asking for the nodes beside it, each recorded when stale.
pub open spec fn search_record(s: SearchView, stale: Option<i64>) -> SearchView {
    let p = s.probes[s.pos];
    match s.phase {
        ProbePhase::Node => match stale {
            Some(t) => next_probe(s, s.found.push((p.0, p.1, t))),
            None => SearchView { probes: s.probes, pos: s.pos, phase: ProbePhase::AwaitDeps, found: s.found },
        },
        ProbePhase::Deps(d, k) => {
            let found = match stale {
                Some(t) => s.found.push((p.0, d[k], t)),
                None => s.found,
            };
            if k + 1 < d.len() {
                SearchView { probes: s.probes, pos: s.pos, phase: ProbePhase::Deps(d, k + 1), found }
            } else {
                next_probe(s, found)
            }
        },
        ProbePhase::AwaitDeps => s,
    }
}

/// Being told the nodes beside a fresh handle's node: none ends the probe;
/// otherwise they are checked in turn.
pub open spec fn search_deps(s: SearchView, deps: Seq<usize>) -> SearchView {
    if deps.len() == 0 {
        next_probe(s, s.found)
    } else {
        SearchView { probes: s.probes, pos: s.pos, phase: ProbePhase::Deps(deps, 0), found: s.found }
    }
}

/// The search's invariant.
pub open spec fn search_inv(s: SearchView) -> bool {
    &&& 0 <= s.pos <= s.probes.len()
    &&& !(s.phase is Node) ==> s.pos < s.probes.len()
    &&& s.phase matches ProbePhase::Deps(d, k) ==> 0 <= k < d.len()
}

/// What the search does within a probe.
enum Phase {
    Node,
    AwaitDeps,
    Deps(Vec<usize>, usize),
}

/// The search for stale nodes, told by its caller each node's staleness
/// and the nodes beside each fresh handle's node.
pub struct StaleSearch {
    probes: Vec<StaleProbe>,
    pos: usize,
    phase: Phase,
    found: Vec<StaleNodeInfo>,
}

/// The abstract form of a found stale node.
pub open spec fn info_views(v: Seq<StaleNodeInfo>) -> Seq<(usize, usize, i64)> {
    v.map_values(|x: StaleNodeInfo| (x.attrname_idx, x.node_idx, x.mtime@))
}

spec fn phase_view(p: Phase) -> ProbePhase {
    match p {
        Phase::Node => ProbePhase::Node,
        Phase::AwaitDeps => ProbePhase::AwaitDeps,
        Phase::Deps(d, k) => ProbePhase::Deps(d@, k as int),
    }
}

impl View for StaleSearch {
    type V = SearchView;

    closed spec fn view(&self) -> SearchView {
        SearchView {
            probes: probe_views(self.probes@),
            pos: self.pos as int,
            phase: phase_view(self.phase),
            found: info_views(self.found@),
        }
    }
}

/// Each answer moves the search on: to a later probe, or further within
/// the same probe (from its node to the nodes beside it, and from one of
/// those to the next); so a search ends after finitely many answers.
pub proof fn lemma_search_progress(s: SearchView, stale: Option<i64>, deps: Seq<usize>)
    requires
        search_inv(s),
    ensures
        search_next(s) is Check ==> ({
            let t = search_record(s, stale);
            &&& search_inv(t)
            &&& t.probes == s.probes
            &&& t.pos > s.pos || (t.pos == s.pos && (s.phase is Node ==> t.phase is AwaitDeps) && (
            s.phase matches ProbePhase::Deps(d, k) ==> t.phase matches ProbePhase::Deps(d2, k2)
                && d2 == d && k2 > k))
        }),
        search_next(s) is Dependencies ==> ({
            let t = search_deps(s, deps);
            &&& search_inv(t)
            &&& t.probes == s.probes
            &&& t.pos > s.pos || (t.pos == s.pos && t.phase is Deps)
        }),
{
}

/// The search after answering, in order, whether each node it asks for is
/// stale.
pub open spec fn answer_all(s: SearchView, answers: Seq<Option<i64>>) -> SearchView
    decreases answers.len(),
{
    if answers.len() == 0 {
        s
    } else {
        answer_all(search_record(s, answers[0]), answers.skip(1))
    }
}

/// Every node beside a fresh handle's node is checked: answering for the
/// nodes still to check, from the `k`-th on (the `i`-th answer is for
/// `d[k + i]`), keeps the search on that handle until the last one, then
/// moves to the next handle; every node answered stale is found, with its
/// time, and nothing else is.
pub proof fn lemma_every_dependency_checked(
    s: SearchView,
    d: Seq<usize>,
    k: int,
    answers: Seq<Option<i64>>,
)
    requires
        search_inv(s),
        s.pos < s.probes.len(),
        s.phase == ProbePhase::Deps(d, k),
        answers.len() == d.len() - k,
    ensures
        ({
            let t = answer_all(s, answers);
            let ai = s.probes[s.pos].0;
            &&& t.probes == s.probes
            &&& t.pos == s.pos + 1
            &&& t.phase is Node
            &&& s.found.is_prefix_of(t.found)
            &&& forall|i: int|
                0 <= i < answers.len() ==> (#[trigger] answers[i] matches Some(x) ==> t.found.contains(
                    (ai, d[k + i], x),
                ))
            &&& forall|m: int|
                s.found.len() <= m < t.found.len() ==> exists|i: int|
                    0 <= i < answers.len() && #[trigger] answers[i] == Some((#[trigger] t.found[m]).2)
                        && t.found[m] == (ai, d[k + i], t.found[m].2)
        }),
    decreases answers.len(),
{
    let ai = s.probes[s.pos].0;
    let s1 = search_record(s, answers[0]);
    let rest = answers.skip(1);
    let t = answer_all(s, answers);
    assert(t == answer_all(s1, rest));
    if k + 1 < d.len() {
        assert(s1.phase == ProbePhase::Deps(d, k + 1));
        assert(s1.pos == s.pos);
        lemma_every_dependency_checked(s1, d, k + 1, rest);
        assert(s.found.is_prefix_of(s1.found));
        assert forall|i: int|
            0 <= i < answers.len() implies (#[trigger] answers[i] matches Some(x) ==> t.found.contains(
            (ai, d[k + i], x),
        )) by {
            if i == 0 {
                if let Some(x) = answers[0] {
                    assert(s1.found[s.found.len() as int] == (ai, d[k], x));
                    assert(t.found[s.found.len() as int] == s1.found[s.found.len() as int]);
                }
            } else {
                assert(rest[i - 1] == answers[i]);
                assert(k + 1 + (i - 1) == k + i);
            }
        }
        assert forall|m: int| s.found.len() <= m < t.found.len() implies exists|i: int|
            0 <= i < answers.len() && #[trigger] answers[i] == Some((#[trigger] t.found[m]).2)
                && t.found[m] == (ai, d[k + i], t.found[m].2) by {
            if m < s1.found.len() {
                assert(t.found[m] == s1.found[m]);
                assert(answers[0] == Some(t.found[m].2));
            } else {
                let i = choose|i: int|
                    0 <= i < rest.len() && #[trigger] rest[i] == Some((#[trigger] t.found[m]).2)
                        && t.found[m] == (ai, d[k + 1 + i], t.found[m].2);
                assert(answers[i + 1] == rest[i]);
                assert(k + (i + 1) == k + 1 + i);
            }
        }
    } else {
        assert(rest.len() == 0);
        assert(t == s1);
        if let Some(x) = answers[0] {
            assert(t.found[s.found.len() as int] == (ai, d[k], x));
        }
        assert(s.found.is_prefix_of(t.found));
    }
}

/// Each handle's own node is checked first: a stale one is found, with its
/// time, and the search goes on to the next handle; a fresh one makes the
/// search ask for the nodes beside it, which are then checked from the
/// first (none left means the next handle).
pub proof fn lemma_handle_node_first(s: SearchView, stale: Option<i64>, deps: Seq<usize>)
    requires
        search_inv(s),
        s.pos < s.probes.len(),
        s.phase is Node,
    ensures
        search_next(s) == SearchStep::Check(s.probes[s.pos].1),
        stale matches Some(t) ==> search_record(s, stale).found == s.found.push(
            (s.probes[s.pos].0, s.probes[s.pos].1, t),
        ) && search_record(s, stale).pos == s.pos + 1 && search_record(s, stale).phase is Node,
        stale is None ==> search_record(s, stale).found == s.found && search_next(
            search_record(s, stale),
        ) == SearchStep::Dependencies(s.probes[s.pos].0),
        stale is None && deps.len() > 0 ==> search_next(search_deps(search_record(s, stale), deps))
            == SearchStep::Check(deps[0]),
        stale is None && deps.len() == 0 ==> search_deps(search_record(s, stale), deps).pos == s.pos
            + 1 && search_deps(search_record(s, stale), deps).found == s.found,
{
}

impl StaleSearch {
    /// A search through these probes, nothing found yet.
    pub fn new(probes: Vec<StaleProbe>) -> (r: StaleSearch)
        ensures
            r@ == (SearchView {
                probes: probe_views(probes@),
                pos: 0,
                phase: ProbePhase::Node,
                found: seq![],
            }),
            search_inv(r@),
    {
        let r = StaleSearch { probes, pos: 0, phase: Phase::Node, found: Vec::new() };
        proof {
            assert(info_views(r.found@) =~= Seq::<(usize, usize, i64)>::empty());
        }
        r
    }

    /// What the search needs next (see `search_next`).
    pub fn next(&self) -> (r: SearchStep)
        requires
            search_inv(self@),
        ensures
            r == search_next(self@),
    {
        if self.pos >= self.probes.len() {
            return SearchStep::Done;
        }
        proof {
            assert(self@.probes[self.pos as int] == self.probes@[self.pos as int]@);
        }
        match &self.phase {
            Phase::Node => SearchStep::Check(self.probes[self.pos].node_idx),
            Phase::AwaitDeps => SearchStep::Dependencies(self.probes[self.pos].attrname_idx),
            Phase::Deps(d, k) => SearchStep::Check(d[*k]),
        }
    }

    /// Takes the staleness of the node asked for (see `search_record`).
    pub fn record(&mut self, stale: Option<UnixSeconds>)
        requires
            search_inv(old(self)@),
            search_next(old(self)@) is Check,
        ensures
            final(self)@ == search_record(
                old(self)@,
                match stale {
                    Some(t) => Some(t@),
                    None => None,
                },
            ),
            search_inv(final(self)@),
    {
        let ghost s0 = self@;
        let ghost st = match stale {
            Some(t) => Some(t@),
            None => None,
        };
        proof {
            lemma_search_progress(s0, st, seq![]);
            assert(s0.probes.len() == self.probes@.len());
            assert(self.pos < self.probes@.len());
            assert(s0.probes[self.pos as int] == self.probes@[self.pos as int]@);
        }
        let plen = self.probes.len();
        assert(self.pos < plen);
        let next_pos = self.pos + 1;
        let ghost f0 = self.found@;
        let ai = self.probes[self.pos].attrname_idx;
        let mut phase = Phase::Node;
        std::mem::swap(&mut phase, &mut self.phase);
        proof {
            assert(phase_view(phase) == s0.phase);
        }
        match phase {
            Phase::Node => {
                let node = self.probes[self.pos].node_idx;
                match stale {
                    Some(t) => {
                        self.found.push(StaleNodeInfo { attrname_idx: ai, node_idx: node, mtime: t });
                        proof {
                            assert(info_views(self.found@) =~= info_views(f0).push((ai, node, t@)));
                        }
                        self.pos = next_pos;
                    },
                    None => {
                        self.phase = Phase::AwaitDeps;
                    },
                }
            },
            Phase::Deps(d, k) => {
                let node = d[k];
                match stale {
                    Some(t) => {
                        self.found.push(StaleNodeInfo { attrname_idx: ai, node_idx: node, mtime: t });
                        proof {
                            assert(info_views(self.found@) =~= info_views(f0).push((ai, node, t@)));
                        }
                    },
                    None => {},
                }
                let dl = d.len();
                assert(k < dl);
                if k + 1 < dl {
                    self.phase = Phase::Deps(d, k + 1);
                } else {
                    self.pos = next_pos;
                }
            },
            Phase::AwaitDeps => {
                self.phase = Phase::AwaitDeps;
            },
        }
        proof {
            assert(self@ =~= search_record(s0, st));
        }
    }

    /// Takes the nodes beside the fresh handle's node asked for (see
    /// `search_deps`).
    pub fn record_dependencies(&mut self, deps: Vec<usize>)
        requires
            search_inv(old(self)@),
            search_next(old(self)@) is Dependencies,
        ensures
            final(self)@ == search_deps(old(self)@, deps@),
            search_inv(final(self)@),
    {
        let ghost s0 = self@;
        proof {
            lemma_search_progress(s0, None, deps@);
            assert(s0.probes.len() == self.probes@.len());
        }
        let plen = self.probes.len();
        assert(self.pos < plen);
        if deps.len() == 0 {
            self.pos = self.pos + 1;
            self.phase = Phase::Node;
        } else {
            self.phase = Phase::Deps(deps, 0);
        }
        proof {
            assert(self@ =~= search_deps(s0, deps@));
        }
    }

    /// The stale nodes found, in the order they were found.
    pub fn finish(self) -> (r: Vec<StaleNodeInfo>)
        ensures
            info_views(r@) == self@.found,
    {
        self.found
    }
}

/// The options of `plumbing cache`.
#[derive(Debug, Clone)]
pub struct Options {
    /// The handles to cache.
    pub derivations: Vec<String>,
    /// Another configuration file.
    pub config: Option<String>,
}

/// `~/.cache/mrx/main.db`
pub open spec fn default_database_path() -> Seq<char> {
    seq!['~', '/', '.', 'c', 'a', 'c', 'h', 'e', '/', 'm', 'r', 'x', '/', 'm', 'a', 'i', 'n', '.', 'd', 'b']
}

/// The database file: the one that `MRX_DATABASE_PATH` names when it is set
/// (`Some`), the default otherwise; a value that is not Unicode (`Err`) is
/// refused.
pub fn database_path(var: Option<Result<String, ()>>) -> (r: Result<String, ConnectError>)
    ensures
        match var {
            None => r matches Ok(p) && p@ == default_database_path(),
            Some(Ok(v)) => r matches Ok(p) && p@ == v@,
            Some(Err(())) => r matches Err(ConnectError::Environment),
        },
{
    match var {
        None => {
            let d: &str = "~/.cache/mrx/main.db";
            proof {
                reveal_strlit("~/.cache/mrx/main.db");
                assert(d@ =~= default_database_path());
            }
            Ok(d.to_owned())
        },
        Some(Ok(v)) => Ok(v),
        Some(Err(())) => Err(ConnectError::Environment),
    }
}

/// The directory to create for the database: the file's directory when the
/// path has an extension and a directory, the path itself otherwise.
pub fn database_dir(path: &str) -> (r: String)
    ensures
        r@ == (match (crate::path::extension_of(path@), crate::path::parent_of(path@)) {
            (Some(_), Some(d)) => d,
            _ => path@,
        }),
{
    let c = chars_of(path);
    match crate::path::extension_exec(c.as_slice()) {
        Some(_) => match crate::path::parent_exec(c.as_slice()) {
            Some(d) => string_from_chars(d.as_slice()),
            None => string_from_chars(c.as_slice()),
        },
        None => string_from_chars(c.as_slice()),
    }
}

/// Where a node's time is recorded: under its handle (with its path) when
/// it defines one, under its path otherwise.
#[derive(Debug)]
pub enum MtimeTarget {
    Alias(Attrname, AbsolutePathBuf),
    Node(AbsolutePathBuf),
}

/// Where the node's time is recorded (see `MtimeTarget`).
pub fn mtime_target(node: &GraphNode) -> (r: MtimeTarget)
    ensures
        match (node@.1, r) {
            (Some(a), MtimeTarget::Alias(x, p)) => x@ == a && p@ == node@.0,
            (None, MtimeTarget::Node(p)) => p@ == node@.0,
            _ => false,
        },
{
    match &node.derivation {
        Some(a) => MtimeTarget::Alias(a.duplicate(), node.path.duplicate()),
        None => MtimeTarget::Node(node.path.duplicate()),
    }
}

/// The executable that a store path stands for stands for itself: taking
/// it twice gives what taking it once gives.
pub proof fn lemma_mrx_exe_idempotent(v: StorePathView)
    requires
        mrx_exe_of(v) is Some,
    ensures
        mrx_exe_of(mrx_exe_of(v).unwrap()) == mrx_exe_of(v),
{
}

/// A time made from any number of seconds is never negative, and keeps the
/// number when it is not.
pub proof fn lemma_seconds_of(value: i64)
    ensures
        seconds_of(value) >= 0,
        value >= 0 ==> seconds_of(value) == value,
{
}

} // verus!
