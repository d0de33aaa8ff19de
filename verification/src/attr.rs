//! Derivation handles (`_.name`), the files that define them, and the set of
//! handles found in a project.

use vstd::prelude::*;

use crate::assoc::{distinct_keys, has_key, lemma_map_of_distinct, lemma_update_is_insert, map_of_pairs};
use crate::path::{char_views, components, components_exec};
use crate::text::{
    chars_of, contains, contains_seq, is_prefix, join_chars, occurs_at, join_seqs, replace_all, replace_chars,
    starts_with, string_from_chars,
};

verus! {

/// A derivation handle, such as `_.foo.bar`.
#[derive(Debug, Clone, PartialEq, Eq, Hash, PartialOrd, Ord)]
pub struct Attrname(pub String);

impl View for Attrname {
    type V = Seq<char>;

    open spec fn view(&self) -> Seq<char> {
        self.0@
    }
}

/// Why a value is not a derivation handle.
#[derive(Debug, Clone)]
pub enum AttrnameError {
    /// The name does not start with `_.`.
    Name(String),
    /// The path does not start with `./`.
    Path(String),
}

/// `_.`
pub open spec fn handle_prefix() -> Seq<char> {
    seq!['_', '.']
}

/// `_.mrx`
pub open spec fn internal_prefix() -> Seq<char> {
    seq!['_', '.', 'm', 'r', 'x']
}

/// `main.nix`
pub open spec fn main_nix() -> Seq<char> {
    seq!['m', 'a', 'i', 'n', '.', 'n', 'i', 'x']
}

/// The components that name a handle: those after the first, up to (not
/// including) the first `main.nix`.
pub open spec fn name_components(c: Seq<Seq<char>>) -> Seq<Seq<char>>
    decreases c.len(),
{
    if c.len() == 0 || c[0] == main_nix() {
        seq![]
    } else {
        seq![c[0]] + name_components(c.skip(1))
    }
}

/// `scripts.bin.` and friends, with what each becomes.
pub open spec fn scripts_bin() -> Seq<char> {
    seq!['s', 'c', 'r', 'i', 'p', 't', 's', '.', 'b', 'i', 'n', '.']
}

pub open spec fn scripts_lib() -> Seq<char> {
    seq!['s', 'c', 'r', 'i', 'p', 't', 's', '.', 'l', 'i', 'b', '.']
}

pub open spec fn scripts_util() -> Seq<char> {
    seq!['s', 'c', 'r', 'i', 'p', 't', 's', '.', 'u', 't', 'i', 'l', '.']
}

pub open spec fn lib_dot() -> Seq<char> {
    seq!['l', 'i', 'b', '.']
}

pub open spec fn util_dot() -> Seq<char> {
    seq!['u', 't', 'i', 'l', '.']
}

/// A path names a handle when its first component is `.`.
pub open spec fn is_dot_relative(p: Seq<char>) -> bool {
    components(p).len() > 0 && components(p)[0] == seq!['.']
}

/// The handle that a `./`-relative path defines: its components after `.`,
/// up to `main.nix`, joined by `.`, with `scripts.bin.` dropped,
/// `scripts.lib.` shortened to `lib.` and `scripts.util.` to `util.`, after
/// `_.`.
pub open spec fn handle_of_path(p: Seq<char>) -> Seq<char> {
    let joined = join_seqs(name_components(components(p).skip(1)), seq!['.']);
    let a = replace_all(joined, scripts_bin(), seq![]);
    let b = replace_all(a, scripts_lib(), lib_dot());
    let c = replace_all(b, scripts_util(), util_dot());
    handle_prefix() + c
}

/// Every handle that a path defines is a handle: it starts with `_.`.
pub proof fn lemma_path_handle_is_handle(p: Seq<char>)
    ensures
        is_prefix(handle_prefix(), handle_of_path(p)),
{
    let h = handle_of_path(p);
    assert(h.take(2) =~= handle_prefix());
}

/// Whether a component is `main.nix`.
fn is_main_nix(c: &[char]) -> (r: bool)
    ensures
        r == (c@ == main_nix()),
{
    let main: [char; 8] = ['m', 'a', 'i', 'n', '.', 'n', 'i', 'x'];
    proof {
        assert(main@ =~= main_nix());
    }
    let r = c.len() == 8 && crate::text::starts_with(c, main.as_slice());
    proof {
        if r {
            assert(c@ =~= c@.take(8));
        }
        if c@ == main_nix() {
            assert(c@.take(8) =~= c@);
        }
    }
    r
}

impl Attrname {
    /// A handle from a name: accepted exactly when it starts with `_.`.
    pub fn try_from_string(value: String) -> (r: Result<Attrname, AttrnameError>)
        ensures
            match r {
                Ok(a) => is_prefix(handle_prefix(), value@) && a@ == value@,
                Err(e) => !is_prefix(handle_prefix(), value@) && (e matches AttrnameError::Name(v)
                    && v@ == value@),
            },
    {
        let chars = chars_of(value.as_str());
        let prefix: [char; 2] = ['_', '.'];
        proof {
            assert(prefix@ =~= handle_prefix());
        }
        if starts_with(chars.as_slice(), prefix.as_slice()) {
            Ok(Attrname(value))
        } else {
            Err(AttrnameError::Name(value))
        }
    }

    /// A handle from a name given as `&str`.
    pub fn try_from_str(value: &str) -> (r: Result<Attrname, AttrnameError>)
        ensures
            match r {
                Ok(a) => is_prefix(handle_prefix(), value@) && a@ == value@,
                Err(e) => !is_prefix(handle_prefix(), value@) && (e matches AttrnameError::Name(v)
                    && v@ == value@),
            },
    {
        let chars = chars_of(value);
        Self::try_from_string(string_from_chars(chars.as_slice()))
    }

    /// The handle defined by a path relative to the project root: the path
    /// must start with `./`, and the handle is `handle_of_path` of it.
    pub fn try_from_path(path: &str) -> (r: Result<Attrname, AttrnameError>)
        ensures
            match r {
                Ok(a) => is_dot_relative(path@) && a@ == handle_of_path(path@),
                Err(e) => !is_dot_relative(path@) && (e matches AttrnameError::Path(p) && p@
                    == path@),
            },
    {
        let chars = chars_of(path);
        let comps = components_exec(chars.as_slice());
        let ghost cv = components(path@);
        let dot_first = comps.len() > 0 && comps[0].len() == 1 && comps[0][0] == '.';
        proof {
            if cv.len() > 0 && cv[0] == seq!['.'] {
                assert(comps@[0]@.len() == 1);
            }
            if dot_first {
                assert(comps@[0]@ =~= seq!['.']);
            }
        }
        if !dot_first {
            return Err(AttrnameError::Path(string_from_chars(chars.as_slice())));
        }
        let mut parts: Vec<Vec<char>> = Vec::new();
        let mut i: usize = 1;
        proof {
            assert(cv.skip(1).skip(0) =~= cv.skip(1));
            assert(char_views(parts@) + name_components(cv.skip(1)) =~= name_components(
                cv.skip(1),
            ));
        }
        while i < comps.len() && !is_main_nix(comps[i].as_slice())
            invariant
                1 <= i <= comps.len(),
                cv == components(path@),
                char_views(comps@) == cv,
                char_views(parts@) + name_components(cv.skip(i as int)) == name_components(
                    cv.skip(1),
                ),
            decreases comps.len() - i,
        {
            let ghost rest = cv.skip(i as int);
            proof {
                assert(rest[0] == comps@[i as int]@);
            }
            let ghost before = char_views(parts@);
            parts.push(crate::text::copy_chars(comps[i].as_slice()));
            proof {
                assert(rest.skip(1) =~= cv.skip(i + 1));
                assert(char_views(parts@) =~= before.push(rest[0]));
                assert(char_views(parts@) + name_components(cv.skip(i + 1)) =~= before
                    + name_components(rest));
            }
            i = i + 1;
        }
        proof {
            if i == comps.len() {
                assert(cv.skip(i as int) =~= Seq::<Seq<char>>::empty());
            } else {
                assert(cv.skip(i as int)[0] == comps@[i as int]@);
            }
            assert(char_views(parts@) =~= char_views(parts@) + name_components(cv.skip(i as int)));
        }
        let dot: [char; 1] = ['.'];
        let joined = join_chars(&parts, dot.as_slice());
        proof {
            assert(dot@ =~= seq!['.']);
            assert(parts@.map_values(|p: Vec<char>| p@) == char_views(parts@));
        }
        let from_bin: [char; 12] = ['s', 'c', 'r', 'i', 'p', 't', 's', '.', 'b', 'i', 'n', '.'];
        let from_lib: [char; 12] = ['s', 'c', 'r', 'i', 'p', 't', 's', '.', 'l', 'i', 'b', '.'];
        let from_util: [char; 13] = [
            's',
            'c',
            'r',
            'i',
            'p',
            't',
            's',
            '.',
            'u',
            't',
            'i',
            'l',
            '.',
        ];
        let to_bin: [char; 0] = [];
        let to_lib: [char; 4] = ['l', 'i', 'b', '.'];
        let to_util: [char; 5] = ['u', 't', 'i', 'l', '.'];
        proof {
            assert(from_bin@ =~= scripts_bin());
            assert(from_lib@ =~= scripts_lib());
            assert(from_util@ =~= scripts_util());
            assert(to_bin@ =~= Seq::<char>::empty());
            assert(to_lib@ =~= lib_dot());
            assert(to_util@ =~= util_dot());
        }
        let a = replace_chars(joined.as_slice(), from_bin.as_slice(), to_bin.as_slice());
        let b = replace_chars(a.as_slice(), from_lib.as_slice(), to_lib.as_slice());
        let c = replace_chars(b.as_slice(), from_util.as_slice(), to_util.as_slice());
        let mut name: Vec<char> = vec!['_', '.'];
        crate::text::push_all(&mut name, c.as_slice());
        proof {
            assert(name@ =~= handle_prefix() + c@);
        }
        Ok(Attrname(string_from_chars(name.as_slice())))
    }

    /// Whether the handle belongs to mrx itself (starts with `_.mrx`).
    pub fn is_internal(&self) -> (r: bool)
        ensures
            r == is_prefix(internal_prefix(), self@),
    {
        let chars = chars_of(self.0.as_str());
        let prefix: [char; 5] = ['_', '.', 'm', 'r', 'x'];
        proof {
            assert(prefix@ =~= internal_prefix());
        }
        starts_with(chars.as_slice(), prefix.as_slice())
    }

    /// The handle's text.
    pub fn as_str(&self) -> (r: &str)
        ensures
            r@ == self@,
    {
        self.0.as_str()
    }

    /// A copy of the handle.
    pub fn duplicate(&self) -> (r: Attrname)
        ensures
            r@ == self@,
    {
        Attrname(self.0.clone())
    }

    /// The handle as a `String` (what `Display` prints).
    pub fn to_text(&self) -> (r: String)
        ensures
            r@ == self@,
    {
        self.0.clone()
    }
}

/// What a project file defines, by where it lies.
#[derive(Debug, Clone, Copy, PartialEq, Eq, Structural)]
pub enum AttrKind {
    Bin,
    Lib,
    Other,
    Pkg,
}

/// `scripts/bin/`, `scripts/lib/` and `pkg/`.
pub open spec fn scripts_bin_dir() -> Seq<char> {
    seq!['s', 'c', 'r', 'i', 'p', 't', 's', '/', 'b', 'i', 'n', '/']
}

pub open spec fn scripts_lib_dir() -> Seq<char> {
    seq!['s', 'c', 'r', 'i', 'p', 't', 's', '/', 'l', 'i', 'b', '/']
}

pub open spec fn pkg_dir() -> Seq<char> {
    seq!['p', 'k', 'g', '/']
}

/// The path holds `parts` right after a `/`, or starts with it.
pub open spec fn has_parts(path: Seq<char>, parts: Seq<char>) -> bool {
    contains_seq(path, seq!['/'] + parts) || is_prefix(parts, path)
}

/// The kind of file a path names.
pub open spec fn kind_of_path(path: Seq<char>) -> AttrKind {
    if has_parts(path, scripts_bin_dir()) {
        AttrKind::Bin
    } else if has_parts(path, scripts_lib_dir()) {
        AttrKind::Lib
    } else if has_parts(path, pkg_dir()) {
        AttrKind::Pkg
    } else {
        AttrKind::Other
    }
}

/// Whether `path` holds `parts` right after a `/`, or starts with it.
pub fn has_path_parts(path: &[char], parts: &[char]) -> (r: bool)
    ensures
        r == has_parts(path@, parts@),
{
    let mut slashed: Vec<char> = vec!['/'];
    crate::text::push_all(&mut slashed, parts);
    proof {
        assert(slashed@ =~= seq!['/'] + parts@);
    }
    contains(path, slashed.as_slice()) || starts_with(path, parts)
}

/// A project file that defines a handle.
#[derive(Debug)]
pub struct PathAttr {
    path: String,
    kind: AttrKind,
}

/// A file's path and kind.
pub type PathAttrView = (Seq<char>, AttrKind);

impl View for PathAttr {
    type V = PathAttrView;

    closed spec fn view(&self) -> PathAttrView {
        (self.path@, self.kind)
    }
}

/// The view of the file at `path`.
pub open spec fn path_attr_of(path: Seq<char>) -> PathAttrView {
    (path, kind_of_path(path))
}

impl PathAttr {
    /// The file at `path`, with its kind.
    pub fn new(path: &str) -> (r: PathAttr)
        ensures
            r@ == path_attr_of(path@),
    {
        let chars = chars_of(path);
        let bin: [char; 12] = ['s', 'c', 'r', 'i', 'p', 't', 's', '/', 'b', 'i', 'n', '/'];
        let lib: [char; 12] = ['s', 'c', 'r', 'i', 'p', 't', 's', '/', 'l', 'i', 'b', '/'];
        let pkg: [char; 4] = ['p', 'k', 'g', '/'];
        proof {
            assert(bin@ =~= scripts_bin_dir());
            assert(lib@ =~= scripts_lib_dir());
            assert(pkg@ =~= pkg_dir());
        }
        let kind = if has_path_parts(chars.as_slice(), bin.as_slice()) {
            AttrKind::Bin
        } else if has_path_parts(chars.as_slice(), lib.as_slice()) {
            AttrKind::Lib
        } else if has_path_parts(chars.as_slice(), pkg.as_slice()) {
            AttrKind::Pkg
        } else {
            AttrKind::Other
        };
        PathAttr { path: string_from_chars(chars.as_slice()), kind }
    }

    /// The file's path.
    pub fn as_path(&self) -> (r: &str)
        ensures
            r@ == self@.0,
    {
        self.path.as_str()
    }

    /// Whether the file defines an executable (lies under `scripts/bin/`).
    pub fn is_bin(&self) -> (r: bool)
        ensures
            r == (self@.1 == AttrKind::Bin),
    {
        matches!(self.kind, AttrKind::Bin)
    }

    /// The file's kind.
    pub fn kind(&self) -> (r: AttrKind)
        ensures
            r == self@.1,
    {
        self.kind
    }
}


/// Why a set of handles could not be built.
#[derive(Debug, Clone)]
pub enum PathAttrsetError {
    Attrname(AttrnameError),
}

/// The handle and file view of each entry.
pub open spec fn entry_views(e: Seq<(Attrname, PathAttr)>) -> Seq<(Seq<char>, PathAttrView)> {
    e.map_values(|x: (Attrname, PathAttr)| (x.0@, x.1@))
}

/// The set of handles that `add`ing each path in turn to an empty set gives.
pub open spec fn attrset_of_paths(paths: Seq<Seq<char>>) -> Map<Seq<char>, PathAttrView>
    decreases paths.len(),
{
    if paths.len() == 0 {
        Map::empty()
    } else {
        let p = paths.last();
        attrset_of_paths(paths.drop_last()).insert(handle_of_path(p), path_attr_of(p))
    }
}

/// The handles of a project, each with the file that defines it.
#[derive(Debug)]
pub struct PathAttrset {
    entries: Vec<(Attrname, PathAttr)>,
}

impl View for PathAttrset {
    type V = Map<Seq<char>, PathAttrView>;

    closed spec fn view(&self) -> Map<Seq<char>, PathAttrView> {
        map_of_pairs(entry_views(self.entries@))
    }
}

impl PathAttrset {
    #[verifier::type_invariant]
    spec fn inv(&self) -> bool {
        distinct_keys(entry_views(self.entries@))
    }

    /// An empty set.
    pub fn empty() -> (r: PathAttrset)
        ensures
            r@ == Map::<Seq<char>, PathAttrView>::empty(),
    {
        let r = PathAttrset { entries: Vec::new() };
        proof {
            assert(entry_views(r.entries@) =~= Seq::<(Seq<char>, PathAttrView)>::empty());
        }
        r
    }

    /// The handles, in the order `entry` gives them.
    pub closed spec fn keys(&self) -> Seq<Seq<char>> {
        entry_views(self.entries@).map_values(|x: (Seq<char>, PathAttrView)| x.0)
    }

    /// The number of handles; `keys` lists each handle once.
    pub fn len(&self) -> (n: usize)
        ensures
            n == self@.dom().len(),
            n == self.keys().len(),
            self.keys().no_duplicates(),
            forall|k: Seq<char>| #[trigger] self@.contains_key(k) <==> self.keys().contains(k),
    {
        proof {
            use_type_invariant(self);
            let e = entry_views(self.entries@);
            lemma_map_of_distinct(e);
            let ks = self.keys();
            assert forall|i: int, j: int| 0 <= i < ks.len() && 0 <= j < ks.len() && i != j implies ks[i]
                != ks[j] by {
                if i < j {
                    assert(e[i].0 != e[j].0);
                } else {
                    assert(e[j].0 != e[i].0);
                }
            }
            assert forall|k: Seq<char>| #[trigger] self@.contains_key(k) <==> ks.contains(k) by {
                if self@.contains_key(k) {
                    let i = choose|i: int| 0 <= i < e.len() && #[trigger] e[i].0 == k;
                    assert(ks[i] == k);
                }
                if ks.contains(k) {
                    let i = choose|i: int| 0 <= i < ks.len() && ks[i] == k;
                    assert(e[i].0 == k);
                    assert(has_key(e, k));
                }
            }
        }
        self.entries.len()
    }

    /// The index of the entry for `name`, if any.
    fn find_entry(&self, name: &str) -> (r: Option<usize>)
        ensures
            match r {
                Some(i) => i < self.entries@.len() && self.entries@[i as int].0@ == name@,
                None => forall|k: int|
                    0 <= k < self.entries@.len() ==> #[trigger] self.entries@[k].0@ != name@,
            },
    {
        let mut i: usize = 0;
        while i < self.entries.len()
            invariant
                i <= self.entries.len(),
                forall|k: int| 0 <= k < i ==> #[trigger] self.entries@[k].0@ != name@,
            decreases self.entries.len() - i,
        {
            if crate::text::str_eq(self.entries[i].0.as_str(), name) {
                return Some(i);
            }
            i = i + 1;
        }
        None
    }

    /// The file that defines `name`, if any.
    pub fn get(&self, name: &str) -> (r: Option<&PathAttr>)
        ensures
            match r {
                Some(a) => self@.contains_key(name@) && self@[name@] == a@,
                None => !self@.contains_key(name@),
            },
    {
        proof {
            use_type_invariant(self);
            lemma_map_of_distinct(entry_views(self.entries@));
        }
        let ghost e = entry_views(self.entries@);
        match self.find_entry(name) {
            Some(i) => {
                proof {
                    assert(e[i as int] == (self.entries@[i as int].0@, self.entries@[i as int].1@));
                    assert(map_of_pairs(e).contains_key(e[i as int].0));
                }
                Some(&self.entries[i].1)
            },
            None => {
                proof {
                    if self@.contains_key(name@) {
                        let k = choose|k: int| 0 <= k < e.len() && e[k].0 == name@;
                        assert(self.entries@[k].0@ == e[k].0);
                    }
                }
                None
            },
        }
    }

    /// The handle and file of entry `i`: the `i`-th of `keys`, which come
    /// in no particular order.
    pub fn entry(&self, i: usize) -> (r: (&Attrname, &PathAttr))
        requires
            i < self@.dom().len(),
        ensures
            r.0@ == self.keys()[i as int],
            self@.contains_key(r.0@),
            self@[r.0@] == r.1@,
    {
        proof {
            use_type_invariant(self);
            let e = entry_views(self.entries@);
            lemma_map_of_distinct(e);
            assert(e[i as int].0 == self.entries@[i as int].0@);
        }
        (&self.entries[i].0, &self.entries[i].1)
    }

    /// Adds the file at `path` under the handle it defines, replacing any
    /// file that defined the same handle; fails, leaving the set as it was,
    /// when the path does not start with `./`.
    pub fn add(&mut self, path: &str) -> (r: Result<(), PathAttrsetError>)
        ensures
            match r {
                Ok(()) => is_dot_relative(path@) && final(self)@ == old(self)@.insert(
                    handle_of_path(path@),
                    path_attr_of(path@),
                ),
                Err(e) => !is_dot_relative(path@) && final(self)@ == old(self)@ && (e matches PathAttrsetError::Attrname(
                    AttrnameError::Path(p),
                ) && p@ == path@),
            },
    {
        proof {
            use_type_invariant(&*self);
        }
        let name = match Attrname::try_from_path(path) {
            Ok(name) => name,
            Err(e) => {
                return Err(PathAttrsetError::Attrname(e));
            },
        };
        let attr = PathAttr::new(path);
        let ghost old_e = entry_views(self.entries@);
        let ghost old_entries = self.entries@;
        let found = self.find_entry(name.as_str());
        let ghost kv = (name@, attr@);
        if let Some(i) = found {
            let mut entries: Vec<(Attrname, PathAttr)> = Vec::new();
            std::mem::swap(&mut entries, &mut self.entries);
            entries.set(i, (name, attr));
            let ghost new_e = entry_views(entries@);
            proof {
                assert(old_e[i as int].0 == kv.0);
                assert(new_e =~= old_e.update(i as int, kv));
                assert(distinct_keys(new_e)) by {
                    assert forall|a: int, b: int| 0 <= a < b < new_e.len() implies #[trigger] new_e[a].0
                        != #[trigger] new_e[b].0 by {
                        if a != i && b != i {
                            assert(new_e[a] == old_e[a] && new_e[b] == old_e[b]);
                        } else if a == i {
                            assert(new_e[b] == old_e[b]);
                        } else {
                            assert(new_e[a] == old_e[a]);
                        }
                    }
                }
                lemma_update_is_insert(old_e, i as int, kv);
            }
            self.entries = entries;
        } else {
            let mut entries: Vec<(Attrname, PathAttr)> = Vec::new();
            std::mem::swap(&mut entries, &mut self.entries);
            entries.push((name, attr));
            let ghost new_e = entry_views(entries@);
            proof {
                assert(new_e =~= old_e.push(kv));
                assert(new_e.drop_last() =~= old_e);
                assert(distinct_keys(new_e)) by {
                    assert forall|a: int, b: int| 0 <= a < b < new_e.len() implies #[trigger] new_e[a].0
                        != #[trigger] new_e[b].0 by {
                        if b < old_e.len() {
                            assert(new_e[a] == old_e[a] && new_e[b] == old_e[b]);
                        } else {
                            assert(new_e[a] == old_e[a]);
                            assert(old_e[a].0 == old_entries[a].0@);
                        }
                    }
                }
            }
            self.entries = entries;
        }
        Ok(())
    }

    /// The set of handles defined by `paths`, each path added in turn; fails
    /// with the first path that does not start with `./`.
    pub fn new(paths: &Vec<String>) -> (r: Result<PathAttrset, PathAttrsetError>)
        ensures
            match r {
                Ok(set) => (forall|i: int| 0 <= i < paths@.len() ==> is_dot_relative(
                    #[trigger] paths@[i]@,
                )) && set@ == attrset_of_paths(crate::text::str_views(paths@)),
                Err(e) => exists|i: int|
                    0 <= i < paths@.len() && !is_dot_relative(#[trigger] paths@[i]@) && (forall|
                        k: int,
                    |
                        0 <= k < i ==> is_dot_relative(#[trigger] paths@[k]@)) && (e matches PathAttrsetError::Attrname(
                        AttrnameError::Path(p),
                    ) && p@ == paths@[i]@),
            },
    {
        let ghost views = crate::text::str_views(paths@);
        let mut set = PathAttrset::empty();
        let mut i: usize = 0;
        proof {
            assert(views.take(0) =~= Seq::<Seq<char>>::empty());
        }
        while i < paths.len()
            invariant
                i <= paths.len(),
                views == crate::text::str_views(paths@),
                forall|k: int| 0 <= k < i ==> is_dot_relative(#[trigger] paths@[k]@),
                set@ == attrset_of_paths(views.take(i as int)),
            decreases paths.len() - i,
        {
            match set.add(paths[i].as_str()) {
                Ok(()) => {},
                Err(e) => {
                    return Err(e);
                },
            }
            proof {
                assert(views.take(i + 1).drop_last() =~= views.take(i as int));
                assert(views.take(i + 1).last() == paths@[i as int]@);
            }
            i = i + 1;
        }
        proof {
            assert(views.take(paths.len() as int) =~= views);
        }
        Ok(set)
    }
}

impl PathAttrset {
    /// Each handle with the path of its file, each handle once, in no
    /// particular order.
    pub fn name_path_pairs(&self) -> (r: Vec<(String, String)>)
        ensures
            r@.len() == self@.dom().len(),
            forall|i: int, j: int| 0 <= i < j < r@.len() ==> #[trigger] r@[i].0@ != #[trigger] r@[j].0@,
            forall|i: int|
                0 <= i < r@.len() ==> self@.contains_key(#[trigger] r@[i].0@) && self@[r@[i].0@].0
                    == r@[i].1@,
            forall|k: Seq<char>| #[trigger]
                self@.contains_key(k) ==> exists|i: int| 0 <= i < r@.len() && #[trigger] r@[i].0@ == k,
    {
        proof {
            use_type_invariant(self);
            lemma_map_of_distinct(entry_views(self.entries@));
        }
        let ghost e = entry_views(self.entries@);
        let mut out: Vec<(String, String)> = Vec::new();
        let mut i: usize = 0;
        while i < self.entries.len()
            invariant
                i <= self.entries.len(),
                e == entry_views(self.entries@),
                distinct_keys(e),
                out@.len() == i,
                forall|k: int|
                    0 <= k < i ==> #[trigger] out@[k].0@ == e[k].0 && out@[k].1@ == e[k].1.0,
            decreases self.entries.len() - i,
        {
            let name = self.entries[i].0.to_text();
            let path = chars_of(self.entries[i].1.as_path());
            out.push((name, string_from_chars(path.as_slice())));
            i = i + 1;
        }
        proof {
            assert forall|a: int, b: int| 0 <= a < b < out@.len() implies #[trigger] out@[a].0@
                != #[trigger] out@[b].0@ by {
                assert(e[a].0 != e[b].0);
            }
            assert forall|k: Seq<char>| #[trigger] self@.contains_key(k) implies exists|a: int|
                0 <= a < out@.len() && #[trigger] out@[a].0@ == k by {
                let a = choose|a: int| 0 <= a < e.len() && #[trigger] e[a].0 == k;
                assert(out@[a].0@ == k);
            }
        }
        out
    }
}

/// Whether a file name is `main.nix`, the name of the files that define
/// handles.
pub fn is_main_nix_file(name: &str) -> (r: bool)
    ensures
        r == (name@ == main_nix()),
{
    let c = chars_of(name);
    is_main_nix(c.as_slice())
}

/// The views of a sequence of handles.
pub open spec fn attrname_views(v: Seq<Attrname>) -> Seq<Seq<char>> {
    v.map_values(|a: Attrname| a@)
}

/// The handles of the set whose files lie under `scripts/bin/`, each once,
/// in no particular order.
pub fn find_bin_attrnames(attrset: &PathAttrset) -> (r: Vec<Attrname>)
    ensures
        attrname_views(r@).no_duplicates(),
        forall|k: Seq<char>| #[trigger]
            attrname_views(r@).contains(k) <==> (attrset@.contains_key(k) && attrset@[k].1
                == AttrKind::Bin),
{
    proof {
        use_type_invariant(attrset);
        lemma_map_of_distinct(entry_views(attrset.entries@));
    }
    let ghost e = entry_views(attrset.entries@);
    let mut out: Vec<Attrname> = Vec::new();
    let mut i: usize = 0;
    while i < attrset.entries.len()
        invariant
            i <= attrset.entries.len(),
            e == entry_views(attrset.entries@),
            distinct_keys(e),
            forall|j: int| 0 <= j < e.len() ==> #[trigger] map_of_pairs(e).contains_key(e[j].0)
                && map_of_pairs(e)[e[j].0] == e[j].1,
            attrname_views(out@).no_duplicates(),
            forall|k: Seq<char>| #[trigger]
                attrname_views(out@).contains(k) <==> exists|j: int|
                    0 <= j < i && e[j].0 == k && e[j].1.1 == AttrKind::Bin,
        decreases attrset.entries.len() - i,
    {
        let ghost before = attrname_views(out@);
        if attrset.entries[i].1.is_bin() {
            out.push(attrset.entries[i].0.duplicate());
            proof {
                let after = attrname_views(out@);
                assert(after =~= before.push(e[i as int].0));
                assert forall|a: int, b: int| 0 <= a < b < after.len() implies after[a]
                    != after[b] by {
                    if b == after.len() - 1 {
                        assert(before.contains(before[a]));
                        let j = choose|j: int|
                            0 <= j < i && e[j].0 == before[a] && e[j].1.1 == AttrKind::Bin;
                        assert(e[j].0 != e[i as int].0);
                    }
                }
                assert forall|k: Seq<char>| #[trigger] after.contains(k) <==> exists|j: int|
                    0 <= j < i + 1 && e[j].0 == k && e[j].1.1 == AttrKind::Bin by {
                    if after.contains(k) {
                        let p = choose|p: int| 0 <= p < after.len() && after[p] == k;
                        if p < before.len() {
                            assert(before.contains(k));
                        }
                    }
                    if exists|j: int| 0 <= j < i + 1 && e[j].0 == k && e[j].1.1 == AttrKind::Bin {
                        let j = choose|j: int|
                            0 <= j < i + 1 && e[j].0 == k && e[j].1.1 == AttrKind::Bin;
                        if j < i {
                            assert(before.contains(k));
                            let p = choose|p: int| 0 <= p < before.len() && before[p] == k;
                            assert(after[p] == k);
                        } else {
                            assert(after[after.len() - 1] == k);
                        }
                    }
                }
            }
        } else {
            proof {
                assert forall|k: Seq<char>| #[trigger] before.contains(k) <==> exists|j: int|
                    0 <= j < i + 1 && e[j].0 == k && e[j].1.1 == AttrKind::Bin by {
                    if exists|j: int| 0 <= j < i + 1 && e[j].0 == k && e[j].1.1 == AttrKind::Bin {
                        let j = choose|j: int|
                            0 <= j < i + 1 && e[j].0 == k && e[j].1.1 == AttrKind::Bin;
                        assert(j != i);
                    }
                }
            }
        }
        i = i + 1;
    }
    proof {
        assert forall|k: Seq<char>| #[trigger]
            attrname_views(out@).contains(k) <==> (attrset@.contains_key(k) && attrset@[k].1
                == AttrKind::Bin) by {
            if attrset@.contains_key(k) {
                let j = choose|j: int| 0 <= j < e.len() && e[j].0 == k;
                assert(map_of_pairs(e).contains_key(e[j].0));
            }
            if attrname_views(out@).contains(k) {
                let j = choose|j: int|
                    0 <= j < e.len() && e[j].0 == k && e[j].1.1 == AttrKind::Bin;
                assert(map_of_pairs(e).contains_key(e[j].0));
            }
        }
    }
    out
}

/// `p` is `a/scripts/bin/b`, or `scripts/bin/b`.
pub open spec fn split_at_scripts_bin(p: Seq<char>, a: Seq<char>, b: Seq<char>) -> bool {
    p == a + seq!['/'] + scripts_bin_dir() + b || p == scripts_bin_dir() + b
}

/// A file under a `scripts/bin/` directory is an executable, whatever else
/// its path holds (a `pkg/` directory or a `scripts/lib/` one before or
/// after it): the path `x/scripts/bin/y`, or `scripts/bin/y`, is of kind
/// `Bin`, and a path is of kind `Bin` only when it holds `scripts/bin/`
/// that way.
pub proof fn lemma_scripts_bin_is_bin(x: Seq<char>, y: Seq<char>, p: Seq<char>)
    ensures
        kind_of_path(x + seq!['/'] + scripts_bin_dir() + y) == AttrKind::Bin,
        kind_of_path(scripts_bin_dir() + y) == AttrKind::Bin,
        kind_of_path(p) == AttrKind::Bin ==> exists|a: Seq<char>, b: Seq<char>| #[trigger]
            split_at_scripts_bin(p, a, b),
{
    let part = seq!['/'] + scripts_bin_dir();
    let p1 = x + seq!['/'] + scripts_bin_dir() + y;
    assert(p1.subrange(x.len() as int, x.len() + part.len() as int) =~= part);
    assert(occurs_at(p1, part, x.len() as int));
    let p2 = scripts_bin_dir() + y;
    assert(p2.take(scripts_bin_dir().len() as int) =~= scripts_bin_dir());
    if kind_of_path(p) == AttrKind::Bin {
        if is_prefix(scripts_bin_dir(), p) {
            let b = p.skip(scripts_bin_dir().len() as int);
            assert(p =~= scripts_bin_dir() + b);
            assert(split_at_scripts_bin(p, Seq::<char>::empty(), b));
        } else {
            let i = choose|i: int| occurs_at(p, part, i);
            let a = p.take(i);
            let b = p.skip(i + part.len());
            let mid = p.subrange(i, i + part.len());
            assert(mid == part);
            assert(p =~= a + mid + b);
            assert(a + part + b =~= a + seq!['/'] + scripts_bin_dir() + b);
            assert(split_at_scripts_bin(p, a, b));
        }
    }
}

} // verus!
