//! Absolute paths of files and directories on disk, and paths relative to a
//! parent directory.
//!
//! What only the file system can tell (whether a path exists, is a file, or
//! what its canonical form is) is handed to these functions as plain values.

use vstd::prelude::*;

use crate::path::{
    char_views, components, components_exec, is_absolute_path, is_nix_chars, is_nix_path,
    join_exec, kept_segments, parent_exec, parent_of, push_path, render_onto, render_onto_exec,
    same_components, split_slash,
};
use crate::text::{chars_of, copy_chars, push_all, string_from_chars};

verus! {

/// An absolute path of a file or of a directory.
#[derive(Debug, Clone)]
pub enum AbsolutePathBuf {
    File(String),
    Directory(String),
}

/// Whether the path names a file, and its text.
pub type AbsolutePathView = (bool, Seq<char>);

impl View for AbsolutePathBuf {
    type V = AbsolutePathView;

    open spec fn view(&self) -> AbsolutePathView {
        match self {
            AbsolutePathBuf::File(p) => (true, p@),
            AbsolutePathBuf::Directory(p) => (false, p@),
        }
    }
}

/// Two absolute paths are the same when they are of the same kind and have
/// the same components.
pub open spec fn same_abs_path(a: AbsolutePathView, b: AbsolutePathView) -> bool {
    a.0 == b.0 && components(a.1) == components(b.1)
}

/// Why a path could not be made absolute.
#[derive(Debug, Clone)]
pub enum AbsolutePathBufError {
    NotFound,
    Canonicalizing,
    GettingMetadata,
    Io(String),
}

/// Why a path could not be expressed relative to a parent directory.
#[derive(Debug, Clone)]
pub enum RelativeToParentError {
    InvalidParent(String),
    Io(String, String),
}

/// `path <parent> is not a directory`
pub open spec fn not_a_directory_message(parent: Seq<char>) -> Seq<char> {
    seq!['p', 'a', 't', 'h', ' '] + parent + seq![
        ' ',
        'i',
        's',
        ' ',
        'n',
        'o',
        't',
        ' ',
        'a',
        ' ',
        'd',
        'i',
        'r',
        'e',
        'c',
        't',
        'o',
        'r',
        'y',
    ]
}

/// `path <parent> does not exist`
pub open spec fn does_not_exist_message(parent: Seq<char>) -> Seq<char> {
    seq!['p', 'a', 't', 'h', ' '] + parent + seq![
        ' ',
        'd',
        'o',
        'e',
        's',
        ' ',
        'n',
        'o',
        't',
        ' ',
        'e',
        'x',
        'i',
        's',
        't',
    ]
}

/// `'<parent>' is not a parent of '<path>' `
pub open spec fn not_a_parent_message(parent: Seq<char>, path: Seq<char>) -> Seq<char> {
    seq!['\''] + parent + seq![
        '\'',
        ' ',
        'i',
        's',
        ' ',
        'n',
        'o',
        't',
        ' ',
        'a',
        ' ',
        'p',
        'a',
        'r',
        'e',
        'n',
        't',
        ' ',
        'o',
        'f',
        ' ',
        '\'',
    ] + path + seq!['\'', ' ']
}

/// `<a><x><b>` as a `String`.
fn surround(a: &str, x: &[char], b: &str) -> (r: String)
    ensures
        r@ == a@ + x@ + b@,
{
    let mut out = chars_of(a);
    push_all(&mut out, x);
    let tail = chars_of(b);
    push_all(&mut out, tail.as_slice());
    string_from_chars(out.as_slice())
}

/// The message for a parent that is a file.
pub fn not_a_directory(parent: &str) -> (r: String)
    ensures
        r@ == not_a_directory_message(parent@),
{
    let p = chars_of(parent);
    let r = surround("path ", p.as_slice(), " is not a directory");
    proof {
        reveal_strlit("path ");
        reveal_strlit(" is not a directory");
        assert(r@ =~= not_a_directory_message(parent@));
    }
    r
}

/// The message for a parent that does not exist.
pub fn does_not_exist(parent: &str) -> (r: String)
    ensures
        r@ == does_not_exist_message(parent@),
{
    let p = chars_of(parent);
    let r = surround("path ", p.as_slice(), " does not exist");
    proof {
        reveal_strlit("path ");
        reveal_strlit(" does not exist");
        assert(r@ =~= does_not_exist_message(parent@));
    }
    r
}

/// The message for a directory that is not a parent of the path.
pub fn not_a_parent(parent: &str, path: &str) -> (r: String)
    ensures
        r@ == not_a_parent_message(parent@, path@),
{
    let mut out = chars_of("'");
    let p = chars_of(parent);
    push_all(&mut out, p.as_slice());
    let mid = chars_of("' is not a parent of '");
    push_all(&mut out, mid.as_slice());
    let q = chars_of(path);
    push_all(&mut out, q.as_slice());
    let tail = chars_of("' ");
    push_all(&mut out, tail.as_slice());
    proof {
        reveal_strlit("'");
        reveal_strlit("' is not a parent of '");
        reveal_strlit("' ");
        assert(out@ =~= not_a_parent_message(parent@, path@));
    }
    string_from_chars(out.as_slice())
}

/// The components of `path` after those of `parent`, when `parent`'s
/// components are a proper prefix of `path`'s.
pub open spec fn suffix_after(parent: Seq<char>, path: Seq<char>) -> Option<Seq<Seq<char>>> {
    let p = components(parent);
    let c = components(path);
    if p.len() < c.len() && c.take(p.len() as int) == p {
        Some(c.skip(p.len() as int))
    } else {
        None
    }
}

/// `path` relative to the absolute directory `parent`, written `./<rest>`,
/// when `parent` is a proper ancestor of it.
pub open spec fn relative_path(parent: Seq<char>, path: Seq<char>) -> Option<Seq<char>> {
    match suffix_after(parent, path) {
        Some(rest) => Some(render_onto(seq!['.', '/'], rest)),
        None => None,
    }
}

/// `path` relative to `parent` (see `relative_path`); the error message
/// names both when `parent` is not a proper ancestor.
pub fn relative_to(path: &str, parent: &str) -> (r: Result<String, RelativeToParentError>)
    ensures
        match r {
            Ok(s) => relative_path(parent@, path@) == Some(s@),
            Err(e) => relative_path(parent@, path@) is None && (e matches RelativeToParentError::InvalidParent(
                m,
            ) && m@ == not_a_parent_message(parent@, path@)),
        },
{
    let pc = chars_of(parent);
    let sc = chars_of(path);
    let p = components_exec(pc.as_slice());
    let c = components_exec(sc.as_slice());
    let ghost pv = components(parent@);
    let ghost cv = components(path@);
    if p.len() >= c.len() {
        proof {
            assert(pv.len() >= cv.len());
        }
        return Err(RelativeToParentError::InvalidParent(not_a_parent(parent, path)));
    }
    let mut i: usize = 0;
    while i < p.len()
        invariant
            i <= p.len() < c.len(),
            pv == components(parent@),
            cv == components(path@),
            char_views(p@) == pv,
            char_views(c@) == cv,
            forall|k: int| 0 <= k < i ==> pv[k] == cv[k],
        decreases p.len() - i,
    {
        if !crate::text::chars_eq(p[i].as_slice(), c[i].as_slice()) {
            proof {
                assert(pv[i as int] != cv[i as int]);
                assert(cv.take(pv.len() as int)[i as int] == cv[i as int]);
                assert(cv.take(pv.len() as int)[i as int] != pv[i as int]);
                assert(cv.take(pv.len() as int) != pv);
                assert(suffix_after(parent@, path@) is None);
                assert(relative_path(parent@, path@) is None);
            }
            return Err(RelativeToParentError::InvalidParent(not_a_parent(parent, path)));
        }
        i = i + 1;
    }
    proof {
        assert(cv.take(pv.len() as int) =~= pv);
    }
    let mut rest: Vec<Vec<char>> = Vec::new();
    let mut j: usize = p.len();
    while j < c.len()
        invariant
            p.len() <= j <= c.len(),
            pv == components(parent@),
            cv == components(path@),
            char_views(p@) == pv,
            char_views(c@) == cv,
            char_views(rest@) == cv.subrange(pv.len() as int, j as int),
        decreases c.len() - j,
    {
        let ghost before = char_views(rest@);
        let x = copy_chars(c[j].as_slice());
        rest.push(x);
        proof {
            assert(cv[j as int] == c@[j as int]@);
            assert(char_views(rest@) =~= before.push(cv[j as int]));
            assert(char_views(rest@) =~= cv.subrange(pv.len() as int, j + 1));
        }
        j = j + 1;
    }
    let mut out: Vec<char> = vec!['.', '/'];
    render_onto_exec(&mut out, rest.as_slice());
    proof {
        assert(cv.subrange(pv.len() as int, cv.len() as int) =~= cv.skip(pv.len() as int));
        assert(out@ == render_onto(seq!['.', '/'], cv.skip(pv.len() as int)));
    }
    Ok(string_from_chars(out.as_slice()))
}

/// What decides a path relative to a parent directory, before the common
/// components are compared: a parent that is a file is refused, then one
/// that does not exist; an absolute parent is used as it is, a relative one
/// by its canonical form (`canonical_parent`, which is not consulted for an
/// absolute parent).
pub fn relative_to_checked(
    path: &str,
    parent: &str,
    parent_is_file: bool,
    parent_exists: bool,
    canonical_parent: Result<String, String>,
) -> (r: Result<String, RelativeToParentError>)
    ensures
        parent_is_file ==> (r matches Err(RelativeToParentError::InvalidParent(m)) && m@
            == not_a_directory_message(parent@)),
        !parent_is_file && !parent_exists ==> (r matches Err(RelativeToParentError::InvalidParent(m))
            && m@ == does_not_exist_message(parent@)),
        !parent_is_file && parent_exists && is_absolute_path(parent@) ==> match r {
            Ok(s) => relative_path(parent@, path@) == Some(s@),
            Err(e) => relative_path(parent@, path@) is None && (e matches RelativeToParentError::InvalidParent(
                m,
            ) && m@ == not_a_parent_message(parent@, path@)),
        },
        !parent_is_file && parent_exists && !is_absolute_path(parent@) ==> match canonical_parent {
            Ok(c) => match r {
                Ok(s) => relative_path(c@, path@) == Some(s@),
                Err(e) => relative_path(c@, path@) is None && (e matches RelativeToParentError::InvalidParent(
                    m,
                ) && m@ == not_a_parent_message(parent@, path@)),
            },
            Err(msg) => r matches Err(RelativeToParentError::Io(p, m)) && p@ == parent@ && m@
                == msg@,
        },
{
    if parent_is_file {
        return Err(RelativeToParentError::InvalidParent(not_a_directory(parent)));
    }
    if !parent_exists {
        return Err(RelativeToParentError::InvalidParent(does_not_exist(parent)));
    }
    let pc = chars_of(parent);
    if pc.len() > 0 && pc[0] == '/' {
        relative_to(path, parent)
    } else {
        match canonical_parent {
            Ok(c) => match relative_to(path, c.as_str()) {
                Ok(s) => Ok(s),
                Err(_) => Err(RelativeToParentError::InvalidParent(not_a_parent(parent, path))),
            },
            Err(msg) => Err(RelativeToParentError::Io(string_from_chars(pc.as_slice()), msg)),
        }
    }
}

impl AbsolutePathBuf {
    /// The absolute path `path`, a file when `is_file`, a directory
    /// otherwise.
    pub fn new(path: String, is_file: bool) -> (r: AbsolutePathBuf)
        requires
            is_absolute_path(path@),
        ensures
            r@ == (is_file, path@),
    {
        if is_file {
            AbsolutePathBuf::File(path)
        } else {
            AbsolutePathBuf::Directory(path)
        }
    }

    /// The path's text.
    pub fn as_path(&self) -> (r: &str)
        ensures
            r@ == self@.1,
    {
        match self {
            AbsolutePathBuf::File(p) => p.as_str(),
            AbsolutePathBuf::Directory(p) => p.as_str(),
        }
    }

    /// Whether the path names a file.
    pub fn is_file(&self) -> (r: bool)
        ensures
            r == self@.0,
    {
        match self {
            AbsolutePathBuf::File(_) => true,
            AbsolutePathBuf::Directory(_) => false,
        }
    }

    /// A copy of the path.
    pub fn duplicate(&self) -> (r: AbsolutePathBuf)
        ensures
            r@ == self@,
    {
        match self {
            AbsolutePathBuf::File(p) => AbsolutePathBuf::File(p.clone()),
            AbsolutePathBuf::Directory(p) => AbsolutePathBuf::Directory(p.clone()),
        }
    }

    /// Whether two paths are the same (same kind, same components).
    pub fn same_as(&self, other: &AbsolutePathBuf) -> (r: bool)
        ensures
            r == same_abs_path(self@, other@),
    {
        if self.is_file() != other.is_file() {
            return false;
        }
        let a = chars_of(self.as_path());
        let b = chars_of(other.as_path());
        same_components(a.as_slice(), b.as_slice())
    }

    /// The path with `x` pushed onto it.
    pub fn join(&self, x: &str) -> (r: String)
        ensures
            r@ == push_path(self@.1, x@),
    {
        let a = chars_of(self.as_path());
        let b = chars_of(x);
        let j = join_exec(a.as_slice(), b.as_slice());
        string_from_chars(j.as_slice())
    }

    /// The directory that holds the path, if any.
    pub fn parent(&self) -> (r: Option<String>)
        ensures
            match r {
                Some(p) => parent_of(self@.1) == Some(p@),
                None => parent_of(self@.1) is None,
            },
    {
        let a = chars_of(self.as_path());
        match parent_exec(a.as_slice()) {
            Some(p) => Some(string_from_chars(p.as_slice())),
            None => None,
        }
    }

    /// The path's text (what `Display` prints).
    pub fn to_text(&self) -> (r: String)
        ensures
            r@ == self@.1,
    {
        match self {
            AbsolutePathBuf::File(p) => p.clone(),
            AbsolutePathBuf::Directory(p) => p.clone(),
        }
    }

    /// The path relative to the directory `parent` (see
    /// `relative_to_checked` for what the other arguments tell).
    pub fn as_relative_to_parent(
        &self,
        parent: &str,
        parent_is_file: bool,
        parent_exists: bool,
        canonical_parent: Result<String, String>,
    ) -> (r: Result<String, RelativeToParentError>)
        ensures
            parent_is_file ==> (r matches Err(RelativeToParentError::InvalidParent(m)) && m@
                == not_a_directory_message(parent@)),
            !parent_is_file && !parent_exists ==> (r matches Err(
                RelativeToParentError::InvalidParent(m),
            ) && m@ == does_not_exist_message(parent@)),
            !parent_is_file && parent_exists && is_absolute_path(parent@) ==> match r {
                Ok(s) => relative_path(parent@, self@.1) == Some(s@),
                Err(e) => relative_path(parent@, self@.1) is None && (e matches RelativeToParentError::InvalidParent(
                    m,
                ) && m@ == not_a_parent_message(parent@, self@.1)),
            },
            !parent_is_file && parent_exists && !is_absolute_path(parent@) ==> match canonical_parent {
                Ok(c) => match r {
                    Ok(s) => relative_path(c@, self@.1) == Some(s@),
                    Err(e) => relative_path(c@, self@.1) is None && (e matches RelativeToParentError::InvalidParent(
                        m,
                    ) && m@ == not_a_parent_message(parent@, self@.1)),
                },
                Err(msg) => r matches Err(RelativeToParentError::Io(p, m)) && p@ == parent@ && m@
                    == msg@,
            },
    {
        relative_to_checked(self.as_path(), parent, parent_is_file, parent_exists, canonical_parent)
    }
}

/// Whether the path's extension is `nix`, in any ASCII case.
pub fn is_nix(path: &str) -> (r: bool)
    ensures
        r == is_nix_path(path@),
{
    let c = chars_of(path);
    is_nix_chars(c.as_slice())
}

/// A directory that paths are shown relative to, with what the file
/// system says of it: whether it is a file, whether it exists, and its
/// canonical form (or why that could not be had).
#[derive(Debug)]
pub struct DirFacts {
    pub path: String,
    pub is_file: bool,
    pub exists: bool,
    pub canonical: Result<String, String>,
}

/// The abstract form of a directory and what is known of it.
pub type DirFactsView = (Seq<char>, bool, bool, Result<Seq<char>, Seq<char>>);

impl View for DirFacts {
    type V = DirFactsView;

    open spec fn view(&self) -> DirFactsView {
        (
            self.path@,
            self.is_file,
            self.exists,
            match self.canonical {
                Ok(c) => Ok(c@),
                Err(e) => Err(e@),
            },
        )
    }
}

/// `p` relative to the directory, when that succeeds (see
/// `relative_to_checked`).
pub open spec fn relative_under(d: DirFactsView, p: Seq<char>) -> Option<Seq<char>> {
    if d.1 || !d.2 {
        None
    } else if is_absolute_path(d.0) {
        relative_path(d.0, p)
    } else {
        match d.3 {
            Ok(c) => relative_path(c, p),
            Err(_) => None,
        }
    }
}

impl AbsolutePathBuf {
    /// The path relative to the directory, or `None` when that fails (see
    /// `relative_under`).
    pub fn relative_in(&self, dir: &DirFacts) -> (r: Option<String>)
        ensures
            match r {
                Some(s) => relative_under(dir@, self@.1) == Some(s@),
                None => relative_under(dir@, self@.1) is None,
            },
    {
        let canonical = match &dir.canonical {
            Ok(c) => Ok(c.clone()),
            Err(e) => Err(e.clone()),
        };
        match self.as_relative_to_parent(dir.path.as_str(), dir.is_file, dir.exists, canonical) {
            Ok(s) => Some(s),
            Err(_) => None,
        }
    }
}

/// `default.nix`
pub open spec fn default_nix_file() -> Seq<char> {
    seq!['d', 'e', 'f', 'a', 'u', 'l', 't', '.', 'n', 'i', 'x']
}

/// What a path stands for on disk: its `default.nix` when that is a file
/// (`default_nix_is_file`), the path itself otherwise.
pub open spec fn probe_target_of(path: Seq<char>, default_nix_is_file: bool) -> Seq<char> {
    if default_nix_is_file {
        push_path(path, default_nix_file())
    } else {
        path
    }
}

/// The absolute path that `target` (see `probe_target_of`) comes to, given
/// its metadata (whether it is a file) and, for a relative path, its
/// canonical form; a missing path is refused as not found, another failure
/// as an I/O error.
pub open spec fn probe_result(
    target: Seq<char>,
    metadata: Result<bool, Option<Seq<char>>>,
    canonical: Result<Seq<char>, Option<Seq<char>>>,
) -> Result<AbsolutePathView, Option<Seq<char>>> {
    match metadata {
        Err(e) => Err(e),
        Ok(is_file) => if is_absolute_path(target) {
            Ok((is_file, target))
        } else {
            match canonical {
                Ok(c) => Ok((is_file, c)),
                Err(e) => Err(e),
            }
        },
    }
}

/// The abstract form of a failed read: `None` for a missing path, the
/// reason otherwise.
pub open spec fn read_error_view(e: crate::ast::FileReadError) -> Option<Seq<char>> {
    match e {
        crate::ast::FileReadError::NotFound => None,
        crate::ast::FileReadError::Other(m) => Some(m@),
    }
}

impl AbsolutePathBuf {
    /// What `path` stands for on disk (see `probe_target_of`).
    pub fn probe_target(path: &str, default_nix_is_file: bool) -> (r: String)
        ensures
            r@ == probe_target_of(path@, default_nix_is_file),
    {
        let c = chars_of(path);
        if default_nix_is_file {
            let d: [char; 11] = ['d', 'e', 'f', 'a', 'u', 'l', 't', '.', 'n', 'i', 'x'];
            proof {
                assert(d@ =~= default_nix_file());
            }
            let j = join_exec(c.as_slice(), d.as_slice());
            string_from_chars(j.as_slice())
        } else {
            string_from_chars(c.as_slice())
        }
    }

    /// The absolute path of `target` (see `probe_result`): `None` stands
    /// for a missing path, `Some` for another failure.
    pub fn from_probe(
        target: &str,
        metadata: Result<bool, crate::ast::FileReadError>,
        canonical: Result<String, crate::ast::FileReadError>,
    ) -> (r: Result<AbsolutePathBuf, AbsolutePathBufError>)
        ensures
            match (
                probe_result(
                    target@,
                    match metadata {
                        Ok(f) => Ok(f),
                        Err(e) => Err(read_error_view(e)),
                    },
                    match canonical {
                        Ok(c) => Ok(c@),
                        Err(e) => Err(read_error_view(e)),
                    },
                ),
                r,
            ) {
                (Ok(v), Ok(p)) => p@ == v,
                (Err(None), Err(AbsolutePathBufError::NotFound)) => true,
                (Err(Some(m)), Err(AbsolutePathBufError::Io(x))) => x@ == m,
                _ => false,
            },
    {
        let is_file = match metadata {
            Ok(f) => f,
            Err(crate::ast::FileReadError::NotFound) => {
                return Err(AbsolutePathBufError::NotFound);
            },
            Err(crate::ast::FileReadError::Other(m)) => {
                return Err(AbsolutePathBufError::Io(m));
            },
        };
        let c = chars_of(target);
        let path = if c.len() > 0 && c[0] == '/' {
            string_from_chars(c.as_slice())
        } else {
            match canonical {
                Ok(p) => p,
                Err(crate::ast::FileReadError::NotFound) => {
                    return Err(AbsolutePathBufError::NotFound);
                },
                Err(crate::ast::FileReadError::Other(m)) => {
                    return Err(AbsolutePathBufError::Io(m));
                },
            }
        };
        if is_file {
            Ok(AbsolutePathBuf::File(path))
        } else {
            Ok(AbsolutePathBuf::Directory(path))
        }
    }
}

/// A path shown relative to an absolute directory is `./` followed by the
/// path's components below the directory, and leads back to the path:
/// pushing it onto the directory gives the path's components.
pub proof fn lemma_relative_path_rejoins(parent: Seq<char>, path: Seq<char>)
    requires
        is_absolute_path(parent),
        relative_path(parent, path) is Some,
    ensures
        crate::text::is_prefix(seq!['.', '/'], relative_path(parent, path).unwrap()),
        components(relative_path(parent, path).unwrap()) == seq![seq!['.']] + components(path).skip(
            components(parent).len() as int,
        ),
        components(push_path(parent, relative_path(parent, path).unwrap())) == components(path),
{
    let p = components(parent);
    let c = components(path);
    let segs = split_slash(path);
    let head: Seq<Seq<char>> = if path.len() > 0 && path[0] == '/' {
        seq![seq!['/']]
    } else if segs[0] == seq!['.'] {
        seq![seq!['.']]
    } else {
        seq![]
    };
    assert(c == head + kept_segments(segs));
    assert(p.len() >= 1);
    let n = p.len() as int;
    let rest = c.skip(n);
    crate::path::lemma_kept_elements(segs);
    crate::path::lemma_split_segments(path);
    assert forall|i: int| 0 <= i < rest.len() implies (#[trigger] rest[i]).len() > 0 && !rest[i].contains(
        '/',
    ) && rest[i] != seq!['.'] by {
        let k = kept_segments(segs);
        assert(rest[i] == c[n + i]);
        assert(c[n + i] == k[n + i - head.len()]);
        let j = choose|j: int| 0 <= j < segs.len() && segs[j] == k[n + i - head.len()];
        assert(!segs[j].contains('/'));
    }
    crate::path::lemma_render_dot(rest);
    let t = crate::text::join_seqs(rest, seq!['/']);
    let rel = seq!['.', '/'] + t;
    assert(relative_path(parent, path) == Some(rel));
    assert(rel[0] == '.');
    crate::path::lemma_split_concat(seq!['.'], t);
    assert(seq!['.'] + seq!['/'] + t =~= rel);
    crate::path::lemma_split_single(seq!['.']);
    crate::path::lemma_kept_concat(seq![seq!['.']], rest);
    crate::path::lemma_kept_all(rest);
    let dot_segs: Seq<Seq<char>> = seq![seq!['.']];
    assert(dot_segs.drop_last() =~= Seq::<Seq<char>>::empty());
    assert(dot_segs.last() == seq!['.']);
    assert(kept_segments(Seq::<Seq<char>>::empty()) =~= Seq::<Seq<char>>::empty());
    assert(kept_segments(dot_segs) =~= Seq::<Seq<char>>::empty());
    assert(kept_segments(split_slash(rel)) =~= rest);
    assert(c =~= p + rest);
    assert(split_slash(rel)[0] == seq!['.']);
    assert(components(rel) =~= seq![seq!['.']] + rest);
    assert(rel.take(2) =~= seq!['.', '/']);
    if parent.last() != '/' {
        crate::path::lemma_components_concat(parent, rel);
    } else {
        let a = parent.drop_last();
        assert(parent =~= a + seq!['/'] + Seq::<char>::empty());
        assert(parent + rel =~= a + seq!['/'] + rel);
        if a.len() > 0 {
            crate::path::lemma_components_concat(a, rel);
            crate::path::lemma_components_concat(a, Seq::<char>::empty());
            assert(split_slash(Seq::<char>::empty()) == seq![Seq::<char>::empty()]);
            assert(seq![Seq::<char>::empty()].drop_last() =~= Seq::<Seq<char>>::empty());
            assert(kept_segments(split_slash(Seq::<char>::empty())) =~= Seq::<Seq<char>>::empty());
        } else {
            assert(parent =~= seq!['/']);
            let s2 = parent + rel;
            crate::path::lemma_split_concat(Seq::<char>::empty(), rel);
            assert(s2 =~= Seq::<char>::empty() + seq!['/'] + rel);
            crate::path::lemma_kept_concat(seq![Seq::<char>::empty()], split_slash(rel));
            assert(seq![Seq::<char>::empty()].drop_last() =~= Seq::<Seq<char>>::empty());
            assert(kept_segments(seq![Seq::<char>::empty()]) =~= Seq::<Seq<char>>::empty());
            crate::path::lemma_split_concat(Seq::<char>::empty(), Seq::<char>::empty());
            assert(parent =~= Seq::<char>::empty() + seq!['/'] + Seq::<char>::empty());
            crate::path::lemma_kept_concat(seq![Seq::<char>::empty()], seq![Seq::<char>::empty()]);
        }
    }
}

} // verus!
