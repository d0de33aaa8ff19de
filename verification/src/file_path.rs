//! Absolute paths that name files, and finding the file that a relative
//! path written in another file names.

use vstd::prelude::*;

use crate::fs::{
    does_not_exist_message, not_a_directory_message, not_a_parent_message, relative_path,
    relative_to_checked, RelativeToParentError,
};
use crate::graph::{down_components, split_relative, up_count};
use crate::path::{components, is_absolute_path, is_nix_path, parent_exec, parent_of, push_path, render, render_exec};
use crate::text::{chars_of, string_from_chars};

verus! {

/// The absolute path of a file.
#[derive(Debug, Clone)]
pub struct AbsoluteFilePathBuf(pub String);

impl View for AbsoluteFilePathBuf {
    type V = Seq<char>;

    open spec fn view(&self) -> Seq<char> {
        self.0@
    }
}

/// Why a file's absolute path could not be had.
#[derive(Debug, Clone)]
pub enum AbsoluteFilePathBufError {
    /// Nothing is at the path.
    NotFound(String),
    /// The path names something other than a file.
    NotAFile(String),
    /// The file system failed (the path and the reason).
    Io(String, String),
}

/// The abstract form of an error.
pub enum FileErrorView {
    NotFound(Seq<char>),
    NotAFile(Seq<char>),
    Io(Seq<char>, Seq<char>),
}

impl View for AbsoluteFilePathBufError {
    type V = FileErrorView;

    open spec fn view(&self) -> FileErrorView {
        match self {
            AbsoluteFilePathBufError::NotFound(p) => FileErrorView::NotFound(p@),
            AbsoluteFilePathBufError::NotAFile(p) => FileErrorView::NotAFile(p@),
            AbsoluteFilePathBufError::Io(p, m) => FileErrorView::Io(p@, m@),
        }
    }
}

/// What finding a file comes to: its absolute path, or a path whose
/// canonical form (after `default.nix` is looked for in it) is the answer.
#[derive(Debug)]
pub enum FileResolution {
    Ready(AbsoluteFilePathBuf),
    Canonicalize(String),
}

/// The abstract form of a resolution.
pub enum FileResolutionView {
    Ready(Seq<char>),
    Canonicalize(Seq<char>),
}

impl View for FileResolution {
    type V = FileResolutionView;

    open spec fn view(&self) -> FileResolutionView {
        match self {
            FileResolution::Ready(p) => FileResolutionView::Ready(p@),
            FileResolution::Canonicalize(p) => FileResolutionView::Canonicalize(p@),
        }
    }
}

/// `../`
pub open spec fn up_dir() -> Seq<char> {
    seq!['.', '.', '/']
}

/// Taking the parent of `p` `n` times: the result, or, when a path with no
/// parent is reached first, that path followed by `../`.
pub open spec fn climb(p: Seq<char>, n: nat) -> Result<Seq<char>, Seq<char>>
    decreases n,
{
    if n == 0 {
        Ok(p)
    } else {
        match parent_of(p) {
            Some(q) => climb(q, (n - 1) as nat),
            None => Err(push_path(p, up_dir())),
        }
    }
}

/// What `try_from_relative` comes to for `path`, given whether it is a
/// file and the absolute path of the file it is written in: a file at an
/// absolute path is ready, at a relative one it is to be made canonical;
/// another relative path leads from that file's directory, one level up
/// for each `..`, then down its other components; an absolute path that is
/// not a file is refused.
pub open spec fn resolution_of(
    path: Seq<char>,
    path_is_file: bool,
    relative_to: Result<Seq<char>, ()>,
) -> Result<FileResolutionView, Option<Seq<char>>> {
    if path_is_file && is_absolute_path(path) {
        Ok(FileResolutionView::Ready(path))
    } else if path_is_file {
        Ok(FileResolutionView::Canonicalize(path))
    } else if is_absolute_path(path) {
        Err(Some(path))
    } else {
        match relative_to {
            Err(()) => Err(None),
            Ok(r) => {
                let c = components(path);
                match climb(parent_of(r).unwrap(), up_count(c)) {
                    Ok(base) => Ok(
                        FileResolutionView::Canonicalize(push_path(base, render(down_components(c)))),
                    ),
                    Err(e) => Err(Some(e)),
                }
            },
        }
    }
}

impl AbsoluteFilePathBuf {
    /// Whether the file's extension is `nix`, in any ASCII case.
    pub fn is_nix(&self) -> (r: bool)
        ensures
            r == is_nix_path(self@),
    {
        crate::fs::is_nix(self.0.as_str())
    }

    /// The path relative to the directory `parent` (see
    /// `relative_to_checked` for what the other arguments tell).
    pub fn as_relative_to_parent(
        &self,
        parent: &str,
        parent_is_file: bool,
        parent_exists: bool,
        canonical_parent: Result<String, String>,
    ) -> (r: Result<String, RelativeToParentError>)
        ensures
            parent_is_file ==> (r matches Err(RelativeToParentError::InvalidParent(m)) && m@
                == not_a_directory_message(parent@)),
            !parent_is_file && !parent_exists ==> (r matches Err(
                RelativeToParentError::InvalidParent(m),
            ) && m@ == does_not_exist_message(parent@)),
            !parent_is_file && parent_exists && is_absolute_path(parent@) ==> match r {
                Ok(s) => relative_path(parent@, self@) == Some(s@),
                Err(e) => relative_path(parent@, self@) is None && (e matches RelativeToParentError::InvalidParent(
                    m,
                ) && m@ == not_a_parent_message(parent@, self@)),
            },
            !parent_is_file && parent_exists && !is_absolute_path(parent@) ==> match canonical_parent {
                Ok(c) => match r {
                    Ok(s) => relative_path(c@, self@) == Some(s@),
                    Err(e) => relative_path(c@, self@) is None && (e matches RelativeToParentError::InvalidParent(
                        m,
                    ) && m@ == not_a_parent_message(parent@, self@)),
                },
                Err(msg) => r matches Err(RelativeToParentError::Io(p, m)) && p@ == parent@ && m@
                    == msg@,
            },
    {
        relative_to_checked(self.0.as_str(), parent, parent_is_file, parent_exists, canonical_parent)
    }

    /// Finds the file that `path`, written in another file, names (see
    /// `resolution_of`): `path_is_file` tells whether `path` is a file, and
    /// `relative_to` is the absolute path of the file it is written in,
    /// which must have a directory where it is read (for a relative `path`
    /// that is not a file). The error of `relative_to` is passed
    /// on; climbing above the root is refused as not found, naming the
    /// root followed by `../`.
    pub fn try_from_relative(
        path: &str,
        path_is_file: bool,
        relative_to: &Result<AbsoluteFilePathBuf, AbsoluteFilePathBufError>,
    ) -> (r: Result<FileResolution, AbsoluteFilePathBufError>)
        requires
            !path_is_file && !is_absolute_path(path@) ==> (relative_to matches Ok(p) ==> parent_of(
                p@,
            ) is Some),
        ensures
            match (
                resolution_of(
                    path@,
                    path_is_file,
                    match relative_to {
                        Ok(p) => Ok(p@),
                        Err(_) => Err(()),
                    },
                ),
                r,
            ) {
                (Ok(v), Ok(x)) => x@ == v,
                (Err(Some(p)), Err(e)) => (path_is_file || !is_absolute_path(path@)) ==> (e matches AbsoluteFilePathBufError::NotFound(q) && q@ == p),
                (Err(None), Err(e)) => relative_to matches Err(x) && e@ == x@,
                _ => false,
            },
            !path_is_file && is_absolute_path(path@) ==> (r matches Err(
                AbsoluteFilePathBufError::NotAFile(q),
            ) && q@ == path@),
    {
        let pc = chars_of(path);
        let absolute = pc.len() > 0 && pc[0] == '/';
        if path_is_file && absolute {
            return Ok(FileResolution::Ready(AbsoluteFilePathBuf(string_from_chars(pc.as_slice()))));
        }
        if path_is_file {
            return Ok(FileResolution::Canonicalize(string_from_chars(pc.as_slice())));
        }
        if absolute {
            return Err(AbsoluteFilePathBufError::NotAFile(string_from_chars(pc.as_slice())));
        }
        let rel = match relative_to {
            Ok(p) => p,
            Err(e) => {
                return Err(e.clone_error());
            },
        };
        proof {
            assert(!is_absolute_path(path@)) by {
                if path@.len() > 0 {
                    assert(path@[0] == pc@[0]);
                }
            }
        }
        let rc = chars_of(rel.0.as_str());
        let mut base = match parent_exec(rc.as_slice()) {
            Some(q) => q,
            None => {
                assert(false);
                return Err(AbsoluteFilePathBufError::NotFound(String::new()));
            },
        };
        let (ups, downs) = split_relative(path);
        let ghost start = base@;
        let mut k: usize = 0;
        while k < ups
            invariant
                k <= ups,
                ups == up_count(components(path@)),
                !path_is_file,
                !is_absolute_path(path@),
                relative_to matches Ok(p) && parent_of(p@) == Some(start),
                climb(start, ups as nat) == climb(base@, (ups - k) as nat),
            decreases ups - k,
        {
            match parent_exec(base.as_slice()) {
                Some(q) => {
                    base = q;
                },
                None => {
                    let up: [char; 3] = ['.', '.', '/'];
                    proof {
                        assert(up@ =~= up_dir());
                    }
                    let e = crate::path::join_exec(base.as_slice(), up.as_slice());
                    return Err(AbsoluteFilePathBufError::NotFound(string_from_chars(e.as_slice())));
                },
            }
            k = k + 1;
        }
        let down_path = render_exec(&downs);
        let joined = crate::path::join_exec(base.as_slice(), down_path.as_slice());
        Ok(FileResolution::Canonicalize(string_from_chars(joined.as_slice())))
    }
}

impl AbsoluteFilePathBufError {
    /// A copy of the error.
    pub fn clone_error(&self) -> (r: AbsoluteFilePathBufError)
        ensures
            r@ == self@,
    {
        match self {
            AbsoluteFilePathBufError::NotFound(p) => AbsoluteFilePathBufError::NotFound(p.clone()),
            AbsoluteFilePathBufError::NotAFile(p) => AbsoluteFilePathBufError::NotAFile(p.clone()),
            AbsoluteFilePathBufError::Io(p, m) => AbsoluteFilePathBufError::Io(p.clone(), m.clone()),
        }
    }
}

impl AbsoluteFilePathBuf {
    /// The file that `target` (see `crate::fs::probe_target_of`) comes to,
    /// given its canonical form; a missing path is refused as not found,
    /// another failure as an I/O error naming the path.
    pub fn from_canonical(target: &str, canonical: Result<String, crate::ast::FileReadError>) -> (r:
        Result<AbsoluteFilePathBuf, AbsoluteFilePathBufError>)
        ensures
            match canonical {
                Ok(c) => r matches Ok(p) && p@ == c@,
                Err(crate::ast::FileReadError::NotFound) => r matches Err(
                    AbsoluteFilePathBufError::NotFound(p),
                ) && p@ == target@,
                Err(crate::ast::FileReadError::Other(m)) => r matches Err(
                    AbsoluteFilePathBufError::Io(p, x),
                ) && p@ == target@ && x@ == m@,
            },
    {
        let t = chars_of(target);
        match canonical {
            Ok(c) => Ok(AbsoluteFilePathBuf(c)),
            Err(crate::ast::FileReadError::NotFound) => Err(
                AbsoluteFilePathBufError::NotFound(string_from_chars(t.as_slice())),
            ),
            Err(crate::ast::FileReadError::Other(m)) => Err(
                AbsoluteFilePathBufError::Io(string_from_chars(t.as_slice()), m),
            ),
        }
    }
}

} // verus!
