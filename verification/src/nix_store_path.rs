//! Paths in the Nix store, classified by what they hold.

use vstd::prelude::*;

use crate::attr::{handle_prefix, Attrname};
use crate::text::{
    chars_of, copy_chars, first_index, first_index_exec, has_char, is_prefix, last_occurrence,
    last_occurrence_exec, push_all, starts_with, string_from_chars,
};

verus! {

/// A store path together with the handle it was built for.
#[derive(Debug, Clone)]
pub struct MrxNixStorePath(pub String, pub Attrname);

/// A store path: a `bin` directory, an executable in one, or an output
/// directory; the `Mrx` forms carry the handle that the path's name gives.
#[derive(Debug, Clone)]
pub enum NixStorePath {
    BinDir(String),
    Exe(String),
    OutDir(String),
    MrxBinDir(MrxNixStorePath),
    MrxExe(MrxNixStorePath),
    MrxOutDir(MrxNixStorePath),
}

/// The abstract form of a store path: its text and, for the `Mrx` forms,
/// its handle.
pub enum StorePathView {
    BinDir(Seq<char>),
    Exe(Seq<char>),
    OutDir(Seq<char>),
    MrxBinDir(Seq<char>, Seq<char>),
    MrxExe(Seq<char>, Seq<char>),
    MrxOutDir(Seq<char>, Seq<char>),
}

impl StorePathView {
    /// The path's text.
    pub open spec fn text(self) -> Seq<char> {
        match self {
            StorePathView::BinDir(p) => p,
            StorePathView::Exe(p) => p,
            StorePathView::OutDir(p) => p,
            StorePathView::MrxBinDir(p, _) => p,
            StorePathView::MrxExe(p, _) => p,
            StorePathView::MrxOutDir(p, _) => p,
        }
    }
}

impl View for NixStorePath {
    type V = StorePathView;

    open spec fn view(&self) -> StorePathView {
        match self {
            NixStorePath::BinDir(p) => StorePathView::BinDir(p@),
            NixStorePath::Exe(p) => StorePathView::Exe(p@),
            NixStorePath::OutDir(p) => StorePathView::OutDir(p@),
            NixStorePath::MrxBinDir(m) => StorePathView::MrxBinDir(m.0@, m.1@),
            NixStorePath::MrxExe(m) => StorePathView::MrxExe(m.0@, m.1@),
            NixStorePath::MrxOutDir(m) => StorePathView::MrxOutDir(m.0@, m.1@),
        }
    }
}

/// `/nix/store/`
pub open spec fn store_prefix() -> Seq<char> {
    seq!['/', 'n', 'i', 'x', '/', 's', 't', 'o', 'r', 'e', '/']
}

/// `/bin`
pub open spec fn bin_marker() -> Seq<char> {
    seq!['/', 'b', 'i', 'n']
}

/// A path in the store, `/nix/store/<hash>-<name>`: it starts with
/// `/nix/store/` and holds a `-`.
pub open spec fn is_store_path(p: Seq<char>) -> bool {
    is_prefix(store_prefix(), p) && p.contains('-')
}

/// The handle that a store path's name gives: what follows the first `-`,
/// when that starts with `_.`.
pub open spec fn store_attrname(p: Seq<char>) -> Option<Seq<char>> {
    match first_index(p, '-') {
        Some(i) => if is_prefix(handle_prefix(), p.skip(i + 1)) {
            Some(p.skip(i + 1))
        } else {
            None
        },
        None => None,
    }
}

/// What follows the last `/bin` of the path, if it holds one.
pub open spec fn after_last_bin(p: Seq<char>) -> Option<Seq<char>> {
    match last_occurrence(p, bin_marker()) {
        Some(i) => Some(p.skip(i + 4)),
        None => None,
    }
}

/// How `NixStorePath::new` classifies a path: by what follows its last
/// `/bin` (nothing or `/` for a `bin` directory, anything else for an
/// executable, no `/bin` for an output directory), and by whether its name
/// gives a handle.
pub open spec fn classify_store_path(p: Seq<char>) -> StorePathView {
    match (after_last_bin(p), store_attrname(p)) {
        (Some(rest), Some(a)) => if rest.len() == 0 || rest == seq!['/'] {
            StorePathView::MrxBinDir(p, a)
        } else {
            StorePathView::MrxExe(p, a)
        },
        (Some(rest), None) => if rest.len() == 0 || rest == seq!['/'] {
            StorePathView::BinDir(p)
        } else {
            StorePathView::Exe(p)
        },
        (None, Some(a)) => StorePathView::MrxOutDir(p, a),
        (None, None) => StorePathView::OutDir(p),
    }
}

/// The handle that a store path's name gives.
fn store_attrname_exec(p: &[char]) -> (r: Option<Attrname>)
    ensures
        match r {
            Some(a) => store_attrname(p@) == Some(a@),
            None => store_attrname(p@) is None,
        },
{
    match first_index_exec(p, '-') {
        Some(i) => {
            let mut name: Vec<char> = Vec::new();
            assert(i < p.len());
            let mut j: usize = i + 1;
            while j < p.len()
                invariant
                    i < j <= p.len(),
                    name@ == p@.subrange(i + 1, j as int),
                decreases p.len() - j,
            {
                name.push(p[j]);
                j = j + 1;
            }
            proof {
                assert(name@ =~= p@.skip(i + 1));
            }
            match Attrname::try_from_string(string_from_chars(name.as_slice())) {
                Ok(a) => Some(a),
                Err(_) => None,
            }
        },
        None => None,
    }
}

/// Whether `path` is a path in the store (see `is_store_path`).
pub fn is_store_path_str(path: &str) -> (r: bool)
    ensures
        r == is_store_path(path@),
{
    let c = chars_of(path);
    let prefix: [char; 11] = ['/', 'n', 'i', 'x', '/', 's', 't', 'o', 'r', 'e', '/'];
    proof {
        assert(prefix@ =~= store_prefix());
    }
    starts_with(c.as_slice(), prefix.as_slice()) && has_char(c.as_slice(), '-')
}

impl NixStorePath {
    /// Classifies `path` when it is a store path; `None` otherwise.
    pub fn parse(path: String) -> (r: Option<NixStorePath>)
        ensures
            match r {
                Some(p) => is_store_path(path@) && p@ == classify_store_path(path@),
                None => !is_store_path(path@),
            },
    {
        if is_store_path_str(path.as_str()) {
            Some(NixStorePath::new(path))
        } else {
            None
        }
    }

    /// Classifies a store path (see `classify_store_path`).
    pub fn new(path: String) -> (r: NixStorePath)
        requires
            is_store_path(path@),
        ensures
            r@ == classify_store_path(path@),
    {
        let chars = chars_of(path.as_str());
        let marker: [char; 4] = ['/', 'b', 'i', 'n'];
        proof {
            assert(marker@ =~= bin_marker());
        }
        let attr = store_attrname_exec(chars.as_slice());
        match last_occurrence_exec(chars.as_slice(), marker.as_slice()) {
            Some(i) => {
                let rest_len = chars.len() - (i + 4);
                let is_dir = rest_len == 0 || (rest_len == 1 && chars[i + 4] == '/');
                proof {
                    let rest = chars@.skip(i + 4);
                    assert(rest.len() == rest_len);
                    if rest_len == 1 {
                        assert(rest[0] == chars@[i + 4]);
                    }
                    if rest == seq!['/'] {
                        assert(rest.len() == 1);
                    }
                    if rest_len == 1 && chars@[i + 4] == '/' {
                        assert(rest =~= seq!['/']);
                    }
                }
                match attr {
                    Some(a) => if is_dir {
                        NixStorePath::MrxBinDir(MrxNixStorePath(path, a))
                    } else {
                        NixStorePath::MrxExe(MrxNixStorePath(path, a))
                    },
                    None => if is_dir {
                        NixStorePath::BinDir(path)
                    } else {
                        NixStorePath::Exe(path)
                    },
                }
            },
            None => match attr {
                Some(a) => NixStorePath::MrxOutDir(MrxNixStorePath(path, a)),
                None => NixStorePath::OutDir(path),
            },
        }
    }

    /// A copy of the store path: the same form, text and handle, so its
    /// text (`into_string`) is what `as_str` gives of the original.
    pub fn duplicate(&self) -> (r: NixStorePath)
        ensures
            r@ == self@,
            r@.text() == self@.text(),
    {
        match self {
            NixStorePath::BinDir(v) => NixStorePath::BinDir(v.clone()),
            NixStorePath::Exe(v) => NixStorePath::Exe(v.clone()),
            NixStorePath::OutDir(v) => NixStorePath::OutDir(v.clone()),
            NixStorePath::MrxBinDir(MrxNixStorePath(v, a)) => NixStorePath::MrxBinDir(
                MrxNixStorePath(v.clone(), a.duplicate()),
            ),
            NixStorePath::MrxExe(MrxNixStorePath(v, a)) => NixStorePath::MrxExe(
                MrxNixStorePath(v.clone(), a.duplicate()),
            ),
            NixStorePath::MrxOutDir(MrxNixStorePath(v, a)) => NixStorePath::MrxOutDir(
                MrxNixStorePath(v.clone(), a.duplicate()),
            ),
        }
    }

    /// The path's text.
    pub fn into_string(self) -> (r: String)
        ensures
            r@ == self@.text(),
    {
        match self {
            NixStorePath::BinDir(v) => v,
            NixStorePath::OutDir(v) => v,
            NixStorePath::Exe(v) => v,
            NixStorePath::MrxBinDir(MrxNixStorePath(v, _)) => v,
            NixStorePath::MrxExe(MrxNixStorePath(v, _)) => v,
            NixStorePath::MrxOutDir(MrxNixStorePath(v, _)) => v,
        }
    }

    /// The path's text.
    pub fn as_str(&self) -> (r: &str)
        ensures
            r@ == self@.text(),
    {
        match self {
            NixStorePath::BinDir(v) => v.as_str(),
            NixStorePath::OutDir(v) => v.as_str(),
            NixStorePath::Exe(v) => v.as_str(),
            NixStorePath::MrxBinDir(MrxNixStorePath(v, _)) => v.as_str(),
            NixStorePath::MrxExe(MrxNixStorePath(v, _)) => v.as_str(),
            NixStorePath::MrxOutDir(MrxNixStorePath(v, _)) => v.as_str(),
        }
    }

    /// The handle of a `bin` directory built for one; `None` for every
    /// other form.
    pub fn as_attrname(&self) -> (r: Option<&Attrname>)
        ensures
            match self@ {
                StorePathView::MrxBinDir(_, a) => r matches Some(n) && n@ == a,
                _ => r is None,
            },
    {
        match self {
            NixStorePath::MrxBinDir(MrxNixStorePath(_, attrname)) => Some(attrname),
            _ => None,
        }
    }

    /// The path (as a `PathBuf` would hold it).
    pub fn to_path(&self) -> (r: String)
        ensures
            r@ == self@.text(),
    {
        let chars = chars_of(self.as_str());
        string_from_chars(chars.as_slice())
    }

    /// The executable that an `Mrx` form stands for: a `bin` directory's
    /// path followed by the handle, an output directory's path followed by
    /// `/bin/` and the handle, an executable unchanged; `None` for the forms
    /// that carry no handle.
    pub fn into_mrx_exe(self) -> (r: Option<NixStorePath>)
        ensures
            match self@ {
                StorePathView::MrxBinDir(p, a) => r matches Some(e) && e@ == StorePathView::MrxExe(
                    p + a,
                    a,
                ),
                StorePathView::MrxExe(p, a) => r matches Some(e) && e@ == StorePathView::MrxExe(
                    p,
                    a,
                ),
                StorePathView::MrxOutDir(p, a) => r matches Some(e) && e@ == StorePathView::MrxExe(
                    p + seq!['/', 'b', 'i', 'n', '/'] + a,
                    a,
                ),
                _ => r is None,
            },
    {
        match self {
            NixStorePath::BinDir(_) => None,
            NixStorePath::Exe(_) => None,
            NixStorePath::OutDir(_) => None,
            NixStorePath::MrxBinDir(MrxNixStorePath(path, attrname)) => {
                let mut text = chars_of(path.as_str());
                let name = chars_of(attrname.as_str());
                push_all(&mut text, name.as_slice());
                let a2 = attrname.duplicate();
                Some(NixStorePath::MrxExe(MrxNixStorePath(string_from_chars(text.as_slice()), a2)))
            },
            NixStorePath::MrxExe(m) => Some(NixStorePath::MrxExe(m)),
            NixStorePath::MrxOutDir(MrxNixStorePath(path, attrname)) => {
                let mut text = chars_of(path.as_str());
                let bin: [char; 5] = ['/', 'b', 'i', 'n', '/'];
                push_all(&mut text, bin.as_slice());
                let name = chars_of(attrname.as_str());
                push_all(&mut text, name.as_slice());
                proof {
                    assert(bin@ =~= seq!['/', 'b', 'i', 'n', '/']);
                }
                let a2 = attrname.duplicate();
                Some(NixStorePath::MrxExe(MrxNixStorePath(string_from_chars(text.as_slice()), a2)))
            },
        }
    }
}

/// Classifying a store path keeps its text: `into_string` after `new` gives
/// the path back.
pub proof fn lemma_classify_keeps_text(p: Seq<char>)
    ensures
        classify_store_path(p).text() == p,
{
}

/// The first `-` of `a + "-" + b`, when `a` holds none, is the one after
/// `a`.
proof fn lemma_first_dash(a: Seq<char>, b: Seq<char>)
    requires
        !a.contains('-'),
    ensures
        crate::text::first_index(a + seq!['-'] + b, '-') == Some(a.len() as int),
    decreases a.len(),
{
    let f = a + seq!['-'] + b;
    if a.len() == 0 {
        assert(f[0] == '-');
    } else {
        assert(f[0] == a[0]);
        assert(a.contains(a[0]) ==> a[0] != '-');
        let a2 = a.skip(1);
        assert(!a2.contains('-')) by {
            if a2.contains('-') {
                let k = choose|k: int| 0 <= k < a2.len() && a2[k] == '-';
                assert(a[k + 1] == '-');
            }
        }
        assert(f.skip(1) =~= a2 + seq!['-'] + b);
        lemma_first_dash(a2, b);
    }
}

/// A store path's handle is its whole name: for `/nix/store/<hash>-<name>`
/// with no `-` in the hash, the path is split at its first `-`, so a name
/// that starts with `_.` is the handle even when it holds `-` itself
/// (`/nix/store/h-_.a-b` gives `_.a-b`), whatever form the path has.
pub proof fn lemma_store_handle_is_name(hash: Seq<char>, name: Seq<char>)
    requires
        !hash.contains('-'),
        is_prefix(handle_prefix(), name),
    ensures
        store_attrname(store_prefix() + hash + seq!['-'] + name) == Some(name),
        match classify_store_path(store_prefix() + hash + seq!['-'] + name) {
            StorePathView::MrxBinDir(_, a) => a == name,
            StorePathView::MrxExe(_, a) => a == name,
            StorePathView::MrxOutDir(_, a) => a == name,
            _ => false,
        },
{
    let a = store_prefix() + hash;
    let p = a + seq!['-'] + name;
    assert(!a.contains('-')) by {
        if a.contains('-') {
            let k = choose|k: int| 0 <= k < a.len() && a[k] == '-';
            if k >= store_prefix().len() {
                assert(hash[k - store_prefix().len()] == '-');
            }
        }
    }
    lemma_first_dash(a, name);
    assert(p.skip(a.len() + 1int) =~= name);
    assert(store_prefix() + hash + seq!['-'] + name =~= p);
}

} // verus!
