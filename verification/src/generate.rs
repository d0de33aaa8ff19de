//! What `generate` writes: the barrel file that maps every handle to its
//! file, and the `_/name` file beside each module that asks for its own
//! name.

use vstd::prelude::*;

use crate::ast::{NixAst, NixAstNodes, NixAstNodesError, NixAstView};
use crate::attr::{handle_prefix, Attrname, PathAttrset};
use crate::config::{dir_of, generated_out_path_of, Config};
use crate::path::{components, components_exec, parent_of, push_path};
use crate::show::{pair_views, pairs_sorted, sort_pairs};
use crate::text::{chars_of, push_all, replace_first, replace_first_chars, string_from_chars};

verus! {

/// Why generating failed.
#[derive(Debug)]
pub enum GenerateError {
    GettingPathAttrset,
    InvalidDestination(String),
    WriteBarrelFile,
    WriteBin(Attrname),
}

/// `../`, `n` times.
pub open spec fn up_prefix(n: nat) -> Seq<char>
    decreases n,
{
    if n == 0 {
        seq![]
    } else {
        up_prefix((n - 1) as nat) + seq!['.', '.', '/']
    }
}

/// How many `../` lead from the generated file's directory back to the
/// project: its components less two, and none for fewer.
pub open spec fn up_count(destination: Seq<char>) -> nat {
    let n = components(destination).len();
    if n >= 2 {
        (n - 2) as nat
    } else {
        0
    }
}

/// The line of the barrel file for one handle: the handle without its
/// first `_.`, then its file's path behind the prefix.
pub open spec fn barrel_line(name: Seq<char>, path: Seq<char>, prefix: Seq<char>) -> Seq<char> {
    seq![' ', ' '] + replace_first(name, handle_prefix(), seq![]) + seq![' ', '=', ' '] + prefix
        + path + seq![';', '\n']
}

/// The lines for the entries, in order.
pub open spec fn barrel_lines(entries: Seq<(Seq<char>, Seq<char>)>, prefix: Seq<char>) -> Seq<char>
    decreases entries.len(),
{
    if entries.len() == 0 {
        seq![]
    } else {
        barrel_lines(entries.drop_last(), prefix) + barrel_line(
            entries.last().0,
            entries.last().1,
            prefix,
        )
    }
}

/// The barrel file: an attribute set with one line per entry.
pub open spec fn barrel_text(entries: Seq<(Seq<char>, Seq<char>)>, prefix: Seq<char>) -> Seq<char> {
    seq!['{', '\n'] + barrel_lines(entries, prefix) + seq!['}', '\n']
}

/// `'/' has no parent`
pub open spec fn no_parent_message() -> Seq<char> {
    seq!['\'', '/', '\'', ' ', 'h', 'a', 's', ' ', 'n', 'o', ' ', 'p', 'a', 'r', 'e', 'n', 't']
}

/// Where and what to write for the barrel file: the file, its directory
/// (to be created), the handles with their files in order, and the text.
#[derive(Debug)]
pub struct BarrelPlan {
    pub destination: String,
    pub directory: String,
    pub entries: Vec<(String, String)>,
    pub text: String,
}

/// `../`, `n` times.
fn up_prefix_exec(n: usize) -> (r: Vec<char>)
    ensures
        r@ == up_prefix(n as nat),
{
    let mut out: Vec<char> = Vec::new();
    let mut i: usize = 0;
    while i < n
        invariant
            i <= n,
            out@ == up_prefix(i as nat),
        decreases n - i,
    {
        out.push('.');
        out.push('.');
        out.push('/');
        proof {
            assert(out@ =~= up_prefix(i as nat) + seq!['.', '.', '/']);
        }
        i = i + 1;
    }
    out
}

/// The barrel file's text for the entries (see `barrel_text`).
pub fn barrel_file_text(entries: &Vec<(String, String)>, prefix_count: usize) -> (r: String)
    ensures
        r@ == barrel_text(pair_views(entries@), up_prefix(prefix_count as nat)),
{
    let prefix = up_prefix_exec(prefix_count);
    let hp: [char; 2] = ['_', '.'];
    let none: [char; 0] = [];
    proof {
        assert(hp@ =~= handle_prefix());
        assert(none@ =~= Seq::<char>::empty());
    }
    let ghost ev = pair_views(entries@);
    let mut out: Vec<char> = Vec::new();
    out.push('{');
    out.push('\n');
    let ghost head = out@;
    let mut i: usize = 0;
    proof {
        assert(head =~= seq!['{', '\n']);
        assert(ev.take(0) =~= Seq::<(Seq<char>, Seq<char>)>::empty());
        assert(out@ =~= head + barrel_lines(ev.take(0), prefix@));
    }
    while i < entries.len()
        invariant
            i <= entries.len(),
            ev == pair_views(entries@),
            head == seq!['{', '\n'],
            prefix@ == up_prefix(prefix_count as nat),
            hp@ == handle_prefix(),
            none@ == Seq::<char>::empty(),
            out@ == head + barrel_lines(ev.take(i as int), prefix@),
        decreases entries.len() - i,
    {
        proof {
            assert(ev.take(i + 1).drop_last() =~= ev.take(i as int));
            assert(ev.take(i + 1).last() == (entries@[i as int].0@, entries@[i as int].1@));
        }
        let ghost before = out@;
        let name = chars_of(entries[i].0.as_str());
        let short = replace_first_chars(name.as_slice(), hp.as_slice(), none.as_slice());
        let path = chars_of(entries[i].1.as_str());
        out.push(' ');
        out.push(' ');
        push_all(&mut out, short.as_slice());
        out.push(' ');
        out.push('=');
        out.push(' ');
        push_all(&mut out, prefix.as_slice());
        push_all(&mut out, path.as_slice());
        out.push(';');
        out.push('\n');
        proof {
            assert(out@ =~= before + barrel_line(entries@[i as int].0@, entries@[i as int].1@, prefix@));
        }
        i = i + 1;
    }
    out.push('}');
    out.push('\n');
    proof {
        assert(ev.take(entries.len() as int) =~= ev);
        assert(out@ =~= barrel_text(ev, prefix@));
    }
    string_from_chars(out.as_slice())
}

/// Where and what to write for the barrel file (see `BarrelPlan`): the
/// generated file in the project directory (see `Config::dir`), and the
/// handles sorted; refused when that file has no directory.
pub fn barrel_plan(config: &Config, parent_exists: bool, attrset: &PathAttrset) -> (r: Result<
    BarrelPlan,
    GenerateError,
>)
    ensures
        ({
            let dest = push_path(
                dir_of(config.path_view(), parent_exists),
                generated_out_path_of(config.toml_view()),
            );
            match parent_of(dest) {
                None => r matches Err(GenerateError::InvalidDestination(m)) && m@
                    == no_parent_message(),
                Some(d) => r matches Ok(p) && p.destination@ == dest && p.directory@ == d
                    && pairs_sorted(pair_views(p.entries@)) && p.entries@.len()
                    == attrset@.dom().len() && (forall|i: int|
                    0 <= i < p.entries@.len() ==> attrset@.contains_key(
                        #[trigger] p.entries@[i].0@,
                    ) && attrset@[p.entries@[i].0@].0 == p.entries@[i].1@) && (forall|
                    k: Seq<char>,
                | #[trigger] attrset@.contains_key(k) ==> exists|i: int|
                    0 <= i < p.entries@.len() && #[trigger] p.entries@[i].0@ == k) && p.text@
                    == barrel_text(pair_views(p.entries@), up_prefix(up_count(dest))),
            }
        }),
{
    let dir = config.dir(parent_exists);
    let out_path = config.get_generated_out_path();
    let d = chars_of(dir.as_str());
    let o = chars_of(out_path.as_str());
    let dest = crate::path::join_exec(d.as_slice(), o.as_slice());
    let parent = match crate::path::parent_exec(dest.as_slice()) {
        Some(p) => p,
        None => {
            let m: &str = "'/' has no parent";
            proof {
                reveal_strlit("'/' has no parent");
                assert(m@ =~= no_parent_message());
            }
            return Err(GenerateError::InvalidDestination(m.to_owned()));
        },
    };
    let comps = components_exec(dest.as_slice());
    let count: usize = if comps.len() >= 2 {
        comps.len() - 2
    } else {
        0
    };
    proof {
        assert(comps@.len() == components(dest@).len());
    }
    let pairs = attrset.name_path_pairs();
    let entries = sort_pairs(pairs);
    proof {
        let a = pair_views(pairs@);
        let b = pair_views(entries@);
        a.to_multiset_ensures();
        b.to_multiset_ensures();
        assert(b.len() == a.len());
        assert forall|i: int| 0 <= i < entries@.len() implies attrset@.contains_key(
            #[trigger] entries@[i].0@,
        ) && attrset@[entries@[i].0@].0 == entries@[i].1@ by {
            assert(b.contains(b[i]));
            assert(b.to_multiset().count(b[i]) > 0);
            assert(a.to_multiset().count(b[i]) > 0);
            assert(a.contains(b[i]));
            let j = choose|j: int| 0 <= j < a.len() && a[j] == b[i];
            assert(pairs@[j].0@ == entries@[i].0@);
        }
        assert forall|k: Seq<char>| #[trigger] attrset@.contains_key(k) implies exists|i: int|
            0 <= i < entries@.len() && #[trigger] entries@[i].0@ == k by {
            let j = choose|j: int| 0 <= j < pairs@.len() && #[trigger] pairs@[j].0@ == k;
            assert(a.contains(a[j]));
            assert(a.to_multiset().count(a[j]) > 0);
            assert(b.to_multiset().count(a[j]) > 0);
            assert(b.contains(a[j]));
            let i = choose|i: int| 0 <= i < b.len() && b[i] == a[j];
            assert(entries@[i].0@ == k);
        }
    }
    let text = barrel_file_text(&entries, count);
    Ok(
        BarrelPlan {
            destination: string_from_chars(dest.as_slice()),
            directory: string_from_chars(parent.as_slice()),
            entries,
            text,
        },
    )
}

/// `_/name`
pub open spec fn own_name_dir() -> Seq<char> {
    seq!['_', '/', 'n', 'a', 'm', 'e']
}

/// `default.nix`
pub open spec fn default_nix_name() -> Seq<char> {
    seq!['d', 'e', 'f', 'a', 'u', 'l', 't', '.', 'n', 'i', 'x']
}

/// `# GENERATED CODE`, a line feed, then the handle in double quotes and a
/// line feed.
pub open spec fn name_file_text(attr: Seq<char>) -> Seq<char> {
    seq![
        '#',
        ' ',
        'G',
        'E',
        'N',
        'E',
        'R',
        'A',
        'T',
        'E',
        'D',
        ' ',
        'C',
        'O',
        'D',
        'E',
        '\n',
        '"',
    ] + attr + seq!['"', '\n']
}

/// Where and what to write for a module that asks for its own name: the
/// `_/name` directory beside it, the `default.nix` in it, and its text.
#[derive(Debug)]
pub struct NameFilePlan {
    pub directory: String,
    pub file: String,
    pub text: String,
}

/// Whether the expressions hold `import _/name`.
pub fn imports_own_name(asts: &NixAstNodes) -> (r: bool)
    ensures
        r == asts@.contains(NixAstView::ImportOwnNameModuleExpression),
{
    let mut i: usize = 0;
    while i < asts.0.len()
        invariant
            i <= asts.0.len(),
            asts@.len() == asts.0@.len(),
            forall|k: int| 0 <= k < i ==> asts@[k] != NixAstView::ImportOwnNameModuleExpression,
        decreases asts.0.len() - i,
    {
        proof {
            assert(asts@[i as int] == asts.0@[i as int]@);
        }
        match &asts.0[i] {
            NixAst::ImportOwnNameModuleExpression => {
                assert(asts@[i as int] == NixAstView::ImportOwnNameModuleExpression);
                return true;
            },
            _ => {},
        }
        i = i + 1;
    }
    false
}

/// The name file of the module at `path` for the handle `name`, given what
/// reading the module gave: only a module read whole that asks for its own
/// name gets one.
pub fn name_file_plan(
    name: &Attrname,
    path: &str,
    asts: &Result<NixAstNodes, NixAstNodesError>,
) -> (r: Option<NameFilePlan>)
    requires
        parent_of(path@) is Some,
    ensures
        match asts {
            Ok(n) => if n@.contains(NixAstView::ImportOwnNameModuleExpression) {
                r matches Some(p) && p.directory@ == push_path(
                    parent_of(path@).unwrap(),
                    own_name_dir(),
                ) && p.file@ == push_path(p.directory@, default_nix_name()) && p.text@
                    == name_file_text(name@)
            } else {
                r is None
            },
            Err(_) => r is None,
        },
{
    let wanted = match asts {
        Ok(n) => imports_own_name(n),
        Err(_) => false,
    };
    if !wanted {
        return None;
    }
    let pc = chars_of(path);
    let parent = match crate::path::parent_exec(pc.as_slice()) {
        Some(p) => p,
        None => {
            return None;
        },
    };
    let own: [char; 6] = ['_', '/', 'n', 'a', 'm', 'e'];
    let dn: [char; 11] = ['d', 'e', 'f', 'a', 'u', 'l', 't', '.', 'n', 'i', 'x'];
    proof {
        assert(own@ =~= own_name_dir());
        assert(dn@ =~= default_nix_name());
    }
    let dir = crate::path::join_exec(parent.as_slice(), own.as_slice());
    let file = crate::path::join_exec(dir.as_slice(), dn.as_slice());
    let head: [char; 18] = [
        '#',
        ' ',
        'G',
        'E',
        'N',
        'E',
        'R',
        'A',
        'T',
        'E',
        'D',
        ' ',
        'C',
        'O',
        'D',
        'E',
        '\n',
        '"',
    ];
    let mut text: Vec<char> = Vec::new();
    push_all(&mut text, head.as_slice());
    let n = chars_of(name.as_str());
    push_all(&mut text, n.as_slice());
    text.push('"');
    text.push('\n');
    proof {
        assert(text@ =~= name_file_text(name@));
    }
    Some(
        NameFilePlan {
            directory: string_from_chars(dir.as_slice()),
            file: string_from_chars(file.as_slice()),
            text: string_from_chars(text.as_slice()),
        },
    )
}

/// Whether a name file must be written: unless it already holds exactly
/// the text (as UTF-8).
pub fn needs_write(existing: &Option<Vec<u8>>, text: &str) -> (r: bool)
    ensures
        r == !(existing matches Some(b) && b@ == vstd::utf8::encode_utf8(text@)),
{
    let t = text.as_bytes();
    match existing {
        None => true,
        Some(b) => {
            if b.len() != t.len() {
                return true;
            }
            let mut i: usize = 0;
            while i < b.len()
                invariant
                    i <= b.len(),
                    b.len() == t.len(),
                    t@ == vstd::utf8::encode_utf8(text@),
                    *existing == Some(*b),
                    forall|k: int| 0 <= k < i ==> b@[k] == t@[k],
                decreases b.len() - i,
            {
                if b[i] != t[i] {
                    assert(b@[i as int] != t@[i as int]);
                    return true;
                }
                i = i + 1;
            }
            assert(b@ =~= t@);
            false
        },
    }
}

/// The options of `generate`.
#[derive(Debug, Clone)]
pub struct Options {
    /// Another configuration file.
    pub config: Option<String>,
}

impl Default for Options {
    fn default() -> (r: Options)
        ensures
            r.config is None,
    {
        Options { config: None }
    }
}

} // verus!
