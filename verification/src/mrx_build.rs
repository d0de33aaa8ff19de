//! What `build` does besides running `nix build`: the paths it prints, and
//! the scripts it writes into the project's `bin` directory.

use vstd::prelude::*;

use crate::attr::Attrname;
use crate::config::{dir_of, state_dir_name, Config};
use crate::nix_build::{output_views, BuildOutputView, NixBuildCommand, NixBuildOutput};
use crate::nix_store_path::StorePathView;
use crate::path::push_path;
use crate::text::{chars_of, push_all, str_views, string_from_chars};

verus! {

/// The options of `build`.
#[derive(Debug, Clone)]
pub struct Options {
    /// Generate the barrel file first.
    pub generate: bool,
    /// Print the shell hook afterwards (unless `skip_bin`).
    pub hook: bool,
    /// Only run the build: no `bin` directory is prepared.
    pub skip_bin: bool,
    /// Another configuration file.
    pub config: Option<String>,
}

/// Why building failed.
#[derive(Debug)]
pub enum BuildError {
    NoEntrypoint,
    NixBuildCommand,
    BinCacheRefresh(String),
}

/// The build of the configured installables from the entry file; refused
/// when there is no entry file.
pub fn build_command<'a>(config: &'a Config) -> (r: Result<NixBuildCommand<'a>, BuildError>)
    ensures
        match (config.get_entrypoint_view(), r) {
            (Some(e), Ok(c)) => c@ == (e, str_views(config.installables_view())),
            (None, Err(BuildError::NoEntrypoint)) => true,
            _ => false,
        },
{
    let installables = config.get_installables();
    match config.get_entrypoint() {
        Some(e) => Ok(NixBuildCommand::new(e, installables.as_slice())),
        None => Err(BuildError::NoEntrypoint),
    }
}

/// `/bin`
pub open spec fn slash_bin() -> Seq<char> {
    seq!['/', 'b', 'i', 'n']
}

/// The directory that a build output puts on `PATH`: its `bin` output, or
/// else its `out` output's `bin` directory.
pub open spec fn output_bin_dir(o: BuildOutputView) -> Seq<char> {
    match o.0 {
        Some(b) => b.text(),
        None => match o.1 {
            Some(u) => u.text() + slash_bin(),
            None => seq![],
        },
    }
}

/// The `bin` directory of each build output (see `output_bin_dir`).
pub fn built_paths(outputs: Vec<NixBuildOutput>) -> (r: Vec<String>)
    requires
        forall|i: int| 0 <= i < outputs@.len() ==> (#[trigger] outputs@[i]).bin is Some || outputs@[i].out is Some,
    ensures
        r@.len() == outputs@.len(),
        forall|i: int| 0 <= i < r@.len() ==> #[trigger] r@[i]@ == output_bin_dir(output_views(outputs@)[i]),
{
    let ghost ov = output_views(outputs@);
    let mut out: Vec<String> = Vec::new();
    let mut i: usize = 0;
    while i < outputs.len()
        invariant
            i <= outputs.len(),
            ov == output_views(outputs@),
            out@.len() == i,
            forall|k: int| 0 <= k < i ==> #[trigger] out@[k]@ == output_bin_dir(ov[k]),
            forall|k: int| 0 <= k < outputs@.len() ==> (#[trigger] outputs@[k]).bin is Some || outputs@[k].out is Some,
        decreases outputs.len() - i,
    {
        proof {
            assert(ov[i as int] == outputs@[i as int]@);
        }
        let o = &outputs[i];
        let text = match &o.bin {
            Some(b) => {
                let c = chars_of(b.as_str());
                string_from_chars(c.as_slice())
            },
            None => match &o.out {
                Some(u) => {
                    let mut c = chars_of(u.as_str());
                    let bin: [char; 4] = ['/', 'b', 'i', 'n'];
                    push_all(&mut c, bin.as_slice());
                    proof {
                        assert(bin@ =~= slash_bin());
                    }
                    string_from_chars(c.as_slice())
                },
                None => {
                    assert(false);
                    String::new()
                },
            },
        };
        out.push(text);
        i = i + 1;
    }
    out
}

/// `bin`
pub open spec fn bin_name() -> Seq<char> {
    seq!['b', 'i', 'n']
}

/// The project's `bin` directory: `bin` in the state directory.
pub fn bin_dir(config: &Config, parent_exists: bool) -> (r: String)
    ensures
        r@ == push_path(push_path(dir_of(config.path_view(), parent_exists), state_dir_name()), bin_name()),
{
    let state = config.state_dir(parent_exists);
    let s = chars_of(state.as_str());
    let b: [char; 3] = ['b', 'i', 'n'];
    proof {
        assert(b@ =~= bin_name());
    }
    let j = crate::path::join_exec(s.as_slice(), b.as_slice());
    string_from_chars(j.as_slice())
}

/// The paths printed: the `bin` directory first, unless `skip_bin`, then
/// each build output's.
pub fn with_bin_dir(paths: Vec<String>, bin_dir: String, skip_bin: bool) -> (r: Vec<String>)
    ensures
        skip_bin ==> r@ == paths@,
        !skip_bin ==> r@ == seq![bin_dir].add(paths@),
{
    let mut r = paths;
    if !skip_bin {
        let ghost before = r@;
        r.insert(0, bin_dir);
        proof {
            assert(r@ =~= seq![bin_dir].add(before));
        }
    }
    r
}

/// Whether the shell hook is printed: when asked for, and only when there
/// are executables to show (`bin` is not skipped).
pub fn shows_hook(options: &Options) -> (r: bool)
    ensures
        r == (options.hook && !options.skip_bin),
{
    options.hook && !options.skip_bin
}

/// `export __MRX_DERIVATION=`
pub open spec fn export_derivation() -> Seq<char> {
    seq![
        'e',
        'x',
        'p',
        'o',
        'r',
        't',
        ' ',
        '_',
        '_',
        'M',
        'R',
        'X',
        '_',
        'D',
        'E',
        'R',
        'I',
        'V',
        'A',
        'T',
        'I',
        'O',
        'N',
        '=',
    ]
}

/// `export __MRX_THIS_MRX_BIN=`
pub open spec fn export_this_bin() -> Seq<char> {
    seq![
        'e',
        'x',
        'p',
        'o',
        'r',
        't',
        ' ',
        '_',
        '_',
        'M',
        'R',
        'X',
        '_',
        'T',
        'H',
        'I',
        'S',
        '_',
        'M',
        'R',
        'X',
        '_',
        'B',
        'I',
        'N',
        '=',
    ]
}

/// The script written for an executable handle: it exports the handle and
/// the path of this program, then runs the caching script body.
pub open spec fn bin_script_text(attr: Seq<char>, this_exe: Seq<char>, body: Seq<char>) -> Seq<char> {
    export_derivation() + attr + seq!['\n'] + export_this_bin() + this_exe + seq!['\n', '\n'] + body
}

/// The script for an executable handle (see `bin_script_text`).
pub fn bin_script(attr: &Attrname, this_exe: &str, body: &str) -> (r: String)
    ensures
        r@ == bin_script_text(attr@, this_exe@, body@),
{
    let d: &str = "export __MRX_DERIVATION=";
    let t: &str = "export __MRX_THIS_MRX_BIN=";
    proof {
        reveal_strlit("export __MRX_DERIVATION=");
        reveal_strlit("export __MRX_THIS_MRX_BIN=");
        assert(d@ =~= export_derivation());
        assert(t@ =~= export_this_bin());
    }
    let mut out = chars_of(d);
    let a = chars_of(attr.as_str());
    push_all(&mut out, a.as_slice());
    out.push('\n');
    let tc = chars_of(t);
    push_all(&mut out, tc.as_slice());
    let e = chars_of(this_exe);
    push_all(&mut out, e.as_slice());
    out.push('\n');
    out.push('\n');
    let b = chars_of(body);
    push_all(&mut out, b.as_slice());
    proof {
        assert(out@ =~= bin_script_text(attr@, this_exe@, body@));
    }
    string_from_chars(out.as_slice())
}

/// Where an executable handle's script is written: the handle's name in
/// the `bin` directory.
pub fn bin_script_path(bin_dir: &str, attr: &Attrname) -> (r: String)
    ensures
        r@ == push_path(bin_dir@, attr@),
{
    let d = chars_of(bin_dir);
    let a = chars_of(attr.as_str());
    let j = crate::path::join_exec(d.as_slice(), a.as_slice());
    string_from_chars(j.as_slice())
}

} // verus!
