//! The `nix build` command: the arguments and input it is run with, and
//! what its JSON output says was built.

use vstd::prelude::*;

use crate::config::{Entrypoint, EntrypointView};
use crate::json::{
    field, fields_view, items_view, json_document, object_get, opt_json_view, parse_json, JsonValue,
    JsonView,
};
use crate::nix_store_path::{classify_store_path, is_store_path, NixStorePath, StorePathView};
use crate::text::{decode_lossy, join_seqs, join_strings, str_views, utf8_lossy};

verus! {

/// A `nix build` of some installables from the project's entry file.
#[derive(Debug)]
pub struct NixBuildCommand<'a> {
    entrypoint: Entrypoint,
    derivations: &'a [String],
}

impl<'a> View for NixBuildCommand<'a> {
    type V = (EntrypointView, Seq<Seq<char>>);

    closed spec fn view(&self) -> (EntrypointView, Seq<Seq<char>>) {
        (self.entrypoint@, str_views(self.derivations@))
    }
}

/// Why a build failed.
#[derive(Debug)]
pub enum NixBuildError {
    /// The command could not be started or waited for (the command line and
    /// the reason).
    Command { command_string: String, io_err: String },
    /// The output is not what `nix build --json` prints.
    Deserialization,
    /// The command failed (what it wrote to stderr).
    Failed(String),
}

/// What one installable built: its `bin` output and its `out` output, at
/// least one of them present.
#[derive(Debug)]
pub struct NixBuildOutput {
    pub bin: Option<NixStorePath>,
    pub out: Option<NixStorePath>,
}

/// The outputs of an installable, by their abstract form.
pub type BuildOutputView = (Option<StorePathView>, Option<StorePathView>);

/// The abstract form of an optional store path.
pub open spec fn opt_store_view(p: Option<NixStorePath>) -> Option<StorePathView> {
    match p {
        Some(x) => Some(x@),
        None => None,
    }
}

impl View for NixBuildOutput {
    type V = BuildOutputView;

    open spec fn view(&self) -> BuildOutputView {
        (opt_store_view(self.bin), opt_store_view(self.out))
    }
}

/// `build`
pub open spec fn arg_build() -> Seq<char> {
    seq!['b', 'u', 'i', 'l', 'd']
}

/// `--no-warn-dirty`
pub open spec fn arg_no_warn_dirty() -> Seq<char> {
    seq!['-', '-', 'n', 'o', '-', 'w', 'a', 'r', 'n', '-', 'd', 'i', 'r', 't', 'y']
}

/// `--json`
pub open spec fn arg_json() -> Seq<char> {
    seq!['-', '-', 'j', 's', 'o', 'n']
}

/// `--no-link`
pub open spec fn arg_no_link() -> Seq<char> {
    seq!['-', '-', 'n', 'o', '-', 'l', 'i', 'n', 'k']
}

/// `--stdin`
pub open spec fn arg_stdin() -> Seq<char> {
    seq!['-', '-', 's', 't', 'd', 'i', 'n']
}

/// `--file`
pub open spec fn arg_file() -> Seq<char> {
    seq!['-', '-', 'f', 'i', 'l', 'e']
}

/// The arguments of `nix build`: JSON output and no result link, `--stdin`
/// when installables are fed on standard input, and `--file <path>` when
/// the entry file is not a flake.
pub open spec fn build_args(entry: EntrypointView, has_input: bool) -> Seq<Seq<char>> {
    let base = seq![arg_build(), arg_no_warn_dirty(), arg_json(), arg_no_link()];
    let with_input = if has_input {
        base.push(arg_stdin())
    } else {
        base
    };
    if entry.0 {
        with_input
    } else {
        with_input.push(arg_file()).push(entry.1)
    }
}

/// The key `outputs`.
pub open spec fn key_outputs() -> Seq<char> {
    seq!['o', 'u', 't', 'p', 'u', 't', 's']
}

/// The key `bin`.
pub open spec fn key_bin() -> Seq<char> {
    seq!['b', 'i', 'n']
}

/// The key `out`.
pub open spec fn key_out() -> Seq<char> {
    seq!['o', 'u', 't']
}

/// The store path under `key`: absent when the field is missing or not a
/// string; `None` (refused) when the string is not a store path.
pub open spec fn store_field(fields: Seq<(Seq<char>, JsonView)>, key: Seq<char>) -> Option<
    Option<StorePathView>,
> {
    match object_get(fields, key) {
        Some(JsonView::String(s)) => if is_store_path(s) {
            Some(Some(classify_store_path(s)))
        } else {
            None
        },
        _ => Some(None),
    }
}

/// What one entry of the output says: the `bin` and `out` store paths of
/// its `outputs` object; `None` when there is no such object, when neither
/// path is there, or when one is not a store path.
pub open spec fn output_of(item: JsonView) -> Option<BuildOutputView> {
    match item {
        JsonView::Object(f) => match object_get(f, key_outputs()) {
            Some(JsonView::Object(o)) => match (store_field(o, key_bin()), store_field(o, key_out())) {
                (Some(b), Some(u)) => if b is None && u is None {
                    None
                } else {
                    Some((b, u))
                },
                _ => None,
            },
            _ => None,
        },
        _ => None,
    }
}

/// What every entry says, in order; `None` when one of them says nothing.
pub open spec fn outputs_of(items: Seq<JsonView>) -> Option<Seq<BuildOutputView>>
    decreases items.len(),
{
    if items.len() == 0 {
        Some(seq![])
    } else {
        match (outputs_of(items.drop_last()), output_of(items.last())) {
            (Some(r), Some(o)) => Some(r.push(o)),
            _ => None,
        }
    }
}

/// What a whole output document says: it must be an array of entries.
pub open spec fn document_outputs(doc: Option<JsonView>) -> Option<Seq<BuildOutputView>> {
    match doc {
        Some(JsonView::Array(items)) => outputs_of(items),
        _ => None,
    }
}

/// Once some prefix of the entries says nothing, so do all of them.
proof fn lemma_outputs_none(items: Seq<JsonView>, n: int)
    requires
        0 <= n <= items.len(),
        outputs_of(items.take(n)) is None,
    ensures
        outputs_of(items) is None,
    decreases items.len(),
{
    if n == items.len() {
        assert(items.take(n) =~= items);
    } else {
        assert(items.drop_last().take(n) =~= items.take(n));
        lemma_outputs_none(items.drop_last(), n);
    }
}

/// The views of a sequence of build outputs.
pub open spec fn output_views(v: Seq<NixBuildOutput>) -> Seq<BuildOutputView> {
    v.map_values(|o: NixBuildOutput| o@)
}

/// The store path under `key` (see `store_field`).
fn store_path_field(fields: &Vec<(String, JsonValue)>, key: &str) -> (r: Option<
    Option<NixStorePath>,
>)
    ensures
        match r {
            Some(p) => store_field(fields_view(fields@), key@) == Some(opt_store_view(p)),
            None => store_field(fields_view(fields@), key@) is None,
        },
{
    match field(fields, key) {
        Some(JsonValue::String(s)) => match NixStorePath::parse(s.clone()) {
            Some(p) => Some(Some(p)),
            None => None,
        },
        _ => Some(None),
    }
}

impl NixBuildOutput {
    /// What one entry of the output says (see `output_of`).
    pub fn from_json(item: &JsonValue) -> (r: Option<NixBuildOutput>)
        ensures
            match r {
                Some(o) => output_of(item@) == Some(o@),
                None => output_of(item@) is None,
            },
    {
        let outputs: &str = "outputs";
        let bin: &str = "bin";
        let out: &str = "out";
        proof {
            reveal_strlit("outputs");
            reveal_strlit("bin");
            reveal_strlit("out");
            assert(outputs@ =~= key_outputs());
            assert(bin@ =~= key_bin());
            assert(out@ =~= key_out());
        }
        match item {
            JsonValue::Object(f) => match field(f, outputs) {
                Some(JsonValue::Object(o)) => {
                    match (store_path_field(o, bin), store_path_field(o, out)) {
                        (Some(b), Some(u)) => {
                            if b.is_none() && u.is_none() {
                                None
                            } else {
                                Some(NixBuildOutput { bin: b, out: u })
                            }
                        },
                        _ => None,
                    }
                },
                _ => None,
            },
            _ => None,
        }
    }
}

/// Every entry of an output document (see `document_outputs`).
pub fn outputs_from_json(doc: Option<JsonValue>) -> (r: Option<Vec<NixBuildOutput>>)
    ensures
        match r {
            Some(v) => document_outputs(opt_json_view(doc)) == Some(output_views(v@)),
            None => document_outputs(opt_json_view(doc)) is None,
        },
{
    let ghost whole = document_outputs(opt_json_view(doc));
    let items = match doc {
        Some(JsonValue::Array(items)) => items,
        _ => {
            return None;
        },
    };
    let ghost iv = items_view(items@);
    proof {
        crate::json::lemma_items_view(items@);
    }
    let mut out: Vec<NixBuildOutput> = Vec::new();
    let mut i: usize = 0;
    proof {
        assert(iv.take(0) =~= Seq::<JsonView>::empty());
        assert(output_views(out@) =~= Seq::<BuildOutputView>::empty());
    }
    while i < items.len()
        invariant
            i <= items.len(),
            iv == items_view(items@),
            iv.len() == items@.len(),
            forall|k: int| 0 <= k < items@.len() ==> #[trigger] iv[k] == items@[k]@,
            outputs_of(iv.take(i as int)) == Some(output_views(out@)),
            whole == outputs_of(iv),
            whole == document_outputs(opt_json_view(doc)),
        decreases items.len() - i,
    {
        proof {
            assert(iv.take(i + 1).drop_last() =~= iv.take(i as int));
            assert(iv.take(i + 1).last() == items@[i as int]@);
        }
        match NixBuildOutput::from_json(&items[i]) {
            Some(o) => {
                let ghost before = output_views(out@);
                out.push(o);
                proof {
                    assert(output_views(out@) =~= before.push(out@.last()@));
                }
            },
            None => {
                proof {
                    let t = iv.take(i + 1);
                    assert(output_of(t.last()) is None);
                    assert(outputs_of(t) is None);
                    lemma_outputs_none(iv, i + 1);
                }
                return None;
            },
        }
        i = i + 1;
    }
    proof {
        assert(iv.take(iv.len() as int) =~= iv);
    }
    Some(out)
}

impl<'a> NixBuildCommand<'a> {
    /// A build of `derivations` from `entrypoint`.
    pub fn new(entrypoint: Entrypoint, derivations: &'a [String]) -> (r: NixBuildCommand<'a>)
        ensures
            r@ == (entrypoint@, str_views(derivations@)),
    {
        NixBuildCommand { entrypoint, derivations }
    }

    /// The arguments the command is run with (see `build_args`).
    pub fn args(&self) -> (r: Vec<String>)
        ensures
            str_views(r@) == build_args(self@.0, self@.1.len() > 0),
    {
        let a_build: &str = "build";
        let a_dirty: &str = "--no-warn-dirty";
        let a_json: &str = "--json";
        let a_link: &str = "--no-link";
        let a_stdin: &str = "--stdin";
        let a_file: &str = "--file";
        proof {
            reveal_strlit("build");
            reveal_strlit("--no-warn-dirty");
            reveal_strlit("--json");
            reveal_strlit("--no-link");
            reveal_strlit("--stdin");
            reveal_strlit("--file");
            assert(a_build@ =~= arg_build());
            assert(a_dirty@ =~= arg_no_warn_dirty());
            assert(a_json@ =~= arg_json());
            assert(a_link@ =~= arg_no_link());
            assert(a_stdin@ =~= arg_stdin());
            assert(a_file@ =~= arg_file());
        }
        let mut args: Vec<String> = Vec::new();
        args.push(a_build.to_owned());
        args.push(a_dirty.to_owned());
        args.push(a_json.to_owned());
        args.push(a_link.to_owned());
        let ghost base = str_views(args@);
        proof {
            assert(args@.len() == 4);
            assert(base[0] == arg_build());
            assert(base[1] == arg_no_warn_dirty());
            assert(base[2] == arg_json());
            assert(base[3] == arg_no_link());
            assert(base =~= seq![arg_build(), arg_no_warn_dirty(), arg_json(), arg_no_link()]);
        }
        if self.derivations.len() > 0 {
            args.push(a_stdin.to_owned());
            proof {
                assert(str_views(args@) =~= base.push(arg_stdin()));
            }
        }
        let ghost with_input = str_views(args@);
        match &self.entrypoint {
            Entrypoint::Flake(_) => {},
            Entrypoint::File(p) => {
                args.push(a_file.to_owned());
                args.push(p.clone());
                proof {
                    assert(str_views(args@) =~= with_input.push(arg_file()).push(p@));
                }
            },
        }
        args
    }

    /// What is fed on standard input: the installables, one per line;
    /// nothing when there are none.
    pub fn stdin_input(&self) -> (r: Option<String>)
        ensures
            match r {
                Some(s) => self@.1.len() > 0 && s@ == join_seqs(self@.1, seq!['\n']),
                None => self@.1.len() == 0,
            },
    {
        if self.derivations.len() == 0 {
            None
        } else {
            let nl: &str = "\n";
            proof {
                reveal_strlit("\n");
                assert(nl@ =~= seq!['\n']);
            }
            Some(join_strings(self.derivations, nl))
        }
    }

    /// The outputs of the build, given how the command ended: its stderr
    /// when it failed, otherwise its stdout read as a JSON document (`None`
    /// when that is not JSON).
    pub fn outputs(success: bool, stderr: &[u8], stdout_json: Option<JsonValue>) -> (r: Result<
        Vec<NixBuildOutput>,
        NixBuildError,
    >)
        ensures
            !success ==> (r matches Err(NixBuildError::Failed(m)) && m@ == utf8_lossy(stderr@)),
            success ==> match (document_outputs(opt_json_view(stdout_json)), r) {
                (Some(o), Ok(v)) => output_views(v@) == o,
                (None, Err(NixBuildError::Deserialization)) => true,
                _ => false,
            },
    {
        if !success {
            return Err(NixBuildError::Failed(decode_lossy(stderr)));
        }
        match outputs_from_json(stdout_json) {
            Some(v) => Ok(v),
            None => Err(NixBuildError::Deserialization),
        }
    }

    /// The outputs of the build, given how the command ended: its stderr
    /// when it failed, otherwise its stdout, decoded as UTF-8 (invalid
    /// sequences replaced) and read as a JSON document by serde_json (see
    /// `outputs`).
    pub fn outputs_from_stdout(success: bool, stdout: &[u8], stderr: &[u8]) -> (r: Result<
        Vec<NixBuildOutput>,
        NixBuildError,
    >)
        ensures
            !success ==> (r matches Err(NixBuildError::Failed(m)) && m@ == utf8_lossy(stderr@)),
            success ==> match (document_outputs(json_document(utf8_lossy(stdout@))), r) {
                (Some(o), Ok(v)) => output_views(v@) == o,
                (None, Err(NixBuildError::Deserialization)) => true,
                _ => false,
            },
    {
        if !success {
            return Err(NixBuildError::Failed(decode_lossy(stderr)));
        }
        let text = decode_lossy(stdout);
        let document = parse_json(text.as_str());
        Self::outputs(success, stderr, document)
    }
}

/// The command line, for messages: the arguments joined by spaces.
pub fn command_string(args: &[String]) -> (r: String)
    ensures
        r@ == join_seqs(str_views(args@), seq![' ']),
{
    let sp: &str = " ";
    proof {
        reveal_strlit(" ");
        assert(sp@ =~= seq![' ']);
    }
    join_strings(args, sp)
}

} // verus!
