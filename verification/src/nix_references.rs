//! The `nix-store --query --requisites` command: its arguments, and the
//! store paths its output lists.

use vstd::prelude::*;

use crate::nix_store_path::{classify_store_path, is_store_path, NixStorePath, StorePathView};
use crate::text::{ascii_words, decode_lossy, split_ascii_whitespace, str_views, utf8_lossy};

verus! {

/// A query of everything that some store paths need.
#[derive(Debug)]
pub struct NixReferencesCommand<'a> {
    store_paths: &'a [NixStorePath],
}

/// The views of a sequence of store paths.
pub open spec fn store_views(v: Seq<NixStorePath>) -> Seq<StorePathView> {
    v.map_values(|p: NixStorePath| p@)
}

impl<'a> View for NixReferencesCommand<'a> {
    type V = Seq<StorePathView>;

    closed spec fn view(&self) -> Seq<StorePathView> {
        store_views(self.store_paths@)
    }
}

/// Why the query failed.
#[derive(Debug)]
pub enum NixReferencesError {
    /// The command could not be started or waited for (the command line and
    /// the reason).
    Command { command_string: String, io_err: String },
    /// The command failed (what it wrote to stderr).
    Failed(String),
    /// The output lists something that is not a store path.
    NotAStorePath(String),
}

/// The store paths that the query listed.
#[derive(Debug)]
pub struct NixReferencesOutput {
    pub store_paths: Vec<NixStorePath>,
}

/// `--query`
pub open spec fn arg_query() -> Seq<char> {
    seq!['-', '-', 'q', 'u', 'e', 'r', 'y']
}

/// `--requisites`
pub open spec fn arg_requisites() -> Seq<char> {
    seq!['-', '-', 'r', 'e', 'q', 'u', 'i', 's', 'i', 't', 'e', 's']
}

/// The arguments of the query: the two flags, then each store path.
pub open spec fn references_args(paths: Seq<StorePathView>) -> Seq<Seq<char>> {
    seq![arg_query(), arg_requisites()] + paths.map_values(|p: StorePathView| p.text())
}

/// What the words of the output say: each classified as a store path, or
/// the first word that is not one.
pub open spec fn listed_paths(words: Seq<Seq<char>>) -> Result<Seq<StorePathView>, Seq<char>>
    decreases words.len(),
{
    if words.len() == 0 {
        Ok(seq![])
    } else {
        match listed_paths(words.drop_last()) {
            Ok(r) => if is_store_path(words.last()) {
                Ok(r.push(classify_store_path(words.last())))
            } else {
                Err(words.last())
            },
            Err(w) => Err(w),
        }
    }
}

impl<'a> NixReferencesCommand<'a> {
    /// A query of what `store_paths` need.
    pub fn new(store_paths: &'a [NixStorePath]) -> (r: NixReferencesCommand<'a>)
        ensures
            r@ == store_views(store_paths@),
    {
        NixReferencesCommand { store_paths }
    }

    /// The arguments the command is run with (see `references_args`).
    pub fn args(&self) -> (r: Vec<String>)
        ensures
            str_views(r@) == references_args(self@),
    {
        let q: &str = "--query";
        let rq: &str = "--requisites";
        proof {
            reveal_strlit("--query");
            reveal_strlit("--requisites");
            assert(q@ =~= arg_query());
            assert(rq@ =~= arg_requisites());
        }
        let mut args: Vec<String> = Vec::new();
        args.push(q.to_owned());
        args.push(rq.to_owned());
        let ghost texts = self@.map_values(|p: StorePathView| p.text());
        proof {
            assert(str_views(args@) =~= seq![arg_query(), arg_requisites()]);
        }
        let mut i: usize = 0;
        while i < self.store_paths.len()
            invariant
                i <= self.store_paths.len(),
                texts == store_views(self.store_paths@).map_values(|p: StorePathView| p.text()),
                str_views(args@) == seq![arg_query(), arg_requisites()] + texts.take(i as int),
            decreases self.store_paths.len() - i,
        {
            let ghost before = str_views(args@);
            args.push(self.store_paths[i].as_str().to_owned());
            proof {
                assert(texts.take(i + 1) =~= texts.take(i as int).push(texts[i as int]));
                assert(str_views(args@) =~= before.push(texts[i as int]));
            }
            i = i + 1;
        }
        proof {
            assert(texts.take(i as int) =~= texts);
        }
        args
    }

    /// The store paths the query listed, given how the command ended: its
    /// stderr when it failed, otherwise the words of its stdout, each of
    /// which must be a store path.
    pub fn output(success: bool, stdout: &[u8], stderr: &[u8]) -> (r: Result<
        NixReferencesOutput,
        NixReferencesError,
    >)
        ensures
            !success ==> (r matches Err(NixReferencesError::Failed(m)) && m@ == utf8_lossy(
                stderr@,
            )),
            success ==> match (listed_paths(ascii_words(utf8_lossy(stdout@))), r) {
                (Ok(ps), Ok(o)) => store_views(o.store_paths@) == ps,
                (Err(w), Err(NixReferencesError::NotAStorePath(x))) => x@ == w,
                _ => false,
            },
    {
        if !success {
            return Err(NixReferencesError::Failed(decode_lossy(stderr)));
        }
        let text = decode_lossy(stdout);
        let words = split_ascii_whitespace(text.as_str());
        let ghost ws = str_views(words@);
        let mut out: Vec<NixStorePath> = Vec::new();
        let mut i: usize = 0;
        proof {
            assert(ws.take(0) =~= Seq::<Seq<char>>::empty());
            assert(store_views(out@) =~= Seq::<StorePathView>::empty());
        }
        while i < words.len()
            invariant
                i <= words.len(),
                success,
                ws == str_views(words@),
                ws == ascii_words(utf8_lossy(stdout@)),
                listed_paths(ws.take(i as int)) == Ok::<Seq<StorePathView>, Seq<char>>(
                    store_views(out@),
                ),
            decreases words.len() - i,
        {
            let ghost t = ws.take(i + 1);
            proof {
                assert(t.drop_last() =~= ws.take(i as int));
                assert(t.last() == words@[i as int]@);
            }
            let w = words[i].clone();
            match NixStorePath::parse(w) {
                Some(p) => {
                    let ghost before = store_views(out@);
                    out.push(p);
                    proof {
                        assert(store_views(out@) =~= before.push(out@.last()@));
                    }
                },
                None => {
                    proof {
                        lemma_listed_err(ws, i + 1);
                    }
                    return Err(NixReferencesError::NotAStorePath(words[i].clone()));
                },
            }
            i = i + 1;
        }
        proof {
            assert(ws.take(words.len() as int) =~= ws);
        }
        Ok(NixReferencesOutput { store_paths: out })
    }
}

/// Once a prefix of the words holds a word that is not a store path, the
/// whole does, and it is the same word.
proof fn lemma_listed_err(words: Seq<Seq<char>>, n: int)
    requires
        0 <= n <= words.len(),
        listed_paths(words.take(n)) is Err,
    ensures
        listed_paths(words) == listed_paths(words.take(n)),
    decreases words.len(),
{
    if n == words.len() {
        assert(words.take(n) =~= words);
    } else {
        assert(words.drop_last().take(n) =~= words.take(n));
        lemma_listed_err(words.drop_last(), n);
    }
}

} // verus!
