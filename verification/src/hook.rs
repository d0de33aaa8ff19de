//! The shell hook: which executables the project offers.

use vstd::prelude::*;

use crate::attr::{attrname_views, find_bin_attrnames, AttrKind, Attrname, PathAttrset};
use crate::text::{lex_sorted, sort_strings, str_views};

verus! {

proof fn lemma_same_multiset_contains(a: Seq<Seq<char>>, b: Seq<Seq<char>>)
    requires
        a.to_multiset() == b.to_multiset(),
        b.no_duplicates(),
    ensures
        a.no_duplicates(),
        forall|k: Seq<char>| #[trigger] a.contains(k) <==> b.contains(k),
{
    a.to_multiset_ensures();
    b.to_multiset_ensures();
    b.lemma_multiset_has_no_duplicates();
    a.lemma_multiset_has_no_duplicates_conv();
    assert forall|k: Seq<char>| #[trigger] a.contains(k) <==> b.contains(k) by {
        vstd::seq_lib::to_multiset_contains(a, k);
        vstd::seq_lib::to_multiset_contains(b, k);
    }
}

/// The project's executables, sorted by handle, each once.
pub fn hook(attrset: &PathAttrset) -> (r: Vec<Attrname>)
    ensures
        lex_sorted(attrname_views(r@)),
        attrname_views(r@).no_duplicates(),
        forall|k: Seq<char>| #[trigger]
            attrname_views(r@).contains(k) <==> (attrset@.contains_key(k) && attrset@[k].1
                == AttrKind::Bin),
{
    let bins = find_bin_attrnames(attrset);
    let mut names: Vec<String> = Vec::new();
    let mut i: usize = 0;
    while i < bins.len()
        invariant
            i <= bins.len(),
            str_views(names@) == attrname_views(bins@).take(i as int),
        decreases bins.len() - i,
    {
        let t = bins[i].to_text();
        let ghost before = names@;
        names.push(t);
        proof {
            assert(names@ == before.push(t));
            assert(str_views(names@) =~= str_views(before).push(bins@[i as int]@));
            assert(str_views(names@) =~= attrname_views(bins@).take(i + 1));
        }
        i = i + 1;
    }
    proof {
        assert(attrname_views(bins@).take(bins@.len() as int) =~= attrname_views(bins@));
    }
    let sorted = sort_strings(names);
    let mut out: Vec<Attrname> = Vec::new();
    let mut j: usize = 0;
    while j < sorted.len()
        invariant
            j <= sorted.len(),
            attrname_views(out@) == str_views(sorted@).take(j as int),
        decreases sorted.len() - j,
    {
        let a = Attrname(sorted[j].clone());
        let ghost before = out@;
        out.push(a);
        proof {
            assert(out@ == before.push(a));
            assert(attrname_views(out@) =~= attrname_views(before).push(sorted@[j as int]@));
            assert(attrname_views(out@) =~= str_views(sorted@).take(j + 1));
        }
        j = j + 1;
    }
    proof {
        assert(str_views(sorted@).take(sorted@.len() as int) =~= str_views(sorted@));
        lemma_same_multiset_contains(str_views(sorted@), attrname_views(bins@));
    }
    out
}

/// The options of `hook`.
#[derive(Debug, Clone)]
pub struct Options {
    /// Another configuration file.
    pub config: Option<String>,
}

impl Default for Options {
    fn default() -> (r: Options)
        ensures
            r.config is None,
    {
        Options { config: None }
    }
}

} // verus!
