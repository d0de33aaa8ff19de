//! Character-level helpers on which the rest of the library is built:
//! prefixes, substrings, replacement, joining and lexicographic order.

use vstd::prelude::*;

verus! {

/// `p` is a prefix of `s`.
pub open spec fn is_prefix(p: Seq<char>, s: Seq<char>) -> bool {
    p.len() <= s.len() && s.take(p.len() as int) == p
}

/// `p` is a suffix of `s`.
pub open spec fn is_suffix(p: Seq<char>, s: Seq<char>) -> bool {
    p.len() <= s.len() && s.skip(s.len() - p.len()) == p
}

/// `p` occurs in `s` starting at index `i`.
pub open spec fn occurs_at(s: Seq<char>, p: Seq<char>, i: int) -> bool {
    0 <= i && i + p.len() <= s.len() && s.subrange(i, i + p.len()) == p
}

/// `p` occurs somewhere in `s`.
pub open spec fn contains_seq(s: Seq<char>, p: Seq<char>) -> bool {
    exists|i: int| occurs_at(s, p, i)
}

/// Replaces every non-overlapping occurrence of `from` in `s`, scanning from
/// the left, by `to` (the behaviour of `str::replace` for a non-empty pattern).
pub open spec fn replace_all(s: Seq<char>, from: Seq<char>, to: Seq<char>) -> Seq<char>
    decreases s.len(),
{
    if from.len() == 0 || s.len() < from.len() {
        s
    } else if s.take(from.len() as int) == from {
        to + replace_all(s.skip(from.len() as int), from, to)
    } else {
        seq![s[0]] + replace_all(s.skip(1), from, to)
    }
}

/// The parts joined with `sep` between consecutive parts.
pub open spec fn join_seqs(parts: Seq<Seq<char>>, sep: Seq<char>) -> Seq<char>
    decreases parts.len(),
{
    if parts.len() == 0 {
        seq![]
    } else if parts.len() == 1 {
        parts[0]
    } else {
        join_seqs(parts.drop_last(), sep) + sep + parts.last()
    }
}

/// Strict lexicographic order on character sequences (by code point), the
/// order of `str` and `String` comparison.
pub open spec fn lex_lt(a: Seq<char>, b: Seq<char>) -> bool
    decreases a.len(),
{
    if a.len() == 0 {
        b.len() > 0
    } else if b.len() == 0 {
        false
    } else if a[0] != b[0] {
        (a[0] as int) < (b[0] as int)
    } else {
        lex_lt(a.skip(1), b.skip(1))
    }
}

/// Non-strict lexicographic order.
pub open spec fn lex_le(a: Seq<char>, b: Seq<char>) -> bool {
    a == b || lex_lt(a, b)
}

/// Collects the characters of `s` into a vector.
pub fn chars_of(s: &str) -> (out: Vec<char>)
    ensures
        out@ == s@,
{
    let mut out: Vec<char> = Vec::new();
    for c in it: s.chars()
        invariant
            out@ == it.seq().take(it.index() as int),
    {
        out.push(c);
    }
    out
}

/// Builds a `String` from a sequence of characters (`String::from_iter`).
#[verifier::external_body]
pub(crate) fn string_from_chars(chars: &[char]) -> (s: String)
    ensures
        s@ == chars@,
{
    String::from_iter(chars.iter())
}

/// Copies a slice of characters into a vector.
pub fn copy_chars(s: &[char]) -> (out: Vec<char>)
    ensures
        out@ == s@,
{
    let mut out: Vec<char> = Vec::new();
    let mut i: usize = 0;
    while i < s.len()
        invariant
            i <= s.len(),
            out@ == s@.take(i as int),
        decreases s.len() - i,
    {
        out.push(s[i]);
        i = i + 1;
    }
    out
}

/// Appends `extra` to `out`.
pub fn push_all(out: &mut Vec<char>, extra: &[char])
    ensures
        final(out)@ == old(out)@ + extra@,
{
    let ghost start = out@;
    let mut i: usize = 0;
    while i < extra.len()
        invariant
            i <= extra.len(),
            out@ == start + extra@.take(i as int),
        decreases extra.len() - i,
    {
        out.push(extra[i]);
        i = i + 1;
    }
}

/// Whether `s` occurs in `hay` at index `at`.
pub fn occurs_at_exec(hay: &[char], s: &[char], at: usize) -> (b: bool)
    ensures
        b == occurs_at(hay@, s@, at as int),
{
    if at > hay.len() || s.len() > hay.len() - at {
        return false;
    }
    let mut j: usize = 0;
    while j < s.len()
        invariant
            at + s.len() <= hay.len(),
            j <= s.len(),
            forall|k: int| 0 <= k < j ==> hay[at + k] == s[k],
        decreases s.len() - j,
    {
        if hay[at + j] != s[j] {
            assert(hay@.subrange(at as int, at + s.len())[j as int] != s@[j as int]);
            return false;
        }
        j = j + 1;
    }
    assert(hay@.subrange(at as int, at + s.len()) =~= s@);
    true
}

/// Whether `p` is a prefix of `s`.
pub fn starts_with(s: &[char], p: &[char]) -> (b: bool)
    ensures
        b == is_prefix(p@, s@),
{
    let b = occurs_at_exec(s, p, 0);
    proof {
        if b {
            assert(s@.take(p@.len() as int) =~= s@.subrange(0, p@.len() as int));
        } else if is_prefix(p@, s@) {
            assert(s@.take(p@.len() as int) =~= s@.subrange(0, p@.len() as int));
        }
    }
    b
}

/// Whether `p` is a suffix of `s`.
pub fn ends_with(s: &[char], p: &[char]) -> (b: bool)
    ensures
        b == is_suffix(p@, s@),
{
    if p.len() > s.len() {
        return false;
    }
    let at = s.len() - p.len();
    let b = occurs_at_exec(s, p, at);
    proof {
        assert(s@.skip(at as int) =~= s@.subrange(at as int, at + p@.len()));
    }
    b
}

/// Whether `p` occurs anywhere in `s`.
pub fn contains(s: &[char], p: &[char]) -> (b: bool)
    ensures
        b == contains_seq(s@, p@),
{
    if p.len() > s.len() {
        return false;
    }
    let last = s.len() - p.len();
    let mut i: usize = 0;
    while i <= last
        invariant
            last + p.len() == s.len(),
            forall|k: int| 0 <= k < i ==> !occurs_at(s@, p@, k),
        decreases last + 1 - i,
    {
        if occurs_at_exec(s, p, i) {
            return true;
        }
        if i == last {
            assert forall|k: int| !occurs_at(s@, p@, k) by {
                if 0 <= k && k + p.len() <= s.len() {
                    assert(k <= last);
                }
            }
            return false;
        }
        i = i + 1;
    }
    false
}

/// Whether `c` occurs in `s`.
pub fn has_char(s: &[char], c: char) -> (b: bool)
    ensures
        b == s@.contains(c),
{
    let mut i: usize = 0;
    while i < s.len()
        invariant
            i <= s.len(),
            forall|k: int| 0 <= k < i ==> s[k] != c,
        decreases s.len() - i,
    {
        if s[i] == c {
            return true;
        }
        i = i + 1;
    }
    false
}

proof fn lemma_replace_step_match(s: Seq<char>, from: Seq<char>, to: Seq<char>)
    requires
        from.len() > 0,
        s.len() >= from.len(),
        s.take(from.len() as int) == from,
    ensures
        replace_all(s, from, to) == to + replace_all(s.skip(from.len() as int), from, to),
{
}

proof fn lemma_replace_step_other(s: Seq<char>, from: Seq<char>, to: Seq<char>)
    requires
        from.len() > 0,
        s.len() >= 1,
        !(s.len() >= from.len() && s.take(from.len() as int) == from),
    ensures
        replace_all(s, from, to) == seq![s[0]] + replace_all(s.skip(1), from, to),
{
    if s.len() < from.len() {
        assert(replace_all(s, from, to) == s);
        let t = s.skip(1);
        assert(t.len() < from.len());
        assert(replace_all(t, from, to) == t);
        assert(seq![s[0]] + t =~= s);
    }
}

/// `str::replace` on character sequences, for a non-empty pattern.
pub fn replace_chars(s: &[char], from: &[char], to: &[char]) -> (out: Vec<char>)
    requires
        from@.len() > 0,
    ensures
        out@ == replace_all(s@, from@, to@),
{
    let mut out: Vec<char> = Vec::new();
    let mut i: usize = 0;
    assert(s@.skip(0) =~= s@);
    while i < s.len()
        invariant
            from@.len() > 0,
            i <= s.len(),
            out@ + replace_all(s@.skip(i as int), from@, to@) == replace_all(s@, from@, to@),
        decreases s.len() - i,
    {
        let ghost rest = s@.skip(i as int);
        if occurs_at_exec(s, from, i) {
            proof {
                assert(rest.take(from@.len() as int) =~= s@.subrange(i as int, i + from@.len()));
                lemma_replace_step_match(rest, from@, to@);
                assert(rest.skip(from@.len() as int) =~= s@.skip(i + from@.len()));
            }
            push_all(&mut out, to);
            i = i + from.len();
            proof {
                assert(out@ + replace_all(s@.skip(i as int), from@, to@) =~= replace_all(
                    s@,
                    from@,
                    to@,
                ));
            }
        } else {
            proof {
                if rest.len() >= from@.len() && rest.take(from@.len() as int) == from@ {
                    assert(rest.take(from@.len() as int) =~= s@.subrange(
                        i as int,
                        i + from@.len(),
                    ));
                }
                lemma_replace_step_other(rest, from@, to@);
                assert(rest.skip(1) =~= s@.skip(i + 1));
                assert(rest[0] == s@[i as int]);
            }
            out.push(s[i]);
            i = i + 1;
            proof {
                assert(out@ + replace_all(s@.skip(i as int), from@, to@) =~= replace_all(
                    s@,
                    from@,
                    to@,
                ));
            }
        }
    }
    proof {
        assert(s@.skip(i as int) =~= Seq::<char>::empty());
        assert(out@ + Seq::<char>::empty() =~= out@);
    }
    out
}

/// Joins the parts with `sep` between consecutive parts.
pub fn join_chars(parts: &Vec<Vec<char>>, sep: &[char]) -> (out: Vec<char>)
    ensures
        out@ == join_seqs(parts@.map_values(|p: Vec<char>| p@), sep@),
{
    let ghost views = parts@.map_values(|p: Vec<char>| p@);
    let mut out: Vec<char> = Vec::new();
    let mut i: usize = 0;
    while i < parts.len()
        invariant
            i <= parts.len(),
            views == parts@.map_values(|p: Vec<char>| p@),
            out@ == join_seqs(views.take(i as int), sep@),
        decreases parts.len() - i,
    {
        proof {
            assert(views.take(i + 1).drop_last() =~= views.take(i as int));
            assert(views.take(i + 1).last() == parts@[i as int]@);
        }
        if i > 0 {
            push_all(&mut out, sep);
        } else {
            assert(views.take(1).len() == 1);
        }
        push_all(&mut out, parts[i].as_slice());
        i = i + 1;
    }
    assert(views.take(parts.len() as int) =~= views);
    out
}

/// Strict lexicographic comparison of two character sequences.
pub fn lex_less(a: &[char], b: &[char]) -> (r: bool)
    ensures
        r == lex_lt(a@, b@),
{
    let mut i: usize = 0;
    assert(a@.skip(0) =~= a@);
    assert(b@.skip(0) =~= b@);
    while i < a.len() && i < b.len() && a[i] == b[i]
        invariant
            i <= a.len(),
            i <= b.len(),
            lex_lt(a@, b@) == lex_lt(a@.skip(i as int), b@.skip(i as int)),
        decreases a.len() - i,
    {
        proof {
            let x = a@.skip(i as int);
            let y = b@.skip(i as int);
            assert(x.skip(1) =~= a@.skip(i + 1));
            assert(y.skip(1) =~= b@.skip(i + 1));
        }
        i = i + 1;
    }
    proof {
        let x = a@.skip(i as int);
        let y = b@.skip(i as int);
        if i < a.len() && i < b.len() {
            assert(x[0] == a@[i as int]);
            assert(y[0] == b@[i as int]);
        }
    }
    if i == a.len() {
        i < b.len()
    } else if i == b.len() {
        false
    } else {
        a[i] < b[i]
    }
}


proof fn lemma_lex_irreflexive(a: Seq<char>)
    ensures
        !lex_lt(a, a),
    decreases a.len(),
{
    if a.len() > 0 {
        lemma_lex_irreflexive(a.skip(1));
    }
}

proof fn lemma_lex_asymmetric(a: Seq<char>, b: Seq<char>)
    requires
        lex_lt(a, b),
    ensures
        !lex_lt(b, a),
    decreases a.len(),
{
    if a.len() > 0 && b.len() > 0 && a[0] == b[0] {
        lemma_lex_asymmetric(a.skip(1), b.skip(1));
    }
}

proof fn lemma_lex_transitive(a: Seq<char>, b: Seq<char>, c: Seq<char>)
    requires
        lex_lt(a, b),
        lex_lt(b, c),
    ensures
        lex_lt(a, c),
    decreases a.len(),
{
    if a.len() > 0 && b.len() > 0 && c.len() > 0 && a[0] == b[0] && b[0] == c[0] {
        lemma_lex_transitive(a.skip(1), b.skip(1), c.skip(1));
    }
}

proof fn lemma_lex_total(a: Seq<char>, b: Seq<char>)
    requires
        a != b,
    ensures
        lex_lt(a, b) || lex_lt(b, a),
    decreases a.len(),
{
    if a.len() > 0 && b.len() > 0 && a[0] == b[0] {
        if a.skip(1) == b.skip(1) {
            assert(a =~= seq![a[0]] + a.skip(1));
            assert(b =~= seq![b[0]] + b.skip(1));
        }
        lemma_lex_total(a.skip(1), b.skip(1));
    } else if a.len() == 0 && b.len() == 0 {
        assert(a =~= b);
    } else if a.len() > 0 && b.len() > 0 {
        assert((a[0] as int) != (b[0] as int));
    }
}

/// Lexicographic order is a total order.
pub proof fn lemma_lex_order(a: Seq<char>, b: Seq<char>, c: Seq<char>)
    ensures
        !lex_lt(a, a),
        lex_lt(a, b) ==> !lex_lt(b, a),
        lex_lt(a, b) && lex_lt(b, c) ==> lex_lt(a, c),
        a != b ==> lex_lt(a, b) || lex_lt(b, a),
{
    lemma_lex_irreflexive(a);
    if lex_lt(a, b) {
        lemma_lex_asymmetric(a, b);
        if lex_lt(b, c) {
            lemma_lex_transitive(a, b, c);
        }
    }
    if a != b {
        lemma_lex_total(a, b);
    }
}

/// The views of a sequence of strings.
pub open spec fn str_views(v: Seq<String>) -> Seq<Seq<char>> {
    v.map_values(|s: String| s@)
}

/// Each element is lexicographically at most every later one.
pub open spec fn lex_sorted(v: Seq<Seq<char>>) -> bool {
    forall|i: int, j: int| 0 <= i < j < v.len() ==> lex_le(#[trigger] v[i], #[trigger] v[j])
}

/// Whether two character slices are equal.
pub fn chars_eq(a: &[char], b: &[char]) -> (r: bool)
    ensures
        r == (a@ == b@),
{
    if a.len() != b.len() {
        return false;
    }
    let mut i: usize = 0;
    while i < a.len()
        invariant
            a.len() == b.len(),
            i <= a.len(),
            forall|k: int| 0 <= k < i ==> a@[k] == b@[k],
        decreases a.len() - i,
    {
        if a[i] != b[i] {
            return false;
        }
        i = i + 1;
    }
    assert(a@ =~= b@);
    true
}

/// Whether two strings are equal.
pub fn str_eq(a: &str, b: &str) -> (r: bool)
    ensures
        r == (a@ == b@),
{
    let x = chars_of(a);
    let y = chars_of(b);
    chars_eq(x.as_slice(), y.as_slice())
}

/// Strict lexicographic comparison of two strings.
pub fn str_less(a: &str, b: &str) -> (r: bool)
    ensures
        r == lex_lt(a@, b@),
{
    let x = chars_of(a);
    let y = chars_of(b);
    lex_less(x.as_slice(), y.as_slice())
}

/// Sorts strings in lexicographic order, keeping equal strings in the order
/// they were given (as `sort` does).
pub fn sort_strings(v: Vec<String>) -> (out: Vec<String>)
    ensures
        lex_sorted(str_views(out@)),
        str_views(out@).to_multiset() == str_views(v@).to_multiset(),
{
    let mut out: Vec<String> = Vec::new();
    let mut i: usize = 0;
    proof {
        assert(str_views(v@.take(0)) =~= str_views(out@));
    }
    while i < v.len()
        invariant
            i <= v.len(),
            lex_sorted(str_views(out@)),
            str_views(out@).to_multiset() == str_views(v@.take(i as int)).to_multiset(),
        decreases v.len() - i,
    {
        let x = v[i].clone();
        let mut j: usize = 0;
        while j < out.len() && !str_less(x.as_str(), out[j].as_str())
            invariant
                j <= out.len(),
                forall|k: int| 0 <= k < j ==> lex_le(#[trigger] out@[k]@, x@),
            decreases out.len() - j,
        {
            proof {
                if out@[j as int]@ != x@ {
                    lemma_lex_order(out@[j as int]@, x@, x@);
                }
            }
            j = j + 1;
        }
        let ghost before = str_views(out@);
        proof {
            assert forall|k: int| j <= k < before.len() implies lex_lt(x@, #[trigger] before[k]) by {
                lemma_lex_order(x@, before[j as int], before[k]);
            }
        }
        out.insert(j, x);
        proof {
            let after = str_views(out@);
            before.insert_ensures(j as int, x@);
            assert(after =~= before.insert(j as int, x@));
            assert forall|p: int, q: int| 0 <= p < q < after.len() implies lex_le(
                #[trigger] after[p],
                #[trigger] after[q],
            ) by {
                if q < j {
                } else if p < j && q == j {
                } else if p < j {
                    assert(lex_le(before[p], x@));
                    assert(lex_lt(x@, before[q - 1]));
                    lemma_lex_order(before[p], x@, before[q - 1]);
                } else if p == j {
                    assert(lex_lt(x@, before[q - 1]));
                } else {
                    assert(lex_le(before[p - 1], before[q - 1]));
                }
            }
            assert(before.insert(j as int, x@) =~= before.subrange(0, j as int).push(x@)
                + before.subrange(j as int, before.len() as int));
            vstd::seq_lib::lemma_multiset_commutative(
                before.subrange(0, j as int).push(x@),
                before.subrange(j as int, before.len() as int),
            );
            vstd::seq_lib::lemma_multiset_commutative(
                before.subrange(0, j as int),
                before.subrange(j as int, before.len() as int),
            );
            assert(before.subrange(0, j as int) + before.subrange(j as int, before.len() as int)
                =~= before);
            before.subrange(0, j as int).to_multiset_ensures();
            assert(str_views(v@.take(i + 1)) =~= str_views(v@.take(i as int)).push(x@));
            str_views(v@.take(i as int)).to_multiset_ensures();
        }
        i = i + 1;
    }
    proof {
        assert(v@.take(v.len() as int) =~= v@);
    }
    out
}


/// Index of the first `c` in `f`, if any.
pub open spec fn first_index(f: Seq<char>, c: char) -> Option<int>
    decreases f.len(),
{
    if f.len() == 0 {
        None
    } else if f[0] == c {
        Some(0)
    } else {
        match first_index(f.skip(1), c) {
            Some(i) => Some(i + 1),
            None => None,
        }
    }
}

proof fn lemma_first_index_none(f: Seq<char>, c: char)
    requires
        forall|k: int| 0 <= k < f.len() ==> f[k] != c,
    ensures
        first_index(f, c) is None,
    decreases f.len(),
{
    if f.len() > 0 {
        lemma_first_index_none(f.skip(1), c);
    }
}

proof fn lemma_first_index_at(f: Seq<char>, c: char, i: int)
    requires
        0 <= i < f.len(),
        f[i] == c,
        forall|k: int| 0 <= k < i ==> f[k] != c,
    ensures
        first_index(f, c) == Some(i),
    decreases i,
{
    if i > 0 {
        lemma_first_index_at(f.skip(1), c, i - 1);
    }
}

/// Index of the first `c` in `f`.
pub fn first_index_exec(f: &[char], c: char) -> (out: Option<usize>)
    ensures
        match out {
            Some(i) => first_index(f@, c) == Some(i as int) && i < f@.len(),
            None => first_index(f@, c) is None,
        },
{
    let mut i: usize = 0;
    while i < f.len()
        invariant
            i <= f.len(),
            forall|k: int| 0 <= k < i ==> f[k] != c,
        decreases f.len() - i,
    {
        if f[i] == c {
            proof {
                lemma_first_index_at(f@, c, i as int);
            }
            return Some(i);
        }
        i = i + 1;
    }
    proof {
        lemma_first_index_none(f@, c);
    }
    None
}

/// The last index, below `n`, at which `p` occurs in `s`.
pub open spec fn last_occurrence_below(s: Seq<char>, p: Seq<char>, n: int) -> Option<int>
    decreases n,
{
    if n <= 0 {
        None
    } else if occurs_at(s, p, n - 1) {
        Some(n - 1)
    } else {
        last_occurrence_below(s, p, n - 1)
    }
}

/// The last index at which `p` occurs in `s` (what `rfind` gives).
pub open spec fn last_occurrence(s: Seq<char>, p: Seq<char>) -> Option<int> {
    last_occurrence_below(s, p, s.len() + 1int)
}

proof fn lemma_last_occurrence_below_none(s: Seq<char>, p: Seq<char>, n: int)
    requires
        forall|k: int| 0 <= k < n ==> !occurs_at(s, p, k),
    ensures
        last_occurrence_below(s, p, n) is None,
    decreases n,
{
    if n > 0 {
        lemma_last_occurrence_below_none(s, p, n - 1);
    }
}

proof fn lemma_last_occurrence_below_skip(s: Seq<char>, p: Seq<char>, n: int, m: int)
    requires
        0 <= m <= n,
        forall|k: int| m <= k < n ==> !occurs_at(s, p, k),
    ensures
        last_occurrence_below(s, p, n) == last_occurrence_below(s, p, m),
    decreases n - m,
{
    if n > m {
        lemma_last_occurrence_below_skip(s, p, n - 1, m);
    }
}

/// The last index at which `p` occurs in `s`.
pub fn last_occurrence_exec(s: &[char], p: &[char]) -> (out: Option<usize>)
    ensures
        match out {
            Some(i) => last_occurrence(s@, p@) == Some(i as int) && occurs_at(s@, p@, i as int),
            None => last_occurrence(s@, p@) is None,
        },
{
    if p.len() > s.len() {
        proof {
            lemma_last_occurrence_below_none(s@, p@, s@.len() + 1int);
        }
        return None;
    }
    if p.len() == 0 {
        proof {
            assert(s@.subrange(s@.len() as int, s@.len() as int) =~= p@);
            assert(occurs_at(s@, p@, s@.len() as int));
        }
        return Some(s.len());
    }
    let mut i: usize = s.len() - p.len() + 1;
    proof {
        lemma_last_occurrence_below_skip(s@, p@, s@.len() + 1int, i as int);
    }
    while i > 0
        invariant
            i <= s.len() - p.len() + 1,
            last_occurrence(s@, p@) == last_occurrence_below(s@, p@, i as int),
        decreases i,
    {
        if occurs_at_exec(s, p, i - 1) {
            return Some(i - 1);
        }
        i = i - 1;
    }
    None
}

/// The text of `bytes` read as UTF-8, with every sequence that is not
/// UTF-8 replaced (what `String::from_utf8_lossy` gives).
pub uninterp spec fn utf8_lossy(bytes: Seq<u8>) -> Seq<char>;

/// `String::from_utf8_lossy`: the text of the bytes, with each invalid
/// sequence replaced by U+FFFD; the result depends on the bytes alone, and
/// bytes that are valid UTF-8 are decoded as they stand.
#[verifier::external_body]
pub(crate) fn decode_lossy(bytes: &[u8]) -> (r: String)
    ensures
        r@ == utf8_lossy(bytes@),
        vstd::utf8::valid_utf8(bytes@) ==> r@ == vstd::utf8::decode_utf8(bytes@),
{
    String::from_utf8_lossy(bytes).into_owned()
}

/// The strings joined with `sep` between consecutive ones (`join`).
pub fn join_strings(parts: &[String], sep: &str) -> (r: String)
    ensures
        r@ == join_seqs(str_views(parts@), sep@),
{
    let mut v: Vec<Vec<char>> = Vec::new();
    let mut i: usize = 0;
    while i < parts.len()
        invariant
            i <= parts.len(),
            v@.len() == i,
            forall|k: int| 0 <= k < i ==> #[trigger] v@[k]@ == parts@[k]@,
        decreases parts.len() - i,
    {
        v.push(chars_of(parts[i].as_str()));
        i = i + 1;
    }
    let s = chars_of(sep);
    let out = join_chars(&v, s.as_slice());
    proof {
        assert(v@.map_values(|p: Vec<char>| p@) =~= str_views(parts@));
    }
    string_from_chars(out.as_slice())
}

/// ASCII whitespace: space, tab, line feed, form feed, carriage return.
pub open spec fn is_ascii_ws(c: char) -> bool {
    c == ' ' || c == '\t' || c == '\n' || c == '\x0C' || c == '\r'
}

/// The words of `s`: its maximal runs of characters other than ASCII
/// whitespace, in order (what `split_ascii_whitespace` yields).
pub open spec fn ascii_words(s: Seq<char>) -> Seq<Seq<char>>
    decreases s.len(),
{
    if s.len() == 0 {
        seq![]
    } else {
        let w = ascii_words(s.drop_last());
        if is_ascii_ws(s.last()) {
            w
        } else if s.len() >= 2 && !is_ascii_ws(s[s.len() - 2]) {
            w.update(w.len() - 1, w.last().push(s.last()))
        } else {
            w.push(seq![s.last()])
        }
    }
}

/// Whether `c` is ASCII whitespace.
pub fn is_ascii_ws_exec(c: char) -> (r: bool)
    ensures
        r == is_ascii_ws(c),
{
    c == ' ' || c == '\t' || c == '\n' || c == '\x0C' || c == '\r'
}

/// The words of `s` (see `ascii_words`).
pub fn split_ascii_whitespace(s: &str) -> (r: Vec<String>)
    ensures
        str_views(r@) == ascii_words(s@),
{
    let c = chars_of(s);
    let mut out: Vec<String> = Vec::new();
    let mut cur: Vec<char> = Vec::new();
    let mut i: usize = 0;
    proof {
        assert(c@.take(0) =~= Seq::<char>::empty());
        assert(str_views(out@) =~= Seq::<Seq<char>>::empty());
    }
    while i < c.len()
        invariant
            i <= c.len(),
            c@ == s@,
            cur@.len() > 0 ==> i > 0 && !is_ascii_ws(c@[i - 1]),
            i > 0 && !is_ascii_ws(c@[i - 1]) ==> cur@.len() > 0,
            cur@.len() == 0 ==> str_views(out@) == ascii_words(c@.take(i as int)),
            cur@.len() > 0 ==> str_views(out@).push(cur@) == ascii_words(c@.take(i as int)),
        decreases c.len() - i,
    {
        let ghost t = c@.take(i + 1);
        proof {
            assert(t.drop_last() =~= c@.take(i as int));
            assert(t.last() == c@[i as int]);
            if i > 0 {
                assert(t[t.len() - 2] == c@[i - 1]);
            }
        }
        let ch = c[i];
        if is_ascii_ws_exec(ch) {
            if cur.len() > 0 {
                let ghost before = str_views(out@);
                out.push(string_from_chars(cur.as_slice()));
                proof {
                    assert(str_views(out@) =~= before.push(cur@));
                }
                cur = Vec::new();
            }
        } else {
            let ghost w = ascii_words(c@.take(i as int));
            let ghost old_cur = cur@;
            cur.push(ch);
            proof {
                if old_cur.len() > 0 {
                    assert(w == str_views(out@).push(old_cur));
                    assert(w.update(w.len() - 1, w.last().push(ch)) =~= str_views(out@).push(cur@));
                } else {
                    assert(cur@ =~= seq![ch]);
                    assert(w.push(seq![ch]) =~= str_views(out@).push(cur@));
                }
            }
        }
        i = i + 1;
    }
    proof {
        assert(c@.take(c@.len() as int) =~= c@);
    }
    if cur.len() > 0 {
        out.push(string_from_chars(cur.as_slice()));
        proof {
            assert(str_views(out@) =~= str_views(out@.drop_last()).push(cur@));
        }
    }
    out
}

/// `i` is where `p` first occurs in `s`.
pub open spec fn is_first_occurrence(s: Seq<char>, p: Seq<char>, i: int) -> bool {
    occurs_at(s, p, i) && forall|k: int| 0 <= k < i ==> !occurs_at(s, p, k)
}

/// Where `p` first occurs in `s`, if it does.
pub open spec fn first_occurrence(s: Seq<char>, p: Seq<char>) -> Option<int> {
    if exists|i: int| is_first_occurrence(s, p, i) {
        Some(choose|i: int| is_first_occurrence(s, p, i))
    } else {
        None
    }
}

/// `s` with the first occurrence of `from` replaced by `to` (`replacen`
/// with a count of one).
pub open spec fn replace_first(s: Seq<char>, from: Seq<char>, to: Seq<char>) -> Seq<char> {
    match first_occurrence(s, from) {
        Some(i) => s.take(i) + to + s.skip(i + from.len()),
        None => s,
    }
}

/// There is only one first occurrence.
proof fn lemma_first_occurrence(s: Seq<char>, p: Seq<char>, i: int)
    requires
        is_first_occurrence(s, p, i),
    ensures
        first_occurrence(s, p) == Some(i),
{
    let j = choose|j: int| is_first_occurrence(s, p, j);
    if j < i {
        assert(!occurs_at(s, p, j));
    } else if i < j {
        assert(!occurs_at(s, p, i));
    }
}

/// `s` with the first occurrence of `from` replaced by `to` (see
/// `replace_first`).
pub fn replace_first_chars(s: &[char], from: &[char], to: &[char]) -> (r: Vec<char>)
    ensures
        r@ == replace_first(s@, from@, to@),
{
    let mut i: usize = 0;
    let mut found: Option<usize> = None;
    if from.len() <= s.len() {
        let last = s.len() - from.len();
        let mut done = false;
        while !done
            invariant
                last + from@.len() == s@.len(),
                i <= last,
                match found {
                    Some(f) => is_first_occurrence(s@, from@, f as int),
                    None => true,
                },
                !done ==> found is None,
                found is None ==> forall|k: int| 0 <= k < i ==> !occurs_at(s@, from@, k),
                found is None && done ==> i == last && !occurs_at(s@, from@, i as int),
            decreases last - i + (if done {
                0int
            } else {
                1int
            }),
        {
            if occurs_at_exec(s, from, i) {
                found = Some(i);
                done = true;
            } else if i == last {
                done = true;
            } else {
                i = i + 1;
            }
        }
        proof {
            if found is None {
                assert forall|k: int| !occurs_at(s@, from@, k) by {
                    if 0 <= k && k + from@.len() <= s@.len() {
                        assert(k <= i);
                    }
                }
            }
        }
    }
    match found {
        Some(f) => {
            proof {
                lemma_first_occurrence(s@, from@, f as int);
            }
            let mut out: Vec<char> = Vec::new();
            let mut k: usize = 0;
            while k < f
                invariant
                    k <= f,
                    f + from@.len() <= s@.len(),
                    out@ == s@.take(k as int),
                decreases f - k,
            {
                out.push(s[k]);
                proof {
                    assert(s@.take(k + 1) =~= s@.take(k as int).push(s@[k as int]));
                }
                k = k + 1;
            }
            push_all(&mut out, to);
            let mut j: usize = f + from.len();
            let ghost head = out@;
            proof {
                assert(head == s@.take(f as int) + to@);
            }
            proof {
                assert(s@.skip(f + from@.len()).take(0) =~= Seq::<char>::empty());
                assert(head + Seq::<char>::empty() =~= head);
            }
            while j < s.len()
                invariant
                    f + from@.len() <= j <= s@.len(),
                    out@ == head + s@.subrange(f + from@.len(), j as int),
                decreases s.len() - j,
            {
                out.push(s[j]);
                proof {
                    assert(s@.subrange(f + from@.len(), j + 1) =~= s@.subrange(
                        f + from@.len(),
                        j as int,
                    ).push(s@[j as int]));
                }
                j = j + 1;
            }
            proof {
                assert(s@.subrange(f + from@.len(), s@.len() as int) =~= s@.skip(f + from@.len()));
            }
            out
        },
        None => {
            proof {
                if exists|x: int| is_first_occurrence(s@, from@, x) {
                    let x = choose|x: int| is_first_occurrence(s@, from@, x);
                    assert(occurs_at(s@, from@, x));
                }
            }
            copy_chars(s)
        },
    }
}

} // verus!
