//! Unix paths as text, and their components.
//!
//! A path is a `String`. Its components follow the rules of `std::path` on
//! Unix: a leading `/` gives the root component `/`; a leading `.` segment
//! gives the current-directory component `.`; empty segments and every other
//! `.` segment are dropped; `..` is the parent-directory component. Each
//! component is represented by its text, which tells the kinds apart: `/`,
//! `.`, `..`, or a normal name (which holds no `/` and is neither `.` nor
//! `..`).

use vstd::prelude::*;

use crate::text::{copy_chars, push_all};

verus! {

/// The segments of `s` between `/` separators (always at least one).
pub open spec fn split_slash(s: Seq<char>) -> Seq<Seq<char>>
    decreases s.len(),
{
    if s.len() == 0 {
        seq![seq![]]
    } else {
        let prev = split_slash(s.drop_last());
        if s.last() == '/' {
            prev.push(seq![])
        } else {
            prev.update(prev.len() - 1, prev.last().push(s.last()))
        }
    }
}

/// The segments that become components after the first one: all but empty
/// segments and `.` segments.
pub open spec fn kept_segments(segs: Seq<Seq<char>>) -> Seq<Seq<char>>
    decreases segs.len(),
{
    if segs.len() == 0 {
        seq![]
    } else {
        let rest = kept_segments(segs.drop_last());
        let x = segs.last();
        if x.len() == 0 || x == seq!['.'] {
            rest
        } else {
            rest.push(x)
        }
    }
}

/// The components of the path `s`, each by its text.
pub open spec fn components(s: Seq<char>) -> Seq<Seq<char>> {
    let segs = split_slash(s);
    let head: Seq<Seq<char>> = if s.len() > 0 && s[0] == '/' {
        seq![seq!['/']]
    } else if segs[0] == seq!['.'] {
        seq![seq!['.']]
    } else {
        seq![]
    };
    head + kept_segments(segs)
}

/// `PathBuf::push`: an absolute `x` replaces `buf`; otherwise `x` is added
/// after a `/` unless `buf` is empty or already ends in `/`.
pub open spec fn push_path(buf: Seq<char>, x: Seq<char>) -> Seq<char> {
    if x.len() > 0 && x[0] == '/' {
        x
    } else if buf.len() == 0 || buf.last() == '/' {
        buf + x
    } else {
        buf + seq!['/'] + x
    }
}

/// The path built by pushing each component in turn onto an empty path.
pub open spec fn render(comps: Seq<Seq<char>>) -> Seq<char>
    decreases comps.len(),
{
    if comps.len() == 0 {
        seq![]
    } else {
        push_path(render(comps.drop_last()), comps.last())
    }
}

/// `Path::parent`: `None` when the path has no component or ends in the root.
pub open spec fn parent_of(s: Seq<char>) -> Option<Seq<char>> {
    let c = components(s);
    if c.len() == 0 || c.last() == seq!['/'] {
        None
    } else {
        Some(render(c.drop_last()))
    }
}

/// A component text that is a normal name.
pub open spec fn is_normal(c: Seq<char>) -> bool {
    c != seq!['/'] && c != seq!['.'] && c != seq!['.', '.']
}

/// `Path::file_name`: the last component when it is a normal name.
pub open spec fn file_name_of(s: Seq<char>) -> Option<Seq<char>> {
    let c = components(s);
    if c.len() > 0 && is_normal(c.last()) {
        Some(c.last())
    } else {
        None
    }
}

/// Index of the last `.` in `f`, if any.
pub open spec fn last_dot(f: Seq<char>) -> Option<int>
    decreases f.len(),
{
    if f.len() == 0 {
        None
    } else if f.last() == '.' {
        Some(f.len() - 1)
    } else {
        last_dot(f.drop_last())
    }
}

/// Index of the first `.` in `f`, if any.
pub open spec fn first_dot(f: Seq<char>) -> Option<int>
    decreases f.len(),
{
    if f.len() == 0 {
        None
    } else if f[0] == '.' {
        Some(0)
    } else {
        match first_dot(f.skip(1)) {
            Some(i) => Some(i + 1),
            None => None,
        }
    }
}

/// `Path::extension`: what follows the last `.` of the file name, unless
/// that `.` is the first character.
pub open spec fn extension_of(s: Seq<char>) -> Option<Seq<char>> {
    match file_name_of(s) {
        Some(f) => match last_dot(f) {
            Some(i) => if i == 0 {
                None
            } else {
                Some(f.skip(i + 1))
            },
            None => None,
        },
        None => None,
    }
}

/// `Path::file_prefix`: the file name up to its first `.`, or the whole file
/// name when it starts with `.` or holds none.
pub open spec fn file_prefix_of(s: Seq<char>) -> Option<Seq<char>> {
    match file_name_of(s) {
        Some(f) => match first_dot(f) {
            Some(i) => if i == 0 {
                Some(f)
            } else {
                Some(f.take(i))
            },
            None => Some(f),
        },
        None => None,
    }
}

/// The code point of a character after ASCII lower-casing.
pub open spec fn ascii_lower(c: char) -> u32 {
    if 'A' <= c && c <= 'Z' {
        ((c as u32) + 32) as u32
    } else {
        c as u32
    }
}

/// `eq_ignore_ascii_case` on character sequences.
pub open spec fn eq_ignore_ascii_case(a: Seq<char>, b: Seq<char>) -> bool {
    a.len() == b.len() && forall|i: int| 0 <= i < a.len() ==> ascii_lower(a[i]) == ascii_lower(
        b[i],
    )
}

/// The path's extension is `nix`, in any ASCII case.
pub open spec fn is_nix_path(s: Seq<char>) -> bool {
    match extension_of(s) {
        Some(e) => eq_ignore_ascii_case(e, seq!['n', 'i', 'x']),
        None => false,
    }
}

/// `Path::is_absolute` on Unix.
pub open spec fn is_absolute_path(s: Seq<char>) -> bool {
    s.len() > 0 && s[0] == '/'
}

proof fn lemma_split_nonempty(s: Seq<char>)
    ensures
        split_slash(s).len() >= 1,
    decreases s.len(),
{
    if s.len() > 0 {
        lemma_split_nonempty(s.drop_last());
    }
}

proof fn lemma_split_first(s: Seq<char>, i: int)
    requires
        0 < i <= s.len(),
        forall|k: int| 0 <= k < i ==> s[k] != '/',
    ensures
        split_slash(s.take(i)) == seq![s.take(i)],
    decreases i,
{
    lemma_split_nonempty(s.take(i - 1));
    if i > 1 {
        lemma_split_first(s, i - 1);
    }
    assert(s.take(i).drop_last() =~= s.take(i - 1));
    if i == 1 {
        assert(s.take(0) =~= Seq::<char>::empty());
    }
    assert(s.take(i - 1).push(s[i - 1]) =~= s.take(i));
    assert(seq![s.take(i - 1)].update(0, s.take(i - 1).push(s[i - 1])) =~= seq![s.take(i)]);
}

/// The segments of `s` between `/` separators.
pub fn split_slash_exec(s: &[char]) -> (segs: Vec<Vec<char>>)
    ensures
        segs@.len() == split_slash(s@).len(),
        forall|k: int| 0 <= k < segs@.len() ==> #[trigger] segs@[k]@ == split_slash(s@)[k],
{
    let mut done: Vec<Vec<char>> = Vec::new();
    let mut cur: Vec<char> = Vec::new();
    let mut i: usize = 0;
    assert(s@.take(0) =~= Seq::<char>::empty());
    while i < s.len()
        invariant
            i <= s.len(),
            split_slash(s@.take(i as int)).len() == done@.len() + 1,
            forall|k: int|
                0 <= k < done@.len() ==> #[trigger] done@[k]@ == split_slash(s@.take(i as int))[k],
            cur@ == split_slash(s@.take(i as int)).last(),
        decreases s.len() - i,
    {
        let ghost prev = split_slash(s@.take(i as int));
        proof {
            assert(s@.take(i + 1).drop_last() =~= s@.take(i as int));
            assert(s@.take(i + 1).last() == s@[i as int]);
        }
        if s[i] == '/' {
            let ghost before_push = done@;
            done.push(cur);
            cur = Vec::new();
            proof {
                let next = split_slash(s@.take(i + 1));
                assert(next == prev.push(seq![]));
                assert forall|k: int| 0 <= k < done@.len() implies #[trigger] done@[k]@ == next[k] by {
                    if k < before_push.len() {
                        assert(done@[k] == before_push[k]);
                    }
                }
            }
        } else {
            cur.push(s[i]);
        }
        i = i + 1;
    }
    proof {
        assert(s@.take(s@.len() as int) =~= s@);
    }
    let ghost before = done@;
    done.push(cur);
    proof {
        assert forall|k: int| 0 <= k < done@.len() implies #[trigger] done@[k]@ == split_slash(
            s@,
        )[k] by {
            if k < before.len() {
                assert(done@[k] == before[k]);
            }
        }
    }
    done
}


/// The views of a vector of character vectors.
pub open spec fn char_views(v: Seq<Vec<char>>) -> Seq<Seq<char>> {
    v.map_values(|x: Vec<char>| x@)
}

/// The components of the path `s`, each by its text.
pub fn components_exec(s: &[char]) -> (out: Vec<Vec<char>>)
    ensures
        char_views(out@) == components(s@),
{
    let segs = split_slash_exec(s);
    let ghost ss = split_slash(s@);
    proof {
        lemma_split_nonempty(s@);
    }
    let mut out: Vec<Vec<char>> = Vec::new();
    let ghost spec_head: Seq<Seq<char>> = if s@.len() > 0 && s@[0] == '/' {
        seq![seq!['/']]
    } else if ss[0] == seq!['.'] {
        seq![seq!['.']]
    } else {
        seq![]
    };
    if s.len() > 0 && s[0] == '/' {
        out.push(vec!['/']);
        proof {
            assert(out@[0]@ =~= seq!['/']);
            assert(char_views(out@) =~= spec_head);
        }
    } else if segs[0].len() == 1 && segs[0][0] == '.' {
        proof {
            assert(segs@[0]@ =~= seq!['.']);
        }
        out.push(vec!['.']);
        proof {
            assert(out@[0]@ =~= seq!['.']);
            assert(char_views(out@) =~= spec_head);
        }
    } else {
        proof {
            if ss[0] == seq!['.'] {
                assert(segs@[0]@.len() == 1);
            }
            assert(char_views(out@) =~= spec_head);
        }
    }
    let ghost head = char_views(out@);
    proof {
        assert(ss.take(0) =~= Seq::<Seq<char>>::empty());
        assert(head + kept_segments(ss.take(0)) =~= head);
    }
    let mut i: usize = 0;
    while i < segs.len()
        invariant
            i <= segs.len(),
            segs@.len() == ss.len(),
            ss == split_slash(s@),
            forall|k: int| 0 <= k < segs@.len() ==> #[trigger] segs@[k]@ == ss[k],
            char_views(out@) == head + kept_segments(ss.take(i as int)),
            head + kept_segments(ss) == components(s@),
        decreases segs.len() - i,
    {
        proof {
            assert(ss.take(i + 1).drop_last() =~= ss.take(i as int));
            assert(ss.take(i + 1).last() == ss[i as int]);
        }
        let seg = &segs[i];
        let is_dot = seg.len() == 1 && seg[0] == '.';
        proof {
            if seg@ == seq!['.'] {
                assert(seg@.len() == 1);
            }
            if is_dot {
                assert(seg@ =~= seq!['.']);
            }
        }
        if seg.len() != 0 && !is_dot {
            let ghost before = char_views(out@);
            out.push(copy_chars(seg.as_slice()));
            proof {
                assert(char_views(out@) =~= before.push(ss[i as int]));
                assert(char_views(out@) =~= head + kept_segments(ss.take(i + 1)));
            }
        }
        i = i + 1;
    }
    proof {
        assert(ss.take(ss.len() as int) =~= ss);
    }
    out
}

/// `PathBuf::push` on character sequences.
pub fn push_path_exec(buf: &mut Vec<char>, x: &[char])
    ensures
        final(buf)@ == push_path(old(buf)@, x@),
{
    if x.len() > 0 && x[0] == '/' {
        *buf = copy_chars(x);
    } else if buf.len() == 0 || buf[buf.len() - 1] == '/' {
        push_all(buf, x);
    } else {
        buf.push('/');
        push_all(buf, x);
    }
}

/// The path built by pushing each component onto an empty path.
pub fn render_exec(comps: &Vec<Vec<char>>) -> (out: Vec<char>)
    ensures
        out@ == render(char_views(comps@)),
{
    let ghost cv = char_views(comps@);
    let mut out: Vec<char> = Vec::new();
    let mut i: usize = 0;
    proof {
        assert(cv.take(0) =~= Seq::<Seq<char>>::empty());
    }
    while i < comps.len()
        invariant
            i <= comps.len(),
            cv == char_views(comps@),
            out@ == render(cv.take(i as int)),
        decreases comps.len() - i,
    {
        proof {
            assert(cv.take(i + 1).drop_last() =~= cv.take(i as int));
            assert(cv.take(i + 1).last() == comps@[i as int]@);
        }
        push_path_exec(&mut out, comps[i].as_slice());
        i = i + 1;
    }
    proof {
        assert(cv.take(comps.len() as int) =~= cv);
    }
    out
}

/// `Path::parent`.
pub fn parent_exec(s: &[char]) -> (out: Option<Vec<char>>)
    ensures
        match out {
            Some(p) => parent_of(s@) == Some(p@),
            None => parent_of(s@) is None,
        },
{
    let mut comps = components_exec(s);
    if comps.len() == 0 {
        return None;
    }
    let last_is_root = comps[comps.len() - 1].len() == 1 && comps[comps.len() - 1][0] == '/';
    proof {
        let l = comps@[comps@.len() - 1]@;
        if l == seq!['/'] {
            assert(l.len() == 1);
        }
        if last_is_root {
            assert(l =~= seq!['/']);
        }
    }
    if last_is_root {
        return None;
    }
    let ghost before = comps@;
    comps.pop();
    proof {
        assert(char_views(comps@) =~= char_views(before).drop_last());
    }
    Some(render_exec(&comps))
}

/// `Path::join` (a clone of `base` with `x` pushed onto it).
pub fn join_exec(base: &[char], x: &[char]) -> (out: Vec<char>)
    ensures
        out@ == push_path(base@, x@),
{
    let mut out = copy_chars(base);
    push_path_exec(&mut out, x);
    out
}

/// `Path::file_name`.
pub fn file_name_exec(s: &[char]) -> (out: Option<Vec<char>>)
    ensures
        match out {
            Some(f) => file_name_of(s@) == Some(f@),
            None => file_name_of(s@) is None,
        },
{
    let comps = components_exec(s);
    if comps.len() == 0 {
        return None;
    }
    let last = &comps[comps.len() - 1];
    proof {
        assert(last@ == components(s@).last());
    }
    let root = last.len() == 1 && last[0] == '/';
    let cur = last.len() == 1 && last[0] == '.';
    let up = last.len() == 2 && last[0] == '.' && last[1] == '.';
    proof {
        if last@ == seq!['/'] || last@ == seq!['.'] {
            assert(last@.len() == 1);
        }
        if last@ == seq!['.', '.'] {
            assert(last@.len() == 2);
        }
        if root {
            assert(last@ =~= seq!['/']);
        }
        if cur {
            assert(last@ =~= seq!['.']);
        }
        if up {
            assert(last@ =~= seq!['.', '.']);
        }
    }
    if root || cur || up {
        None
    } else {
        Some(copy_chars(last.as_slice()))
    }
}

proof fn lemma_last_dot_none(f: Seq<char>)
    requires
        forall|k: int| 0 <= k < f.len() ==> f[k] != '.',
    ensures
        last_dot(f) is None,
    decreases f.len(),
{
    if f.len() > 0 {
        lemma_last_dot_none(f.drop_last());
    }
}

proof fn lemma_last_dot_at(f: Seq<char>, i: int)
    requires
        0 <= i < f.len(),
        f[i] == '.',
        forall|k: int| i < k < f.len() ==> f[k] != '.',
    ensures
        last_dot(f) == Some(i),
    decreases f.len(),
{
    if f.len() - 1 != i {
        lemma_last_dot_at(f.drop_last(), i);
    }
}

proof fn lemma_first_dot_none(f: Seq<char>)
    requires
        forall|k: int| 0 <= k < f.len() ==> f[k] != '.',
    ensures
        first_dot(f) is None,
    decreases f.len(),
{
    if f.len() > 0 {
        lemma_first_dot_none(f.skip(1));
    }
}

proof fn lemma_first_dot_at(f: Seq<char>, i: int)
    requires
        0 <= i < f.len(),
        f[i] == '.',
        forall|k: int| 0 <= k < i ==> f[k] != '.',
    ensures
        first_dot(f) == Some(i),
    decreases i,
{
    if i > 0 {
        lemma_first_dot_at(f.skip(1), i - 1);
    }
}

/// Index of the last `.` in `f`.
pub fn last_dot_exec(f: &[char]) -> (out: Option<usize>)
    ensures
        match out {
            Some(i) => last_dot(f@) == Some(i as int) && i < f@.len(),
            None => last_dot(f@) is None,
        },
{
    let mut i: usize = f.len();
    while i > 0
        invariant
            i <= f.len(),
            forall|k: int| i <= k < f.len() ==> f[k] != '.',
        decreases i,
    {
        if f[i - 1] == '.' {
            proof {
                lemma_last_dot_at(f@, i - 1);
            }
            return Some(i - 1);
        }
        i = i - 1;
    }
    proof {
        lemma_last_dot_none(f@);
    }
    None
}

/// Index of the first `.` in `f`.
pub fn first_dot_exec(f: &[char]) -> (out: Option<usize>)
    ensures
        match out {
            Some(i) => first_dot(f@) == Some(i as int) && i < f@.len(),
            None => first_dot(f@) is None,
        },
{
    let mut i: usize = 0;
    while i < f.len()
        invariant
            i <= f.len(),
            forall|k: int| 0 <= k < i ==> f[k] != '.',
        decreases f.len() - i,
    {
        if f[i] == '.' {
            proof {
                lemma_first_dot_at(f@, i as int);
            }
            return Some(i);
        }
        i = i + 1;
    }
    proof {
        lemma_first_dot_none(f@);
    }
    None
}

/// `Path::extension`.
pub fn extension_exec(s: &[char]) -> (out: Option<Vec<char>>)
    ensures
        match out {
            Some(e) => extension_of(s@) == Some(e@),
            None => extension_of(s@) is None,
        },
{
    match file_name_exec(s) {
        Some(f) => match last_dot_exec(f.as_slice()) {
            Some(i) => if i == 0 {
                None
            } else {
                let mut e: Vec<char> = Vec::new();
                let mut j: usize = i + 1;
                while j < f.len()
                    invariant
                        i + 1 <= j <= f.len(),
                        e@ == f@.subrange(i + 1, j as int),
                    decreases f.len() - j,
                {
                    e.push(f[j]);
                    j = j + 1;
                }
                proof {
                    assert(e@ =~= f@.skip(i + 1));
                }
                Some(e)
            },
            None => None,
        },
        None => None,
    }
}

/// `Path::file_prefix`.
pub fn file_prefix_exec(s: &[char]) -> (out: Option<Vec<char>>)
    ensures
        match out {
            Some(p) => file_prefix_of(s@) == Some(p@),
            None => file_prefix_of(s@) is None,
        },
{
    match file_name_exec(s) {
        Some(f) => match first_dot_exec(f.as_slice()) {
            Some(i) => if i == 0 {
                Some(f)
            } else {
                let mut p: Vec<char> = Vec::new();
                let mut j: usize = 0;
                while j < i
                    invariant
                        j <= i < f.len(),
                        p@ == f@.take(j as int),
                    decreases i - j,
                {
                    p.push(f[j]);
                    j = j + 1;
                }
                Some(p)
            },
            None => Some(f),
        },
        None => None,
    }
}

/// The code point of a character after ASCII lower-casing.
pub fn ascii_lower_exec(c: char) -> (out: u32)
    ensures
        out == ascii_lower(c),
{
    if 'A' <= c && c <= 'Z' {
        (c as u32) + 32
    } else {
        c as u32
    }
}

/// `eq_ignore_ascii_case` on character sequences.
pub fn eq_ignore_ascii_case_exec(a: &[char], b: &[char]) -> (r: bool)
    ensures
        r == eq_ignore_ascii_case(a@, b@),
{
    if a.len() != b.len() {
        return false;
    }
    let mut i: usize = 0;
    while i < a.len()
        invariant
            a.len() == b.len(),
            i <= a.len(),
            forall|k: int| 0 <= k < i ==> ascii_lower(a[k]) == ascii_lower(b[k]),
        decreases a.len() - i,
    {
        if ascii_lower_exec(a[i]) != ascii_lower_exec(b[i]) {
            return false;
        }
        i = i + 1;
    }
    true
}

/// Whether the path's extension is `nix`, in any ASCII case.
pub fn is_nix_chars(s: &[char]) -> (r: bool)
    ensures
        r == is_nix_path(s@),
{
    match extension_exec(s) {
        Some(e) => {
            let nix: [char; 3] = ['n', 'i', 'x'];
            let r = eq_ignore_ascii_case_exec(e.as_slice(), nix.as_slice());
            proof {
                assert(nix@ =~= seq!['n', 'i', 'x']);
            }
            r
        },
        None => false,
    }
}


/// `buf` with each component pushed onto it in turn.
pub open spec fn render_onto(buf: Seq<char>, comps: Seq<Seq<char>>) -> Seq<char>
    decreases comps.len(),
{
    if comps.len() == 0 {
        buf
    } else {
        push_path(render_onto(buf, comps.drop_last()), comps.last())
    }
}

/// Pushes each component onto `buf` in turn.
pub fn render_onto_exec(buf: &mut Vec<char>, comps: &[Vec<char>])
    ensures
        final(buf)@ == render_onto(old(buf)@, char_views(comps@)),
{
    let ghost start = buf@;
    let ghost cv = char_views(comps@);
    let mut i: usize = 0;
    proof {
        assert(cv.take(0) =~= Seq::<Seq<char>>::empty());
    }
    while i < comps.len()
        invariant
            i <= comps.len(),
            cv == char_views(comps@),
            buf@ == render_onto(start, cv.take(i as int)),
        decreases comps.len() - i,
    {
        proof {
            assert(cv.take(i + 1).drop_last() =~= cv.take(i as int));
            assert(cv.take(i + 1).last() == comps@[i as int]@);
        }
        push_path_exec(buf, comps[i].as_slice());
        i = i + 1;
    }
    proof {
        assert(cv.take(comps.len() as int) =~= cv);
    }
}

/// Whether two paths have the same components (how `Path` compares).
pub fn same_components(a: &[char], b: &[char]) -> (r: bool)
    ensures
        r == (components(a@) == components(b@)),
{
    let x = components_exec(a);
    let y = components_exec(b);
    if x.len() != y.len() {
        proof {
            assert(char_views(x@).len() != char_views(y@).len());
        }
        return false;
    }
    let mut i: usize = 0;
    while i < x.len()
        invariant
            x.len() == y.len(),
            i <= x.len(),
            char_views(x@) == components(a@),
            char_views(y@) == components(b@),
            forall|k: int| 0 <= k < i ==> x@[k]@ == y@[k]@,
        decreases x.len() - i,
    {
        if !crate::text::chars_eq(x[i].as_slice(), y[i].as_slice()) {
            proof {
                assert(char_views(x@)[i as int] != char_views(y@)[i as int]);
            }
            return false;
        }
        i = i + 1;
    }
    proof {
        assert(char_views(x@) =~= char_views(y@));
    }
    true
}

/// Splitting at a `/` between two texts splits each of them.
pub(crate) proof fn lemma_split_concat(a: Seq<char>, b: Seq<char>)
    ensures
        split_slash(a + seq!['/'] + b) == split_slash(a) + split_slash(b),
    decreases b.len(),
{
    let s = a + seq!['/'] + b;
    if b.len() == 0 {
        assert(s =~= a.push('/'));
        assert(s.drop_last() =~= a);
        assert(split_slash(a) + split_slash(b) =~= split_slash(a).push(seq![]));
    } else {
        let b2 = b.drop_last();
        lemma_split_concat(a, b2);
        lemma_split_nonempty(b2);
        assert(s.drop_last() =~= a + seq!['/'] + b2);
        assert(s.last() == b.last());
        let x = split_slash(a);
        let y = split_slash(b2);
        if b.last() == '/' {
            assert((x + y).push(seq![]) =~= x + y.push(seq![]));
        } else {
            assert((x + y).update((x + y).len() - 1, (x + y).last().push(b.last())) =~= x + y.update(
                y.len() - 1,
                y.last().push(b.last()),
            ));
        }
    }
}

/// No segment holds a `/`.
pub(crate) proof fn lemma_split_segments(s: Seq<char>)
    ensures
        forall|i: int| 0 <= i < split_slash(s).len() ==> !(#[trigger] split_slash(s)[i]).contains('/'),
    decreases s.len(),
{
    if s.len() > 0 {
        lemma_split_segments(s.drop_last());
        lemma_split_nonempty(s.drop_last());
        let prev = split_slash(s.drop_last());
        if s.last() != '/' {
            let l = prev.last().push(s.last());
            assert forall|k: int| 0 <= k < l.len() implies l[k] != '/' by {
                if k < l.len() - 1 {
                    assert(l[k] == prev.last()[k]);
                    assert(!prev[prev.len() - 1].contains('/'));
                }
            }
            assert(!l.contains('/'));
        }
    }
}

/// A text without `/` is one segment.
pub(crate) proof fn lemma_split_single(r: Seq<char>)
    requires
        !r.contains('/'),
    ensures
        split_slash(r) == seq![r],
    decreases r.len(),
{
    if r.len() > 0 {
        let r2 = r.drop_last();
        assert(!r2.contains('/')) by {
            if r2.contains('/') {
                let k = choose|k: int| 0 <= k < r2.len() && r2[k] == '/';
                assert(r[k] == '/');
            }
        }
        lemma_split_single(r2);
        assert(r.last() != '/') by {
            assert(r[r.len() - 1] == r.last());
        }
        assert(r2.push(r.last()) =~= r);
        assert(r.drop_last() == r2);
        assert(seq![r2].update(0, seq![r2].last().push(r.last())) =~= seq![r]);
    } else {
        assert(r =~= Seq::<char>::empty());
    }
}

/// Keeping segments distributes over concatenation.
pub(crate) proof fn lemma_kept_concat(x: Seq<Seq<char>>, y: Seq<Seq<char>>)
    ensures
        kept_segments(x + y) == kept_segments(x) + kept_segments(y),
    decreases y.len(),
{
    if y.len() == 0 {
        assert(x + y =~= x);
        assert(kept_segments(x) + kept_segments(y) =~= kept_segments(x));
    } else {
        lemma_kept_concat(x, y.drop_last());
        assert((x + y).drop_last() =~= x + y.drop_last());
        assert((x + y).last() == y.last());
        let kx = kept_segments(x);
        let ky = kept_segments(y.drop_last());
        assert((kx + ky).push(y.last()) =~= kx + ky.push(y.last()));
    }
}

/// Segments that are all non-empty names other than `.` are all kept.
pub(crate) proof fn lemma_kept_all(x: Seq<Seq<char>>)
    requires
        forall|i: int| 0 <= i < x.len() ==> (#[trigger] x[i]).len() > 0 && x[i] != seq!['.'],
    ensures
        kept_segments(x) == x,
    decreases x.len(),
{
    if x.len() > 0 {
        lemma_kept_all(x.drop_last());
        assert(x.last() == x[x.len() - 1]);
        assert(x.drop_last().push(x.last()) =~= x);
    }
}

/// Every kept segment is a non-empty segment other than `.`.
pub(crate) proof fn lemma_kept_elements(segs: Seq<Seq<char>>)
    ensures
        forall|i: int|
            0 <= i < kept_segments(segs).len() ==> (#[trigger] kept_segments(segs)[i]).len() > 0
                && kept_segments(segs)[i] != seq!['.'] && segs.contains(kept_segments(segs)[i]),
    decreases segs.len(),
{
    if segs.len() > 0 {
        let d = segs.drop_last();
        lemma_kept_elements(d);
        let k = kept_segments(segs);
        assert forall|i: int| 0 <= i < k.len() implies (#[trigger] k[i]).len() > 0 && k[i] != seq![
            '.',
        ] && segs.contains(k[i]) by {
            if i < kept_segments(d).len() {
                assert(k[i] == kept_segments(d)[i]);
                let j = choose|j: int| 0 <= j < d.len() && d[j] == kept_segments(d)[i];
                assert(segs[j] == d[j]);
            } else {
                assert(k[i] == segs.last());
                assert(segs[segs.len() - 1] == segs.last());
            }
        }
    }
}

/// The components of `a`, a `/`, then `b`, for a non-empty `a`: those of
/// `a`, then the kept segments of `b`.
pub(crate) proof fn lemma_components_concat(a: Seq<char>, b: Seq<char>)
    requires
        a.len() > 0,
    ensures
        components(a + seq!['/'] + b) == components(a) + kept_segments(split_slash(b)),
{
    let s = a + seq!['/'] + b;
    lemma_split_concat(a, b);
    lemma_split_nonempty(a);
    lemma_kept_concat(split_slash(a), split_slash(b));
    assert(s[0] == a[0]);
    assert(split_slash(s)[0] == split_slash(a)[0]);
}

/// The segments of `./` followed by names joined by `/`.
pub(crate) proof fn lemma_render_dot(rest: Seq<Seq<char>>)
    requires
        rest.len() > 0,
        forall|i: int|
            0 <= i < rest.len() ==> (#[trigger] rest[i]).len() > 0 && !rest[i].contains('/'),
    ensures
        render_onto(seq!['.', '/'], rest) == seq!['.', '/'] + crate::text::join_seqs(
            rest,
            seq!['/'],
        ),
        split_slash(crate::text::join_seqs(rest, seq!['/'])) == rest,
        crate::text::join_seqs(rest, seq!['/']).len() > 0,
        crate::text::join_seqs(rest, seq!['/']).last() != '/',
    decreases rest.len(),
{
    let t = crate::text::join_seqs(rest, seq!['/']);
    let r = rest.last();
    assert(r == rest[rest.len() - 1]);
    lemma_split_single(r);
    assert(r[r.len() - 1] == r.last());
    assert(r.last() != '/');
    if rest.len() == 1 {
        assert(rest.drop_last().len() == 0);
        assert(render_onto(seq!['.', '/'], rest.drop_last()) == seq!['.', '/']);
        assert(r[0] != '/');
        assert(t == rest[0]);
        assert(seq![rest[0]] =~= rest);
    } else {
        let d = rest.drop_last();
        assert forall|i: int| 0 <= i < d.len() implies (#[trigger] d[i]).len() > 0 && !d[i].contains(
            '/',
        ) by {
            assert(d[i] == rest[i]);
        }
        lemma_render_dot(d);
        let td = crate::text::join_seqs(d, seq!['/']);
        assert(t == td + seq!['/'] + r);
        assert(r[0] != '/');
        let prev = seq!['.', '/'] + td;
        assert(prev.last() == td.last());
        assert(push_path(prev, r) == prev + seq!['/'] + r);
        assert(prev + seq!['/'] + r =~= seq!['.', '/'] + t);
        lemma_split_concat(td, r);
        assert(d.push(r) =~= rest);
        assert(split_slash(td) + split_slash(r) =~= d.push(r));
        assert(t.last() == r.last());
    }
}

} // verus!
