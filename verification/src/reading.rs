//! What reading a configuration ignores: lines outside `[color]`, and the `;`
//! that comments a setting out.

use vstd::prelude::*;
use crate::config::{clean_line, is_section, read_line, read_lines, ReadState};
use crate::text::{is_ws, trim, trim_end, trim_start};

verus! {

/// Whether every character of `s` is whitespace.
pub open spec fn all_ws(s: Seq<char>) -> bool {
    forall|i: int| 0 <= i < s.len() ==> is_ws(#[trigger] s[i])
}

/// Whether `m` is empty or begins and ends with a character that is not whitespace.
pub open spec fn bare(m: Seq<char>) -> bool {
    m.len() == 0 || (!is_ws(m[0]) && !is_ws(m.last()))
}

proof fn lemma_trim_start_ws_prefix(p: Seq<char>, r: Seq<char>)
    requires
        all_ws(p),
    ensures
        trim_start(p + r) == trim_start(r),
    decreases p.len(),
{
    if p.len() > 0 {
        assert((p + r)[0] == p[0]);
        assert((p + r).drop_first() =~= p.drop_first() + r);
        lemma_trim_start_ws_prefix(p.drop_first(), r);
    } else {
        assert(p + r =~= r);
    }
}

proof fn lemma_trim_end_ws_suffix(r: Seq<char>, q: Seq<char>)
    requires
        all_ws(q),
    ensures
        trim_end(r + q) == trim_end(r),
    decreases q.len(),
{
    if q.len() > 0 {
        assert((r + q).last() == q.last());
        assert(q.last() == q[q.len() - 1]);
        assert((r + q).drop_last() =~= r + q.drop_last());
        lemma_trim_end_ws_suffix(r, q.drop_last());
    } else {
        assert(r + q =~= r);
    }
}

proof fn lemma_trim_start_all_ws(p: Seq<char>)
    requires
        all_ws(p),
    ensures
        trim_start(p).len() == 0,
    decreases p.len(),
{
    if p.len() > 0 {
        lemma_trim_start_all_ws(p.drop_first());
    }
}

/// Trimming `p + m + q` gives `m` when `p` and `q` are whitespace and `m` is bare.
pub proof fn lemma_trim_unique(p: Seq<char>, m: Seq<char>, q: Seq<char>)
    requires
        all_ws(p),
        all_ws(q),
        bare(m),
    ensures
        trim(p + m + q) == m,
{
    lemma_trim_start_ws_prefix(p, m + q);
    assert(p + m + q =~= p + (m + q));
    if m.len() > 0 {
        assert((m + q)[0] == m[0]);
        assert(trim_start(m + q) == m + q);
        lemma_trim_end_ws_suffix(m, q);
    } else {
        assert(m + q =~= q);
        lemma_trim_start_all_ws(q);
    }
}

proof fn lemma_trim_start_split(s: Seq<char>) -> (k: int)
    ensures
        0 <= k <= s.len(),
        trim_start(s) == s.skip(k),
        all_ws(s.take(k)),
        k < s.len() ==> !is_ws(s[k]),
    decreases s.len(),
{
    if s.len() > 0 && is_ws(s[0]) {
        let k1 = lemma_trim_start_split(s.drop_first());
        assert(s.drop_first().skip(k1) =~= s.skip(k1 + 1));
        assert forall|i: int| 0 <= i < k1 + 1 implies is_ws(#[trigger] s.take(k1 + 1)[i]) by {
            if i > 0 {
                assert(s.take(k1 + 1)[i] == s.drop_first().take(k1)[i - 1]);
            }
        }
        k1 + 1
    } else {
        assert(s.skip(0) =~= s);
        0
    }
}

proof fn lemma_trim_end_split(s: Seq<char>) -> (j: int)
    ensures
        0 <= j <= s.len(),
        trim_end(s) == s.take(j),
        all_ws(s.skip(j)),
        j > 0 ==> !is_ws(s[j - 1]),
    decreases s.len(),
{
    if s.len() > 0 && is_ws(s.last()) {
        let j1 = lemma_trim_end_split(s.drop_last());
        assert(s.drop_last().take(j1) =~= s.take(j1));
        assert forall|i: int| 0 <= i < s.len() - j1 implies is_ws(#[trigger] s.skip(j1)[i]) by {
            if i < s.len() - 1 - j1 {
                assert(s.skip(j1)[i] == s.drop_last().skip(j1)[i]);
            } else {
                assert(s.skip(j1)[i] == s.last());
            }
        }
        j1
    } else {
        assert(s.take(s.len() as int) =~= s);
        s.len() as int
    }
}

/// Every text is whitespace, then its trimmed part, then whitespace.
pub proof fn lemma_trim_split(s: Seq<char>) -> (pq: (Seq<char>, Seq<char>))
    ensures
        s == pq.0 + trim(s) + pq.1,
        all_ws(pq.0),
        all_ws(pq.1),
        bare(trim(s)),
{
    let k = lemma_trim_start_split(s);
    let x = s.skip(k);
    let j = lemma_trim_end_split(x);
    let p = s.take(k);
    let q = x.skip(j);
    assert(s =~= p + x.take(j) + q);
    if j > 0 {
        assert(x.take(j)[0] == s[k]);
        assert(x.take(j).last() == x[j - 1]);
    }
    (p, q)
}

/// A line with `; ` put in front of it (a setting commented out).
pub open spec fn commented(l: Seq<char>) -> Seq<char> {
    seq![';', ' '] + l
}

/// Commenting a line out (putting `; ` in front) does not change how it is
/// read, unless the line opens a section or already begins with `;`.
pub proof fn lemma_read_commented_line(st: ReadState, l: Seq<char>)
    requires
        !is_section(trim(l)),
        !(trim(l).len() > 0 && trim(l)[0] == ';'),
    ensures
        read_line(st, commented(l)) == read_line(st, l),
{
    reveal_strlit("[color]");
    let (p, q) = lemma_trim_split(l);
    let m = trim(l);
    let big = commented(l);
    if m.len() > 0 {
        let core = seq![';', ' '] + p + m;
        assert(big =~= Seq::<char>::empty() + core + q);
        assert(core.last() == m.last());
        lemma_trim_unique(Seq::<char>::empty(), core, q);
        assert(trim(big) == core);
        assert(core.drop_first() =~= seq![' '] + p + m + Seq::<char>::empty());
        assert forall|i: int| 0 <= i < (seq![' '] + p).len() implies is_ws(#[trigger] (seq![' '] + p)[i]) by {
            if i > 0 {
                assert((seq![' '] + p)[i] == p[i - 1]);
            }
        }
        lemma_trim_unique(seq![' '] + p, m, Seq::<char>::empty());
        assert(clean_line(core) == m);
        assert(core != "[color]"@) by {
            assert("[color]"@[0] == '[');
        }
    } else {
        let rest = seq![' '] + p + q;
        assert forall|i: int| 0 <= i < rest.len() implies is_ws(#[trigger] rest[i]) by {
            if 1 <= i < 1 + p.len() {
                assert(rest[i] == p[i - 1]);
            } else if i >= 1 + p.len() {
                assert(rest[i] == q[i - 1 - p.len()]);
            }
        }
        assert(big =~= Seq::<char>::empty() + seq![';'] + rest);
        lemma_trim_unique(Seq::<char>::empty(), seq![';'], rest);
        assert(seq![';'].drop_first() =~= Seq::<char>::empty());
        lemma_trim_unique(Seq::<char>::empty(), Seq::<char>::empty(), Seq::<char>::empty());
        assert(Seq::<char>::empty() + Seq::<char>::empty() + Seq::<char>::empty() =~= Seq::<char>::empty());
        assert(seq![';'] != "[color]"@) by {
            assert("[color]"@.len() == 7);
        }
    }
}

proof fn lemma_read_same_tail(a: Seq<Seq<char>>, b: Seq<Seq<char>>, tail: Seq<Seq<char>>)
    requires
        read_lines(a) == read_lines(b),
    ensures
        read_lines(a + tail) == read_lines(b + tail),
    decreases tail.len(),
{
    if tail.len() == 0 {
        assert(a + tail =~= a);
        assert(b + tail =~= b);
    } else {
        lemma_read_same_tail(a, b, tail.drop_last());
        assert((a + tail).drop_last() =~= a + tail.drop_last());
        assert((b + tail).drop_last() =~= b + tail.drop_last());
    }
}

/// Reading ignores what stands outside `[color]`: a line that opens no section,
/// put where no `[color]` section is open, changes nothing that is read.
pub proof fn lemma_read_ignores_inserted_line(ls: Seq<Seq<char>>, i: int, l: Seq<char>)
    requires
        0 <= i <= ls.len(),
        !read_lines(ls.take(i)).in_color,
        !is_section(trim(l)),
    ensures
        read_lines(ls.insert(i, l)) == read_lines(ls),
{
    reveal_strlit("[color]");
    let pre = ls.take(i);
    let post = ls.skip(i);
    assert(trim(l) != "[color]"@) by {
        if trim(l) == "[color]"@ {
            assert("[color]"@[0] == '[' && "[color]"@.last() == ']');
        }
    }
    assert(pre.push(l).drop_last() =~= pre);
    assert(read_lines(pre.push(l)) == read_lines(pre));
    lemma_read_same_tail(pre.push(l), pre, post);
    assert(ls.insert(i, l) =~= pre.push(l) + post);
    assert(ls =~= pre + post);
}

/// Reading ignores what stands outside `[color]`: removing a line that opens no
/// section, where no `[color]` section is open, changes nothing that is read.
pub proof fn lemma_read_ignores_removed_line(ls: Seq<Seq<char>>, i: int)
    requires
        0 <= i < ls.len(),
        !read_lines(ls.take(i)).in_color,
        !is_section(trim(ls[i])),
    ensures
        read_lines(ls.remove(i)) == read_lines(ls),
{
    let r = ls.remove(i);
    assert(r.take(i) =~= ls.take(i));
    lemma_read_ignores_inserted_line(r, i, ls[i]);
    assert(r.insert(i, ls[i]) =~= ls);
}

/// Reading ignores what stands outside `[color]`: replacing a line that opens no
/// section, where no `[color]` section is open, by another such line changes
/// nothing that is read.
pub proof fn lemma_read_ignores_changed_line(ls: Seq<Seq<char>>, i: int, l: Seq<char>)
    requires
        0 <= i < ls.len(),
        !read_lines(ls.take(i)).in_color,
        !is_section(trim(ls[i])),
        !is_section(trim(l)),
    ensures
        read_lines(ls.update(i, l)) == read_lines(ls),
{
    lemma_read_ignores_removed_line(ls, i);
    let r = ls.remove(i);
    assert(r.take(i) =~= ls.take(i));
    lemma_read_ignores_inserted_line(r, i, l);
    assert(r.insert(i, l) =~= ls.update(i, l));
}

/// A setting commented out with `; ` is read as if it were active: putting `; `
/// in front of a line that opens no section and does not begin with `;` changes
/// nothing that is read.
pub proof fn lemma_read_ignores_comment_mark(ls: Seq<Seq<char>>, i: int)
    requires
        0 <= i < ls.len(),
        !is_section(trim(ls[i])),
        !(trim(ls[i]).len() > 0 && trim(ls[i])[0] == ';'),
    ensures
        read_lines(ls.update(i, commented(ls[i]))) == read_lines(ls),
{
    let pre = ls.take(i);
    let post = ls.skip(i + 1);
    lemma_read_commented_line(read_lines(pre), ls[i]);
    assert(pre.push(ls[i]).drop_last() =~= pre);
    assert(pre.push(commented(ls[i])).drop_last() =~= pre);
    lemma_read_same_tail(pre.push(commented(ls[i])), pre.push(ls[i]), post);
    assert(ls.update(i, commented(ls[i])) =~= pre.push(commented(ls[i])) + post);
    assert(ls =~= pre.push(ls[i]) + post);
}

} // verus!
