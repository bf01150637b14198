//! What a rewrite keeps of the configuration: every line in front of the first
//! `[color]` line stays where it was, a configuration without a `[color]` line
//! comes back line for line, and every line but the settings that a rewrite
//! owns comes back unchanged and in order.

use vstd::prelude::*;
use crate::config::clean_line;
use crate::rewrite::{
    foreground_line, gradient_color_line, gradient_color_lines, gradient_line, gradient_lines,
    gradient_output, is_mode_line, solid_line, solid_lines, solid_output, Rewrite,
};
use crate::stability::lemma_written_lines;
use crate::text::{decimal, lemma_decimal_reads_back, numeral_value, trim};

verus! {

/// No line of `ls` opens the `[color]` section.
pub open spec fn no_color_line(ls: Seq<Seq<char>>) -> bool {
    forall|i: int| 0 <= i < ls.len() ==> trim(#[trigger] ls[i]) != "[color]"@
}

/// Whether `p` is the beginning of `s`, element by element.
spec fn begins(p: Seq<Seq<char>>, s: Seq<Seq<char>>) -> bool {
    p.len() <= s.len() && forall|i: int| 0 <= i < p.len() ==> #[trigger] s[i] == p[i]
}

proof fn lemma_solid_lines_outside(ls: Seq<Seq<char>>, color: Seq<char>)
    requires
        no_color_line(ls),
    ensures
        solid_lines(ls, color) == (Rewrite { out: ls, in_color: false, mode_set: false, colors_set: false }),
    decreases ls.len(),
{
    if ls.len() > 0 {
        assert(trim(ls[ls.len() - 1]) != "[color]"@);
        lemma_solid_lines_outside(ls.drop_last(), color);
        assert(ls.drop_last().push(ls.last()) =~= ls);
    } else {
        assert(ls =~= seq![]);
    }
}

proof fn lemma_gradient_lines_outside(ls: Seq<Seq<char>>, colors: Seq<Seq<char>>)
    requires
        no_color_line(ls),
    ensures
        gradient_lines(ls, colors) == (Rewrite { out: ls, in_color: false, mode_set: false, colors_set: false }),
    decreases ls.len(),
{
    if ls.len() > 0 {
        assert(trim(ls[ls.len() - 1]) != "[color]"@);
        lemma_gradient_lines_outside(ls.drop_last(), colors);
        assert(ls.drop_last().push(ls.last()) =~= ls);
    } else {
        assert(ls =~= seq![]);
    }
}

proof fn lemma_solid_out_grows(ls: Seq<Seq<char>>, color: Seq<char>, j: int)
    requires
        0 <= j <= ls.len(),
    ensures
        begins(solid_lines(ls.take(j), color).out, solid_lines(ls, color).out),
    decreases ls.len(),
{
    if j == ls.len() {
        assert(ls.take(j) =~= ls);
    } else {
        lemma_solid_out_grows(ls.drop_last(), color, j);
        assert(ls.drop_last().take(j) =~= ls.take(j));
    }
}

proof fn lemma_gradient_out_grows(ls: Seq<Seq<char>>, colors: Seq<Seq<char>>, j: int)
    requires
        0 <= j <= ls.len(),
    ensures
        begins(gradient_lines(ls.take(j), colors).out, gradient_lines(ls, colors).out),
    decreases ls.len(),
{
    if j == ls.len() {
        assert(ls.take(j) =~= ls);
    } else {
        lemma_gradient_out_grows(ls.drop_last(), colors, j);
        assert(ls.drop_last().take(j) =~= ls.take(j));
    }
}

/// A rewrite for a solid colour keeps the lines in front of the first `[color]`
/// line where they were, and gives back a configuration without a `[color]`
/// line line for line.
pub proof fn lemma_solid_keeps_lines_before_color(ls: Seq<Seq<char>>, color: Seq<char>, k: int)
    requires
        0 <= k <= ls.len(),
        no_color_line(ls.take(k)),
    ensures
        ls.take(k).is_prefix_of(solid_output(ls, color)),
        no_color_line(ls) ==> solid_output(ls, color) == ls,
{
    lemma_solid_lines_outside(ls.take(k), color);
    lemma_solid_out_grows(ls, color, k);
    assert(solid_output(ls, color).subrange(0, k) =~= ls.take(k));
    if no_color_line(ls) {
        lemma_solid_lines_outside(ls, color);
    }
}

/// A rewrite for a gradient keeps the lines in front of the first `[color]`
/// line where they were, and gives back a configuration without a `[color]`
/// line line for line.
pub proof fn lemma_gradient_keeps_lines_before_color(ls: Seq<Seq<char>>, colors: Seq<Seq<char>>, k: int)
    requires
        0 <= k <= ls.len(),
        no_color_line(ls.take(k)),
    ensures
        ls.take(k).is_prefix_of(gradient_output(ls, colors)),
        no_color_line(ls) ==> gradient_output(ls, colors) == ls,
{
    lemma_gradient_lines_outside(ls.take(k), colors);
    lemma_gradient_out_grows(ls, colors, k);
    assert(gradient_output(ls, colors).subrange(0, k) =~= ls.take(k));
    if no_color_line(ls) {
        lemma_gradient_lines_outside(ls, colors);
    }
}


/// A line that the solid rewrite owns inside `[color]`, where it replaces or
/// drops it: a gradient switch, a foreground line, a gradient colour or count
/// line (read after trimming and after a leading `;`).
pub open spec fn solid_setting(l: Seq<char>) -> bool {
    let c = clean_line(trim(l));
    ||| is_mode_line(c)
    ||| "foreground"@.is_prefix_of(c)
    ||| "gradient_color_"@.is_prefix_of(c)
    ||| "gradient_count"@.is_prefix_of(c)
}

/// A line that the gradient rewrite owns inside `[color]`: a gradient switch or
/// a gradient colour line.
pub open spec fn gradient_setting(l: Seq<char>) -> bool {
    let c = clean_line(trim(l));
    is_mode_line(c) || "gradient_color_"@.is_prefix_of(c)
}

/// The lines of `ls` that `owned` does not pick, in order.
pub open spec fn other_lines(ls: Seq<Seq<char>>, owned: spec_fn(Seq<char>) -> bool) -> Seq<Seq<char>>
    decreases ls.len(),
{
    if ls.len() == 0 {
        seq![]
    } else if owned(ls.last()) {
        other_lines(ls.drop_last(), owned)
    } else {
        other_lines(ls.drop_last(), owned).push(ls.last())
    }
}

proof fn lemma_other_push(ls: Seq<Seq<char>>, x: Seq<char>, owned: spec_fn(Seq<char>) -> bool)
    ensures
        other_lines(ls.push(x), owned) == (if owned(x) {
            other_lines(ls, owned)
        } else {
            other_lines(ls, owned).push(x)
        }),
{
    assert(ls.push(x).drop_last() =~= ls);
}

proof fn lemma_written_owned(color: Seq<char>, n: nat, c: Seq<char>)
    ensures
        solid_setting("gradient = 0"@),
        solid_setting(foreground_line(color)),
        gradient_setting("gradient = 1"@),
        gradient_setting(gradient_color_line(n, c)),
{
    lemma_written_lines(color, n, c);
}

proof fn lemma_other_color_lines(out: Seq<Seq<char>>, colors: Seq<Seq<char>>)
    ensures
        other_lines(out + gradient_color_lines(colors), |l: Seq<char>| gradient_setting(l))
            == other_lines(out, |l: Seq<char>| gradient_setting(l)),
    decreases colors.len(),
{
    if colors.len() == 0 {
        assert(out + gradient_color_lines(colors) =~= out);
    } else {
        let dc = colors.drop_last();
        let x = gradient_color_line(colors.len() as nat, colors.last());
        lemma_other_color_lines(out, dc);
        assert(out + gradient_color_lines(colors) =~= (out + gradient_color_lines(dc)).push(x));
        lemma_written_owned(seq![], colors.len() as nat, colors.last());
        lemma_other_push(out + gradient_color_lines(dc), x, |l: Seq<char>| gradient_setting(l));
    }
}

proof fn lemma_solid_other_lines(ls: Seq<Seq<char>>, color: Seq<char>)
    ensures
        other_lines(solid_lines(ls, color).out, |l: Seq<char>| solid_setting(l))
            == other_lines(ls, |l: Seq<char>| solid_setting(l)),
    decreases ls.len(),
{
    let owned = |l: Seq<char>| solid_setting(l);
    if ls.len() == 0 {
        return;
    }
    let dl = ls.drop_last();
    lemma_solid_other_lines(dl, color);
    let st = solid_lines(dl, color);
    let l = ls.last();
    let t = trim(l);
    let m0 = "gradient = 0"@;
    let f = foreground_line(color);
    lemma_written_owned(color, 0, seq![]);
    assert(solid_lines(ls, color) == solid_line(st, l, color));
    lemma_other_push(dl, l, owned);
    assert(dl.push(l) =~= ls);
    if t == "[color]"@ {
        lemma_other_push(st.out, l, owned);
    } else if crate::config::is_section(t) {
        let o1 = if st.in_color && !st.mode_set { st.out.push(m0) } else { st.out };
        let o2 = if st.in_color && !st.colors_set { o1.push(f) } else { o1 };
        if st.in_color && !st.mode_set {
            lemma_other_push(st.out, m0, owned);
        }
        if st.in_color && !st.colors_set {
            lemma_other_push(o1, f, owned);
        }
        lemma_other_push(o2, l, owned);
    } else if st.in_color {
        let c = clean_line(t);
        if is_mode_line(c) {
            lemma_other_push(st.out, m0, owned);
        } else if "foreground"@.is_prefix_of(c) {
            lemma_other_push(st.out, f, owned);
        } else if "gradient_color_"@.is_prefix_of(c) || "gradient_count"@.is_prefix_of(c) {
        } else {
            lemma_other_push(st.out, l, owned);
        }
    } else {
        lemma_other_push(st.out, l, owned);
    }
}

proof fn lemma_gradient_other_lines(ls: Seq<Seq<char>>, colors: Seq<Seq<char>>)
    ensures
        other_lines(gradient_lines(ls, colors).out, |l: Seq<char>| gradient_setting(l))
            == other_lines(ls, |l: Seq<char>| gradient_setting(l)),
    decreases ls.len(),
{
    let owned = |l: Seq<char>| gradient_setting(l);
    if ls.len() == 0 {
        return;
    }
    let dl = ls.drop_last();
    lemma_gradient_other_lines(dl, colors);
    let st = gradient_lines(dl, colors);
    let l = ls.last();
    let t = trim(l);
    let m1 = "gradient = 1"@;
    lemma_written_owned(seq![], 0, seq![]);
    assert(gradient_lines(ls, colors) == gradient_line(st, l, colors));
    lemma_other_push(dl, l, owned);
    assert(dl.push(l) =~= ls);
    if t == "[color]"@ {
        lemma_other_push(st.out, l, owned);
    } else if crate::config::is_section(t) {
        let o1 = if st.in_color && !st.mode_set { st.out.push(m1) } else { st.out };
        let o2 = if st.in_color && !st.colors_set { o1 + gradient_color_lines(colors) } else { o1 };
        if st.in_color && !st.mode_set {
            lemma_other_push(st.out, m1, owned);
        }
        if st.in_color && !st.colors_set {
            lemma_other_color_lines(o1, colors);
        }
        lemma_other_push(o2, l, owned);
    } else if st.in_color {
        let c = clean_line(t);
        if is_mode_line(c) {
            lemma_other_push(st.out, m1, owned);
        } else if "gradient_color_"@.is_prefix_of(c) {
        } else {
            lemma_other_push(st.out, l, owned);
        }
    } else {
        lemma_other_push(st.out, l, owned);
    }
}

/// A rewrite for a solid colour changes no line but the settings it owns
/// ([`solid_setting`]): every other line of the configuration, comments and
/// other settings of `[color]` among them, comes back unchanged and in order,
/// and every line it adds is one it owns.
pub proof fn lemma_solid_keeps_other_lines(ls: Seq<Seq<char>>, color: Seq<char>)
    ensures
        other_lines(solid_output(ls, color), |l: Seq<char>| solid_setting(l))
            == other_lines(ls, |l: Seq<char>| solid_setting(l)),
{
    let owned = |l: Seq<char>| solid_setting(l);
    let st = solid_lines(ls, color);
    let m0 = "gradient = 0"@;
    let f = foreground_line(color);
    lemma_solid_other_lines(ls, color);
    lemma_written_owned(color, 0, seq![]);
    let o1 = if st.in_color && !st.mode_set { st.out.push(m0) } else { st.out };
    if st.in_color && !st.mode_set {
        lemma_other_push(st.out, m0, owned);
    }
    if st.in_color && !st.colors_set {
        lemma_other_push(o1, f, owned);
    }
}

/// A rewrite for a gradient changes no line but the settings it owns
/// ([`gradient_setting`]): every other line, the foreground and the gradient
/// count among them, comes back unchanged and in order.
pub proof fn lemma_gradient_keeps_other_lines(ls: Seq<Seq<char>>, colors: Seq<Seq<char>>)
    ensures
        other_lines(gradient_output(ls, colors), |l: Seq<char>| gradient_setting(l))
            == other_lines(ls, |l: Seq<char>| gradient_setting(l)),
{
    let st = gradient_lines(ls, colors);
    let m1 = "gradient = 1"@;
    lemma_gradient_other_lines(ls, colors);
    lemma_written_owned(seq![], 0, seq![]);
    let o1 = if st.in_color && !st.mode_set { st.out.push(m1) } else { st.out };
    if st.in_color && !st.mode_set {
        lemma_other_push(st.out, m1, |l: Seq<char>| gradient_setting(l));
    }
    if st.in_color && !st.colors_set {
        lemma_other_color_lines(o1, colors);
    }
}

/// The `k`-th colour line written for a gradient is
/// `gradient_color_<k + 1> = '<colors[k]>'`: its number is a decimal numeral of
/// digits only that reads as `k + 1`.
pub proof fn lemma_color_lines_numbered(colors: Seq<Seq<char>>, k: int)
    requires
        0 <= k < colors.len(),
    ensures
        gradient_color_lines(colors).len() == colors.len(),
        gradient_color_lines(colors)[k] == "gradient_color_"@ + decimal((k + 1) as nat) + " = '"@ + colors[k] + "'"@,
        numeral_value(decimal((k + 1) as nat)) == k + 1,
        forall|i: int| 0 <= i < decimal((k + 1) as nat).len() ==> '0' <= #[trigger] decimal((k + 1) as nat)[i] <= '9',
{
    lemma_decimal_reads_back((k + 1) as nat);
}


/// A `[color]` section with nothing in it is filled, for a gradient, with the
/// switch `gradient = 1` and then one numbered line per colour, in order; for a
/// solid colour, with `gradient = 0` and the foreground line.
pub proof fn lemma_empty_section_filled(colors: Seq<Seq<char>>, color: Seq<char>)
    ensures
        gradient_output(seq!["[color]"@], colors) == seq!["[color]"@, "gradient = 1"@] + gradient_color_lines(colors),
        solid_output(seq!["[color]"@], color) == seq!["[color]"@, "gradient = 0"@, foreground_line(color)],
{
    reveal_strlit("[color]");
    let h = "[color]"@;
    assert(h[0] == '[' && h.last() == ']');
    crate::roundtrip::lemma_trim_fixed(h);
    let ls = seq![h];
    assert(ls.drop_last() =~= Seq::<Seq<char>>::empty());
    assert(ls.last() == h);
    assert(seq![h].push("gradient = 1"@) =~= seq![h, "gradient = 1"@]);
    assert(seq![h].push("gradient = 0"@).push(foreground_line(color)) =~= seq![h, "gradient = 0"@, foreground_line(color)]);
    assert(Seq::<Seq<char>>::empty().push(h) =~= seq![h]);
    let e = Seq::<Seq<char>>::empty();
    assert(gradient_lines(e, colors) == crate::rewrite::rewrite_start());
    assert(solid_lines(e, color) == crate::rewrite::rewrite_start());
    assert(gradient_lines(ls, colors) == gradient_line(gradient_lines(e, colors), h, colors));
    assert(solid_lines(ls, color) == solid_line(solid_lines(e, color), h, color));
    assert(gradient_lines(ls, colors) == (Rewrite { out: seq![h], in_color: true, mode_set: false, colors_set: false }));
    assert(solid_lines(ls, color) == (Rewrite { out: seq![h], in_color: true, mode_set: false, colors_set: false }));
}

} // verus!
