//! Rewriting again changes nothing, and a solid colour written over a gradient
//! gives what the solid colour alone gives.

use vstd::prelude::*;
use crate::config::{clean_line, is_section};
use crate::rewrite::{
    foreground_line, gradient_color_line, gradient_color_lines, gradient_line, gradient_lines,
    gradient_output, gradient_text, is_mode_line, solid_line, solid_lines, solid_output, solid_text,
    Rewrite,
};
use crate::roundtrip::{all_no_newline, lemma_decimal_first, lemma_scan_join, strip_all_cr};
use crate::preserve::{lemma_gradient_keeps_lines_before_color, lemma_solid_keeps_lines_before_color, no_color_line};
use crate::text::{join_lines, lines, strip_cr, trim, trim_start};

verus! {

/// Whether the lines `ls`, joined by `'\n'`, split back into `ls`: no line holds a
/// line break, no line but the last ends in a carriage return, and the last
/// line is not empty.
pub open spec fn rejoins(ls: Seq<Seq<char>>) -> bool {
    &&& all_no_newline(ls)
    &&& forall|i: int| 0 <= i < ls.len() - 1 ==> strip_cr(#[trigger] ls[i]) == ls[i]
    &&& (ls.len() == 0 || ls.last().len() > 0)
}

proof fn lemma_rejoin(ls: Seq<Seq<char>>)
    requires
        rejoins(ls),
    ensures
        lines(join_lines(ls)) == ls,
{
    if ls.len() == 0 {
        assert(lines(join_lines(ls)) =~= ls);
    } else {
        lemma_scan_join(ls);
        assert(strip_all_cr(ls.drop_last()) =~= ls.drop_last());
        assert(ls.drop_last().push(ls.last()) =~= ls);
    }
}

/// What the written lines look like to a rewrite: they are trimmed already,
/// open no section and are not commented out; the switch lines are switch
/// lines, the foreground line begins with `foreground`, the colour lines with
/// `gradient_color_`.
pub(crate) proof fn lemma_written_lines(color: Seq<char>, n: nat, c: Seq<char>)
    ensures
        trim("gradient = 0"@) == "gradient = 0"@,
        trim("gradient = 1"@) == "gradient = 1"@,
        trim(foreground_line(color)) == foreground_line(color),
        trim(gradient_color_line(n, c)) == gradient_color_line(n, c),
        "gradient = 0"@ != "[color]"@ && !is_section("gradient = 0"@),
        "gradient = 1"@ != "[color]"@ && !is_section("gradient = 1"@),
        foreground_line(color) != "[color]"@ && !is_section(foreground_line(color)),
        gradient_color_line(n, c) != "[color]"@ && !is_section(gradient_color_line(n, c)),
        clean_line("gradient = 0"@) == "gradient = 0"@,
        clean_line("gradient = 1"@) == "gradient = 1"@,
        clean_line(foreground_line(color)) == foreground_line(color),
        clean_line(gradient_color_line(n, c)) == gradient_color_line(n, c),
        is_mode_line("gradient = 0"@),
        is_mode_line("gradient = 1"@),
        !is_mode_line(foreground_line(color)),
        "foreground"@.is_prefix_of(foreground_line(color)),
        !is_mode_line(gradient_color_line(n, c)),
        !"foreground"@.is_prefix_of(gradient_color_line(n, c)),
        "gradient_color_"@.is_prefix_of(gradient_color_line(n, c)),
{
    reveal_strlit("gradient = 0");
    reveal_strlit("gradient = 1");
    reveal_strlit("foreground = '");
    reveal_strlit("'");
    reveal_strlit("gradient_color_");
    reveal_strlit(" = '");
    reveal_strlit("[color]");
    reveal_strlit("gradient ");
    reveal_strlit("gradient_color");
    reveal_strlit("foreground");
    lemma_decimal_first(n);
    let m0 = "gradient = 0"@;
    let m1 = "gradient = 1"@;
    let f = foreground_line(color);
    let g = gradient_color_line(n, c);
    assert(m0 =~= seq!['g', 'r', 'a', 'd', 'i', 'e', 'n', 't', ' ', '=', ' ', '0']);
    assert(m1 =~= seq!['g', 'r', 'a', 'd', 'i', 'e', 'n', 't', ' ', '=', ' ', '1']);
    assert(f[0] == 'f' && f.last() == '\'');
    assert(g[0] == 'g' && g.last() == '\'');
    crate::roundtrip::lemma_trim_fixed(m0);
    crate::roundtrip::lemma_trim_fixed(m1);
    crate::roundtrip::lemma_trim_fixed(f);
    crate::roundtrip::lemma_trim_fixed(g);
    assert("[color]"@[0] == '[');
    assert("gradient "@ =~= m0.subrange(0, 9));
    assert("gradient "@ =~= m1.subrange(0, 9));
    assert("gradient_color"@.len() == 14);
    assert(f.subrange(0, 9)[0] != "gradient "@[0]);
    assert("foreground"@ =~= f.subrange(0, 10));
    assert(g.subrange(0, 9)[8] != "gradient "@[8]);
    assert(g.subrange(0, 10)[0] != "foreground"@[0]);
    assert("gradient_color_"@ =~= g.subrange(0, 15));
}

proof fn lemma_solid_push(x: Seq<Seq<char>>, a: Seq<char>, color: Seq<char>)
    ensures
        solid_lines(x.push(a), color) == solid_line(solid_lines(x, color), a, color),
{
    assert(x.push(a).drop_last() =~= x);
}

proof fn lemma_gradient_push(x: Seq<Seq<char>>, a: Seq<char>, colors: Seq<Seq<char>>)
    ensures
        gradient_lines(x.push(a), colors) == gradient_line(gradient_lines(x, colors), a, colors),
{
    assert(x.push(a).drop_last() =~= x);
}

/// Inside a `[color]` section, the solid rewrite drops gradient colour lines.
proof fn lemma_solid_drops_color_lines(x: Seq<Seq<char>>, cs: Seq<Seq<char>>, color: Seq<char>)
    requires
        solid_lines(x, color).in_color,
    ensures
        solid_lines(x + gradient_color_lines(cs), color) == solid_lines(x, color),
    decreases cs.len(),
{
    if cs.len() == 0 {
        assert(x + gradient_color_lines(cs) =~= x);
    } else {
        let d = cs.drop_last();
        lemma_solid_drops_color_lines(x, d, color);
        let l = gradient_color_line(cs.len() as nat, cs.last());
        assert(x + gradient_color_lines(cs) =~= (x + gradient_color_lines(d)).push(l));
        lemma_solid_push(x + gradient_color_lines(d), l, color);
        lemma_written_lines(color, cs.len() as nat, cs.last());
    }
}

/// Inside a `[color]` section, the gradient rewrite drops gradient colour lines.
proof fn lemma_gradient_drops_color_lines(x: Seq<Seq<char>>, cs: Seq<Seq<char>>, colors: Seq<Seq<char>>)
    requires
        gradient_lines(x, colors).in_color,
    ensures
        gradient_lines(x + gradient_color_lines(cs), colors) == gradient_lines(x, colors),
    decreases cs.len(),
{
    if cs.len() == 0 {
        assert(x + gradient_color_lines(cs) =~= x);
    } else {
        let d = cs.drop_last();
        lemma_gradient_drops_color_lines(x, d, colors);
        let l = gradient_color_line(cs.len() as nat, cs.last());
        assert(x + gradient_color_lines(cs) =~= (x + gradient_color_lines(d)).push(l));
        lemma_gradient_push(x + gradient_color_lines(d), l, colors);
        lemma_written_lines(seq![], cs.len() as nat, cs.last());
    }
}

/// Rewriting for a solid colour what has been rewritten for it already gives
/// the same lines, in the same state, at every step.
proof fn lemma_solid_stable_lines(ls: Seq<Seq<char>>, color: Seq<char>)
    ensures
        solid_lines(solid_lines(ls, color).out, color) == solid_lines(ls, color),
    decreases ls.len(),
{
    if ls.len() == 0 {
        return;
    }
    let dl = ls.drop_last();
    lemma_solid_stable_lines(dl, color);
    let st = solid_lines(dl, color);
    let l = ls.last();
    let t = trim(l);
    let m0 = "gradient = 0"@;
    let f = foreground_line(color);
    lemma_written_lines(color, 0, seq![]);
    if t == "[color]"@ {
        lemma_solid_push(st.out, l, color);
    } else if is_section(t) {
        let o1 = if st.in_color && !st.mode_set { st.out.push(m0) } else { st.out };
        let o2 = if st.in_color && !st.colors_set { o1.push(f) } else { o1 };
        if st.in_color && !st.mode_set {
            lemma_solid_push(st.out, m0, color);
        }
        if st.in_color && !st.colors_set {
            lemma_solid_push(o1, f, color);
        }
        lemma_solid_push(o2, l, color);
    } else if st.in_color {
        let c = clean_line(t);
        if is_mode_line(c) {
            lemma_solid_push(st.out, m0, color);
        } else if "foreground"@.is_prefix_of(c) {
            lemma_solid_push(st.out, f, color);
        } else if "gradient_color_"@.is_prefix_of(c) || "gradient_count"@.is_prefix_of(c) {
        } else {
            lemma_solid_push(st.out, l, color);
        }
    } else {
        lemma_solid_push(st.out, l, color);
    }
}

/// Rewriting for a gradient what has been rewritten for it already gives the
/// same lines, in the same state, at every step.
proof fn lemma_gradient_stable_lines(ls: Seq<Seq<char>>, colors: Seq<Seq<char>>)
    ensures
        gradient_lines(gradient_lines(ls, colors).out, colors) == gradient_lines(ls, colors),
    decreases ls.len(),
{
    if ls.len() == 0 {
        return;
    }
    let dl = ls.drop_last();
    lemma_gradient_stable_lines(dl, colors);
    let st = gradient_lines(dl, colors);
    let l = ls.last();
    let t = trim(l);
    let m1 = "gradient = 1"@;
    lemma_written_lines(seq![], 0, seq![]);
    if t == "[color]"@ {
        lemma_gradient_push(st.out, l, colors);
    } else if is_section(t) {
        let o1 = if st.in_color && !st.mode_set { st.out.push(m1) } else { st.out };
        let o2 = if st.in_color && !st.colors_set { o1 + gradient_color_lines(colors) } else { o1 };
        if st.in_color && !st.mode_set {
            lemma_gradient_push(st.out, m1, colors);
        }
        if st.in_color && !st.colors_set {
            lemma_gradient_drops_color_lines(o1, colors, colors);
        }
        lemma_gradient_push(o2, l, colors);
    } else if st.in_color {
        let c = clean_line(t);
        if is_mode_line(c) {
            lemma_gradient_push(st.out, m1, colors);
        } else if "gradient_color_"@.is_prefix_of(c) {
        } else {
            lemma_gradient_push(st.out, l, colors);
        }
    } else {
        lemma_gradient_push(st.out, l, colors);
    }
}

/// Rewriting the lines again for the same solid colour changes nothing.
pub proof fn lemma_solid_output_stable(ls: Seq<Seq<char>>, color: Seq<char>)
    ensures
        solid_output(solid_output(ls, color), color) == solid_output(ls, color),
{
    let st = solid_lines(ls, color);
    let m0 = "gradient = 0"@;
    let f = foreground_line(color);
    lemma_solid_stable_lines(ls, color);
    lemma_written_lines(color, 0, seq![]);
    let o1 = if st.in_color && !st.mode_set { st.out.push(m0) } else { st.out };
    if st.in_color && !st.mode_set {
        lemma_solid_push(st.out, m0, color);
    }
    if st.in_color && !st.colors_set {
        lemma_solid_push(o1, f, color);
    }
}

/// Rewriting the lines again for the same gradient changes nothing.
pub proof fn lemma_gradient_output_stable(ls: Seq<Seq<char>>, colors: Seq<Seq<char>>)
    ensures
        gradient_output(gradient_output(ls, colors), colors) == gradient_output(ls, colors),
{
    let st = gradient_lines(ls, colors);
    let m1 = "gradient = 1"@;
    lemma_gradient_stable_lines(ls, colors);
    lemma_written_lines(seq![], 0, seq![]);
    let o1 = if st.in_color && !st.mode_set { st.out.push(m1) } else { st.out };
    if st.in_color && !st.mode_set {
        lemma_gradient_push(st.out, m1, colors);
    }
    if st.in_color && !st.colors_set {
        lemma_gradient_drops_color_lines(o1, colors, colors);
    }
}

/// A text whose only line is empty (such as `"\n"`) holds no `[color]` line, and
/// both rewrites turn it into the empty text, which they leave empty.
proof fn lemma_single_empty_line(content: Seq<char>, color: Seq<char>, colors: Seq<Seq<char>>)
    requires
        lines(content) == seq![Seq::<char>::empty()],
    ensures
        solid_text(content, color) == Seq::<char>::empty(),
        gradient_text(content, colors) == Seq::<char>::empty(),
        solid_text(Seq::<char>::empty(), color) == Seq::<char>::empty(),
        gradient_text(Seq::<char>::empty(), colors) == Seq::<char>::empty(),
{
    let ls = lines(content);
    let e = Seq::<char>::empty();
    assert(trim_start(e) == e);
    assert(trim(e) == e);
    reveal_strlit("[color]");
    assert(e != "[color]"@);
    assert(no_color_line(ls));
    lemma_solid_keeps_lines_before_color(ls, color, 0);
    lemma_gradient_keeps_lines_before_color(ls, colors, 0);
    assert(lines(e) =~= Seq::<Seq<char>>::empty());
    let none = Seq::<Seq<char>>::empty();
    assert(no_color_line(none));
    lemma_solid_keeps_lines_before_color(none, color, 0);
    lemma_gradient_keeps_lines_before_color(none, colors, 0);
}

/// Writing the same solid colour twice gives what writing it once gives, when
/// the written lines split back into themselves (see [`rejoins`]: it fails for
/// instance on `"[x]\n\n"`, written as `"[x]\n"` and then as `"[x]"`), or the
/// text's only line is empty.
pub proof fn lemma_solid_text_stable(content: Seq<char>, color: Seq<char>)
    requires
        rejoins(solid_output(lines(content), color)) || lines(content) == seq![Seq::<char>::empty()],
    ensures
        solid_text(solid_text(content, color), color) == solid_text(content, color),
{
    if rejoins(solid_output(lines(content), color)) {
        lemma_rejoin(solid_output(lines(content), color));
        lemma_solid_output_stable(lines(content), color);
    } else {
        lemma_single_empty_line(content, color, seq![]);
    }
}

/// Writing the same gradient twice gives what writing it once gives, when the
/// written lines split back into themselves (see [`rejoins`]), or the text's
/// only line is empty.
pub proof fn lemma_gradient_text_stable(content: Seq<char>, colors: Seq<Seq<char>>)
    requires
        rejoins(gradient_output(lines(content), colors)) || lines(content) == seq![Seq::<char>::empty()],
    ensures
        gradient_text(gradient_text(content, colors), colors) == gradient_text(content, colors),
{
    if rejoins(gradient_output(lines(content), colors)) {
        lemma_rejoin(gradient_output(lines(content), colors));
        lemma_gradient_output_stable(lines(content), colors);
    } else {
        lemma_single_empty_line(content, seq![], colors);
    }
}

proof fn lemma_solid_over_gradient_lines(ls: Seq<Seq<char>>, colors: Seq<Seq<char>>, color: Seq<char>)
    ensures
        solid_lines(gradient_lines(ls, colors).out, color) == solid_lines(ls, color),
        gradient_lines(ls, colors).in_color == solid_lines(ls, color).in_color,
        gradient_lines(ls, colors).mode_set == solid_lines(ls, color).mode_set,
    decreases ls.len(),
{
    if ls.len() == 0 {
        return;
    }
    let dl = ls.drop_last();
    lemma_solid_over_gradient_lines(dl, colors, color);
    let g = gradient_lines(dl, colors);
    let st = solid_lines(dl, color);
    let l = ls.last();
    let t = trim(l);
    let m1 = "gradient = 1"@;
    lemma_written_lines(color, 0, seq![]);
    if t == "[color]"@ {
        lemma_solid_push(g.out, l, color);
    } else if is_section(t) {
        let o1 = if g.in_color && !g.mode_set { g.out.push(m1) } else { g.out };
        let o2 = if g.in_color && !g.colors_set { o1 + gradient_color_lines(colors) } else { o1 };
        if g.in_color && !g.mode_set {
            lemma_solid_push(g.out, m1, color);
        }
        if g.in_color && !g.colors_set {
            lemma_solid_drops_color_lines(o1, colors, color);
        }
        lemma_solid_push(o2, l, color);
    } else if g.in_color {
        let c = clean_line(t);
        crate::roundtrip::lemma_key_prefixes(c);
        reveal_strlit("gradient_color_");
        reveal_strlit("gradient ");
        if is_mode_line(c) {
            lemma_solid_push(g.out, m1, color);
        } else if "gradient_color_"@.is_prefix_of(c) {
        } else {
            lemma_solid_push(g.out, l, color);
        }
    } else {
        lemma_solid_push(g.out, l, color);
    }
}

/// A solid colour written over a gradient gives the lines that the solid colour
/// alone gives.
pub proof fn lemma_solid_over_gradient_output(ls: Seq<Seq<char>>, colors: Seq<Seq<char>>, color: Seq<char>)
    ensures
        solid_output(gradient_output(ls, colors), color) == solid_output(ls, color),
{
    let g = gradient_lines(ls, colors);
    let st = solid_lines(ls, color);
    let m1 = "gradient = 1"@;
    lemma_solid_over_gradient_lines(ls, colors, color);
    lemma_written_lines(color, 0, seq![]);
    let o1 = if g.in_color && !g.mode_set { g.out.push(m1) } else { g.out };
    if g.in_color && !g.mode_set {
        lemma_solid_push(g.out, m1, color);
    }
    if g.in_color && !g.colors_set {
        lemma_solid_drops_color_lines(o1, colors, color);
    }
}

/// A solid colour written over a gradient gives the text that the solid colour
/// alone gives, when the gradient's lines split back into themselves (see
/// [`rejoins`]: it fails for instance on `"[color]\n[x]\n\n"`, whose last empty
/// line the gradient write loses), or when the text's only line is empty.
pub proof fn lemma_solid_over_gradient_text(content: Seq<char>, colors: Seq<Seq<char>>, color: Seq<char>)
    requires
        rejoins(gradient_output(lines(content), colors)) || lines(content) == seq![Seq::<char>::empty()],
    ensures
        solid_text(gradient_text(content, colors), color) == solid_text(content, color),
{
    if rejoins(gradient_output(lines(content), colors)) {
        lemma_rejoin(gradient_output(lines(content), colors));
        lemma_solid_over_gradient_output(lines(content), colors, color);
    } else {
        lemma_single_empty_line(content, color, colors);
    }
}

} // verus!
