//! Rewriting the `[color]` section of a Cava configuration for a solid colour
//! or for a gradient, keeping every other line as it was.

use vstd::prelude::*;
use crate::config::{clean_line, clean_line_chars, is_section, is_section_line, string_views};
use crate::text::{
    decimal, decimal_chars, equals, join_lines, join_with_newlines, lines, split_lines,
    starts_with, to_chars, trim, trim_chars, views,
};

verus! {

/// The line that sets a solid foreground colour.
pub open spec fn foreground_line(color: Seq<char>) -> Seq<char> {
    "foreground = '"@ + color + "'"@
}

/// The line that sets the `n`-th gradient colour (counted from one).
pub open spec fn gradient_color_line(n: nat, color: Seq<char>) -> Seq<char> {
    "gradient_color_"@ + decimal(n) + " = '"@ + color + "'"@
}

/// The lines that set the gradient colours `colors`, in order.
pub open spec fn gradient_color_lines(colors: Seq<Seq<char>>) -> Seq<Seq<char>> {
    Seq::new(colors.len(), |i: int| gradient_color_line((i + 1) as nat, colors[i]))
}

/// The state of a rewrite after some lines: the lines written, whether the
/// last section opened is `[color]`, and which settings have been written.
pub struct Rewrite {
    pub out: Seq<Seq<char>>,
    pub in_color: bool,
    pub mode_set: bool,
    pub colors_set: bool,
}

pub open spec fn rewrite_start() -> Rewrite {
    Rewrite { out: seq![], in_color: false, mode_set: false, colors_set: false }
}

/// A line of the `[color]` section that switches the gradient mode.
pub open spec fn is_mode_line(c: Seq<char>) -> bool {
    "gradient "@.is_prefix_of(c) && !"gradient_color"@.is_prefix_of(c)
}

/// The effect of one line on a rewrite for the solid colour `color`: the
/// gradient switch becomes `gradient = 0`, every foreground line becomes
/// `foreground = '<color>'`, gradient colour and count lines go, and what is
/// missing from a `[color]` section is added before the next section opens.
pub open spec fn solid_line(st: Rewrite, line: Seq<char>, color: Seq<char>) -> Rewrite {
    let t = trim(line);
    if t == "[color]"@ {
        Rewrite { out: st.out.push(line), in_color: true, mode_set: st.mode_set, colors_set: st.colors_set }
    } else if is_section(t) {
        let o1 = if st.in_color && !st.mode_set { st.out.push("gradient = 0"@) } else { st.out };
        let o2 = if st.in_color && !st.colors_set { o1.push(foreground_line(color)) } else { o1 };
        Rewrite {
            out: o2.push(line),
            in_color: false,
            mode_set: st.mode_set || st.in_color,
            colors_set: st.colors_set || st.in_color,
        }
    } else if st.in_color {
        let c = clean_line(t);
        if is_mode_line(c) {
            Rewrite { out: st.out.push("gradient = 0"@), in_color: true, mode_set: true, colors_set: st.colors_set }
        } else if "foreground"@.is_prefix_of(c) {
            Rewrite { out: st.out.push(foreground_line(color)), in_color: true, mode_set: st.mode_set, colors_set: true }
        } else if "gradient_color_"@.is_prefix_of(c) || "gradient_count"@.is_prefix_of(c) {
            st
        } else {
            Rewrite { out: st.out.push(line), in_color: true, mode_set: st.mode_set, colors_set: st.colors_set }
        }
    } else {
        Rewrite { out: st.out.push(line), in_color: false, mode_set: st.mode_set, colors_set: st.colors_set }
    }
}

pub open spec fn solid_lines(ls: Seq<Seq<char>>, color: Seq<char>) -> Rewrite
    decreases ls.len(),
{
    if ls.len() == 0 {
        rewrite_start()
    } else {
        solid_line(solid_lines(ls.drop_last(), color), ls.last(), color)
    }
}

/// The lines written for the solid colour `color`, with what a `[color]`
/// section still open at the end lacks added after the last line.
pub open spec fn solid_output(ls: Seq<Seq<char>>, color: Seq<char>) -> Seq<Seq<char>> {
    let st = solid_lines(ls, color);
    let o1 = if st.in_color && !st.mode_set { st.out.push("gradient = 0"@) } else { st.out };
    if st.in_color && !st.colors_set { o1.push(foreground_line(color)) } else { o1 }
}

/// The configuration text `content` rewritten for the solid colour `color`.
pub open spec fn solid_text(content: Seq<char>, color: Seq<char>) -> Seq<char> {
    join_lines(solid_output(lines(content), color))
}

/// The effect of one line on a rewrite for the gradient `colors`: the gradient
/// switch becomes `gradient = 1`, old gradient colour lines go, and what is
/// missing from a `[color]` section (the switch, then the colour lines) is added
/// before the next section opens.
pub open spec fn gradient_line(st: Rewrite, line: Seq<char>, colors: Seq<Seq<char>>) -> Rewrite {
    let t = trim(line);
    if t == "[color]"@ {
        Rewrite { out: st.out.push(line), in_color: true, mode_set: st.mode_set, colors_set: st.colors_set }
    } else if is_section(t) {
        let o1 = if st.in_color && !st.mode_set { st.out.push("gradient = 1"@) } else { st.out };
        let o2 = if st.in_color && !st.colors_set { o1 + gradient_color_lines(colors) } else { o1 };
        Rewrite {
            out: o2.push(line),
            in_color: false,
            mode_set: st.mode_set || st.in_color,
            colors_set: st.colors_set || st.in_color,
        }
    } else if st.in_color {
        let c = clean_line(t);
        if is_mode_line(c) {
            Rewrite { out: st.out.push("gradient = 1"@), in_color: true, mode_set: true, colors_set: st.colors_set }
        } else if "gradient_color_"@.is_prefix_of(c) {
            st
        } else {
            Rewrite { out: st.out.push(line), in_color: true, mode_set: st.mode_set, colors_set: st.colors_set }
        }
    } else {
        Rewrite { out: st.out.push(line), in_color: false, mode_set: st.mode_set, colors_set: st.colors_set }
    }
}

pub open spec fn gradient_lines(ls: Seq<Seq<char>>, colors: Seq<Seq<char>>) -> Rewrite
    decreases ls.len(),
{
    if ls.len() == 0 {
        rewrite_start()
    } else {
        gradient_line(gradient_lines(ls.drop_last(), colors), ls.last(), colors)
    }
}

/// The lines written for the gradient `colors`, with what a `[color]` section
/// still open at the end lacks added after the last line.
pub open spec fn gradient_output(ls: Seq<Seq<char>>, colors: Seq<Seq<char>>) -> Seq<Seq<char>> {
    let st = gradient_lines(ls, colors);
    let o1 = if st.in_color && !st.mode_set { st.out.push("gradient = 1"@) } else { st.out };
    if st.in_color && !st.colors_set { o1 + gradient_color_lines(colors) } else { o1 }
}

/// The configuration text `content` rewritten for the gradient `colors`.
pub open spec fn gradient_text(content: Seq<char>, colors: Seq<Seq<char>>) -> Seq<char> {
    join_lines(gradient_output(lines(content), colors))
}

fn literal_line(s: &str) -> (r: Vec<char>)
    ensures
        r@ == s@,
{
    to_chars(s)
}

fn append_chars(dst: &mut Vec<char>, src: &Vec<char>)
    ensures
        final(dst)@ == old(dst)@ + src@,
{
    let mut i: usize = 0;
    while i < src.len()
        invariant
            i <= src@.len(),
            dst@ == old(dst)@ + src@.take(i as int),
        decreases src.len() - i,
    {
        dst.push(src[i]);
        assert(src@.take(i + 1) =~= src@.take(i as int).push(src@[i as int]));
        i = i + 1;
    }
    assert(src@.take(src@.len() as int) =~= src@);
}

fn foreground_line_chars(color: &Vec<char>) -> (r: Vec<char>)
    ensures
        r@ == foreground_line(color@),
{
    let mut r = to_chars("foreground = '");
    append_chars(&mut r, color);
    append_chars(&mut r, &to_chars("'"));
    r
}

fn gradient_color_line_chars(n: usize, color: &Vec<char>) -> (r: Vec<char>)
    ensures
        r@ == gradient_color_line(n as nat, color@),
{
    let mut r = to_chars("gradient_color_");
    append_chars(&mut r, &decimal_chars(n));
    append_chars(&mut r, &to_chars(" = '"));
    append_chars(&mut r, color);
    append_chars(&mut r, &to_chars("'"));
    r
}

fn push_line(out: &mut Vec<Vec<char>>, line: Vec<char>)
    ensures
        views(final(out)@) == views(old(out)@).push(line@),
{
    out.push(line);
    assert(views(out@) =~= views(old(out)@).push(line@));
}

fn copy_line(line: &Vec<char>) -> (r: Vec<char>)
    ensures
        r@ == line@,
{
    let mut r: Vec<char> = Vec::new();
    append_chars(&mut r, line);
    r
}

fn push_color_lines(out: &mut Vec<Vec<char>>, colors: &Vec<Vec<char>>)
    requires
        colors@.len() < usize::MAX,
    ensures
        views(final(out)@) == views(old(out)@) + gradient_color_lines(views(colors@)),
{
    let mut i: usize = 0;
    while i < colors.len()
        invariant
            i <= colors@.len() < usize::MAX,
            views(out@) == views(old(out)@) + gradient_color_lines(views(colors@)).take(i as int),
        decreases colors.len() - i,
    {
        let line = gradient_color_line_chars(i + 1, &colors[i]);
        push_line(out, line);
        assert(gradient_color_lines(views(colors@)).take(i + 1) =~= gradient_color_lines(
            views(colors@),
        ).take(i as int).push(gradient_color_line((i + 1) as nat, colors@[i as int]@)));
        i = i + 1;
    }
    assert(gradient_color_lines(views(colors@)).take(colors@.len() as int) =~= gradient_color_lines(
        views(colors@),
    ));
}

/// The configuration text `content` rewritten for the solid colour `color`:
/// in the `[color]` section the gradient is switched off, the foreground is set
/// to `color` and gradient colour and count lines are removed; all other lines
/// are kept. The lines are joined by `'\n'`.
pub fn apply_solid_color(content: &str, color: &str) -> (r: String)
    ensures
        r@ == solid_text(content@, color@),
{
    let chars = to_chars(content);
    let ls = split_lines(&chars);
    let col = to_chars(color);
    let ghost lv = lines(content@);
    let mut out: Vec<Vec<char>> = Vec::new();
    let mut in_color = false;
    let mut gradient_set = false;
    let mut foreground_set = false;
    let mut i: usize = 0;
    assert(views(out@) =~= seq![]);
    while i < ls.len()
        invariant
            i <= ls@.len(),
            views(ls@) == lv,
            lv == lines(content@),
            col@ == color@,
            (Rewrite { out: views(out@), in_color, mode_set: gradient_set, colors_set: foreground_set })
                == solid_lines(lv.take(i as int), color@),
        decreases ls.len() - i,
    {
        assert(lv.take(i + 1).drop_last() =~= lv.take(i as int));
        let line = &ls[i];
        assert(lv[i as int] == line@);
        let t = trim_chars(line);
        if equals(&t, "[color]") {
            in_color = true;
            push_line(&mut out, copy_line(line));
        } else if is_section_line(&t) {
            if in_color && !gradient_set {
                push_line(&mut out, literal_line("gradient = 0"));
                gradient_set = true;
            }
            if in_color && !foreground_set {
                push_line(&mut out, foreground_line_chars(&col));
                foreground_set = true;
            }
            in_color = false;
            push_line(&mut out, copy_line(line));
        } else if in_color {
            let c = clean_line_chars(&t);
            if starts_with(&c, "gradient ") && !starts_with(&c, "gradient_color") {
                push_line(&mut out, literal_line("gradient = 0"));
                gradient_set = true;
            } else if starts_with(&c, "foreground") {
                push_line(&mut out, foreground_line_chars(&col));
                foreground_set = true;
            } else if starts_with(&c, "gradient_color_") || starts_with(&c, "gradient_count") {
            } else {
                push_line(&mut out, copy_line(line));
            }
        } else {
            push_line(&mut out, copy_line(line));
        }
        i = i + 1;
    }
    assert(lv.take(ls@.len() as int) =~= lv);
    if in_color && !gradient_set {
        push_line(&mut out, literal_line("gradient = 0"));
    }
    if in_color && !foreground_set {
        push_line(&mut out, foreground_line_chars(&col));
    }
    join_with_newlines(&out)
}

/// The configuration text `content` rewritten for the gradient `colors`: in
/// the `[color]` section the gradient is switched on and the old gradient
/// colour lines are replaced by `gradient_color_<n> = '<colour>'` lines, one
/// per colour, numbered from one; all other lines are kept. The lines are joined
/// by `'\n'`.
pub fn apply_gradient(content: &str, colors: &[String]) -> (r: String)
    requires
        colors@.len() < usize::MAX,
    ensures
        r@ == gradient_text(content@, string_views(colors@)),
{
    let chars = to_chars(content);
    let ls = split_lines(&chars);
    let mut cols: Vec<Vec<char>> = Vec::new();
    let mut k: usize = 0;
    while k < colors.len()
        invariant
            k <= colors@.len(),
            views(cols@) == string_views(colors@).take(k as int),
        decreases colors.len() - k,
    {
        push_line(&mut cols, to_chars(colors[k].as_str()));
        assert(string_views(colors@).take(k + 1) =~= string_views(colors@).take(k as int).push(
            colors@[k as int]@,
        ));
        k = k + 1;
    }
    assert(string_views(colors@).take(colors@.len() as int) =~= string_views(colors@));
    let ghost cv = string_views(colors@);
    let ghost lv = lines(content@);
    let mut out: Vec<Vec<char>> = Vec::new();
    let mut in_color = false;
    let mut gradient_set = false;
    let mut colors_added = false;
    let mut i: usize = 0;
    assert(views(out@) =~= seq![]);
    while i < ls.len()
        invariant
            i <= ls@.len(),
            views(ls@) == lv,
            lv == lines(content@),
            views(cols@) == cv,
            cols@.len() < usize::MAX,
            (Rewrite { out: views(out@), in_color, mode_set: gradient_set, colors_set: colors_added })
                == gradient_lines(lv.take(i as int), cv),
        decreases ls.len() - i,
    {
        assert(lv.take(i + 1).drop_last() =~= lv.take(i as int));
        let line = &ls[i];
        assert(lv[i as int] == line@);
        let t = trim_chars(line);
        if equals(&t, "[color]") {
            in_color = true;
            push_line(&mut out, copy_line(line));
        } else if is_section_line(&t) {
            if in_color && !gradient_set {
                push_line(&mut out, literal_line("gradient = 1"));
                gradient_set = true;
            }
            if in_color && !colors_added {
                push_color_lines(&mut out, &cols);
                colors_added = true;
            }
            in_color = false;
            push_line(&mut out, copy_line(line));
        } else if in_color {
            let c = clean_line_chars(&t);
            if starts_with(&c, "gradient ") && !starts_with(&c, "gradient_color") {
                push_line(&mut out, literal_line("gradient = 1"));
                gradient_set = true;
            } else if starts_with(&c, "gradient_color_") {
            } else {
                push_line(&mut out, copy_line(line));
            }
        } else {
            push_line(&mut out, copy_line(line));
        }
        i = i + 1;
    }
    assert(lv.take(ls@.len() as int) =~= lv);
    if in_color && !gradient_set {
        push_line(&mut out, literal_line("gradient = 1"));
    }
    if in_color && !colors_added {
        push_color_lines(&mut out, &cols);
    }
    join_with_newlines(&out)
}

} // verus!
