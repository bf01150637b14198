//! What reading a configuration gives back after it has been rewritten.

use vstd::prelude::*;
use crate::config::{
    assignment, clean_line, color_value, config_of, is_section, read_line, read_line_panics,
    read_lines, read_panics, setting_of, ConfigView, ReadState, Setting,
};
use crate::rewrite::{
    foreground_line, gradient_color_line, gradient_color_lines, gradient_line, gradient_lines,
    gradient_output, gradient_text, is_mode_line, rewrite_start, solid_line, solid_lines, solid_output,
    solid_text, Rewrite,
};
use crate::text::{
    decimal, digit_char, is_ws, join_lines, line_scan, lines, strip_cr, trim, trim_end, trim_start,
};

verus! {

/// Whether some line of `ls` opens the `[color]` section.
pub open spec fn has_color_section(ls: Seq<Seq<char>>) -> bool {
    exists|i: int| 0 <= i < ls.len() && trim(#[trigger] ls[i]) == "[color]"@
}

/// A `[color]` line that the reader takes for the gradient switch but the
/// rewrite keeps as it is: `gradient`, then something other than a space before
/// the `=` (for instance `gradient=1` or `gradient\t= 1`).
pub open spec fn stray_switch(c: Seq<char>) -> bool {
    assignment(c, "gradient"@) is Some && !is_mode_line(c)
}

/// Whether a line inside a `[color]` section of `ls` is a stray gradient switch.
pub open spec fn has_stray_switch(ls: Seq<Seq<char>>) -> bool {
    exists|i: int|
        0 <= i < ls.len() && read_lines(ls.take(i)).in_color && !is_section(trim(#[trigger] ls[i]))
            && stray_switch(clean_line(trim(ls[i])))
}

pub open spec fn no_newline(s: Seq<char>) -> bool {
    forall|i: int| 0 <= i < s.len() ==> s[i] != '\n'
}

pub open spec fn all_no_newline(ls: Seq<Seq<char>>) -> bool {
    forall|i: int| 0 <= i < ls.len() ==> no_newline(#[trigger] ls[i])
}

// ---------------------------------------------------------------- trimming

pub(crate) proof fn lemma_trim_fixed(s: Seq<char>)
    requires
        s.len() > 0,
        !is_ws(s[0]),
        !is_ws(s.last()),
    ensures
        trim(s) == s,
{
}

pub(crate) proof fn lemma_trim_after_space(x: Seq<char>)
    requires
        x.len() > 0,
        !is_ws(x[0]),
        !is_ws(x.last()),
    ensures
        trim(seq![' '] + x) == x,
{
    let s = seq![' '] + x;
    assert(s.drop_first() =~= x);
    assert(trim_start(s) == trim_start(x));
}

proof fn lemma_trim_start_push(x: Seq<char>, c: char)
    ensures
        trim_start(x.push(c)) == (if trim_start(x).len() == 0 {
            if is_ws(c) { Seq::<char>::empty() } else { seq![c] }
        } else {
            trim_start(x).push(c)
        }),
    decreases x.len(),
{
    if x.len() == 0 {
        assert(x.push(c) =~= seq![c]);
        assert(seq![c].drop_first() =~= Seq::<char>::empty());
        assert(trim_start(Seq::<char>::empty()) == Seq::<char>::empty());
        assert(trim_start(x) == x);
    } else {
        assert(x.push(c)[0] == x[0]);
        if is_ws(x[0]) {
            assert(x.push(c).drop_first() =~= x.drop_first().push(c));
            lemma_trim_start_push(x.drop_first(), c);
        }
    }
}

proof fn lemma_trim_strip_cr(l: Seq<char>)
    ensures
        trim(strip_cr(l)) == trim(l),
{
    if l.len() > 0 && l.last() == '\r' {
        let x = l.drop_last();
        assert(l =~= x.push('\r'));
        lemma_trim_start_push(x, '\r');
        if trim_start(x).len() > 0 {
            assert(trim_start(x).push('\r').drop_last() =~= trim_start(x));
        }
    }
}

// ---------------------------------------------------------------- lines

proof fn lemma_scan_append(a: Seq<char>, b: Seq<char>)
    requires
        no_newline(b),
    ensures
        line_scan(a + b) == (line_scan(a).0, line_scan(a).1 + b),
    decreases b.len(),
{
    if b.len() == 0 {
        assert(a + b =~= a);
        assert(line_scan(a).1 + b =~= line_scan(a).1);
    } else {
        let b1 = b.drop_last();
        assert((a + b).drop_last() =~= a + b1);
        assert((a + b).last() == b.last());
        assert(b.last() == b[b.len() - 1]);
        lemma_scan_append(a, b1);
        assert((line_scan(a).1 + b1).push(b.last()) =~= line_scan(a).1 + b);
    }
}

pub open spec fn strip_all_cr(ls: Seq<Seq<char>>) -> Seq<Seq<char>> {
    ls.map_values(|l: Seq<char>| strip_cr(l))
}

pub(crate) proof fn lemma_scan_join(ls: Seq<Seq<char>>)
    requires
        ls.len() > 0,
        all_no_newline(ls),
    ensures
        line_scan(join_lines(ls)) == (strip_all_cr(ls.drop_last()), ls.last()),
    decreases ls.len(),
{
    assert(no_newline(ls[ls.len() - 1]));
    if ls.len() == 1 {
        lemma_scan_append(Seq::<char>::empty(), ls[0]);
        assert(Seq::<char>::empty() + ls[0] =~= ls[0]);
        assert(strip_all_cr(ls.drop_last()) =~= Seq::<Seq<char>>::empty());
        assert(Seq::<char>::empty() + ls[0] =~= ls[0]);
    } else {
        let dl = ls.drop_last();
        assert forall|i: int| 0 <= i < dl.len() implies no_newline(#[trigger] dl[i]) by {
            assert(dl[i] == ls[i]);
        }
        lemma_scan_join(dl);
        let j = join_lines(dl);
        assert((j + seq!['\n']).drop_last() =~= j);
        assert((j + seq!['\n']).last() == '\n');
        lemma_scan_append(j + seq!['\n'], ls.last());
        assert(strip_all_cr(ls.drop_last()) =~= strip_all_cr(dl.drop_last()).push(strip_cr(dl.last())));
        assert(Seq::<char>::empty() + ls.last() =~= ls.last());
    }
}

// ---------------------------------------------------------------- reading

pub(crate) proof fn lemma_read_push(out: Seq<Seq<char>>, x: Seq<char>)
    ensures
        read_lines(out.push(x)) == read_line(read_lines(out), x),
{
    assert(out.push(x).drop_last() =~= out);
}

proof fn lemma_read_empty_line(st: ReadState)
    ensures
        read_line(st, Seq::<char>::empty()) == st,
{
    reveal_strlit("[color]");
    reveal_strlit("gradient");
    reveal_strlit("foreground");
    reveal_strlit("background");
    reveal_strlit("gradient_color_");
    let e = Seq::<char>::empty();
    assert(trim_start(e) == e);
    assert(trim(e) == e);
    assert(e != "[color]"@);
}

proof fn lemma_read_strip_all_cr(ls: Seq<Seq<char>>)
    ensures
        read_lines(strip_all_cr(ls)) == read_lines(ls),
    decreases ls.len(),
{
    if ls.len() > 0 {
        lemma_read_strip_all_cr(ls.drop_last());
        assert(strip_all_cr(ls).drop_last() =~= strip_all_cr(ls.drop_last()));
        lemma_trim_strip_cr(ls.last());
    }
}

/// Reading the lines `ls` joined by `'\n'` reads what `ls` itself reads.
pub(crate) proof fn lemma_read_join(ls: Seq<Seq<char>>)
    requires
        all_no_newline(ls),
    ensures
        read_lines(lines(join_lines(ls))) == read_lines(ls),
{
    if ls.len() == 0 {
        assert(lines(join_lines(ls)) =~= Seq::<Seq<char>>::empty());
    } else {
        lemma_scan_join(ls);
        let dl = ls.drop_last();
        lemma_read_strip_all_cr(dl);
        if ls.last().len() > 0 {
            lemma_read_push(strip_all_cr(dl), ls.last());
        } else {
            lemma_read_empty_line(read_lines(strip_all_cr(dl)));
            assert(ls.last() =~= Seq::<char>::empty());
        }
    }
}

proof fn lemma_lines_no_newline(s: Seq<char>)
    ensures
        all_no_newline(lines(s)),
{
    lemma_scan_no_newline(s);
}

proof fn lemma_scan_no_newline(s: Seq<char>)
    ensures
        all_no_newline(line_scan(s).0),
        no_newline(line_scan(s).1),
    decreases s.len(),
{
    if s.len() > 0 {
        lemma_scan_no_newline(s.drop_last());
        let (done, cur) = line_scan(s.drop_last());
        if s.last() == '\n' {
            assert(no_newline(strip_cr(cur)));
            assert forall|i: int| 0 <= i < done.push(strip_cr(cur)).len() implies no_newline(
                #[trigger] done.push(strip_cr(cur))[i],
            ) by {
                if i < done.len() {
                    assert(done.push(strip_cr(cur))[i] == done[i]);
                }
            }
        } else {
            assert(no_newline(cur.push(s.last())));
        }
    }
}

// ---------------------------------------------------------------- written lines

proof fn lemma_read_mode_line(st: ReadState, on: bool)
    requires
        st.in_color,
    ensures
        read_line(st, if on { "gradient = 1"@ } else { "gradient = 0"@ }) == (ReadState {
            config: ConfigView { gradient: on, ..st.config },
            in_color: true,
        }),
        !read_line_panics(st, if on { "gradient = 1"@ } else { "gradient = 0"@ }),
{
    reveal_strlit("gradient = 1");
    reveal_strlit("gradient = 0");
    reveal_strlit("[color]");
    reveal_strlit("gradient");
    reveal_strlit("1");
    let d = if on { '1' } else { '0' };
    let line = if on { "gradient = 1"@ } else { "gradient = 0"@ };
    let full = seq!['g', 'r', 'a', 'd', 'i', 'e', 'n', 't', ' ', '=', ' ', d];
    assert(line =~= full);
    lemma_trim_fixed(full);
    assert(full != "[color]"@);
    assert(clean_line(full) == full);
    assert("gradient"@ =~= full.subrange(0, 8));
    assert(full.skip(8) =~= seq![' '] + seq!['=', ' ', d]);
    lemma_trim_after_space(seq!['=', ' ', d]);
    assert(seq!['=', ' ', d].drop_first() =~= seq![' '] + seq![d]);
    lemma_trim_after_space(seq![d]);
    assert(assignment(full, "gradient"@) == Some(seq![' '] + seq![d]));
    assert(setting_of(full) == Setting::Gradient(seq![' '] + seq![d]));
    assert("1"@ =~= seq!['1']);
    if on {
        assert(seq![d] =~= "1"@);
    } else {
        assert(seq![d][0] != "1"@[0]);
    }
    assert((trim(seq![' '] + seq![d]) == "1"@) == on);
}

proof fn lemma_read_foreground_line(st: ReadState, color: Seq<char>)
    requires
        st.in_color,
    ensures
        read_line(st, foreground_line(color)) == (ReadState {
            config: ConfigView { foreground: color, ..st.config },
            in_color: true,
        }),
        !read_line_panics(st, foreground_line(color)),
{
    reveal_strlit("foreground = '");
    reveal_strlit("'");
    reveal_strlit("[color]");
    reveal_strlit("gradient");
    reveal_strlit("foreground");
    let head = seq!['f', 'o', 'r', 'e', 'g', 'r', 'o', 'u', 'n', 'd', ' ', '=', ' ', '\''];
    let line = foreground_line(color);
    assert(line =~= head + color + seq!['\'']);
    assert(line[0] == 'f');
    assert(line.last() == '\'');
    lemma_trim_fixed(line);
    assert(line != "[color]"@) by {
        assert("[color]"@[0] == '[');
    }
    assert(clean_line(line) == line);
    assert(!"gradient"@.is_prefix_of(line)) by {
        assert(line.subrange(0, 8)[0] == 'f');
    }
    assert("foreground"@ =~= line.subrange(0, 10));
    let rest = seq!['=', ' ', '\''] + color + seq!['\''];
    assert(line.skip(10) =~= seq![' '] + rest);
    lemma_trim_after_space(rest);
    let v = seq![' '] + (seq!['\''] + color + seq!['\'']);
    assert(rest.drop_first() =~= v);
    assert(assignment(line, "foreground"@) == Some(v));
    assert(setting_of(line) == Setting::Foreground(v));
    lemma_trim_after_space(seq!['\''] + color + seq!['\'']);
    assert((seq!['\''] + color + seq!['\'']).subrange(1, color.len() as int + 1) =~= color);
    assert(color_value(v) == color);
    assert(trim(v).len() == color.len() + 2);
}

pub(crate) proof fn lemma_decimal_first(n: nat)
    ensures
        decimal(n).len() > 0,
        '0' <= decimal(n)[0] <= '9',
    decreases n,
{
    if n >= 10 {
        lemma_decimal_first(n / 10);
        assert(decimal(n)[0] == decimal(n / 10)[0]);
    }
}

proof fn lemma_read_color_line(st: ReadState, n: nat, c: Seq<char>)
    ensures
        read_line(st, gradient_color_line(n, c)) == st,
        !read_line_panics(st, gradient_color_line(n, c)),
{
    reveal_strlit("gradient_color_");
    reveal_strlit(" = '");
    reveal_strlit("'");
    reveal_strlit("[color]");
    reveal_strlit("gradient");
    reveal_strlit("foreground");
    reveal_strlit("background");
    lemma_decimal_first(n);
    let head = seq!['g', 'r', 'a', 'd', 'i', 'e', 'n', 't', '_', 'c', 'o', 'l', 'o', 'r', '_'];
    let tail = decimal(n) + seq![' ', '=', ' ', '\''] + c + seq!['\''];
    let line = gradient_color_line(n, c);
    assert(line =~= head + tail);
    assert(line[0] == 'g');
    assert(line.last() == '\'');
    lemma_trim_fixed(line);
    if st.in_color {
        assert(line != "[color]"@) by {
            assert("[color]"@[0] == '[');
        }
        assert(clean_line(line) == line);
        assert("gradient"@ =~= line.subrange(0, 8));
        assert(line.skip(8)[0] == '_');
        assert(trim_start(line.skip(8)) == line.skip(8));
        assert(assignment(line, "gradient"@) is None);
        assert(!"foreground"@.is_prefix_of(line)) by {
            assert(line.subrange(0, 10)[0] == 'g');
        }
        assert(!"background"@.is_prefix_of(line)) by {
            assert(line.subrange(0, 10)[0] == 'g');
        }
        assert("gradient_color_"@ =~= line.subrange(0, 15));
        assert(line.skip(15) =~= tail);
        assert(tail[0] == decimal(n)[0]);
        assert(trim_start(tail) == tail);
        assert(assignment(line, "gradient_color_"@) is None);
        assert(setting_of(line) == Setting::Unrecognized);
    }
}

proof fn lemma_read_color_lines(out: Seq<Seq<char>>, colors: Seq<Seq<char>>)
    ensures
        read_lines(out + gradient_color_lines(colors)) == read_lines(out),
    decreases colors.len(),
{
    if colors.len() == 0 {
        assert(out + gradient_color_lines(colors) =~= out);
    } else {
        let dc = colors.drop_last();
        lemma_read_color_lines(out, dc);
        assert(out + gradient_color_lines(colors) =~= (out + gradient_color_lines(dc)).push(
            gradient_color_line(colors.len() as nat, colors.last()),
        ));
        lemma_read_push(out + gradient_color_lines(dc), gradient_color_line(colors.len() as nat, colors.last()));
        lemma_read_color_line(read_lines(out + gradient_color_lines(dc)), colors.len() as nat, colors.last());
    }
}

proof fn lemma_decimal_digits(n: nat)
    ensures
        forall|i: int| 0 <= i < decimal(n).len() ==> '0' <= #[trigger] decimal(n)[i] <= '9',
    decreases n,
{
    if n >= 10 {
        lemma_decimal_digits(n / 10);
        let d = digit_char(n % 10);
        assert('0' <= d <= '9');
        assert forall|i: int| 0 <= i < decimal(n).len() implies '0' <= #[trigger] decimal(n)[i] <= '9' by {
            if i < decimal(n / 10).len() {
                assert(decimal(n)[i] == decimal(n / 10)[i]);
            }
        }
    } else {
        assert('0' <= digit_char(n) <= '9');
    }
}

proof fn lemma_push_no_newline(out: Seq<Seq<char>>, x: Seq<char>)
    requires
        all_no_newline(out),
        no_newline(x),
    ensures
        all_no_newline(out.push(x)),
{
    assert forall|i: int| 0 <= i < out.push(x).len() implies no_newline(#[trigger] out.push(x)[i]) by {
        if i < out.len() {
            assert(out.push(x)[i] == out[i]);
        }
    }
}

proof fn lemma_mode_lines_no_newline()
    ensures
        no_newline("gradient = 0"@),
        no_newline("gradient = 1"@),
{
    reveal_strlit("gradient = 0");
    reveal_strlit("gradient = 1");
}

proof fn lemma_foreground_line_no_newline(color: Seq<char>)
    requires
        no_newline(color),
    ensures
        no_newline(foreground_line(color)),
{
    reveal_strlit("foreground = '");
    reveal_strlit("'");
    let line = foreground_line(color);
    assert forall|i: int| 0 <= i < line.len() implies line[i] != '\n' by {
        if 14 <= i < 14 + color.len() {
            assert(line[i] == color[i - 14]);
        }
    }
}

proof fn lemma_color_lines_no_newline(out: Seq<Seq<char>>, colors: Seq<Seq<char>>)
    requires
        all_no_newline(out),
        all_no_newline(colors),
    ensures
        all_no_newline(out + gradient_color_lines(colors)),
{
    reveal_strlit("gradient_color_");
    reveal_strlit(" = '");
    reveal_strlit("'");
    let all = out + gradient_color_lines(colors);
    assert forall|k: int| 0 <= k < all.len() implies no_newline(#[trigger] all[k]) by {
        if k >= out.len() {
            let j = k - out.len();
            let n = (j + 1) as nat;
            let c = colors[j];
            assert(no_newline(c));
            lemma_decimal_digits(n);
            let line = gradient_color_line(n, c);
            let d = decimal(n).len();
            assert(all[k] == line);
            assert forall|i: int| 0 <= i < line.len() implies line[i] != '\n' by {
                if 15 <= i < 15 + d {
                    assert(line[i] == decimal(n)[i - 15]);
                } else if 19 + d <= i < 19 + d + c.len() {
                    assert(line[i] == c[i - 19 - d]);
                }
            }
        } else {
            assert(all[k] == out[k]);
        }
    }
}

proof fn lemma_no_stray_prefix(ls: Seq<Seq<char>>)
    requires
        ls.len() > 0,
        !has_stray_switch(ls),
    ensures
        !has_stray_switch(ls.drop_last()),
        read_lines(ls.drop_last()).in_color && !is_section(trim(ls.last())) ==> !stray_switch(
            clean_line(trim(ls.last())),
        ),
{
    let dl = ls.drop_last();
    assert forall|i: int|
        0 <= i < dl.len() && read_lines(dl.take(i)).in_color && !is_section(trim(#[trigger] dl[i]))
        implies !stray_switch(clean_line(trim(dl[i]))) by {
        assert(dl.take(i) =~= ls.take(i));
        assert(dl[i] == ls[i]);
    }
    assert(ls.take(ls.len() - 1) =~= dl);
    assert(ls.last() == ls[ls.len() - 1]);
}

proof fn lemma_color_section_prefix(ls: Seq<Seq<char>>)
    requires
        ls.len() > 0,
        has_color_section(ls),
    ensures
        has_color_section(ls.drop_last()) || trim(ls.last()) == "[color]"@,
{
    let i = choose|i: int| 0 <= i < ls.len() && trim(#[trigger] ls[i]) == "[color]"@;
    if i < ls.len() - 1 {
        assert(ls.drop_last()[i] == ls[i]);
    }
}

proof fn lemma_all_no_newline_prefix(ls: Seq<Seq<char>>)
    requires
        ls.len() > 0,
        all_no_newline(ls),
    ensures
        all_no_newline(ls.drop_last()),
        no_newline(ls.last()),
{
    assert forall|i: int| 0 <= i < ls.drop_last().len() implies no_newline(#[trigger] ls.drop_last()[i]) by {
        assert(ls.drop_last()[i] == ls[i]);
    }
    assert(no_newline(ls[ls.len() - 1]));
}

pub(crate) proof fn lemma_key_prefixes(c: Seq<char>)
    ensures
        "gradient "@.is_prefix_of(c) || "gradient_color_"@.is_prefix_of(c) || "gradient_count"@.is_prefix_of(c)
            ==> c.len() > 0 && c[0] == 'g',
        "foreground"@.is_prefix_of(c) ==> c.len() > 0 && c[0] == 'f',
        "background"@.is_prefix_of(c) ==> c.len() > 0 && c[0] == 'b',
{
    reveal_strlit("gradient ");
    reveal_strlit("gradient_color_");
    reveal_strlit("gradient_count");
    reveal_strlit("foreground");
    reveal_strlit("background");
    if "gradient "@.is_prefix_of(c) {
        assert(c.subrange(0, 9)[0] == c[0]);
    }
    if "gradient_color_"@.is_prefix_of(c) {
        assert(c.subrange(0, 15)[0] == c[0]);
    }
    if "gradient_count"@.is_prefix_of(c) {
        assert(c.subrange(0, 14)[0] == c[0]);
    }
    if "foreground"@.is_prefix_of(c) {
        assert(c.subrange(0, 10)[0] == c[0]);
    }
    if "background"@.is_prefix_of(c) {
        assert(c.subrange(0, 10)[0] == c[0]);
    }
}

pub open spec fn solid_inv(ls: Seq<Seq<char>>, color: Seq<char>) -> bool {
    let s = solid_lines(ls, color);
    let p = read_lines(s.out);
    &&& p.in_color == s.in_color
    &&& s.in_color == read_lines(ls).in_color
    &&& !p.config.gradient
    &&& s.colors_set ==> p.config.foreground == color
    &&& p.config.background == read_lines(ls).config.background
    &&& has_color_section(ls) ==> (s.in_color || (s.mode_set && s.colors_set))
    &&& all_no_newline(s.out)
}

proof fn lemma_solid_inv(ls: Seq<Seq<char>>, color: Seq<char>)
    requires
        !has_stray_switch(ls),
        all_no_newline(ls),
        no_newline(color),
    ensures
        solid_inv(ls, color),
    decreases ls.len(),
{
    if ls.len() == 0 {
        assert(!has_color_section(ls));
        return;
    }
    let dl = ls.drop_last();
    lemma_no_stray_prefix(ls);
    lemma_all_no_newline_prefix(ls);
    lemma_solid_inv(dl, color);
    if has_color_section(ls) {
        lemma_color_section_prefix(ls);
    }
    lemma_mode_lines_no_newline();
    lemma_foreground_line_no_newline(color);
    let st = solid_lines(dl, color);
    let p = read_lines(st.out);
    let l = ls.last();
    let t = trim(l);
    assert(solid_lines(ls, color) == solid_line(st, l, color));
    if t == "[color]"@ {
        lemma_read_push(st.out, l);
        lemma_push_no_newline(st.out, l);
    } else if is_section(t) {
        let o1 = if st.in_color && !st.mode_set { st.out.push("gradient = 0"@) } else { st.out };
        let o2 = if st.in_color && !st.colors_set { o1.push(foreground_line(color)) } else { o1 };
        if st.in_color && !st.mode_set {
            lemma_read_push(st.out, "gradient = 0"@);
            lemma_read_mode_line(p, false);
            lemma_push_no_newline(st.out, "gradient = 0"@);
        }
        if st.in_color && !st.colors_set {
            lemma_read_push(o1, foreground_line(color));
            lemma_read_foreground_line(read_lines(o1), color);
            lemma_push_no_newline(o1, foreground_line(color));
        }
        lemma_read_push(o2, l);
        lemma_push_no_newline(o2, l);
    } else if st.in_color {
        let c = clean_line(t);
        lemma_key_prefixes(c);
        if is_mode_line(c) {
            lemma_read_push(st.out, "gradient = 0"@);
            lemma_read_mode_line(p, false);
            lemma_push_no_newline(st.out, "gradient = 0"@);
        } else if "foreground"@.is_prefix_of(c) {
            lemma_read_push(st.out, foreground_line(color));
            lemma_read_foreground_line(p, color);
            lemma_push_no_newline(st.out, foreground_line(color));
        } else if "gradient_color_"@.is_prefix_of(c) || "gradient_count"@.is_prefix_of(c) {
        } else {
            lemma_read_push(st.out, l);
            lemma_push_no_newline(st.out, l);
            assert(assignment(c, "gradient"@) is None);
        }
    } else {
        lemma_read_push(st.out, l);
        lemma_push_no_newline(st.out, l);
    }
}

pub open spec fn gradient_inv(ls: Seq<Seq<char>>, colors: Seq<Seq<char>>) -> bool {
    let s = gradient_lines(ls, colors);
    let p = read_lines(s.out);
    &&& p.in_color == s.in_color
    &&& s.in_color == read_lines(ls).in_color
    &&& p.config.gradient_colors == Seq::<Seq<char>>::empty()
    &&& s.mode_set ==> p.config.gradient
    &&& p.config.foreground == read_lines(ls).config.foreground
    &&& p.config.background == read_lines(ls).config.background
    &&& has_color_section(ls) ==> (s.in_color || s.mode_set)
    &&& all_no_newline(s.out)
}

proof fn lemma_gradient_inv(ls: Seq<Seq<char>>, colors: Seq<Seq<char>>)
    requires
        !has_stray_switch(ls),
        all_no_newline(ls),
        all_no_newline(colors),
    ensures
        gradient_inv(ls, colors),
    decreases ls.len(),
{
    if ls.len() == 0 {
        assert(!has_color_section(ls));
        return;
    }
    let dl = ls.drop_last();
    lemma_no_stray_prefix(ls);
    lemma_all_no_newline_prefix(ls);
    lemma_gradient_inv(dl, colors);
    if has_color_section(ls) {
        lemma_color_section_prefix(ls);
    }
    lemma_mode_lines_no_newline();
    let st = gradient_lines(dl, colors);
    let p = read_lines(st.out);
    let l = ls.last();
    let t = trim(l);
    assert(gradient_lines(ls, colors) == gradient_line(st, l, colors));
    if t == "[color]"@ {
        lemma_read_push(st.out, l);
        lemma_push_no_newline(st.out, l);
    } else if is_section(t) {
        let o1 = if st.in_color && !st.mode_set { st.out.push("gradient = 1"@) } else { st.out };
        let o2 = if st.in_color && !st.colors_set { o1 + gradient_color_lines(colors) } else { o1 };
        if st.in_color && !st.mode_set {
            lemma_read_push(st.out, "gradient = 1"@);
            lemma_read_mode_line(p, true);
            lemma_push_no_newline(st.out, "gradient = 1"@);
        }
        if st.in_color && !st.colors_set {
            lemma_read_color_lines(o1, colors);
            lemma_color_lines_no_newline(o1, colors);
        }
        lemma_read_push(o2, l);
        lemma_push_no_newline(o2, l);
    } else if st.in_color {
        let c = clean_line(t);
        lemma_key_prefixes(c);
        if is_mode_line(c) {
            lemma_read_push(st.out, "gradient = 1"@);
            lemma_read_mode_line(p, true);
            lemma_push_no_newline(st.out, "gradient = 1"@);
        } else if "gradient_color_"@.is_prefix_of(c) {
        } else {
            lemma_read_push(st.out, l);
            lemma_push_no_newline(st.out, l);
            assert(assignment(c, "gradient"@) is None);
        }
    } else {
        lemma_read_push(st.out, l);
        lemma_push_no_newline(st.out, l);
    }
}

proof fn lemma_no_newline_of(s: Seq<char>)
    requires
        !s.contains('\n'),
    ensures
        no_newline(s),
{
    assert forall|i: int| 0 <= i < s.len() implies s[i] != '\n' by {
        if s[i] == '\n' {
            assert(s.contains('\n'));
        }
    }
}

// ---------------------------------------------------------------- reading without a panic

/// Reading the lines `ls` one after the other panics on none of them.
spec fn reads_safely(ls: Seq<Seq<char>>) -> bool
    decreases ls.len(),
{
    ls.len() == 0 || (reads_safely(ls.drop_last()) && !read_line_panics(read_lines(ls.drop_last()), ls.last()))
}

proof fn lemma_reads_safely(ls: Seq<Seq<char>>)
    ensures
        reads_safely(ls) == !read_panics(ls),
    decreases ls.len(),
{
    if ls.len() > 0 {
        let n = ls.len() - 1;
        let dl = ls.drop_last();
        lemma_reads_safely(dl);
        assert(ls.take(n) =~= dl);
        if read_panics(dl) {
            let i = choose|i: int| 0 <= i < dl.len() && #[trigger] read_line_panics(read_lines(dl.take(i)), dl[i]);
            assert(ls.take(i) =~= dl.take(i));
            assert(read_line_panics(read_lines(ls.take(i)), ls[i]));
        }
        if read_line_panics(read_lines(dl), ls.last()) {
            assert(read_line_panics(read_lines(ls.take(n)), ls[n]));
        }
        if read_panics(ls) {
            let i = choose|i: int| 0 <= i < ls.len() && #[trigger] read_line_panics(read_lines(ls.take(i)), ls[i]);
            if i < n {
                assert(ls.take(i) =~= dl.take(i));
                assert(read_line_panics(read_lines(dl.take(i)), dl[i]));
            }
        }
    } else {
        assert(!read_panics(ls));
    }
}

proof fn lemma_push_safe(out: Seq<Seq<char>>, x: Seq<char>)
    requires
        reads_safely(out),
        !read_line_panics(read_lines(out), x),
    ensures
        reads_safely(out.push(x)),
        read_lines(out.push(x)) == read_line(read_lines(out), x),
{
    assert(out.push(x).drop_last() =~= out);
}

proof fn lemma_strip_all_cr_safe(ls: Seq<Seq<char>>)
    requires
        reads_safely(ls),
    ensures
        reads_safely(strip_all_cr(ls)),
    decreases ls.len(),
{
    if ls.len() > 0 {
        lemma_strip_all_cr_safe(ls.drop_last());
        assert(strip_all_cr(ls).drop_last() =~= strip_all_cr(ls.drop_last()));
        lemma_read_strip_all_cr(ls.drop_last());
        lemma_trim_strip_cr(ls.last());
    } else {
        assert(strip_all_cr(ls) =~= ls);
    }
}

/// Lines that read without a panic still do once joined by `'\n'` and split again.
proof fn lemma_join_safe(ls: Seq<Seq<char>>)
    requires
        all_no_newline(ls),
        reads_safely(ls),
    ensures
        reads_safely(lines(join_lines(ls))),
{
    if ls.len() == 0 {
        assert(lines(join_lines(ls)) =~= Seq::<Seq<char>>::empty());
    } else {
        lemma_scan_join(ls);
        let dl = ls.drop_last();
        lemma_strip_all_cr_safe(dl);
        lemma_read_strip_all_cr(dl);
        if ls.last().len() > 0 {
            lemma_push_safe(strip_all_cr(dl), ls.last());
        }
    }
}

proof fn lemma_color_lines_safe(out: Seq<Seq<char>>, colors: Seq<Seq<char>>)
    requires
        reads_safely(out),
    ensures
        reads_safely(out + gradient_color_lines(colors)),
    decreases colors.len(),
{
    if colors.len() == 0 {
        assert(out + gradient_color_lines(colors) =~= out);
    } else {
        let dc = colors.drop_last();
        let x = gradient_color_line(colors.len() as nat, colors.last());
        lemma_color_lines_safe(out, dc);
        assert(out + gradient_color_lines(colors) =~= (out + gradient_color_lines(dc)).push(x));
        lemma_read_color_line(read_lines(out + gradient_color_lines(dc)), colors.len() as nat, colors.last());
        lemma_push_safe(out + gradient_color_lines(dc), x);
    }
}

proof fn lemma_solid_safe(ls: Seq<Seq<char>>, color: Seq<char>)
    requires
        !has_stray_switch(ls),
        all_no_newline(ls),
        no_newline(color),
        reads_safely(ls),
    ensures
        reads_safely(solid_lines(ls, color).out),
    decreases ls.len(),
{
    if ls.len() == 0 {
        return;
    }
    let dl = ls.drop_last();
    lemma_no_stray_prefix(ls);
    lemma_all_no_newline_prefix(ls);
    lemma_solid_safe(dl, color);
    lemma_solid_inv(dl, color);
    let st = solid_lines(dl, color);
    let p = read_lines(st.out);
    let l = ls.last();
    let t = trim(l);
    let m0 = "gradient = 0"@;
    assert(solid_lines(ls, color) == solid_line(st, l, color));
    if t == "[color]"@ {
        lemma_push_safe(st.out, l);
    } else if is_section(t) {
        let o1 = if st.in_color && !st.mode_set { st.out.push(m0) } else { st.out };
        let o2 = if st.in_color && !st.colors_set { o1.push(foreground_line(color)) } else { o1 };
        if st.in_color && !st.mode_set {
            lemma_read_mode_line(p, false);
            lemma_push_safe(st.out, m0);
        }
        if st.in_color && !st.colors_set {
            lemma_read_foreground_line(read_lines(o1), color);
            lemma_push_safe(o1, foreground_line(color));
        }
        lemma_push_safe(o2, l);
    } else if st.in_color {
        let c = clean_line(t);
        lemma_key_prefixes(c);
        if is_mode_line(c) {
            lemma_read_mode_line(p, false);
            lemma_push_safe(st.out, m0);
        } else if "foreground"@.is_prefix_of(c) {
            lemma_read_foreground_line(p, color);
            lemma_push_safe(st.out, foreground_line(color));
        } else if "gradient_color_"@.is_prefix_of(c) || "gradient_count"@.is_prefix_of(c) {
        } else {
            lemma_push_safe(st.out, l);
        }
    } else {
        lemma_push_safe(st.out, l);
    }
}

proof fn lemma_gradient_safe(ls: Seq<Seq<char>>, colors: Seq<Seq<char>>)
    requires
        !has_stray_switch(ls),
        all_no_newline(ls),
        all_no_newline(colors),
        reads_safely(ls),
    ensures
        reads_safely(gradient_lines(ls, colors).out),
    decreases ls.len(),
{
    if ls.len() == 0 {
        return;
    }
    let dl = ls.drop_last();
    lemma_no_stray_prefix(ls);
    lemma_all_no_newline_prefix(ls);
    lemma_gradient_safe(dl, colors);
    lemma_gradient_inv(dl, colors);
    let st = gradient_lines(dl, colors);
    let p = read_lines(st.out);
    let l = ls.last();
    let t = trim(l);
    let m1 = "gradient = 1"@;
    assert(gradient_lines(ls, colors) == gradient_line(st, l, colors));
    if t == "[color]"@ {
        lemma_push_safe(st.out, l);
    } else if is_section(t) {
        let o1 = if st.in_color && !st.mode_set { st.out.push(m1) } else { st.out };
        let o2 = if st.in_color && !st.colors_set { o1 + gradient_color_lines(colors) } else { o1 };
        if st.in_color && !st.mode_set {
            lemma_read_mode_line(p, true);
            lemma_push_safe(st.out, m1);
        }
        if st.in_color && !st.colors_set {
            lemma_color_lines_safe(o1, colors);
            lemma_read_color_lines(o1, colors);
        }
        lemma_push_safe(o2, l);
    } else if st.in_color {
        let c = clean_line(t);
        lemma_key_prefixes(c);
        if is_mode_line(c) {
            lemma_read_mode_line(p, true);
            lemma_push_safe(st.out, m1);
        } else if "gradient_color_"@.is_prefix_of(c) {
        } else {
            lemma_push_safe(st.out, l);
        }
    } else {
        lemma_push_safe(st.out, l);
    }
}

/// Reading back a solid colour: once a configuration with a `[color]` section
/// has been rewritten for the solid colour `color`, reading it gives the
/// gradient switched off, `color` as the foreground, and the background that
/// was read before; and when reading the configuration did not panic, reading
/// the rewritten one does not either. It holds unless a
/// `[color]` line is a stray gradient switch (such as `gradient=1`), which the
/// rewrite keeps and the reader obeys, or `color` holds a line break.
pub proof fn lemma_solid_read_back(content: Seq<char>, color: Seq<char>)
    requires
        has_color_section(lines(content)),
        !has_stray_switch(lines(content)),
        !color.contains('\n'),
    ensures
        config_of(solid_text(content, color)).gradient == false,
        config_of(solid_text(content, color)).foreground == color,
        config_of(solid_text(content, color)).background == config_of(content).background,
        !read_panics(lines(content)) ==> !read_panics(lines(solid_text(content, color))),
{
    let ls = lines(content);
    lemma_lines_no_newline(content);
    lemma_no_newline_of(color);
    lemma_solid_inv(ls, color);
    lemma_mode_lines_no_newline();
    lemma_foreground_line_no_newline(color);
    let st = solid_lines(ls, color);
    let p = read_lines(st.out);
    let o1 = if st.in_color && !st.mode_set { st.out.push("gradient = 0"@) } else { st.out };
    if st.in_color && !st.mode_set {
        lemma_read_push(st.out, "gradient = 0"@);
        lemma_read_mode_line(p, false);
        lemma_push_no_newline(st.out, "gradient = 0"@);
    }
    if st.in_color && !st.colors_set {
        lemma_read_push(o1, foreground_line(color));
        lemma_read_foreground_line(read_lines(o1), color);
        lemma_push_no_newline(o1, foreground_line(color));
    }
    lemma_read_join(solid_output(ls, color));
    if !read_panics(ls) {
        lemma_reads_safely(ls);
        lemma_solid_safe(ls, color);
        if st.in_color && !st.mode_set {
            lemma_push_safe(st.out, "gradient = 0"@);
        }
        if st.in_color && !st.colors_set {
            lemma_push_safe(o1, foreground_line(color));
        }
        lemma_join_safe(solid_output(ls, color));
        lemma_reads_safely(lines(solid_text(content, color)));
    }
}

/// Reading back a gradient: once a configuration with a `[color]` section has
/// been rewritten for the gradient `colors`, reading it gives the gradient
/// switched on, and the foreground and background that were read before; and
/// when reading the configuration did not panic, reading the rewritten one does
/// not either. The colours themselves are not read back: the reader takes
/// `gradient_color_` only when `=` follows it directly, and the written lines
/// put the colour's number in between, so the list read stays empty. It holds
/// unless a `[color]` line is a stray gradient switch (such as `gradient=0`),
/// or a colour holds a line break.
pub proof fn lemma_gradient_read_back(content: Seq<char>, colors: Seq<Seq<char>>)
    requires
        has_color_section(lines(content)),
        !has_stray_switch(lines(content)),
        forall|i: int| 0 <= i < colors.len() ==> !(#[trigger] colors[i]).contains('\n'),
    ensures
        config_of(gradient_text(content, colors)).gradient,
        config_of(gradient_text(content, colors)).gradient_colors == Seq::<Seq<char>>::empty(),
        config_of(gradient_text(content, colors)).foreground == config_of(content).foreground,
        config_of(gradient_text(content, colors)).background == config_of(content).background,
        !read_panics(lines(content)) ==> !read_panics(lines(gradient_text(content, colors))),
{
    let ls = lines(content);
    lemma_lines_no_newline(content);
    assert forall|i: int| 0 <= i < colors.len() implies no_newline(#[trigger] colors[i]) by {
        lemma_no_newline_of(colors[i]);
    }
    lemma_gradient_inv(ls, colors);
    lemma_mode_lines_no_newline();
    let st = gradient_lines(ls, colors);
    let p = read_lines(st.out);
    let o1 = if st.in_color && !st.mode_set { st.out.push("gradient = 1"@) } else { st.out };
    if st.in_color && !st.mode_set {
        lemma_read_push(st.out, "gradient = 1"@);
        lemma_read_mode_line(p, true);
        lemma_push_no_newline(st.out, "gradient = 1"@);
    }
    if st.in_color && !st.colors_set {
        lemma_read_color_lines(o1, colors);
        lemma_color_lines_no_newline(o1, colors);
    }
    lemma_read_join(gradient_output(ls, colors));
    if !read_panics(ls) {
        lemma_reads_safely(ls);
        lemma_gradient_safe(ls, colors);
        if st.in_color && !st.mode_set {
            lemma_push_safe(st.out, "gradient = 1"@);
        }
        if st.in_color && !st.colors_set {
            lemma_color_lines_safe(o1, colors);
        }
        lemma_join_safe(gradient_output(ls, colors));
        lemma_reads_safely(lines(gradient_text(content, colors)));
    }
}

} // verus!
