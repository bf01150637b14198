//! What a single setting line of the `[color]` section reads as.

use vstd::prelude::*;
use crate::config::{clean_line, config_of, is_section, read_line, read_lines, read_start, setting_of, Setting, assignment, color_value, unquote};
use crate::roundtrip::{lemma_read_join, lemma_read_push, lemma_trim_after_space, lemma_trim_fixed};
use crate::text::{is_ws, join_lines, lines, trim};

verus! {

/// A word: at least one character, and neither whitespace (line breaks
/// included) nor a single quote among them.
pub open spec fn bare_word(x: Seq<char>) -> bool {
    &&& x.len() > 0
    &&& forall|i: int| 0 <= i < x.len() ==> !is_ws(#[trigger] x[i]) && x[i] != '\''
}

/// The word `x` as a setting's value: in single quotes, or bare.
pub open spec fn written_value(x: Seq<char>, quoted: bool) -> Seq<char> {
    if quoted { "'"@ + x + "'"@ } else { x }
}

/// The configuration made of a `[color]` line and the line `<key> = <value>`.
pub open spec fn one_setting(key: Seq<char>, value: Seq<char>) -> Seq<char> {
    "[color]\n"@ + key + " = "@ + value
}

/// Reading the line `<key> = <v>` (with `v` ending in a non-space) in the
/// `[color]` section finds the setting `key` with the value ` <v>`, whose colour is `v` unquoted.
proof fn lemma_setting_line(key: Seq<char>, x: Seq<char>, quoted: bool)
    requires
        key == "gradient"@ || key == "foreground"@ || key == "background"@ || key == "gradient_color_"@,
        bare_word(x),
    ensures
        ({
            let v = written_value(x, quoted);
            let l = key + " = "@ + v;
            &&& trim(l) == l
            &&& clean_line(l) == l
            &&& l != "[color]"@
            &&& !is_section(l)
            &&& !l.contains('\n')
            &&& color_value(seq![' '] + v) == x
            &&& trim(seq![' '] + v) == v
            &&& setting_of(l) == (if key == "gradient"@ {
                Setting::Gradient(seq![' '] + v)
            } else if key == "foreground"@ {
                Setting::Foreground(seq![' '] + v)
            } else if key == "background"@ {
                Setting::Background(seq![' '] + v)
            } else {
                Setting::GradientColor(seq![' '] + v)
            })
        }),
{
    reveal_strlit("foreground");
    reveal_strlit("background");
    reveal_strlit("gradient_color_");
    reveal_strlit("gradient");
    reveal_strlit(" = ");
    reveal_strlit("'");
    reveal_strlit("[color]");
    let v = written_value(x, quoted);
    let l = key + " = "@ + v;
    assert(v.len() > 0);
    assert(!is_ws(v[0]) && !is_ws(v.last())) by {
        if quoted {
            assert(v[0] == '\'' && v.last() == '\'');
        } else {
            assert(v.last() == x[x.len() - 1]);
        }
    }
    assert(l[0] == key[0]);
    assert(l.last() == v.last());
    lemma_trim_fixed(l);
    assert(l != "[color]"@) by {
        assert("[color]"@[0] == '[');
    }
    assert forall|i: int| 0 <= i < l.len() implies l[i] != '\n' by {
        if i >= key.len() + 3 {
            if quoted {
                assert(v[i - key.len() - 3] == '\'' || v[i - key.len() - 3] == x[i - key.len() - 4]);
            } else {
                assert(v[i - key.len() - 3] == x[i - key.len() - 3]);
            }
        }
    }
    assert(!l.contains('\n'));
    let eq = seq!['=', ' '] + v;
    assert(l.skip(key.len() as int) =~= seq![' '] + eq);
    lemma_trim_after_space(eq);
    assert(eq.drop_first() =~= seq![' '] + v);
    assert(assignment(l, key) == Some(seq![' '] + v)) by {
        assert(key.is_prefix_of(l)) by {
            assert(l.subrange(0, key.len() as int) =~= key);
        }
    }
    lemma_trim_after_space(v);
    if quoted {
        assert(v.subrange(1, v.len() - 1) =~= x);
    } else {
        assert(v[0] == x[0]);
    }
    assert(unquote(v) == x);
    if key == "gradient"@ {
        assert(l.subrange(0, 8) =~= key);
    }
    if key == "foreground"@ || key == "background"@ {
        assert(!"gradient"@.is_prefix_of(l)) by {
            assert(l.subrange(0, 8)[0] != "gradient"@[0]);
        }
    }
    if key == "background"@ {
        assert(!"foreground"@.is_prefix_of(l)) by {
            assert(l.subrange(0, 10)[0] != "foreground"@[0]);
        }
    }
    if key == "gradient_color_"@ {
        assert("gradient"@.is_prefix_of(l)) by {
            assert(l.subrange(0, 8) =~= "gradient"@);
        }
        assert(l.skip(8) =~= seq!['_'] + l.skip(9));
        assert(trim(l.skip(8))[0] == '_') by {
            assert(l.skip(8)[0] == '_');
            assert(l.skip(8).last() == v.last());
            lemma_trim_fixed(l.skip(8));
        }
        assert(assignment(l, "gradient"@) is None);
        assert(!"foreground"@.is_prefix_of(l)) by {
            assert(l.subrange(0, 10)[0] != "foreground"@[0]);
        }
        assert(!"background"@.is_prefix_of(l)) by {
            assert(l.subrange(0, 10)[0] != "background"@[0]);
        }
    }
}

proof fn lemma_read_one_setting(key: Seq<char>, x: Seq<char>, quoted: bool)
    requires
        key == "gradient"@ || key == "foreground"@ || key == "background"@ || key == "gradient_color_"@,
        bare_word(x),
    ensures
        ({
            let c = config_of(one_setting(key, written_value(x, quoted)));
            &&& key == "gradient"@ ==> c.gradient == (written_value(x, quoted) == "1"@)
            &&& key == "foreground"@ ==> c.foreground == x
            &&& key == "background"@ ==> c.background == x
            &&& key == "gradient_color_"@ ==> c.gradient_colors == seq![x]
        }),
{
    reveal_strlit("[color]");
    reveal_strlit("[color]\n");
    reveal_strlit(" = ");
    reveal_strlit("foreground");
    reveal_strlit("background");
    reveal_strlit("gradient_color_");
    let v = written_value(x, quoted);
    let l = key + " = "@ + v;
    let h = "[color]"@;
    lemma_setting_line(key, x, quoted);
    let ls = seq![h, l];
    assert(join_lines(seq![h]) == h);
    assert(ls.drop_last() =~= seq![h]);
    assert(join_lines(ls) =~= one_setting(key, v));
    assert(h[0] == '[' && h.last() == ']');
    lemma_trim_fixed(h);
    assert forall|i: int| 0 <= i < ls.len() implies crate::roundtrip::no_newline(#[trigger] ls[i]) by {
        if i == 0 {
            assert forall|j: int| 0 <= j < h.len() implies h[j] != '\n' by {}
        } else {
            assert forall|j: int| 0 <= j < l.len() implies l[j] != '\n' by {
                if l[j] == '\n' {
                    assert(l.contains('\n'));
                }
            }
        }
    }
    lemma_read_join(ls);
    lemma_read_push(seq![h], l);
    lemma_read_push(Seq::<Seq<char>>::empty(), h);
    assert(Seq::<Seq<char>>::empty().push(h) =~= seq![h]);
    assert(seq![h].push(l) =~= ls);
    let st1 = read_line(read_start(), h);
    assert(st1.in_color && st1.config == read_start().config);
    assert(read_lines(ls) == read_line(st1, l));
    assert(lines(one_setting(key, v)) == lines(join_lines(ls)));
    reveal_strlit("gradient");
    assert("gradient"@.len() == 8);
    assert("foreground"@.len() == 10 && "background"@.len() == 10 && "gradient_color_"@.len() == 15);
    assert("foreground"@[0] != "background"@[0]);
    let st2 = read_line(st1, l);
    assert(trim(l) == l && clean_line(l) == l);
    if key == "gradient_color_"@ {
        assert(key != "foreground"@ && key != "background"@ && key != "gradient"@);
        assert(setting_of(l) == Setting::GradientColor(seq![' '] + v));
        assert(st2.config.gradient_colors == read_start().config.gradient_colors.push(x));
        assert(st2.config.gradient_colors =~= seq![x]);
    } else if key == "gradient"@ {
        assert(setting_of(l) == Setting::Gradient(seq![' '] + v));
    } else if key == "foreground"@ {
        assert(key != "gradient"@);
        assert(setting_of(l) == Setting::Foreground(seq![' '] + v));
    } else {
        assert(key != "foreground"@ && key != "gradient"@);
        assert(setting_of(l) == Setting::Background(seq![' '] + v));
    }
}

/// Reading a `[color]` section whose one line sets the foreground, the
/// background or a gradient colour to a word, bare or in single quotes, gives
/// that word as the setting: for instance `background = black` and
/// `background = 'black'` both give the background `black`. The gradient is
/// switched on by the bare value `1` and by no other.
pub proof fn lemma_read_setting_word(x: Seq<char>, quoted: bool)
    requires
        bare_word(x),
    ensures
        config_of(one_setting("gradient"@, written_value(x, quoted))).gradient == (!quoted && x == "1"@),
        config_of(one_setting("foreground"@, written_value(x, quoted))).foreground == x,
        config_of(one_setting("background"@, written_value(x, quoted))).background == x,
        config_of(one_setting("gradient_color_"@, written_value(x, quoted))).gradient_colors == seq![x],
{
    reveal_strlit("1");
    reveal_strlit("'");
    lemma_read_one_setting("gradient"@, x, quoted);
    if quoted {
        assert(written_value(x, quoted).len() >= 3);
        assert("1"@.len() == 1);
    }
    lemma_read_one_setting("foreground"@, x, quoted);
    lemma_read_one_setting("background"@, x, quoted);
    lemma_read_one_setting("gradient_color_"@, x, quoted);
}

} // verus!
