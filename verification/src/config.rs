//! The `[color]` section of a Cava configuration: reading its settings from the
//! configuration text.

use vstd::prelude::*;
use crate::text::{
    chars_to_string, equals, lines, split_lines, strip_prefix, sub_chars, to_chars,
    trim, trim_chars, views,
};

verus! {

/// The colour settings of a Cava configuration.
#[derive(Debug, Clone, PartialEq, Eq)]
pub struct CavaConfig {
    pub gradient: bool,
    pub gradient_colors: Vec<String>,
    pub foreground: String,
    pub background: String,
}

/// The mathematical content of a [`CavaConfig`].
pub struct ConfigView {
    pub gradient: bool,
    pub gradient_colors: Seq<Seq<char>>,
    pub foreground: Seq<char>,
    pub background: Seq<char>,
}

/// The character sequences that a vector of strings holds.
pub open spec fn string_views(v: Seq<String>) -> Seq<Seq<char>> {
    v.map_values(|s: String| s@)
}

impl View for CavaConfig {
    type V = ConfigView;

    open spec fn view(&self) -> ConfigView {
        ConfigView {
            gradient: self.gradient,
            gradient_colors: string_views(self.gradient_colors@),
            foreground: self.foreground@,
            background: self.background@,
        }
    }
}

/// No gradient, no gradient colours, empty foreground and background.
pub open spec fn empty_config() -> ConfigView {
    ConfigView { gradient: false, gradient_colors: seq![], foreground: seq![], background: seq![] }
}

impl Default for CavaConfig {
    fn default() -> (c: Self)
        ensures
            c@ == empty_config(),
    {
        let c = CavaConfig {
            gradient: false,
            gradient_colors: Vec::new(),
            foreground: String::new(),
            background: String::new(),
        };
        assert(c@.gradient_colors =~= seq![]);
        c
    }
}

/// `t` without one pair of enclosing single quotes.
pub open spec fn unquote(t: Seq<char>) -> Seq<char> {
    if t.len() > 0 && t[0] == '\'' && t.last() == '\'' {
        t.subrange(1, t.len() - 1)
    } else {
        t
    }
}

/// The colour that a setting's value text `val` names: trimmed, and without
/// enclosing single quotes.
pub open spec fn color_value(val: Seq<char>) -> Seq<char> {
    unquote(trim(val))
}

/// The value text on which taking the colour out of it panics: a lone quote,
/// which both begins and ends with a quote, so that the slice between the two
/// would end before it starts.
pub open spec fn color_value_panics(val: Seq<char>) -> bool {
    trim(val) == seq!['\'']
}

/// The colour that `val` names.
pub fn color_value_chars(val: &Vec<char>) -> (r: Vec<char>)
    requires
        !color_value_panics(val@),
    ensures
        r@ == color_value(val@),
{
    let t = trim_chars(val);
    let n = t.len();
    if n > 0 && t[0] == '\'' && t[n - 1] == '\'' {
        if n == 1 {
            assert(t@ =~= seq!['\'']);
        }
        sub_chars(&t, 1, n - 1)
    } else {
        t
    }
}

/// The colour that a setting's value text names: `val` trimmed, and without
/// enclosing single quotes.
pub fn extract_color_value(val: &str) -> (r: String)
    requires
        !color_value_panics(val@),
    ensures
        r@ == color_value(val@),
{
    let v = to_chars(val);
    chars_to_string(&color_value_chars(&v))
}

/// Whether taking the colour out of `val` panics.
pub fn color_value_would_panic(val: &Vec<char>) -> (b: bool)
    ensures
        b == color_value_panics(val@),
{
    let t = trim_chars(val);
    if t.len() == 1 && t[0] == '\'' {
        assert(t@ =~= seq!['\'']);
        true
    } else {
        false
    }
}

/// A trimmed line without a leading `;` (a commented-out setting), trimmed again.
pub open spec fn clean_line(t: Seq<char>) -> Seq<char> {
    if t.len() > 0 && t[0] == ';' {
        trim(t.drop_first())
    } else {
        t
    }
}

/// A trimmed line that opens a section: it begins with `[` and ends with `]`.
pub open spec fn is_section(t: Seq<char>) -> bool {
    t.len() > 0 && t[0] == '[' && t.last() == ']'
}

/// The value of the setting `key` on the line `clean`: the text after `key`,
/// optional whitespace and `=`.
pub open spec fn assignment(clean: Seq<char>, key: Seq<char>) -> Option<Seq<char>> {
    if key.is_prefix_of(clean) {
        let v = trim(clean.skip(key.len() as int));
        if v.len() > 0 && v[0] == '=' {
            Some(v.drop_first())
        } else {
            None
        }
    } else {
        None
    }
}

/// Which setting a line of the `[color]` section assigns, tried in this order.
pub enum Setting {
    Gradient(Seq<char>),
    Foreground(Seq<char>),
    Background(Seq<char>),
    GradientColor(Seq<char>),
    Unrecognized,
}

pub open spec fn setting_of(clean: Seq<char>) -> Setting {
    if let Some(v) = assignment(clean, "gradient"@) {
        Setting::Gradient(v)
    } else if let Some(v) = assignment(clean, "foreground"@) {
        Setting::Foreground(v)
    } else if let Some(v) = assignment(clean, "background"@) {
        Setting::Background(v)
    } else if let Some(v) = assignment(clean, "gradient_color_"@) {
        Setting::GradientColor(v)
    } else {
        Setting::Unrecognized
    }
}

/// What has been read after some lines: the settings, and whether the last
/// section opened is `[color]`.
pub struct ReadState {
    pub config: ConfigView,
    pub in_color: bool,
}

pub open spec fn read_start() -> ReadState {
    ReadState { config: empty_config(), in_color: false }
}

/// The effect of one line on what has been read.
pub open spec fn read_line(st: ReadState, line: Seq<char>) -> ReadState {
    let t = trim(line);
    let c = st.config;
    if t == "[color]"@ {
        ReadState { config: c, in_color: true }
    } else if is_section(t) {
        ReadState { config: c, in_color: false }
    } else if !st.in_color {
        st
    } else {
        match setting_of(clean_line(t)) {
            Setting::Gradient(v) => ReadState {
                config: ConfigView {
                    gradient: trim(v) == "1"@,
                    gradient_colors: c.gradient_colors,
                    foreground: c.foreground,
                    background: c.background,
                },
                in_color: true,
            },
            Setting::Foreground(v) => ReadState {
                config: ConfigView {
                    gradient: c.gradient,
                    gradient_colors: c.gradient_colors,
                    foreground: color_value(v),
                    background: c.background,
                },
                in_color: true,
            },
            Setting::Background(v) => ReadState {
                config: ConfigView {
                    gradient: c.gradient,
                    gradient_colors: c.gradient_colors,
                    foreground: c.foreground,
                    background: color_value(v),
                },
                in_color: true,
            },
            Setting::GradientColor(v) => ReadState {
                config: ConfigView {
                    gradient: c.gradient,
                    gradient_colors: c.gradient_colors.push(color_value(v)),
                    foreground: c.foreground,
                    background: c.background,
                },
                in_color: true,
            },
            Setting::Unrecognized => st,
        }
    }
}

/// Whether reading `line` in state `st` panics: a colour setting whose value is a
/// lone quote.
pub open spec fn read_line_panics(st: ReadState, line: Seq<char>) -> bool {
    let t = trim(line);
    &&& t != "[color]"@
    &&& !is_section(t)
    &&& st.in_color
    &&& match setting_of(clean_line(t)) {
        Setting::Foreground(v) => color_value_panics(v),
        Setting::Background(v) => color_value_panics(v),
        Setting::GradientColor(v) => color_value_panics(v),
        _ => false,
    }
}

/// What has been read after the lines `ls`.
pub open spec fn read_lines(ls: Seq<Seq<char>>) -> ReadState
    decreases ls.len(),
{
    if ls.len() == 0 {
        read_start()
    } else {
        read_line(read_lines(ls.drop_last()), ls.last())
    }
}

/// Whether reading the lines `ls` panics on one of them.
pub open spec fn read_panics(ls: Seq<Seq<char>>) -> bool {
    exists|i: int| 0 <= i < ls.len() && #[trigger] read_line_panics(read_lines(ls.take(i)), ls[i])
}

/// The colour settings that the configuration text `content` holds.
pub open spec fn config_of(content: Seq<char>) -> ConfigView {
    read_lines(lines(content)).config
}

/// The value of the setting `key` on the line `clean`.
pub fn assignment_value(clean: &Vec<char>, key: &str) -> (r: Option<Vec<char>>)
    ensures
        r matches Some(v) ==> assignment(clean@, key@) == Some(v@),
        r is None ==> assignment(clean@, key@) is None,
{
    match strip_prefix(clean, key) {
        Some(rest) => {
            let v = trim_chars(&rest);
            if v.len() > 0 && v[0] == '=' {
                let n = v.len();
                let r = sub_chars(&v, 1, n);
                assert(r@ =~= v@.drop_first());
                Some(r)
            } else {
                None
            }
        },
        None => None,
    }
}

/// The line without a leading `;`, trimmed again.
pub fn clean_line_chars(t: &Vec<char>) -> (r: Vec<char>)
    ensures
        r@ == clean_line(t@),
{
    if t.len() > 0 && t[0] == ';' {
        let n = t.len();
        let rest = sub_chars(t, 1, n);
        assert(rest@ =~= t@.drop_first());
        trim_chars(&rest)
    } else {
        sub_chars(t, 0, t.len())
    }
}

/// Whether the trimmed line `t` opens a section.
pub fn is_section_line(t: &Vec<char>) -> (b: bool)
    ensures
        b == is_section(t@),
{
    t.len() > 0 && t[0] == '[' && t[t.len() - 1] == ']'
}

/// The effect of one line on the settings read so far.
fn read_one(config: &mut CavaConfig, in_color: &mut bool, line: &Vec<char>)
    requires
        !read_line_panics(ReadState { config: old(config)@, in_color: *old(in_color) }, line@),
    ensures
        (ReadState { config: final(config)@, in_color: *final(in_color) }) == read_line(
            ReadState { config: old(config)@, in_color: *old(in_color) },
            line@,
        ),
{
    let t = trim_chars(line);
    if equals(&t, "[color]") {
        *in_color = true;
        return;
    }
    if is_section_line(&t) {
        *in_color = false;
        return;
    }
    if !*in_color {
        return;
    }
    let clean = clean_line_chars(&t);
    if let Some(v) = assignment_value(&clean, "gradient") {
        config.gradient = equals(&trim_chars(&v), "1");
    } else if let Some(v) = assignment_value(&clean, "foreground") {
        config.foreground = chars_to_string(&color_value_chars(&v));
    } else if let Some(v) = assignment_value(&clean, "background") {
        config.background = chars_to_string(&color_value_chars(&v));
    } else if let Some(v) = assignment_value(&clean, "gradient_color_") {
        let ghost before = config.gradient_colors@;
        config.gradient_colors.push(chars_to_string(&color_value_chars(&v)));
        assert(string_views(config.gradient_colors@) =~= string_views(before).push(color_value(v@)));
    }
}

/// The colour settings that the configuration text `content` holds (the
/// `[color]` section's `gradient`, `foreground`, `background` and
/// `gradient_color_` settings, commented out or not).
pub fn parse_config(content: &str) -> (c: CavaConfig)
    requires
        !read_panics(lines(content@)),
    ensures
        c@ == config_of(content@),
{
    let chars = to_chars(content);
    let ls = split_lines(&chars);
    let ghost lv = lines(content@);
    let mut config = CavaConfig::default();
    let mut in_color = false;
    let mut i: usize = 0;
    while i < ls.len()
        invariant
            i <= ls@.len(),
            views(ls@) == lv,
            lv == lines(content@),
            !read_panics(lv),
            (ReadState { config: config@, in_color }) == read_lines(lv.take(i as int)),
        decreases ls.len() - i,
    {
        assert(lv.take(i + 1).drop_last() =~= lv.take(i as int));
        assert(lv[i as int] == ls@[i as int]@);
        assert(!read_line_panics(read_lines(lv.take(i as int)), lv[i as int]));
        read_one(&mut config, &mut in_color, &ls[i]);
        i = i + 1;
    }
    assert(lv.take(ls@.len() as int) =~= lv);
    config
}

/// Whether reading the configuration text `content` panics.
pub fn parse_config_panics(content: &str) -> (b: bool)
    ensures
        b == read_panics(lines(content@)),
{
    let chars = to_chars(content);
    let ls = split_lines(&chars);
    let ghost lv = lines(content@);
    let mut config = CavaConfig::default();
    let mut in_color = false;
    let mut i: usize = 0;
    while i < ls.len()
        invariant
            i <= ls@.len(),
            views(ls@) == lv,
            lv == lines(content@),
            (ReadState { config: config@, in_color }) == read_lines(lv.take(i as int)),
            forall|k: int| 0 <= k < i ==> !#[trigger] read_line_panics(read_lines(lv.take(k)), lv[k]),
        decreases ls.len() - i,
    {
        assert(lv.take(i + 1).drop_last() =~= lv.take(i as int));
        assert(lv[i as int] == ls@[i as int]@);
        if line_would_panic(&config, in_color, &ls[i]) {
            assert(read_line_panics(read_lines(lv.take(i as int)), lv[i as int]));
            return true;
        }
        read_one(&mut config, &mut in_color, &ls[i]);
        i = i + 1;
    }
    false
}

fn line_would_panic(config: &CavaConfig, in_color: bool, line: &Vec<char>) -> (b: bool)
    ensures
        b == read_line_panics(ReadState { config: config@, in_color }, line@),
{
    let t = trim_chars(line);
    if equals(&t, "[color]") || is_section_line(&t) || !in_color {
        return false;
    }
    let clean = clean_line_chars(&t);
    if let Some(_) = assignment_value(&clean, "gradient") {
        false
    } else if let Some(v) = assignment_value(&clean, "foreground") {
        color_value_would_panic(&v)
    } else if let Some(v) = assignment_value(&clean, "background") {
        color_value_would_panic(&v)
    } else if let Some(v) = assignment_value(&clean, "gradient_color_") {
        color_value_would_panic(&v)
    } else {
        false
    }
}

} // verus!
