use vstd::prelude::*;

use crate::captures::{to_uppercase, uppercase_text};
use crate::injection::{trim_bounds, trimmed};
use crate::registration::views_of;
use crate::text::{chars_of, find_char, first_index_from, lemma_first_index_from, str_eq, string_from_chars, sub_chars};
use crate::lexical::{chars_before, str_before};
use crate::unicode::utf8_len;
use crate::text::{scope_has_prefix_key, scope_prefix_matches};
use crate::theme::{stack_segments, ScopeStack, 
    is_valid_hex_color, parse_font_style, parsed_font_style, space_parts, space_parts_from, valid_hex_color, FontStyle,
    RawThemeScope, ThemeError,
};

verus! {

broadcast use vstd::string::group_string_axioms;

// A float of a theme (a font size, a line height) is held as the bits of
// its IEEE 754 double: the rules only carry these values and ask whether
// they are zero.

/// Whether the double with these bits is not zero (`0.0` and `-0.0` are
/// zero; a NaN is not).
pub open spec fn float_bits_nonzero(bits: u64) -> bool {
    bits & 0x7fff_ffff_ffff_ffffu64 != 0
}

/// Whether the double with these bits is not zero.
pub fn float_nonzero(bits: u64) -> (r: bool)
    ensures
        r == float_bits_nonzero(bits),
{
    bits & 0x7fff_ffff_ffff_ffffu64 != 0
}

/// The style part of a theme setting, as the theme file gives it.
#[derive(Clone, Debug, Default, PartialEq)]
pub struct RawThemeStyle {
    pub font_style: Option<String>,
    pub foreground: Option<String>,
    pub background: Option<String>,
    pub font_family: Option<String>,
    pub font_size: Option<u64>,
    pub line_height: Option<u64>,
}

/// A setting of a theme file: the scopes it applies to and its style.
#[derive(Clone, Debug, Default, PartialEq)]
pub struct RawThemeSetting {
    pub name: Option<String>,
    pub scope: Option<RawThemeScope>,
    pub settings: Option<RawThemeStyle>,
}

/// A theme file: its name and settings.
#[derive(Clone, Debug, Default, PartialEq)]
pub struct RawTheme {
    pub name: Option<String>,
    pub settings: Vec<RawThemeSetting>,
}

/// A theme rule for one scope selector: the last scope of the selector,
/// its parent scopes (innermost first), the position of its setting and
/// its style.
#[derive(Clone, Debug, PartialEq)]
pub struct ParsedThemeRule {
    pub scope: String,
    pub parent_scopes: Option<Vec<String>>,
    pub index: i32,
    pub font_style: FontStyle,
    pub foreground: Option<String>,
    pub background: Option<String>,
    pub font_family: String,
    pub font_size: u64,
    pub line_height: u64,
}

/// A parsed rule as plain values.
pub struct ParsedView {
    pub scope: Seq<char>,
    pub parents: Option<Seq<Seq<char>>>,
    pub index: i32,
    pub font_style: i32,
    pub foreground: Option<Seq<char>>,
    pub background: Option<Seq<char>>,
    pub family: Seq<char>,
    pub size: u64,
    pub line_height: u64,
}

/// The view of an optional string.
pub open spec fn ostr(s: Option<String>) -> Option<Seq<char>> {
    match s {
        Some(t) => Some(t@),
        None => None,
    }
}

/// The view of an optional list of strings.
pub open spec fn ostrs(s: Option<Vec<String>>) -> Option<Seq<Seq<char>>> {
    match s {
        Some(v) => Some(views_of(v@)),
        None => None,
    }
}

/// A parsed rule as plain values.
pub open spec fn parsed_view(r: ParsedThemeRule) -> ParsedView {
    ParsedView {
        scope: r.scope@,
        parents: ostrs(r.parent_scopes),
        index: r.index,
        font_style: r.font_style.0,
        foreground: ostr(r.foreground),
        background: ostr(r.background),
        family: r.font_family@,
        size: r.font_size,
        line_height: r.line_height,
    }
}

/// The parsed rules as plain values.
pub open spec fn parsed_views(rs: Seq<ParsedThemeRule>) -> Seq<ParsedView> {
    rs.map_values(|r: ParsedThemeRule| parsed_view(r))
}

/// The parts of `s` between the separators `sep`, from position `i` on,
/// `cur` being the part read before `i` (as `split(sep)`).
pub open spec fn sep_parts_from(s: Seq<char>, sep: char, i: int, cur: Seq<char>) -> Seq<Seq<char>>
    decreases s.len() - i,
{
    if i < 0 || i >= s.len() {
        seq![cur]
    } else if s[i] == sep {
        seq![cur] + sep_parts_from(s, sep, i + 1, Seq::empty())
    } else {
        sep_parts_from(s, sep, i + 1, cur.push(s[i]))
    }
}

/// The first position at or after `i`, before `j`, that does not hold `c`.
pub open spec fn skip_char(s: Seq<char>, c: char, i: int, j: int) -> int
    decreases j - i,
{
    if i < j && 0 <= i < s.len() && s[i] == c {
        skip_char(s, c, i + 1, j)
    } else {
        i
    }
}

/// The end of `s[i..j]` without trailing `c`.
pub open spec fn back_char(s: Seq<char>, c: char, i: int, j: int) -> int
    decreases j - i,
{
    if j > i && 0 <= j - 1 < s.len() && s[j - 1] == c {
        back_char(s, c, i, j - 1)
    } else {
        j
    }
}

/// `s` without leading and trailing commas (as `trim_matches(',')`).
pub open spec fn comma_trimmed(s: Seq<char>) -> Seq<char> {
    let a = skip_char(s, ',', 0, s.len() as int);
    s.subrange(a, back_char(s, ',', a, s.len() as int))
}

/// The selectors a setting's scope gives: the comma-separated parts of a
/// string (commas trimmed off its ends first), the strings of a list, or
/// one empty selector where it has none.
pub open spec fn setting_selectors(scope: Option<RawThemeScope>) -> Seq<Seq<char>> {
    match scope {
        Some(RawThemeScope::String(s)) => sep_parts_from(comma_trimmed(s@), ',', 0, Seq::empty()),
        Some(RawThemeScope::Array(v)) => views_of(v@),
        None => seq![Seq::empty()],
    }
}

/// The index of a setting as an `i32`, `i32::MAX` where it does not fit.
pub open spec fn setting_index(k: int) -> i32 {
    if k <= i32::MAX { k as i32 } else { i32::MAX }
}

/// A color that is kept only where it is a valid hex color.
pub open spec fn valid_color(c: Option<String>) -> Option<Seq<char>> {
    match c {
        Some(s) => if valid_hex_color(s@) { Some(s@) } else { None },
        None => None,
    }
}

/// The rule that selector `selector` of setting `k` (with style `st`)
/// gives: the last space-separated part of the trimmed selector is the
/// scope, the parts before it (innermost first) its parent scopes.
pub open spec fn selector_rule(selector: Seq<char>, k: int, st: RawThemeStyle) -> ParsedView {
    let segments = space_parts(trimmed(selector));
    ParsedView {
        scope: segments.last(),
        parents: if segments.len() <= 1 { None } else { Some(segments.drop_last().reverse()) },
        index: setting_index(k),
        font_style: match st.font_style {
            Some(f) => parsed_font_style(f@),
            None => -1i32,
        },
        foreground: valid_color(st.foreground),
        background: valid_color(st.background),
        family: match st.font_family {
            Some(f) => f@,
            None => Seq::empty(),
        },
        size: match st.font_size {
            Some(b) => b,
            None => 0,
        },
        line_height: match st.line_height {
            Some(b) => b,
            None => 0,
        },
    }
}

/// The rules that the selectors `sels[j..]` of setting `k` give.
pub open spec fn selector_rules(sels: Seq<Seq<char>>, j: int, k: int, st: RawThemeStyle) -> Seq<ParsedView>
    decreases sels.len() - j,
{
    if j < 0 || j >= sels.len() {
        Seq::empty()
    } else {
        seq![selector_rule(sels[j], k, st)] + selector_rules(sels, j + 1, k, st)
    }
}

/// The rules that the settings `settings[k..]` give: those with a style,
/// one rule per selector.
pub open spec fn theme_rules(settings: Seq<RawThemeSetting>, k: int) -> Seq<ParsedView>
    decreases settings.len() - k,
{
    if k < 0 || k >= settings.len() {
        Seq::empty()
    } else {
        match settings[k].settings {
            Some(st) => selector_rules(setting_selectors(settings[k].scope), 0, k, st) + theme_rules(settings, k + 1),
            None => theme_rules(settings, k + 1),
        }
    }
}

proof fn lemma_space_parts(s: Seq<char>, i: int, cur: Seq<char>)
    requires
        0 <= i,
    ensures
        sep_parts_from(s, ' ', i, cur) == space_parts_from(s, i, cur),
        sep_parts_from(s, ' ', i, cur).len() >= 1,
    decreases s.len() - i,
{
    if i < s.len() {
        if s[i] == ' ' {
            lemma_space_parts(s, i + 1, Seq::empty());
        } else {
            lemma_space_parts(s, i + 1, cur.push(s[i]));
        }
    }
}

/// Splits `v` at every `sep` (as `split(sep)`).
pub fn split_chars(v: &Vec<char>, sep: char) -> (r: Vec<Vec<char>>)
    ensures
        r@.map_values(|p: Vec<char>| p@) == sep_parts_from(v@, sep, 0, Seq::empty()),
{
    let mut out: Vec<Vec<char>> = Vec::new();
    let mut cur: Vec<char> = Vec::new();
    let mut i: usize = 0;
    while i < v.len()
        invariant
            i <= v.len(),
            sep_parts_from(v@, sep, 0, Seq::empty()) == out@.map_values(|p: Vec<char>| p@) + sep_parts_from(v@, sep, i as int, cur@),
        decreases v.len() - i,
    {
        let ghost before = out@.map_values(|p: Vec<char>| p@);
        if v[i] == sep {
            let done = cur;
            cur = Vec::new();
            out.push(done);
            assert(out@.map_values(|p: Vec<char>| p@) =~= before.push(done@));
            assert(before.push(done@) + sep_parts_from(v@, sep, i + 1, Seq::empty()) =~= before + (seq![done@] + sep_parts_from(v@, sep, i + 1, Seq::empty())));
        } else {
            cur.push(v[i]);
        }
        i += 1;
    }
    let ghost before = out@.map_values(|p: Vec<char>| p@);
    out.push(cur);
    assert(out@.map_values(|p: Vec<char>| p@) =~= before + sep_parts_from(v@, sep, i as int, cur@));
    out
}

fn comma_trim_bounds(v: &Vec<char>) -> (r: (usize, usize))
    ensures
        r.0 <= r.1 <= v.len(),
        v@.subrange(r.0 as int, r.1 as int) == comma_trimmed(v@),
{
    let mut a: usize = 0;
    while a < v.len() && v[a] == ','
        invariant
            a <= v.len(),
            skip_char(v@, ',', 0, v@.len() as int) == skip_char(v@, ',', a as int, v@.len() as int),
        decreases v.len() - a,
    {
        a += 1;
    }
    let mut b: usize = v.len();
    while b > a && v[b - 1] == ','
        invariant
            a <= b <= v.len(),
            skip_char(v@, ',', 0, v@.len() as int) == a,
            back_char(v@, ',', a as int, v@.len() as int) == back_char(v@, ',', a as int, b as int),
        decreases b - a,
    {
        b -= 1;
    }
    (a, b)
}

fn views_to_strings(parts: &Vec<Vec<char>>) -> (r: Vec<String>)
    ensures
        views_of(r@) == parts@.map_values(|p: Vec<char>| p@),
{
    let mut out: Vec<String> = Vec::new();
    let mut i: usize = 0;
    while i < parts.len()
        invariant
            i <= parts.len(),
            views_of(out@) == parts@.map_values(|p: Vec<char>| p@).take(i as int),
        decreases parts.len() - i,
    {
        let ghost before = out@;
        let x = string_from_chars(parts[i].as_slice());
        out.push(x);
        assert(views_of(out@) =~= views_of(before).push(x@));
        assert(parts@.map_values(|p: Vec<char>| p@).take(i + 1) =~= parts@.map_values(|p: Vec<char>| p@).take(i as int).push(parts@[i as int]@));
        i += 1;
    }
    assert(parts@.map_values(|p: Vec<char>| p@).take(i as int) =~= parts@.map_values(|p: Vec<char>| p@));
    out
}

fn copy_strs(v: &Vec<String>) -> (r: Vec<String>)
    ensures
        views_of(r@) == views_of(v@),
{
    let mut out: Vec<String> = Vec::new();
    let mut i: usize = 0;
    while i < v.len()
        invariant
            i <= v.len(),
            views_of(out@) == views_of(v@).take(i as int),
        decreases v.len() - i,
    {
        let ghost before = out@;
        let x = v[i].clone();
        out.push(x);
        assert(views_of(out@) =~= views_of(before).push(x@));
        assert(views_of(v@).take(i + 1) =~= views_of(v@).take(i as int).push(v@[i as int]@));
        i += 1;
    }
    assert(views_of(v@).take(i as int) =~= views_of(v@));
    out
}

/// The selectors of a setting's scope.
fn selectors_of(scope: &Option<RawThemeScope>) -> (r: Vec<String>)
    ensures
        views_of(r@) == setting_selectors(*scope),
{
    match scope {
        Some(RawThemeScope::String(s)) => {
            let v = chars_of(s.as_str());
            let (a, b) = comma_trim_bounds(&v);
            let inner = sub_chars(v.as_slice(), a, b);
            let parts = split_chars(&inner, ',');
            views_to_strings(&parts)
        },
        Some(RawThemeScope::Array(items)) => copy_strs(items),
        None => {
            let mut out: Vec<String> = Vec::new();
            out.push(String::new());
            assert(views_of(out@) =~= seq![Seq::<char>::empty()]);
            out
        },
    }
}

fn valid_color_of(c: &Option<String>) -> (r: Option<String>)
    ensures
        ostr(r) == valid_color(*c),
{
    match c {
        Some(s) => if is_valid_hex_color(s.as_str()) { Some(s.clone()) } else { None },
        None => None,
    }
}

/// The rule that one selector of setting `k` gives.
fn rule_for_selector(selector: &String, k: usize, st: &RawThemeStyle) -> (r: ParsedThemeRule)
    ensures
        parsed_view(r) == selector_rule(selector@, k as int, *st),
{
    let v = chars_of(selector.as_str());
    let (a, b) = trim_bounds(&v, 0, v.len());
    let t = sub_chars(v.as_slice(), a, b);
    let mut segments = split_chars(&t, ' ');
    proof {
        assert(t@ == trimmed(selector@));
        lemma_space_parts(t@, 0, Seq::empty());
    }
    let ghost all = segments@.map_values(|p: Vec<char>| p@);
    assert(all == space_parts(trimmed(selector@)));
    let last = segments.pop().unwrap();
    let ghost rest = segments@.map_values(|p: Vec<char>| p@);
    assert(rest =~= all.drop_last());
    let scope = string_from_chars(last.as_slice());
    let parent_scopes = if segments.len() == 0 {
        None
    } else {
        let mut reversed: Vec<String> = Vec::new();
        let mut i: usize = segments.len();
        while i > 0
            invariant
                i <= segments.len(),
                rest == segments@.map_values(|p: Vec<char>| p@),
                views_of(reversed@) == rest.subrange(i as int, rest.len() as int).reverse(),
            decreases i,
        {
            i -= 1;
            let ghost before = reversed@;
            let x = string_from_chars(segments[i].as_slice());
            reversed.push(x);
            assert(views_of(reversed@) =~= views_of(before).push(x@));
            assert(rest.subrange(i as int, rest.len() as int).reverse() =~= rest.subrange(i + 1, rest.len() as int).reverse().push(rest[i as int]));
        }
        assert(rest.subrange(0, rest.len() as int) =~= rest);
        Some(reversed)
    };
    let index: i32 = if k <= i32::MAX as usize { k as i32 } else { i32::MAX };
    let font_style = match &st.font_style {
        Some(f) => parse_font_style(f.as_str()),
        None => FontStyle::not_set(),
    };
    let font_family = match &st.font_family {
        Some(f) => f.clone(),
        None => String::new(),
    };
    let font_size: u64 = match st.font_size {
        Some(b) => b,
        None => 0,
    };
    let line_height: u64 = match st.line_height {
        Some(b) => b,
        None => 0,
    };
    ParsedThemeRule {
        scope,
        parent_scopes,
        index,
        font_style,
        foreground: valid_color_of(&st.foreground),
        background: valid_color_of(&st.background),
        font_family,
        font_size,
        line_height,
    }
}

/// Parses the settings of a theme into one rule per selector, in order;
/// settings without a style give none, and invalid colors are dropped.
pub fn parse_theme(source: Option<&RawTheme>) -> (r: Vec<ParsedThemeRule>)
    ensures
        parsed_views(r@) == match source {
            Some(t) => theme_rules(t.settings@, 0),
            None => Seq::empty(),
        },
{
    let source = match source {
        Some(s) => s,
        None => {
            return Vec::new();
        },
    };
    let settings = &source.settings;
    let mut result: Vec<ParsedThemeRule> = Vec::new();
    let mut k: usize = 0;
    while k < settings.len()
        invariant
            k <= settings.len(),
            theme_rules(settings@, 0) == parsed_views(result@) + theme_rules(settings@, k as int),
        decreases settings.len() - k,
    {
        match &settings[k].settings {
            Some(st) => {
                let selectors = selectors_of(&settings[k].scope);
                let ghost sels = views_of(selectors@);
                let ghost start = parsed_views(result@);
                let mut j: usize = 0;
                while j < selectors.len()
                    invariant
                        j <= selectors.len(),
                        sels == views_of(selectors@),
                        sels == setting_selectors(settings@[k as int].scope),
                        settings@[k as int].settings == Some(*st),
                        selector_rules(sels, 0, k as int, *st) == (parsed_views(result@).subrange(start.len() as int, parsed_views(result@).len() as int)) + selector_rules(sels, j as int, k as int, *st),
                        start.len() <= parsed_views(result@).len(),
                        parsed_views(result@).subrange(0, start.len() as int) == start,
                    decreases selectors.len() - j,
                {
                    let rule = rule_for_selector(&selectors[j], k, st);
                    let ghost before = parsed_views(result@);
                    result.push(rule);
                    assert(parsed_views(result@) =~= before.push(parsed_view(rule)));
                    assert(parsed_views(result@).subrange(start.len() as int, parsed_views(result@).len() as int) =~= before.subrange(start.len() as int, before.len() as int).push(parsed_view(rule)));
                    assert(parsed_views(result@).subrange(0, start.len() as int) =~= before.subrange(0, start.len() as int));
                    j += 1;
                }
                assert(parsed_views(result@) =~= start + parsed_views(result@).subrange(start.len() as int, parsed_views(result@).len() as int));
            },
            None => {},
        }
        k += 1;
    }
    assert(parsed_views(result@) + theme_rules(settings@, k as int) =~= parsed_views(result@));
    result
}

// ---------------------------------------------------------------------------
// Color map
// ---------------------------------------------------------------------------

/// The colors of a theme by id.  A frozen map is given and never grows;
/// otherwise ids are handed out from 1 on, id 0 standing for "no color".
#[derive(Debug)]
pub struct ColorMap {
    pub is_frozen: bool,
    pub last_color_id: u32,
    pub id_to_color: Vec<String>,
}

/// The last id under which `color` is listed in `colors[..k]`.
pub open spec fn color_id_below(colors: Seq<Seq<char>>, color: Seq<char>, k: int) -> Option<int>
    decreases k,
{
    if k <= 0 || k > colors.len() {
        None
    } else if colors[k - 1] == color {
        Some(k - 1)
    } else {
        color_id_below(colors, color, k - 1)
    }
}

/// The id of `color` in a color map: the last one it is listed under.
pub open spec fn color_id(colors: Seq<Seq<char>>, color: Seq<char>) -> Option<int> {
    color_id_below(colors, color, colors.len() as int)
}

proof fn lemma_color_id_below(colors: Seq<Seq<char>>, color: Seq<char>, k: int)
    requires
        0 <= k <= colors.len(),
    ensures
        color_id_below(colors, color, k) matches Some(i) ==> 0 <= i < k && colors[i] == color,
    decreases k,
{
    if k > 0 && colors[k - 1] != color {
        lemma_color_id_below(colors, color, k - 1);
    }
}

impl ColorMap {
    /// Whether a map that is not frozen has a slot for every id handed out.
    pub open spec fn wf(&self) -> bool {
        self.last_color_id <= u32::MAX
            && (!self.is_frozen ==> (self.id_to_color@.len() == 0 && self.last_color_id == 0)
                || self.id_to_color@.len() == self.last_color_id as int + 1)
    }

    /// A color map: the frozen colors given, or an empty map that grows.
    pub fn new(frozen_color_map: Option<Vec<String>>) -> (r: ColorMap)
        ensures
            r.wf(),
            r.is_frozen == frozen_color_map is Some,
            r.last_color_id == 0,
            views_of(r.id_to_color@) == match frozen_color_map {
                Some(v) => views_of(v@),
                None => Seq::empty(),
            },
    {
        let is_frozen = frozen_color_map.is_some();
        let id_to_color = match frozen_color_map {
            Some(v) => v,
            None => Vec::new(),
        };
        ColorMap { is_frozen, last_color_id: 0, id_to_color }
    }

    fn find_id(&self, color: &str) -> (r: Option<u32>)
        ensures
            match color_id(views_of(self.id_to_color@), color@) {
                Some(i) => r == Some(if i <= u32::MAX { i as u32 } else { u32::MAX }),
                None => r is None,
            },
    {
        let mut k: usize = self.id_to_color.len();
        while k > 0
            invariant
                k <= self.id_to_color.len(),
                color_id(views_of(self.id_to_color@), color@) == color_id_below(views_of(self.id_to_color@), color@, k as int),
            decreases k,
        {
            if str_eq(self.id_to_color[k - 1].as_str(), color) {
                let i = k - 1;
                return Some(if i <= u32::MAX as usize { i as u32 } else { u32::MAX });
            }
            k -= 1;
        }
        None
    }

    /// The id of a color (in upper case): 0 for none; the id it has; else,
    /// unless the map is frozen, a new id.
    pub fn get_id(&mut self, color: Option<&str>) -> (r: Result<u32, ThemeError>)
        requires
            old(self).wf(),
            !old(self).is_frozen ==> old(self).last_color_id < u32::MAX,
        ensures
            final(self).wf(),
            final(self).is_frozen == old(self).is_frozen,
            match color {
                None => r == Ok::<u32, ThemeError>(0) && *final(self) == *old(self),
                Some(c) => {
                    let u = uppercase_text(c@);
                    let colors = views_of(old(self).id_to_color@);
                    match color_id(colors, u) {
                        Some(i) if i != 0 => r == Ok::<u32, ThemeError>(if i <= u32::MAX { i as u32 } else { u32::MAX })
                            && *final(self) == *old(self),
                        _ => if old(self).is_frozen {
                            r matches Err(ThemeError::MissingFrozenColor(e)) && e@ == u && *final(self) == *old(self)
                        } else {
                            let id = old(self).last_color_id + 1;
                            &&& r == Ok::<u32, ThemeError>(id as u32)
                            &&& final(self).last_color_id == id
                            &&& views_of(final(self).id_to_color@) == (if colors.len() <= id {
                                colors + Seq::new((id + 1 - colors.len()) as nat, |i: int| Seq::<char>::empty())
                            } else {
                                colors
                            }).update(id as int, u)
                        },
                    }
                },
            },
    {
        let color = match color {
            Some(c) => c,
            None => {
                return Ok(0);
            },
        };
        let upper = to_uppercase(color);
        proof {
            lemma_color_id_below(views_of(self.id_to_color@), upper@, self.id_to_color@.len() as int);
        }
        match self.find_id(upper.as_str()) {
            Some(value) => {
                if value != 0 {
                    return Ok(value);
                }
            },
            None => {},
        }
        if self.is_frozen {
            return Err(ThemeError::MissingFrozenColor(upper));
        }
        self.last_color_id = self.last_color_id + 1;
        let value = self.last_color_id;
        let index = value as usize;
        let ghost colors = views_of(self.id_to_color@);
        while self.id_to_color.len() <= index
            invariant
                !self.is_frozen,
                self.last_color_id == value,
                value as int == old(self).last_color_id + 1,
                self.is_frozen == old(self).is_frozen,
                views_of(self.id_to_color@).len() >= colors.len(),
                views_of(self.id_to_color@).subrange(0, colors.len() as int) == colors,
                forall|j: int| colors.len() <= j < self.id_to_color@.len() ==> (#[trigger] self.id_to_color@[j])@ == Seq::<char>::empty(),
                self.id_to_color@.len() <= index + 1,
            decreases index + 1 - self.id_to_color.len(),
        {
            self.id_to_color.push(String::new());
        }
        self.id_to_color.set(index, upper);
        proof {
            let target = (if colors.len() <= value {
                colors + Seq::new((value + 1 - colors.len()) as nat, |i: int| Seq::<char>::empty())
            } else {
                colors
            }).update(value as int, upper@);
            assert(views_of(self.id_to_color@) =~= target);
        }
        Ok(value)
    }

    /// The colors by id.
    pub fn get_color_map(&self) -> (r: Vec<String>)
        ensures
            views_of(r@) == views_of(self.id_to_color@),
    {
        copy_strs(&self.id_to_color)
    }
}

// ---------------------------------------------------------------------------
// The theme trie
// ---------------------------------------------------------------------------

/// A rule of the theme trie: how deep its scope is, the parent scopes it
/// asks for, and its style (colors by id; 0 and "not set" mean inherit).
#[derive(Debug)]
pub struct ThemeTrieElementRule {
    pub scope_depth: usize,
    pub parent_scopes: Vec<String>,
    pub font_style: FontStyle,
    pub foreground: u32,
    pub background: u32,
    pub font_family: String,
    pub font_size: u64,
    pub line_height: u64,
}

/// A trie rule as plain values.
pub struct TrieRule {
    pub depth: usize,
    pub parents: Seq<Seq<char>>,
    pub font_style: i32,
    pub foreground: u32,
    pub background: u32,
    pub family: Seq<char>,
    pub size: u64,
    pub line_height: u64,
}

pub open spec fn trie_rule(r: ThemeTrieElementRule) -> TrieRule {
    TrieRule {
        depth: r.scope_depth,
        parents: views_of(r.parent_scopes@),
        font_style: r.font_style.0,
        foreground: r.foreground,
        background: r.background,
        family: r.font_family@,
        size: r.font_size,
        line_height: r.line_height,
    }
}

pub open spec fn trie_rules(rs: Seq<ThemeTrieElementRule>) -> Seq<TrieRule> {
    rs.map_values(|r: ThemeTrieElementRule| trie_rule(r))
}

/// The style that a rule brings into the trie.
pub struct StyleIn {
    pub font_style: i32,
    pub foreground: u32,
    pub background: u32,
    pub family: Seq<char>,
    pub size: u64,
    pub line_height: u64,
}

/// A rule with a new style laid over it: each part that is set replaces
/// the rule's own, and the rule takes the deeper depth.
pub open spec fn overwritten(r: TrieRule, depth: usize, st: StyleIn) -> TrieRule {
    TrieRule {
        depth: if r.depth <= depth { depth } else { r.depth },
        parents: r.parents,
        font_style: if st.font_style != -1 { st.font_style } else { r.font_style },
        foreground: if st.foreground != 0 { st.foreground } else { r.foreground },
        background: if st.background != 0 { st.background } else { r.background },
        family: if st.family.len() > 0 { st.family } else { r.family },
        size: if float_bits_nonzero(st.size) { st.size } else { r.size },
        line_height: if float_bits_nonzero(st.line_height) { st.line_height } else { r.line_height },
    }
}

/// A new rule with parent scopes: its own style where set, else that of
/// the node's main rule.
pub open spec fn inherited(main: TrieRule, depth: usize, parents: Seq<Seq<char>>, st: StyleIn) -> TrieRule {
    TrieRule {
        depth: depth,
        parents: parents,
        font_style: if st.font_style == -1 { main.font_style } else { st.font_style },
        foreground: if st.foreground == 0 { main.foreground } else { st.foreground },
        background: if st.background == 0 { main.background } else { st.background },
        family: if st.family.len() == 0 { main.family } else { st.family },
        size: if !float_bits_nonzero(st.size) { main.size } else { st.size },
        line_height: if !float_bits_nonzero(st.line_height) { main.line_height } else { st.line_height },
    }
}

/// The style a rule brings, as given to the exec functions.
pub open spec fn style_in(font_style: FontStyle, foreground: u32, background: u32, family: String, size: u64, line_height: u64) -> StyleIn {
    StyleIn { font_style: font_style.0, foreground, background, family: family@, size, line_height }
}

fn copy_rule(r: &ThemeTrieElementRule) -> (c: ThemeTrieElementRule)
    ensures
        trie_rule(c) == trie_rule(*r),
{
    ThemeTrieElementRule {
        scope_depth: r.scope_depth,
        parent_scopes: copy_strs(&r.parent_scopes),
        font_style: r.font_style,
        foreground: r.foreground,
        background: r.background,
        font_family: r.font_family.clone(),
        font_size: r.font_size,
        line_height: r.line_height,
    }
}

fn copy_rules(rs: &Vec<ThemeTrieElementRule>) -> (c: Vec<ThemeTrieElementRule>)
    ensures
        trie_rules(c@) == trie_rules(rs@),
{
    let mut out: Vec<ThemeTrieElementRule> = Vec::new();
    let mut i: usize = 0;
    while i < rs.len()
        invariant
            i <= rs.len(),
            trie_rules(out@) == trie_rules(rs@).take(i as int),
        decreases rs.len() - i,
    {
        let ghost before = out@;
        let c = copy_rule(&rs[i]);
        out.push(c);
        assert(trie_rules(out@) =~= trie_rules(before).push(trie_rule(c)));
        assert(trie_rules(rs@).take(i + 1) =~= trie_rules(rs@).take(i as int).push(trie_rule(rs@[i as int])));
        i += 1;
    }
    assert(trie_rules(rs@).take(i as int) =~= trie_rules(rs@));
    out
}

impl ThemeTrieElementRule {
    /// Lays a new style over the rule (see `overwritten`).
    pub fn accept_overwrite(&mut self, scope_depth: usize, font_style: FontStyle, foreground: u32, background: u32, font_family: String, font_size: u64, line_height: u64)
        ensures
            trie_rule(*final(self)) == overwritten(trie_rule(*old(self)), scope_depth, style_in(font_style, foreground, background, font_family, font_size, line_height)),
    {
        if self.scope_depth <= scope_depth {
            self.scope_depth = scope_depth;
        }
        if font_style.0 != -1 {
            self.font_style = font_style;
        }
        if foreground != 0 {
            self.foreground = foreground;
        }
        if background != 0 {
            self.background = background;
        }
        if !font_family.as_str().is_empty() {
            self.font_family = font_family;
        }
        if float_nonzero(font_size) {
            self.font_size = font_size;
        }
        if float_nonzero(line_height) {
            self.line_height = line_height;
        }
    }
}

/// A node of the theme trie: the rule for its scope, the rules for its
/// scope with parent scopes, and the nodes for its child segments (in key
/// order).
#[derive(Debug)]
pub struct ThemeTrieElement {
    pub main_rule: ThemeTrieElementRule,
    pub rules_with_parent_scopes: Vec<ThemeTrieElementRule>,
    pub children: Vec<(String, ThemeTrieElement)>,
}

/// A trie node as plain values.
pub enum TrieNode {
    Node { main: TrieRule, with_parents: Seq<TrieRule>, children: Seq<(Seq<char>, TrieNode)> },
}

pub open spec fn trie_node(t: ThemeTrieElement) -> TrieNode
    decreases t, 1nat,
{
    TrieNode::Node {
        main: trie_rule(t.main_rule),
        with_parents: trie_rules(t.rules_with_parent_scopes@),
        children: trie_children(t.children@),
    }
}

pub open spec fn trie_children(cs: Seq<(String, ThemeTrieElement)>) -> Seq<(Seq<char>, TrieNode)>
    decreases cs, 0nat,
{
    if cs.len() == 0 {
        Seq::empty()
    } else {
        trie_children(cs.drop_last()).push((cs.last().0@, trie_node(cs.last().1)))
    }
}

proof fn lemma_trie_children(cs: Seq<(String, ThemeTrieElement)>)
    ensures
        trie_children(cs).len() == cs.len(),
        forall|i: int| 0 <= i < cs.len() ==> #[trigger] trie_children(cs)[i] == (cs[i].0@, trie_node(cs[i].1)),
    decreases cs.len(),
{
    if cs.len() > 0 {
        lemma_trie_children(cs.drop_last());
    }
}

proof fn lemma_trie_children_equal(a: Seq<(String, ThemeTrieElement)>, b: Seq<(Seq<char>, TrieNode)>)
    requires
        a.len() == b.len(),
        forall|i: int| 0 <= i < a.len() ==> (a[i].0@, trie_node(a[i].1)) == #[trigger] b[i],
    ensures
        trie_children(a) == b,
{
    lemma_trie_children(a);
    assert(trie_children(a) =~= b);
}

/// The position of the child with key `key`.
pub open spec fn child_position(cs: Seq<(Seq<char>, TrieNode)>, key: Seq<char>, from: int) -> Option<int>
    decreases cs.len() - from,
{
    if from < 0 || from >= cs.len() {
        None
    } else if cs[from].0 == key {
        Some(from)
    } else {
        child_position(cs, key, from + 1)
    }
}

/// Where a child with key `key` goes: before the first key after it.
pub open spec fn child_slot(cs: Seq<(Seq<char>, TrieNode)>, key: Seq<char>, from: int) -> int
    decreases cs.len() - from,
{
    if from < 0 || from >= cs.len() {
        cs.len() as int
    } else if chars_before(key, cs[from].0) {
        from
    } else {
        child_slot(cs, key, from + 1)
    }
}

proof fn lemma_child_position(cs: Seq<(Seq<char>, TrieNode)>, key: Seq<char>, from: int)
    requires
        0 <= from,
    ensures
        child_position(cs, key, from) matches Some(i) ==> from <= i < cs.len() && cs[i].0 == key,
        from <= cs.len() ==> from <= child_slot(cs, key, from) <= cs.len(),
    decreases cs.len() - from,
{
    if from < cs.len() {
        lemma_child_position(cs, key, from + 1);
    }
}

/// The segment before the first dot and the rest after it (the whole
/// scope and nothing where there is no dot).
pub open spec fn split_dot(scope: Seq<char>) -> (Seq<char>, Seq<char>) {
    match first_index_from(scope, '.', 0) {
        Some(i) => (scope.take(i), scope.skip(i + 1)),
        None => (scope, Seq::empty()),
    }
}

/// The node after adding a style at it: to its main rule where no parent
/// scopes are asked for; else to its rule with the same parent scopes; else
/// as a new rule that inherits what it does not set from the main rule.
pub open spec fn node_insert_here(t: TrieNode, depth: usize, parents: Option<Seq<Seq<char>>>, st: StyleIn) -> TrieNode {
    match t {
        TrieNode::Node { main, with_parents, children } => match parents {
            None => TrieNode::Node { main: overwritten(main, depth, st), with_parents, children },
            Some(ps) => match rule_with_parents(with_parents, ps, 0) {
                Some(i) => TrieNode::Node {
                    main,
                    with_parents: with_parents.update(i, overwritten(with_parents[i], depth, st)),
                    children,
                },
                None => TrieNode::Node { main, with_parents: with_parents.push(inherited(main, depth, ps, st)), children },
            },
        },
    }
}

/// The position of the first rule that asks for parent scopes `ps`.
pub open spec fn rule_with_parents(rs: Seq<TrieRule>, ps: Seq<Seq<char>>, from: int) -> Option<int>
    decreases rs.len() - from,
{
    if from < 0 || from >= rs.len() {
        None
    } else if rs[from].parents == ps {
        Some(from)
    } else {
        rule_with_parents(rs, ps, from + 1)
    }
}

/// The trie after adding a style for the dotted scope `scope` below a node
/// at depth `depth`: the path of segments is followed, missing nodes being
/// made as copies of their parent's rules, and the style is added at the
/// end of the path.
pub open spec fn node_insert(t: TrieNode, depth: usize, scope: Seq<char>, parents: Option<Seq<Seq<char>>>, st: StyleIn) -> TrieNode
    decreases scope.len(),
{
    if scope.len() == 0 {
        node_insert_here(t, depth, parents, st)
    } else {
        let (head, tail) = split_dot(scope);
        proof {
            lemma_split_dot(scope);
        }
        match t {
            TrieNode::Node { main, with_parents, children } => match child_position(children, head, 0) {
                Some(i) => TrieNode::Node {
                    main,
                    with_parents,
                    children: children.update(i, (head, node_insert(children[i].1, next_depth(depth), tail, parents, st))),
                },
                None => TrieNode::Node {
                    main,
                    with_parents,
                    children: children.insert(child_slot(children, head, 0), (head, node_insert(
                        TrieNode::Node { main, with_parents, children: Seq::empty() },
                        next_depth(depth),
                        tail,
                        parents,
                        st,
                    ))),
                },
            },
        }
    }
}

pub proof fn lemma_split_dot(scope: Seq<char>)
    requires
        scope.len() > 0,
    ensures
        split_dot(scope).1.len() < scope.len(),
        split_dot(scope).0.len() <= scope.len(),
{
    lemma_first_index_from(scope, '.', 0);
}

/// The depth of a child node (the depth cannot pass `usize::MAX`, which no
/// scope reaches).
pub open spec fn next_depth(d: usize) -> usize {
    if d < usize::MAX { (d + 1) as usize } else { d }
}

/// -1, 0 or 1 as `a` is less than, equal to or greater than `b`.
pub open spec fn three_way(a: int, b: int) -> int {
    if a < b { -1 } else if a > b { 1 } else { 0 }
}

/// The position past a `>` at `i` of `ps`, else `i`.
pub open spec fn past_child_marker(ps: Seq<Seq<char>>, i: int) -> int {
    if 0 <= i < ps.len() && ps[i] == ">"@ { i + 1 } else { i }
}

/// How two rules' parent scopes order them, from positions `i` and `j`:
/// pairwise, skipping a `>` on either side, the longer parent scope (in
/// UTF-8 bytes) first; where one list runs out, the longer list first.
pub open spec fn parents_order(a: Seq<Seq<char>>, b: Seq<Seq<char>>, i: int, j: int) -> int
    decreases a.len() - i,
{
    let i2 = past_child_marker(a, i);
    let j2 = past_child_marker(b, j);
    if 0 <= i2 < a.len() && 0 <= j2 < b.len() {
        let c = three_way(utf8_len(b[j2]) as int, utf8_len(a[i2]) as int);
        if c != 0 {
            c
        } else {
            parents_order(a, b, i2 + 1, j2 + 1)
        }
    } else {
        three_way(b.len() as int, a.len() as int)
    }
}

/// How specific rule `a` is against rule `b` (-1: `a` comes first): the
/// deeper scope first, then by parent scopes.
pub open spec fn specificity_order(a: TrieRule, b: TrieRule) -> int {
    let d = three_way(b.depth as int, a.depth as int);
    if d != 0 { d } else { parents_order(a.parents, b.parents, 0, 0) }
}

/// The first position of `sorted` whose rule comes after `x`.
pub open spec fn specificity_slot(sorted: Seq<TrieRule>, x: TrieRule, from: int) -> int
    decreases sorted.len() - from,
{
    if from < 0 || from >= sorted.len() {
        sorted.len() as int
    } else if specificity_order(sorted[from], x) > 0 {
        from
    } else {
        specificity_slot(sorted, x, from + 1)
    }
}

/// The rules sorted by specificity, rules that order as equal keeping their
/// order (a stable sort).
pub open spec fn by_specificity(rs: Seq<TrieRule>) -> Seq<TrieRule>
    decreases rs.len(),
{
    if rs.len() == 0 {
        rs
    } else {
        let sorted = by_specificity(rs.drop_last());
        sorted.insert(specificity_slot(sorted, rs.last(), 0), rs.last())
    }
}

/// The rules that a scope matches in the trie: the node reached by
/// following the scope's segments as far as children exist, its rules with
/// parent scopes and its main rule, by specificity.
pub open spec fn node_match(t: TrieNode, scope: Seq<char>) -> Seq<TrieRule>
    decreases scope.len(),
{
    match t {
        TrieNode::Node { main, with_parents, children } => {
            if scope.len() > 0 {
                let (head, tail) = split_dot(scope);
                proof {
                    lemma_split_dot(scope);
                }
                match child_position(children, head, 0) {
                    Some(i) => node_match(children[i].1, tail),
                    None => by_specificity(with_parents.push(main)),
                }
            } else {
                by_specificity(with_parents.push(main))
            }
        },
    }
}

fn three_way_usize(a: usize, b: usize) -> (r: i8)
    ensures
        r as int == three_way(a as int, b as int),
{
    if a < b { -1 } else if a > b { 1 } else { 0 }
}

fn is_child_marker(s: &String) -> (r: bool)
    ensures
        r == (s@ == ">"@),
{
    str_eq(s.as_str(), ">")
}

/// How specific rule `a` is against rule `b` (see `specificity_order`).
pub fn compare_by_specificity(a: &ThemeTrieElementRule, b: &ThemeTrieElementRule) -> (r: i8)
    ensures
        r as int == specificity_order(trie_rule(*a), trie_rule(*b)),
{
    let d = three_way_usize(b.scope_depth, a.scope_depth);
    if d != 0 {
        return d;
    }
    let ap = &a.parent_scopes;
    let bp = &b.parent_scopes;
    let ghost av = views_of(ap@);
    let ghost bv = views_of(bp@);
    let mut i: usize = 0;
    let mut j: usize = 0;
    while true
        invariant
            i <= ap.len(),
            j <= bp.len(),
            av == views_of(ap@),
            bv == views_of(bp@),
            specificity_order(trie_rule(*a), trie_rule(*b)) == parents_order(av, bv, i as int, j as int),
        decreases ap.len() - i,
    {
        if i < ap.len() && is_child_marker(&ap[i]) {
            i += 1;
        }
        if j < bp.len() && is_child_marker(&bp[j]) {
            j += 1;
        }
        if i >= ap.len() || j >= bp.len() {
            return three_way_usize(bp.len(), ap.len());
        }
        let c = three_way_usize(bp[j].as_str().as_bytes().len(), ap[i].as_str().as_bytes().len());
        if c != 0 {
            return c;
        }
        i += 1;
        j += 1;
    }
    0
}

/// Sorts rules by specificity (see `by_specificity`).
fn sort_by_specificity(rs: Vec<ThemeTrieElementRule>) -> (r: Vec<ThemeTrieElementRule>)
    ensures
        trie_rules(r@) == by_specificity(trie_rules(rs@)),
{
    let ghost input = trie_rules(rs@);
    let n = rs.len();
    assert(input.len() == n);
    let mut rest = rs;
    let mut sorted: Vec<ThemeTrieElementRule> = Vec::new();
    let mut k: usize = 0;
    while rest.len() > 0
        invariant
            k + rest@.len() == input.len(),
            input.len() <= usize::MAX,
            trie_rules(rest@) == input.skip(k as int),
            trie_rules(sorted@) == by_specificity(input.take(k as int)),
        decreases rest.len(),
    {
        let ghost before = rest@;
        assert(trie_rules(before)[0] == trie_rule(before[0]));
        let x = rest.remove(0);
        assert(trie_rule(x) == input[k as int]);
        assert forall|j: int| 0 <= j < rest@.len() implies trie_rules(rest@)[j] == input.skip(k + 1)[j] by {
            assert(rest@[j] == before[j + 1]);
            assert(trie_rules(before)[j + 1] == input.skip(k as int)[j + 1]);
        }
        assert(trie_rules(rest@) =~= input.skip(k + 1));
        let ghost sv = trie_rules(sorted@);
        let mut p: usize = 0;
        while p < sorted.len() && compare_by_specificity(&sorted[p], &x) <= 0
            invariant
                p <= sorted.len(),
                sv == trie_rules(sorted@),
                specificity_slot(sv, trie_rule(x), 0) == specificity_slot(sv, trie_rule(x), p as int),
            decreases sorted.len() - p,
        {
            p += 1;
        }
        proof {
            lemma_specificity_slot(sv, trie_rule(x), 0);
        }
        sorted.insert(p, x);
        proof {
            assert(input.take(k + 1).drop_last() =~= input.take(k as int));
            assert(input.take(k + 1).last() == trie_rule(x));
            assert(trie_rules(sorted@) =~= sv.insert(p as int, trie_rule(x)));
        }
        k += 1;
    }
    assert(input.take(k as int) =~= input);
    sorted
}

proof fn lemma_specificity_slot(sorted: Seq<TrieRule>, x: TrieRule, from: int)
    requires
        0 <= from <= sorted.len(),
    ensures
        from <= specificity_slot(sorted, x, from) <= sorted.len(),
    decreases sorted.len() - from,
{
    if from < sorted.len() && specificity_order(sorted[from], x) <= 0 {
        lemma_specificity_slot(sorted, x, from + 1);
    }
}

fn chars_to_string(v: &Vec<char>) -> (r: String)
    ensures
        r@ == v@,
{
    string_from_chars(v.as_slice())
}

fn split_dot_exec(scope: &Vec<char>) -> (r: (Vec<char>, Vec<char>))
    requires
        scope@.len() > 0,
    ensures
        (r.0@, r.1@) == split_dot(scope@),
        r.1@.len() < scope@.len(),
{
    proof {
        lemma_first_index_from(scope@, '.', 0);
        lemma_split_dot(scope@);
    }
    let mut i: usize = 0;
    while i < scope.len() && scope[i] != '.'
        invariant
            i <= scope.len(),
            first_index_from(scope@, '.', 0) == first_index_from(scope@, '.', i as int),
        decreases scope.len() - i,
    {
        i += 1;
    }
    if i < scope.len() {
        let head = sub_chars(scope.as_slice(), 0, i);
        let tail = sub_chars(scope.as_slice(), i + 1, scope.len());
        assert(head@ =~= scope@.take(i as int));
        assert(tail@ =~= scope@.skip(i + 1));
        (head, tail)
    } else {
        let head = sub_chars(scope.as_slice(), 0, scope.len());
        assert(head@ =~= scope@);
        (head, Vec::new())
    }
}

fn find_child(children: &Vec<(String, ThemeTrieElement)>, key: &Vec<char>) -> (r: Option<usize>)
    ensures
        match r {
            Some(i) => child_position(trie_children(children@), key@, 0) == Some(i as int) && i < children@.len(),
            None => child_position(trie_children(children@), key@, 0) is None,
        },
{
    let key_s = chars_to_string(key);
    proof {
        lemma_trie_children(children@);
    }
    let mut i: usize = 0;
    while i < children.len()
        invariant
            i <= children.len(),
            key_s@ == key@,
            trie_children(children@).len() == children@.len(),
            forall|j: int| 0 <= j < children@.len() ==> #[trigger] trie_children(children@)[j] == (children@[j].0@, trie_node(children@[j].1)),
            child_position(trie_children(children@), key@, 0) == child_position(trie_children(children@), key@, i as int),
        decreases children.len() - i,
    {
        if str_eq(children[i].0.as_str(), key_s.as_str()) {
            assert(trie_children(children@)[i as int].0 == key@);
            return Some(i);
        }
        assert(trie_children(children@)[i as int].0 != key@);
        i += 1;
    }
    None
}

fn child_slot_exec(children: &Vec<(String, ThemeTrieElement)>, key: &Vec<char>) -> (r: usize)
    ensures
        r as int == child_slot(trie_children(children@), key@, 0),
        r <= children@.len(),
{
    let key_s = chars_to_string(key);
    proof {
        lemma_trie_children(children@);
        lemma_child_position(trie_children(children@), key@, 0);
    }
    let mut p: usize = 0;
    while p < children.len() && !str_before(key_s.as_str(), children[p].0.as_str())
        invariant
            p <= children.len(),
            key_s@ == key@,
            trie_children(children@).len() == children@.len(),
            forall|j: int| 0 <= j < children@.len() ==> #[trigger] trie_children(children@)[j] == (children@[j].0@, trie_node(children@[j].1)),
            child_slot(trie_children(children@), key@, 0) == child_slot(trie_children(children@), key@, p as int),
        decreases children.len() - p,
    {
        assert(trie_children(children@)[p as int].0 == children@[p as int].0@);
        p += 1;
    }
    if p < children.len() {
        assert(trie_children(children@)[p as int].0 == children@[p as int].0@);
    }
    p
}

fn find_rule_with_parents(rules: &Vec<ThemeTrieElementRule>, parents: &Vec<String>) -> (r: Option<usize>)
    ensures
        match r {
            Some(i) => rule_with_parents(trie_rules(rules@), views_of(parents@), 0) == Some(i as int) && i < rules@.len(),
            None => rule_with_parents(trie_rules(rules@), views_of(parents@), 0) is None,
        },
{
    let mut i: usize = 0;
    while i < rules.len()
        invariant
            i <= rules.len(),
            rule_with_parents(trie_rules(rules@), views_of(parents@), 0) == rule_with_parents(trie_rules(rules@), views_of(parents@), i as int),
        decreases rules.len() - i,
    {
        if strings_equal(&rules[i].parent_scopes, parents) {
            return Some(i);
        }
        i += 1;
    }
    None
}

proof fn lemma_rule_with_parents(rs: Seq<TrieRule>, ps: Seq<Seq<char>>, from: int)
    requires
        0 <= from,
    ensures
        rule_with_parents(rs, ps, from) matches Some(i) ==> from <= i < rs.len() && rs[i].parents == ps,
    decreases rs.len() - from,
{
    if from < rs.len() && rs[from].parents != ps {
        lemma_rule_with_parents(rs, ps, from + 1);
    }
}

fn strings_equal(a: &Vec<String>, b: &Vec<String>) -> (r: bool)
    ensures
        r == (views_of(a@) == views_of(b@)),
{
    if a.len() != b.len() {
        assert(views_of(a@).len() != views_of(b@).len());
        return false;
    }
    let mut i: usize = 0;
    while i < a.len()
        invariant
            i <= a.len(),
            a.len() == b.len(),
            forall|j: int| 0 <= j < i ==> #[trigger] views_of(a@)[j] == views_of(b@)[j],
        decreases a.len() - i,
    {
        if !str_eq(a[i].as_str(), b[i].as_str()) {
            assert(views_of(a@)[i as int] != views_of(b@)[i as int]);
            return false;
        }
        i += 1;
    }
    assert(views_of(a@) =~= views_of(b@));
    true
}

impl ThemeTrieElement {
    /// A node with `main_rule` and nothing else.
    pub fn new(main_rule: ThemeTrieElementRule) -> (r: ThemeTrieElement)
        ensures
            trie_node(r) == (TrieNode::Node { main: trie_rule(main_rule), with_parents: Seq::empty(), children: Seq::empty() }),
    {
        let r = ThemeTrieElement { main_rule, rules_with_parent_scopes: Vec::new(), children: Vec::new() };
        assert(trie_rules(r.rules_with_parent_scopes@) =~= Seq::<TrieRule>::empty());
        assert(trie_children(r.children@) =~= Seq::<(Seq<char>, TrieNode)>::empty());
        r
    }

    /// The rules that `scope` matches (see `node_match`).
    pub fn match_scope(&self, scope: &Vec<char>) -> (r: Vec<ThemeTrieElementRule>)
        ensures
            trie_rules(r@) == node_match(trie_node(*self), scope@),
        decreases scope@.len(),
    {
        proof {
            lemma_trie_children(self.children@);
        }
        if scope.len() > 0 {
            let (head, tail) = split_dot_exec(scope);
            match find_child(&self.children, &head) {
                Some(i) => {
                    proof {
                        lemma_child_position(trie_children(self.children@), head@, 0);
                        assert(trie_children(self.children@)[i as int].1 == trie_node(self.children@[i as int].1));
                        assert(split_dot(scope@) == (head@, tail@));
                    }
                    let r = self.children[i].1.match_scope(&tail);
                    assert(node_match(trie_node(*self), scope@) == node_match(trie_node(self.children@[i as int].1), tail@));
                    return r;
                },
                None => {},
            }
        }
        let mut rules = copy_rules(&self.rules_with_parent_scopes);
        let ghost before = rules@;
        let main = copy_rule(&self.main_rule);
        rules.push(main);
        assert(trie_rules(rules@) =~= trie_rules(before).push(trie_rule(main)));
        sort_by_specificity(rules)
    }

    /// Adds a style at this node (see `node_insert_here`).
    pub fn insert_here(
        &mut self,
        scope_depth: usize,
        parent_scopes: Option<Vec<String>>,
        font_style: FontStyle,
        foreground: u32,
        background: u32,
        font_family: String,
        font_size: u64,
        line_height: u64,
    )
        ensures
            trie_node(*final(self)) == node_insert_here(trie_node(*old(self)), scope_depth, ostrs(parent_scopes), style_in(font_style, foreground, background, font_family, font_size, line_height)),
    {
        let ghost st = style_in(font_style, foreground, background, font_family, font_size, line_height);
        let ghost t0 = trie_node(*self);
        let parents = match parent_scopes {
            Some(p) => p,
            None => {
                self.main_rule.accept_overwrite(scope_depth, font_style, foreground, background, font_family, font_size, line_height);
                assert(trie_node(*self) == node_insert_here(t0, scope_depth, None, st));
                return;
            },
        };
        proof {
            lemma_rule_with_parents(trie_rules(self.rules_with_parent_scopes@), views_of(parents@), 0);
        }
        match find_rule_with_parents(&self.rules_with_parent_scopes, &parents) {
            Some(i) => {
                let mut rule = self.rules_with_parent_scopes.remove(i);
                let ghost old_rules = trie_rules(self.rules_with_parent_scopes@);
                rule.accept_overwrite(scope_depth, font_style, foreground, background, font_family, font_size, line_height);
                self.rules_with_parent_scopes.insert(i, rule);
                proof {
                    let rs0 = t0->Node_with_parents;
                    assert(trie_rules(self.rules_with_parent_scopes@) =~= rs0.update(i as int, overwritten(rs0[i as int], scope_depth, st)));
                }
                return;
            },
            None => {},
        }
        let fs = if font_style.0 == -1 { self.main_rule.font_style } else { font_style };
        let fg = if foreground == 0 { self.main_rule.foreground } else { foreground };
        let bg = if background == 0 { self.main_rule.background } else { background };
        let family = if font_family.as_str().is_empty() { self.main_rule.font_family.clone() } else { font_family };
        let size = if !float_nonzero(font_size) { self.main_rule.font_size } else { font_size };
        let lh = if !float_nonzero(line_height) { self.main_rule.line_height } else { line_height };
        let ghost before = trie_rules(self.rules_with_parent_scopes@);
        let rule = ThemeTrieElementRule {
            scope_depth,
            parent_scopes: parents,
            font_style: fs,
            foreground: fg,
            background: bg,
            font_family: family,
            font_size: size,
            line_height: lh,
        };
        self.rules_with_parent_scopes.push(rule);
        assert(trie_rules(self.rules_with_parent_scopes@) =~= before.push(trie_rule(rule)));
    }

    /// Adds a style for the dotted scope `scope` below this node, which is
    /// at depth `scope_depth` (see `node_insert`).
    pub fn insert(
        &mut self,
        scope_depth: usize,
        scope: &Vec<char>,
        parent_scopes: Option<Vec<String>>,
        font_style: FontStyle,
        foreground: u32,
        background: u32,
        font_family: String,
        font_size: u64,
        line_height: u64,
    )
        ensures
            trie_node(*final(self)) == node_insert(trie_node(*old(self)), scope_depth, scope@, ostrs(parent_scopes), style_in(font_style, foreground, background, font_family, font_size, line_height)),
        decreases scope@.len(),
    {
        if scope.len() == 0 {
            self.insert_here(scope_depth, parent_scopes, font_style, foreground, background, font_family, font_size, line_height);
            return;
        }
        let ghost t0 = trie_node(*self);
        let ghost st = style_in(font_style, foreground, background, font_family, font_size, line_height);
        let ghost ps = ostrs(parent_scopes);
        let (head, tail) = split_dot_exec(scope);
        let depth = scope_depth.saturating_add(1);
        assert(depth == next_depth(scope_depth));
        proof {
            lemma_trie_children(self.children@);
            lemma_child_position(trie_children(self.children@), head@, 0);
        }
        match find_child(&self.children, &head) {
            Some(i) => {
                let ghost cs0 = self.children@;
                let (key, mut child) = self.children.remove(i);
                let ghost child0 = trie_node(child);
                assert(child0 == trie_children(cs0)[i as int].1);
                child.insert(depth, &tail, parent_scopes, font_style, foreground, background, font_family, font_size, line_height);
                self.children.insert(i, (key, child));
                proof {
                    let target = trie_children(cs0).update(i as int, (head@, node_insert(child0, next_depth(scope_depth), tail@, ps, st)));
                    assert forall|j: int| 0 <= j < self.children@.len() implies (self.children@[j].0@, trie_node(self.children@[j].1)) == #[trigger] target[j] by {
                        if j != i {
                            assert(self.children@[j] == cs0[j]);
                        }
                    }
                    lemma_trie_children_equal(self.children@, target);
                }
            },
            None => {
                let ghost cs0 = self.children@;
                let mut child = ThemeTrieElement {
                    main_rule: copy_rule(&self.main_rule),
                    rules_with_parent_scopes: copy_rules(&self.rules_with_parent_scopes),
                    children: Vec::new(),
                };
                assert(trie_children(child.children@) =~= Seq::<(Seq<char>, TrieNode)>::empty());
                let ghost child0 = trie_node(child);
                child.insert(depth, &tail, parent_scopes, font_style, foreground, background, font_family, font_size, line_height);
                let slot = child_slot_exec(&self.children, &head);
                let key = chars_to_string(&head);
                self.children.insert(slot, (key, child));
                proof {
                    let target = trie_children(cs0).insert(slot as int, (head@, node_insert(child0, next_depth(scope_depth), tail@, ps, st)));
                    assert forall|j: int| 0 <= j < self.children@.len() implies (self.children@[j].0@, trie_node(self.children@[j].1)) == #[trigger] target[j] by {
                        if j < slot {
                            assert(self.children@[j] == cs0[j]);
                        } else if j > slot {
                            assert(self.children@[j] == cs0[j - 1]);
                        }
                    }
                    lemma_trie_children_equal(self.children@, target);
                }
            },
        }
    }
}

// ---------------------------------------------------------------------------
// Resolving a theme
// ---------------------------------------------------------------------------

/// -1, 0 or 1 as `a` comes before, equals or comes after `b` in string
/// order.
pub open spec fn text_order(a: Seq<char>, b: Seq<char>) -> int {
    if chars_before(a, b) { -1 } else if chars_before(b, a) { 1 } else { 0 }
}

/// Lexicographic order of two lists of strings from position `i`.
pub open spec fn texts_order(a: Seq<Seq<char>>, b: Seq<Seq<char>>, i: int) -> int
    decreases a.len() - i,
{
    if i < 0 || (i >= a.len() && i >= b.len()) {
        0
    } else if i >= a.len() {
        -1
    } else if i >= b.len() {
        1
    } else if text_order(a[i], b[i]) != 0 {
        text_order(a[i], b[i])
    } else {
        texts_order(a, b, i + 1)
    }
}

/// Order of optional parent scopes: none first, then the shorter list,
/// then lexicographically.
pub open spec fn parents_list_order(a: Option<Seq<Seq<char>>>, b: Option<Seq<Seq<char>>>) -> int {
    match (a, b) {
        (None, None) => 0,
        (None, Some(_)) => -1,
        (Some(_), None) => 1,
        (Some(x), Some(y)) => if x.len() != y.len() { three_way(x.len() as int, y.len() as int) } else { texts_order(x, y, 0) },
    }
}

/// The order in which parsed rules are resolved: by scope, parent scopes,
/// then setting index.
pub open spec fn parsed_order(a: ParsedView, b: ParsedView) -> int {
    let c = text_order(a.scope, b.scope);
    if c != 0 {
        c
    } else {
        let p = parents_list_order(a.parents, b.parents);
        if p != 0 { p } else { three_way(a.index as int, b.index as int) }
    }
}

/// The first position of `sorted` whose rule comes after `x`.
pub open spec fn parsed_slot(sorted: Seq<ParsedView>, x: ParsedView, from: int) -> int
    decreases sorted.len() - from,
{
    if from < 0 || from >= sorted.len() {
        sorted.len() as int
    } else if parsed_order(sorted[from], x) > 0 {
        from
    } else {
        parsed_slot(sorted, x, from + 1)
    }
}

/// The parsed rules in resolution order, equal rules keeping their order.
pub open spec fn parsed_sorted(rs: Seq<ParsedView>) -> Seq<ParsedView>
    decreases rs.len(),
{
    if rs.len() == 0 {
        rs
    } else {
        let sorted = parsed_sorted(rs.drop_last());
        sorted.insert(parsed_slot(sorted, rs.last(), 0), rs.last())
    }
}

proof fn lemma_parsed_slot(sorted: Seq<ParsedView>, x: ParsedView, from: int)
    requires
        0 <= from <= sorted.len(),
    ensures
        from <= parsed_slot(sorted, x, from) <= sorted.len(),
    decreases sorted.len() - from,
{
    if from < sorted.len() && parsed_order(sorted[from], x) <= 0 {
        lemma_parsed_slot(sorted, x, from + 1);
    }
}

proof fn lemma_parsed_sorted_len(rs: Seq<ParsedView>)
    ensures
        parsed_sorted(rs).len() == rs.len(),
    decreases rs.len(),
{
    if rs.len() > 0 {
        lemma_parsed_sorted_len(rs.drop_last());
        lemma_parsed_slot(parsed_sorted(rs.drop_last()), rs.last(), 0);
    }
}

fn text_order_exec(a: &str, b: &str) -> (r: i8)
    ensures
        r as int == text_order(a@, b@),
{
    if str_before(a, b) { -1 } else if str_before(b, a) { 1 } else { 0 }
}

fn texts_order_exec(a: &Vec<String>, b: &Vec<String>) -> (r: i8)
    ensures
        r as int == texts_order(views_of(a@), views_of(b@), 0),
{
    let ghost av = views_of(a@);
    let ghost bv = views_of(b@);
    let mut i: usize = 0;
    while true
        invariant
            i <= a.len() || i <= b.len(),
            av == views_of(a@),
            bv == views_of(b@),
            texts_order(av, bv, 0) == texts_order(av, bv, i as int),
        decreases a.len() - i,
    {
        if i >= a.len() && i >= b.len() {
            return 0;
        }
        if i >= a.len() {
            return -1;
        }
        if i >= b.len() {
            return 1;
        }
        let c = text_order_exec(a[i].as_str(), b[i].as_str());
        if c != 0 {
            return c;
        }
        i += 1;
    }
    0
}

fn parsed_order_exec(a: &ParsedThemeRule, b: &ParsedThemeRule) -> (r: i8)
    ensures
        r as int == parsed_order(parsed_view(*a), parsed_view(*b)),
{
    let c = text_order_exec(a.scope.as_str(), b.scope.as_str());
    if c != 0 {
        return c;
    }
    let p: i8 = match (&a.parent_scopes, &b.parent_scopes) {
        (None, None) => 0,
        (None, Some(_)) => -1,
        (Some(_), None) => 1,
        (Some(x), Some(y)) => if x.len() != y.len() {
            if x.len() < y.len() { -1 } else { 1 }
        } else {
            texts_order_exec(x, y)
        },
    };
    if p != 0 {
        return p;
    }
    if a.index < b.index { -1 } else if a.index > b.index { 1 } else { 0 }
}

/// Sorts parsed rules into resolution order (see `parsed_sorted`).
fn sort_parsed(rs: Vec<ParsedThemeRule>) -> (r: Vec<ParsedThemeRule>)
    ensures
        parsed_views(r@) == parsed_sorted(parsed_views(rs@)),
{
    let ghost input = parsed_views(rs@);
    let n = rs.len();
    assert(input.len() == n);
    let mut rest = rs;
    let mut sorted: Vec<ParsedThemeRule> = Vec::new();
    let mut k: usize = 0;
    while rest.len() > 0
        invariant
            k + rest@.len() == input.len(),
            input.len() <= usize::MAX,
            parsed_views(rest@) == input.skip(k as int),
            parsed_views(sorted@) == parsed_sorted(input.take(k as int)),
        decreases rest.len(),
    {
        let ghost before = rest@;
        assert(parsed_views(before)[0] == parsed_view(before[0]));
        let x = rest.remove(0);
        assert(parsed_view(x) == input[k as int]);
        assert forall|j: int| 0 <= j < rest@.len() implies parsed_views(rest@)[j] == input.skip(k + 1)[j] by {
            assert(rest@[j] == before[j + 1]);
            assert(parsed_views(before)[j + 1] == input.skip(k as int)[j + 1]);
        }
        assert(parsed_views(rest@) =~= input.skip(k + 1));
        let ghost sv = parsed_views(sorted@);
        let mut p: usize = 0;
        while p < sorted.len() && parsed_order_exec(&sorted[p], &x) <= 0
            invariant
                p <= sorted.len(),
                sv == parsed_views(sorted@),
                parsed_slot(sv, parsed_view(x), 0) == parsed_slot(sv, parsed_view(x), p as int),
            decreases sorted.len() - p,
        {
            p += 1;
        }
        proof {
            lemma_parsed_slot(sv, parsed_view(x), 0);
        }
        sorted.insert(p, x);
        proof {
            assert(input.take(k + 1).drop_last() =~= input.take(k as int));
            assert(input.take(k + 1).last() == parsed_view(x));
            assert(parsed_views(sorted@) =~= sv.insert(p as int, parsed_view(x)));
        }
        k += 1;
    }
    assert(input.take(k as int) =~= input);
    sorted
}

/// The defaults of a theme as they are built up.
pub struct DefaultStyle {
    pub font_style: i32,
    pub foreground: Seq<char>,
    pub background: Seq<char>,
    pub family: Seq<char>,
    pub size: u64,
    pub line_height: u64,
}

/// The defaults before any rule: no style, black on white.
pub open spec fn initial_defaults() -> DefaultStyle {
    DefaultStyle { font_style: 0, foreground: "#000000"@, background: "#ffffff"@, family: Seq::empty(), size: 0, line_height: 0 }
}

/// The defaults after a rule for the empty scope: its style and colors
/// where set; its font family, size and line height in any case.
pub open spec fn apply_default(d: DefaultStyle, r: ParsedView) -> DefaultStyle {
    DefaultStyle {
        font_style: if r.font_style != -1 { r.font_style } else { d.font_style },
        foreground: match r.foreground {
            Some(c) => c,
            None => d.foreground,
        },
        background: match r.background {
            Some(c) => c,
            None => d.background,
        },
        family: r.family,
        size: r.size,
        line_height: r.line_height,
    }
}

/// The number of rules for the empty scope at the front of `rs[k..]`.
pub open spec fn leading_defaults(rs: Seq<ParsedView>, k: int) -> int
    decreases rs.len() - k,
{
    if 0 <= k < rs.len() && rs[k].scope.len() == 0 {
        leading_defaults(rs, k + 1)
    } else {
        k
    }
}

proof fn lemma_leading_defaults(rs: Seq<ParsedView>, k: int)
    requires
        0 <= k,
    ensures
        k <= leading_defaults(rs, k),
        leading_defaults(rs, k) <= rs.len() || leading_defaults(rs, k) == k,
    decreases rs.len() - k,
{
    if 0 <= k < rs.len() && rs[k].scope.len() == 0 {
        lemma_leading_defaults(rs, k + 1);
    }
}

/// The defaults after the rules `rs[k..n]`.
pub open spec fn fold_defaults(rs: Seq<ParsedView>, k: int, n: int, d: DefaultStyle) -> DefaultStyle
    decreases n - k,
{
    if k >= n || k < 0 || k >= rs.len() {
        d
    } else {
        fold_defaults(rs, k + 1, n, apply_default(d, rs[k]))
    }
}

/// A color map as plain values.
pub struct ColorMapView {
    pub frozen: bool,
    pub last: u32,
    pub colors: Seq<Seq<char>>,
}

pub open spec fn color_map_view(c: ColorMap) -> ColorMapView {
    ColorMapView { frozen: c.is_frozen, last: c.last_color_id, colors: views_of(c.id_to_color@) }
}

/// What asking the color map for `color` gives: the id and the map
/// after, or (for a frozen map that lacks it) the missing color.
pub open spec fn color_get(cm: ColorMapView, color: Option<Seq<char>>) -> Result<(u32, ColorMapView), Seq<char>> {
    match color {
        None => Ok((0, cm)),
        Some(c) => {
            let u = uppercase_text(c);
            let found = color_id(cm.colors, u);
            if found is Some && found->Some_0 != 0 {
                let i = found->Some_0;
                Ok((if i <= u32::MAX { i as u32 } else { u32::MAX }, cm))
            } else if cm.frozen {
                Err(u)
            } else {
                let id = cm.last + 1;
                Ok((
                    id as u32,
                    ColorMapView {
                        frozen: false,
                        last: id as u32,
                        colors: (if cm.colors.len() <= id {
                            cm.colors + Seq::new((id + 1 - cm.colors.len()) as nat, |i: int| Seq::<char>::empty())
                        } else {
                            cm.colors
                        }).update(id as int, u),
                    },
                ))
            }
        },
    }
}

/// The style a parsed rule brings into the trie, with its color ids.
pub open spec fn rule_style(r: ParsedView, fg: u32, bg: u32) -> StyleIn {
    StyleIn { font_style: r.font_style, foreground: fg, background: bg, family: r.family, size: r.size, line_height: r.line_height }
}

/// The color map and trie after adding the rules `rs[k..]`, each with the
/// ids of its colors; the missing color where a frozen map lacks one.
pub open spec fn build_trie(rs: Seq<ParsedView>, k: int, cm: ColorMapView, t: TrieNode) -> Result<(ColorMapView, TrieNode), Seq<char>>
    decreases rs.len() - k,
{
    if k < 0 || k >= rs.len() {
        Ok((cm, t))
    } else {
        match color_get(cm, rs[k].foreground) {
            Err(e) => Err(e),
            Ok((fg, cm1)) => match color_get(cm1, rs[k].background) {
                Err(e) => Err(e),
                Ok((bg, cm2)) => build_trie(rs, k + 1, cm2, node_insert(t, 0, rs[k].scope, rs[k].parents, rule_style(rs[k], fg, bg))),
            },
        }
    }
}

/// The style of a scope as plain values.
pub struct StyleView {
    pub font_style: i32,
    pub foreground_id: u32,
    pub background_id: u32,
    pub family: Seq<char>,
    pub size: u64,
    pub line_height: u64,
}

/// A resolved theme as plain values.
pub struct ThemeView {
    pub colors: ColorMapView,
    pub defaults: StyleView,
    pub root: TrieNode,
}

/// The theme that parsed rules give: the rules in resolution order; the
/// leading rules for the empty scope folded into the defaults (whose
/// colors are given ids first); every other rule added to the trie in
/// order, under a root that sets nothing but the default font family, size
/// and line height.
pub open spec fn resolved_theme(parsed: Seq<ParsedView>, frozen: Option<Seq<Seq<char>>>) -> Result<ThemeView, Seq<char>> {
    let sorted = parsed_sorted(parsed);
    let n = leading_defaults(sorted, 0);
    let d = fold_defaults(sorted, 0, n, initial_defaults());
    let cm0 = ColorMapView {
        frozen: frozen is Some,
        last: 0,
        colors: match frozen {
            Some(f) => f,
            None => Seq::empty(),
        },
    };
    match color_get(cm0, Some(d.foreground)) {
        Err(e) => Err(e),
        Ok((fg, cm1)) => match color_get(cm1, Some(d.background)) {
            Err(e) => Err(e),
            Ok((bg, cm2)) => {
                let root = TrieNode::Node {
                    main: TrieRule { depth: 0, parents: Seq::empty(), font_style: -1i32, foreground: 0, background: 0, family: d.family, size: d.size, line_height: d.line_height },
                    with_parents: Seq::empty(),
                    children: Seq::empty(),
                };
                match build_trie(sorted, n, cm2, root) {
                    Err(e) => Err(e),
                    Ok((cm3, t)) => Ok(ThemeView {
                        colors: cm3,
                        defaults: StyleView { font_style: d.font_style, foreground_id: fg, background_id: bg, family: d.family, size: d.size, line_height: d.line_height },
                        root: t,
                    }),
                }
            },
        },
    }
}

/// The style of a scope: its font style, the ids of its colors (0: none)
/// and its font.
#[derive(Clone, Debug, PartialEq)]
pub struct StyleAttributes {
    pub font_style: FontStyle,
    pub foreground_id: u32,
    pub background_id: u32,
    pub font_family: String,
    pub font_size: u64,
    pub line_height: u64,
}

pub open spec fn style_view(s: StyleAttributes) -> StyleView {
    StyleView {
        font_style: s.font_style.0,
        foreground_id: s.foreground_id,
        background_id: s.background_id,
        family: s.font_family@,
        size: s.font_size,
        line_height: s.line_height,
    }
}

/// A theme resolved for matching: its colors, its defaults and its trie.
#[derive(Debug)]
pub struct Theme {
    pub color_map: ColorMap,
    pub defaults: StyleAttributes,
    pub root: ThemeTrieElement,
}

pub open spec fn theme_view(t: Theme) -> ThemeView {
    ThemeView { colors: color_map_view(t.color_map), defaults: style_view(t.defaults), root: trie_node(t.root) }
}

/// The error of a frozen color map that lacks a color.
pub open spec fn missing_color(e: ThemeError, color: Seq<char>) -> bool {
    e matches ThemeError::MissingFrozenColor(c) && c@ == color
}

fn get_color_id(cm: &mut ColorMap, color: Option<&str>) -> (r: Result<u32, ThemeError>)
    requires
        old(cm).wf(),
        !old(cm).is_frozen ==> old(cm).last_color_id < u32::MAX,
    ensures
        final(cm).wf(),
        match (r, color_get(color_map_view(*old(cm)), match color {
            Some(c) => Some(c@),
            None => None,
        })) {
            (Ok(id), Ok((id2, view))) => id == id2 && color_map_view(*final(cm)) == view,
            (Err(e), Err(m)) => missing_color(e, m),
            _ => false,
        },
        final(cm).last_color_id <= old(cm).last_color_id + 1,
{
    let r = cm.get_id(color);
    proof {
        match color {
            Some(c) => {
                let u = uppercase_text(c@);
                let found = color_id(views_of(old(cm).id_to_color@), u);
                if found is Some && found->Some_0 != 0 {
                } else if !old(cm).is_frozen {
                    assert(color_map_view(*cm).colors == views_of(cm.id_to_color@));
                }
            },
            None => {},
        }
    }
    r
}

impl Theme {
    /// The theme that a theme file gives (see `resolved_theme`).
    pub fn create_from_raw_theme(source: Option<&RawTheme>, color_map: Option<Vec<String>>) -> (r: Result<Theme, ThemeError>)
        requires
            (match source {
                Some(t) => theme_rules(t.settings@, 0),
                None => Seq::empty(),
            }).len() < 0x7fff_0000,
        ensures
            match (r, resolved_theme(match source {
                Some(t) => theme_rules(t.settings@, 0),
                None => Seq::empty(),
            }, match color_map {
                Some(v) => Some(views_of(v@)),
                None => None,
            })) {
                (Ok(t), Ok(v)) => theme_view(t) == v,
                (Err(e), Err(m)) => missing_color(e, m),
                _ => false,
            },
    {
        Self::create_from_parsed_theme(parse_theme(source), color_map)
    }

    /// The theme that parsed rules give (see `resolved_theme`).
    pub fn create_from_parsed_theme(source: Vec<ParsedThemeRule>, color_map: Option<Vec<String>>) -> (r: Result<Theme, ThemeError>)
        requires
            source@.len() < 0x7fff_0000,
        ensures
            match (r, resolved_theme(parsed_views(source@), match color_map {
                Some(v) => Some(views_of(v@)),
                None => None,
            })) {
                (Ok(t), Ok(v)) => theme_view(t) == v,
                (Err(e), Err(m)) => missing_color(e, m),
                _ => false,
            },
    {
        resolve_parsed_theme_rules(source, color_map)
    }

    /// The colors by id.
    pub fn get_color_map(&self) -> (r: Vec<String>)
        ensures
            views_of(r@) == color_map_view(self.color_map).colors,
    {
        self.color_map.get_color_map()
    }

    /// The style of the empty scope.
    pub fn get_defaults(&self) -> (r: &StyleAttributes)
        ensures
            *r == self.defaults,
    {
        &self.defaults
    }

    /// The style of a scope path: the defaults where there is none; else
    /// that of the most specific rule for its scope whose parent scopes the
    /// path has, none where no such rule exists.
    pub fn match_scope(&self, scope_path: Option<&ScopeStack>) -> (r: Option<StyleAttributes>)
        ensures
            match scope_path {
                None => r == Some(self.defaults),
                Some(p) => match r {
                    Some(s) => style_matched(trie_node(self.root), stack_segments(*p)) == Some(style_view(s)),
                    None => style_matched(trie_node(self.root), stack_segments(*p)) is None,
                },
            },
    {
        let path = match scope_path {
            Some(p) => p,
            None => {
                return Some(copy_style(&self.defaults));
            },
        };
        let segments = path.get_segments();
        let ghost segs = stack_segments(*path);
        assert(views_of(segments@) == segs);
        proof {
            lemma_stack_segments_len(*path);
        }
        let scope = chars_of(path.scope_name.as_str());
        assert(scope@ == segs.last());
        let rules = self.root.match_scope(&scope);
        let ghost ancestors = segs.drop_last().reverse();
        let mut ancestor_list: Vec<String> = Vec::new();
        let mut k: usize = segments.len() - 1;
        while k > 0
            invariant
                k < segments.len(),
                segs == views_of(segments@),
                segs.len() == segments.len(),
                ancestors == segs.drop_last().reverse(),
                views_of(ancestor_list@) == ancestors.take((segments.len() - 1 - k) as int),
            decreases k,
        {
            k -= 1;
            let ghost before = ancestor_list@;
            let x = segments[k].clone();
            ancestor_list.push(x);
            assert(views_of(ancestor_list@) =~= views_of(before).push(x@));
            assert(ancestors.take((segments.len() - 1 - k) as int) =~= ancestors.take((segments.len() - 2 - k) as int).push(segs[k as int]));
        }
        assert(ancestors.take((segments.len() - 1) as int) =~= ancestors);
        let ghost rv = trie_rules(rules@);
        let mut i: usize = 0;
        while i < rules.len()
            invariant
                i <= rules.len(),
                rv == trie_rules(rules@),
                rv == node_match(trie_node(self.root), segs.last()),
                ancestors == segs.drop_last().reverse(),
                segs == stack_segments(*path),
                scope_path == Some(path),
                views_of(ancestor_list@) == ancestors,
                first_matching(rv, ancestors, 0) == first_matching(rv, ancestors, i as int),
            decreases rules.len() - i,
        {
            if parents_match_exec(&ancestor_list, &rules[i].parent_scopes) {
                let rule = &rules[i];
                assert(rv[i as int] == trie_rule(*rule));
                assert(first_matching(rv, ancestors, i as int) == Some(rv[i as int]));
                assert(style_matched(trie_node(self.root), segs) == Some(StyleView {
                    font_style: rule.font_style.0,
                    foreground_id: rule.foreground,
                    background_id: rule.background,
                    family: rule.font_family@,
                    size: rule.font_size,
                    line_height: rule.line_height,
                }));
let style = StyleAttributes {
                    font_style: rule.font_style,
                    foreground_id: rule.foreground,
                    background_id: rule.background,
                    font_family: rule.font_family.clone(),
                    font_size: rule.font_size,
                    line_height: rule.line_height,
                };
                assert(style_view(style).family == rule.font_family@);
                assert(style_matched(trie_node(self.root), stack_segments(*path)) == Some(style_view(style)));
                return Some(style);
            }
            i += 1;
        }
        None
    }
}

fn copy_style(s: &StyleAttributes) -> (r: StyleAttributes)
    ensures
        r == *s,
{
    StyleAttributes {
        font_style: s.font_style,
        foreground_id: s.foreground_id,
        background_id: s.background_id,
        font_family: s.font_family.clone(),
        font_size: s.font_size,
        line_height: s.line_height,
    }
}

proof fn lemma_stack_segments_len(s: ScopeStack)
    ensures
        stack_segments(s).len() >= 1,
        stack_segments(s).last() == s.scope_name@,
{
}

/// Where the pattern `pat` finds its scope among the ancestors `anc[a..]`
/// (innermost first): the first that it matches, or (where it must match
/// at once, after a `>`) only the first.
pub open spec fn find_ancestor(anc: Seq<Seq<char>>, a: int, pat: Seq<char>, must: bool) -> Option<int>
    decreases anc.len() - a,
{
    if a < 0 || a >= anc.len() {
        None
    } else if scope_has_prefix_key(anc[a], pat) {
        Some(a)
    } else if must {
        None
    } else {
        find_ancestor(anc, a + 1, pat, must)
    }
}

/// Whether the ancestors `anc[a..]` hold the parent scopes `ps[i..]` in
/// order, a `>` asking for the next one to be the very next ancestor.
pub open spec fn parents_held(anc: Seq<Seq<char>>, a: int, ps: Seq<Seq<char>>, i: int) -> bool
    decreases ps.len() - i,
{
    if i < 0 || i >= ps.len() {
        true
    } else {
        let marker = ps[i] == ">"@;
        if marker && i == ps.len() - 1 {
            false
        } else {
            let pat = if marker { ps[i + 1] } else { ps[i] };
            let next = if marker { i + 2 } else { i + 1 };
            match find_ancestor(anc, a, pat, marker) {
                None => false,
                Some(found) => parents_held(anc, found + 1, ps, next),
            }
        }
    }
}

/// The first rule of `rs[i..]` whose parent scopes the ancestors hold.
pub open spec fn first_matching(rs: Seq<TrieRule>, anc: Seq<Seq<char>>, i: int) -> Option<TrieRule>
    decreases rs.len() - i,
{
    if i < 0 || i >= rs.len() {
        None
    } else if parents_held(anc, 0, rs[i].parents, 0) {
        Some(rs[i])
    } else {
        first_matching(rs, anc, i + 1)
    }
}

/// The style that the trie gives a scope path (outermost scope first): the
/// first rule for its last scope, by specificity, whose parent scopes the
/// rest of the path holds.
pub open spec fn style_matched(root: TrieNode, segs: Seq<Seq<char>>) -> Option<StyleView> {
    match first_matching(node_match(root, segs.last()), segs.drop_last().reverse(), 0) {
        Some(r) => Some(StyleView {
            font_style: r.font_style,
            foreground_id: r.foreground,
            background_id: r.background,
            family: r.family,
            size: r.size,
            line_height: r.line_height,
        }),
        None => None,
    }
}

fn matches_scope(scope_name: &String, pattern: &String) -> (r: bool)
    ensures
        r == scope_has_prefix_key(scope_name@, pattern@),
{
    let a = chars_of(scope_name.as_str());
    let b = chars_of(pattern.as_str());
    scope_prefix_matches(a.as_slice(), b.as_slice())
}

fn find_ancestor_exec(anc: &Vec<String>, from: usize, pat: &String, must: bool) -> (r: Option<usize>)
    requires
        from <= anc.len(),
    ensures
        match r {
            Some(f) => find_ancestor(views_of(anc@), from as int, pat@, must) == Some(f as int) && f < anc.len(),
            None => find_ancestor(views_of(anc@), from as int, pat@, must) is None,
        },
{
    let ghost av = views_of(anc@);
    let mut a: usize = from;
    while a < anc.len()
        invariant
            from <= a <= anc.len(),
            av == views_of(anc@),
            find_ancestor(av, from as int, pat@, must) == find_ancestor(av, a as int, pat@, must),
        decreases anc.len() - a,
    {
        if matches_scope(&anc[a], pat) {
            return Some(a);
        }
        if must {
            return None;
        }
        a += 1;
    }
    None
}

proof fn lemma_find_ancestor(anc: Seq<Seq<char>>, a: int, pat: Seq<char>, must: bool)
    requires
        0 <= a,
    ensures
        find_ancestor(anc, a, pat, must) matches Some(f) ==> a <= f < anc.len(),
    decreases anc.len() - a,
{
    if a < anc.len() && !scope_has_prefix_key(anc[a], pat) && !must {
        lemma_find_ancestor(anc, a + 1, pat, must);
    }
}

/// Whether the ancestors (innermost first) hold the parent scopes.
fn parents_match_exec(anc: &Vec<String>, ps: &Vec<String>) -> (r: bool)
    ensures
        r == parents_held(views_of(anc@), 0, views_of(ps@), 0),
{
    let ghost av = views_of(anc@);
    let ghost pv = views_of(ps@);
    let mut a: usize = 0;
    let mut i: usize = 0;
    while i < ps.len()
        invariant
            a <= anc.len(),
            i <= ps.len(),
            av == views_of(anc@),
            pv == views_of(ps@),
            parents_held(av, 0, pv, 0) == parents_held(av, a as int, pv, i as int),
        decreases ps.len() - i,
    {
        let marker = is_child_marker(&ps[i]);
        if marker && i == ps.len() - 1 {
            return false;
        }
        let pat_index = if marker { i + 1 } else { i };
        proof {
            lemma_find_ancestor(av, a as int, pv[pat_index as int], marker);
        }
        match find_ancestor_exec(anc, a, &ps[pat_index], marker) {
            None => {
                return false;
            },
            Some(f) => {
                a = f + 1;
                i = pat_index + 1;
            },
        }
    }
    true
}

fn opt_as_str(s: &Option<String>) -> (r: Option<&str>)
    ensures
        match r {
            Some(t) => ostr(*s) == Some(t@),
            None => s is None,
        },
{
    match s {
        Some(t) => Some(t.as_str()),
        None => None,
    }
}

/// Resolves parsed rules into a theme (see `resolved_theme`).
fn resolve_parsed_theme_rules(parsed: Vec<ParsedThemeRule>, frozen_color_map: Option<Vec<String>>) -> (r: Result<Theme, ThemeError>)
    requires
        parsed@.len() < 0x7fff_0000,
    ensures
        match (r, resolved_theme(parsed_views(parsed@), match frozen_color_map {
            Some(v) => Some(views_of(v@)),
            None => None,
        })) {
            (Ok(t), Ok(v)) => theme_view(t) == v,
            (Err(e), Err(m)) => missing_color(e, m),
            _ => false,
        },
{
    let ghost pv = parsed_views(parsed@);
    let ghost fv = match &frozen_color_map {
        Some(v) => Some(views_of(v@)),
        None => None,
    };
    let sorted = sort_parsed(parsed);
    proof {
        lemma_parsed_sorted_len(pv);
    }
    let ghost sv = parsed_sorted(pv);
    let mut default_font_style = FontStyle::none();
    let mut default_foreground = string_from_chars(chars_of("#000000").as_slice());
    let mut default_background = string_from_chars(chars_of("#ffffff").as_slice());
    let mut default_font_family = String::new();
    let mut default_font_size: u64 = 0;
    let mut default_line_height: u64 = 0;
    let mut k: usize = 0;
    proof {
        lemma_leading_defaults(sv, 0);
    }
    while k < sorted.len() && sorted[k].scope.as_str().is_empty()
        invariant
            k <= sorted.len(),
            sv == parsed_views(sorted@),
            leading_defaults(sv, 0) == leading_defaults(sv, k as int),
            fold_defaults(sv, 0, leading_defaults(sv, 0), initial_defaults()) == fold_defaults(sv, k as int, leading_defaults(sv, 0), DefaultStyle {
                font_style: default_font_style.0,
                foreground: default_foreground@,
                background: default_background@,
                family: default_font_family@,
                size: default_font_size,
                line_height: default_line_height,
            }),
            k <= leading_defaults(sv, 0),
        decreases sorted.len() - k,
    {
        let rule = &sorted[k];
        assert(sv[k as int] == parsed_view(*rule));
        proof {
            lemma_leading_defaults(sv, k + 1);
        }
        if rule.font_style.0 != -1 {
            default_font_style = rule.font_style;
        }
        match &rule.foreground {
            Some(c) => {
                default_foreground = c.clone();
            },
            None => {},
        }
        match &rule.background {
            Some(c) => {
                default_background = c.clone();
            },
            None => {},
        }
        default_font_family = rule.font_family.clone();
        default_font_size = rule.font_size;
        default_line_height = rule.line_height;
        k += 1;
    }
    proof {
        reveal_strlit("#000000");
        reveal_strlit("#ffffff");
    }
    let n = k;
    assert(sorted[k as int].scope@ == sv[k as int].scope || k >= sorted.len());
    assert(leading_defaults(sv, k as int) == k);
    let ghost d = DefaultStyle {
        font_style: default_font_style.0,
        foreground: default_foreground@,
        background: default_background@,
        family: default_font_family@,
        size: default_font_size,
        line_height: default_line_height,
    };
    assert(fold_defaults(sv, 0, leading_defaults(sv, 0), initial_defaults()) == d);
    assert(parsed_sorted(pv) == sv);
    let mut color_map = ColorMap::new(frozen_color_map);
    let ghost cm0 = color_map_view(color_map);
    assert(cm0 == ColorMapView {
        frozen: fv is Some,
        last: 0,
        colors: match fv {
            Some(f) => f,
            None => Seq::empty(),
        },
    });
    let fg = match get_color_id(&mut color_map, Some(default_foreground.as_str())) {
        Ok(id) => id,
        Err(e) => {
            return Err(e);
        },
    };
    let ghost cm1 = color_map_view(color_map);
    assert(color_get(cm0, Some(d.foreground)) == Ok::<(u32, ColorMapView), Seq<char>>((fg, cm1)));
    let bg = match get_color_id(&mut color_map, Some(default_background.as_str())) {
        Ok(id) => id,
        Err(e) => {
            return Err(e);
        },
    };
    assert(color_get(cm1, Some(d.background)) == Ok::<(u32, ColorMapView), Seq<char>>((bg, color_map_view(color_map))));
    let defaults = StyleAttributes {
        font_style: default_font_style,
        foreground_id: fg,
        background_id: bg,
        font_family: default_font_family.clone(),
        font_size: default_font_size,
        line_height: default_line_height,
    };
    let no_parents: Vec<String> = Vec::new();
    assert(views_of(no_parents@) =~= Seq::<Seq<char>>::empty());
    let mut root = ThemeTrieElement::new(ThemeTrieElementRule {
        scope_depth: 0,
        parent_scopes: no_parents,
        font_style: FontStyle::not_set(),
        foreground: 0,
        background: 0,
        font_family: default_font_family,
        font_size: default_font_size,
        line_height: default_line_height,
    });
    let ghost cm_start = color_map_view(color_map);
    let ghost root_start = trie_node(root);
    assert(root_start == TrieNode::Node {
        main: TrieRule { depth: 0, parents: Seq::empty(), font_style: -1i32, foreground: 0, background: 0, family: d.family, size: d.size, line_height: d.line_height },
        with_parents: Seq::empty(),
        children: Seq::empty(),
    });
    assert(style_view(defaults) == StyleView { font_style: d.font_style, foreground_id: fg, background_id: bg, family: d.family, size: d.size, line_height: d.line_height });
    assert(resolved_theme(pv, fv) == match build_trie(sv, n as int, cm_start, root_start) {
        Err(e) => Err(e),
        Ok((cm3, t)) => Ok(ThemeView { colors: cm3, defaults: style_view(defaults), root: t }),
    });
    let mut idx: usize = n;
    while idx < sorted.len()
        invariant
            n <= idx <= sorted.len(),
            sv == parsed_views(sorted@),
            sv.len() < 0x7fff_0000,
            color_map.wf(),
            color_map.last_color_id <= 2 + 2 * idx,
            build_trie(sv, n as int, cm_start, root_start) == build_trie(sv, idx as int, color_map_view(color_map), trie_node(root)),
            resolved_theme(pv, fv) == match build_trie(sv, n as int, cm_start, root_start) {
                Err(e) => Err(e),
                Ok((cm3, t)) => Ok(ThemeView { colors: cm3, defaults: style_view(defaults), root: t }),
            },
            pv == parsed_views(parsed@),
            fv == match frozen_color_map {
                Some(v) => Some(views_of(v@)),
                None => None,
            },
        decreases sorted.len() - idx,
    {
        let rule = &sorted[idx];
        assert(sv[idx as int] == parsed_view(*rule));
        let ghost cm_a = color_map_view(color_map);
        let ghost t_a = trie_node(root);
        let fg_arg = opt_as_str(&rule.foreground);
        assert(match fg_arg {
            Some(c) => Some(c@),
            None => None,
        } == sv[idx as int].foreground);
        let fg_id = match get_color_id(&mut color_map, fg_arg) {
            Ok(id) => id,
            Err(e) => {
                assert(color_get(cm_a, sv[idx as int].foreground) is Err);
                assert(build_trie(sv, idx as int, cm_a, t_a) == Err::<(ColorMapView, TrieNode), Seq<char>>(color_get(cm_a, sv[idx as int].foreground)->Err_0));
                return Err(e);
            },
        };
        let ghost cm_b = color_map_view(color_map);
        let bg_arg = opt_as_str(&rule.background);
        assert(match bg_arg {
            Some(c) => Some(c@),
            None => None,
        } == sv[idx as int].background);
        let bg_id = match get_color_id(&mut color_map, bg_arg) {
            Ok(id) => id,
            Err(e) => {
                assert(color_get(cm_a, sv[idx as int].foreground) == Ok::<(u32, ColorMapView), Seq<char>>((fg_id, cm_b)));
                assert(color_get(cm_b, sv[idx as int].background) is Err);
                assert(build_trie(sv, idx as int, cm_a, t_a) == Err::<(ColorMapView, TrieNode), Seq<char>>(color_get(cm_b, sv[idx as int].background)->Err_0));
                return Err(e);
            },
        };
        let scope = chars_of(rule.scope.as_str());
        let parents = match &rule.parent_scopes {
            Some(ps) => Some(copy_strs(ps)),
            None => None,
        };
        assert(ostrs(parents) == sv[idx as int].parents);
        root.insert(0, &scope, parents, rule.font_style, fg_id, bg_id, rule.font_family.clone(), rule.font_size, rule.line_height);
        idx += 1;
    }
    Ok(Theme { color_map, defaults, root })
}

/// Whether a color map view is one a color map can be in: a map that
/// grows has a slot for every id handed out.
pub open spec fn color_map_ok(cm: ColorMapView) -> bool {
    !cm.frozen ==> (cm.colors.len() == 0 && cm.last == 0) || cm.colors.len() == cm.last + 1
}

proof fn lemma_color_id_last(colors: Seq<Seq<char>>, color: Seq<char>)
    requires
        colors.len() > 0,
        colors.last() == color,
    ensures
        color_id(colors, color) == Some(colors.len() - 1),
{
}

/// A color keeps its id: asking the color map for a color it has just
/// given an id gives the same id again and leaves the map as it is.
pub proof fn lemma_color_ids_are_stable(cm: ColorMapView, color: Seq<char>)
    requires
        color_map_ok(cm),
        !cm.frozen ==> cm.last < u32::MAX,
        color_get(cm, Some(color)) is Ok,
        color_get(cm, Some(color))->Ok_0.0 != 0,
    ensures
        color_get(color_get(cm, Some(color))->Ok_0.1, Some(color)) == color_get(cm, Some(color)),
{
    let u = uppercase_text(color);
    let found = color_id(cm.colors, u);
    if found is Some && found->Some_0 != 0 {
    } else {
        let id = cm.last + 1;
        let grown = if cm.colors.len() <= id {
            cm.colors + Seq::new((id + 1 - cm.colors.len()) as nat, |i: int| Seq::<char>::empty())
        } else {
            cm.colors
        };
        let after = grown.update(id as int, u);
        assert(after.len() == id + 1);
        lemma_color_id_last(after, u);
    }
}

} // verus!
