use vstd::prelude::*;

use crate::lexical::string_views;
use crate::text::{
    chars_of, is_whitespace, is_whitespace_char, scope_has_prefix_key, scope_prefix_matches,
    string_from_chars,
};
use crate::unicode::utf8_len;

verus! {

broadcast use vstd::string::group_string_axioms;

/// The words of `s` from position `i` on, `cur` being the part of a word
/// read before `i`: maximal runs of characters that are not white space.
pub open spec fn words_from(s: Seq<char>, i: int, cur: Seq<char>) -> Seq<Seq<char>>
    decreases s.len() - i,
{
    if i < 0 || i >= s.len() {
        if cur.len() > 0 { seq![cur] } else { Seq::empty() }
    } else if is_whitespace_char(s[i]) {
        (if cur.len() > 0 { seq![cur] } else { Seq::empty() }) + words_from(s, i + 1, Seq::empty())
    } else {
        words_from(s, i + 1, cur.push(s[i]))
    }
}

/// The words of `s`, split at white space (as `split_whitespace`).
pub open spec fn whitespace_words(s: Seq<char>) -> Seq<Seq<char>> {
    words_from(s, 0, Seq::empty())
}

/// The words of a scope list.
pub fn parse_scope_list(value: &str) -> (r: Vec<String>)
    ensures
        string_views(r@) == whitespace_words(value@),
{
    let v = chars_of(value);
    let mut out: Vec<String> = Vec::new();
    let mut cur: Vec<char> = Vec::new();
    let mut i: usize = 0;
    while i < v.len()
        invariant
            i <= v.len(),
            v@ == value@,
            whitespace_words(value@) == string_views(out@) + words_from(value@, i as int, cur@),
        decreases v.len() - i,
    {
        let c = v[i];
        if is_whitespace(c) {
            let ghost before = out@;
            if cur.len() > 0 {
                out.push(string_from_chars(cur.as_slice()));
                assert(string_views(out@) =~= string_views(before).push(cur@));
            }
            proof {
                let head: Seq<Seq<char>> = if cur@.len() > 0 { seq![cur@] } else { Seq::empty() };
                assert(string_views(out@) =~= string_views(before) + head);
                assert(string_views(before) + (head + words_from(value@, i + 1, Seq::empty()))
                    =~= string_views(out@) + words_from(value@, i + 1, Seq::empty()));
            }
            cur = Vec::new();
        } else {
            cur.push(c);
        }
        i += 1;
    }
    if cur.len() > 0 {
        let ghost before = out@;
        out.push(string_from_chars(cur.as_slice()));
        assert(string_views(out@) =~= string_views(before).push(cur@));
        assert(string_views(before) + seq![cur@] =~= string_views(out@));
    } else {
        assert(string_views(out@) + Seq::<Seq<char>>::empty() =~= string_views(out@));
    }
    out
}

/// Whether a selector component matches a scope: the scope is the component
/// or begins with the component and a dot.
pub fn scope_component_matches(selector: &str, scope: &str) -> (r: bool)
    ensures
        r == scope_has_prefix_key(scope@, selector@),
{
    let s = chars_of(scope);
    let k = chars_of(selector);
    scope_prefix_matches(s.as_slice(), k.as_slice())
}

/// Whether the first `pn` selector parts match, in order, some of the first
/// `sn` scopes: matched from the innermost scope outwards, each part at the
/// closest scope that matches it.
pub open spec fn parts_embed(parts: Seq<Seq<char>>, pn: int, stack: Seq<Seq<char>>, sn: int) -> bool
    decreases sn,
{
    if pn <= 0 {
        true
    } else if sn <= 0 {
        false
    } else if scope_has_prefix_key(stack[sn - 1], parts[pn - 1]) {
        parts_embed(parts, pn - 1, stack, sn - 1)
    } else {
        parts_embed(parts, pn, stack, sn - 1)
    }
}

/// The total UTF-8 length of the first `n` parts.
pub open spec fn parts_len(parts: Seq<Seq<char>>, n: int) -> nat
    decreases n,
{
    if n <= 0 {
        0
    } else {
        parts_len(parts, n - 1) + utf8_len(parts[n - 1])
    }
}

/// The score of a selector on a scope stack, where it matches: the last part
/// must match the innermost scope and the others must match enclosing scopes
/// in order; the score is the total length of the parts in bytes.
pub open spec fn selector_score(parts: Seq<Seq<char>>, stack: Seq<Seq<char>>) -> Option<nat> {
    if parts.len() == 0 || stack.len() == 0 {
        None
    } else if !scope_has_prefix_key(stack.last(), parts.last()) {
        None
    } else if parts_embed(parts, parts.len() - 1, stack, stack.len() - 1) {
        Some(parts_len(parts, parts.len() as int))
    } else {
        None
    }
}

pub open spec fn str_views(v: Seq<&str>) -> Seq<Seq<char>> {
    v.map_values(|s: &str| s@)
}

/// The score of a selector (already split into parts) on a scope stack,
/// innermost scope last.
pub fn selector_matches_presplit(parts: &[String], scope_stack: &[&str]) -> (r: Option<usize>)
    requires
        parts_len(string_views(parts@), parts@.len() as int) <= usize::MAX,
    ensures
        r == match selector_score(string_views(parts@), str_views(scope_stack@)) {
            Some(n) => Some(n as usize),
            None => None::<usize>,
        },
{
    let ghost pv = string_views(parts@);
    let ghost sv = str_views(scope_stack@);
    if parts.len() == 0 || scope_stack.len() == 0 {
        return None;
    }
    let innermost = scope_stack[scope_stack.len() - 1];
    assert(sv.last() == innermost@);
    assert(pv.last() == parts@[parts.len() - 1]@);
    if !scope_component_matches(parts[parts.len() - 1].as_str(), innermost) {
        return None;
    }
    let mut pn: usize = parts.len() - 1;
    let mut sn: usize = scope_stack.len() - 1;
    while pn > 0 && sn > 0
        invariant
            pn < parts.len(),
            sn < scope_stack.len(),
            pv == string_views(parts@),
            sv == str_views(scope_stack@),
            parts_embed(pv, parts.len() - 1, sv, scope_stack.len() - 1) == parts_embed(pv, pn as int, sv, sn as int),
        decreases sn,
    {
        assert(sv[sn - 1] == scope_stack@[sn - 1]@);
        assert(pv[pn - 1] == parts@[pn - 1]@);
        if scope_component_matches(parts[pn - 1].as_str(), scope_stack[sn - 1]) {
            pn -= 1;
        }
        sn -= 1;
    }
    if pn > 0 {
        return None;
    }
    let mut total: usize = 0;
    let mut k: usize = 0;
    while k < parts.len()
        invariant
            k <= parts.len(),
            pv == string_views(parts@),
            total == parts_len(pv, k as int),
            parts_len(pv, parts@.len() as int) <= usize::MAX,
        decreases parts.len() - k,
    {
        proof {
            lemma_parts_len_mono(pv, k + 1, parts@.len() as int);
        }
        assert(pv[k as int] == parts@[k as int]@);
        total = total + parts[k].as_str().len();
        k += 1;
    }
    Some(total)
}

proof fn lemma_parts_len_mono(parts: Seq<Seq<char>>, a: int, b: int)
    requires
        a <= b,
    ensures
        parts_len(parts, a) <= parts_len(parts, b),
    decreases b - a,
{
    if a < b {
        lemma_parts_len_mono(parts, a, b - 1);
    }
}

/// The uppercase form of an ASCII letter; other characters stay.
pub open spec fn ascii_upper(c: char) -> char {
    if 'a' <= c && c <= 'z' {
        ((c as u32) - 32) as char
    } else {
        c
    }
}

/// A color in the form rules are compared and stored in: hex digits in
/// upper case.
pub open spec fn normalized_color(c: Seq<char>) -> Seq<char> {
    c.map_values(|x: char| ascii_upper(x))
}

/// A color with its hex digits in upper case.
pub fn normalize_hex_color(color: &str) -> (r: String)
    ensures
        r@ == normalized_color(color@),
{
    let v = chars_of(color);
    let mut out: Vec<char> = Vec::new();
    let mut i: usize = 0;
    while i < v.len()
        invariant
            i <= v.len(),
            v@ == color@,
            out@ == normalized_color(color@.take(i as int)),
        decreases v.len() - i,
    {
        let c = v[i];
        if 'a' <= c && c <= 'z' {
            let u = ((c as u32) - 32) as u8;
            out.push(u as char);
            assert(u as char == ascii_upper(c)) by {
                assert((c as u32) - 32 < 128);
            }
        } else {
            out.push(c);
        }
        i += 1;
        assert(out@ =~= normalized_color(color@.take(i as int)));
    }
    assert(color@.take(i as int) =~= color@);
    string_from_chars(out.as_slice())
}

/// A rule of a theme: the scope selectors it applies to (none for the
/// theme's global rule), each split into parts, and its style.
pub struct ThemeRule {
    pub scopes: Vec<String>,
    pub scope_parts: Vec<Vec<String>>,
    pub foreground: Option<String>,
    pub font_style: u8,
}

/// The view of an optional string.
pub open spec fn opt_chars(o: Option<String>) -> Option<Seq<char>> {
    match o {
        Some(s) => Some(s@),
        None => None,
    }
}

/// Whether a rule splits its selectors into parts and normalizes its color.
pub open spec fn rule_prepared(rule: ThemeRule) -> bool {
    &&& rule.scope_parts.len() == rule.scopes.len()
    &&& forall|i: int|
        0 <= i < rule.scopes.len() ==> string_views((#[trigger] rule.scope_parts@[i])@)
            == whitespace_words(rule.scopes@[i]@)
}

impl ThemeRule {
    /// A rule for `scopes`, with each selector split into parts and the
    /// color normalized.
    pub fn new(scopes: Vec<String>, foreground: Option<String>, font_style: u8) -> (r: ThemeRule)
        ensures
            r.scopes@ == scopes@,
            rule_prepared(r),
            opt_chars(r.foreground) == match foreground {
                Some(c) => Some(normalized_color(c@)),
                None => None::<Seq<char>>,
            },
            r.font_style == font_style,
    {
        let mut scope_parts: Vec<Vec<String>> = Vec::new();
        let mut i: usize = 0;
        while i < scopes.len()
            invariant
                i <= scopes.len(),
                scope_parts.len() == i,
                forall|j: int|
                    0 <= j < i ==> string_views((#[trigger] scope_parts@[j])@) == whitespace_words(
                        scopes@[j]@,
                    ),
            decreases scopes.len() - i,
        {
            scope_parts.push(parse_scope_list(scopes[i].as_str()));
            i += 1;
        }
        let foreground = match foreground {
            Some(c) => Some(normalize_hex_color(c.as_str())),
            None => None,
        };
        ThemeRule { scopes, scope_parts, foreground, font_style }
    }
}

/// A theme: its name, colors and rules.
pub struct ThemeData {
    pub name: String,
    pub fg: String,
    pub fg_normalized: String,
    pub bg: String,
    pub settings: Vec<ThemeRule>,
}

/// The style that a theme gives a scope stack.
pub struct ResolvedStyle {
    pub foreground: Option<String>,
    pub font_style: u8,
}

/// Where the choice of a style stands: the best score so far, the color and
/// font style chosen, and whether the global rule was seen.
pub type StyleChoice = (nat, Option<Seq<char>>, u8, bool);

/// The choice after one selector of a rule: a selector that matches with a
/// score at least as high as the best so far wins; it keeps the color
/// chosen before where the rule has none.
pub open spec fn choose_part(c: StyleChoice, rule: ThemeRule, parts: Seq<Seq<char>>, stack: Seq<Seq<char>>) -> StyleChoice {
    match selector_score(parts, stack) {
        Some(score) => if score >= c.0 {
            (
                score,
                match opt_chars(rule.foreground) {
                    Some(f) => Some(f),
                    None => c.1,
                },
                rule.font_style,
                c.3,
            )
        } else {
            c
        },
        None => c,
    }
}

/// The choice after the first `n` selectors of a rule.
pub open spec fn choose_parts(c: StyleChoice, rule: ThemeRule, n: int, stack: Seq<Seq<char>>) -> StyleChoice
    decreases n,
{
    if n <= 0 {
        c
    } else {
        choose_part(choose_parts(c, rule, n - 1, stack), rule, string_views(rule.scope_parts@[n - 1]@), stack)
    }
}

/// The choice after one rule: the first global rule sets the color and font
/// style; a rule with selectors tries each of them.
pub open spec fn choose_rule(c: StyleChoice, rule: ThemeRule, stack: Seq<Seq<char>>) -> StyleChoice {
    if rule.scopes.len() == 0 {
        if !c.3 {
            (c.0, opt_chars(rule.foreground), rule.font_style, true)
        } else {
            c
        }
    } else {
        choose_parts(c, rule, rule.scope_parts.len() as int, stack)
    }
}

/// The choice after the first `n` rules.
pub open spec fn choose_rules(rules: Seq<ThemeRule>, n: int, stack: Seq<Seq<char>>) -> StyleChoice
    decreases n,
{
    if n <= 0 {
        (0, None, 0, false)
    } else {
        choose_rule(choose_rules(rules, n - 1, stack), rules[n - 1], stack)
    }
}

/// Whether no selector of the theme is longer than `usize::MAX` bytes.
pub open spec fn theme_scores_fit(theme: ThemeData) -> bool {
    forall|i: int, j: int|
        0 <= i < theme.settings.len() && 0 <= j < theme.settings@[i].scope_parts.len() ==> parts_len(
            string_views((#[trigger] theme.settings@[i].scope_parts@[j])@),
            theme.settings@[i].scope_parts@[j].len() as int,
        ) <= usize::MAX
}

/// The style of the rule whose selector matches the scope stack best (the
/// last of equally good ones), else that of the theme's global rule.
pub fn resolve_token_style(scope_stack: &[&str], theme: &ThemeData) -> (r: ResolvedStyle)
    requires
        theme_scores_fit(*theme),
    ensures
        ({
            let c = choose_rules(theme.settings@, theme.settings.len() as int, str_views(scope_stack@));
            opt_chars(r.foreground) == c.1 && r.font_style == c.2
        }),
{
    let ghost sv = str_views(scope_stack@);
    let mut best_score: usize = 0;
    let mut best_fg: Option<String> = None;
    let mut best_font_style: u8 = 0;
    let mut has_global = false;
    let mut i: usize = 0;
    while i < theme.settings.len()
        invariant
            i <= theme.settings.len(),
            theme_scores_fit(*theme),
            sv == str_views(scope_stack@),
            choose_rules(theme.settings@, i as int, sv) == (
                best_score as nat,
                opt_chars(best_fg),
                best_font_style,
                has_global,
            ),
        decreases theme.settings.len() - i,
    {
        let rule = &theme.settings[i];
        if rule.scopes.len() == 0 {
            if !has_global {
                has_global = true;
                best_fg = copy_opt(&rule.foreground);
                best_font_style = rule.font_style;
            }
        } else {
            let mut j: usize = 0;
            while j < rule.scope_parts.len()
                invariant
                    j <= rule.scope_parts.len(),
                    i < theme.settings.len(),
                    *rule == theme.settings@[i as int],
                    theme_scores_fit(*theme),
                    sv == str_views(scope_stack@),
                    choose_parts(choose_rules(theme.settings@, i as int, sv), *rule, j as int, sv) == (
                        best_score as nat,
                        opt_chars(best_fg),
                        best_font_style,
                        has_global,
                    ),
                decreases rule.scope_parts.len() - j,
            {
                let parts = &rule.scope_parts[j];
                proof {
                    assert(parts_len(string_views(parts@), parts@.len() as int) <= usize::MAX);
                }
                match selector_matches_presplit(parts.as_slice(), scope_stack) {
                    Some(score) => {
                        if score >= best_score {
                            best_score = score;
                            match &rule.foreground {
                                Some(f) => {
                                    best_fg = Some(crate::text::copy_string(f));
                                },
                                None => {},
                            }
                            best_font_style = rule.font_style;
                        }
                    },
                    None => {},
                }
                j += 1;
            }
        }
        i += 1;
    }
    ResolvedStyle { foreground: best_fg, font_style: best_font_style }
}

fn copy_opt(o: &Option<String>) -> (r: Option<String>)
    ensures
        opt_chars(r) == opt_chars(*o),
{
    match o {
        Some(s) => Some(crate::text::copy_string(s)),
        None => None,
    }
}

/// Whether no selector of the rules scores above `s` on the stack.
pub open spec fn scores_at_most(rules: Seq<ThemeRule>, stack: Seq<Seq<char>>, s: nat) -> bool {
    forall|i: int, j: int|
        0 <= i < rules.len() && 0 <= j < rules[i].scope_parts.len() ==> match selector_score(
            string_views((#[trigger] rules[i].scope_parts@[j])@),
            stack,
        ) {
            Some(t) => t <= s,
            None => true,
        }
}

proof fn lemma_parts_bound(c: StyleChoice, rule: ThemeRule, m: int, stack: Seq<Seq<char>>, s: nat)
    requires
        c.0 <= s,
        0 <= m <= rule.scope_parts.len(),
        forall|j: int| 0 <= j < rule.scope_parts.len() ==> match selector_score(string_views((#[trigger] rule.scope_parts@[j])@), stack) {
            Some(t) => t <= s,
            None => true,
        },
    ensures
        choose_parts(c, rule, m, stack).0 <= s,
    decreases m,
{
    if m > 0 {
        lemma_parts_bound(c, rule, m - 1, stack, s);
        let _ = rule.scope_parts@[m - 1];
    }
}

proof fn lemma_rules_bound(rules: Seq<ThemeRule>, n: int, stack: Seq<Seq<char>>, s: nat)
    requires
        0 <= n <= rules.len(),
        scores_at_most(rules, stack, s),
    ensures
        choose_rules(rules, n, stack).0 <= s,
    decreases n,
{
    if n > 0 {
        lemma_rules_bound(rules, n - 1, stack, s);
        let rule = rules[n - 1];
        if rule.scopes.len() != 0 {
            assert forall|j: int| 0 <= j < rule.scope_parts.len() implies match selector_score(
                string_views((#[trigger] rule.scope_parts@[j])@),
                stack,
            ) {
                Some(t) => t <= s,
                None => true,
            } by {
                let _ = rules[n - 1].scope_parts@[j];
            }
            lemma_parts_bound(choose_rules(rules, n - 1, stack), rule, rule.scope_parts.len() as int, stack, s);
        }
    }
}

proof fn lemma_parts_win(c: StyleChoice, rule: ThemeRule, m: int, k: int, stack: Seq<Seq<char>>, s: nat)
    requires
        c.0 <= s,
        0 <= k < m <= rule.scope_parts.len(),
        selector_score(string_views(rule.scope_parts@[k]@), stack) == Some(s),
        forall|j: int| 0 <= j < rule.scope_parts.len() ==> match selector_score(string_views((#[trigger] rule.scope_parts@[j])@), stack) {
            Some(t) => t <= s,
            None => true,
        },
    ensures
        choose_parts(c, rule, m, stack).0 == s,
        choose_parts(c, rule, m, stack).2 == rule.font_style,
        rule.foreground matches Some(f) ==> choose_parts(c, rule, m, stack).1 == Some(f@),
    decreases m,
{
    if m == k + 1 {
        lemma_parts_bound(c, rule, k, stack, s);
    } else {
        lemma_parts_win(c, rule, m - 1, k, stack, s);
        let _ = rule.scope_parts@[m - 1];
    }
}

/// Among the selectors of a theme, one of the last rule that matches the
/// scope stack with the best score of all decides the style: the font
/// style is that rule's, and so is the color where the rule has one.  So
/// of two rules whose selectors match equally well, the later one wins.
pub proof fn lemma_last_of_best_rules_wins(rules: Seq<ThemeRule>, stack: Seq<Seq<char>>, k: int, s: nat)
    requires
        rules.len() > 0,
        rules.last().scopes.len() > 0,
        0 <= k < rules.last().scope_parts.len(),
        selector_score(string_views(rules.last().scope_parts@[k]@), stack) == Some(s),
        scores_at_most(rules, stack, s),
    ensures
        choose_rules(rules, rules.len() as int, stack).2 == rules.last().font_style,
        rules.last().foreground matches Some(f) ==> choose_rules(rules, rules.len() as int, stack).1 == Some(f@),
{
    let n = rules.len() as int;
    let rule = rules[n - 1];
    lemma_rules_bound(rules, n - 1, stack, s);
    assert forall|j: int| 0 <= j < rule.scope_parts.len() implies match selector_score(
        string_views((#[trigger] rule.scope_parts@[j])@),
        stack,
    ) {
        Some(t) => t <= s,
        None => true,
    } by {
        let _ = rules[n - 1].scope_parts@[j];
    }
    lemma_parts_win(choose_rules(rules, n - 1, stack), rule, rule.scope_parts.len() as int, k, stack, s);
}

} // verus!
