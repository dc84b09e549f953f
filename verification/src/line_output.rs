use vstd::prelude::*;

use crate::encoded_token_attributes::StandardTokenType;
use crate::matcher::{
    all_hold, any_holds, create_matchers, holds, selector_matchers, view_matcher, view_matchers,
    view_prioritized, Matcher, MatcherPriority, MatcherWithPriority, SpecMatcher,
};
use crate::text::{chars_of, copy_opt_string, scope_has_prefix_key, scope_prefix_matches};
use crate::attributed_scope_stack::AttributedScopeStack;
use crate::encoded_token_attributes::{font_view, FontView};
use crate::theme_trie::float_bits_nonzero;
use std::sync::Arc;

verus! {

broadcast use vstd::string::group_string_axioms;

/// The first scope at or after `from` that `id` names.
pub open spec fn first_scope_match(scopes: Seq<Seq<char>>, id: Seq<char>, from: int) -> Option<int>
    decreases scopes.len() - from,
{
    if from < 0 || from >= scopes.len() {
        None
    } else if scope_has_prefix_key(scopes[from], id) {
        Some(from)
    } else {
        first_scope_match(scopes, id, from + 1)
    }
}

/// Identifiers `i..` name scopes in order, searching greedily from `from`.
pub open spec fn identifiers_match_from(ids: Seq<Seq<char>>, scopes: Seq<Seq<char>>, i: int, from: int) -> bool
    decreases ids.len() - i,
{
    if i < 0 || i >= ids.len() {
        true
    } else {
        match first_scope_match(scopes, ids[i], from) {
            Some(j) => identifiers_match_from(ids, scopes, i + 1, j + 1),
            None => false,
        }
    }
}

/// The identifiers name scopes of the stack in order, each identifier
/// being a scope or a dot-separated prefix of it.
pub open spec fn scope_identifiers_match(ids: Seq<Seq<char>>, scopes: Seq<Seq<char>>) -> bool {
    scopes.len() >= ids.len() && identifiers_match_from(ids, scopes, 0, 0)
}

pub open spec fn chars_views(v: Seq<Vec<char>>) -> Seq<Seq<char>> {
    v.map_values(|t: Vec<char>| t@)
}

pub open spec fn string_views(v: Seq<String>) -> Seq<Seq<char>> {
    v.map_values(|t: String| t@)
}

fn matches_scope_identifiers(identifiers: &Vec<String>, scopes: &Vec<Vec<char>>) -> (r: bool)
    ensures
        r == scope_identifiers_match(string_views(identifiers@), chars_views(scopes@)),
{
    let ghost ids = string_views(identifiers@);
    let ghost sv = chars_views(scopes@);
    if scopes.len() < identifiers.len() {
        return false;
    }
    let mut last_index: usize = 0;
    let mut i: usize = 0;
    while i < identifiers.len()
        invariant
            i <= identifiers.len(),
            last_index <= scopes.len(),
            ids == string_views(identifiers@),
            sv == chars_views(scopes@),
            identifiers_match_from(ids, sv, 0, 0) == identifiers_match_from(ids, sv, i as int, last_index as int),
        decreases identifiers.len() - i,
    {
        let id = chars_of(identifiers[i].as_str());
        assert(id@ == ids[i as int]);
        let mut j = last_index;
        while j < scopes.len() && !scope_prefix_matches(scopes[j].as_slice(), id.as_slice())
            invariant
                last_index <= j <= scopes.len(),
                sv == chars_views(scopes@),
                first_scope_match(sv, id@, last_index as int) == first_scope_match(sv, id@, j as int),
            decreases scopes.len() - j,
        {
            assert(sv[j as int] == scopes@[j as int]@);
            j += 1;
        }
        if j == scopes.len() {
            return false;
        }
        assert(sv[j as int] == scopes@[j as int]@);
        last_index = j + 1;
        i += 1;
    }
    true
}

/// The name-list judgement for a scope stack: the names match it in order.
pub open spec fn names_match_stack(scopes: Seq<Seq<char>>) -> spec_fn(Seq<Seq<char>>) -> bool {
    |ids: Seq<Seq<char>>| scope_identifiers_match(ids, scopes)
}

/// Whether the selector holds for a scope stack, each name list matching
/// the stack in order.
pub open spec fn selector_holds_for(m: SpecMatcher, scopes: Seq<Seq<char>>) -> bool {
    holds(m, names_match_stack(scopes))
}

pub fn matcher_matches_scopes(m: &Matcher, scopes: &Vec<Vec<char>>) -> (r: bool)
    ensures
        r == selector_holds_for(view_matcher(*m), chars_views(scopes@)),
    decreases m, 1nat,
{
    match m {
        Matcher::Name(identifiers) => matches_scope_identifiers(identifiers, scopes),
        Matcher::Negate(b) => !matcher_matches_scopes(b, scopes),
        Matcher::Conjunction(ms) => all_match_scopes(ms, scopes),
        Matcher::Disjunction(ms) => any_match_scopes(ms, scopes),
        Matcher::Never => false,
    }
}

fn all_match_scopes(ms: &Vec<Matcher>, scopes: &Vec<Vec<char>>) -> (r: bool)
    ensures
        r == all_hold(view_matchers(ms@), names_match_stack(chars_views(scopes@))),
    decreases ms, 0nat,
{
    let ghost p = names_match_stack(chars_views(scopes@));
    let mut i: usize = 0;
    while i < ms.len()
        invariant
            i <= ms.len(),
            p == names_match_stack(chars_views(scopes@)),
            all_hold(view_matchers(ms@.take(i as int)), p),
        decreases ms.len() - i,
    {
        assert(ms@.take(i + 1).drop_last() =~= ms@.take(i as int));
        let ok = matcher_matches_scopes(&ms[i], scopes);
        proof {
            let v = view_matchers(ms@.take(i + 1));
            assert(v == view_matchers(ms@.take(i as int)).push(view_matcher(ms@[i as int])));
            assert(v.drop_last() =~= view_matchers(ms@.take(i as int)));
        }
        if !ok {
            proof {
                lemma_all_hold_prefix(ms@, i as int + 1, p);
            }
            return false;
        }
        i += 1;
    }
    assert(ms@.take(i as int) =~= ms@);
    true
}

fn any_match_scopes(ms: &Vec<Matcher>, scopes: &Vec<Vec<char>>) -> (r: bool)
    ensures
        r == any_holds(view_matchers(ms@), names_match_stack(chars_views(scopes@))),
    decreases ms, 0nat,
{
    let ghost p = names_match_stack(chars_views(scopes@));
    let mut i: usize = 0;
    while i < ms.len()
        invariant
            i <= ms.len(),
            p == names_match_stack(chars_views(scopes@)),
            !any_holds(view_matchers(ms@.take(i as int)), p),
        decreases ms.len() - i,
    {
        assert(ms@.take(i + 1).drop_last() =~= ms@.take(i as int));
        let ok = matcher_matches_scopes(&ms[i], scopes);
        proof {
            let v = view_matchers(ms@.take(i + 1));
            assert(v == view_matchers(ms@.take(i as int)).push(view_matcher(ms@[i as int])));
            assert(v.drop_last() =~= view_matchers(ms@.take(i as int)));
        }
        if ok {
            proof {
                lemma_any_holds_prefix(ms@, i as int + 1, p);
            }
            return true;
        }
        i += 1;
    }
    assert(ms@.take(i as int) =~= ms@);
    false
}

proof fn lemma_all_hold_prefix(ms: Seq<Matcher>, n: int, p: spec_fn(Seq<Seq<char>>) -> bool)
    requires
        0 <= n <= ms.len(),
        !all_hold(view_matchers(ms.take(n)), p),
    ensures
        !all_hold(view_matchers(ms), p),
    decreases ms.len() - n,
{
    if n < ms.len() {
        assert(ms.take(n + 1).drop_last() =~= ms.take(n));
        let v = view_matchers(ms.take(n + 1));
        assert(v == view_matchers(ms.take(n)).push(view_matcher(ms[n])));
        assert(v.drop_last() =~= view_matchers(ms.take(n)));
        lemma_all_hold_prefix(ms, n + 1, p);
    } else {
        assert(ms.take(n) =~= ms);
    }
}

proof fn lemma_any_holds_prefix(ms: Seq<Matcher>, n: int, p: spec_fn(Seq<Seq<char>>) -> bool)
    requires
        0 <= n <= ms.len(),
        any_holds(view_matchers(ms.take(n)), p),
    ensures
        any_holds(view_matchers(ms), p),
    decreases ms.len() - n,
{
    if n < ms.len() {
        assert(ms.take(n + 1).drop_last() =~= ms.take(n));
        let v = view_matchers(ms.take(n + 1));
        assert(v == view_matchers(ms.take(n)).push(view_matcher(ms[n])));
        assert(v.drop_last() =~= view_matchers(ms.take(n)));
        lemma_any_holds_prefix(ms, n + 1, p);
    } else {
        assert(ms.take(n) =~= ms);
    }
}

proof fn lemma_view_matchers_append(a: Seq<Matcher>, b: Seq<Matcher>)
    ensures
        view_matchers(a + b) == view_matchers(a) + view_matchers(b),
    decreases b.len(),
{
    if b.len() == 0 {
        assert(a + b =~= a);
        assert(view_matchers(a) + view_matchers(b) =~= view_matchers(a));
    } else {
        lemma_view_matchers_append(a, b.drop_last());
        assert((a + b).drop_last() =~= a + b.drop_last());
        assert(view_matchers(a) + view_matchers(b) =~= (view_matchers(a) + view_matchers(
            b.drop_last(),
        )).push(view_matcher(b.last())));
    }
}

pub open spec fn star_chars() -> Seq<char> {
    seq!['*']
}

/// The matchers of the given selectors, in order; `*` selectors are left
/// out when `skip_star` holds.
pub open spec fn selectors_to_matchers(sels: Seq<Seq<char>>, skip_star: bool) -> Seq<SpecMatcher>
    decreases sels.len(),
{
    if sels.len() == 0 {
        Seq::empty()
    } else {
        selectors_to_matchers(sels.drop_last(), skip_star) + if skip_star && sels.last()
            == star_chars() {
            Seq::<SpecMatcher>::empty()
        } else {
            selector_matchers(sels.last()).map_values(|p: (SpecMatcher, MatcherPriority)| p.0)
        }
    }
}

fn matchers_of(selector: &String) -> (r: Vec<Matcher>)
    ensures
        view_matchers(r@) == selector_matchers(selector@).map_values(
            |p: (SpecMatcher, MatcherPriority)| p.0,
        ),
{
    let mut ms = create_matchers(selector.as_str());
    let ghost all = view_prioritized(ms@);
    let mut out: Vec<Matcher> = Vec::new();
    let ghost n = ms@.len();
    while ms.len() > 0
        invariant
            all == selector_matchers(selector@),
            out@.len() + ms@.len() == n,
            all.len() == n,
            view_matchers(out@) == all.take(out@.len() as int).map_values(
                |p: (SpecMatcher, MatcherPriority)| p.0,
            ),
            view_prioritized(ms@) == all.skip(out@.len() as int),
        decreases ms.len(),
    {
        let ghost k = out@.len() as int;
        let ghost before = ms@;
            let m = ms.remove(0);
        proof {
            assert(view_prioritized(before) == all.skip(k));
                assert(before[0] == m);
            assert(all.skip(k)[0] == (view_matcher(m.matcher), m.priority));
            lemma_view_matchers_push_local(out@, m.matcher);
            assert(all.take(k + 1).map_values(|p: (SpecMatcher, MatcherPriority)| p.0) =~= all.take(k).map_values(|p: (SpecMatcher, MatcherPriority)| p.0).push(all[k].0));
            assert(ms@ =~= before.subrange(1, before.len() as int));
            assert forall|j: int| 0 <= j < ms@.len() implies view_prioritized(ms@)[j] == all.skip(k + 1)[j] by {
                assert(ms@[j] == before[j + 1]);
                assert(view_prioritized(before)[j + 1] == all.skip(k)[j + 1]);
            }
            assert(view_prioritized(ms@) =~= all.skip(k + 1));
        }
        out.push(m.matcher);
    }
    assert(all.take(n as int) =~= all);
    out
}

proof fn lemma_view_matchers_push_local(s: Seq<Matcher>, m: Matcher)
    ensures
        view_matchers(s.push(m)) == view_matchers(s).push(view_matcher(m)),
{
    assert(s.push(m).drop_last() =~= s);
}

/// Selectors of scopes whose brackets are balanced, and exceptions to
/// them.
pub struct BalancedBracketSelectors {
    balanced_bracket_scopes: Vec<Matcher>,
    unbalanced_bracket_scopes: Vec<Matcher>,
    allow_any: bool,
}

/// Some selector of `ms` holds for the scope stack.
pub open spec fn some_selector_holds(ms: Seq<SpecMatcher>, scopes: Seq<Seq<char>>) -> bool {
    exists|i: int| 0 <= i < ms.len() && selector_holds_for(#[trigger] ms[i], scopes)
}

impl BalancedBracketSelectors {
    pub closed spec fn balanced(&self) -> Seq<SpecMatcher> {
        view_matchers(self.balanced_bracket_scopes@)
    }

    pub closed spec fn unbalanced(&self) -> Seq<SpecMatcher> {
        view_matchers(self.unbalanced_bracket_scopes@)
    }

    pub closed spec fn allows_any(&self) -> bool {
        self.allow_any
    }

    fn collect(selectors: &[String], skip_star: bool) -> (r: (Vec<Matcher>, bool))
        ensures
            view_matchers(r.0@) == selectors_to_matchers(string_views(selectors@), skip_star),
            r.1 == (exists|i: int| 0 <= i < selectors@.len() && (#[trigger] selectors@[i])@ == star_chars()),
    {
        let ghost sv = string_views(selectors@);
        let mut out: Vec<Matcher> = Vec::new();
        let mut any_star = false;
        let mut i: usize = 0;
        let star = chars_of("*");
        proof {
            reveal_strlit("*");
            assert(star@ =~= star_chars());
        }
        while i < selectors.len()
            invariant
                i <= selectors.len(),
                sv == string_views(selectors@),
                star@ == star_chars(),
                view_matchers(out@) == selectors_to_matchers(sv.take(i as int), skip_star),
                any_star == (exists|k: int| 0 <= k < i && (#[trigger] selectors@[k])@ == star_chars()),
            decreases selectors.len() - i,
        {
            let sel = chars_of(selectors[i].as_str());
            let is_star = crate::text::chars_eq(sel.as_slice(), star.as_slice());
            assert(sv.take(i + 1).drop_last() =~= sv.take(i as int));
            assert(sv.take(i + 1).last() == selectors@[i as int]@);
            if is_star {
                any_star = true;
            }
            if !(skip_star && is_star) {
                let mut ms = matchers_of(&selectors[i]);
                proof {
                    lemma_view_matchers_append(out@, ms@);
                }
                out.append(&mut ms);
            } else {
                assert(selectors_to_matchers(sv.take(i + 1), skip_star) =~= selectors_to_matchers(sv.take(i as int), skip_star));
            }
            i += 1;
        }
        assert(sv.take(i as int) =~= sv);
        (out, any_star)
    }

    pub fn new(balanced_bracket_scopes: &[String], unbalanced_bracket_scopes: &[String]) -> (r: Self)
        ensures
            r.balanced() == selectors_to_matchers(string_views(balanced_bracket_scopes@), true),
            r.unbalanced() == selectors_to_matchers(string_views(unbalanced_bracket_scopes@), false),
            r.allows_any() == (exists|i: int|
                0 <= i < balanced_bracket_scopes@.len() && (#[trigger] balanced_bracket_scopes@[i])@
                    == star_chars()),
    {
        let (balanced, allow_any) = Self::collect(balanced_bracket_scopes, true);
        let (unbalanced, _) = Self::collect(unbalanced_bracket_scopes, false);
        BalancedBracketSelectors {
            balanced_bracket_scopes: balanced,
            unbalanced_bracket_scopes: unbalanced,
            allow_any,
        }
    }

    pub fn matches_always(&self) -> (r: bool)
        ensures
            r == (self.allows_any() && self.unbalanced().len() == 0),
    {
        self.allow_any && self.unbalanced_bracket_scopes.len() == 0
    }

    pub fn matches_never(&self) -> (r: bool)
        ensures
            r == (self.balanced().len() == 0 && !self.allows_any()),
    {
        self.balanced_bracket_scopes.len() == 0 && !self.allow_any
    }

    fn any_matcher(ms: &Vec<Matcher>, scopes: &Vec<Vec<char>>) -> (r: bool)
        ensures
            r == some_selector_holds(view_matchers(ms@), chars_views(scopes@)),
    {
        let mut i: usize = 0;
        while i < ms.len()
            invariant
                i <= ms.len(),
                forall|k: int| 0 <= k < i ==> !selector_holds_for(#[trigger] view_matchers(ms@)[k], chars_views(scopes@)),
            decreases ms.len() - i,
        {
            proof {
                lemma_view_matchers_index(ms@, i as int);
            }
            if matcher_matches_scopes(&ms[i], scopes) {
                assert(selector_holds_for(view_matchers(ms@)[i as int], chars_views(scopes@)));
                return true;
            }
            i += 1;
        }
        proof {
            lemma_view_matchers_len(ms@);
        }
        false
    }

    /// Whether brackets are balanced for a scope stack: no exception
    /// holds, and some selector holds or `*` was given.
    pub fn matches(&self, scopes: &[String]) -> (r: bool)
        ensures
            r == (!some_selector_holds(self.unbalanced(), string_views(scopes@)) && (
            some_selector_holds(self.balanced(), string_views(scopes@)) || self.allows_any())),
    {
        let mut sv: Vec<Vec<char>> = Vec::new();
        let mut i: usize = 0;
        while i < scopes.len()
            invariant
                i <= scopes.len(),
                chars_views(sv@) == string_views(scopes@).take(i as int),
            decreases scopes.len() - i,
        {
            let c = chars_of(scopes[i].as_str());
            proof {
                assert(c@ == string_views(scopes@)[i as int]);
                assert(chars_views(sv@.push(c)) =~= chars_views(sv@).push(c@));
                assert(chars_views(sv@.push(c)) =~= string_views(scopes@).take(i + 1));
            }
            sv.push(c);
            i += 1;
        }
        assert(string_views(scopes@).take(i as int) =~= string_views(scopes@));
        if Self::any_matcher(&self.unbalanced_bracket_scopes, &sv) {
            return false;
        }
        Self::any_matcher(&self.balanced_bracket_scopes, &sv) || self.allow_any
    }
}

proof fn lemma_view_matchers_index(s: Seq<Matcher>, i: int)
    requires
        0 <= i < s.len(),
    ensures
        view_matchers(s).len() == s.len(),
        view_matchers(s)[i] == view_matcher(s[i]),
    decreases s.len(),
{
    lemma_view_matchers_len(s);
    if i < s.len() - 1 {
        lemma_view_matchers_index(s.drop_last(), i);
    }
}

proof fn lemma_view_matchers_len(s: Seq<Matcher>)
    ensures
        view_matchers(s).len() == s.len(),
    decreases s.len(),
{
    if s.len() > 0 {
        lemma_view_matchers_len(s.drop_last());
    }
}

/// A selector that overrides the token type of the scopes it matches.
pub struct TokenTypeMatcher {
    pub matcher: Matcher,
    pub token_type: StandardTokenType,
}

impl TokenTypeMatcher {
    pub fn from_selector(selector: &str, token_type: StandardTokenType) -> (r: Vec<TokenTypeMatcher>)
        ensures
            r@.map_values(|t: TokenTypeMatcher| view_matcher(t.matcher)) == selector_matchers(
                selector@,
            ).map_values(|p: (SpecMatcher, MatcherPriority)| p.0),
            forall|i: int| 0 <= i < r@.len() ==> (#[trigger] r@[i]).token_type == token_type,
    {
        let mut ms = create_matchers(selector);
        let ghost all = view_prioritized(ms@);
        let mut out: Vec<TokenTypeMatcher> = Vec::new();
        let ghost n = ms@.len();
        while ms.len() > 0
            invariant
                all == selector_matchers(selector@),
                out@.len() + ms@.len() == n,
                all.len() == n,
                out@.map_values(|t: TokenTypeMatcher| view_matcher(t.matcher)) == all.take(out@.len() as int).map_values(
                    |p: (SpecMatcher, MatcherPriority)| p.0,
                ),
                forall|i: int| 0 <= i < out@.len() ==> (#[trigger] out@[i]).token_type == token_type,
                view_prioritized(ms@) == all.skip(out@.len() as int),
            decreases ms.len(),
        {
            let ghost k = out@.len() as int;
            let ghost before = ms@;
            let m = ms.remove(0);
            let t = TokenTypeMatcher { matcher: m.matcher, token_type };
            proof {
                assert(view_prioritized(before) == all.skip(k));
                assert(before[0] == m);
                assert(all.skip(k)[0] == (view_matcher(m.matcher), m.priority));
                let old_view = out@.map_values(|t: TokenTypeMatcher| view_matcher(t.matcher));
                assert(out@.push(t).map_values(|t: TokenTypeMatcher| view_matcher(t.matcher)) =~= old_view.push(view_matcher(m.matcher)));
                assert(all.take(k + 1).map_values(|p: (SpecMatcher, MatcherPriority)| p.0) =~= all.take(k).map_values(|p: (SpecMatcher, MatcherPriority)| p.0).push(all[k].0));
                assert(ms@ =~= before.subrange(1, before.len() as int));
            assert forall|j: int| 0 <= j < ms@.len() implies view_prioritized(ms@)[j] == all.skip(k + 1)[j] by {
                assert(ms@[j] == before[j + 1]);
                assert(view_prioritized(before)[j + 1] == all.skip(k)[j + 1]);
            }
            assert(view_prioritized(ms@) =~= all.skip(k + 1));
            }
            out.push(t);
        }
        assert(all.take(n as int) =~= all);
        out
    }
}

/// Whether `c` has a right-to-left directionality.
pub open spec fn is_rtl_char(c: char) -> bool {
        c == '\u{05be}' ||
        c == '\u{05c0}' ||
        c == '\u{05c3}' ||
        c == '\u{05c6}' ||
        ('\u{05d0}' <= c && c <= '\u{05f4}') ||
        c == '\u{0608}' ||
        c == '\u{060b}' ||
        c == '\u{060d}' ||
        ('\u{061b}' <= c && c <= '\u{064a}') ||
        ('\u{066d}' <= c && c <= '\u{066f}') ||
        ('\u{0671}' <= c && c <= '\u{06d5}') ||
        c == '\u{06e5}' ||
        c == '\u{06e6}' ||
        c == '\u{06ee}' ||
        c == '\u{06ef}' ||
        ('\u{06fa}' <= c && c <= '\u{0710}') ||
        ('\u{0712}' <= c && c <= '\u{072f}') ||
        ('\u{074d}' <= c && c <= '\u{07a5}') ||
        ('\u{07b1}' <= c && c <= '\u{07ea}') ||
        c == '\u{07f4}' ||
        c == '\u{07f5}' ||
        c == '\u{07fa}' ||
        ('\u{07fe}' <= c && c <= '\u{0815}') ||
        c == '\u{081a}' ||
        c == '\u{0824}' ||
        c == '\u{0828}' ||
        ('\u{0830}' <= c && c <= '\u{0858}') ||
        ('\u{085e}' <= c && c <= '\u{088e}') ||
        ('\u{08a0}' <= c && c <= '\u{08c9}') ||
        c == '\u{200f}' ||
        c == '\u{fb1d}' ||
        ('\u{fb1f}' <= c && c <= '\u{fb28}') ||
        ('\u{fb2a}' <= c && c <= '\u{fd3d}') ||
        ('\u{fd50}' <= c && c <= '\u{fdc7}') ||
        ('\u{fdf0}' <= c && c <= '\u{fdfc}') ||
        ('\u{fe70}' <= c && c <= '\u{fefc}') ||
        ('\u{10800}' <= c && c <= '\u{1091b}') ||
        ('\u{10920}' <= c && c <= '\u{10a00}') ||
        ('\u{10a10}' <= c && c <= '\u{10a35}') ||
        ('\u{10a40}' <= c && c <= '\u{10ae4}') ||
        ('\u{10aeb}' <= c && c <= '\u{10b35}') ||
        ('\u{10b40}' <= c && c <= '\u{10bff}') ||
        ('\u{10c00}' <= c && c <= '\u{10d23}') ||
        ('\u{10e80}' <= c && c <= '\u{10ea9}') ||
        ('\u{10ead}' <= c && c <= '\u{10f45}') ||
        ('\u{10f51}' <= c && c <= '\u{10f81}') ||
        ('\u{10f86}' <= c && c <= '\u{10ff6}') ||
        ('\u{1e800}' <= c && c <= '\u{1e8cf}') ||
        ('\u{1e900}' <= c && c <= '\u{1e943}') ||
        ('\u{1e94b}' <= c && c <= '\u{1ebff}') ||
        ('\u{1ec00}' <= c && c <= '\u{1eebb}')
}

fn is_rtl(c: char) -> (r: bool)
    ensures
        r == is_rtl_char(c),
{
        c == '\u{05be}' ||
        c == '\u{05c0}' ||
        c == '\u{05c3}' ||
        c == '\u{05c6}' ||
        ('\u{05d0}' <= c && c <= '\u{05f4}') ||
        c == '\u{0608}' ||
        c == '\u{060b}' ||
        c == '\u{060d}' ||
        ('\u{061b}' <= c && c <= '\u{064a}') ||
        ('\u{066d}' <= c && c <= '\u{066f}') ||
        ('\u{0671}' <= c && c <= '\u{06d5}') ||
        c == '\u{06e5}' ||
        c == '\u{06e6}' ||
        c == '\u{06ee}' ||
        c == '\u{06ef}' ||
        ('\u{06fa}' <= c && c <= '\u{0710}') ||
        ('\u{0712}' <= c && c <= '\u{072f}') ||
        ('\u{074d}' <= c && c <= '\u{07a5}') ||
        ('\u{07b1}' <= c && c <= '\u{07ea}') ||
        c == '\u{07f4}' ||
        c == '\u{07f5}' ||
        c == '\u{07fa}' ||
        ('\u{07fe}' <= c && c <= '\u{0815}') ||
        c == '\u{081a}' ||
        c == '\u{0824}' ||
        c == '\u{0828}' ||
        ('\u{0830}' <= c && c <= '\u{0858}') ||
        ('\u{085e}' <= c && c <= '\u{088e}') ||
        ('\u{08a0}' <= c && c <= '\u{08c9}') ||
        c == '\u{200f}' ||
        c == '\u{fb1d}' ||
        ('\u{fb1f}' <= c && c <= '\u{fb28}') ||
        ('\u{fb2a}' <= c && c <= '\u{fd3d}') ||
        ('\u{fd50}' <= c && c <= '\u{fdc7}') ||
        ('\u{fdf0}' <= c && c <= '\u{fdfc}') ||
        ('\u{fe70}' <= c && c <= '\u{fefc}') ||
        ('\u{10800}' <= c && c <= '\u{1091b}') ||
        ('\u{10920}' <= c && c <= '\u{10a00}') ||
        ('\u{10a10}' <= c && c <= '\u{10a35}') ||
        ('\u{10a40}' <= c && c <= '\u{10ae4}') ||
        ('\u{10aeb}' <= c && c <= '\u{10b35}') ||
        ('\u{10b40}' <= c && c <= '\u{10bff}') ||
        ('\u{10c00}' <= c && c <= '\u{10d23}') ||
        ('\u{10e80}' <= c && c <= '\u{10ea9}') ||
        ('\u{10ead}' <= c && c <= '\u{10f45}') ||
        ('\u{10f51}' <= c && c <= '\u{10f81}') ||
        ('\u{10f86}' <= c && c <= '\u{10ff6}') ||
        ('\u{1e800}' <= c && c <= '\u{1e8cf}') ||
        ('\u{1e900}' <= c && c <= '\u{1e943}') ||
        ('\u{1e94b}' <= c && c <= '\u{1ebff}') ||
        ('\u{1ec00}' <= c && c <= '\u{1eebb}')
}

/// Whether some character of the text has right-to-left directionality.
pub fn contains_rtl(value: &str) -> (r: bool)
    ensures
        r == exists|i: int| 0 <= i < value@.len() && is_rtl_char(#[trigger] value@[i]),
{
    let chars = chars_of(value);
    let mut i: usize = 0;
    while i < chars.len()
        invariant
            i <= chars.len(),
            chars@ == value@,
            forall|k: int| 0 <= k < i ==> !is_rtl_char(#[trigger] value@[k]),
        decreases chars.len() - i,
    {
        if is_rtl(chars[i]) {
            assert(is_rtl_char(value@[i as int]));
            return true;
        }
        i += 1;
    }
    false
}

// ---------------------------------------------------------------------
// Font runs of a line.  Sizes and line heights are the bits of doubles.

/// Whether the double with these bits is a NaN.
pub open spec fn float_bits_nan(bits: u64) -> bool {
    (bits >> 52u64) & 0x7ffu64 == 0x7ffu64 && bits & 0xf_ffff_ffff_ffffu64 != 0
}

/// Whether the double with these bits is neither zero nor a NaN.
pub open spec fn float_bits_truthy(bits: u64) -> bool {
    float_bits_nonzero(bits) && !float_bits_nan(bits)
}

/// Whether the doubles with these bits are equal (`0.0 == -0.0`; a NaN
/// equals nothing).
pub open spec fn float_bits_eq(a: u64, b: u64) -> bool {
    (!float_bits_nonzero(a) && !float_bits_nonzero(b)) || (!float_bits_nan(a) && !float_bits_nan(b) && a == b)
}

/// Whether two optional doubles are equal.
pub open spec fn opt_float_eq(a: Option<u64>, b: Option<u64>) -> bool {
    match (a, b) {
        (Some(x), Some(y)) => float_bits_eq(x, y),
        (None, None) => true,
        _ => false,
    }
}

fn float_is_nan(bits: u64) -> (r: bool)
    ensures
        r == float_bits_nan(bits),
{
    (bits >> 52u64) & 0x7ffu64 == 0x7ffu64 && bits & 0xf_ffff_ffff_ffffu64 != 0
}

fn float_eq(a: u64, b: u64) -> (r: bool)
    ensures
        r == float_bits_eq(a, b),
{
    let a_zero = a & 0x7fff_ffff_ffff_ffffu64 == 0;
    let b_zero = b & 0x7fff_ffff_ffff_ffffu64 == 0;
    (a_zero && b_zero) || (!float_is_nan(a) && !float_is_nan(b) && a == b)
}

fn opt_float_equal(a: Option<u64>, b: Option<u64>) -> (r: bool)
    ensures
        r == opt_float_eq(a, b),
{
    match (a, b) {
        (Some(x), Some(y)) => float_eq(x, y),
        (None, None) => true,
        _ => false,
    }
}

/// A run of a line in one font: its UTF-16 range and the font.
#[derive(Clone, Debug, PartialEq)]
pub struct FontInfo {
    pub start_index: usize,
    pub end_index: usize,
    pub font_family: Option<String>,
    pub font_size_multiplier: Option<u64>,
    pub line_height_multiplier: Option<u64>,
}

/// A font run as plain values.
pub struct FontRun {
    pub start: usize,
    pub end: usize,
    pub family: Option<Seq<char>>,
    pub size: Option<u64>,
    pub line_height: Option<u64>,
}

pub open spec fn font_run(f: FontInfo) -> FontRun {
    FontRun {
        start: f.start_index,
        end: f.end_index,
        family: match f.font_family {
            Some(s) => Some(s@),
            None => None,
        },
        size: f.font_size_multiplier,
        line_height: f.line_height_multiplier,
    }
}

pub open spec fn font_runs(fs: Seq<FontInfo>) -> Seq<FontRun> {
    fs.map_values(|f: FontInfo| font_run(f))
}

/// Whether two runs have the same font.
pub open spec fn same_font(a: FontRun, b: FontRun) -> bool {
    a.family == b.family && opt_float_eq(a.size, b.size) && opt_float_eq(a.line_height, b.line_height)
}

impl FontInfo {
    /// Whether the two runs have the same font.
    pub fn options_equal(&self, other: &Self) -> (r: bool)
        ensures
            r == same_font(font_run(*self), font_run(*other)),
    {
        let same_family = match (&self.font_family, &other.font_family) {
            (Some(a), Some(b)) => crate::text::str_eq(a.as_str(), b.as_str()),
            (None, None) => true,
            _ => false,
        };
        same_family && opt_float_equal(self.font_size_multiplier, other.font_size_multiplier)
            && opt_float_equal(self.line_height_multiplier, other.line_height_multiplier)
    }
}

/// The font runs of a line, as scopes are produced.
pub struct LineFonts {
    fonts: Vec<FontInfo>,
    last_index: usize,
}

/// Whether a font sets anything: a family that is not empty, or a size or
/// line height that is neither zero nor a NaN.
pub open spec fn font_is_set(f: FontView) -> bool {
    (f.family matches Some(s) && s.len() > 0) || (f.size matches Some(x) && float_bits_truthy(x)) || (
    f.line_height matches Some(x) && float_bits_truthy(x))
}

/// The runs and last index after producing up to `end` in the font `font`:
/// nothing changes but the index where no font is set; a run that ends at
/// the last index with the same font is extended; otherwise a run from the
/// last index is added.
pub open spec fn fonts_produced(runs: Seq<FontRun>, last: usize, font: Option<FontView>, end: usize) -> (Seq<FontRun>, usize) {
    match font {
        None => (runs, end),
        Some(f) => if !font_is_set(f) {
            (runs, end)
        } else {
            let run = FontRun { start: last, end, family: f.family, size: f.size, line_height: f.line_height };
            if runs.len() > 0 && runs.last().end == last && same_font(runs.last(), run) {
                (runs.update(runs.len() - 1, FontRun { end, ..runs.last() }), end)
            } else {
                (runs.push(run), end)
            }
        },
    }
}

impl LineFonts {
    pub closed spec fn runs(&self) -> Seq<FontRun> {
        font_runs(self.fonts@)
    }

    pub closed spec fn last(&self) -> usize {
        self.last_index
    }

    pub fn new() -> (r: Self)
        ensures
            r.runs() == Seq::<FontRun>::empty(),
            r.last() == 0,
    {
        let r = LineFonts { fonts: Vec::new(), last_index: 0 };
        assert(font_runs(r.fonts@) =~= Seq::<FontRun>::empty());
        r
    }

    /// Produces the line up to `end_index` in the font of the innermost
    /// scope (see `fonts_produced`).
    pub fn produce_from_scopes(&mut self, scopes_list: Option<&Arc<AttributedScopeStack>>, end_index: usize)
        ensures
            (final(self).runs(), final(self).last()) == fonts_produced(
                old(self).runs(),
                old(self).last(),
                match scopes_list {
                    Some(s) => match s.font_attributes {
                        Some(f) => Some(font_view(f)),
                        None => None,
                    },
                    None => None,
                },
                end_index,
            ),
    {
        let font_attributes = match scopes_list {
            Some(scopes) => match &scopes.font_attributes {
                Some(f) => f,
                None => {
                    self.last_index = end_index;
                    return;
                },
            },
            None => {
                self.last_index = end_index;
                return;
            },
        };
        let has_font_family = match &font_attributes.font_family {
            Some(family) => !family.as_str().is_empty(),
            None => false,
        };
        let has_font_size = match font_attributes.font_size {
            Some(x) => x & 0x7fff_ffff_ffff_ffffu64 != 0 && !float_is_nan(x),
            None => false,
        };
        let has_line_height = match font_attributes.line_height {
            Some(x) => x & 0x7fff_ffff_ffff_ffffu64 != 0 && !float_is_nan(x),
            None => false,
        };
        if !has_font_family && !has_font_size && !has_line_height {
            self.last_index = end_index;
            return;
        }
        let font = FontInfo {
            start_index: self.last_index,
            end_index,
            font_family: copy_opt_string(&font_attributes.font_family),
            font_size_multiplier: font_attributes.font_size,
            line_height_multiplier: font_attributes.line_height,
        };
        let ghost before = self.fonts@;
        let n = self.fonts.len();
        if n > 0 {
            assert(font_runs(before).last() == font_run(before[n - 1]));
            if self.fonts[n - 1].end_index == self.last_index && self.fonts[n - 1].options_equal(&font) {
                self.fonts[n - 1].end_index = end_index;
                self.last_index = end_index;
                assert(font_runs(self.fonts@) =~= font_runs(before).update(n - 1, FontRun { end: end_index, ..font_runs(before).last() }));
                return;
            }
        }
        self.fonts.push(font);
        self.last_index = end_index;
        assert(font_runs(self.fonts@) =~= font_runs(before).push(font_run(font)));
    }

    /// The runs of the line.
    pub fn result(&self) -> (r: Vec<FontInfo>)
        ensures
            font_runs(r@) == self.runs(),
    {
        let mut out: Vec<FontInfo> = Vec::new();
        let mut i: usize = 0;
        while i < self.fonts.len()
            invariant
                i <= self.fonts.len(),
                font_runs(out@) == font_runs(self.fonts@).take(i as int),
            decreases self.fonts.len() - i,
        {
            let f = &self.fonts[i];
            let ghost before = out@;
            out.push(FontInfo {
                start_index: f.start_index,
                end_index: f.end_index,
                font_family: copy_opt_string(&f.font_family),
                font_size_multiplier: f.font_size_multiplier,
                line_height_multiplier: f.line_height_multiplier,
            });
            assert(font_run(out@.last()) == font_run(self.fonts@[i as int]));
            assert(font_runs(out@) =~= font_runs(before).push(font_run(out@.last())));
            assert(font_runs(out@) =~= font_runs(self.fonts@).take(i + 1));
            i += 1;
        }
        assert(font_runs(self.fonts@).take(i as int) =~= font_runs(self.fonts@));
        out
    }
}

} // verus!
