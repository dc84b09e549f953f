use vstd::prelude::*;

use crate::text::{chars_of, string_from_chars, sub_chars};

verus! {

broadcast use vstd::string::group_string_axioms;

#[derive(Clone, Copy, Debug, PartialEq, Eq, Structural)]
pub enum MatcherPriority {
    Left,
    Normal,
    Right,
}

/// A compiled scope selector.
#[derive(Debug)]
pub enum Matcher {
    Name(Vec<String>),
    Negate(Box<Matcher>),
    Conjunction(Vec<Matcher>),
    Disjunction(Vec<Matcher>),
    Never,
}

#[derive(Debug)]
pub struct MatcherWithPriority {
    pub matcher: Matcher,
    pub priority: MatcherPriority,
}

/// The mathematical form of a selector.
pub enum SpecMatcher {
    Name(Seq<Seq<char>>),
    Negate(Box<SpecMatcher>),
    Conjunction(Seq<SpecMatcher>),
    Disjunction(Seq<SpecMatcher>),
    Never,
}

pub open spec fn view_matcher(m: Matcher) -> SpecMatcher
    decreases m, 1nat,
{
    match m {
        Matcher::Name(ids) => SpecMatcher::Name(ids@.map_values(|s: String| s@)),
        Matcher::Negate(b) => SpecMatcher::Negate(Box::new(view_matcher(*b))),
        Matcher::Conjunction(v) => SpecMatcher::Conjunction(view_matchers(v@)),
        Matcher::Disjunction(v) => SpecMatcher::Disjunction(view_matchers(v@)),
        Matcher::Never => SpecMatcher::Never,
    }
}

pub open spec fn view_matchers(s: Seq<Matcher>) -> Seq<SpecMatcher>
    decreases s, 0nat,
{
    if s.len() == 0 {
        Seq::empty()
    } else {
        view_matchers(s.drop_last()).push(view_matcher(s.last()))
    }
}

/// Whether a selector holds when each name list is judged by `name_ok`.
pub open spec fn holds(m: SpecMatcher, name_ok: spec_fn(Seq<Seq<char>>) -> bool) -> bool
    decreases m, 1nat,
{
    match m {
        SpecMatcher::Name(ids) => name_ok(ids),
        SpecMatcher::Negate(b) => !holds(*b, name_ok),
        SpecMatcher::Conjunction(ms) => all_hold(ms, name_ok),
        SpecMatcher::Disjunction(ms) => any_holds(ms, name_ok),
        SpecMatcher::Never => false,
    }
}

pub open spec fn all_hold(ms: Seq<SpecMatcher>, name_ok: spec_fn(Seq<Seq<char>>) -> bool) -> bool
    decreases ms, 0nat,
{
    if ms.len() == 0 {
        true
    } else {
        all_hold(ms.drop_last(), name_ok) && holds(ms.last(), name_ok)
    }
}

pub open spec fn any_holds(ms: Seq<SpecMatcher>, name_ok: spec_fn(Seq<Seq<char>>) -> bool) -> bool
    decreases ms, 0nat,
{
    if ms.len() == 0 {
        false
    } else {
        any_holds(ms.drop_last(), name_ok) || holds(ms.last(), name_ok)
    }
}

/// Whether evaluating `m` on `input` may give `r` when each list of names is
/// judged by a call of `f`: a name list gives an answer that call may give;
/// a negation the opposite; a conjunction (see `all_may_give`) and a
/// disjunction (see `any_may_give`) look at their selectors left to right
/// and stop at the first that decides; `Never` gives false without a call.
pub open spec fn may_give<T, F: Fn(&Vec<String>, &T) -> bool>(m: Matcher, input: &T, f: F, r: bool) -> bool
    decreases m, 1nat, 0int,
{
    match m {
        Matcher::Name(ids) => call_ensures(f, (&ids, input), r),
        Matcher::Negate(b) => may_give(*b, input, f, !r),
        Matcher::Conjunction(ms) => all_may_give(ms@, 0, input, f, r),
        Matcher::Disjunction(ms) => any_may_give(ms@, 0, input, f, r),
        Matcher::Never => !r,
    }
}

/// Whether the conjunction of `ms[i..]` may give `r`: true where none is
/// left; else false where `ms[i]` gives false, or what the rest gives where
/// it gives true.
pub open spec fn all_may_give<T, F: Fn(&Vec<String>, &T) -> bool>(ms: Seq<Matcher>, i: int, input: &T, f: F, r: bool) -> bool
    decreases ms, 0nat, ms.len() - i,
{
    if i < 0 || i >= ms.len() {
        r
    } else {
        (may_give(ms[i], input, f, false) && !r) || (may_give(ms[i], input, f, true) && all_may_give(ms, i + 1, input, f, r))
    }
}

/// Whether the disjunction of `ms[i..]` may give `r`: false where none is
/// left; else true where `ms[i]` gives true, or what the rest gives where
/// it gives false.
pub open spec fn any_may_give<T, F: Fn(&Vec<String>, &T) -> bool>(ms: Seq<Matcher>, i: int, input: &T, f: F, r: bool) -> bool
    decreases ms, 0nat, ms.len() - i,
{
    if i < 0 || i >= ms.len() {
        !r
    } else {
        (may_give(ms[i], input, f, true) && r) || (may_give(ms[i], input, f, false) && any_may_give(ms, i + 1, input, f, r))
    }
}

/// Whether `f` may be called on every name list of `m` with `input`.
pub open spec fn callable<T, F: Fn(&Vec<String>, &T) -> bool>(m: Matcher, input: &T, f: F) -> bool
    decreases m, 1nat, 0int,
{
    match m {
        Matcher::Name(ids) => f.requires((&ids, input)),
        Matcher::Negate(b) => callable(*b, input, f),
        Matcher::Conjunction(ms) => all_callable(ms@, 0, input, f),
        Matcher::Disjunction(ms) => all_callable(ms@, 0, input, f),
        Matcher::Never => true,
    }
}

/// Whether `f` may be called on every name list of `ms[i..]`.
pub open spec fn all_callable<T, F: Fn(&Vec<String>, &T) -> bool>(ms: Seq<Matcher>, i: int, input: &T, f: F) -> bool
    decreases ms, 0nat, ms.len() - i,
{
    if i < 0 || i >= ms.len() {
        true
    } else {
        callable(ms[i], input, f) && all_callable(ms, i + 1, input, f)
    }
}

proof fn lemma_all_callable<T, F: Fn(&Vec<String>, &T) -> bool>(ms: Seq<Matcher>, i: int, k: int, input: &T, f: F)
    requires
        0 <= i <= k < ms.len(),
        all_callable(ms, i, input, f),
    ensures
        callable(ms[k], input, f),
    decreases k - i,
{
    if i < k {
        lemma_all_callable(ms, i + 1, k, input, f);
    }
}

impl Matcher {
    pub open spec fn view(self) -> SpecMatcher {
        view_matcher(self)
    }

    /// Evaluates the selector, judging each list of names with
    /// `matches_name` (see `may_give`).
    pub fn matches<T, F: Fn(&Vec<String>, &T) -> bool>(&self, matcher_input: &T, matches_name: &F) -> (r: bool)
        requires
            callable(*self, matcher_input, *matches_name),
        ensures
            may_give(*self, matcher_input, *matches_name, r),
        decreases self, 1nat,
    {
        match self {
            Matcher::Name(identifiers) => {
                let r = matches_name(identifiers, matcher_input);
                r
            },
            Matcher::Negate(matcher) => !matcher.matches(matcher_input, matches_name),
            Matcher::Conjunction(matchers) => Self::all_match(matchers, matcher_input, matches_name),
            Matcher::Disjunction(matchers) => Self::any_match(matchers, matcher_input, matches_name),
            Matcher::Never => false,
        }
    }

    fn all_match<T, F: Fn(&Vec<String>, &T) -> bool>(matchers: &Vec<Matcher>, matcher_input: &T, matches_name: &F) -> (r: bool)
        requires
            all_callable(matchers@, 0, matcher_input, *matches_name),
        ensures
            all_may_give(matchers@, 0, matcher_input, *matches_name, r),
        decreases matchers, 0nat,
    {
        let mut i: usize = 0;
        while i < matchers.len()
            invariant
                i <= matchers.len(),
                all_callable(matchers@, 0, matcher_input, *matches_name),
                forall|b: bool| #[trigger] all_may_give(matchers@, i as int, matcher_input, *matches_name, b) ==> all_may_give(
                    matchers@,
                    0,
                    matcher_input,
                    *matches_name,
                    b,
                ),
            decreases matchers.len() - i,
        {
            proof {
                lemma_all_callable(matchers@, 0, i as int, matcher_input, *matches_name);
            }
            let ok = matchers[i].matches(matcher_input, matches_name);
            if !ok {
                assert(all_may_give(matchers@, i as int, matcher_input, *matches_name, false));
                return false;
            }
            assert forall|b: bool| #[trigger] all_may_give(matchers@, i + 1, matcher_input, *matches_name, b) implies all_may_give(
                matchers@,
                0,
                matcher_input,
                *matches_name,
                b,
            ) by {
                assert(all_may_give(matchers@, i as int, matcher_input, *matches_name, b));
            }
            i += 1;
        }
        assert(all_may_give(matchers@, i as int, matcher_input, *matches_name, true));
        true
    }

    fn any_match<T, F: Fn(&Vec<String>, &T) -> bool>(matchers: &Vec<Matcher>, matcher_input: &T, matches_name: &F) -> (r: bool)
        requires
            all_callable(matchers@, 0, matcher_input, *matches_name),
        ensures
            any_may_give(matchers@, 0, matcher_input, *matches_name, r),
        decreases matchers, 0nat,
    {
        let mut i: usize = 0;
        while i < matchers.len()
            invariant
                i <= matchers.len(),
                all_callable(matchers@, 0, matcher_input, *matches_name),
                forall|b: bool| #[trigger] any_may_give(matchers@, i as int, matcher_input, *matches_name, b) ==> any_may_give(
                    matchers@,
                    0,
                    matcher_input,
                    *matches_name,
                    b,
                ),
            decreases matchers.len() - i,
        {
            proof {
                lemma_all_callable(matchers@, 0, i as int, matcher_input, *matches_name);
            }
            let ok = matchers[i].matches(matcher_input, matches_name);
            if ok {
                assert(any_may_give(matchers@, i as int, matcher_input, *matches_name, true));
                return true;
            }
            assert forall|b: bool| #[trigger] any_may_give(matchers@, i + 1, matcher_input, *matches_name, b) implies any_may_give(
                matchers@,
                0,
                matcher_input,
                *matches_name,
                b,
            ) by {
                assert(any_may_give(matchers@, i as int, matcher_input, *matches_name, b));
            }
            i += 1;
        }
        assert(any_may_give(matchers@, i as int, matcher_input, *matches_name, false));
        false
    }
}

/// Characters that may start a selector identifier.
pub open spec fn is_identifier_start_char(c: char) -> bool {
    ('a' <= c <= 'z') || ('A' <= c <= 'Z') || ('0' <= c <= '9') || c == '_' || c == '.' || c == ':'
}

/// Characters that may continue a selector identifier.
pub open spec fn is_identifier_continue_char(c: char) -> bool {
    is_identifier_start_char(c) || c == '-'
}

fn is_identifier_start(c: char) -> (r: bool)
    ensures
        r == is_identifier_start_char(c),
{
    ('a' <= c && c <= 'z') || ('A' <= c && c <= 'Z') || ('0' <= c && c <= '9') || c == '_' || c
        == '.' || c == ':'
}

fn is_identifier_continue(c: char) -> (r: bool)
    ensures
        r == is_identifier_continue_char(c),
{
    is_identifier_start(c) || c == '-'
}

/// The end of the identifier run that continues at `i`.
pub open spec fn identifier_end(s: Seq<char>, i: int) -> int
    decreases s.len() - i,
{
    if 0 <= i < s.len() && is_identifier_continue_char(s[i]) {
        identifier_end(s, i + 1)
    } else {
        i
    }
}

proof fn lemma_identifier_end(s: Seq<char>, i: int)
    requires
        0 <= i <= s.len(),
    ensures
        i <= identifier_end(s, i) <= s.len(),
    decreases s.len() - i,
{
    if i < s.len() && is_identifier_continue_char(s[i]) {
        lemma_identifier_end(s, i + 1);
    }
}

/// The next selector token at or after `o`, with the offset after it.
pub open spec fn next_token(s: Seq<char>, o: int) -> Option<(Seq<char>, int)>
    decreases s.len() - o,
{
    if o < 0 || o >= s.len() {
        None
    } else if (s[o] == 'L' || s[o] == 'R') && o + 1 < s.len() && s[o + 1] == ':' {
        Some((seq![s[o], ':'], o + 2))
    } else if is_identifier_start_char(s[o]) {
        Some((s.subrange(o, identifier_end(s, o + 1)), identifier_end(s, o + 1)))
    } else if s[o] == ',' || s[o] == '|' || s[o] == '-' || s[o] == '(' || s[o] == ')' {
        Some((seq![s[o]], o + 1))
    } else {
        next_token(s, o + 1)
    }
}

proof fn lemma_next_token(s: Seq<char>, o: int)
    requires
        0 <= o,
    ensures
        match next_token(s, o) {
            Some((t, o2)) => o < o2 <= s.len() && t.len() > 0,
            None => true,
        },
    decreases s.len() - o,
{
    if 0 <= o < s.len() {
        lemma_identifier_end(s, o + 1);
        lemma_next_token(s, o + 1);
    }
}

/// All selector tokens of `s` from offset `o`.
pub open spec fn tokens_from(s: Seq<char>, o: int) -> Seq<Seq<char>>
    decreases s.len() - o,
{
    match next_token(s, o) {
        Some((t, o2)) => if o < o2 <= s.len() {
            seq![t] + tokens_from(s, o2)
        } else {
            Seq::empty()
        },
        None => Seq::empty(),
    }
}

/// Splits a selector into its tokens.
fn tokenize(input: &Vec<char>) -> (r: Vec<Vec<char>>)
    ensures
        r@.map_values(|t: Vec<char>| t@) == tokens_from(input@, 0),
{
    let mut out: Vec<Vec<char>> = Vec::new();
    let mut offset: usize = 0;
    let ghost s = input@;
    while offset < input.len()
        invariant
            offset <= input.len(),
            s == input@,
            out@.map_values(|t: Vec<char>| t@) + tokens_from(s, offset as int) == tokens_from(s, 0),
        decreases input.len() - offset,
    {
        let c = input[offset];
        if (c == 'L' || c == 'R') && offset + 1 < input.len() && input[offset + 1] == ':' {
            let mut t: Vec<char> = Vec::new();
            t.push(c);
            t.push(':');
            proof {
                assert(t@ =~= seq![c, ':']);
                assert(tokens_from(s, offset as int) =~= seq![t@] + tokens_from(s, offset + 2));
                assert(out@.push(t).map_values(|t: Vec<char>| t@) =~= out@.map_values(|t: Vec<char>| t@).push(t@));
            }
            out.push(t);
            offset += 2;
        } else if is_identifier_start(c) {
            let start = offset;
            offset += 1;
            while offset < input.len() && is_identifier_continue(input[offset])
                invariant
                    start < offset <= input.len(),
                    s == input@,
                    identifier_end(s, start + 1) == identifier_end(s, offset as int),
                decreases input.len() - offset,
            {
                offset += 1;
            }
            let t = sub_chars(input.as_slice(), start, offset);
            proof {
                assert(tokens_from(s, start as int) =~= seq![t@] + tokens_from(s, offset as int));
                assert(out@.push(t).map_values(|t: Vec<char>| t@) =~= out@.map_values(|t: Vec<char>| t@).push(t@));
            }
            out.push(t);
        } else if c == ',' || c == '|' || c == '-' || c == '(' || c == ')' {
            let mut t: Vec<char> = Vec::new();
            t.push(c);
            proof {
                assert(t@ =~= seq![c]);
                assert(tokens_from(s, offset as int) =~= seq![t@] + tokens_from(s, offset + 1));
                assert(out@.push(t).map_values(|t: Vec<char>| t@) =~= out@.map_values(|t: Vec<char>| t@).push(t@));
            }
            out.push(t);
            offset += 1;
        } else {
            proof {
                lemma_next_token(s, offset + 1);
                assert(tokens_from(s, offset as int) == tokens_from(s, offset + 1));
            }
            offset += 1;
        }
    }
    assert(tokens_from(s, offset as int) =~= Seq::empty());
    assert(out@.map_values(|t: Vec<char>| t@) =~= tokens_from(s, 0));
    out
}

/// Whether a token can name a scope.
pub open spec fn is_identifier_token(t: Seq<char>) -> bool {
    t.len() > 0 && is_identifier_start_char(t[0])
}

/// The token at `p`, or nothing past the end.
pub open spec fn token_at(toks: Seq<Seq<char>>, p: int) -> Seq<char> {
    if 0 <= p < toks.len() {
        toks[p]
    } else {
        Seq::empty()
    }
}

/// The end of the run of name tokens that starts at `p`.
pub open spec fn names_end(toks: Seq<Seq<char>>, p: int) -> int
    decreases toks.len() - p,
{
    if 0 <= p < toks.len() && is_identifier_token(toks[p]) {
        names_end(toks, p + 1)
    } else {
        p
    }
}

pub open spec fn is_separator_token(t: Seq<char>) -> bool {
    t == seq!['|'] || t == seq![',']
}

/// The position after the run of `|` and `,` tokens that starts at `p`.
pub open spec fn separators_end(toks: Seq<Seq<char>>, p: int) -> int
    decreases toks.len() - p,
{
    if 0 <= p < toks.len() && is_separator_token(toks[p]) {
        separators_end(toks, p + 1)
    } else {
        p
    }
}

/// An operand at `p`: a negation, a parenthesized expression, or a run of
/// names; with the position after it.
pub open spec fn parse_operand_at(toks: Seq<Seq<char>>, p: int) -> Option<(SpecMatcher, int)>
    decreases toks.len() - p, 0nat,
{
    if p < 0 || p >= toks.len() {
        None
    } else if toks[p] == seq!['-'] {
        match parse_operand_at(toks, p + 1) {
            Some((m, q)) => Some((SpecMatcher::Negate(Box::new(m)), q)),
            None => Some((SpecMatcher::Never, p + 1)),
        }
    } else if toks[p] == seq!['('] {
        let (m, q) = parse_inner_at(toks, p + 1);
        Some((m, if token_at(toks, q) == seq![')'] { q + 1 } else { q }))
    } else if is_identifier_token(toks[p]) {
        Some((SpecMatcher::Name(toks.subrange(p, names_end(toks, p))), names_end(toks, p)))
    } else {
        None
    }
}

/// The operands that follow one another from `p`.
pub open spec fn parse_conjunction_at(toks: Seq<Seq<char>>, p: int) -> (Seq<SpecMatcher>, int)
    decreases toks.len() - p, 1nat,
{
    if p < 0 || p > toks.len() {
        (Seq::empty(), p)
    } else {
        match parse_operand_at(toks, p) {
            Some((m, q)) => if p < q <= toks.len() {
                let (ms, r) = parse_conjunction_at(toks, q);
                (seq![m] + ms, r)
            } else {
                (seq![m], q)
            },
            None => (Seq::empty(), p),
        }
    }
}

/// Conjunctions separated by `|` or `,` from `p`.
pub open spec fn parse_disjuncts_at(toks: Seq<Seq<char>>, p: int) -> (Seq<SpecMatcher>, int)
    decreases toks.len() - p, 2nat,
{
    if p < 0 || p > toks.len() {
        (Seq::empty(), p)
    } else {
        let (cs, q) = parse_conjunction_at(toks, p);
        let c = SpecMatcher::Conjunction(cs);
        if is_separator_token(token_at(toks, q)) {
            let r = separators_end(toks, q);
            if p < r <= toks.len() {
                let (ds, e) = parse_disjuncts_at(toks, r);
                (seq![c] + ds, e)
            } else {
                (seq![c], r)
            }
        } else {
            (seq![c], q)
        }
    }
}

pub open spec fn parse_inner_at(toks: Seq<Seq<char>>, p: int) -> (SpecMatcher, int)
    decreases toks.len() - p, 3nat,
{
    let (ds, q) = parse_disjuncts_at(toks, p);
    (SpecMatcher::Disjunction(ds), q)
}

/// The comma-separated selectors from `p`, each with its priority prefix.
pub open spec fn parse_selectors_at(toks: Seq<Seq<char>>, p: int) -> Seq<(SpecMatcher, MatcherPriority)>
    decreases toks.len() - p,
{
    if p < 0 || p >= toks.len() {
        Seq::empty()
    } else {
        let prio = if toks[p] == seq!['R', ':'] {
            MatcherPriority::Right
        } else if toks[p] == seq!['L', ':'] {
            MatcherPriority::Left
        } else {
            MatcherPriority::Normal
        };
        let p1 = if prio == MatcherPriority::Normal { p } else { p + 1 };
        let (cs, q) = parse_conjunction_at(toks, p1);
        let item = (SpecMatcher::Conjunction(cs), prio);
        if token_at(toks, q) == seq![','] && p < q + 1 <= toks.len() {
            seq![item] + parse_selectors_at(toks, q + 1)
        } else {
            seq![item]
        }
    }
}

proof fn lemma_names_end(toks: Seq<Seq<char>>, p: int)
    requires
        0 <= p <= toks.len(),
    ensures
        p <= names_end(toks, p) <= toks.len(),
    decreases toks.len() - p,
{
    if p < toks.len() && is_identifier_token(toks[p]) {
        lemma_names_end(toks, p + 1);
    }
}

proof fn lemma_separators_end(toks: Seq<Seq<char>>, p: int)
    requires
        0 <= p <= toks.len(),
    ensures
        p <= separators_end(toks, p) <= toks.len(),
    decreases toks.len() - p,
{
    if p < toks.len() && is_separator_token(toks[p]) {
        lemma_separators_end(toks, p + 1);
    }
}

proof fn lemma_parse_positions(toks: Seq<Seq<char>>, p: int)
    requires
        0 <= p <= toks.len(),
    ensures
        match parse_operand_at(toks, p) {
            Some((m, q)) => p < q <= toks.len(),
            None => true,
        },
        p <= parse_conjunction_at(toks, p).1 <= toks.len(),
        p <= parse_disjuncts_at(toks, p).1 <= toks.len(),
        p <= parse_inner_at(toks, p).1 <= toks.len(),
    decreases toks.len() - p,
{
    if p < toks.len() {
        lemma_parse_positions(toks, p + 1);
        lemma_names_end(toks, p);
        lemma_names_end(toks, p + 1);
        if toks[p] == seq!['('] {
            let (m, q) = parse_inner_at(toks, p + 1);
            if token_at(toks, q) == seq![')'] {
                assert(q < toks.len()) by {
                    if !(0 <= q < toks.len()) {
                        assert(token_at(toks, q).len() == 0);
                    }
                }
            }
        }
    }
    match parse_operand_at(toks, p) {
        Some((m, q)) => {
            if p < q <= toks.len() {
                lemma_parse_positions(toks, q);
            }
        },
        None => {},
    }
    let (cs, q) = parse_conjunction_at(toks, p);
    if is_separator_token(token_at(toks, q)) {
        lemma_separators_end(toks, q);
        let r = separators_end(toks, q);
        if p < r {
            lemma_parse_positions(toks, r);
        }
    }
}

proof fn lemma_view_matchers_push(s: Seq<Matcher>, m: Matcher)
    ensures
        view_matchers(s.push(m)) == view_matchers(s).push(view_matcher(m)),
{
    assert(s.push(m).drop_last() =~= s);
}

pub open spec fn token_views(toks: Seq<Vec<char>>) -> Seq<Seq<char>> {
    toks.map_values(|t: Vec<char>| t@)
}

fn token_is1(t: &Vec<char>, c: char) -> (r: bool)
    ensures
        r == (t@ == seq![c]),
{
    if t.len() == 1 && t[0] == c {
        assert(t@ =~= seq![c]);
        true
    } else {
        false
    }
}

fn token_is2(t: &Vec<char>, c: char, d: char) -> (r: bool)
    ensures
        r == (t@ == seq![c, d]),
{
    if t.len() == 2 && t[0] == c && t[1] == d {
        assert(t@ =~= seq![c, d]);
        true
    } else {
        false
    }
}

fn is_identifier_tok(t: &Vec<char>) -> (r: bool)
    ensures
        r == is_identifier_token(t@),
{
    t.len() > 0 && is_identifier_start(t[0])
}

fn operand_at(toks: &Vec<Vec<char>>, p: usize) -> (r: Option<(Matcher, usize)>)
    requires
        p <= toks@.len(),
    ensures
        match parse_operand_at(token_views(toks@), p as int) {
            Some((m, q)) => r matches Some((em, eq)) && view_matcher(em) == m && eq == q,
            None => r is None,
        },
    decreases toks@.len() - p, 0nat,
{
    let ghost tv = token_views(toks@);
    proof {
        lemma_parse_positions(tv, p as int);
    }
    if p >= toks.len() {
        return None;
    }
    assert(tv[p as int] == toks@[p as int]@);
    if token_is1(&toks[p], '-') {
        match operand_at(toks, p + 1) {
            Some((m, q)) => Some((Matcher::Negate(Box::new(m)), q)),
            None => Some((Matcher::Never, p + 1)),
        }
    } else if token_is1(&toks[p], '(') {
        let (m, q) = inner_at(toks, p + 1);
        proof {
            lemma_parse_positions(tv, p + 1);
        }
        if q < toks.len() && token_is1(&toks[q], ')') {
            Some((m, q + 1))
        } else {
            proof {
                if q < toks.len() {
                    assert(tv[q as int] == toks@[q as int]@);
                }
            }
            Some((m, q))
        }
    } else if is_identifier_tok(&toks[p]) {
        let mut names: Vec<String> = Vec::new();
        let mut e = p;
        while e < toks.len() && is_identifier_tok(&toks[e])
            invariant
                p <= e <= toks@.len(),
                tv == token_views(toks@),
                names_end(tv, p as int) == names_end(tv, e as int),
                names@.map_values(|s: String| s@) == tv.subrange(p as int, e as int),
            decreases toks.len() - e,
        {
            assert(tv[e as int] == toks@[e as int]@);
            let name = string_from_chars(toks[e].as_slice());
            proof {
                assert(name@ == tv[e as int]);
                let old_view = names@.map_values(|s: String| s@);
                assert(old_view.len() == e - p);
                assert(names@.push(name).map_values(|s: String| s@) =~= old_view.push(name@));
                assert(old_view.push(name@) =~= tv.subrange(p as int, e + 1));
            }
            names.push(name);
            e += 1;
        }
        proof {
            if e < toks.len() {
                assert(tv[e as int] == toks@[e as int]@);
            }
        }
        Some((Matcher::Name(names), e))
    } else {
        None
    }
}

fn conjunction_at(toks: &Vec<Vec<char>>, p: usize) -> (r: (Vec<Matcher>, usize))
    requires
        p <= toks@.len(),
    ensures
        view_matchers(r.0@) == parse_conjunction_at(token_views(toks@), p as int).0,
        r.1 == parse_conjunction_at(token_views(toks@), p as int).1,
    decreases toks@.len() - p, 1nat,
{
    let ghost tv = token_views(toks@);
    let mut out: Vec<Matcher> = Vec::new();
    let mut cur = p;
    loop
        invariant
            p <= cur <= toks@.len(),
            tv == token_views(toks@),
            view_matchers(out@) + parse_conjunction_at(tv, cur as int).0 == parse_conjunction_at(tv, p as int).0,
            parse_conjunction_at(tv, cur as int).1 == parse_conjunction_at(tv, p as int).1,
        decreases toks@.len() - cur,
    {
        proof {
            lemma_parse_positions(tv, cur as int);
        }
        match operand_at(toks, cur) {
            Some((m, q)) => {
                proof {
                    lemma_view_matchers_push(out@, m);
                    let rest = parse_conjunction_at(tv, q as int).0;
                    assert(view_matchers(out@.push(m)) + rest =~= view_matchers(out@) + (seq![view_matcher(m)] + rest));
                }
                out.push(m);
                cur = q;
            },
            None => {
                assert(view_matchers(out@) + parse_conjunction_at(tv, cur as int).0 =~= view_matchers(out@));
                return (out, cur);
            },
        }
    }
}

fn disjuncts_at(toks: &Vec<Vec<char>>, p: usize) -> (r: (Vec<Matcher>, usize))
    requires
        p <= toks@.len(),
    ensures
        view_matchers(r.0@) == parse_disjuncts_at(token_views(toks@), p as int).0,
        r.1 == parse_disjuncts_at(token_views(toks@), p as int).1,
    decreases toks@.len() - p, 2nat,
{
    let ghost tv = token_views(toks@);
    let mut out: Vec<Matcher> = Vec::new();
    let mut cur = p;
    loop
        invariant
            p <= cur <= toks@.len(),
            tv == token_views(toks@),
            view_matchers(out@) + parse_disjuncts_at(tv, cur as int).0 == parse_disjuncts_at(tv, p as int).0,
            parse_disjuncts_at(tv, cur as int).1 == parse_disjuncts_at(tv, p as int).1,
        decreases toks@.len() - cur,
    {
        proof {
            lemma_parse_positions(tv, cur as int);
        }
        let (cs, q) = conjunction_at(toks, cur);
        let c = Matcher::Conjunction(cs);
        proof {
            lemma_view_matchers_push(out@, c);
        }
        let sep = q < toks.len() && (token_is1(&toks[q], '|') || token_is1(&toks[q], ','));
        proof {
            if q < toks.len() {
                assert(tv[q as int] == toks@[q as int]@);
            }
        }
        if !sep {
            proof {
                assert(!is_separator_token(token_at(tv, q as int))) by {
                    if q >= toks.len() {
                        assert(token_at(tv, q as int).len() == 0);
                        assert(seq!['|'].len() == 1);
                        assert(seq![','].len() == 1);
                    }
                }
                assert(view_matcher(c) == SpecMatcher::Conjunction(parse_conjunction_at(tv, cur as int).0));
                assert(parse_disjuncts_at(tv, cur as int).0 == seq![view_matcher(c)]);
            }
            let ghost old_out = out@;
            out.push(c);
            assert(view_matchers(out@) =~= view_matchers(old_out) + parse_disjuncts_at(tv, cur as int).0);
            return (out, q);
        }
        let mut r = q;
        while r < toks.len() && (token_is1(&toks[r], '|') || token_is1(&toks[r], ','))
            invariant
                q <= r <= toks@.len(),
                tv == token_views(toks@),
                separators_end(tv, q as int) == separators_end(tv, r as int),
            decreases toks.len() - r,
        {
            assert(tv[r as int] == toks@[r as int]@);
            r += 1;
        }
        proof {
            if r < toks.len() {
                assert(tv[r as int] == toks@[r as int]@);
            }
            assert(r > q);
            let rest = parse_disjuncts_at(tv, r as int).0;
            assert(view_matchers(out@.push(c)) + rest =~= view_matchers(out@) + (seq![view_matcher(c)] + rest));
        }
        out.push(c);
        cur = r;
    }
}

fn inner_at(toks: &Vec<Vec<char>>, p: usize) -> (r: (Matcher, usize))
    requires
        p <= toks@.len(),
    ensures
        view_matcher(r.0) == parse_inner_at(token_views(toks@), p as int).0,
        r.1 == parse_inner_at(token_views(toks@), p as int).1,
    decreases toks@.len() - p, 3nat,
{
    let (ds, q) = disjuncts_at(toks, p);
    (Matcher::Disjunction(ds), q)
}

pub open spec fn view_prioritized(ms: Seq<MatcherWithPriority>) -> Seq<(SpecMatcher, MatcherPriority)> {
    ms.map_values(|m: MatcherWithPriority| (view_matcher(m.matcher), m.priority))
}

/// The selectors that `selector` denotes, in source order.
pub open spec fn selector_matchers(selector: Seq<char>) -> Seq<(SpecMatcher, MatcherPriority)> {
    parse_selectors_at(tokens_from(selector, 0), 0)
}

/// Compiles a comma-separated scope selector, such as
/// `R:text.html - comment, L:source.js`.
pub fn create_matchers(selector: &str) -> (r: Vec<MatcherWithPriority>)
    ensures
        view_prioritized(r@) == selector_matchers(selector@),
{
    let input = chars_of(selector);
    let toks = tokenize(&input);
    let ghost tv = token_views(toks@);
    assert(tv =~= tokens_from(selector@, 0));
    let mut out: Vec<MatcherWithPriority> = Vec::new();
    let mut p: usize = 0;
    while p < toks.len()
        invariant
            p <= toks@.len(),
            tv == token_views(toks@),
            tv == tokens_from(selector@, 0),
            view_prioritized(out@) + parse_selectors_at(tv, p as int) == parse_selectors_at(tv, 0),
        decreases toks.len() - p,
    {
        assert(tv[p as int] == toks@[p as int]@);
        let priority = if token_is2(&toks[p], 'R', ':') {
            MatcherPriority::Right
        } else if token_is2(&toks[p], 'L', ':') {
            MatcherPriority::Left
        } else {
            MatcherPriority::Normal
        };
        let p1 = if priority == MatcherPriority::Normal { p } else { p + 1 };
        proof {
            lemma_parse_positions(tv, p1 as int);
        }
        let (cs, q) = conjunction_at(&toks, p1);
        let item = MatcherWithPriority { matcher: Matcher::Conjunction(cs), priority };
        let ghost old_out = out@;
        out.push(item);
        proof {
            assert(view_prioritized(out@) =~= view_prioritized(old_out).push(
                (view_matcher(item.matcher), item.priority),
            ));
        }
        if q < toks.len() && token_is1(&toks[q], ',') {
            proof {
                assert(tv[q as int] == toks@[q as int]@);
                let rest = parse_selectors_at(tv, q + 1);
                assert(view_prioritized(out@) + rest =~= view_prioritized(old_out) + parse_selectors_at(tv, p as int));
            }
            p = q + 1;
        } else {
            proof {
                if q < toks.len() {
                    assert(tv[q as int] == toks@[q as int]@);
                } else {
                    assert(token_at(tv, q as int).len() == 0);
                    assert(seq![','].len() == 1);
                }
                assert(view_prioritized(out@) =~= view_prioritized(old_out) + parse_selectors_at(tv, p as int));
            }
            return out;
        }
    }
    assert(view_prioritized(out@) + parse_selectors_at(tv, p as int) =~= view_prioritized(out@));
    out
}

/// Whether `c` may stand in a scope name: a letter, digit, `_`, `.`, `:`
/// or `-`.
pub open spec fn scope_name_char(c: char) -> bool {
    ('a' <= c <= 'z') || ('A' <= c <= 'Z') || ('0' <= c <= '9') || c == '_' || c == '.' || c == ':' || c == '-'
}

/// Whether `s` is one scope name: it starts with a letter, digit, `_`, `.`
/// or `:` (and not with a priority prefix `L:` or `R:`), and holds only
/// scope-name characters, hyphens among them.
pub open spec fn single_scope_name(s: Seq<char>) -> bool {
    &&& s.len() > 0
    &&& s[0] != '-'
    &&& forall|i: int| 0 <= i < s.len() ==> scope_name_char(#[trigger] s[i])
    &&& !((s[0] == 'L' || s[0] == 'R') && s.len() > 1 && s[1] == ':')
}

proof fn lemma_identifier_runs_to_end(s: Seq<char>, i: int)
    requires
        0 <= i <= s.len(),
        forall|k: int| 0 <= k < s.len() ==> scope_name_char(#[trigger] s[k]),
    ensures
        identifier_end(s, i) == s.len(),
    decreases s.len() - i,
{
    if i < s.len() {
        assert(scope_name_char(s[i]));
        lemma_identifier_runs_to_end(s, i + 1);
    }
}

/// A selector that is one scope name, hyphens included (such as
/// `meta.attribute-with-value`), is one identifier token, and compiles to
/// one selector of normal priority that requires exactly that name.
pub proof fn lemma_single_scope_name_selector(s: Seq<char>)
    requires
        single_scope_name(s),
    ensures
        tokens_from(s, 0) == seq![s],
        selector_matchers(s) == seq![(SpecMatcher::Conjunction(seq![SpecMatcher::Name(seq![s])]), MatcherPriority::Normal)],
{
    assert(scope_name_char(s[0]));
    lemma_identifier_runs_to_end(s, 1);
    assert(s.subrange(0, s.len() as int) =~= s);
    assert(next_token(s, 0) == Some((s, s.len() as int)));
    assert(next_token(s, s.len() as int) is None);
    assert(tokens_from(s, s.len() as int) =~= Seq::<Seq<char>>::empty());
    assert(tokens_from(s, 0) =~= seq![s]);
    let toks = seq![s];
    assert(toks[0] != seq!['R', ':']) by {
        if toks[0] == seq!['R', ':'] {
            assert(s[0] == 'R' && s[1] == ':');
        }
    }
    assert(toks[0] != seq!['L', ':']) by {
        if toks[0] == seq!['L', ':'] {
            assert(s[0] == 'L' && s[1] == ':');
        }
    }
    assert(toks[0] != seq!['-']) by {
        if toks[0] == seq!['-'] {
            assert(s[0] == '-');
        }
    }
    assert(toks[0] != seq!['(']) by {
        if toks[0] == seq!['('] {
            assert(s[0] == '(');
        }
    }
    assert(is_identifier_token(toks[0]));
    assert(names_end(toks, 1) == 1);
    assert(names_end(toks, 0) == 1);
    assert(toks.subrange(0, 1) =~= seq![s]);
    assert(parse_operand_at(toks, 0) == Some((SpecMatcher::Name(seq![s]), 1int)));
    assert(parse_operand_at(toks, 1) is None);
    assert(parse_conjunction_at(toks, 1) == (Seq::<SpecMatcher>::empty(), 1int));
    assert(parse_conjunction_at(toks, 0) =~= (seq![SpecMatcher::Name(seq![s])], 1int));
    assert(token_at(toks, 1) =~= Seq::<char>::empty());
    assert(parse_selectors_at(toks, 0) =~= seq![(SpecMatcher::Conjunction(seq![SpecMatcher::Name(seq![s])]), MatcherPriority::Normal)]);
}

} // verus!
