use vstd::prelude::*;

use crate::text::{chars_of, is_whitespace, is_whitespace_char, scope_has_prefix_key, string_from_chars, sub_chars};

verus! {

broadcast use vstd::string::group_string_axioms;

// ---------------------------------------------------------------------------
// Trimming
// ---------------------------------------------------------------------------

/// The first position at or after `i`, and before `j`, that does not hold
/// white space (`j` where there is none).
pub open spec fn skip_ws(s: Seq<char>, i: int, j: int) -> int
    decreases j - i,
{
    if i < j && 0 <= i < s.len() && is_whitespace_char(s[i]) {
        skip_ws(s, i + 1, j)
    } else {
        i
    }
}

/// The end of `s[i..j]` without its trailing white space.
pub open spec fn back_ws(s: Seq<char>, i: int, j: int) -> int
    decreases j - i,
{
    if j > i && 0 <= j - 1 < s.len() && is_whitespace_char(s[j - 1]) {
        back_ws(s, i, j - 1)
    } else {
        j
    }
}

/// `s[i..j]` without leading and trailing white space.
pub open spec fn trimmed_range(s: Seq<char>, i: int, j: int) -> Seq<char> {
    let a = skip_ws(s, i, j);
    s.subrange(a, back_ws(s, a, j))
}

/// `s` without leading and trailing white space.
pub open spec fn trimmed(s: Seq<char>) -> Seq<char> {
    trimmed_range(s, 0, s.len() as int)
}

pub proof fn lemma_skip_ws(s: Seq<char>, i: int, j: int)
    requires
        0 <= i <= j <= s.len(),
    ensures
        i <= skip_ws(s, i, j) <= j,
    decreases j - i,
{
    if i < j && is_whitespace_char(s[i]) {
        lemma_skip_ws(s, i + 1, j);
    }
}

pub proof fn lemma_back_ws(s: Seq<char>, i: int, j: int)
    requires
        0 <= i <= j <= s.len(),
    ensures
        i <= back_ws(s, i, j) <= j,
    decreases j - i,
{
    if j > i && is_whitespace_char(s[j - 1]) {
        lemma_back_ws(s, i, j - 1);
    }
}

fn skip_ws_exec(v: &Vec<char>, i: usize, j: usize) -> (r: usize)
    requires
        i <= j <= v.len(),
    ensures
        r == skip_ws(v@, i as int, j as int),
        i <= r <= j,
{
    proof {
        lemma_skip_ws(v@, i as int, j as int);
    }
    let mut k = i;
    while k < j && is_whitespace(v[k])
        invariant
            i <= k <= j <= v.len(),
            skip_ws(v@, i as int, j as int) == skip_ws(v@, k as int, j as int),
        decreases j - k,
    {
        k += 1;
    }
    k
}

fn back_ws_exec(v: &Vec<char>, i: usize, j: usize) -> (r: usize)
    requires
        i <= j <= v.len(),
    ensures
        r == back_ws(v@, i as int, j as int),
        i <= r <= j,
{
    proof {
        lemma_back_ws(v@, i as int, j as int);
    }
    let mut k = j;
    while k > i && is_whitespace(v[k - 1])
        invariant
            i <= k <= j <= v.len(),
            back_ws(v@, i as int, j as int) == back_ws(v@, i as int, k as int),
        decreases k - i,
    {
        k -= 1;
    }
    k
}

/// The bounds of `v[i..j]` without leading and trailing white space.
pub(crate) fn trim_bounds(v: &Vec<char>, i: usize, j: usize) -> (r: (usize, usize))
    requires
        i <= j <= v.len(),
    ensures
        i <= r.0 <= r.1 <= j,
        v@.subrange(r.0 as int, r.1 as int) == trimmed_range(v@, i as int, j as int),
        r.0 == skip_ws(v@, i as int, j as int),
        r.1 == back_ws(v@, r.0 as int, j as int),
{
    let a = skip_ws_exec(v, i, j);
    let b = back_ws_exec(v, a, j);
    (a, b)
}

// ---------------------------------------------------------------------------
// Clauses, terms and splitting
// ---------------------------------------------------------------------------

/// The priority of an injection clause.
#[derive(Clone, Copy, Debug, PartialEq, Eq, Structural)]
pub enum InjectionPriority {
    Left,
    Default,
    Right,
}

/// Reads the priority prefixes `L:`, `R:` and `B:` of `s[i..b]`; the last
/// one counts.  Gives the priority and where the rest begins.
pub open spec fn priority_scan(s: Seq<char>, i: int, b: int, p: InjectionPriority) -> (InjectionPriority, int)
    decreases b - i,
{
    if 0 <= i && i + 2 <= b && b <= s.len() && s[i + 1] == ':' && (s[i] == 'L' || s[i] == 'R' || s[i] == 'B') {
        let q = if s[i] == 'L' {
            InjectionPriority::Left
        } else if s[i] == 'R' {
            InjectionPriority::Right
        } else {
            InjectionPriority::Default
        };
        proof {
            lemma_skip_ws(s, i + 2, b);
        }
        priority_scan(s, skip_ws(s, i + 2, b), b, q)
    } else {
        (p, i)
    }
}

/// The priority of a clause and the clause without its prefixes and
/// surrounding white space.
pub open spec fn clause_priority(s: Seq<char>) -> (InjectionPriority, Seq<char>) {
    let a = skip_ws(s, 0, s.len() as int);
    let b = back_ws(s, a, s.len() as int);
    let (p, i) = priority_scan(s, a, b, InjectionPriority::Default);
    (p, s.subrange(i, b))
}

proof fn lemma_priority_scan(s: Seq<char>, i: int, b: int, p: InjectionPriority)
    requires
        0 <= i <= b <= s.len(),
    ensures
        i <= priority_scan(s, i, b, p).1 <= b,
    decreases b - i,
{
    if i + 2 <= b && s[i + 1] == ':' && (s[i] == 'L' || s[i] == 'R' || s[i] == 'B') {
        lemma_skip_ws(s, i + 2, b);
        let q = if s[i] == 'L' {
            InjectionPriority::Left
        } else if s[i] == 'R' {
            InjectionPriority::Right
        } else {
            InjectionPriority::Default
        };
        lemma_priority_scan(s, skip_ws(s, i + 2, b), b, q);
    }
}

/// The priority of an injection clause (`L:` left, `R:` right, `B:` or
/// none the default) and the clause without it.
pub fn parse_injection_clause_priority(clause: &str) -> (r: (InjectionPriority, String))
    ensures
        r.0 == clause_priority(clause@).0,
        r.1@ == clause_priority(clause@).1,
{
    let v = chars_of(clause);
    let (a, b) = trim_bounds(&v, 0, v.len());
    let mut p = InjectionPriority::Default;
    let mut i = a;
    proof {
        lemma_priority_scan(v@, a as int, b as int, p);
    }
    while b - i >= 2 && v[i + 1] == ':' && (v[i] == 'L' || v[i] == 'R' || v[i] == 'B')
        invariant
            a <= i <= b <= v.len(),
            v@ == clause@,
            b == back_ws(v@, a as int, v.len() as int),
            a == skip_ws(v@, 0, v.len() as int),
            priority_scan(v@, a as int, b as int, InjectionPriority::Default) == priority_scan(v@, i as int, b as int, p),
        decreases b - i,
    {
        p = if v[i] == 'L' {
            InjectionPriority::Left
        } else if v[i] == 'R' {
            InjectionPriority::Right
        } else {
            InjectionPriority::Default
        };
        i = skip_ws_exec(&v, i + 2, b);
    }
    (p, string_from_chars(sub_chars(v.as_slice(), i, b).as_slice()))
}

/// Reads the negations `!` and `-` in front of `s[i..b]`; each one flips.
/// Gives whether the term is negated and where it begins.
pub open spec fn negation_scan(s: Seq<char>, i: int, b: int, negate: bool) -> (bool, int)
    decreases b - i,
{
    if 0 <= i < b && b <= s.len() && (s[i] == '!' || s[i] == '-') {
        proof {
            lemma_skip_ws(s, i + 1, b);
        }
        negation_scan(s, skip_ws(s, i + 1, b), b, !negate)
    } else {
        (negate, i)
    }
}

/// Whether `c` is stripped from both ends of a term.
pub open spec fn is_term_bracket(c: char) -> bool {
    c == '(' || c == ')' || c == '^'
}

/// The first position at or after `i`, before `j`, that is not a bracket.
pub open spec fn skip_brackets(s: Seq<char>, i: int, j: int) -> int
    decreases j - i,
{
    if i < j && 0 <= i < s.len() && is_term_bracket(s[i]) {
        skip_brackets(s, i + 1, j)
    } else {
        i
    }
}

/// The end of `s[i..j]` without its trailing brackets.
pub open spec fn back_brackets(s: Seq<char>, i: int, j: int) -> int
    decreases j - i,
{
    if j > i && 0 <= j - 1 < s.len() && is_term_bracket(s[j - 1]) {
        back_brackets(s, i, j - 1)
    } else {
        j
    }
}

/// Whether a term is negated, and the term without negations, surrounding
/// white space, and brackets at either end.
pub open spec fn term_parts(s: Seq<char>) -> (bool, Seq<char>) {
    let a = skip_ws(s, 0, s.len() as int);
    let b = back_ws(s, a, s.len() as int);
    let (negate, i) = negation_scan(s, a, b, false);
    let c = skip_brackets(s, i, b);
    (negate, s.subrange(c, back_brackets(s, c, b)))
}

proof fn lemma_negation_scan(s: Seq<char>, i: int, b: int, negate: bool)
    requires
        0 <= i <= b <= s.len(),
    ensures
        i <= negation_scan(s, i, b, negate).1 <= b,
    decreases b - i,
{
    if i < b && (s[i] == '!' || s[i] == '-') {
        lemma_skip_ws(s, i + 1, b);
        lemma_negation_scan(s, skip_ws(s, i + 1, b), b, !negate);
    }
}

proof fn lemma_skip_brackets(s: Seq<char>, i: int, j: int)
    requires
        0 <= i <= j <= s.len(),
    ensures
        i <= skip_brackets(s, i, j) <= j,
    decreases j - i,
{
    if i < j && is_term_bracket(s[i]) {
        lemma_skip_brackets(s, i + 1, j);
    }
}

proof fn lemma_back_brackets(s: Seq<char>, i: int, j: int)
    requires
        0 <= i <= j <= s.len(),
    ensures
        i <= back_brackets(s, i, j) <= j,
    decreases j - i,
{
    if j > i && is_term_bracket(s[j - 1]) {
        lemma_back_brackets(s, i, j - 1);
    }
}

/// Whether a term is negated, and the term itself (see `term_parts`).
pub fn parse_injection_term(term: &str) -> (r: (bool, String))
    ensures
        r.0 == term_parts(term@).0,
        r.1@ == term_parts(term@).1,
{
    let v = chars_of(term);
    let (a, b) = trim_bounds(&v, 0, v.len());
    let mut negate = false;
    let mut i = a;
    proof {
        lemma_negation_scan(v@, a as int, b as int, false);
    }
    while i < b && (v[i] == '!' || v[i] == '-')
        invariant
            a <= i <= b <= v.len(),
            v@ == term@,
            a == skip_ws(v@, 0, v.len() as int),
            b == back_ws(v@, a as int, v.len() as int),
            negation_scan(v@, a as int, b as int, false) == negation_scan(v@, i as int, b as int, negate),
        decreases b - i,
    {
        negate = !negate;
        i = skip_ws_exec(&v, i + 1, b);
    }
    proof {
        lemma_skip_brackets(v@, i as int, b as int);
    }
    let mut c = i;
    while c < b && (v[c] == '(' || v[c] == ')' || v[c] == '^')
        invariant
            i <= c <= b <= v.len(),
            skip_brackets(v@, i as int, b as int) == skip_brackets(v@, c as int, b as int),
        decreases b - c,
    {
        c += 1;
    }
    proof {
        lemma_back_brackets(v@, c as int, b as int);
    }
    let mut d = b;
    while d > c && (v[d - 1] == '(' || v[d - 1] == ')' || v[d - 1] == '^')
        invariant
            c <= d <= b <= v.len(),
            back_brackets(v@, c as int, b as int) == back_brackets(v@, c as int, d as int),
        decreases d - c,
    {
        d -= 1;
    }
    (negate, string_from_chars(sub_chars(v.as_slice(), c, d).as_slice()))
}

/// `s[a..b]` trimmed, as a one-piece list where it is not empty.
pub open spec fn piece(s: Seq<char>, a: int, b: int) -> Seq<Seq<char>> {
    let t = trimmed_range(s, a, b);
    if t.len() > 0 { seq![t] } else { Seq::empty() }
}

/// The nesting depth after `c`: one deeper after `(`, one shallower (not
/// below zero) after `)`.
pub open spec fn depth_after(depth: usize, c: char) -> usize {
    if c == '(' {
        if depth < usize::MAX { (depth + 1) as usize } else { depth }
    } else if c == ')' {
        if depth > 0 { (depth - 1) as usize } else { 0 }
    } else {
        depth
    }
}

/// The pieces of `s` from position `i` on, split at separators outside
/// brackets; `seg` is where the current piece began.  Pieces are trimmed and
/// empty ones dropped.
pub open spec fn split_scan(s: Seq<char>, seps: Seq<char>, i: int, depth: usize, seg: int) -> Seq<Seq<char>>
    decreases s.len() - i,
{
    if i < 0 || i >= s.len() {
        piece(s, seg, s.len() as int)
    } else {
        let d = depth_after(depth, s[i]);
        if d == 0 && seps.contains(s[i]) {
            piece(s, seg, i) + split_scan(s, seps, i + 1, d, i + 1)
        } else {
            split_scan(s, seps, i + 1, d, seg)
        }
    }
}

/// The pieces of `s` split at separators outside brackets.
pub open spec fn split_top_level_spec(s: Seq<char>, seps: Seq<char>) -> Seq<Seq<char>> {
    split_scan(s, seps, 0, 0, 0)
}

pub open spec fn strings_view(v: Seq<String>) -> Seq<Seq<char>> {
    v.map_values(|s: String| s@)
}

fn push_piece(out: &mut Vec<String>, v: &Vec<char>, a: usize, b: usize)
    requires
        a <= b <= v.len(),
    ensures
        strings_view(final(out)@) == strings_view(old(out)@) + piece(v@, a as int, b as int),
{
    let (x, y) = trim_bounds(v, a, b);
    let ghost before = out@;
    if x < y {
        out.push(string_from_chars(sub_chars(v.as_slice(), x, y).as_slice()));
        assert(strings_view(out@) =~= strings_view(before) + piece(v@, a as int, b as int));
    } else {
        assert(strings_view(before) + piece(v@, a as int, b as int) =~= strings_view(before));
    }
}

fn is_separator(seps: &[char], c: char) -> (r: bool)
    ensures
        r == seps@.contains(c),
{
    let mut i: usize = 0;
    while i < seps.len()
        invariant
            i <= seps.len(),
            forall|k: int| 0 <= k < i ==> seps@[k] != c,
        decreases seps.len() - i,
    {
        if seps[i] == c {
            return true;
        }
        i += 1;
    }
    false
}

fn next_depth(depth: usize, c: char) -> (r: usize)
    ensures
        r == depth_after(depth, c),
{
    if c == '(' {
        if depth < usize::MAX { depth + 1 } else { depth }
    } else if c == ')' {
        if depth > 0 { depth - 1 } else { 0 }
    } else {
        depth
    }
}

fn split_chars(v: &Vec<char>, seps: &[char]) -> (r: Vec<String>)
    ensures
        strings_view(r@) == split_top_level_spec(v@, seps@),
{
    let mut out: Vec<String> = Vec::new();
    let mut depth: usize = 0;
    let mut seg: usize = 0;
    let mut i: usize = 0;
    while i < v.len()
        invariant
            i <= v.len(),
            seg <= i,
            split_top_level_spec(v@, seps@) == strings_view(out@) + split_scan(v@, seps@, i as int, depth, seg as int),
        decreases v.len() - i,
    {
        let c = v[i];
        depth = next_depth(depth, c);
        if depth == 0 && is_separator(seps, c) {
            let ghost before = strings_view(out@);
            push_piece(&mut out, v, seg, i);
            assert(before + (piece(v@, seg as int, i as int) + split_scan(v@, seps@, i + 1, depth, i + 1)) =~= strings_view(out@)
                + split_scan(v@, seps@, i + 1, depth, i + 1));
            seg = i + 1;
        }
        i += 1;
    }
    let ghost before = strings_view(out@);
    push_piece(&mut out, v, seg, v.len());
    out
}

/// The pieces of `input` split at `separators` outside brackets, trimmed,
/// empty ones dropped.
pub fn split_top_level(input: &str, separators: &[char]) -> (r: Vec<String>)
    ensures
        strings_view(r@) == split_top_level_spec(input@, separators@),
{
    let v = chars_of(input);
    split_chars(&v, separators)
}

/// The terms of `s` from position `i` on: split at `&` and at white space
/// outside brackets; `seg` is where the current term began, if it began.
pub open spec fn terms_scan(s: Seq<char>, i: int, depth: usize, seg: Option<int>) -> Seq<Seq<char>>
    decreases s.len() - i,
{
    if i < 0 || i >= s.len() {
        match seg {
            Some(a) => piece(s, a, s.len() as int),
            None => Seq::empty(),
        }
    } else {
        let c = s[i];
        if c == '(' {
            terms_scan(s, i + 1, depth_after(depth, c), if seg is None { Some(i) } else { seg })
        } else if c == ')' {
            terms_scan(s, i + 1, depth_after(depth, c), seg)
        } else if depth == 0 && (c == '&' || is_whitespace_char(c)) {
            (match seg {
                Some(a) => piece(s, a, i),
                None => Seq::empty(),
            }) + terms_scan(s, i + 1, depth, None)
        } else {
            terms_scan(s, i + 1, depth, if seg is None { Some(i) } else { seg })
        }
    }
}

/// The terms of a disjunct.
pub open spec fn selector_terms(s: Seq<char>) -> Seq<Seq<char>> {
    terms_scan(s, 0, 0, None)
}

/// The terms of a disjunct: split at `&` and white space outside brackets,
/// trimmed, empty ones dropped.
pub fn split_selector_terms(disjunct: &str) -> (r: Vec<String>)
    ensures
        strings_view(r@) == selector_terms(disjunct@),
{
    let v = chars_of(disjunct);
    let mut out: Vec<String> = Vec::new();
    let mut depth: usize = 0;
    let mut seg: Option<usize> = None;
    let mut i: usize = 0;
    while i < v.len()
        invariant
            i <= v.len(),
            v@ == disjunct@,
            seg matches Some(a) ==> a <= i,
            selector_terms(disjunct@) == strings_view(out@) + terms_scan(
                v@,
                i as int,
                depth,
                match seg {
                    Some(a) => Some(a as int),
                    None => None,
                },
            ),
        decreases v.len() - i,
    {
        let c = v[i];
        if c == '(' {
            depth = next_depth(depth, c);
            if seg.is_none() {
                seg = Some(i);
            }
        } else if c == ')' {
            depth = next_depth(depth, c);
        } else if depth == 0 && (c == '&' || is_whitespace(c)) {
            let ghost before = strings_view(out@);
            match seg {
                Some(a) => {
                    push_piece(&mut out, &v, a, i);
                },
                None => {
                    assert(before + Seq::<Seq<char>>::empty() =~= before);
                },
            }
            proof {
                let head: Seq<Seq<char>> = match seg {
                    Some(a) => piece(v@, a as int, i as int),
                    None => Seq::empty(),
                };
                assert(before + (head + terms_scan(v@, i + 1, depth, None)) =~= strings_view(out@) + terms_scan(
                    v@,
                    i + 1,
                    depth,
                    None,
                ));
            }
            seg = None;
        } else {
            if seg.is_none() {
                seg = Some(i);
            }
        }
        i += 1;
    }
    match seg {
        Some(a) => {
            push_piece(&mut out, &v, a, v.len());
        },
        None => {
            assert(strings_view(out@) + Seq::<Seq<char>>::empty() =~= strings_view(out@));
        },
    }
    out
}

// ---------------------------------------------------------------------------
// Lengths of pieces
// ---------------------------------------------------------------------------

proof fn lemma_trimmed_range(s: Seq<char>, a: int, b: int)
    requires
        0 <= a <= b <= s.len(),
    ensures
        trimmed_range(s, a, b).len() <= b - a,
{
    lemma_skip_ws(s, a, b);
    lemma_back_ws(s, skip_ws(s, a, b), b);
}

proof fn lemma_split_scan_short(s: Seq<char>, seps: Seq<char>, i: int, depth: usize, seg: int)
    requires
        0 <= seg <= i <= s.len(),
    ensures
        forall|k: int| 0 <= k < split_scan(s, seps, i, depth, seg).len() ==> (#[trigger] split_scan(s, seps, i, depth, seg)[k]).len() <= s.len() - seg,
        split_scan(s, seps, i, depth, seg).len() >= 2 ==> forall|k: int|
            0 <= k < split_scan(s, seps, i, depth, seg).len() ==> (#[trigger] split_scan(s, seps, i, depth, seg)[k]).len() < s.len() - seg,
    decreases s.len() - i,
{
    if i >= s.len() {
        lemma_trimmed_range(s, seg, s.len() as int);
    } else {
        let d = depth_after(depth, s[i]);
        if d == 0 && seps.contains(s[i]) {
            lemma_trimmed_range(s, seg, i);
            lemma_split_scan_short(s, seps, i + 1, d, i + 1);
            let head = piece(s, seg, i);
            let rest = split_scan(s, seps, i + 1, d, i + 1);
            assert forall|k: int| 0 <= k < (head + rest).len() implies (#[trigger] (head + rest)[k]).len() < s.len() - seg by {
                if k >= head.len() {
                    assert((head + rest)[k] == rest[k - head.len()]);
                }
            }
        } else {
            lemma_split_scan_short(s, seps, i + 1, d, seg);
        }
    }
}

proof fn lemma_terms_scan_short(s: Seq<char>, i: int, depth: usize, seg: Option<int>)
    requires
        0 <= i <= s.len(),
        seg matches Some(a) ==> 0 <= a <= i,
    ensures
        forall|k: int| 0 <= k < terms_scan(s, i, depth, seg).len() ==> (#[trigger] terms_scan(s, i, depth, seg)[k]).len() <= s.len(),
    decreases s.len() - i,
{
    if i >= s.len() {
        if let Some(a) = seg {
            lemma_trimmed_range(s, a, s.len() as int);
        }
    } else {
        let c = s[i];
        if c == '(' {
            let nseg = if seg is None { Some(i) } else { seg };
            lemma_terms_scan_short(s, i + 1, depth_after(depth, c), nseg);
            assert(terms_scan(s, i, depth, seg) == terms_scan(s, i + 1, depth_after(depth, c), nseg));
        } else if c == ')' {
            lemma_terms_scan_short(s, i + 1, depth_after(depth, c), seg);
            assert(terms_scan(s, i, depth, seg) == terms_scan(s, i + 1, depth_after(depth, c), seg));
        } else if depth == 0 && (c == '&' || is_whitespace_char(c)) {
            lemma_terms_scan_short(s, i + 1, depth, None);
            let head: Seq<Seq<char>> = match seg {
                Some(a) => piece(s, a, i),
                None => Seq::empty(),
            };
            if let Some(a) = seg {
                lemma_trimmed_range(s, a, i);
            }
            let rest = terms_scan(s, i + 1, depth, None);
            assert(terms_scan(s, i, depth, seg) == head + rest);
            assert forall|k: int| 0 <= k < (head + rest).len() implies (#[trigger] (head + rest)[k]).len() <= s.len() by {
                if k >= head.len() {
                    assert((head + rest)[k] == rest[k - head.len()]);
                }
            }
        } else {
            let nseg = if seg is None { Some(i) } else { seg };
            lemma_terms_scan_short(s, i + 1, depth, nseg);
            assert(terms_scan(s, i, depth, seg) == terms_scan(s, i + 1, depth, nseg));
        }
    }
}

proof fn lemma_term_parts_short(s: Seq<char>)
    ensures
        term_parts(s).1.len() <= s.len(),
{
    let n = s.len() as int;
    lemma_skip_ws(s, 0, n);
    let a = skip_ws(s, 0, n);
    lemma_back_ws(s, a, n);
    let b = back_ws(s, a, n);
    lemma_negation_scan(s, a, b, false);
    let i = negation_scan(s, a, b, false).1;
    lemma_skip_brackets(s, i, b);
    let c = skip_brackets(s, i, b);
    lemma_back_brackets(s, c, b);
}

// ---------------------------------------------------------------------------
// Compiled selectors
// ---------------------------------------------------------------------------

/// A compiled selector: clauses separated by `,`, each of disjuncts
/// separated by `|`.
#[derive(Debug)]
pub struct CompiledSelector {
    pub clauses: Vec<CompiledSelectorClause>,
}

#[derive(Debug)]
pub struct CompiledSelectorClause {
    pub disjuncts: Vec<CompiledSelectorDisjunct>,
}

/// Terms that must all hold.
#[derive(Debug)]
pub struct CompiledSelectorDisjunct {
    pub terms: Vec<CompiledSelectorTerm>,
}

/// A term, possibly negated.
#[derive(Debug)]
pub struct CompiledSelectorTerm {
    pub negate: bool,
    pub expr: CompiledSelectorExpr,
}

/// A scope token, or a bracketed group of alternatives.
#[derive(Debug)]
pub enum CompiledSelectorExpr {
    Token(String),
    AnyOf(Vec<CompiledSelectorDisjunct>),
}

/// A compiled disjunct as plain values: its terms, each a negation flag and
/// a token or a group of alternatives.
pub enum SpecExpr {
    Token(Seq<char>),
    AnyOf(Seq<SpecDisjunct>),
}

pub struct SpecTerm {
    pub negate: bool,
    pub expr: SpecExpr,
}

pub struct SpecDisjunct {
    pub terms: Seq<SpecTerm>,
}

pub open spec fn disjunct_view(d: CompiledSelectorDisjunct) -> SpecDisjunct
    decreases d, 2nat,
{
    SpecDisjunct { terms: terms_view(d.terms@) }
}

pub open spec fn terms_view(ts: Seq<CompiledSelectorTerm>) -> Seq<SpecTerm>
    decreases ts, 1nat,
{
    if ts.len() == 0 {
        Seq::empty()
    } else {
        terms_view(ts.drop_last()).push(term_view(ts.last()))
    }
}

pub open spec fn term_view(t: CompiledSelectorTerm) -> SpecTerm
    decreases t, 0nat,
{
    SpecTerm {
        negate: t.negate,
        expr: match t.expr {
            CompiledSelectorExpr::Token(s) => SpecExpr::Token(s@),
            CompiledSelectorExpr::AnyOf(ds) => SpecExpr::AnyOf(disjuncts_view(ds@)),
        },
    }
}

pub open spec fn disjuncts_view(ds: Seq<CompiledSelectorDisjunct>) -> Seq<SpecDisjunct>
    decreases ds, 3nat,
{
    if ds.len() == 0 {
        Seq::empty()
    } else {
        disjuncts_view(ds.drop_last()).push(disjunct_view(ds.last()))
    }
}

/// What a disjunct compiles to: its terms, where it has any.  A term `!`
/// or `-` standing alone negates the next term; a term with `|` outside
/// brackets compiles to its alternatives, where any of them compiles.
pub open spec fn compile_disjunct(d: Seq<char>) -> Option<SpecDisjunct>
    decreases d.len(), 2nat, 0nat,
{
    let raw = selector_terms(d);
    if raw.len() == 0 {
        None
    } else {
        let terms = compile_terms(d, raw, 0);
        if terms.len() == 0 { None } else { Some(SpecDisjunct { terms }) }
    }
}

/// The compiled terms of `raw` from position `index` on.
pub open spec fn compile_terms(d: Seq<char>, raw: Seq<Seq<char>>, index: int) -> Seq<SpecTerm>
    decreases d.len(), 1nat, raw.len() - index,
{
    if index < 0 || index >= raw.len() {
        Seq::empty()
    } else {
        let t0 = trimmed(raw[index]);
        if t0.len() == 0 {
            compile_terms(d, raw, index + 1)
        } else {
            let detached = (t0 == seq!['!'] || t0 == seq!['-']) && index + 1 < raw.len();
            let j = if detached { index + 1 } else { index };
            let rt = if detached { trimmed(raw[j]) } else { t0 };
            let (term_negate, term) = term_parts(rt);
            let negate = detached != term_negate;
            if term.len() == 0 {
                compile_terms(d, raw, j + 1)
            } else {
                let branches = split_top_level_spec(term, seq!['|']);
                if branches.len() > 1 {
                    let compiled = compile_branches(d, branches, 0);
                    if compiled.len() == 0 {
                        compile_terms(d, raw, j + 1)
                    } else {
                        seq![SpecTerm { negate, expr: SpecExpr::AnyOf(compiled) }] + compile_terms(d, raw, j + 1)
                    }
                } else {
                    seq![SpecTerm { negate, expr: SpecExpr::Token(term) }] + compile_terms(d, raw, j + 1)
                }
            }
        }
    }
}

/// The alternatives of `branches` from position `k` on that compile; each
/// is shorter than `d`.
pub open spec fn compile_branches(d: Seq<char>, branches: Seq<Seq<char>>, k: int) -> Seq<SpecDisjunct>
    decreases d.len(), 0nat, branches.len() - k,
{
    if k < 0 || k >= branches.len() {
        Seq::empty()
    } else {
        (if branches[k].len() < d.len() {
            match compile_disjunct(branches[k]) {
                Some(c) => seq![c],
                None => Seq::empty(),
            }
        } else {
            Seq::empty()
        }) + compile_branches(d, branches, k + 1)
    }
}

proof fn lemma_terms_view_push(s: Seq<CompiledSelectorTerm>, t: CompiledSelectorTerm)
    ensures
        terms_view(s.push(t)) == terms_view(s).push(term_view(t)),
{
    assert(s.push(t).drop_last() =~= s);
}

proof fn lemma_disjuncts_view_push(s: Seq<CompiledSelectorDisjunct>, d: CompiledSelectorDisjunct)
    ensures
        disjuncts_view(s.push(d)) == disjuncts_view(s).push(disjunct_view(d)),
{
    assert(s.push(d).drop_last() =~= s);
}

fn trim_str(s: &str) -> (r: Vec<char>)
    ensures
        r@ == trimmed(s@),
        r@.len() <= s@.len(),
{
    let v = chars_of(s);
    let (a, b) = trim_bounds(&v, 0, v.len());
    sub_chars(v.as_slice(), a, b)
}

/// Compiles a disjunct of an injection selector (see `compile_disjunct`).
pub fn compile_selector_disjunct(disjunct: &str) -> (r: Option<CompiledSelectorDisjunct>)
    ensures
        match r {
            Some(c) => compile_disjunct(disjunct@) == Some(disjunct_view(c)),
            None => compile_disjunct(disjunct@) is None,
        },
    decreases disjunct@.len(),
{
    let ghost d = disjunct@;
    let raw = split_selector_terms(disjunct);
    let ghost rv = strings_view(raw@);
    proof {
        lemma_terms_scan_short(d, 0, 0, None);
    }
    if raw.len() == 0 {
        return None;
    }
    let mut terms: Vec<CompiledSelectorTerm> = Vec::new();
    let mut index: usize = 0;
    assert(terms_view(terms@) + compile_terms(d, rv, 0) =~= compile_terms(d, rv, 0));
    while index < raw.len()
        invariant
            index <= raw.len(),
            d == disjunct@,
            rv == strings_view(raw@),
            rv == selector_terms(d),
            forall|k: int| 0 <= k < rv.len() ==> (#[trigger] rv[k]).len() <= d.len(),
            compile_terms(d, rv, 0) == terms_view(terms@) + compile_terms(d, rv, index as int),
        decreases raw.len() - index,
    {
        let t0 = trim_str(raw[index].as_str());
        assert(rv[index as int] == raw@[index as int]@);
        if t0.len() == 0 {
            index += 1;
            continue;
        }
        let lone = t0.len() == 1 && (t0[0] == '!' || t0[0] == '-');
        proof {
            assert(lone == (t0@ == seq!['!'] || t0@ == seq!['-'])) by {
                if t0@ == seq!['!'] || t0@ == seq!['-'] {
                    assert(t0@.len() == 1);
                }
                if lone {
                    assert(t0@ =~= seq![t0@[0]]);
                }
            }
        }
        let detached = lone && index + 1 < raw.len();
        let j = if detached { index + 1 } else { index };
        let raw_term: Vec<char> = if detached { trim_str(raw[j].as_str()) } else { t0 };
        assert(rv[j as int] == raw@[j as int]@);
        let raw_term_string = string_from_chars(raw_term.as_slice());
        let (term_negate, term) = parse_injection_term(raw_term_string.as_str());
        proof {
            lemma_term_parts_short(raw_term@);
        }
        let negate = detached != term_negate;
        if term.as_str().is_empty() {
            index = j + 1;
            continue;
        }
        let branches = split_top_level(term.as_str(), &['|']);
        let ghost bv = strings_view(branches@);
        proof {
            assert(['|']@ =~= seq!['|']);
            lemma_split_scan_short(term@, seq!['|'], 0, 0, 0);
        }
        let ghost before = terms@;
        if branches.len() > 1 {
            let mut compiled: Vec<CompiledSelectorDisjunct> = Vec::new();
            let mut k: usize = 0;
            assert(disjuncts_view(compiled@) + compile_branches(d, bv, 0) =~= compile_branches(d, bv, 0));
            while k < branches.len()
                invariant
                    k <= branches.len(),
                    d == disjunct@,
                    bv == strings_view(branches@),
                    forall|m: int| 0 <= m < bv.len() ==> (#[trigger] bv[m]).len() < d.len(),
                    compile_branches(d, bv, 0) == disjuncts_view(compiled@) + compile_branches(d, bv, k as int),
                decreases branches.len() - k,
            {
                assert(bv[k as int] == branches@[k as int]@);
                let ghost mid = compiled@;
                match compile_selector_disjunct(branches[k].as_str()) {
                    Some(c) => {
                        compiled.push(c);
                        proof {
                            lemma_disjuncts_view_push(mid, c);
                        }
                    },
                    None => {},
                }
                assert(disjuncts_view(compiled@) + compile_branches(d, bv, k + 1) =~= disjuncts_view(mid)
                    + compile_branches(d, bv, k as int));
                k += 1;
            }
            assert(disjuncts_view(compiled@) + compile_branches(d, bv, k as int) =~= disjuncts_view(compiled@));
            if compiled.len() == 0 {
                index = j + 1;
                continue;
            }
            let t = CompiledSelectorTerm { negate, expr: CompiledSelectorExpr::AnyOf(compiled) };
            terms.push(t);
            proof {
                lemma_terms_view_push(before, t);
            }
        } else {
            let t = CompiledSelectorTerm { negate, expr: CompiledSelectorExpr::Token(term) };
            terms.push(t);
            proof {
                lemma_terms_view_push(before, t);
            }
        }
        assert(terms_view(terms@) + compile_terms(d, rv, j + 1) =~= terms_view(before) + compile_terms(d, rv, index as int));
        index = j + 1;
    }
    assert(terms_view(terms@) + compile_terms(d, rv, index as int) =~= terms_view(terms@));
    if terms.len() == 0 {
        proof {
            lemma_terms_view_len(terms@);
        }
        None
    } else {
        proof {
            lemma_terms_view_len(terms@);
        }
        Some(CompiledSelectorDisjunct { terms })
    }
}

proof fn lemma_terms_view_len(s: Seq<CompiledSelectorTerm>)
    ensures
        terms_view(s).len() == s.len(),
    decreases s.len(),
{
    if s.len() > 0 {
        lemma_terms_view_len(s.drop_last());
    }
}

/// The compiled disjuncts of `parts` from position `k` on, those that
/// compile.
pub open spec fn compiled_disjuncts(parts: Seq<Seq<char>>, k: int) -> Seq<SpecDisjunct>
    decreases parts.len() - k,
{
    if k < 0 || k >= parts.len() {
        Seq::empty()
    } else {
        (match compile_disjunct(parts[k]) {
            Some(c) => seq![c],
            None => Seq::empty(),
        }) + compiled_disjuncts(parts, k + 1)
    }
}

/// What a clause compiles to: the disjuncts of the clause without its
/// priority, where any compiles.
pub open spec fn compile_clause(clause: Seq<char>) -> Option<Seq<SpecDisjunct>> {
    let normalized = clause_priority(clause).1;
    if normalized.len() == 0 {
        None
    } else {
        let ds = compiled_disjuncts(split_top_level_spec(normalized, seq!['|']), 0);
        if ds.len() == 0 { None } else { Some(ds) }
    }
}

/// The compiled clauses of `parts` from position `k` on, those that
/// compile.
pub open spec fn compiled_clauses(parts: Seq<Seq<char>>, k: int) -> Seq<Seq<SpecDisjunct>>
    decreases parts.len() - k,
{
    if k < 0 || k >= parts.len() {
        Seq::empty()
    } else {
        (match compile_clause(parts[k]) {
            Some(c) => seq![c],
            None => Seq::empty(),
        }) + compiled_clauses(parts, k + 1)
    }
}

/// What a selector compiles to: its clauses separated by `,` outside
/// brackets, those that compile.
pub open spec fn compile_selector_spec(selector: Seq<char>) -> Seq<Seq<SpecDisjunct>> {
    compiled_clauses(split_top_level_spec(selector, seq![',']), 0)
}

pub open spec fn selector_view(c: CompiledSelector) -> Seq<Seq<SpecDisjunct>> {
    c.clauses@.map_values(|cl: CompiledSelectorClause| disjuncts_view(cl.disjuncts@))
}

proof fn lemma_disjuncts_view_len(s: Seq<CompiledSelectorDisjunct>)
    ensures
        disjuncts_view(s).len() == s.len(),
    decreases s.len(),
{
    if s.len() > 0 {
        lemma_disjuncts_view_len(s.drop_last());
    }
}

fn compile_clause_exec(clause: &String) -> (r: Option<CompiledSelectorClause>)
    ensures
        match r {
            Some(c) => compile_clause(clause@) == Some(disjuncts_view(c.disjuncts@)),
            None => compile_clause(clause@) is None,
        },
{
    let (_priority, normalized) = parse_injection_clause_priority(clause.as_str());
    if normalized.as_str().is_empty() {
        return None;
    }
    let parts = split_top_level(normalized.as_str(), &['|']);
    assert(['|']@ =~= seq!['|']);
    let ghost pv = strings_view(parts@);
    let mut disjuncts: Vec<CompiledSelectorDisjunct> = Vec::new();
    let mut k: usize = 0;
    assert(disjuncts_view(disjuncts@) + compiled_disjuncts(pv, 0) =~= compiled_disjuncts(pv, 0));
    while k < parts.len()
        invariant
            k <= parts.len(),
            pv == strings_view(parts@),
            compiled_disjuncts(pv, 0) == disjuncts_view(disjuncts@) + compiled_disjuncts(pv, k as int),
        decreases parts.len() - k,
    {
        assert(pv[k as int] == parts@[k as int]@);
        let ghost mid = disjuncts@;
        match compile_selector_disjunct(parts[k].as_str()) {
            Some(c) => {
                disjuncts.push(c);
                proof {
                    lemma_disjuncts_view_push(mid, c);
                }
            },
            None => {},
        }
        assert(disjuncts_view(disjuncts@) + compiled_disjuncts(pv, k + 1) =~= disjuncts_view(mid) + compiled_disjuncts(pv, k as int));
        k += 1;
    }
    assert(disjuncts_view(disjuncts@) + compiled_disjuncts(pv, k as int) =~= disjuncts_view(disjuncts@));
    proof {
        lemma_disjuncts_view_len(disjuncts@);
    }
    if disjuncts.len() == 0 {
        None
    } else {
        Some(CompiledSelectorClause { disjuncts })
    }
}

/// Compiles an injection selector (see `compile_selector_spec`).
pub fn compile_selector(selector: &str) -> (r: CompiledSelector)
    ensures
        selector_view(r) == compile_selector_spec(selector@),
{
    let parts = split_top_level(selector, &[',']);
    assert([',']@ =~= seq![',']);
    let ghost pv = strings_view(parts@);
    let mut clauses: Vec<CompiledSelectorClause> = Vec::new();
    let mut k: usize = 0;
    assert(selector_view(CompiledSelector { clauses }) + compiled_clauses(pv, 0) =~= compiled_clauses(pv, 0));
    while k < parts.len()
        invariant
            k <= parts.len(),
            pv == strings_view(parts@),
            compiled_clauses(pv, 0) == selector_view(CompiledSelector { clauses }) + compiled_clauses(pv, k as int),
        decreases parts.len() - k,
    {
        assert(pv[k as int] == parts@[k as int]@);
        let ghost mid = selector_view(CompiledSelector { clauses });
        match compile_clause_exec(&parts[k]) {
            Some(c) => {
                clauses.push(c);
            },
            None => {},
        }
        assert(selector_view(CompiledSelector { clauses }) + compiled_clauses(pv, k + 1) =~= mid + compiled_clauses(pv, k as int));
        k += 1;
    }
    assert(selector_view(CompiledSelector { clauses }) + compiled_clauses(pv, k as int) =~= selector_view(CompiledSelector { clauses }));
    CompiledSelector { clauses }
}

// ---------------------------------------------------------------------------
// Matching
// ---------------------------------------------------------------------------

/// Whether a scope token matches a scope: `*` and `$self` match any scope;
/// otherwise the scope is the token or begins with it and a dot.
pub open spec fn token_matches_scope(token: Seq<char>, scope: Seq<char>) -> bool {
    token.len() > 0 && (token == seq!['*'] || token == seq!['$', 's', 'e', 'l', 'f'] || scope_has_prefix_key(scope, token))
}

/// Whether a scope token matches some scope of the stack.
pub open spec fn token_matches_stack(token: Seq<char>, stack: Seq<Seq<char>>) -> bool {
    exists|i: int| 0 <= i < stack.len() && token_matches_scope(token, #[trigger] stack[i])
}

/// Whether a disjunct holds for a scope stack: it has terms and each holds
/// (a negated one where its expression does not).
pub open spec fn disjunct_holds(d: SpecDisjunct, st: Seq<Seq<char>>) -> bool
    decreases d, 3nat, 0int,
{
    d.terms.len() > 0 && terms_hold(d.terms, st, d.terms.len() as int)
}

pub open spec fn terms_hold(ts: Seq<SpecTerm>, st: Seq<Seq<char>>, n: int) -> bool
    decreases ts, 2nat, n,
{
    if n <= 0 || n > ts.len() {
        true
    } else {
        terms_hold(ts, st, n - 1) && term_holds(ts[n - 1], st)
    }
}

pub open spec fn term_holds(t: SpecTerm, st: Seq<Seq<char>>) -> bool
    decreases t, 1nat, 0int,
{
    let m = expr_holds(t.expr, st);
    if t.negate { !m } else { m }
}

pub open spec fn expr_holds(e: SpecExpr, st: Seq<Seq<char>>) -> bool
    decreases e, 0nat, 0int,
{
    match e {
        SpecExpr::Token(tok) => token_matches_stack(tok, st),
        SpecExpr::AnyOf(bs) => any_holds(bs, st, bs.len() as int),
    }
}

pub open spec fn any_holds(bs: Seq<SpecDisjunct>, st: Seq<Seq<char>>, n: int) -> bool
    decreases bs, 4nat, n,
{
    if n <= 0 || n > bs.len() {
        false
    } else {
        any_holds(bs, st, n - 1) || disjunct_holds(bs[n - 1], st)
    }
}

/// Whether a compiled selector matches a scope stack: some disjunct of some
/// clause holds.
pub open spec fn selector_holds(sel: Seq<Seq<SpecDisjunct>>, st: Seq<Seq<char>>) -> bool {
    exists|i: int, j: int| 0 <= i < sel.len() && 0 <= j < sel[i].len() && disjunct_holds(#[trigger] sel[i][j], st)
}

/// Whether a scope token matches a scope (see `token_matches_scope`).
pub fn scope_token_matches_scope(token: &str, scope: &str) -> (r: bool)
    ensures
        r == token_matches_scope(token@, scope@),
{
    let t = chars_of(token);
    let s = chars_of(scope);
    if t.len() == 0 {
        return false;
    }
    let star = t.len() == 1 && t[0] == '*';
    let self_ref = t.len() == 5 && t[0] == '$' && t[1] == 's' && t[2] == 'e' && t[3] == 'l' && t[4] == 'f';
    proof {
        assert(star == (t@ == seq!['*'])) by {
            if star {
                assert(t@ =~= seq!['*']);
            }
        }
        assert(self_ref == (t@ == seq!['$', 's', 'e', 'l', 'f'])) by {
            if self_ref {
                assert(t@ =~= seq!['$', 's', 'e', 'l', 'f']);
            }
        }
    }
    star || self_ref || crate::text::scope_prefix_matches(s.as_slice(), t.as_slice())
}

pub open spec fn stack_view(v: Seq<String>) -> Seq<Seq<char>> {
    v.map_values(|s: String| s@)
}

/// Whether a scope token matches some scope of the stack.
pub fn scope_token_matches_stack(token: &str, scope_stack: &[String]) -> (r: bool)
    ensures
        r == token_matches_stack(token@, stack_view(scope_stack@)),
{
    let ghost sv = stack_view(scope_stack@);
    let mut i: usize = 0;
    while i < scope_stack.len()
        invariant
            i <= scope_stack.len(),
            sv == stack_view(scope_stack@),
            forall|k: int| 0 <= k < i ==> !token_matches_scope(token@, #[trigger] sv[k]),
        decreases scope_stack.len() - i,
    {
        if scope_token_matches_scope(token, scope_stack[i].as_str()) {
            assert(token_matches_scope(token@, sv[i as int]));
            return true;
        }
        i += 1;
    }
    false
}

proof fn lemma_terms_view_index(s: Seq<CompiledSelectorTerm>, i: int)
    requires
        0 <= i < s.len(),
    ensures
        terms_view(s)[i] == term_view(s[i]),
    decreases s.len(),
{
    lemma_terms_view_len(s.drop_last());
    if i < s.len() - 1 {
        lemma_terms_view_index(s.drop_last(), i);
    }
}

proof fn lemma_disjuncts_view_index(s: Seq<CompiledSelectorDisjunct>, i: int)
    requires
        0 <= i < s.len(),
    ensures
        disjuncts_view(s)[i] == disjunct_view(s[i]),
    decreases s.len(),
{
    lemma_disjuncts_view_len(s.drop_last());
    if i < s.len() - 1 {
        lemma_disjuncts_view_index(s.drop_last(), i);
    }
}

proof fn lemma_terms_hold_prefix(ts: Seq<SpecTerm>, st: Seq<Seq<char>>, m: int, n: int)
    requires
        0 <= m <= n <= ts.len(),
        terms_hold(ts, st, n),
    ensures
        terms_hold(ts, st, m),
    decreases n - m,
{
    if m < n {
        lemma_terms_hold_prefix(ts, st, m, n - 1);
    }
}

/// Whether a compiled disjunct holds for a scope stack.
pub fn selector_disjunct_matches_compiled(disjunct: &CompiledSelectorDisjunct, scope_stack: &[String]) -> (r: bool)
    ensures
        r == disjunct_holds(disjunct_view(*disjunct), stack_view(scope_stack@)),
    decreases disjunct, 0nat,
{
    proof {
        lemma_terms_view_len(disjunct.terms@);
    }
    let all = terms_match(&disjunct.terms, scope_stack);
    all && disjunct.terms.len() > 0
}

fn terms_match(terms: &Vec<CompiledSelectorTerm>, scope_stack: &[String]) -> (r: bool)
    ensures
        r == terms_hold(terms_view(terms@), stack_view(scope_stack@), terms@.len() as int),
    decreases terms, 0nat,
{
    let ghost st = stack_view(scope_stack@);
    let ghost tv = terms_view(terms@);
    proof {
        lemma_terms_view_len(terms@);
    }
    let mut i: usize = 0;
    while i < terms.len()
        invariant
            i <= terms.len(),
            st == stack_view(scope_stack@),
            tv == terms_view(terms@),
            tv.len() == terms.len(),
            terms_hold(tv, st, i as int),
        decreases terms.len() - i,
    {
        proof {
            lemma_terms_view_index(terms@, i as int);
        }
        let holds = term_matches(&terms[i], scope_stack);
        if !holds {
            proof {
                if terms_hold(tv, st, terms@.len() as int) {
                    lemma_terms_hold_prefix(tv, st, i + 1, terms@.len() as int);
                }
            }
            return false;
        }
        i += 1;
    }
    true
}

fn term_matches(term: &CompiledSelectorTerm, scope_stack: &[String]) -> (r: bool)
    ensures
        r == term_holds(term_view(*term), stack_view(scope_stack@)),
    decreases term, 0nat,
{
    let matches = match &term.expr {
        CompiledSelectorExpr::Token(token) => scope_token_matches_stack(token.as_str(), scope_stack),
        CompiledSelectorExpr::AnyOf(branches) => {
            proof {
                lemma_disjuncts_view_len(branches@);
            }
            any_match(branches, scope_stack)
        },
    };
    if term.negate { !matches } else { matches }
}

fn any_match(branches: &Vec<CompiledSelectorDisjunct>, scope_stack: &[String]) -> (r: bool)
    ensures
        r == any_holds(disjuncts_view(branches@), stack_view(scope_stack@), branches@.len() as int),
    decreases branches, 0nat,
{
    let ghost st = stack_view(scope_stack@);
    let ghost bv = disjuncts_view(branches@);
    proof {
        lemma_disjuncts_view_len(branches@);
    }
    let mut found = false;
    let mut k: usize = 0;
    while k < branches.len()
        invariant
            k <= branches.len(),
            st == stack_view(scope_stack@),
            bv == disjuncts_view(branches@),
            bv.len() == branches.len(),
            found == any_holds(bv, st, k as int),
        decreases branches.len() - k,
    {
        proof {
            lemma_disjuncts_view_index(branches@, k as int);
        }
        if selector_disjunct_matches_compiled(&branches[k], scope_stack) {
            found = true;
        }
        k += 1;
    }
    found
}

/// Whether a compiled selector matches a scope stack.
pub fn selector_matches_compiled(selector: &CompiledSelector, scope_stack: &[String]) -> (r: bool)
    ensures
        r == selector_holds(selector_view(*selector), stack_view(scope_stack@)),
{
    let ghost sv = selector_view(*selector);
    let ghost st = stack_view(scope_stack@);
    let mut i: usize = 0;
    while i < selector.clauses.len()
        invariant
            i <= selector.clauses.len(),
            sv == selector_view(*selector),
            st == stack_view(scope_stack@),
            forall|a: int, b: int| 0 <= a < i && 0 <= b < sv[a].len() ==> !disjunct_holds(#[trigger] sv[a][b], st),
        decreases selector.clauses.len() - i,
    {
        let clause = &selector.clauses[i];
        proof {
            lemma_disjuncts_view_len(clause.disjuncts@);
        }
        let mut j: usize = 0;
        while j < clause.disjuncts.len()
            invariant
                i < selector.clauses.len(),
                *clause == selector.clauses@[i as int],
                j <= clause.disjuncts.len(),
                sv == selector_view(*selector),
                st == stack_view(scope_stack@),
                sv[i as int] == disjuncts_view(clause.disjuncts@),
                sv[i as int].len() == clause.disjuncts.len(),
                forall|b: int| 0 <= b < j ==> !disjunct_holds(#[trigger] sv[i as int][b], st),
            decreases clause.disjuncts.len() - j,
        {
            proof {
                lemma_disjuncts_view_index(clause.disjuncts@, j as int);
            }
            if selector_disjunct_matches_compiled(&clause.disjuncts[j], scope_stack) {
                assert(disjunct_holds(sv[i as int][j as int], st));
                return true;
            }
            j += 1;
        }
        i += 1;
    }
    false
}

} // verus!
