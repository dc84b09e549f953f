use vstd::prelude::*;

use ferroni::scanner::{OnigString, Scanner, ScannerFindOptions};

use crate::captures::CaptureIndex;

use crate::injection::strings_view;
use crate::rules::{Rule, RuleRegistry, END_RULE_ID};

verus! {

#[verifier::external_type_specification]
#[verifier::external_body]
pub struct ExScanner(Scanner);

#[verifier::external_type_specification]
#[verifier::external_body]
pub struct ExOnigString(OnigString);

/// A match of a search: the position of the pattern that matched and the
/// UTF-16 ranges of its captures (the whole match first).
#[derive(Debug, Clone, PartialEq, Eq)]
pub struct ScanMatch {
    pub index: usize,
    pub captures: Vec<CaptureIndex>,
}

/// A match as plain values: the position of its pattern and the
/// (start, end, length) of each capture.
pub open spec fn match_view(m: ScanMatch) -> (usize, Seq<(usize, usize, usize)>) {
    (m.index, m.captures@.map_values(|c: CaptureIndex| (c.start, c.end, c.length)))
}

/// What a search found, as plain values.
pub open spec fn found_view(r: Option<ScanMatch>) -> Option<(usize, Seq<(usize, usize, usize)>)> {
    match r {
        Some(m) => Some(match_view(m)),
        None => None,
    }
}

/// What a ferroni scanner holds: the patterns it was built from, in order.
pub uninterp spec fn scanner_patterns(scanner: Scanner) -> Seq<Seq<char>>;

/// The text of a line prepared by `OnigString::new`.
pub uninterp spec fn onig_text(line: OnigString) -> Seq<char>;

/// What ferroni's UTF-16 search finds with a scanner of `patterns` in
/// `text` from the UTF-16 offset `cursor` with the find options `options`:
/// the position of the pattern that matched and the (start, end, length)
/// of each capture.
pub uninterp spec fn scanner_search(patterns: Seq<Seq<char>>, text: Seq<char>, cursor: usize, options: u32) -> Option<
    (usize, Seq<(usize, usize, usize)>),
>;

/// `ferroni::scanner::Scanner::find_next_match_utf16`: searches the line
/// from the UTF-16 offset `cursor` with the find options `options`.  What
/// it finds is named `scanner_search` of the scanner's patterns, the line's
/// text, the cursor and the options (the search keeps no state between
/// lines that changes a result, its memo is keyed by the line itself, and
/// ferroni's search limits are left at their defaults); the pattern found
/// is one of the scanner's, and the scanner keeps its patterns.
#[verifier::external_body]
pub(crate) fn scanner_find(scanner: &mut Scanner, input: &OnigString, cursor: usize, options: u32) -> (r: Option<ScanMatch>)
    ensures
        scanner_patterns(*final(scanner)) == scanner_patterns(*old(scanner)),
        found_view(r) == scanner_search(scanner_patterns(*old(scanner)), onig_text(*input), cursor, options),
        r matches Some(m) ==> m.index < scanner_patterns(*old(scanner)).len(),
{
    let found = scanner.find_next_match_utf16(input, cursor, ScannerFindOptions::from_bits(options))?;
    Some(ScanMatch {
        index: found.index,
        captures: found.capture_indices.iter().map(|c| CaptureIndex { start: c.start, end: c.end, length: c.length }).collect(),
    })
}

/// The most patterns one scanner is built from.
pub const MAX_SCANNER_PATTERNS: usize = 256;

/// Above this many patterns a scanner is built from them at once; up to it,
/// each pattern is first tried on its own and those that do not compile are
/// left out.
pub const SCANNER_BULK_THRESHOLD: usize = 128;

/// Whether ferroni compiles the patterns into a scanner.
pub uninterp spec fn scanner_compiles(patterns: Seq<Seq<char>>) -> bool;

/// `ferroni::scanner::Scanner::new`: builds a scanner from the patterns.
/// Whether it succeeds is named `scanner_compiles` (compiling a pattern
/// depends on the pattern alone); the scanner holds the patterns.
#[verifier::external_body]
pub(crate) fn new_scanner(patterns: &Vec<String>) -> (r: Option<Scanner>)
    ensures
        r is Some <==> scanner_compiles(strings_view(patterns@)),
        r matches Some(s) ==> scanner_patterns(s) == strings_view(patterns@),
{
    let refs: Vec<&str> = patterns.iter().map(String::as_str).collect();
    Scanner::new(&refs).ok()
}

/// The (pattern, rule id) pairs as plain values.
pub open spec fn pairs_view(v: Seq<(String, i32)>) -> Seq<(Seq<char>, i32)> {
    v.map_values(|p: (String, i32)| (p.0@, p.1))
}

/// The pairs that collecting the patterns of rule `id` appends to `out`:
/// a match rule gives its pattern, a begin rule its begin pattern, and a
/// rule that gathers patterns those of its patterns in turn, while fewer
/// than `MAX_SCANNER_PATTERNS` pairs are collected and `fuel` lasts.
pub open spec fn collected(rules: Seq<Option<Rule>>, id: i32, out: Seq<(Seq<char>, i32)>, fuel: nat) -> Seq<(Seq<char>, i32)>
    decreases fuel, 0nat,
{
    if 0 <= id < rules.len() {
        match rules[id as int] {
            Some(Rule::Match { id: rid, match_re, .. }) => out.push((match_re@, rid)),
            Some(Rule::BeginEnd { id: rid, begin_re, .. }) => out.push((begin_re@, rid)),
            Some(Rule::BeginWhile { id: rid, begin_re, .. }) => out.push((begin_re@, rid)),
            Some(Rule::IncludeOnly { patterns, .. }) => {
                if fuel == 0 {
                    out
                } else {
                    collected_list(rules, patterns@, 0, out, (fuel - 1) as nat)
                }
            },
            None => out,
        }
    } else {
        out
    }
}

/// The pairs that collecting the patterns of the rules `ids[k..]` appends
/// to `out`, stopping once `MAX_SCANNER_PATTERNS` pairs are collected.
pub open spec fn collected_list(rules: Seq<Option<Rule>>, ids: Seq<i32>, k: int, out: Seq<(Seq<char>, i32)>, fuel: nat) -> Seq<(Seq<char>, i32)>
    decreases fuel, ids.len() - k + 1,
{
    if k < 0 || k >= ids.len() || out.len() >= MAX_SCANNER_PATTERNS {
        out
    } else {
        collected_list(rules, ids, k + 1, collected(rules, ids[k], out, fuel), fuel)
    }
}

/// Appends the patterns of rule `id` (see `collected`).
pub fn collect_patterns(id: i32, registry: &RuleRegistry, out: &mut Vec<(String, i32)>, fuel: u64)
    ensures
        pairs_view(final(out)@) == collected(registry.rules@, id, pairs_view(old(out)@), fuel as nat),
    decreases fuel, 0nat,
{
    let rule = match registry.get(id) {
        Some(rule) => rule,
        None => {
            return;
        },
    };
    let ghost before = out@;
    match rule {
        Rule::Match { id: rid, match_re, .. } => {
            out.push((match_re.clone(), *rid));
            assert(pairs_view(out@) =~= pairs_view(before).push((match_re@, *rid)));
        },
        Rule::BeginEnd { id: rid, begin_re, .. } => {
            out.push((begin_re.clone(), *rid));
            assert(pairs_view(out@) =~= pairs_view(before).push((begin_re@, *rid)));
        },
        Rule::BeginWhile { id: rid, begin_re, .. } => {
            out.push((begin_re.clone(), *rid));
            assert(pairs_view(out@) =~= pairs_view(before).push((begin_re@, *rid)));
        },
        Rule::IncludeOnly { patterns, .. } => {
            if fuel > 0 {
                collect_pattern_list(patterns, registry, out, fuel - 1);
            }
        },
    }
}

/// Appends the patterns of the rules `ids` (see `collected_list`).
pub fn collect_pattern_list(ids: &Vec<i32>, registry: &RuleRegistry, out: &mut Vec<(String, i32)>, fuel: u64)
    ensures
        pairs_view(final(out)@) == collected_list(registry.rules@, ids@, 0, pairs_view(old(out)@), fuel as nat),
    decreases fuel, ids@.len() + 1,
{
    let ghost goal = collected_list(registry.rules@, ids@, 0, pairs_view(out@), fuel as nat);
    let mut k: usize = 0;
    while k < ids.len()
        invariant
            k <= ids.len(),
            goal == collected_list(registry.rules@, ids@, k as int, pairs_view(out@), fuel as nat),
            goal == collected_list(registry.rules@, ids@, 0, pairs_view(old(out)@), fuel as nat),
        decreases ids.len() - k,
    {
        if out.len() >= MAX_SCANNER_PATTERNS {
            assert(pairs_view(out@).len() == out@.len());
            assert(collected_list(registry.rules@, ids@, k as int, pairs_view(out@), fuel as nat) == pairs_view(out@));
            return;
        }
        assert(pairs_view(out@).len() == out@.len());
        collect_patterns(ids[k], registry, out, fuel);
        k += 1;
    }
}

/// A scanner with the patterns it was built from and the rule each pattern
/// stands for (`END_RULE_ID` for the end pattern); the single-pattern
/// scanners are built later, when a search needs them.
pub struct CompiledScanner {
    pub scanner: Scanner,
    pub rule_ids: Vec<i32>,
    pub regexes: Vec<String>,
    pub single_scanners: Vec<Option<Scanner>>,
}

impl CompiledScanner {
    /// The scanner holds the patterns; each single-pattern scanner built so
    /// far holds its one pattern, which compiles on its own.
    pub open spec fn wf(&self) -> bool {
        &&& scanner_patterns(self.scanner) == strings_view(self.regexes@)
        &&& self.single_scanners@.len() == self.regexes@.len()
        &&& forall|k: int|
            0 <= k < self.single_scanners@.len() ==> (#[trigger] self.single_scanners@[k] matches Some(s) ==> {
                &&& scanner_patterns(s) == seq![self.regexes@[k]@]
                &&& scanner_compiles(seq![self.regexes@[k]@])
            })
    }
}

/// The nested patterns of rule `id`, where it is stored.
pub open spec fn child_patterns(rules: Seq<Option<Rule>>, id: i32) -> Option<Seq<i32>> {
    if 0 <= id < rules.len() {
        match rules[id as int] {
            Some(rule) => Some(rule.pattern_ids()),
            None => None,
        }
    } else {
        None
    }
}

/// The pairs a scanner for rule `id` is built from: the end pattern first
/// (unless it is to be tried last), the patterns of the rule's nested
/// rules, and the end pattern last where it is to be and there is room.
pub open spec fn scanner_pairs(rules: Seq<Option<Rule>>, children: Seq<i32>, end: Option<Seq<char>>, end_last: bool) -> Seq<(Seq<char>, i32)> {
    let start: Seq<(Seq<char>, i32)> = match end {
        Some(e) => if !end_last { seq![(e, END_RULE_ID)] } else { Seq::empty() },
        None => Seq::empty(),
    };
    let middle = collected_list(rules, children, 0, start, (rules.len() * 257) as nat);
    match end {
        Some(e) => if end_last && middle.len() < MAX_SCANNER_PATTERNS { middle.push((e, END_RULE_ID)) } else { middle },
        None => middle,
    }
}

/// The pairs whose pattern compiles on its own.
pub open spec fn compiling_pairs(pairs: Seq<(Seq<char>, i32)>) -> Seq<(Seq<char>, i32)> {
    pairs.filter(|p: (Seq<char>, i32)| scanner_compiles(seq![p.0]))
}

/// The patterns of a list of pairs.
pub open spec fn pair_patterns(pairs: Seq<(Seq<char>, i32)>) -> Seq<Seq<char>> {
    pairs.map_values(|p: (Seq<char>, i32)| p.0)
}

/// The rule ids of a list of pairs.
pub open spec fn pair_ids(pairs: Seq<(Seq<char>, i32)>) -> Seq<i32> {
    pairs.map_values(|p: (Seq<char>, i32)| p.1)
}

/// The pairs a scanner is built from, after leaving out (for small sets)
/// the patterns that do not compile on their own.
pub open spec fn usable_pairs(pairs: Seq<(Seq<char>, i32)>) -> Seq<(Seq<char>, i32)> {
    if pairs.len() > SCANNER_BULK_THRESHOLD {
        pairs
    } else {
        compiling_pairs(pairs)
    }
}

/// Whether `r` is what building the scanner for rule `id` gives: none where
/// the rule is not stored; else a scanner built from the usable pairs
/// exactly when there are some and ferroni compiles them, with no single
/// scanners built yet.
pub open spec fn scanner_built(rules: Seq<Option<Rule>>, id: i32, end: Option<Seq<char>>, end_last: bool, r: Option<CompiledScanner>) -> bool {
    match child_patterns(rules, id) {
        None => r is None,
        Some(children) => {
            let pairs = usable_pairs(scanner_pairs(rules, children, end, end_last));
            match r {
                Some(s) => {
                    &&& pairs.len() > 0
                    &&& scanner_compiles(pair_patterns(pairs))
                    &&& strings_view(s.regexes@) == pair_patterns(pairs)
                    &&& scanner_patterns(s.scanner) == pair_patterns(pairs)
                    &&& s.rule_ids@ == pair_ids(pairs)
                    &&& s.single_scanners@.len() == pairs.len()
                    &&& forall|i: int| 0 <= i < s.single_scanners@.len() ==> #[trigger] s.single_scanners@[i] is None
                },
                None => pairs.len() == 0 || !scanner_compiles(pair_patterns(pairs)),
            }
        },
    }
}

fn opt_copy(s: Option<&str>) -> (r: Option<String>)
    ensures
        match (s, r) {
            (Some(a), Some(b)) => a@ == b@,
            (None, None) => true,
            _ => false,
        },
{
    match s {
        Some(a) => Some(a.to_string()),
        None => None,
    }
}

/// Builds the scanner for rule `id`: its nested patterns, and the end
/// pattern `end_re` first or (with `apply_end_pattern_last`) last.  No
/// scanner where the rule is not stored, there are no patterns, none of a
/// small set compiles on its own, or ferroni refuses the set.
pub fn build_scanner_for_rule(
    id: i32,
    registry: &RuleRegistry,
    end_re: Option<&str>,
    apply_end_pattern_last: bool,
) -> (r: Option<CompiledScanner>)
    requires
        registry.wf(),
    ensures
        scanner_built(registry.rules@, id, match end_re {
            Some(e) => Some(e@),
            None => None,
        }, apply_end_pattern_last, r),
{
    let rule = match registry.get(id) {
        Some(rule) => rule,
        None => {
            return None;
        },
    };
    let children: &Vec<i32> = match rule {
        Rule::IncludeOnly { patterns, .. } => patterns,
        Rule::BeginEnd { patterns, .. } => patterns,
        Rule::BeginWhile { patterns, .. } => patterns,
        Rule::Match { .. } => &Vec::new(),
    };
    let ghost end = match end_re {
        Some(e) => Some(e@),
        None => None,
    };
    let mut pairs: Vec<(String, i32)> = Vec::new();
    if !apply_end_pattern_last {
        match opt_copy(end_re) {
            Some(e) => {
                pairs.push((e, END_RULE_ID));
            },
            None => {},
        }
    }
    assert(pairs_view(pairs@) =~= match end {
        Some(e) => if !apply_end_pattern_last { seq![(e, END_RULE_ID)] } else { Seq::<(Seq<char>, i32)>::empty() },
        None => Seq::<(Seq<char>, i32)>::empty(),
    });
    let fuel: u64 = registry.rules.len() as u64 * 257;
    collect_pattern_list(children, registry, &mut pairs, fuel);
    if apply_end_pattern_last {
        match opt_copy(end_re) {
            Some(e) => {
                if pairs.len() < MAX_SCANNER_PATTERNS {
                    let ghost before = pairs@;
                    pairs.push((e, END_RULE_ID));
                    assert(pairs_view(pairs@) =~= pairs_view(before).push((e@, END_RULE_ID)));
                }
            },
            None => {},
        }
    }
    let ghost all = pairs_view(pairs@);
    assert(all == scanner_pairs(registry.rules@, rule.pattern_ids(), end, apply_end_pattern_last));
    if pairs.len() == 0 {
        return None;
    }
    let usable = if pairs.len() > SCANNER_BULK_THRESHOLD {
        pairs
    } else {
        keep_compiling(pairs)
    };
    assert(pairs_view(usable@) == usable_pairs(all));
    if usable.len() == 0 {
        return None;
    }
    let mut regexes: Vec<String> = Vec::new();
    let mut rule_ids: Vec<i32> = Vec::new();
    let mut single_scanners: Vec<Option<Scanner>> = Vec::new();
    let mut i: usize = 0;
    while i < usable.len()
        invariant
            i <= usable.len(),
            regexes@.len() == i,
            rule_ids@.len() == i,
            single_scanners@.len() == i,
            forall|j: int| 0 <= j < i ==> #[trigger] regexes@[j]@ == usable@[j].0@,
            forall|j: int| 0 <= j < i ==> #[trigger] rule_ids@[j] == usable@[j].1,
            forall|j: int| 0 <= j < i ==> #[trigger] single_scanners@[j] is None,
        decreases usable.len() - i,
    {
        regexes.push(usable[i].0.clone());
        rule_ids.push(usable[i].1);
        single_scanners.push(None);
        i += 1;
    }
    assert(strings_view(regexes@) =~= pair_patterns(pairs_view(usable@)));
    assert(rule_ids@ =~= pair_ids(pairs_view(usable@)));
    match new_scanner(&regexes) {
        Some(scanner) => Some(CompiledScanner { scanner, rule_ids, regexes, single_scanners }),
        None => None,
    }
}

/// Keeps the pairs whose pattern compiles on its own, in order.
fn keep_compiling(pairs: Vec<(String, i32)>) -> (r: Vec<(String, i32)>)
    ensures
        pairs_view(r@) == compiling_pairs(pairs_view(pairs@)),
{
    let ghost pv = pairs_view(pairs@);
    let mut out: Vec<(String, i32)> = Vec::new();
    let mut i: usize = 0;
    while i < pairs.len()
        invariant
            i <= pairs.len(),
            pv == pairs_view(pairs@),
            pairs_view(out@) == compiling_pairs(pv.take(i as int)),
        decreases pairs.len() - i,
    {
        let mut single: Vec<String> = Vec::new();
        single.push(pairs[i].0.clone());
        let ok = new_scanner(&single).is_some();
        assert(strings_view(single@) =~= seq![pv[i as int].0]);
        let ghost before = out@;
        if ok {
            out.push((pairs[i].0.clone(), pairs[i].1));
            assert(pairs_view(out@) =~= pairs_view(before).push(pv[i as int]));
        }
        assert(pv.take(i + 1) =~= pv.take(i as int).push(pv[i as int]));
        proof {
            pv.take(i as int).lemma_filter_push(pv[i as int], |p: (Seq<char>, i32)| scanner_compiles(seq![p.0]));
        }
        i += 1;
    }
    assert(pv.take(i as int) =~= pv);
    out
}

/// Where a match starts: the start of its whole match, or `usize::MAX`
/// where it has no captures.
pub open spec fn view_start(m: (usize, Seq<(usize, usize, usize)>)) -> usize {
    if m.1.len() > 0 {
        m.1[0].0
    } else {
        usize::MAX
    }
}

/// Where a match starts (see `view_start`).
pub open spec fn match_start(m: ScanMatch) -> usize {
    view_start(match_view(m))
}

pub fn first_start(m: &ScanMatch) -> (r: usize)
    ensures
        r == match_start(*m),
{
    if m.captures.len() > 0 {
        m.captures[0].start
    } else {
        usize::MAX
    }
}

/// One step of the ordered search: the candidate found by the single
/// scanner of pattern `index` (renumbered to that pattern) replaces the
/// best where it starts earlier, or as early with a lower pattern; the
/// search stops once a replacement starts at the cursor.
pub open spec fn ordered_next(
    best: (usize, Seq<(usize, usize, usize)>),
    found: Option<(usize, Seq<(usize, usize, usize)>)>,
    index: usize,
    cursor: usize,
) -> ((usize, Seq<(usize, usize, usize)>), bool) {
    match found {
        None => (best, false),
        Some(c) => {
            let cand = (index, c.1);
            if view_start(cand) < view_start(best) || (view_start(cand) == view_start(best) && index < best.0) {
                (cand, view_start(cand) == cursor)
            } else {
                (best, false)
            }
        },
    }
}

/// The best match after the single-pattern candidates `0..n`, and whether
/// the search stopped there (see `ordered_next`).
pub open spec fn ordered_state(
    best: (usize, Seq<(usize, usize, usize)>),
    candidates: Seq<Option<(usize, Seq<(usize, usize, usize)>)>>,
    n: int,
    cursor: usize,
) -> ((usize, Seq<(usize, usize, usize)>), bool)
    decreases n,
{
    if n <= 0 || n > candidates.len() {
        (best, false)
    } else {
        let (prev, stopped) = ordered_state(best, candidates, n - 1, cursor);
        if stopped {
            (prev, true)
        } else {
            ordered_next(prev, candidates[n - 1], (n - 1) as usize, cursor)
        }
    }
}

/// What the single-pattern scanner of pattern `k` finds: nothing where the
/// pattern does not compile on its own.
pub open spec fn single_outcome(patterns: Seq<Seq<char>>, k: int, text: Seq<char>, cursor: usize, options: u32) -> Option<
    (usize, Seq<(usize, usize, usize)>),
> {
    if scanner_compiles(seq![patterns[k]]) {
        scanner_search(seq![patterns[k]], text, cursor, options)
    } else {
        None
    }
}

/// The ordered search of `text` with the patterns: the search of them all
/// at once, then the single-pattern searches of the patterns before the one
/// it found, by `ordered_state`, so that among matches at the same start
/// the pattern listed first wins.
pub open spec fn ordered_search(patterns: Seq<Seq<char>>, text: Seq<char>, cursor: usize, options: u32) -> Option<
    (usize, Seq<(usize, usize, usize)>),
> {
    match scanner_search(patterns, text, cursor, options) {
        None => None,
        Some(first) => Some(
            ordered_state(
                first,
                Seq::new(first.0 as nat, |k: int| single_outcome(patterns, k, text, cursor, options)),
                first.0 as int,
                cursor,
            ).0,
        ),
    }
}

/// One step of the ordered search (see `ordered_next`): the new best, and
/// whether the search stops.
pub fn ordered_step(best: ScanMatch, found: Option<ScanMatch>, index: usize, cursor: usize) -> (r: (ScanMatch, bool))
    ensures
        (match_view(r.0), r.1) == ordered_next(match_view(best), found_view(found), index, cursor),
{
    match found {
        None => (best, false),
        Some(c) => {
            let candidate = ScanMatch { index, captures: c.captures };
            let candidate_start = first_start(&candidate);
            let best_start = first_start(&best);
            if candidate_start < best_start || (candidate_start == best_start && index < best.index) {
                (candidate, candidate_start == cursor)
            } else {
                (best, false)
            }
        },
    }
}

/// The search of the line from `cursor` with all the patterns, then with
/// the single-pattern scanners (built the first time they are needed) of
/// the patterns before the one it found, so that among matches at the same
/// start the pattern listed first wins (see `ordered_search`).  The
/// searches do not use `line_str_id`: a search depends on the line alone.
pub fn find_next_match_ordered(
    compiled_scanner: &mut CompiledScanner,
    input: &OnigString,
    line_str_id: u64,
    cursor: usize,
    find_options: u32,
) -> (r: Option<ScanMatch>)
    requires
        old(compiled_scanner).wf(),
    ensures
        final(compiled_scanner).wf(),
        final(compiled_scanner).regexes == old(compiled_scanner).regexes,
        final(compiled_scanner).rule_ids == old(compiled_scanner).rule_ids,
        found_view(r) == ordered_search(strings_view(old(compiled_scanner).regexes@), onig_text(*input), cursor, find_options),
{
    let ghost patterns = strings_view(compiled_scanner.regexes@);
    let ghost text = onig_text(*input);
    let first = match scanner_find(&mut compiled_scanner.scanner, input, cursor, find_options) {
        Some(m) => m,
        None => {
            return None;
        },
    };
    let ghost first_view = match_view(first);
    let limit = first.index;
    let ghost candidates: Seq<Option<(usize, Seq<(usize, usize, usize)>)>> = Seq::new(
        limit as nat,
        |k: int| single_outcome(patterns, k, text, cursor, find_options),
    );
    let mut best = first;
    let mut index: usize = 0;
    while index < limit
        invariant
            index <= limit,
            limit == first_view.0,
            limit <= compiled_scanner.regexes@.len(),
            patterns == strings_view(compiled_scanner.regexes@),
            compiled_scanner.wf(),
            compiled_scanner.regexes == old(compiled_scanner).regexes,
            compiled_scanner.rule_ids == old(compiled_scanner).rule_ids,
            candidates == Seq::new(limit as nat, |k: int| single_outcome(patterns, k, text, cursor, find_options)),
            text == onig_text(*input),
            scanner_search(patterns, text, cursor, find_options) == Some(first_view),
            ordered_state(first_view, candidates, index as int, cursor) == (match_view(best), false),
        decreases limit - index,
    {
        let mut slot: Option<Scanner> = None;
        compiled_scanner.single_scanners.set_and_swap(index, &mut slot);
        if slot.is_none() {
            let mut single: Vec<String> = Vec::new();
            single.push(compiled_scanner.regexes[index].clone());
            assert(strings_view(single@) =~= seq![patterns[index as int]]);
            slot = new_scanner(&single);
        }
        assert(slot is Some <==> scanner_compiles(seq![patterns[index as int]]));
        let found = match &mut slot {
            Some(scanner) => scanner_find(scanner, input, cursor, find_options),
            None => None,
        };
        assert(found_view(found) == candidates[index as int]);
        compiled_scanner.single_scanners.set_and_swap(index, &mut slot);
        let (next, stopped) = ordered_step(best, found, index, cursor);
        best = next;
        if stopped {
            proof {
                assert(ordered_state(first_view, candidates, index + 1, cursor) == (match_view(best), true));
                lemma_ordered_stays(first_view, candidates, index + 1, limit as int, cursor);
            }
            return Some(best);
        }
        index += 1;
    }
    Some(best)
}

/// Once the ordered search has stopped, later candidates change nothing.
proof fn lemma_ordered_stays(
    best: (usize, Seq<(usize, usize, usize)>),
    candidates: Seq<Option<(usize, Seq<(usize, usize, usize)>)>>,
    n: int,
    m: int,
    cursor: usize,
)
    requires
        0 < n <= m <= candidates.len(),
        ordered_state(best, candidates, n, cursor).1,
    ensures
        ordered_state(best, candidates, m, cursor) == ordered_state(best, candidates, n, cursor),
    decreases m - n,
{
    if m > n {
        lemma_ordered_stays(best, candidates, n, m - 1, cursor);
    }
}

} // verus!
