use vstd::prelude::*;

use ferroni::api::Regex;
use ferroni::oniguruma::{OnigRegion, ONIG_OPTION_CAPTURE_GROUP, ONIG_OPTION_NONE};
use ferroni::regexec::onig_search;
use ferroni::scanner::{OnigString, Scanner};

use crate::captures::CaptureIndex;
use crate::injection::strings_view;
use crate::regexp::{
    has_line_start_anchor, line_start_anchor_from, normalize_ferroni_pattern, normalize_from, stabilize_ferroni_captures,
    stabilize_from,
};
use crate::scanner::{
    first_start, found_view, match_view, new_scanner, onig_text, scanner_compiles, scanner_find, scanner_patterns, scanner_search, view_start,
    ScanMatch,
};
use crate::text::chars_of;
use crate::unicode::{
    char_utf16_width, char_utf8_width, lemma_utf16_le_utf8, lemma_utf16_len_push, lemma_utf8_len_prefix, lemma_utf8_len_push, utf16_len,
    utf16_width, utf8_len, utf8_width,
};

verus! {

#[verifier::external_type_specification]
#[verifier::external_body]
pub struct ExRegex(Regex);

/// Whether ferroni compiles `pattern` with its default options.
pub uninterp spec fn regex_compiles(pattern: Seq<char>) -> bool;

/// Whether ferroni compiles `pattern` with the capture-group option.
pub uninterp spec fn capture_group_compiles(pattern: Seq<char>) -> bool;

/// What a regex holds: the pattern it was built from (this library builds
/// every regex with the capture-group option).
pub uninterp spec fn regex_pattern(regex: Regex) -> Seq<char>;

/// What ferroni's search with a capture-group regex of `pattern` finds in
/// `text` from the byte offset `start`: the byte start and end of each
/// group, negative for a group that took no part.
pub uninterp spec fn group_search(pattern: Seq<char>, text: Seq<char>, start: usize) -> Option<Seq<(i32, i32)>>;

/// `ferroni::api::Regex::new`: whether the pattern compiles with the
/// default options (named `regex_compiles`).
#[verifier::external_body]
fn compiles_plain(pattern: &str) -> (r: bool)
    ensures
        r == regex_compiles(pattern@),
{
    Regex::new(pattern).is_ok()
}

/// `ferroni::api::Regex::builder` with the capture-group option, then
/// `build`: a regex of the pattern exactly where it compiles so (named
/// `capture_group_compiles`).
#[verifier::external_body]
fn capture_group_regex(pattern: &str) -> (r: Option<Regex>)
    ensures
        r is Some <==> capture_group_compiles(pattern@),
        r matches Some(x) ==> regex_pattern(x) == pattern@,
{
    Regex::builder(pattern).option(ONIG_OPTION_CAPTURE_GROUP).build().ok()
}

/// `ferroni::regexec::onig_search` over the whole text from the byte
/// offset `start`: the byte range of each group of the match, none where
/// nothing matches (named `group_search`).
#[verifier::external_body]
fn search_groups(regex: &Regex, text: &str, start: usize) -> (r: Option<Vec<(i32, i32)>>)
    requires
        start <= utf8_len(text@),
    ensures
        match r {
            Some(v) => group_search(regex_pattern(*regex), text@, start) == Some(v@),
            None => group_search(regex_pattern(*regex), text@, start) is None,
        },
{
    let bytes = text.as_bytes();
    let (result, region) = onig_search(regex.as_raw(), bytes, bytes.len(), start, bytes.len(), Some(OnigRegion::new()), ONIG_OPTION_NONE);
    if result < 0 {
        return None;
    }
    let region = region?;
    Some(region.beg.iter().zip(region.end.iter()).map(|(b, e)| (*b, *e)).collect())
}

/// `ferroni::scanner::OnigString::content`: the line's text.
#[verifier::external_body]
fn line_content(line: &OnigString) -> (r: &str)
    ensures
        r@ == onig_text(*line),
{
    line.content()
}

/// `ferroni::scanner::OnigString::utf16_len`: the line's length in UTF-16
/// code units.
#[verifier::external_body]
fn line_utf16_len(line: &OnigString) -> (r: usize)
    ensures
        r == utf16_len(onig_text(*line)),
{
    line.utf16_len()
}

/// From character `i` on, at UTF-16 offset `pos16` and byte offset `pos8`:
/// the byte offset of UTF-16 offset `target`, the start of the first
/// character at or after it or the end of the character it falls inside;
/// the end of the text past its end.
pub open spec fn byte_offset_from(s: Seq<char>, target: nat, i: int, pos16: nat, pos8: nat) -> nat
    decreases s.len() - i,
{
    if i < 0 || i >= s.len() || pos16 >= target {
        pos8
    } else if pos16 + utf16_width(s[i]) > target {
        pos8 + utf8_width(s[i])
    } else {
        byte_offset_from(s, target, i + 1, pos16 + utf16_width(s[i]), pos8 + utf8_width(s[i]))
    }
}

/// The byte offset of UTF-16 offset `target` in `s` (see `byte_offset_from`).
pub open spec fn byte_offset(s: Seq<char>, target: nat) -> nat {
    byte_offset_from(s, target, 0, 0, 0)
}

/// From character `i` on, at byte offset `pos8` and UTF-16 offset `pos16`:
/// the UTF-16 length of the characters that end at or before byte offset
/// `target`.
pub open spec fn utf16_offset_from(s: Seq<char>, target: nat, i: int, pos8: nat, pos16: nat) -> nat
    decreases s.len() - i,
{
    if i < 0 || i >= s.len() || pos8 + utf8_width(s[i]) > target {
        pos16
    } else {
        utf16_offset_from(s, target, i + 1, pos8 + utf8_width(s[i]), pos16 + utf16_width(s[i]))
    }
}

/// The UTF-16 offset of byte offset `target` in `s`: the UTF-16 length of
/// the text before it, at a character boundary (see `utf16_offset_from`).
pub open spec fn utf16_offset(s: Seq<char>, target: nat) -> nat {
    utf16_offset_from(s, target, 0, 0, 0)
}

proof fn lemma_widths_step(s: Seq<char>, i: int)
    requires
        0 <= i < s.len(),
    ensures
        utf8_len(s.take(i + 1)) == utf8_len(s.take(i)) + utf8_width(s[i]),
        utf16_len(s.take(i + 1)) == utf16_len(s.take(i)) + utf16_width(s[i]),
        utf8_len(s.take(i + 1)) <= utf8_len(s),
        utf16_len(s.take(i + 1)) <= utf8_len(s.take(i + 1)),
{
    assert(s.take(i + 1) =~= s.take(i).push(s[i]));
    lemma_utf8_len_push(s.take(i), s[i]);
    lemma_utf16_len_push(s.take(i), s[i]);
    lemma_utf8_len_prefix(s, i + 1);
    lemma_utf16_le_utf8(s.take(i + 1));
}

fn utf16_to_utf8_offset(s: &Vec<char>, target: usize) -> (r: usize)
    requires
        utf8_len(s@) <= usize::MAX,
    ensures
        r == byte_offset(s@, target as nat),
        r <= utf8_len(s@),
{
    let mut i: usize = 0;
    let mut pos16: usize = 0;
    let mut pos8: usize = 0;
    assert(s@.take(0) =~= Seq::<char>::empty());
    proof {
        lemma_utf8_len_prefix(s@, 0);
    }
    assert(utf16_len(s@.take(0)) == 0);
    while i < s.len()
        invariant
            i <= s.len(),
            utf8_len(s@) <= usize::MAX,
            pos8 == utf8_len(s@.take(i as int)),
            pos16 == utf16_len(s@.take(i as int)),
            pos8 <= utf8_len(s@),
            byte_offset_from(s@, target as nat, i as int, pos16 as nat, pos8 as nat) == byte_offset(s@, target as nat),
        decreases s.len() - i,
    {
        if pos16 >= target {
            return pos8;
        }
        proof {
            lemma_widths_step(s@, i as int);
        }
        let w16 = char_utf16_width(s[i]);
        let w8 = char_utf8_width(s[i]);
        if pos16 + w16 > target {
            return pos8 + w8;
        }
        pos16 = pos16 + w16;
        pos8 = pos8 + w8;
        i += 1;
    }
    assert(s@.take(i as int) =~= s@);
    pos8
}

fn utf8_to_utf16_offset(s: &Vec<char>, target: usize) -> (r: usize)
    requires
        utf8_len(s@) <= usize::MAX,
    ensures
        r == utf16_offset(s@, target as nat),
{
    let mut i: usize = 0;
    let mut pos16: usize = 0;
    let mut pos8: usize = 0;
    assert(s@.take(0) =~= Seq::<char>::empty());
    assert(utf16_len(s@.take(0)) == 0);
    proof {
        lemma_utf8_len_prefix(s@, 0);
    }
    while i < s.len()
        invariant
            i <= s.len(),
            utf8_len(s@) <= usize::MAX,
            pos8 == utf8_len(s@.take(i as int)),
            pos16 == utf16_len(s@.take(i as int)),
            utf16_offset_from(s@, target as nat, i as int, pos8 as nat, pos16 as nat) == utf16_offset(s@, target as nat),
        decreases s.len() - i,
    {
        proof {
            lemma_widths_step(s@, i as int);
        }
        let w16 = char_utf16_width(s[i]);
        let w8 = char_utf8_width(s[i]);
        if pos8 + w8 > target {
            return pos16;
        }
        pos16 = pos16 + w16;
        pos8 = pos8 + w8;
        i += 1;
    }
    pos16
}

/// A capture of a direct search: a group that took no part becomes the empty
/// capture at 0; else its byte range turned into UTF-16 offsets.
pub open spec fn group_capture(g: (i32, i32), s: Seq<char>) -> (usize, usize, usize) {
    if g.0 < 0 || g.1 < 0 {
        (0, 0, 0)
    } else {
        let a = utf16_offset(s, g.0 as nat);
        let b = utf16_offset(s, g.1 as nat);
        (a as usize, b as usize, if b >= a { (b - a) as usize } else { 0 })
    }
}

/// What the direct search of a capture-group regex of `pattern` finds in
/// `text` from the UTF-16 offset `start`, as captures in UTF-16 offsets.
pub open spec fn direct_captures(pattern: Seq<char>, text: Seq<char>, start: usize) -> Option<Seq<(usize, usize, usize)>> {
    match group_search(pattern, text, byte_offset(text, start as nat) as usize) {
        None => None,
        Some(groups) => Some(groups.map_values(|g: (i32, i32)| group_capture(g, text))),
    }
}

/// The captures as plain values.
pub open spec fn captures_view(v: Seq<CaptureIndex>) -> Seq<(usize, usize, usize)> {
    v.map_values(|c: CaptureIndex| (c.start, c.end, c.length))
}

/// Searches the line with the regex alone from the UTF-16 offset
/// `start_position` (see `direct_captures`).
fn find_direct_fallback(regex: &Regex, line: &OnigString, start_position: usize) -> (r: Option<Vec<CaptureIndex>>)
    ensures
        match r {
            Some(v) => direct_captures(regex_pattern(*regex), onig_text(*line), start_position) == Some(captures_view(v@)),
            None => direct_captures(regex_pattern(*regex), onig_text(*line), start_position) is None,
        },
{
    let text = line_content(line);
    let byte_count = text.as_bytes().len();
    assert(utf8_len(text@) == byte_count);
    let chars = chars_of(text);
    let start = utf16_to_utf8_offset(&chars, start_position);
    let groups = match search_groups(regex, text, start) {
        Some(g) => g,
        None => {
            return None;
        },
    };
    let ghost t = onig_text(*line);
    let mut out: Vec<CaptureIndex> = Vec::new();
    let mut k: usize = 0;
    while k < groups.len()
        invariant
            k <= groups.len(),
            chars@ == t,
            utf8_len(t) <= usize::MAX,
            captures_view(out@) == groups@.take(k as int).map_values(|g: (i32, i32)| group_capture(g, t)),
        decreases groups.len() - k,
    {
        let (b, e) = groups[k];
        let capture = if b < 0 || e < 0 {
            CaptureIndex { start: 0, end: 0, length: 0 }
        } else {
            let a16 = utf8_to_utf16_offset(&chars, b as usize);
            let b16 = utf8_to_utf16_offset(&chars, e as usize);
            CaptureIndex { start: a16, end: b16, length: if b16 >= a16 { b16 - a16 } else { 0 } }
        };
        let ghost before = out@;
        out.push(capture);
        proof {
            assert(captures_view(out@) =~= captures_view(before).push(group_capture(groups@[k as int], t)));
            assert(groups@.take(k + 1) =~= groups@.take(k as int).push(groups@[k as int]));
            assert(groups@.take(k + 1).map_values(|g: (i32, i32)| group_capture(g, t)) =~= groups@.take(k as int).map_values(
                |g: (i32, i32)| group_capture(g, t),
            ).push(group_capture(groups@[k as int], t)));
        }
        k += 1;
    }
    assert(groups@.take(k as int) =~= groups@);
    Some(out)
}

/// A pattern's regex for the direct search, and whether a match of it at
/// the end of the line is refused (the pattern has a line-start anchor).
pub struct DirectFallback {
    regex: Regex,
    rejects_artificial_end: bool,
}

/// The rule a match of a compiled rule stands for, and its captures.
pub struct FindNextMatchResult<T> {
    pub rule_id: T,
    pub capture_indices: Vec<CaptureIndex>,
}

/// The patterns of a rule compiled into one scanner, with a direct regex
/// for each pattern that compiles with the capture-group option, and the
/// rule each pattern stands for.
pub struct CompiledRule<T> {
    scanner: Scanner,
    direct_fallbacks: Vec<Option<DirectFallback>>,
    reg_exps: Vec<String>,
    rules: Vec<T>,
}

/// The direct regex that a normalized pattern gets: its captures
/// stabilized, where that compiles with the capture-group option, with
/// whether it has a line-start anchor.
pub open spec fn fallback_of(pattern: Seq<char>) -> Option<(Seq<char>, bool)> {
    if capture_group_compiles(stabilize_from(pattern, 0, false)) {
        Some((stabilize_from(pattern, 0, false), line_start_anchor_from(pattern, 0, false)))
    } else {
        None
    }
}

/// The never-matching pattern that stands in the scanner for a pattern
/// left to its direct regex.
pub open spec fn never_pattern() -> Seq<char> {
    seq!['(', '?', '!', ')']
}

/// What stands in the scanner for a normalized pattern: itself where it
/// compiles with the default options or has no direct regex, else a
/// pattern that never matches.
pub open spec fn scanner_pattern_of(pattern: Seq<char>) -> Seq<char> {
    if regex_compiles(pattern) || fallback_of(pattern) is None {
        pattern
    } else {
        never_pattern()
    }
}

/// The normalized form of each pattern.
pub open spec fn normalized(patterns: Seq<Seq<char>>) -> Seq<Seq<char>> {
    patterns.map_values(|p: Seq<char>| normalize_from(p, 0, false))
}

/// Where captures start: the start of the first, or `usize::MAX` where
/// there are none.
pub open spec fn captures_start(caps: Seq<(usize, usize, usize)>) -> usize {
    if caps.len() > 0 {
        caps[0].0
    } else {
        usize::MAX
    }
}

/// The captures of a direct match of the pattern that the best match
/// already stands for: each group after the whole match that ends past the
/// whole match's end keeps the capture the best match had.
pub open spec fn merge_groups(caps: Seq<(usize, usize, usize)>, existing: Seq<(usize, usize, usize)>) -> Seq<(usize, usize, usize)> {
    Seq::new(
        caps.len(),
        |k: int|
            if 1 <= k < existing.len() && caps[k].1 > caps[0].1 {
                existing[k]
            } else {
                caps[k]
            },
    )
}

/// One step of the direct searches: what the direct regex of pattern
/// `index` found replaces the best unless it is a refused match at the end
/// of the line, or starts later than the best, or as early for a pattern
/// listed after the best's.
pub open spec fn fallback_next(
    best: Option<(usize, Seq<(usize, usize, usize)>)>,
    found: Option<Seq<(usize, usize, usize)>>,
    index: usize,
    rejects_end: bool,
    line_len: nat,
) -> Option<(usize, Seq<(usize, usize, usize)>)> {
    match found {
        None => best,
        Some(caps) => if rejects_end && captures_start(caps) == line_len {
            best
        } else {
            match best {
                None => Some((index, caps)),
                Some(b) => if captures_start(caps) < view_start(b) || (captures_start(caps) == view_start(b) && index <= b.0) {
                    Some((index, if b.0 == index { merge_groups(caps, b.1) } else { caps }))
                } else {
                    best
                },
            }
        },
    }
}

/// The best match after the direct searches of the first `n` patterns.
pub open spec fn fallback_state(
    best: Option<(usize, Seq<(usize, usize, usize)>)>,
    fallbacks: Seq<Option<(Seq<char>, bool)>>,
    text: Seq<char>,
    start: usize,
    n: int,
) -> Option<(usize, Seq<(usize, usize, usize)>)>
    decreases n,
{
    if n <= 0 || n > fallbacks.len() {
        best
    } else {
        let prev = fallback_state(best, fallbacks, text, start, n - 1);
        match fallbacks[n - 1] {
            None => prev,
            Some((pattern, rejects_end)) => fallback_next(
                prev,
                direct_captures(pattern, text, start),
                (n - 1) as usize,
                rejects_end,
                utf16_len(text),
            ),
        }
    }
}

/// What the scanner finds, but for a match at the end of the line of a
/// pattern with a line-start anchor.
pub open spec fn scanner_first(
    reg_exps: Seq<Seq<char>>,
    scanner_patterns: Seq<Seq<char>>,
    text: Seq<char>,
    start: usize,
    options: u32,
) -> Option<(usize, Seq<(usize, usize, usize)>)> {
    match scanner_search(scanner_patterns, text, start, options) {
        Some(m) => if m.0 < reg_exps.len() && line_start_anchor_from(reg_exps[m.0 as int], 0, false) && view_start(m)
            == utf16_len(text) {
            None
        } else {
            Some(m)
        },
        None => None,
    }
}

/// The next match of a compiled rule: the scanner's (see `scanner_first`)
/// and, with no find options, the direct searches after it (see
/// `fallback_state`).
pub open spec fn rule_match(
    reg_exps: Seq<Seq<char>>,
    scanner_patterns: Seq<Seq<char>>,
    fallbacks: Seq<Option<(Seq<char>, bool)>>,
    text: Seq<char>,
    start: usize,
    options: u32,
) -> Option<(usize, Seq<(usize, usize, usize)>)> {
    let first = scanner_first(reg_exps, scanner_patterns, text, start, options);
    if options == 0 {
        fallback_state(first, fallbacks, text, start, fallbacks.len() as int)
    } else {
        first
    }
}

/// One step of the direct searches (see `fallback_next`).
pub fn fallback_step(
    best: Option<ScanMatch>,
    found: Option<Vec<CaptureIndex>>,
    index: usize,
    rejects_end: bool,
    line_len: usize,
) -> (r: Option<ScanMatch>)
    ensures
        found_view(r) == fallback_next(
            found_view(best),
            match found {
                Some(v) => Some(captures_view(v@)),
                None => None,
            },
            index,
            rejects_end,
            line_len as nat,
        ),
{
    let caps = match found {
        Some(v) => v,
        None => {
            return best;
        },
    };
    let cand_start = if caps.len() > 0 { caps[0].start } else { usize::MAX };
    if rejects_end && cand_start == line_len {
        return best;
    }
    match best {
        None => Some(ScanMatch { index, captures: caps }),
        Some(b) => {
            let best_start = if b.captures.len() > 0 { b.captures[0].start } else { usize::MAX };
            if cand_start < best_start || (cand_start == best_start && index <= b.index) {
                if b.index == index {
                    let mut merged: Vec<CaptureIndex> = Vec::new();
                    let mut k: usize = 0;
                    while k < caps.len()
                        invariant
                            k <= caps.len(),
                            captures_view(merged@) == merge_groups(captures_view(caps@), captures_view(b.captures@)).take(k as int),
                        decreases caps.len() - k,
                    {
                        let c = if 1 <= k && k < b.captures.len() && caps[k].end > caps[0].end {
                            b.captures[k]
                        } else {
                            caps[k]
                        };
                        let ghost before = merged@;
                        merged.push(c);
                        proof {
                            assert(captures_view(merged@) =~= captures_view(before).push((c.start, c.end, c.length)));
                            assert(merge_groups(captures_view(caps@), captures_view(b.captures@)).take(k + 1) =~= merge_groups(
                                captures_view(caps@),
                                captures_view(b.captures@),
                            ).take(k as int).push((c.start, c.end, c.length)));
                        }
                        k += 1;
                    }
                    assert(merge_groups(captures_view(caps@), captures_view(b.captures@)).take(k as int) =~= merge_groups(
                        captures_view(caps@),
                        captures_view(b.captures@),
                    ));
                    Some(ScanMatch { index, captures: merged })
                } else {
                    Some(ScanMatch { index, captures: caps })
                }
            } else {
                Some(b)
            }
        },
    }
}

impl<T: Copy> CompiledRule<T> {
    /// The patterns the rule was compiled from.
    pub closed spec fn spec_reg_exps(&self) -> Seq<Seq<char>> {
        strings_view(self.reg_exps@)
    }

    /// The rule each pattern stands for.
    pub closed spec fn spec_rules(&self) -> Seq<T> {
        self.rules@
    }

    /// The patterns the scanner holds.
    pub closed spec fn spec_scanner_patterns(&self) -> Seq<Seq<char>> {
        scanner_patterns(self.scanner)
    }

    /// Each pattern's direct regex (its pattern) and whether it refuses a
    /// match at the end of the line.
    pub closed spec fn spec_fallbacks(&self) -> Seq<Option<(Seq<char>, bool)>> {
        self.direct_fallbacks@.map_values(
            |f: Option<DirectFallback>| match f {
                Some(d) => Some((regex_pattern(d.regex), d.rejects_artificial_end)),
                None => None,
            },
        )
    }

    /// One pattern, rule, direct regex and scanner pattern per position.
    pub closed spec fn wf(&self) -> bool {
        &&& self.rules@.len() == self.reg_exps@.len()
        &&& self.direct_fallbacks@.len() == self.reg_exps@.len()
        &&& scanner_patterns(self.scanner).len() == self.reg_exps@.len()
    }

    /// Compiles the patterns: each is normalized; those that compile with
    /// the capture-group option (captures stabilized) get a direct regex;
    /// the scanner holds each normalized pattern, or a pattern that never
    /// matches where the pattern needs its direct regex.  None where
    /// ferroni refuses the scanner's patterns.
    pub fn new(reg_exps: Vec<String>, rules: Vec<T>) -> (r: Option<Self>)
        requires
            rules@.len() == reg_exps@.len(),
        ensures
            r is Some <==> scanner_compiles(normalized(strings_view(reg_exps@)).map_values(|p: Seq<char>| scanner_pattern_of(p))),
            r matches Some(c) ==> {
                &&& c.wf()
                &&& c.spec_reg_exps() == strings_view(reg_exps@)
                &&& c.spec_rules() == rules@
                &&& c.spec_fallbacks() == normalized(strings_view(reg_exps@)).map_values(|p: Seq<char>| fallback_of(p))
                &&& c.spec_scanner_patterns() == normalized(strings_view(reg_exps@)).map_values(|p: Seq<char>| scanner_pattern_of(p))
            },
    {
        let ghost norm = normalized(strings_view(reg_exps@));
        let mut direct_fallbacks: Vec<Option<DirectFallback>> = Vec::new();
        let mut scanner_reg_exps: Vec<String> = Vec::new();
        let mut k: usize = 0;
        while k < reg_exps.len()
            invariant
                k <= reg_exps.len(),
                norm == normalized(strings_view(reg_exps@)),
                direct_fallbacks@.len() == k,
                scanner_reg_exps@.len() == k,
                forall|j: int|
                    0 <= j < k ==> (match #[trigger] direct_fallbacks@[j] {
                        Some(d) => Some((regex_pattern(d.regex), d.rejects_artificial_end)),
                        None => None,
                    }) == fallback_of(norm[j]),
                forall|j: int| 0 <= j < k ==> #[trigger] scanner_reg_exps@[j]@ == scanner_pattern_of(norm[j]),
            decreases reg_exps.len() - k,
        {
            let pattern = normalize_ferroni_pattern(reg_exps[k].as_str());
            assert(pattern@ == norm[k as int]);
            let stabilized = stabilize_ferroni_captures(pattern.as_str());
            let direct = match capture_group_regex(stabilized.as_str()) {
                Some(regex) => Some(DirectFallback { regex, rejects_artificial_end: has_line_start_anchor(pattern.as_str()) }),
                None => None,
            };
            let has_direct = direct.is_some();
            let in_scanner = if compiles_plain(pattern.as_str()) || !has_direct {
                pattern
            } else {
                proof {
                    reveal_strlit("(?!)");
                }
                "(?!)".to_string()
            };
            direct_fallbacks.push(direct);
            scanner_reg_exps.push(in_scanner);
            k += 1;
        }
        let ghost scanner_view = norm.map_values(|p: Seq<char>| scanner_pattern_of(p));
        assert(strings_view(scanner_reg_exps@) =~= scanner_view);
        match new_scanner(&scanner_reg_exps) {
            Some(scanner) => {
                let c = CompiledRule { scanner, direct_fallbacks, reg_exps, rules };
                assert(c.spec_fallbacks() =~= norm.map_values(|p: Seq<char>| fallback_of(p)));
                Some(c)
            },
            None => None,
        }
    }

    /// The next match of the rule in the line from the UTF-16 offset
    /// `start_position` with the find options `options` (see `rule_match`),
    /// with the rule its pattern stands for.
    pub fn find_next_match(&mut self, string: &OnigString, start_position: usize, options: u32) -> (r: Option<FindNextMatchResult<T>>)
        requires
            old(self).wf(),
        ensures
            final(self).wf(),
            final(self).spec_reg_exps() == old(self).spec_reg_exps(),
            final(self).spec_rules() == old(self).spec_rules(),
            final(self).spec_fallbacks() == old(self).spec_fallbacks(),
            final(self).spec_scanner_patterns() == old(self).spec_scanner_patterns(),
            match (
                r,
                rule_match(
                    old(self).spec_reg_exps(),
                    old(self).spec_scanner_patterns(),
                    old(self).spec_fallbacks(),
                    onig_text(*string),
                    start_position,
                    options,
                ),
            ) {
                (Some(m), Some((index, caps))) => index < old(self).spec_rules().len() && m.rule_id == old(self).spec_rules()[index as int]
                    && captures_view(m.capture_indices@) == caps,
                (None, None) => true,
                _ => false,
            },
    {
        let ghost text = onig_text(*string);
        let line_len = line_utf16_len(string);
        let mut best = scanner_find(&mut self.scanner, string, start_position, options);
        let anchored_end = match &best {
            Some(m) => has_line_start_anchor(self.reg_exps[m.index].as_str()) && first_start(m) == line_len,
            None => false,
        };
        if anchored_end {
            best = None;
        }
        let ghost first = found_view(best);
        assert(first == scanner_first(self.spec_reg_exps(), self.spec_scanner_patterns(), text, start_position, options));
        if options == 0 {
            let mut k: usize = 0;
            while k < self.direct_fallbacks.len()
                invariant
                    k <= self.direct_fallbacks@.len(),
                    self.wf(),
                    text == onig_text(*string),
                    line_len == utf16_len(text),
                    found_view(best) == fallback_state(first, self.spec_fallbacks(), text, start_position, k as int),
                    best matches Some(m) ==> m.index < self.reg_exps@.len(),
                decreases self.direct_fallbacks@.len() - k,
            {
                match &self.direct_fallbacks[k] {
                    Some(fallback) => {
                        let found = find_direct_fallback(&fallback.regex, string, start_position);
                        best = fallback_step(best, found, k, fallback.rejects_artificial_end, line_len);
                    },
                    None => {},
                }
                k += 1;
            }
        }
        match best {
            Some(m) => Some(FindNextMatchResult { rule_id: self.rules[m.index], capture_indices: m.captures }),
            None => None,
        }
    }
}

} // verus!
