use vstd::prelude::*;

use ferroni::scanner::{OnigString, Scanner};

use crate::captures::{lowercase_text, to_lowercase, to_uppercase, uppercase_text, CaptureIndex};
use crate::injection::{strings_view, InjectionPriority};
use crate::rule_compiler::CompiledGrammar;
use crate::rules::Rule;
use crate::scanner::{
    collect_patterns, collected, find_next_match_ordered, match_view, onig_text, ordered_search, pair_patterns, scanner_compiles,
    first_start, new_scanner, pair_ids, pairs_view, view_start, CompiledScanner, ScanMatch,
};
use crate::rules::{parse_usize_text, usize_text_value};
use crate::text::{chars_of, push_str_chars, string_from_chars, sub_chars};
use crate::unicode::{char_utf8_width, lemma_utf8_len_prefix, lemma_utf8_len_push, utf8_len};

verus! {

broadcast use vstd::string::group_string_axioms;

// ---------------------------------------------------------------------
// Slicing text by byte offsets.

/// From position `i` on, the position of the character of `s` that starts
/// at byte `b` (the length of `s` for its end), where one does.
pub open spec fn char_at_byte(s: Seq<char>, b: int, i: int) -> Option<int>
    decreases s.len() + 1 - i,
{
    if i < 0 || i > s.len() {
        None
    } else if utf8_len(s.take(i)) == b {
        Some(i)
    } else if utf8_len(s.take(i)) > b {
        None
    } else {
        char_at_byte(s, b, i + 1)
    }
}

/// The text between bytes `a` and `b` of `s`, where both fall on
/// character boundaries and `a <= b` (as `str::get(a..b)`).
pub open spec fn byte_slice(s: Seq<char>, a: int, b: int) -> Option<Seq<char>> {
    match (char_at_byte(s, a, 0), char_at_byte(s, b, 0)) {
        (Some(i), Some(j)) => if i <= j {
            Some(s.subrange(i, j))
        } else {
            None
        },
        _ => None,
    }
}

fn char_position(chars: &Vec<char>, target: usize) -> (r: Option<usize>)
    requires
        utf8_len(chars@) <= usize::MAX,
    ensures
        match r {
            Some(i) => i <= chars.len() && char_at_byte(chars@, target as int, 0) == Some(i as int),
            None => char_at_byte(chars@, target as int, 0) is None,
        },
{
    let mut i: usize = 0;
    let mut off: usize = 0;
    loop
        invariant
            i <= chars.len(),
            utf8_len(chars@) <= usize::MAX,
            off == utf8_len(chars@.take(i as int)),
            char_at_byte(chars@, target as int, 0) == char_at_byte(chars@, target as int, i as int),
        decreases chars.len() - i,
    {
        if off == target {
            return Some(i);
        }
        if off > target || i == chars.len() {
            proof {
                if i == chars.len() && off < target {
                    assert(char_at_byte(chars@, target as int, i + 1) is None);
                }
            }
            return None;
        }
        proof {
            assert(chars@.take(i + 1) =~= chars@.take(i as int).push(chars@[i as int]));
            lemma_utf8_len_push(chars@.take(i as int), chars@[i as int]);
            lemma_utf8_len_prefix(chars@, i + 1);
        }
        off = off + char_utf8_width(chars[i]);
        i += 1;
    }
}

/// The text between bytes `start` and `end` of `s`, where both fall on
/// character boundaries and `start <= end`.
pub fn slice_bytes(s: &str, start: usize, end: usize) -> (r: Option<String>)
    ensures
        match r {
            Some(t) => byte_slice(s@, start as int, end as int) == Some(t@),
            None => byte_slice(s@, start as int, end as int) is None,
        },
{
    let total = s.as_bytes().len();
    let chars = chars_of(s);
    assert(total == utf8_len(chars@));
    let i = match char_position(&chars, start) {
        Some(i) => i,
        None => {
            return None;
        },
    };
    let j = match char_position(&chars, end) {
        Some(j) => j,
        None => {
            return None;
        },
    };
    if i <= j {
        Some(string_from_chars(sub_chars(chars.as_slice(), i, j).as_slice()))
    } else {
        None
    }
}

// ---------------------------------------------------------------------
// Captured text in patterns and names.

/// The text of the capture that `digits` numbers: the source between the
/// UTF-16 offsets of the capture, mapped to bytes by `map`; none where the
/// number does not parse, no such capture exists, it is empty, one of its
/// offsets is outside the map, or the bytes do not fall on character
/// boundaries.
pub open spec fn capture_text(digits: Seq<char>, caps: Seq<CaptureIndex>, map: Seq<usize>, code: Seq<char>) -> Option<Seq<char>> {
    match usize_text_value(digits) {
        None => None,
        Some(k) => if k >= caps.len() {
            None
        } else {
            let c = caps[k as int];
            if c.end <= c.start || c.start >= map.len() || c.end >= map.len() {
                None
            } else {
                byte_slice(code, map[c.start as int] as int, map[c.end as int] as int)
            }
        },
    }
}

/// The text of the capture that `digits` numbers (see `capture_text`).
pub fn resolve_capture_reference(
    digits: &str,
    capture_indices: &[CaptureIndex],
    utf16_map: &[usize],
    code: &str,
) -> (r: Option<String>)
    ensures
        match r {
            Some(t) => capture_text(digits@, capture_indices@, utf16_map@, code@) == Some(t@),
            None => capture_text(digits@, capture_indices@, utf16_map@, code@) is None,
        },
{
    let index = match parse_usize_text(digits) {
        Some(i) => i,
        None => {
            return None;
        },
    };
    if index >= capture_indices.len() {
        return None;
    }
    let range = &capture_indices[index];
    if range.end <= range.start || range.start >= utf16_map.len() || range.end >= utf16_map.len() {
        return None;
    }
    slice_bytes(code, utf16_map[range.start], utf16_map[range.end])
}

/// Whether `c` has a meaning in a regular expression.
pub open spec fn is_regex_special(c: char) -> bool {
    c == '\\' || c == '.' || c == '+' || c == '*' || c == '?' || c == '(' || c == ')' || c == '['
        || c == ']' || c == '{' || c == '}' || c == '^' || c == '$' || c == '|'
}

/// `s` with a backslash before every character that has a meaning in a
/// regular expression.
pub open spec fn regex_escaped(s: Seq<char>) -> Seq<char>
    decreases s.len(),
{
    if s.len() == 0 {
        Seq::empty()
    } else {
        regex_escaped(s.drop_last()) + if is_regex_special(s.last()) {
            seq!['\\', s.last()]
        } else {
            seq![s.last()]
        }
    }
}

fn push_escaped(out: &mut Vec<char>, s: &str)
    ensures
        final(out)@ == old(out)@ + regex_escaped(s@),
{
    let chars = chars_of(s);
    let ghost start = out@;
    let mut i: usize = 0;
    while i < chars.len()
        invariant
            i <= chars.len(),
            chars@ == s@,
            out@ == start + regex_escaped(chars@.take(i as int)),
        decreases chars.len() - i,
    {
        let ch = chars[i];
        let special = ch == '\\' || ch == '.' || ch == '+' || ch == '*' || ch == '?' || ch == '(' || ch == ')'
            || ch == '[' || ch == ']' || ch == '{' || ch == '}' || ch == '^' || ch == '$' || ch == '|';
        if special {
            out.push('\\');
        }
        out.push(ch);
        proof {
            let t = chars@.take(i + 1);
            assert(t.drop_last() =~= chars@.take(i as int));
            assert(t.last() == ch);
        }
        i += 1;
    }
    assert(chars@.take(i as int) =~= s@);
}

/// `input` with a backslash before every character that has a meaning in a
/// regular expression, so that it matches itself.
pub fn escape_regex_literal(input: &str) -> (r: String)
    ensures
        r@ == regex_escaped(input@),
{
    let mut out: Vec<char> = Vec::new();
    push_escaped(&mut out, input);
    assert(out@ =~= regex_escaped(input@));
    string_from_chars(out.as_slice())
}

/// From position `j` on, the first position of `p` that does not hold an
/// ASCII digit.
pub open spec fn digits_end(p: Seq<char>, j: int) -> int
    decreases p.len() - j,
{
    if j < 0 || j >= p.len() {
        if j < 0 { 0 } else { j }
    } else if '0' <= p[j] && p[j] <= '9' {
        digits_end(p, j + 1)
    } else {
        j
    }
}

/// `p` from position `i` on with each backslash followed by digits
/// replaced by the escaped text of the capture they number (dropped where
/// there is no such text); a backslash without digits stays.
pub open spec fn pattern_backrefs_from(p: Seq<char>, i: int, caps: Seq<CaptureIndex>, map: Seq<usize>, code: Seq<char>) -> Seq<char>
    decreases p.len() - i,
{
    if i < 0 || i >= p.len() {
        Seq::empty()
    } else if p[i] != '\\' {
        seq![p[i]] + pattern_backrefs_from(p, i + 1, caps, map, code)
    } else {
        let e = digits_end(p, i + 1);
        proof {
            lemma_digits_end(p, i + 1);
        }
        if e <= i + 1 {
            seq!['\\'] + pattern_backrefs_from(p, i + 1, caps, map, code)
        } else {
            match capture_text(p.subrange(i + 1, e), caps, map, code) {
                Some(t) => regex_escaped(t) + pattern_backrefs_from(p, e, caps, map, code),
                None => pattern_backrefs_from(p, e, caps, map, code),
            }
        }
    }
}

pub proof fn lemma_digits_end(p: Seq<char>, j: int)
    requires
        0 <= j <= p.len(),
    ensures
        j <= digits_end(p, j) <= p.len(),
        forall|k: int| j <= k < digits_end(p, j) ==> '0' <= #[trigger] p[k] && p[k] <= '9',
        digits_end(p, j) < p.len() ==> !('0' <= p[digits_end(p, j)] && p[digits_end(p, j)] <= '9'),
    decreases p.len() - j,
{
    if j < p.len() && '0' <= p[j] && p[j] <= '9' {
        lemma_digits_end(p, j + 1);
    }
}

fn scan_digits_from(p: &Vec<char>, j: usize) -> (r: usize)
    requires
        j <= p.len(),
    ensures
        r == digits_end(p@, j as int),
        j <= r <= p.len(),
{
    let mut k = j;
    while k < p.len() && '0' <= p[k] && p[k] <= '9'
        invariant
            j <= k <= p.len(),
            digits_end(p@, j as int) == digits_end(p@, k as int),
        decreases p.len() - k,
    {
        k += 1;
    }
    proof {
        lemma_digits_end(p@, k as int);
    }
    k
}

/// `pattern` with each backslash followed by digits replaced by the
/// escaped text of the capture they number, so that the pattern matches
/// that text literally (see `pattern_backrefs_from`).
pub fn resolve_pattern_backrefs(
    pattern: &str,
    capture_indices: &[CaptureIndex],
    utf16_map: &[usize],
    code: &str,
) -> (r: String)
    ensures
        r@ == pattern_backrefs_from(pattern@, 0, capture_indices@, utf16_map@, code@),
{
    let p = chars_of(pattern);
    let ghost total = pattern_backrefs_from(p@, 0, capture_indices@, utf16_map@, code@);
    let mut out: Vec<char> = Vec::new();
    let mut i: usize = 0;
    while i < p.len()
        invariant
            i <= p.len(),
            total == pattern_backrefs_from(p@, 0, capture_indices@, utf16_map@, code@),
            total == out@ + pattern_backrefs_from(p@, i as int, capture_indices@, utf16_map@, code@),
        decreases p.len() - i,
    {
        let ghost rest = pattern_backrefs_from(p@, i as int, capture_indices@, utf16_map@, code@);
        if p[i] != '\\' {
            out.push(p[i]);
            i += 1;
            proof {
                assert(total =~= out@ + pattern_backrefs_from(p@, i as int, capture_indices@, utf16_map@, code@));
            }
        } else {
            let e = scan_digits_from(&p, i + 1);
            if e == i + 1 {
                out.push('\\');
                i += 1;
                proof {
                    assert(total =~= out@ + pattern_backrefs_from(p@, i as int, capture_indices@, utf16_map@, code@));
                }
            } else {
                let digits = string_from_chars(sub_chars(p.as_slice(), i + 1, e).as_slice());
                let ghost before = out@;
                match resolve_capture_reference(digits.as_str(), capture_indices, utf16_map, code) {
                    Some(captured) => {
                        push_escaped(&mut out, captured.as_str());
                    },
                    None => {},
                }
                i = e;
                proof {
                    assert(total =~= out@ + pattern_backrefs_from(p@, i as int, capture_indices@, utf16_map@, code@));
                }
            }
        }
    }
    proof {
        assert(out@ =~= total);
    }
    string_from_chars(out.as_slice())
}

// ---------------------------------------------------------------------
// Captured text in scope names: `$n`, `${n}` and `${n:/downcase}` or
// `${n:/upcase}`.  The name is read byte by byte; each byte that is copied
// becomes the character with its code.

/// The characters with the codes of the bytes.
pub open spec fn byte_chars(b: Seq<u8>) -> Seq<char> {
    b.map_values(|x: u8| x as char)
}

pub open spec fn is_digit_byte(x: u8) -> bool {
    48 <= x && x <= 57
}

/// From position `j` on, the first position of `b` that does not hold an
/// ASCII digit.
pub open spec fn byte_digits_end(b: Seq<u8>, j: int) -> int
    decreases b.len() - j,
{
    if j < 0 || j >= b.len() {
        if j < 0 { 0 } else { j }
    } else if is_digit_byte(b[j]) {
        byte_digits_end(b, j + 1)
    } else {
        j
    }
}

/// From position `j` on, the first position of `b` that holds `x`, else
/// the length of `b`.
pub open spec fn byte_find(b: Seq<u8>, x: u8, j: int) -> int
    decreases b.len() - j,
{
    if j < 0 || j >= b.len() {
        if j < 0 { 0 } else { j }
    } else if b[j] == x {
        j
    } else {
        byte_find(b, x, j + 1)
    }
}

pub proof fn lemma_byte_scans(b: Seq<u8>, x: u8, j: int)
    requires
        0 <= j <= b.len(),
    ensures
        j <= byte_digits_end(b, j) <= b.len(),
        j <= byte_find(b, x, j) <= b.len(),
    decreases b.len() - j,
{
    if j < b.len() {
        lemma_byte_scans(b, x, j + 1);
    }
}

/// In a reference `${` at `i`, the end of its digits.
pub open spec fn brace_digits_end(b: Seq<u8>, i: int) -> int {
    byte_digits_end(b, i + 2)
}

/// Whether a transform `:/` follows the digits (with something after it).
pub open spec fn has_transform(b: Seq<u8>, i: int) -> bool {
    let d = brace_digits_end(b, i);
    d + 2 < b.len() && b[d] == 58 && b[d + 1] == 47
}

/// The position where the reference `${` at `i` should close.
pub open spec fn brace_close(b: Seq<u8>, i: int) -> int {
    if has_transform(b, i) {
        byte_find(b, 125, brace_digits_end(b, i) + 2)
    } else {
        brace_digits_end(b, i)
    }
}

/// The captured text under the transform of the reference at `i`:
/// `downcase` and `upcase` change its case; any other leaves it.
pub open spec fn transformed(t: Seq<char>, b: Seq<u8>, i: int) -> Seq<char> {
    if has_transform(b, i) {
        let name = byte_chars(b.subrange(brace_digits_end(b, i) + 2, brace_close(b, i)));
        if name == "downcase"@ {
            lowercase_text(t)
        } else if name == "upcase"@ {
            uppercase_text(t)
        } else {
            t
        }
    } else {
        t
    }
}

/// Whether a `${...}` reference at `i` is complete and its capture has text.
pub open spec fn braced_resolves(b: Seq<u8>, i: int, caps: Seq<CaptureIndex>, map: Seq<usize>, code: Seq<char>) -> bool {
    &&& i + 1 < b.len()
    &&& b[i + 1] == 123
    &&& brace_close(b, i) < b.len()
    &&& b[brace_close(b, i)] == 125
    &&& capture_text(byte_chars(b.subrange(i + 2, brace_digits_end(b, i))), caps, map, code) is Some
}

/// The name from byte `i` on with each reference to a capture that has
/// text replaced by the text; a `$` that starts no such reference stays.
pub open spec fn name_backrefs_from(b: Seq<u8>, i: int, caps: Seq<CaptureIndex>, map: Seq<usize>, code: Seq<char>) -> Seq<char>
    decreases b.len() - i,
{
    if i < 0 || i >= b.len() {
        Seq::empty()
    } else if b[i] != 36 {
        seq![b[i] as char] + name_backrefs_from(b, i + 1, caps, map, code)
    } else if i + 1 >= b.len() {
        seq!['$'] + name_backrefs_from(b, i + 1, caps, map, code)
    } else {
        proof {
            lemma_byte_scans(b, 125, i + 2);
            lemma_byte_scans(b, 125, i + 1);
            if has_transform(b, i) {
                lemma_byte_scans(b, 125, brace_digits_end(b, i) + 2);
            }
        }
        if braced_resolves(b, i, caps, map, code) {
            transformed(
                capture_text(byte_chars(b.subrange(i + 2, brace_digits_end(b, i))), caps, map, code).unwrap(),
                b,
                i,
            ) + name_backrefs_from(b, brace_close(b, i) + 1, caps, map, code)
        } else {
            let e = byte_digits_end(b, i + 1);
            match capture_text(byte_chars(b.subrange(i + 1, e)), caps, map, code) {
                Some(t) => t + name_backrefs_from(b, e, caps, map, code),
                None => seq!['$'] + name_backrefs_from(b, i + 1, caps, map, code),
            }
        }
    }
}

fn byte_digits_from(b: &[u8], j: usize) -> (r: usize)
    requires
        j <= b@.len(),
    ensures
        r == byte_digits_end(b@, j as int),
{
    let mut k = j;
    while k < b.len() && 48 <= b[k] && b[k] <= 57
        invariant
            j <= k <= b@.len(),
            byte_digits_end(b@, j as int) == byte_digits_end(b@, k as int),
        decreases b@.len() - k,
    {
        k += 1;
    }
    k
}

fn byte_find_from(b: &[u8], x: u8, j: usize) -> (r: usize)
    requires
        j <= b@.len(),
    ensures
        r == byte_find(b@, x, j as int),
{
    let mut k = j;
    while k < b.len() && b[k] != x
        invariant
            j <= k <= b@.len(),
            byte_find(b@, x, j as int) == byte_find(b@, x, k as int),
        decreases b@.len() - k,
    {
        k += 1;
    }
    k
}

fn byte_text(b: &[u8], from: usize, to: usize) -> (r: String)
    requires
        from <= to <= b@.len(),
    ensures
        r@ == byte_chars(b@.subrange(from as int, to as int)),
{
    let mut out: Vec<char> = Vec::new();
    let mut k = from;
    while k < to
        invariant
            from <= k <= to,
            to <= b@.len(),
            out@ == byte_chars(b@.subrange(from as int, k as int)),
        decreases to - k,
    {
        out.push(b[k] as char);
        assert(byte_chars(b@.subrange(from as int, k + 1)) =~= byte_chars(b@.subrange(from as int, k as int)).push(b@[k as int] as char));
        k += 1;
    }
    string_from_chars(out.as_slice())
}

/// `pattern` (a scope name) with each `$n`, `${n}`, `${n:/downcase}` and
/// `${n:/upcase}` whose capture has text replaced by that text, in lower or
/// upper case for the transforms (see `name_backrefs_from`).
pub fn resolve_capture_name_backrefs(
    pattern: &str,
    capture_indices: &[CaptureIndex],
    utf16_map: &[usize],
    code: &str,
) -> (r: String)
    ensures
        r@ == name_backrefs_from(vstd::utf8::encode_utf8(pattern@), 0, capture_indices@, utf16_map@, code@),
{
    let b = pattern.as_bytes();
    let ghost bs = b@;
    let ghost total = name_backrefs_from(bs, 0, capture_indices@, utf16_map@, code@);
    let mut out: Vec<char> = Vec::new();
    let mut index: usize = 0;
    while index < b.len()
        invariant
            index <= b@.len(),
            bs == b@,
            total == name_backrefs_from(bs, 0, capture_indices@, utf16_map@, code@),
            total == out@ + name_backrefs_from(bs, index as int, capture_indices@, utf16_map@, code@),
        decreases b@.len() - index,
    {
        let ghost i = index as int;
        if b[index] != 36 {
            out.push(b[index] as char);
            index += 1;
            assert(total =~= out@ + name_backrefs_from(bs, index as int, capture_indices@, utf16_map@, code@));
            continue;
        }
        if index + 1 >= b.len() {
            out.push('$');
            index += 1;
            assert(total =~= out@ + name_backrefs_from(bs, index as int, capture_indices@, utf16_map@, code@));
            continue;
        }
        proof {
            lemma_byte_scans(bs, 125, i + 2);
            lemma_byte_scans(bs, 125, i + 1);
        }
        if b[index + 1] == 123 {
            let digits_end = byte_digits_from(b, index + 2);
            let mut cursor = digits_end;
            let mut transform: usize = 0;
            if b.len() - cursor > 2 && b[cursor] == 58 && b[cursor + 1] == 47 {
                proof {
                    lemma_byte_scans(bs, 125, digits_end + 2);
                }
                let close = byte_find_from(b, 125, cursor + 2);
                let name = byte_text(b, cursor + 2, close);
                if crate::text::str_eq(name.as_str(), "downcase") {
                    transform = 1;
                } else if crate::text::str_eq(name.as_str(), "upcase") {
                    transform = 2;
                }
                cursor = close;
            }
            assert(cursor == brace_close(bs, i));
            if cursor < b.len() && b[cursor] == 125 {
                let digits = byte_text(b, index + 2, digits_end);
                if let Some(captured) = resolve_capture_reference(digits.as_str(), capture_indices, utf16_map, code) {
                    let ghost before = out@;
                    if transform == 1 {
                        let lower = to_lowercase(captured.as_str());
                        push_str_chars(&mut out, lower.as_str());
                    } else if transform == 2 {
                        let upper = to_uppercase(captured.as_str());
                        push_str_chars(&mut out, upper.as_str());
                    } else {
                        push_str_chars(&mut out, captured.as_str());
                    }
                    assert(out@ == before + transformed(captured@, bs, i));
                    index = cursor + 1;
                    assert(total =~= out@ + name_backrefs_from(bs, index as int, capture_indices@, utf16_map@, code@));
                    continue;
                }
            }
            assert(!braced_resolves(bs, i, capture_indices@, utf16_map@, code@));
        } else {
            assert(!braced_resolves(bs, i, capture_indices@, utf16_map@, code@));
        }
        let cursor = byte_digits_from(b, index + 1);
        let digits = byte_text(b, index + 1, cursor);
        if let Some(captured) = resolve_capture_reference(digits.as_str(), capture_indices, utf16_map, code) {
            push_str_chars(&mut out, captured.as_str());
            index = cursor;
            assert(total =~= out@ + name_backrefs_from(bs, index as int, capture_indices@, utf16_map@, code@));
            continue;
        }
        out.push('$');
        index += 1;
        assert(total =~= out@ + name_backrefs_from(bs, index as int, capture_indices@, utf16_map@, code@));
    }
    assert(out@ =~= total);
    string_from_chars(out.as_slice())
}

// ---------------------------------------------------------------------
// Styled slices of a match.

/// A token of the JSON output: its text, its UTF-16 length and offset,
/// its color and font style, and its color in a second theme.
#[derive(Clone, Debug, PartialEq, Eq)]
pub struct StyledJsonToken {
    pub content: String,
    pub content_utf16_len: usize,
    pub offset_utf16: usize,
    pub color: String,
    pub font_style: u8,
    pub dark_color: Option<String>,
}

/// A styled token as plain values.
pub struct StyledView {
    pub content: Seq<char>,
    pub utf16_len: usize,
    pub offset: usize,
    pub color: Seq<char>,
    pub font_style: u8,
    pub dark_color: Option<Seq<char>>,
}

pub open spec fn styled_view(t: StyledJsonToken) -> StyledView {
    StyledView {
        content: t.content@,
        utf16_len: t.content_utf16_len,
        offset: t.offset_utf16,
        color: t.color@,
        font_style: t.font_style,
        dark_color: match t.dark_color {
            Some(c) => Some(c@),
            None => None,
        },
    }
}

pub open spec fn styled_views(ts: Seq<StyledJsonToken>) -> Seq<StyledView> {
    ts.map_values(|t: StyledJsonToken| styled_view(t))
}

/// The token for the UTF-16 range `start..end` of `code`: none where the
/// range is empty, its end is outside the map or its text is empty; a
/// failure where its bytes do not fall on character boundaries.
pub open spec fn styled_slice(map: Seq<usize>, code: Seq<char>, start: usize, end: usize, color: Seq<char>, font_style: u8) -> Result<Option<StyledView>, ()> {
    if end <= start || end >= map.len() {
        Ok(None)
    } else {
        match byte_slice(code, map[start as int] as int, map[end as int] as int) {
            None => Err(()),
            Some(content) => if content.len() == 0 {
                Ok(None)
            } else {
                Ok(Some(StyledView {
                    content,
                    utf16_len: (end - start) as usize,
                    offset: start,
                    color,
                    font_style,
                    dark_color: None,
                }))
            },
        }
    }
}

/// The tokens pushed so far, and whether every slice could be cut.
pub open spec fn with_slice(pushed: Seq<StyledView>, r: Result<Option<StyledView>, ()>) -> (Seq<StyledView>, bool) {
    match r {
        Err(_) => (pushed, false),
        Ok(None) => (pushed, true),
        Ok(Some(t)) => (pushed.push(t), true),
    }
}

/// Pushes the token for the UTF-16 range `start..end` of `code` (see
/// `styled_slice`); fails, pushing nothing, where the range's bytes do not
/// fall on character boundaries.
pub fn push_styled_slice(
    out: &mut Vec<StyledJsonToken>,
    utf16_map: &[usize],
    code: &str,
    start_utf16: usize,
    end_utf16: usize,
    color: &str,
    font_style: u8,
) -> (r: Result<(), String>)
    ensures
        ({
            let (pushed, ok) = with_slice(styled_views(old(out)@), styled_slice(utf16_map@, code@, start_utf16, end_utf16, color@, font_style));
            &&& styled_views(final(out)@) == pushed
            &&& r is Ok == ok
            &&& r matches Err(e) ==> e@ == "Ferriki grammar tokenizer failed to slice source text."@
        }),
{
    if end_utf16 <= start_utf16 || end_utf16 >= utf16_map.len() {
        return Ok(());
    }
    let start_byte = utf16_map[start_utf16];
    let end_byte = utf16_map[end_utf16];
    let content = match slice_bytes(code, start_byte, end_byte) {
        Some(c) => c,
        None => {
            return Err("Ferriki grammar tokenizer failed to slice source text.".to_string());
        },
    };
    if content.as_str().is_empty() {
        return Ok(());
    }
    let ghost before = out@;
    let token = StyledJsonToken {
        content,
        content_utf16_len: end_utf16 - start_utf16,
        offset_utf16: start_utf16,
        color: color.to_string(),
        font_style,
        dark_color: None,
    };
    out.push(token);
    assert(styled_views(out@) =~= styled_views(before).push(styled_view(token)));
    Ok(())
}

/// A styled range of a match, in UTF-16 offsets.
pub struct CaptureRange {
    pub start: usize,
    pub end: usize,
    pub color: String,
    pub font_style: u8,
}

/// A styled range as plain values.
pub struct RangeView {
    pub start: usize,
    pub end: usize,
    pub color: Seq<char>,
    pub font_style: u8,
}

pub open spec fn range_view(c: CaptureRange) -> RangeView {
    RangeView { start: c.start, end: c.end, color: c.color@, font_style: c.font_style }
}

pub open spec fn range_views(cs: Seq<CaptureRange>) -> Seq<RangeView> {
    cs.map_values(|c: CaptureRange| range_view(c))
}

/// Whether `a` comes after `b` by start, then end.
pub open spec fn range_after(a: RangeView, b: RangeView) -> bool {
    a.start > b.start || (a.start == b.start && a.end > b.end)
}

/// From position `from` on, the first range of `sorted` that comes after
/// `x`; the length of `sorted` where none does.
pub open spec fn range_slot(sorted: Seq<RangeView>, x: RangeView, from: int) -> int
    decreases sorted.len() - from,
{
    if from < 0 || from >= sorted.len() {
        if from < 0 { 0 } else { sorted.len() as int }
    } else if range_after(sorted[from], x) {
        from
    } else {
        range_slot(sorted, x, from + 1)
    }
}

/// The ranges ordered by start, then end, equal ones in their given order
/// (as a stable sort).
pub open spec fn sorted_ranges(rs: Seq<RangeView>) -> Seq<RangeView>
    decreases rs.len(),
{
    if rs.len() == 0 {
        Seq::empty()
    } else {
        let sorted = sorted_ranges(rs.drop_last());
        sorted.insert(range_slot(sorted, rs.last(), 0), rs.last())
    }
}

pub proof fn lemma_range_slot(sorted: Seq<RangeView>, x: RangeView, from: int)
    requires
        0 <= from <= sorted.len(),
    ensures
        from <= range_slot(sorted, x, from) <= sorted.len(),
    decreases sorted.len() - from,
{
    if from < sorted.len() && !range_after(sorted[from], x) {
        lemma_range_slot(sorted, x, from + 1);
    }
}

pub proof fn lemma_sorted_ranges_len(rs: Seq<RangeView>)
    ensures
        sorted_ranges(rs).len() == rs.len(),
    decreases rs.len(),
{
    if rs.len() > 0 {
        lemma_sorted_ranges_len(rs.drop_last());
        lemma_range_slot(sorted_ranges(rs.drop_last()), rs.last(), 0);
    }
}

/// The state of cutting a match into styled slices: the tokens pushed, the
/// cursor, and whether every slice could be cut so far.
pub open spec fn range_step(
    state: (Seq<StyledView>, usize, bool),
    cr: RangeView,
    map: Seq<usize>,
    code: Seq<char>,
    base_color: Seq<char>,
    base_font_style: u8,
) -> (Seq<StyledView>, usize, bool) {
    let (pushed, cursor, ok) = state;
    if !ok {
        state
    } else {
        let (p1, ok1) = if cr.start > cursor {
            with_slice(pushed, styled_slice(map, code, cursor, cr.start, base_color, base_font_style))
        } else {
            (pushed, true)
        };
        if !ok1 {
            (p1, cursor, false)
        } else {
            let segment_start = if cr.start > cursor { cr.start } else { cursor };
            if cr.end > segment_start {
                let (p2, ok2) = with_slice(p1, styled_slice(map, code, segment_start, cr.end, cr.color, cr.font_style));
                (p2, if ok2 { cr.end } else { cursor }, ok2)
            } else {
                (p1, cursor, true)
            }
        }
    }
}

/// The state after the first `n` ranges.
pub open spec fn ranges_state(
    start: (Seq<StyledView>, usize, bool),
    sorted: Seq<RangeView>,
    n: int,
    map: Seq<usize>,
    code: Seq<char>,
    base_color: Seq<char>,
    base_font_style: u8,
) -> (Seq<StyledView>, usize, bool)
    decreases n,
{
    if n <= 0 || n > sorted.len() {
        start
    } else {
        range_step(ranges_state(start, sorted, n - 1, map, code, base_color, base_font_style), sorted[n - 1], map, code, base_color, base_font_style)
    }
}

/// The tokens that cutting the match `match_start..match_end` into the
/// sorted capture ranges (the gaps in the base style) pushes after
/// `pushed`, and whether every slice could be cut.
pub open spec fn match_slices(
    pushed: Seq<StyledView>,
    map: Seq<usize>,
    code: Seq<char>,
    match_start: usize,
    match_end: usize,
    base_color: Seq<char>,
    base_font_style: u8,
    ranges: Seq<RangeView>,
) -> (Seq<StyledView>, bool) {
    let sorted = sorted_ranges(ranges);
    let (p, cursor, ok) = ranges_state((pushed, match_start, true), sorted, sorted.len() as int, map, code, base_color, base_font_style);
    if !ok {
        (p, false)
    } else if match_end > cursor {
        with_slice(p, styled_slice(map, code, cursor, match_end, base_color, base_font_style))
    } else {
        (p, true)
    }
}

fn sort_ranges(ranges: Vec<CaptureRange>) -> (r: Vec<CaptureRange>)
    ensures
        range_views(r@) == sorted_ranges(range_views(ranges@)),
{
    let ghost order = range_views(ranges@);
    let mut rest = ranges;
    let mut sorted: Vec<CaptureRange> = Vec::new();
    let ghost mut k: int = 0;
    proof {
        assert(order.take(0) =~= Seq::<RangeView>::empty());
        assert(range_views(sorted@) =~= Seq::<RangeView>::empty());
        assert(order.subrange(0, order.len() as int) =~= order);
    }
    while rest.len() > 0
        invariant
            0 <= k <= order.len(),
            range_views(rest@) == order.subrange(k, order.len() as int),
            range_views(sorted@) == sorted_ranges(order.take(k)),
        decreases rest.len(),
    {
        let ghost before_rest = rest@;
        let x = rest.remove(0);
        let ghost xv = range_view(x);
        proof {
            assert(range_views(before_rest)[0] == xv);
            assert(range_views(before_rest).len() == before_rest.len());
            assert(k < order.len());
            assert(order.subrange(k, order.len() as int)[0] == order[k]);
            assert(order[k] == xv);
            assert(rest@ =~= before_rest.subrange(1, before_rest.len() as int));
            assert(range_views(rest@) =~= range_views(before_rest).subrange(1, before_rest.len() as int));
            assert(range_views(rest@) =~= order.subrange(k + 1, order.len() as int));
            assert(order.take(k + 1).drop_last() =~= order.take(k));
            assert(order.take(k + 1).last() == order[k]);
        }
        let ghost sv = range_views(sorted@);
        let mut slot: usize = 0;
        while slot < sorted.len() && !(sorted[slot].start > x.start || (sorted[slot].start == x.start && sorted[slot].end > x.end))
            invariant
                slot <= sorted.len(),
                sv == range_views(sorted@),
                range_slot(sv, xv, 0) == range_slot(sv, xv, slot as int),
                xv == range_view(x),
            decreases sorted.len() - slot,
        {
            assert(sv[slot as int] == range_view(sorted@[slot as int]));
            slot += 1;
        }
        proof {
            if slot < sorted.len() {
                assert(sv[slot as int] == range_view(sorted@[slot as int]));
            }
        }
        sorted.insert(slot, x);
        proof {
            assert(range_views(sorted@) =~= sv.insert(slot as int, xv));
            k = k + 1;
        }
    }
    proof {
        assert(order.subrange(k, order.len() as int).len() == 0);
        assert(order.take(k) =~= order);
    }
    sorted
}

/// Cuts the match `match_start..match_end` into styled tokens: each
/// capture range (ordered by start, then end) in its own style, the gaps
/// in the base style; the part of a range that an earlier one covers is
/// left to the earlier.  Stops at the first slice whose bytes do not fall
/// on character boundaries, keeping what it pushed before.
pub fn push_with_capture_ranges(
    out: &mut Vec<StyledJsonToken>,
    utf16_map: &[usize],
    code: &str,
    match_start_utf16: usize,
    match_end_utf16: usize,
    base_color: &str,
    base_font_style: u8,
    capture_ranges: Vec<CaptureRange>,
) -> (r: Result<(), String>)
    ensures
        ({
            let (pushed, ok) = match_slices(
                styled_views(old(out)@),
                utf16_map@,
                code@,
                match_start_utf16,
                match_end_utf16,
                base_color@,
                base_font_style,
                range_views(capture_ranges@),
            );
            &&& styled_views(final(out)@) == pushed
            &&& r is Ok == ok
        }),
{
    let ghost rv = range_views(capture_ranges@);
    let sorted = sort_ranges(capture_ranges);
    let ghost sv = range_views(sorted@);
    proof {
        lemma_sorted_ranges_len(rv);
    }
    let ghost start = (styled_views(out@), match_start_utf16, true);
    let mut cursor = match_start_utf16;
    let mut i: usize = 0;
    while i < sorted.len()
        invariant
            i <= sorted.len(),
            sv == range_views(sorted@),
            sv == sorted_ranges(rv),
            rv == range_views(capture_ranges@),
            start == (styled_views(old(out)@), match_start_utf16, true),
            sv.len() == rv.len(),
            ranges_state(start, sv, i as int, utf16_map@, code@, base_color@, base_font_style) == (styled_views(out@), cursor, true),
        decreases sorted.len() - i,
    {
        let cr = &sorted[i];
        assert(sv[i as int] == range_view(*cr));
        if cr.start > cursor {
            match push_styled_slice(out, utf16_map, code, cursor, cr.start, base_color, base_font_style) {
                Ok(()) => {},
                Err(e) => {
                    proof {
                        assert(!ranges_state(start, sv, i + 1, utf16_map@, code@, base_color@, base_font_style).2);
                        assert(styled_views(out@) == ranges_state(start, sv, i + 1, utf16_map@, code@, base_color@, base_font_style).0);
                        lemma_ranges_state_stays_failed(start, sv, i + 1, sv.len() as int, utf16_map@, code@, base_color@, base_font_style);
                    }
                    return Err(e);
                },
            }
        }
        let segment_start = if cr.start > cursor { cr.start } else { cursor };
        if cr.end > segment_start {
            match push_styled_slice(out, utf16_map, code, segment_start, cr.end, cr.color.as_str(), cr.font_style) {
                Ok(()) => {},
                Err(e) => {
                    proof {
                        assert(!ranges_state(start, sv, i + 1, utf16_map@, code@, base_color@, base_font_style).2);
                        assert(styled_views(out@) == ranges_state(start, sv, i + 1, utf16_map@, code@, base_color@, base_font_style).0);
                        lemma_ranges_state_stays_failed(start, sv, i + 1, sv.len() as int, utf16_map@, code@, base_color@, base_font_style);
                    }
                    return Err(e);
                },
            }
            cursor = cr.end;
        }
        i += 1;
    }
    if match_end_utf16 > cursor {
        return push_styled_slice(out, utf16_map, code, cursor, match_end_utf16, base_color, base_font_style);
    }
    Ok(())
}

proof fn lemma_ranges_state_stays_failed(
    start: (Seq<StyledView>, usize, bool),
    sorted: Seq<RangeView>,
    n: int,
    m: int,
    map: Seq<usize>,
    code: Seq<char>,
    base_color: Seq<char>,
    base_font_style: u8,
)
    requires
        0 < n <= m <= sorted.len(),
        !ranges_state(start, sorted, n, map, code, base_color, base_font_style).2,
    ensures
        ranges_state(start, sorted, m, map, code, base_color, base_font_style) == ranges_state(start, sorted, n, map, code, base_color, base_font_style),
    decreases m - n,
{
    if n < m {
        lemma_ranges_state_stays_failed(start, sorted, n, m - 1, map, code, base_color, base_font_style);
    }
}

// ---------------------------------------------------------------------
// Injections at a position.

/// The rule ids of the patterns that the injection rule `rule_id` stands
/// for, in scanner order.
pub open spec fn injection_pattern_ids(rules: Seq<Option<Rule>>, rule_id: i32) -> Seq<i32> {
    pair_ids(injection_pairs(rules, rule_id))
}

/// The (pattern, rule id) pairs that the injection rule `rule_id` stands
/// for, in scanner order.
pub open spec fn injection_pairs(rules: Seq<Option<Rule>>, rule_id: i32) -> Seq<(Seq<char>, i32)> {
    collected(rules, rule_id, Seq::empty(), (rules.len() * 257) as nat)
}

/// The rule that a match of an injection's scanner stands for: the rule of
/// its pattern, or 0 where there is none.
pub open spec fn matched_rule(ids: Seq<i32>, m: (usize, Seq<(usize, usize, usize)>)) -> i32 {
    if m.0 < ids.len() {
        ids[m.0 as int]
    } else {
        0
    }
}

/// Whether a match at `start` with priority `priority` loses to the best
/// so far: it starts later, or as early while the best has left priority
/// and it has not.
pub open spec fn injection_dominated(
    start: usize,
    priority: InjectionPriority,
    best: Option<((usize, Seq<(usize, usize, usize)>), i32, usize, InjectionPriority)>,
) -> bool {
    match best {
        None => false,
        Some((_, _, best_start, best_priority)) => if start < best_start {
            false
        } else if start == best_start {
            best_priority == InjectionPriority::Left && priority != InjectionPriority::Left
        } else {
            true
        },
    }
}

/// One step of the injection search: a match (with the rule it stands for)
/// of an injection with priority `priority` replaces the best unless it is
/// dominated; the search stops at a left-priority match at the cursor.
pub open spec fn injection_next(
    best: Option<((usize, Seq<(usize, usize, usize)>), i32, usize, InjectionPriority)>,
    found: Option<((usize, Seq<(usize, usize, usize)>), i32)>,
    priority: InjectionPriority,
    cursor: usize,
) -> (Option<((usize, Seq<(usize, usize, usize)>), i32, usize, InjectionPriority)>, bool) {
    match found {
        None => (best, false),
        Some((m, id)) => {
            let start = view_start(m);
            if injection_dominated(start, priority, best) {
                (best, false)
            } else {
                (Some((m, id, start, priority)), start == cursor && priority == InjectionPriority::Left)
            }
        },
    }
}

/// The best injection match after the first `n` active injections, each of
/// which found `outcomes[k]`, and whether the search stopped (see
/// `injection_next`).
pub open spec fn injection_state(
    outcomes: Seq<Option<(usize, Seq<(usize, usize, usize)>)>>,
    active: Seq<(i32, InjectionPriority)>,
    rules: Seq<Option<Rule>>,
    n: int,
    cursor: usize,
) -> (Option<((usize, Seq<(usize, usize, usize)>), i32, usize, InjectionPriority)>, bool)
    decreases n,
{
    if n <= 0 || n > outcomes.len() || n > active.len() {
        (None, false)
    } else {
        let (best, stopped) = injection_state(outcomes, active, rules, n - 1, cursor);
        if stopped {
            (best, true)
        } else {
            let found = match outcomes[n - 1] {
                Some(m) => Some((m, matched_rule(injection_pattern_ids(rules, active[n - 1].0), m))),
                None => None,
            };
            injection_next(best, found, active[n - 1].1, cursor)
        }
    }
}

/// What the active injection with rule `rule_id` finds: the ordered search
/// with the scanner of its patterns, nothing where it has none or they do
/// not compile.
pub open spec fn injection_outcome(rules: Seq<Option<Rule>>, rule_id: i32, text: Seq<char>, cursor: usize, options: u32) -> Option<
    (usize, Seq<(usize, usize, usize)>),
> {
    let patterns = pair_patterns(injection_pairs(rules, rule_id));
    if patterns.len() > 0 && scanner_compiles(patterns) {
        ordered_search(patterns, text, cursor, options)
    } else {
        None
    }
}

/// What each active injection finds, in order.
pub open spec fn injection_outcomes(
    rules: Seq<Option<Rule>>,
    active: Seq<(i32, InjectionPriority)>,
    text: Seq<char>,
    cursor: usize,
    options: u32,
) -> Seq<Option<(usize, Seq<(usize, usize, usize)>)>> {
    Seq::new(active.len(), |k: int| injection_outcome(rules, active[k].0, text, cursor, options))
}

/// The match, rule and priority of a state's best.
pub open spec fn injection_result(best: Option<((usize, Seq<(usize, usize, usize)>), i32, usize, InjectionPriority)>) -> Option<
    ((usize, Seq<(usize, usize, usize)>), i32, InjectionPriority),
> {
    match best {
        Some((m, id, _, p)) => Some((m, id, p)),
        None => None,
    }
}

/// A best-so-far as plain values.
pub open spec fn best_view(best: Option<(ScanMatch, i32, usize, InjectionPriority)>) -> Option<
    ((usize, Seq<(usize, usize, usize)>), i32, usize, InjectionPriority),
> {
    match best {
        Some((m, id, start, p)) => Some((match_view(m), id, start, p)),
        None => None,
    }
}

/// A match with its rule as plain values.
pub open spec fn ruled_view(found: Option<(ScanMatch, i32)>) -> Option<((usize, Seq<(usize, usize, usize)>), i32)> {
    match found {
        Some((m, id)) => Some((match_view(m), id)),
        None => None,
    }
}

/// One step of the injection search (see `injection_next`): the new best,
/// and whether the search stops.
pub fn injection_step(
    best: Option<(ScanMatch, i32, usize, InjectionPriority)>,
    found: Option<(ScanMatch, i32)>,
    priority: InjectionPriority,
    cursor: usize,
) -> (r: (Option<(ScanMatch, i32, usize, InjectionPriority)>, bool))
    ensures
        (best_view(r.0), r.1) == injection_next(best_view(best), ruled_view(found), priority, cursor),
{
    match found {
        None => (best, false),
        Some((m, id)) => {
            let start = first_start(&m);
            let dominated = match &best {
                None => false,
                Some((_, _, best_start, best_priority)) => {
                    if start < *best_start {
                        false
                    } else if start == *best_start {
                        *best_priority == InjectionPriority::Left && priority != InjectionPriority::Left
                    } else {
                        true
                    }
                },
            };
            if dominated {
                (best, false)
            } else {
                (Some((m, id, start, priority)), start == cursor && priority == InjectionPriority::Left)
            }
        },
    }
}

fn injection_scanner(compiled: &CompiledGrammar, rule_id: i32) -> (r: Option<CompiledScanner>)
    requires
        compiled.registry.wf(),
    ensures
        r matches Some(cs) ==> cs.rule_ids@ == injection_pattern_ids(compiled.registry.rules@, rule_id),
        r matches Some(cs) ==> cs.wf(),
        r is Some <==> (injection_pairs(compiled.registry.rules@, rule_id).len() > 0 && scanner_compiles(
            pair_patterns(injection_pairs(compiled.registry.rules@, rule_id)),
        )),
        r matches Some(cs) ==> {
            &&& strings_view(cs.regexes@) == pair_patterns(injection_pairs(compiled.registry.rules@, rule_id))
            &&& cs.single_scanners@.len() == cs.regexes@.len()
            &&& forall|k: int| 0 <= k < cs.single_scanners@.len() ==> #[trigger] cs.single_scanners@[k] is None
        },
{
    let mut pairs: Vec<(String, i32)> = Vec::new();
    let fuel: u64 = compiled.registry.rules.len() as u64 * 257;
    collect_patterns(rule_id, &compiled.registry, &mut pairs, fuel);
    assert(pairs_view(Seq::<(String, i32)>::empty()) =~= Seq::<(Seq<char>, i32)>::empty());
    if pairs.len() == 0 {
        return None;
    }
    let ghost pv = pairs_view(pairs@);
    let mut regexes: Vec<String> = Vec::new();
    let mut rule_ids: Vec<i32> = Vec::new();
    let mut single_scanners: Vec<Option<Scanner>> = Vec::new();
    let mut i: usize = 0;
    while i < pairs.len()
        invariant
            i <= pairs.len(),
            pv == pairs_view(pairs@),
            rule_ids@ == pair_ids(pv).take(i as int),
            strings_view(regexes@) == pair_patterns(pv).take(i as int),
            single_scanners@.len() == i,
            regexes@.len() == i,
            forall|k: int| 0 <= k < i ==> #[trigger] single_scanners@[k] is None,
        decreases pairs.len() - i,
    {
        let ghost before = regexes@;
        regexes.push(pairs[i].0.clone());
        rule_ids.push(pairs[i].1);
        single_scanners.push(None);
        assert(pair_ids(pv).take(i + 1) =~= pair_ids(pv).take(i as int).push(pv[i as int].1));
        assert(strings_view(regexes@) =~= strings_view(before).push(pv[i as int].0));
        assert(pair_patterns(pv).take(i + 1) =~= pair_patterns(pv).take(i as int).push(pv[i as int].0));
        i += 1;
    }
    assert(pair_ids(pv).take(i as int) =~= pair_ids(pv));
    assert(pair_patterns(pv).take(i as int) =~= pair_patterns(pv));
    match new_scanner(&regexes) {
        Some(scanner) => Some(CompiledScanner { scanner, rule_ids, regexes, single_scanners }),
        None => None,
    }
}

/// The best injection match at the cursor: each active injection's rule
/// is searched with a scanner of its patterns (injections without
/// patterns, or whose patterns do not compile, are passed over); a match
/// replaces the best unless it starts later, or as early while the best has
/// left priority and it has not; the search stops at a left-priority match
/// at the cursor (see `injection_state` and `injection_outcome`).  The
/// searches do not use `line_str_id`.
pub fn find_injection_match(
    compiled: &CompiledGrammar,
    active_injections: &[(i32, InjectionPriority)],
    input: &OnigString,
    line_str_id: u64,
    cursor: usize,
    find_options: u32,
) -> (r: Option<(ScanMatch, i32, InjectionPriority)>)
    requires
        compiled.registry.wf(),
    ensures
        (match r {
            Some((m, id, p)) => Some((match_view(m), id, p)),
            None => None,
        }) == injection_result(
            injection_state(
                injection_outcomes(compiled.registry.rules@, active_injections@, onig_text(*input), cursor, find_options),
                active_injections@,
                compiled.registry.rules@,
                active_injections@.len() as int,
                cursor,
            ).0,
        ),
{
    let ghost rules = compiled.registry.rules@;
    let ghost active = active_injections@;
    let ghost outcomes = injection_outcomes(rules, active, onig_text(*input), cursor, find_options);
    let mut best: Option<(ScanMatch, i32, usize, InjectionPriority)> = None;
    let mut k: usize = 0;
    while k < active_injections.len()
        invariant
            k <= active.len(),
            active == active_injections@,
            rules == compiled.registry.rules@,
            compiled.registry.wf(),
            outcomes == injection_outcomes(rules, active, onig_text(*input), cursor, find_options),
            injection_state(outcomes, active, rules, k as int, cursor) == (best_view(best), false),
        decreases active.len() - k,
    {
        let (rule_id, priority) = active_injections[k];
        let found = match injection_scanner(compiled, rule_id) {
            Some(mut cs) => {
                let m = find_next_match_ordered(&mut cs, input, line_str_id, cursor, find_options);
                match m {
                    Some(m) => {
                        let matched_id = if m.index < cs.rule_ids.len() { cs.rule_ids[m.index] } else { 0 };
                        Some((m, matched_id))
                    },
                    None => None,
                }
            },
            None => None,
        };
        assert(ruled_view(found) == match outcomes[k as int] {
            Some(m) => Some((m, matched_rule(injection_pattern_ids(rules, rule_id), m))),
            None => None,
        });
        let (next, stopped) = injection_step(best, found, priority, cursor);
        best = next;
        if stopped {
            proof {
                lemma_injection_stays(outcomes, active, rules, k + 1, cursor);
            }
            return match best {
                Some((m, id, _, p)) => Some((m, id, p)),
                None => None,
            };
        }
        k += 1;
    }
    match best {
        Some((m, id, _, p)) => Some((m, id, p)),
        None => None,
    }
}

/// Once the search has stopped, later outcomes change nothing.
proof fn lemma_injection_stays(
    outcomes: Seq<Option<(usize, Seq<(usize, usize, usize)>)>>,
    active: Seq<(i32, InjectionPriority)>,
    rules: Seq<Option<Rule>>,
    n: int,
    cursor: usize,
)
    requires
        0 < n <= outcomes.len(),
        n <= active.len(),
        injection_state(outcomes, active, rules, n, cursor).1,
    ensures
        forall|m: int| n <= m <= outcomes.len() && m <= active.len() ==> #[trigger] injection_state(outcomes, active, rules, m, cursor) == injection_state(outcomes, active, rules, n, cursor),
{
    assert forall|m: int| n <= m <= outcomes.len() && m <= active.len() implies #[trigger] injection_state(outcomes, active, rules, m, cursor) == injection_state(outcomes, active, rules, n, cursor) by {
        lemma_injection_stays_to(outcomes, active, rules, n, m, cursor);
    }
}

proof fn lemma_injection_stays_to(
    outcomes: Seq<Option<(usize, Seq<(usize, usize, usize)>)>>,
    active: Seq<(i32, InjectionPriority)>,
    rules: Seq<Option<Rule>>,
    n: int,
    m: int,
    cursor: usize,
)
    requires
        0 < n <= m <= outcomes.len(),
        m <= active.len(),
        injection_state(outcomes, active, rules, n, cursor).1,
    ensures
        injection_state(outcomes, active, rules, m, cursor) == injection_state(outcomes, active, rules, n, cursor),
    decreases m - n,
{
    if m > n {
        lemma_injection_stays_to(outcomes, active, rules, n, m - 1, cursor);
    }
}

/// Whether `a` comes no later than `b`: by start, then by end.
pub open spec fn starts_no_later(a: RangeView, b: RangeView) -> bool {
    a.start < b.start || (a.start == b.start && a.end <= b.end)
}

/// Whether the ranges are ordered by start, then end.
pub open spec fn ordered_by_start_then_end(rs: Seq<RangeView>) -> bool {
    forall|i: int, j: int| 0 <= i < j < rs.len() ==> starts_no_later(#[trigger] rs[i], #[trigger] rs[j])
}

proof fn lemma_range_slot_bounds(sorted: Seq<RangeView>, x: RangeView, from: int)
    requires
        0 <= from <= sorted.len(),
    ensures
        forall|k: int| from <= k < range_slot(sorted, x, from) ==> starts_no_later(#[trigger] sorted[k], x),
        range_slot(sorted, x, from) < sorted.len() ==> !starts_no_later(sorted[range_slot(sorted, x, from)], x),
    decreases sorted.len() - from,
{
    lemma_range_slot(sorted, x, from);
    if from < sorted.len() && !(sorted[from].start > x.start || (sorted[from].start == x.start && sorted[from].end > x.end)) {
        lemma_range_slot_bounds(sorted, x, from + 1);
    }
}

/// The ranges are taken in order of start, then end: of two ranges that
/// start together the shorter comes first, so a capture nested at the
/// start of another keeps its own style for the text it covers.
pub proof fn lemma_sorted_ranges_ordered(rs: Seq<RangeView>)
    ensures
        ordered_by_start_then_end(sorted_ranges(rs)),
        sorted_ranges(rs).len() == rs.len(),
        sorted_ranges(rs).to_multiset() == rs.to_multiset(),
    decreases rs.len(),
{
    lemma_sorted_ranges_len(rs);
    if rs.len() > 0 {
        let sorted = sorted_ranges(rs.drop_last());
        let x = rs.last();
        lemma_sorted_ranges_ordered(rs.drop_last());
        lemma_range_slot(sorted, x, 0);
        lemma_range_slot_bounds(sorted, x, 0);
        let p = range_slot(sorted, x, 0);
        let r = sorted.insert(p, x);
        assert(r == sorted_ranges(rs));
        assert(r.remove(p) =~= sorted);
        assert(r[p] == x);
        r.to_multiset_ensures();
        rs.drop_last().to_multiset_ensures();
        assert(rs.drop_last().push(x) =~= rs);
        assert(r.to_multiset().count(x) > 0) by {
            assert(r.contains(x));
        }
        assert(r.to_multiset() =~= sorted.to_multiset().insert(x));
        assert(rs.to_multiset() =~= rs.drop_last().to_multiset().insert(x));
        assert forall|i: int, j: int| 0 <= i < j < r.len() implies starts_no_later(#[trigger] r[i], #[trigger] r[j]) by {
            if j < p {
                assert(r[i] == sorted[i] && r[j] == sorted[j]);
            } else if j == p {
                assert(r[i] == sorted[i]);
            } else if i < p {
                assert(r[i] == sorted[i] && r[j] == sorted[j - 1]);
            } else if i == p {
                assert(r[j] == sorted[j - 1]);
                assert(starts_no_later(sorted[p], sorted[j - 1]));
            } else {
                assert(r[i] == sorted[i - 1] && r[j] == sorted[j - 1]);
            }
        }
    } else {
        assert(sorted_ranges(rs) =~= rs);
    }
}

} // verus!
