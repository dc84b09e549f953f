use vstd::prelude::*;

use crate::regexp::{
    decimal_value, digits_end, find_capture_placeholder, find_placeholder_from, is_digit_char,
    lemma_digits_end, parse_index, scan_digits, CaptureCommand,
};
use crate::text::{chars_of, is_whitespace, is_whitespace_char, push_chars, string_from_chars};
use crate::unicode::{char_utf16_width, lemma_utf16_le_utf8, lemma_utf16_len_push, utf16_len, utf16_width};

verus! {

broadcast use vstd::string::group_string_axioms;

/// A capture of a match: its start and end offsets and its length.
#[derive(Clone, Copy, Debug, PartialEq, Eq)]
pub struct CaptureIndex {
    pub start: usize,
    pub end: usize,
    pub length: usize,
}

/// From position `k` on, the first position of `s` whose UTF-16 offset
/// reaches `offset` (an offset inside a character rounds up to its end), or
/// the end of `s`.
pub open spec fn char_index_from(s: Seq<char>, offset: nat, k: int) -> int
    decreases s.len() - k,
{
    if k < 0 || k >= s.len() {
        s.len() as int
    } else if utf16_len(s.take(k)) >= offset {
        k
    } else {
        char_index_from(s, offset, k + 1)
    }
}

/// The position of `s` at UTF-16 offset `offset` (see `char_index_from`).
pub open spec fn char_index_of_utf16(s: Seq<char>, offset: nat) -> int {
    char_index_from(s, offset, 0)
}

/// The text of `s` between two UTF-16 offsets; empty where the end comes
/// first.
pub open spec fn utf16_substring(s: Seq<char>, start: nat, end: nat) -> Seq<char> {
    let a = char_index_of_utf16(s, start);
    let b = char_index_of_utf16(s, end);
    s.subrange(if a <= b { a } else { b }, b)
}

proof fn lemma_char_index_range(s: Seq<char>, offset: nat, k: int)
    requires
        0 <= k <= s.len(),
    ensures
        k <= char_index_from(s, offset, k) <= s.len(),
    decreases s.len() - k,
{
    if k < s.len() && utf16_len(s.take(k)) < offset {
        lemma_char_index_range(s, offset, k + 1);
    }
}

proof fn lemma_utf16_prefix_le(s: Seq<char>, k: int)
    requires
        0 <= k <= s.len(),
    ensures
        utf16_len(s.take(k)) <= utf16_len(s),
    decreases s.len() - k,
{
    if k < s.len() {
        lemma_utf16_prefix_le(s, k + 1);
        assert(s.take(k + 1) =~= s.take(k).push(s[k]));
        lemma_utf16_len_push(s.take(k), s[k]);
    } else {
        assert(s.take(k) =~= s);
    }
}

/// The position of `v` at UTF-16 offset `offset`.
fn char_index(v: &Vec<char>, offset: usize, total_bytes: usize) -> (r: usize)
    requires
        crate::unicode::utf8_len(v@) == total_bytes,
    ensures
        r == char_index_of_utf16(v@, offset as nat),
        r <= v.len(),
{
    proof {
        lemma_utf16_le_utf8(v@);
        lemma_char_index_range(v@, offset as nat, 0);
    }
    let mut k: usize = 0;
    let mut u: usize = 0;
    assert(v@.take(0) =~= Seq::<char>::empty());
    while k < v.len()
        invariant
            k <= v.len(),
            u == utf16_len(v@.take(k as int)),
            utf16_len(v@) <= total_bytes,
            char_index_of_utf16(v@, offset as nat) == char_index_from(v@, offset as nat, k as int),
        decreases v.len() - k,
    {
        if u >= offset {
            return k;
        }
        proof {
            assert(v@.take(k + 1) =~= v@.take(k as int).push(v@[k as int]));
            lemma_utf16_len_push(v@.take(k as int), v@[k as int]);
            lemma_utf16_prefix_le(v@, k + 1);
        }
        u = u + char_utf16_width(v[k]);
        k += 1;
    }
    k
}

/// The text of `v` between two UTF-16 offsets.
fn substring_utf16(v: &Vec<char>, start: usize, end: usize, total_bytes: usize) -> (r: Vec<char>)
    requires
        crate::unicode::utf8_len(v@) == total_bytes,
    ensures
        r@ == utf16_substring(v@, start as nat, end as nat),
{
    let a = char_index(v, start, total_bytes);
    let b = char_index(v, end, total_bytes);
    let from = if a <= b { a } else { b };
    crate::text::sub_chars(v.as_slice(), from, b)
}

/// Whether a character has a meaning in a regular expression and is
/// escaped when a capture is put into one.
pub open spec fn is_regexp_special(c: char) -> bool {
    c == '-' || c == '\\' || c == '{' || c == '}' || c == '*' || c == '+' || c == '?' || c == '|' || c
        == '^' || c == '$' || c == '.' || c == ',' || c == '[' || c == ']' || c == '(' || c == ')' || c
        == '#'
}

/// `s` with a backslash before every special character and every white
/// space character.
pub open spec fn escaped_regexp(s: Seq<char>) -> Seq<char>
    decreases s.len(),
{
    if s.len() == 0 {
        Seq::empty()
    } else {
        let c = s.last();
        escaped_regexp(s.drop_last()) + if is_regexp_special(c) || is_whitespace_char(c) {
            seq!['\\', c]
        } else {
            seq![c]
        }
    }
}

fn push_escaped(out: &mut Vec<char>, v: &Vec<char>)
    ensures
        final(out)@ == old(out)@ + escaped_regexp(v@),
{
    let ghost start = out@;
    let mut i: usize = 0;
    while i < v.len()
        invariant
            i <= v.len(),
            out@ == start + escaped_regexp(v@.take(i as int)),
        decreases v.len() - i,
    {
        let c = v[i];
        if c == '-' || c == '\\' || c == '{' || c == '}' || c == '*' || c == '+' || c == '?' || c
            == '|' || c == '^' || c == '$' || c == '.' || c == ',' || c == '[' || c == ']' || c
            == '(' || c == ')' || c == '#' || is_whitespace(c) {
            out.push('\\');
        }
        out.push(c);
        assert(v@.take(i + 1).drop_last() =~= v@.take(i as int));
        i += 1;
        assert(out@ =~= start + escaped_regexp(v@.take(i as int)));
    }
    assert(v@.take(i as int) =~= v@);
}

/// `value` with a backslash before every character that has a meaning in
/// a regular expression and every white space character.
pub fn escape_reg_exp_characters(value: &str) -> (r: String)
    ensures
        r@ == escaped_regexp(value@),
{
    let v = chars_of(value);
    let mut out: Vec<char> = Vec::new();
    push_escaped(&mut out, &v);
    assert(out@ =~= escaped_regexp(value@));
    string_from_chars(out.as_slice())
}

/// The text of capture `index` in `line`, or nothing where there is no such
/// capture.
pub open spec fn captured_text(line: Seq<char>, caps: Seq<CaptureIndex>, index: nat) -> Seq<char> {
    if index < caps.len() {
        utf16_substring(line, caps[index as int].start as nat, caps[index as int].end as nat)
    } else {
        Seq::empty()
    }
}

/// Whether every back reference of `s` has an index that fits in `usize`.
pub open spec fn back_references_fit(s: Seq<char>) -> bool {
    forall|p: int|
        0 <= p && p + 1 < s.len() && s[p] == '\\' && is_digit_char(#[trigger] s[p + 1]) ==> decimal_value(
            s,
            p + 1,
            digits_end(s, p + 1),
        ) <= usize::MAX
}

/// `s` from position `p` on with each back reference `\n` replaced by the
/// escaped text of capture `n` of `line`.
pub open spec fn back_references_replaced(s: Seq<char>, line: Seq<char>, caps: Seq<CaptureIndex>, p: int) -> Seq<char>
    decreases s.len() - p,
{
    if p < 0 || p >= s.len() {
        Seq::empty()
    } else if s[p] == '\\' && p + 1 < s.len() && is_digit_char(s[p + 1]) {
        let e = digits_end(s, p + 1);
        if p < e <= s.len() {
            escaped_regexp(captured_text(line, caps, decimal_value(s, p + 1, e))) + back_references_replaced(s, line, caps, e)
        } else {
            Seq::empty()
        }
    } else {
        seq![s[p]] + back_references_replaced(s, line, caps, p + 1)
    }
}

/// `source` with each back reference `\n` replaced by the text of capture
/// `n` of `line_text` (nothing where there is no such capture), escaped.
pub fn replace_numeric_back_references(source: &str, line_text: &str, capture_indices: &[CaptureIndex]) -> (r: String)
    requires
        back_references_fit(source@),
    ensures
        r@ == back_references_replaced(source@, line_text@, capture_indices@, 0),
{
    let s = chars_of(source);
    let line = chars_of(line_text);
    let total = line_text.as_bytes().len();
    let mut out: Vec<char> = Vec::new();
    let mut p: usize = 0;
    while p < s.len()
        invariant
            p <= s.len(),
            s@ == source@,
            line@ == line_text@,
            crate::unicode::utf8_len(line@) == total,
            back_references_fit(source@),
            back_references_replaced(source@, line_text@, capture_indices@, 0) == out@ + back_references_replaced(
                source@,
                line_text@,
                capture_indices@,
                p as int,
            ),
        decreases s.len() - p,
    {
        if s[p] == '\\' && p + 1 < s.len() && '0' <= s[p + 1] && s[p + 1] <= '9' {
            let e = scan_digits(&s, p + 1);
            proof {
                lemma_digits_end(s@, p + 1);
            }
            let index = match parse_index(&s, p + 1, e) {
                Some(v) => v,
                None => {
                    proof {
                        assert(is_digit_char(s@[p + 1]));
                    }
                    0
                },
            };
            let ghost before = out@;
            if index < capture_indices.len() {
                let cap = capture_indices[index];
                let text = substring_utf16(&line, cap.start, cap.end, total);
                push_escaped(&mut out, &text);
            } else {
                let empty: Vec<char> = Vec::new();
                push_escaped(&mut out, &empty);
                assert(empty@ =~= Seq::<char>::empty());
            }
            assert(before + (escaped_regexp(captured_text(line_text@, capture_indices@, index as nat))
                + back_references_replaced(source@, line_text@, capture_indices@, e as int)) =~= out@
                + back_references_replaced(source@, line_text@, capture_indices@, e as int));
            p = e;
        } else {
            let ghost before = out@;
            out.push(s[p]);
            assert(before + (seq![s@[p as int]] + back_references_replaced(source@, line_text@, capture_indices@, p + 1))
                =~= out@ + back_references_replaced(source@, line_text@, capture_indices@, p + 1));
            p += 1;
        }
    }
    assert(out@ + Seq::<char>::empty() =~= out@);
    string_from_chars(out.as_slice())
}

/// `s` without its leading dots.
pub open spec fn without_leading_dots(s: Seq<char>) -> Seq<char>
    decreases s.len(),
{
    if s.len() > 0 && s[0] == '.' {
        without_leading_dots(s.drop_first())
    } else {
        s
    }
}

/// What `str::to_lowercase` gives for a text.
pub uninterp spec fn lowercase_text(s: Seq<char>) -> Seq<char>;

/// What `str::to_uppercase` gives for a text.
pub uninterp spec fn uppercase_text(s: Seq<char>) -> Seq<char>;

/// `str::to_lowercase`: the Unicode lower case of a text, named
/// `lowercase_text`; nothing more is claimed of it.
#[verifier::external_body]
pub(crate) fn to_lowercase(s: &str) -> (r: String)
    ensures
        r@ == lowercase_text(s@),
{
    s.to_lowercase()
}

/// `str::to_uppercase`: the Unicode upper case of a text, named
/// `uppercase_text`; nothing more is claimed of it.
#[verifier::external_body]
pub(crate) fn to_uppercase(s: &str) -> (r: String)
    ensures
        r@ == uppercase_text(s@),
{
    s.to_uppercase()
}

/// The text that a placeholder for capture `index` with `command` stands
/// for: the capture without its leading dots, in lower or upper case where
/// the command asks.
pub open spec fn placeholder_text(src: Seq<char>, cap: CaptureIndex, command: Option<CaptureCommand>) -> Seq<char> {
    let t = without_leading_dots(utf16_substring(src, cap.start as nat, cap.end as nat));
    match command {
        Some(CaptureCommand::Downcase) => lowercase_text(t),
        Some(CaptureCommand::Upcase) => uppercase_text(t),
        None => t,
    }
}

/// `s` from position `p` on with each capture placeholder replaced by the
/// text it stands for; a placeholder for a capture that does not exist
/// stays as it is.
pub open spec fn captures_replaced(s: Seq<char>, src: Seq<char>, caps: Seq<CaptureIndex>, p: int) -> Seq<char>
    decreases s.len() - p,
{
    if p < 0 || p > s.len() {
        Seq::empty()
    } else {
        match find_placeholder_from(s, p) {
            None => s.subrange(p, s.len() as int),
            Some((start, end, index, command)) => if p <= start < end <= s.len() {
                s.subrange(p, start) + (if index < caps.len() {
                    placeholder_text(src, caps[index as int], command)
                } else {
                    s.subrange(start, end)
                }) + captures_replaced(s, src, caps, end)
            } else {
                Seq::empty()
            },
        }
    }
}

proof fn lemma_placeholder_range(s: Seq<char>, p: int)
    requires
        0 <= p,
    ensures
        find_placeholder_from(s, p) matches Some((start, end, index, command)) ==> p <= start < end <= s.len(),
    decreases s.len() - p,
{
    if 0 <= p < s.len() {
        match crate::regexp::placeholder_at(s, p) {
            crate::regexp::PlaceholderAt::Found { .. } => {
                crate::regexp::lemma_placeholder_at_end(s, p);
            },
            crate::regexp::PlaceholderAt::NotHere => {
                lemma_placeholder_range(s, p + 1);
            },
        }
    }
}

fn drop_leading_dots(v: Vec<char>) -> (r: Vec<char>)
    ensures
        r@ == without_leading_dots(v@),
{
    let mut i: usize = 0;
    assert(v@.skip(0) =~= v@);
    while i < v.len() && v[i] == '.'
        invariant
            i <= v.len(),
            without_leading_dots(v@) == without_leading_dots(v@.skip(i as int)),
        decreases v.len() - i,
    {
        assert(v@.skip(i as int).drop_first() =~= v@.skip(i + 1));
        i += 1;
    }
    assert(v@.skip(0) =~= v@);
    let r = crate::text::sub_chars(v.as_slice(), i, v.len());
    assert(r@ =~= v@.skip(i as int));
    r
}

/// `regex_source` with each capture placeholder (`$n`, `${n:/downcase}`,
/// `${n:/upcase}`) replaced by the text of capture `n` of `capture_source`,
/// without leading dots and in the case asked for; a placeholder for a
/// capture that does not exist stays.
pub fn replace_captures(regex_source: &str, capture_source: &str, capture_indices: &[CaptureIndex]) -> (r: String)
    ensures
        r@ == captures_replaced(regex_source@, capture_source@, capture_indices@, 0),
{
    let s = chars_of(regex_source);
    let src = chars_of(capture_source);
    let total = capture_source.as_bytes().len();
    let mut out: Vec<char> = Vec::new();
    let mut p: usize = 0;
    loop
        invariant_except_break
            captures_replaced(regex_source@, capture_source@, capture_indices@, 0) == out@ + captures_replaced(
                regex_source@,
                capture_source@,
                capture_indices@,
                p as int,
            ),
        invariant
            p <= s.len(),
            s@ == regex_source@,
            src@ == capture_source@,
            crate::unicode::utf8_len(src@) == total,
        ensures
            out@ == captures_replaced(regex_source@, capture_source@, capture_indices@, 0),
        decreases s.len() - p,
    {
        proof {
            lemma_placeholder_range(s@, p as int);
        }
        let found = find_capture_placeholder(&s, p);
        match found {
            None => {
                let ghost before = out@;
                let rest = crate::text::sub_chars(s.as_slice(), p, s.len());
                push_chars(&mut out, rest.as_slice());
                assert(out@ =~= before + captures_replaced(regex_source@, capture_source@, capture_indices@, p as int));
                break;
            },
            Some(ph) => {
                let ghost before = out@;
                let head = crate::text::sub_chars(s.as_slice(), p, ph.start);
                push_chars(&mut out, head.as_slice());
                if ph.index < capture_indices.len() {
                    let cap = capture_indices[ph.index];
                    let text = drop_leading_dots(substring_utf16(&src, cap.start, cap.end, total));
                    let t = string_from_chars(text.as_slice());
                    let replaced = match ph.command {
                        Some(CaptureCommand::Downcase) => to_lowercase(t.as_str()),
                        Some(CaptureCommand::Upcase) => to_uppercase(t.as_str()),
                        None => t,
                    };
                    let rv = chars_of(replaced.as_str());
                    push_chars(&mut out, rv.as_slice());
                } else {
                    let kept = crate::text::sub_chars(s.as_slice(), ph.start, ph.end);
                    push_chars(&mut out, kept.as_slice());
                }
                assert(out@ + captures_replaced(regex_source@, capture_source@, capture_indices@, ph.end as int)
                    =~= before + captures_replaced(regex_source@, capture_source@, capture_indices@, p as int));
                p = ph.end;
            },
        }
    }
    string_from_chars(out.as_slice())
}

} // verus!
