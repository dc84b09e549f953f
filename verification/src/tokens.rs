use vstd::prelude::*;
use vstd::string::StrSliceExecFns;

use crate::encoded_token_attributes::{field_font_style, field_foreground, field_token_type, token_type_code, token_type_of_code, EncodedTokenAttributes};
use crate::text::{chars_of, copy_string, first_index_from, lemma_first_index_from};
use crate::tokenize::{byte_slice, slice_bytes};
use crate::unicode::{
    char_utf16_width, char_utf8_width, lemma_utf16_le_utf8, lemma_utf16_len_push,
    lemma_utf8_len_prefix, lemma_utf8_len_push, utf16_len, utf16_width, utf8_len,
};

verus! {

broadcast use vstd::string::group_string_axioms;

/// Limits and switches for tokenizing a code string.
#[derive(Clone, Debug, PartialEq, Eq)]
pub struct TokenizeOptions {
    pub time_limit_millis: u64,
    pub max_line_length: usize,
    pub include_token_type: bool,
    pub include_scopes: bool,
}

impl TokenizeOptions {
    /// The defaults: a 500 ms time limit, no line length limit, no token
    /// types and no scope names.
    pub fn new() -> (r: TokenizeOptions)
        ensures
            r.time_limit_millis == 500,
            r.max_line_length == 0,
            !r.include_token_type,
            !r.include_scopes,
    {
        TokenizeOptions { time_limit_millis: 500, max_line_length: 0, include_token_type: false, include_scopes: false }
    }
}

/// One highlighted token of a line.
#[derive(Clone, Debug, PartialEq, Eq)]
pub struct HighlightToken {
    pub content: String,
    pub offset: usize,
    pub color: String,
    pub font_style: i32,
    pub token_type: Option<u8>,
}

/// The highlighted tokens of every line, with the theme's colors.
#[derive(Clone, Debug, PartialEq, Eq)]
pub struct HighlightTokensResult {
    pub tokens: Vec<Vec<HighlightToken>>,
    pub foreground: String,
    pub background: String,
    pub theme_name: String,
}

/// The UTF-16 to byte map of the first `k` characters: one byte offset
/// per UTF-16 code unit.
pub open spec fn utf16_byte_map_prefix(s: Seq<char>, k: int) -> Seq<usize>
    decreases k,
{
    if k <= 0 {
        Seq::empty()
    } else {
        let o = utf8_len(s.take(k - 1)) as usize;
        utf16_byte_map_prefix(s, k - 1) + if utf16_width(s[k - 1]) == 2 {
            seq![o, o]
        } else {
            seq![o]
        }
    }
}

/// For each UTF-16 code unit of `s` the byte offset of its character,
/// followed by the byte length of `s`.
pub open spec fn utf16_byte_map(s: Seq<char>) -> Seq<usize> {
    utf16_byte_map_prefix(s, s.len() as int).push(utf8_len(s) as usize)
}

/// Maps UTF-16 offsets of `input` to UTF-8 byte offsets.
pub fn utf16_to_byte_map(input: &str) -> (r: Vec<usize>)
    ensures
        r@ == utf16_byte_map(input@),
{
    let total = input.as_bytes().len();
    let s = chars_of(input);
    let mut map: Vec<usize> = Vec::new();
    let mut b: usize = 0;
    let mut i: usize = 0;
    while i < s.len()
        invariant
            i <= s.len(),
            s@ == input@,
            total == utf8_len(s@),
            b == utf8_len(s@.take(i as int)),
            map@ == utf16_byte_map_prefix(s@, i as int),
        decreases s.len() - i,
    {
        proof {
            lemma_utf8_len_prefix(s@, i + 1);
            assert(s@.take(i + 1) =~= s@.take(i as int).push(s@[i as int]));
            lemma_utf8_len_push(s@.take(i as int), s@[i as int]);
        }
        map.push(b);
        if char_utf16_width(s[i]) == 2 {
            map.push(b);
        }
        b = b + char_utf8_width(s[i]);
        i += 1;
    }
    assert(s@.take(i as int) =~= s@);
    map.push(b);
    map
}

/// The lines of `s` from `start`, split at `\n` with a `\r` before it
/// dropped, each with the UTF-16 offset of its start; `u16` is the offset
/// of `start`.
pub open spec fn lines_from(s: Seq<char>, start: int, u16: nat) -> Seq<(Seq<char>, nat)>
    decreases s.len() - start,
{
    if start < 0 || start > s.len() {
        Seq::empty()
    } else {
        match first_index_from(s, '\n', start) {
            Some(nl) => if start <= nl < s.len() {
                let end = if nl > start && s[nl - 1] == '\r' { nl - 1 } else { nl };
                seq![(s.subrange(start, end), u16)] + lines_from(
                    s,
                    nl + 1,
                    u16 + utf16_len(s.subrange(start, nl + 1)),
                )
            } else {
                Seq::empty()
            },
            None => seq![(s.subrange(start, s.len() as int), u16)],
        }
    }
}

pub open spec fn line_views(v: Seq<(&str, usize)>) -> Seq<(Seq<char>, nat)> {
    v.map_values(|p: (&str, usize)| (p.0@, p.1 as nat))
}

/// Splits code into lines at `\n` (dropping a `\r` before it), giving
/// each line's UTF-16 start offset within the whole input.
pub fn split_lines(input: &str) -> (r: Vec<(&str, usize)>)
    ensures
        line_views(r@) == lines_from(input@, 0, 0),
{
    let s = chars_of(input);
    let total = input.as_bytes().len();
    let mut lines: Vec<(&str, usize)> = Vec::new();
    let mut start: usize = 0;
    let mut start_utf16: usize = 0;
    proof {
        lemma_utf16_le_utf8(s@);
    }
    while start <= s.len()
        invariant
            start <= s.len() + 1,
            s@ == input@,
            total == utf8_len(s@),
            start <= s.len() ==> start_utf16 == utf16_len(s@.take(start as int)),
            start <= s.len() ==> line_views(lines@) + lines_from(s@, start as int, start_utf16 as nat) == lines_from(s@, 0, 0),
            start > s.len() ==> line_views(lines@) == lines_from(s@, 0, 0),
        decreases s.len() + 1 - start,
    {
        proof {
            lemma_first_index_from(s@, '\n', start as int);
        }
        match crate::text::find_char(s.as_slice(), '\n', start) {
            Some(nl) => {
                let end = if nl > start && s[nl - 1] == '\r' { nl - 1 } else { nl };
                let line = input.substring_char(start, end);
                let ghost old_lines = lines@;
                lines.push((line, start_utf16));
                let mut u = start_utf16;
                let mut k = start;
                proof {
                    assert(s@.take(start as int).push(s@[start as int]) =~= s@.take(start + 1));
                }
                while k <= nl
                    invariant
                        start <= k <= nl + 1,
                        nl < s.len(),
                        total == utf8_len(s@),
                        u == utf16_len(s@.take(k as int)),
                        u - start_utf16 == utf16_len(s@.subrange(start as int, k as int)),
                        start_utf16 == utf16_len(s@.take(start as int)),
                    decreases nl + 1 - k,
                {
                    proof {
                        lemma_utf16_len_push(s@.take(k as int), s@[k as int]);
                        lemma_utf16_len_push(s@.subrange(start as int, k as int), s@[k as int]);
                        assert(s@.take(k + 1) =~= s@.take(k as int).push(s@[k as int]));
                        assert(s@.subrange(start as int, k + 1) =~= s@.subrange(start as int, k as int).push(s@[k as int]));
                        lemma_utf16_le_utf8(s@.take(k + 1));
                        lemma_utf8_len_prefix(s@, k + 1);
                    }
                    u = u + char_utf16_width(s[k]);
                    k += 1;
                }
                proof {
                    assert(line_views(lines@) =~= line_views(old_lines).push((line@, start_utf16 as nat)));
                    assert(line_views(lines@) + lines_from(s@, nl + 1, u as nat) =~= line_views(old_lines) + lines_from(s@, start as int, start_utf16 as nat));
                }
                start_utf16 = u;
                start = nl + 1;
            },
            None => {
                let line = input.substring_char(start, s.len());
                let ghost old_lines = lines@;
                lines.push((line, start_utf16));
                proof {
                    assert(line_views(lines@) =~= line_views(old_lines) + lines_from(s@, start as int, start_utf16 as nat));
                }
                return lines;
            },
        }
    }
    lines
}

/// The token for the UTF-16 range `start..end` of a line with the given
/// metadata: its text (mapped to bytes by `map`), its offset in the code,
/// the color its foreground id names in `colors` (empty where there is
/// none), its font style and, where asked, its standard token type; none
/// where the range is empty, an offset is outside the map, or the bytes do
/// not fall on character boundaries.
pub open spec fn metadata_token(
    line: Seq<char>,
    map: Seq<usize>,
    start: usize,
    end: usize,
    line_offset: usize,
    metadata: u32,
    colors: Seq<Seq<char>>,
    include_token_type: bool,
) -> Option<(Seq<char>, int, Seq<char>, i32, Option<u8>)> {
    if start >= end || start >= map.len() || end >= map.len() {
        None
    } else {
        match byte_slice(line, map[start as int] as int, map[end as int] as int) {
            None => None,
            Some(content) => Some((
                content,
                line_offset + start,
                if field_foreground(metadata) < colors.len() { colors[field_foreground(metadata) as int] } else { Seq::empty() },
                field_font_style(metadata) as i32,
                if include_token_type {
                    Some(token_type_code(token_type_of_code(field_token_type(metadata))) as u8)
                } else {
                    None
                },
            )),
        }
    }
}

/// The token for the UTF-16 range of a line with the given metadata (see
/// `metadata_token`).
pub fn token_from_metadata(
    line: &str,
    utf16_map: &[usize],
    range: std::ops::Range<usize>,
    line_offset: usize,
    metadata: u32,
    color_map: &[String],
    include_token_type: bool,
) -> (r: Option<HighlightToken>)
    requires
        line_offset + range.start <= usize::MAX,
    ensures
        match metadata_token(
            line@,
            utf16_map@,
            range.start,
            range.end,
            line_offset,
            metadata,
            color_map@.map_values(|c: String| c@),
            include_token_type,
        ) {
            None => r is None,
            Some(t) => r matches Some(token) && {
                &&& token.content@ == t.0
                &&& token.offset == t.1
                &&& token.color@ == t.2
                &&& token.font_style == t.3
                &&& token.token_type == t.4
            },
        },
{
    let start_index = range.start;
    let end_index = range.end;
    if start_index >= end_index || start_index >= utf16_map.len() || end_index >= utf16_map.len() {
        return None;
    }
    let start_byte = utf16_map[start_index];
    let end_byte = utf16_map[end_index];
    let attributes = EncodedTokenAttributes::new(metadata);
    let content = match slice_bytes(line, start_byte, end_byte) {
        Some(c) => c,
        None => {
            return None;
        },
    };
    let foreground = attributes.foreground() as usize;
    let color = if foreground < color_map.len() {
        copy_string(&color_map[foreground])
    } else {
        String::new()
    };
    let token_type = if include_token_type {
        Some(attributes.token_type().code() as u8)
    } else {
        None
    };
    Some(HighlightToken {
        content,
        offset: line_offset + start_index,
        color,
        font_style: attributes.font_style().bits(),
        token_type,
    })
}

} // verus!
