use vstd::prelude::*;

use crate::json::{json_from_serde, JsonValue};
use crate::unicode::{char_utf8_width, lemma_encode_utf8_append, lemma_utf8_len_prefix, lemma_utf8_len_push, utf8_len};
use vstd::utf8::encode_utf8;

verus! {

/// A property-list value as plain values: a real keeps its text.
pub enum PlistView {
    Dict(Seq<(Seq<char>, PlistView)>),
    Array(Seq<PlistView>),
    Text(Seq<char>),
    Integer(i64),
    Real(Seq<char>),
    Boolean(bool),
}

/// A failure: the character position where it was found and its message.
pub type Failure = (int, Seq<char>);

/// Whether `c` is white space (Unicode `White_Space`).
pub open spec fn is_space(c: char) -> bool {
    ||| ('\u{9}' <= c && c <= '\u{d}')
    ||| c == ' '
    ||| c == '\u{85}'
    ||| c == '\u{a0}'
    ||| c == '\u{1680}'
    ||| ('\u{2000}' <= c && c <= '\u{200a}')
    ||| c == '\u{2028}'
    ||| c == '\u{2029}'
    ||| c == '\u{202f}'
    ||| c == '\u{205f}'
    ||| c == '\u{3000}'
}

/// The first position at or after `p` that is not white space.
pub open spec fn skip_spaces(s: Seq<char>, p: int) -> int
    decreases s.len() - p,
{
    if p < 0 || p >= s.len() || !is_space(s[p]) {
        p
    } else {
        skip_spaces(s, p + 1)
    }
}

/// What a real's text reads as: `str::parse` to a double, then
/// `serde_json::Number::from_f64` (none for text that is no number, and for
/// infinities and NaN).
pub uninterp spec fn plist_real(text: Seq<char>) -> Option<JsonValue>;

/// Whether `v` is the JSON form of the property-list value `p`: a
/// dictionary an object with the same keys in the same order, an integer
/// a number of that value, a real what its text reads as.
pub open spec fn json_of(v: JsonValue, p: PlistView) -> bool
    decreases p,
{
    match p {
        PlistView::Dict(m) => match v {
            JsonValue::Object(ms) => ms@.len() == m.len() && forall|i: int|
                0 <= i < m.len() ==> (#[trigger] ms@[i]).0@ == m[i].0 && json_of(ms@[i].1, m[i].1),
            _ => false,
        },
        PlistView::Array(a) => match v {
            JsonValue::Array(vs) => vs@.len() == a.len() && forall|i: int| 0 <= i < a.len() ==> json_of(#[trigger] vs@[i], a[i]),
            _ => false,
        },
        PlistView::Text(t) => v matches JsonValue::String(x) && x@ == t,
        PlistView::Integer(i) => v matches JsonValue::Number(n) && n.signed == Some(i) && n.unsigned == (if i >= 0 {
            Some(i as u64)
        } else {
            None
        }),
        PlistView::Real(t) => plist_real(t) == Some(v),
        PlistView::Boolean(b) => v matches JsonValue::Bool(x) && x == b,
    }
}

/// Whether `s` holds `t` at `p`.
pub open spec fn at(s: Seq<char>, p: int, t: Seq<char>) -> bool {
    0 <= p && p + t.len() <= s.len() && s.subrange(p, p + t.len() as int) == t
}

/// The first position at or after `p` where `s` holds `t`.
pub open spec fn find_from(s: Seq<char>, p: int, t: Seq<char>) -> Option<int>
    decreases s.len() + 1 - p,
{
    if p < 0 || p + t.len() > s.len() {
        None
    } else if at(s, p, t) {
        Some(p)
    } else {
        find_from(s, p + 1, t)
    }
}

/// `t` without its leading white space.
pub open spec fn trim_start(t: Seq<char>) -> Seq<char>
    decreases t.len(),
{
    if t.len() > 0 && is_space(t[0]) {
        trim_start(t.drop_first())
    } else {
        t
    }
}

/// `t` without its trailing white space.
pub open spec fn trim_end(t: Seq<char>) -> Seq<char>
    decreases t.len(),
{
    if t.len() > 0 && is_space(t.last()) {
        trim_end(t.drop_last())
    } else {
        t
    }
}

/// `t` without white space at either end.
pub open spec fn trim(t: Seq<char>) -> Seq<char> {
    trim_end(trim_start(t))
}

/// Skips white space, processing instructions (`<?..?>`), comments
/// (`<!--..-->`) and declarations (`<!..>`) from `p`, until nothing more is
/// skipped.
pub open spec fn skip_trivia(s: Seq<char>, p: int) -> Result<int, Failure>
    decreases s.len() - p,
{
    let q = skip_spaces(s, p);
    let next = if at(s, q, seq!['<', '?']) {
        match find_from(s, q, seq!['?', '>']) {
            Some(e) => Ok(e + 2),
            None => Err((q, "unexpected end of input"@)),
        }
    } else if at(s, q, seq!['<', '!', '-', '-']) {
        match find_from(s, q, seq!['-', '-', '>']) {
            Some(e) => Ok(e + 3),
            None => Err((q, "unexpected end of input"@)),
        }
    } else if at(s, q, seq!['<', '!']) {
        match find_from(s, q, seq!['>']) {
            Some(e) => Ok(e + 1),
            None => Err((q, "unexpected end of input"@)),
        }
    } else {
        Ok(q)
    };
    match next {
        Err(f) => Err(f),
        Ok(n) => if n == p || n < p || n > s.len() {
            Ok(n)
        } else {
            skip_trivia(s, n)
        },
    }
}

/// An opening tag at `p`: its name, whether it closes itself, and the
/// position after it.
pub open spec fn open_tag(s: Seq<char>, p: int) -> Result<(Seq<char>, bool, int), Failure> {
    if !(0 <= p < s.len() && s[p] == '<') {
        Err((p, "expected <"@))
    } else if p + 1 < s.len() && s[p + 1] == '/' {
        Err((p + 1, "unexpected closed tag"@))
    } else {
        match find_from(s, p + 1, seq!['>']) {
            None => Err((p + 1, "unexpected end of input"@)),
            Some(e) => {
                let raw = trim(s.subrange(p + 1, e));
                let closed = raw.len() > 0 && raw.last() == '/';
                let name = trim_end(if closed { raw.drop_last() } else { raw });
                Ok((name, closed, e + 1))
            },
        }
    }
}

/// A closing tag at `p`: its name and the position after it.
pub open spec fn any_close_tag(s: Seq<char>, p: int) -> Result<(Seq<char>, int), Failure> {
    if !at(s, p, seq!['<', '/']) {
        Err((p, "expected closed tag"@))
    } else {
        match find_from(s, p + 2, seq!['>']) {
            None => Err((p + 2, "unexpected end of input"@)),
            Some(e) => Ok((trim(s.subrange(p + 2, e)), e + 1)),
        }
    }
}

/// The message for a closing tag that does not match.
pub open spec fn mismatch(expected: Seq<char>, found: Seq<char>) -> Seq<char> {
    "expected </"@ + expected + ">, found </"@ + found + ">"@
}

/// The closing tag `name` at `p`: the position after it.
pub open spec fn close_tag(s: Seq<char>, p: int, name: Seq<char>) -> Result<int, Failure> {
    match any_close_tag(s, p) {
        Err(f) => Err(f),
        Ok((found, q)) => if found != name {
            Err((q, mismatch(name, found)))
        } else {
            Ok(q)
        },
    }
}

/// Whether the closing tag `name` (white space allowed before `>`) is at `p`.
pub open spec fn close_tag_at(s: Seq<char>, p: int, name: Seq<char>) -> bool {
    let r = skip_spaces(s, p + 2 + name.len());
    at(s, p, seq!['<', '/']) && at(s, p + 2, name) && r < s.len() && s[r] == '>'
}

/// The value of a digit in a radix, where it is one.
pub open spec fn digit_value(c: char, radix: nat) -> Option<nat> {
    let v: nat = if '0' <= c && c <= '9' {
        (c as nat - '0' as nat) as nat
    } else if 'a' <= c && c <= 'z' {
        (c as nat - 'a' as nat + 10) as nat
    } else if 'A' <= c && c <= 'Z' {
        (c as nat - 'A' as nat + 10) as nat
    } else {
        100
    };
    if v < radix { Some(v) } else { None }
}

/// The number that the digits `d[0..n]` stand for, where all are digits.
pub open spec fn digits_value(d: Seq<char>, n: int, radix: nat) -> Option<nat>
    decreases n,
{
    if n <= 0 || n > d.len() {
        Some(0)
    } else {
        match (digits_value(d, n - 1, radix), digit_value(d[n - 1], radix)) {
            (Some(a), Some(b)) => Some(a * radix + b),
            _ => None,
        }
    }
}

/// An unsigned number in `u32`: an optional `+`, then at least one digit.
pub open spec fn u32_value(t: Seq<char>, radix: nat) -> Option<u32> {
    let d = if t.len() > 0 && t[0] == '+' { t.drop_first() } else { t };
    if d.len() == 0 {
        None
    } else {
        match digits_value(d, d.len() as int, radix) {
            Some(v) => if v <= u32::MAX { Some(v as u32) } else { None },
            None => None,
        }
    }
}

/// An integer in `i64`: an optional sign, then at least one digit.
pub open spec fn i64_value(t: Seq<char>) -> Option<i64> {
    let negative = t.len() > 0 && t[0] == '-';
    let d = if t.len() > 0 && (t[0] == '+' || t[0] == '-') { t.drop_first() } else { t };
    if d.len() == 0 {
        None
    } else {
        match digits_value(d, d.len() as int, 10) {
            Some(v) => if negative {
                if v <= 0x8000_0000_0000_0000 { Some((0 - v) as i64) } else { None }
            } else {
                if v <= 0x7fff_ffff_ffff_ffff { Some(v as i64) } else { None }
            },
            None => None,
        }
    }
}

/// The character a code stands for, where it is one.
pub open spec fn code_char(v: u32) -> Option<char> {
    if v < 0xD800 || (0xE000 <= v && v <= 0x10FFFF) {
        Some(v as char)
    } else {
        None
    }
}

/// The character an entity name stands for: the five named ones, `#x` and
/// hexadecimal digits, `#` and decimal digits.
pub open spec fn entity_char(e: Seq<char>) -> Option<char> {
    if e == "amp"@ {
        Some('&')
    } else if e == "lt"@ {
        Some('<')
    } else if e == "gt"@ {
        Some('>')
    } else if e == "quot"@ {
        Some('"')
    } else if e == "apos"@ {
        Some('\'')
    } else {
        let hex = if e.len() >= 2 && e[0] == '#' && e[1] == 'x' { u32_value(e.subrange(2, e.len() as int), 16) } else { None };
        let code = match hex {
            Some(v) => Some(v),
            None => if e.len() >= 1 && e[0] == '#' { u32_value(e.drop_first(), 10) } else { None },
        };
        match code {
            Some(v) => code_char(v),
            None => None,
        }
    }
}

/// The text from `i` with its entities decoded once: an entity runs from
/// `&` to the next `;`; one that stands for no character stays as it is.
pub open spec fn decode_from(v: Seq<char>, i: int) -> Seq<char>
    decreases v.len() - i,
{
    if i < 0 || i > v.len() {
        Seq::empty()
    } else {
        match find_from(v, i, seq!['&']) {
            None => v.subrange(i, v.len() as int),
            Some(a) => match find_from(v, a, seq![';']) {
                None => v.subrange(i, v.len() as int),
                Some(b) => v.subrange(i, a) + match entity_char(v.subrange(a + 1, b)) {
                    Some(c) => seq![c],
                    None => v.subrange(a, b + 1),
                } + if i < b + 1 <= v.len() { decode_from(v, b + 1) } else { Seq::empty() },
            },
        }
    }
}

/// The text of a tag named `name` at `p` (empty where it closes itself):
/// up to the next closing tag, entities decoded, which must close `name`.
pub open spec fn tag_value(s: Seq<char>, p: int, name: Seq<char>, closed: bool) -> Result<(Seq<char>, int), Failure> {
    if closed {
        Ok((Seq::empty(), p))
    } else {
        match find_from(s, p, seq!['<', '/']) {
            None => Err((p, "unexpected end of input"@)),
            Some(end) => match any_close_tag(s, end) {
                Err(f) => Err(f),
                Ok((found, q)) => if found != name {
                    Err((q, mismatch(name, found)))
                } else {
                    Ok((decode_from(s.subrange(p, end), 0), q))
                },
            },
        }
    }
}

/// Whether `a` comes before `b`, character by character.
pub open spec fn key_less(a: Seq<char>, b: Seq<char>) -> bool
    decreases a.len(),
{
    if a.len() == 0 {
        b.len() > 0
    } else if b.len() == 0 {
        false
    } else if a[0] != b[0] {
        (a[0] as u32) < (b[0] as u32)
    } else {
        key_less(a.drop_first(), b.drop_first())
    }
}

/// The entries, in key order, with `key` set to `value`.
pub open spec fn dict_insert(m: Seq<(Seq<char>, PlistView)>, key: Seq<char>, value: PlistView) -> Seq<(Seq<char>, PlistView)>
    decreases m.len(),
{
    if m.len() == 0 {
        seq![(key, value)]
    } else if m[0].0 == key {
        m.update(0, (key, value))
    } else if key_less(key, m[0].0) {
        seq![(key, value)] + m
    } else {
        seq![m[0]] + dict_insert(m.drop_first(), key, value)
    }
}

/// A value at `p` (after trivia) and the position after it.
pub open spec fn value_at(s: Seq<char>, p: int) -> Result<(PlistView, int), Failure>
    decreases s.len() - p, 0nat,
{
    match skip_trivia(s, p) {
        Err(f) => Err(f),
        Ok(q) => match open_tag(s, q) {
            Err(f) => Err(f),
            Ok((name, closed, q1)) => if !(p <= q && q < q1 && q1 <= s.len()) {
                Err((q1, "unexpected end of input"@))
            } else if name == "dict"@ {
                if closed { Ok((PlistView::Dict(Seq::empty()), q1)) } else { dict_at(s, q1, Seq::empty()) }
            } else if name == "array"@ {
                if closed { Ok((PlistView::Array(Seq::empty()), q1)) } else { array_at(s, q1, Seq::empty()) }
            } else {
                match tag_value(s, q1, name, closed) {
                    Err(f) => Err(f),
                    Ok((text, q2)) => if name == "string"@ || name == "date"@ || name == "data"@ {
                        Ok((PlistView::Text(text), q2))
                    } else if name == "real"@ {
                        match plist_real(text) {
                            Some(_) => Ok((PlistView::Real(text), q2)),
                            None => Err((q2, "cannot parse float"@)),
                        }
                    } else if name == "integer"@ {
                        match i64_value(text) {
                            Some(v) => Ok((PlistView::Integer(v), q2)),
                            None => Err((q2, "cannot parse integer"@)),
                        }
                    } else if name == "true"@ {
                        Ok((PlistView::Boolean(true), q2))
                    } else if name == "false"@ {
                        Ok((PlistView::Boolean(false), q2))
                    } else {
                        Err((q1, "unexpected opened tag "@ + name))
                    },
                }
            },
        },
    }
}

/// The rest of a dictionary from `p`, with the entries `m` read so far.
pub open spec fn dict_at(s: Seq<char>, p: int, m: Seq<(Seq<char>, PlistView)>) -> Result<(PlistView, int), Failure>
    decreases s.len() - p, 1nat,
{
    match skip_trivia(s, p) {
        Err(f) => Err(f),
        Ok(q) => if !(p <= q && q <= s.len()) {
            Err((q, "unexpected end of input"@))
        } else if close_tag_at(s, q, "dict"@) {
            match close_tag(s, q, "dict"@) {
                Err(f) => Err(f),
                Ok(q2) => Ok((PlistView::Dict(m), q2)),
            }
        } else {
            match open_tag(s, q) {
                Err(f) => Err(f),
                Ok((name, closed, q1)) => if name != "key"@ {
                    Err((q1, "missing <key>"@))
                } else if !(q < q1 && q1 <= s.len()) {
                    Err((q1, "unexpected end of input"@))
                } else {
                    match tag_value(s, q1, name, closed) {
                        Err(f) => Err(f),
                        Ok((key, q2)) => if !(q1 <= q2 && q2 <= s.len()) {
                            Err((q2, "unexpected end of input"@))
                        } else {
                            match value_at(s, q2) {
                                Err(f) => Err(f),
                                Ok((v, q3)) => if p < q3 && q3 <= s.len() {
                                    dict_at(s, q3, dict_insert(m, key, v))
                                } else {
                                    Err((q3, "unexpected end of input"@))
                                },
                            }
                        },
                    }
                },
            }
        },
    }
}

/// The rest of an array from `p`, with the elements `items` read so far.
pub open spec fn array_at(s: Seq<char>, p: int, items: Seq<PlistView>) -> Result<(PlistView, int), Failure>
    decreases s.len() - p, 1nat,
{
    match skip_trivia(s, p) {
        Err(f) => Err(f),
        Ok(q) => if !(p <= q && q <= s.len()) {
            Err((q, "unexpected end of input"@))
        } else if close_tag_at(s, q, "array"@) {
            match close_tag(s, q, "array"@) {
                Err(f) => Err(f),
                Ok(q2) => Ok((PlistView::Array(items), q2)),
            }
        } else {
            match value_at(s, q) {
                Err(f) => Err(f),
                Ok((v, q3)) => if p < q3 && q3 <= s.len() {
                    array_at(s, q3, items.push(v))
                } else {
                    Err((q3, "unexpected end of input"@))
                },
            }
        },
    }
}

fn space(c: char) -> (r: bool)
    ensures
        r == is_space(c),
{
    ('\u{9}' <= c && c <= '\u{d}') || c == ' ' || c == '\u{85}' || c == '\u{a0}' || c == '\u{1680}' || ('\u{2000}' <= c
        && c <= '\u{200a}') || c == '\u{2028}' || c == '\u{2029}' || c == '\u{202f}' || c == '\u{205f}' || c == '\u{3000}'
}

fn skip_spaces_exec(s: &Vec<char>, p: usize) -> (r: usize)
    requires
        p <= s.len(),
    ensures
        r == skip_spaces(s@, p as int),
        p <= r <= s.len(),
{
    let mut q = p;
    while q < s.len() && space(s[q])
        invariant
            p <= q <= s.len(),
            skip_spaces(s@, q as int) == skip_spaces(s@, p as int),
        decreases s.len() - q,
    {
        q += 1;
    }
    q
}

fn at_exec(s: &Vec<char>, p: usize, t: &[char]) -> (r: bool)
    ensures
        r == at(s@, p as int, t@),
{
    if p > s.len() || t.len() > s.len() - p {
        return false;
    }
    let mut k: usize = 0;
    while k < t.len()
        invariant
            k <= t.len(),
            p + t.len() <= s.len(),
            forall|j: int| 0 <= j < k ==> s@[p + j] == t@[j],
        decreases t.len() - k,
    {
        if s[p + k] != t[k] {
            assert(s@.subrange(p as int, p + t@.len())[k as int] != t@[k as int]);
            return false;
        }
        k += 1;
    }
    assert(s@.subrange(p as int, p + t@.len()) =~= t@);
    true
}

fn find_exec(s: &Vec<char>, p: usize, t: &[char]) -> (r: Option<usize>)
    requires
        p <= s.len(),
    ensures
        match r {
            Some(i) => find_from(s@, p as int, t@) == Some(i as int) && p <= i && i + t@.len() <= s.len() && at(s@, i as int, t@),
            None => find_from(s@, p as int, t@) is None,
        },
{
    let mut q = p;
    loop
        invariant
            p <= q <= s.len(),
            find_from(s@, q as int, t@) == find_from(s@, p as int, t@),
        decreases s.len() - q,
    {
        if t.len() > s.len() - q {
            return None;
        }
        if at_exec(s, q, t) {
            return Some(q);
        }
        if q == s.len() {
            assert(t@.len() == 0);
            assert(at(s@, q as int, t@)) by {
                assert(s@.subrange(q as int, q as int) =~= t@);
            }
        }
        q += 1;
    }
}

fn trim_exec(t: &Vec<char>) -> (r: Vec<char>)
    ensures
        r@ == trim(t@),
{
    let mut a: usize = 0;
    assert(t@.subrange(0, t@.len() as int) =~= t@);
    while a < t.len() && space(t[a])
        invariant
            a <= t.len(),
            trim_start(t@.subrange(a as int, t@.len() as int)) == trim_start(t@),
        decreases t.len() - a,
    {
        assert(t@.subrange(a as int, t@.len() as int).drop_first() =~= t@.subrange(a + 1, t@.len() as int));
        a += 1;
    }
    assert(trim_start(t@.subrange(a as int, t@.len() as int)) == t@.subrange(a as int, t@.len() as int));
    let mut b: usize = t.len();
    while b > a && space(t[b - 1])
        invariant
            a <= b <= t.len(),
            trim_end(t@.subrange(a as int, b as int)) == trim(t@),
        decreases b,
    {
        assert(t@.subrange(a as int, b as int).drop_last() =~= t@.subrange(a as int, b - 1));
        b -= 1;
    }
    let r = crate::text::sub_chars(t.as_slice(), a, b);
    r
}

fn trim_end_exec(t: &Vec<char>) -> (r: Vec<char>)
    ensures
        r@ == trim_end(t@),
{
    let mut b: usize = t.len();
    assert(t@.subrange(0, b as int) =~= t@);
    while b > 0 && space(t[b - 1])
        invariant
            b <= t.len(),
            trim_end(t@.subrange(0, b as int)) == trim_end(t@),
        decreases b,
    {
        assert(t@.subrange(0, b as int).drop_last() =~= t@.subrange(0, b - 1));
        b -= 1;
    }
    crate::text::sub_chars(t.as_slice(), 0, b)
}

fn fail(p: usize, message: &str) -> (r: (usize, String))
    ensures
        r.0 == p,
        r.1@ == message@,
{
    (p, message.to_string())
}

/// A failure as plain values.
pub open spec fn failure_view(e: (usize, String)) -> Failure {
    (e.0 as int, e.1@)
}

fn skip_trivia_exec(s: &Vec<char>, p: usize) -> (r: Result<usize, (usize, String)>)
    requires
        p <= s.len(),
    ensures
        match r {
            Ok(q) => skip_trivia(s@, p as int) == Ok::<int, Failure>(q as int) && p <= q <= s.len(),
            Err(e) => skip_trivia(s@, p as int) == Err::<int, Failure>(failure_view(e)) && e.0 <= s.len(),
        },
    decreases s.len() - p,
{
    let q = skip_spaces_exec(s, p);
    let pi_open = ['<', '?'];
    let pi_close = ['?', '>'];
    let comment_open = ['<', '!', '-', '-'];
    let comment_close = ['-', '-', '>'];
    let decl_open = ['<', '!'];
    let decl_close = ['>'];
    assert(pi_open@ =~= seq!['<', '?']);
    assert(pi_close@ =~= seq!['?', '>']);
    assert(comment_open@ =~= seq!['<', '!', '-', '-']);
    assert(comment_close@ =~= seq!['-', '-', '>']);
    assert(decl_open@ =~= seq!['<', '!']);
    assert(decl_close@ =~= seq!['>']);
    let next: Result<usize, (usize, String)> = if at_exec(s, q, &pi_open) {
        match find_exec(s, q, &pi_close) {
            Some(e) => Ok(e + 2),
            None => Err(fail(q, "unexpected end of input")),
        }
    } else if at_exec(s, q, &comment_open) {
        match find_exec(s, q, &comment_close) {
            Some(e) => Ok(e + 3),
            None => Err(fail(q, "unexpected end of input")),
        }
    } else if at_exec(s, q, &decl_open) {
        match find_exec(s, q, &decl_close) {
            Some(e) => Ok(e + 1),
            None => Err(fail(q, "unexpected end of input")),
        }
    } else {
        Ok(q)
    };
    match next {
        Err(e) => Err(e),
        Ok(n) => {
            if n == p {
                Ok(n)
            } else {
                skip_trivia_exec(s, n)
            }
        },
    }
}

fn open_tag_exec(s: &Vec<char>, p: usize) -> (r: Result<(Vec<char>, bool, usize), (usize, String)>)
    requires
        p <= s.len(),
    ensures
        match r {
            Ok((name, closed, q)) => open_tag(s@, p as int) == Ok::<(Seq<char>, bool, int), Failure>((name@, closed, q as int))
                && p < q <= s.len(),
            Err(e) => open_tag(s@, p as int) == Err::<(Seq<char>, bool, int), Failure>(failure_view(e)) && e.0 <= s.len(),
        },
{
    if !(p < s.len() && s[p] == '<') {
        return Err(fail(p, "expected <"));
    }
    if p + 1 < s.len() && s[p + 1] == '/' {
        return Err(fail(p + 1, "unexpected closed tag"));
    }
    let gt = ['>'];
    assert(gt@ =~= seq!['>']);
    match find_exec(s, p + 1, &gt) {
        None => Err(fail(p + 1, "unexpected end of input")),
        Some(e) => {
            let raw = trim_exec(&crate::text::sub_chars(s.as_slice(), p + 1, e));
            let closed = raw.len() > 0 && raw[raw.len() - 1] == '/';
            let cut = if closed {
                crate::text::sub_chars(raw.as_slice(), 0, raw.len() - 1)
            } else {
                raw
            };
            proof {
                if closed {
                    assert(cut@ =~= trim(s@.subrange(p + 1, e as int)).drop_last());
                }
            }
            let name = trim_end_exec(&cut);
            Ok((name, closed, e + 1))
        },
    }
}

fn any_close_tag_exec(s: &Vec<char>, p: usize) -> (r: Result<(Vec<char>, usize), (usize, String)>)
    requires
        p <= s.len(),
    ensures
        match r {
            Ok((name, q)) => any_close_tag(s@, p as int) == Ok::<(Seq<char>, int), Failure>((name@, q as int)) && p < q <= s.len(),
            Err(e) => any_close_tag(s@, p as int) == Err::<(Seq<char>, int), Failure>(failure_view(e)) && e.0 <= s.len(),
        },
{
    let open = ['<', '/'];
    let gt = ['>'];
    assert(open@ =~= seq!['<', '/']);
    assert(gt@ =~= seq!['>']);
    if !at_exec(s, p, &open) {
        return Err(fail(p, "expected closed tag"));
    }
    match find_exec(s, p + 2, &gt) {
        None => Err(fail(p + 2, "unexpected end of input")),
        Some(e) => {
            let name = trim_exec(&crate::text::sub_chars(s.as_slice(), p + 2, e));
            Ok((name, e + 1))
        },
    }
}

fn mismatch_message(expected: &Vec<char>, found: &Vec<char>) -> (r: String)
    ensures
        r@ == mismatch(expected@, found@),
{
    let mut v: Vec<char> = Vec::new();
    crate::text::push_str_chars(&mut v, "expected </");
    crate::text::push_chars(&mut v, expected.as_slice());
    crate::text::push_str_chars(&mut v, ">, found </");
    crate::text::push_chars(&mut v, found.as_slice());
    crate::text::push_str_chars(&mut v, ">");
    crate::text::string_from_chars(v.as_slice())
}

fn close_tag_exec(s: &Vec<char>, p: usize, name: &Vec<char>) -> (r: Result<usize, (usize, String)>)
    requires
        p <= s.len(),
    ensures
        match r {
            Ok(q) => close_tag(s@, p as int, name@) == Ok::<int, Failure>(q as int) && p < q <= s.len(),
            Err(e) => close_tag(s@, p as int, name@) == Err::<int, Failure>(failure_view(e)) && e.0 <= s.len(),
        },
{
    match any_close_tag_exec(s, p) {
        Err(e) => Err(e),
        Ok((found, q)) => {
            if !crate::text::chars_eq(found.as_slice(), name.as_slice()) {
                Err((q, mismatch_message(name, &found)))
            } else {
                Ok(q)
            }
        },
    }
}

fn close_tag_at_exec(s: &Vec<char>, p: usize, name: &Vec<char>) -> (r: bool)
    requires
        p <= s.len(),
    ensures
        r == close_tag_at(s@, p as int, name@),
{
    let open = ['<', '/'];
    assert(open@ =~= seq!['<', '/']);
    if !at_exec(s, p, &open) {
        return false;
    }
    if !at_exec(s, p + 2, name.as_slice()) {
        return false;
    }
    let r = skip_spaces_exec(s, p + 2 + name.len());
    r < s.len() && s[r] == '>'
}

fn digit_exec(c: char, radix: u64) -> (r: Option<u64>)
    requires
        radix <= 36,
    ensures
        match r {
            Some(v) => digit_value(c, radix as nat) == Some(v as nat),
            None => digit_value(c, radix as nat) is None,
        },
{
    let v: u64 = if '0' <= c && c <= '9' {
        (c as u32 - '0' as u32) as u64
    } else if 'a' <= c && c <= 'z' {
        (c as u32 - 'a' as u32 + 10) as u64
    } else if 'A' <= c && c <= 'Z' {
        (c as u32 - 'A' as u32 + 10) as u64
    } else {
        100
    };
    if v < radix {
        Some(v)
    } else {
        None
    }
}

proof fn lemma_digits_grow(d: Seq<char>, k: int, n: int, radix: nat)
    requires
        0 <= k <= n <= d.len(),
        radix >= 1,
        digits_value(d, n, radix) is Some,
    ensures
        digits_value(d, k, radix) is Some,
        digits_value(d, k, radix)->Some_0 <= digits_value(d, n, radix)->Some_0,
    decreases n - k,
{
    if k < n {
        lemma_digits_grow(d, k, n - 1, radix);
        let a = digits_value(d, n - 1, radix)->Some_0;
        let b = digit_value(d[n - 1], radix)->Some_0;
        assert(a * radix + b >= a) by (nonlinear_arith)
            requires
                radix >= 1;
    }
}

/// The number that the digits of `d` stand for, where all are digits and
/// it is at most `cap`.
fn digits_exec(d: &Vec<char>, radix: u64, cap: u64) -> (r: Option<u64>)
    requires
        2 <= radix <= 36,
    ensures
        match r {
            Some(v) => digits_value(d@, d@.len() as int, radix as nat) == Some(v as nat) && v <= cap,
            None => digits_value(d@, d@.len() as int, radix as nat) is None || digits_value(
                d@,
                d@.len() as int,
                radix as nat,
            )->Some_0 > cap,
        },
{
    let mut acc: u64 = 0;
    let mut i: usize = 0;
    while i < d.len()
        invariant
            i <= d.len(),
            2 <= radix <= 36,
            digits_value(d@, i as int, radix as nat) == Some(acc as nat),
            acc <= cap,
        decreases d.len() - i,
    {
        let dv = match digit_exec(d[i], radix) {
            Some(v) => v,
            None => {
                proof {
                    if digits_value(d@, d@.len() as int, radix as nat) is Some {
                        lemma_digits_grow(d@, i + 1, d@.len() as int, radix as nat);
                    }
                }
                return None;
            },
        };
        assert((acc as u128) * (radix as u128) <= 0xffff_ffff_ffff_ffff * 36) by (nonlinear_arith)
            requires
                acc <= 0xffff_ffff_ffff_ffffu64,
                radix <= 36;
        let next: u128 = (acc as u128) * (radix as u128) + (dv as u128);
        assert(next == acc * radix + dv);
        if next > cap as u128 {
            proof {
                if digits_value(d@, d@.len() as int, radix as nat) is Some {
                    lemma_digits_grow(d@, i + 1, d@.len() as int, radix as nat);
                }
            }
            return None;
        }
        acc = next as u64;
        i += 1;
    }
    Some(acc)
}

/// `char::from_u32`: the character of a code, none for a surrogate or a
/// code above `0x10FFFF`.
#[verifier::external_body]
fn char_from_code(v: u32) -> (r: Option<char>)
    ensures
        r == code_char(v),
{
    char::from_u32(v)
}

fn u32_exec(t: &Vec<char>, radix: u64) -> (r: Option<u32>)
    requires
        2 <= radix <= 36,
    ensures
        r == u32_value(t@, radix as nat),
{
    let d = if t.len() > 0 && t[0] == '+' { crate::text::sub_chars(t.as_slice(), 1, t.len()) } else { crate::text::sub_chars(t.as_slice(), 0, t.len()) };
    assert(d@ == (if t@.len() > 0 && t@[0] == '+' { t@.drop_first() } else { t@ }));
    if d.len() == 0 {
        return None;
    }
    match digits_exec(&d, radix, 0xffff_ffff) {
        Some(v) => Some(v as u32),
        None => None,
    }
}

fn i64_exec(t: &Vec<char>) -> (r: Option<i64>)
    ensures
        r == i64_value(t@),
{
    let negative = t.len() > 0 && t[0] == '-';
    let d = if t.len() > 0 && (t[0] == '+' || t[0] == '-') {
        crate::text::sub_chars(t.as_slice(), 1, t.len())
    } else {
        crate::text::sub_chars(t.as_slice(), 0, t.len())
    };
    assert(d@ == (if t@.len() > 0 && (t@[0] == '+' || t@[0] == '-') { t@.drop_first() } else { t@ }));
    if d.len() == 0 {
        return None;
    }
    if negative {
        match digits_exec(&d, 10, 0x8000_0000_0000_0000) {
            Some(v) => {
                if v == 0x8000_0000_0000_0000 {
                    Some(i64::MIN)
                } else {
                    Some(-(v as i64))
                }
            },
            None => None,
        }
    } else {
        match digits_exec(&d, 10, 0x7fff_ffff_ffff_ffff) {
            Some(v) => Some(v as i64),
            None => None,
        }
    }
}

fn entity_exec(e: &Vec<char>) -> (r: Option<char>)
    ensures
        r == entity_char(e@),
{
    let amp = ['a', 'm', 'p'];
    let lt = ['l', 't'];
    let gt = ['g', 't'];
    let quot = ['q', 'u', 'o', 't'];
    let apos = ['a', 'p', 'o', 's'];
    proof {
        reveal_strlit("amp");
        reveal_strlit("lt");
        reveal_strlit("gt");
        reveal_strlit("quot");
        reveal_strlit("apos");
        assert(amp@ =~= "amp"@);
        assert(lt@ =~= "lt"@);
        assert(gt@ =~= "gt"@);
        assert(quot@ =~= "quot"@);
        assert(apos@ =~= "apos"@);
    }
    if crate::text::chars_eq(e.as_slice(), &amp) {
        return Some('&');
    }
    if crate::text::chars_eq(e.as_slice(), &lt) {
        return Some('<');
    }
    if crate::text::chars_eq(e.as_slice(), &gt) {
        return Some('>');
    }
    if crate::text::chars_eq(e.as_slice(), &quot) {
        return Some('"');
    }
    if crate::text::chars_eq(e.as_slice(), &apos) {
        return Some('\'');
    }
    let hex = if e.len() >= 2 && e[0] == '#' && e[1] == 'x' {
        u32_exec(&crate::text::sub_chars(e.as_slice(), 2, e.len()), 16)
    } else {
        None
    };
    let code = match hex {
        Some(v) => Some(v),
        None => if e.len() >= 1 && e[0] == '#' {
            let rest = crate::text::sub_chars(e.as_slice(), 1, e.len());
            assert(rest@ =~= e@.drop_first());
            u32_exec(&rest, 10)
        } else {
            None
        },
    };
    match code {
        Some(v) => char_from_code(v),
        None => None,
    }
}

fn decode_exec(v: &Vec<char>) -> (r: Vec<char>)
    ensures
        r@ == decode_from(v@, 0),
{
    let amp = ['&'];
    let semi = [';'];
    assert(amp@ =~= seq!['&']);
    assert(semi@ =~= seq![';']);
    let mut out: Vec<char> = Vec::new();
    let mut i: usize = 0;
    loop
        invariant
            i <= v.len(),
            amp@ == seq!['&'],
            semi@ == seq![';'],
            out@ + decode_from(v@, i as int) == decode_from(v@, 0),
        decreases v.len() - i,
    {
        let ghost old_out = out@;
        match find_exec(v, i, &amp) {
            None => {
                crate::text::push_chars(&mut out, crate::text::sub_chars(v.as_slice(), i, v.len()).as_slice());
                assert(decode_from(v@, i as int) == v@.subrange(i as int, v@.len() as int));
                return out;
            },
            Some(a) => match find_exec(v, a, &semi) {
                None => {
                    crate::text::push_chars(&mut out, crate::text::sub_chars(v.as_slice(), i, v.len()).as_slice());
                    assert(decode_from(v@, i as int) == v@.subrange(i as int, v@.len() as int));
                    return out;
                },
                Some(b) => {
                    assert(v@.subrange(a as int, a + 1)[0] == '&');
                    assert(v@.subrange(b as int, b + 1)[0] == ';');
                    assert(a < b);
                    crate::text::push_chars(&mut out, crate::text::sub_chars(v.as_slice(), i, a).as_slice());
                    let name = crate::text::sub_chars(v.as_slice(), a + 1, b);
                    let piece = match entity_exec(&name) {
                        Some(c) => {
                            let mut one: Vec<char> = Vec::new();
                            one.push(c);
                            one
                        },
                        None => crate::text::sub_chars(v.as_slice(), a, b + 1),
                    };
                    crate::text::push_chars(&mut out, piece.as_slice());
                    proof {
                        assert(out@ =~= old_out + v@.subrange(i as int, a as int) + piece@);
                        assert(piece@ == match entity_char(v@.subrange(a + 1, b as int)) {
                            Some(c) => seq![c],
                            None => v@.subrange(a as int, b + 1),
                        });
                    }
                    i = b + 1;
                }
            },
        }
    }
}

fn tag_value_exec(s: &Vec<char>, p: usize, name: &Vec<char>, closed: bool) -> (r: Result<(Vec<char>, usize), (usize, String)>)
    requires
        p <= s.len(),
    ensures
        match r {
            Ok((text, q)) => tag_value(s@, p as int, name@, closed) == Ok::<(Seq<char>, int), Failure>((text@, q as int)) && p <= q
                <= s.len(),
            Err(e) => tag_value(s@, p as int, name@, closed) == Err::<(Seq<char>, int), Failure>(failure_view(e)) && e.0 <= s.len(),
        },
{
    if closed {
        return Ok((Vec::new(), p));
    }
    let open = ['<', '/'];
    assert(open@ =~= seq!['<', '/']);
    match find_exec(s, p, &open) {
        None => Err(fail(p, "unexpected end of input")),
        Some(end) => match any_close_tag_exec(s, end) {
            Err(e) => Err(e),
            Ok((found, q)) => {
                if !crate::text::chars_eq(found.as_slice(), name.as_slice()) {
                    Err((q, mismatch_message(name, &found)))
                } else {
                    let text = decode_exec(&crate::text::sub_chars(s.as_slice(), p, end));
                    Ok((text, q))
                }
            },
        },
    }
}

/// `str::parse` to a double, then `serde_json::Number::from_f64`: the JSON
/// number a real's text reads as (named `plist_real`).
#[verifier::external_body]
fn real_value(text: &str) -> (r: Option<JsonValue>)
    ensures
        r == plist_real(text@),
{
    let number = serde_json::Number::from_f64(text.parse().ok()?)?;
    Some(json_from_serde(serde_json::Value::Number(number)))
}

/// Whether the members are the JSON form of the entries, one for one.
pub open spec fn entries_rel(ms: Seq<(String, JsonValue)>, m: Seq<(Seq<char>, PlistView)>) -> bool {
    ms.len() == m.len() && forall|i: int| 0 <= i < m.len() ==> (#[trigger] ms[i]).0@ == m[i].0 && json_of(ms[i].1, m[i].1)
}

fn key_less_exec(a: &Vec<char>, b: &Vec<char>) -> (r: bool)
    ensures
        r == key_less(a@, b@),
{
    let mut i: usize = 0;
    assert(a@.subrange(0, a@.len() as int) =~= a@);
    assert(b@.subrange(0, b@.len() as int) =~= b@);
    while i < a.len() && i < b.len() && a[i] == b[i]
        invariant
            i <= a.len(),
            i <= b.len(),
            key_less(a@.subrange(i as int, a@.len() as int), b@.subrange(i as int, b@.len() as int)) == key_less(a@, b@),
        decreases a.len() - i,
    {
        assert(a@.subrange(i as int, a@.len() as int).drop_first() =~= a@.subrange(i + 1, a@.len() as int));
        assert(b@.subrange(i as int, b@.len() as int).drop_first() =~= b@.subrange(i + 1, b@.len() as int));
        i += 1;
    }
    if i == a.len() {
        i < b.len()
    } else if i == b.len() {
        false
    } else {
        (a[i] as u32) < (b[i] as u32)
    }
}

proof fn lemma_dict_insert_at(m: Seq<(Seq<char>, PlistView)>, k: Seq<char>, v: PlistView, i: int)
    requires
        0 <= i <= m.len(),
        forall|j: int| 0 <= j < i ==> (#[trigger] m[j]).0 != k && !key_less(k, m[j].0),
        i < m.len() ==> (m[i].0 == k || key_less(k, m[i].0)),
    ensures
        dict_insert(m, k, v) == if i < m.len() && m[i].0 == k {
            m.update(i, (k, v))
        } else {
            m.take(i) + seq![(k, v)] + m.skip(i)
        },
    decreases i,
{
    if i == 0 {
        if m.len() == 0 {
            assert(m.take(0) + seq![(k, v)] + m.skip(0) =~= seq![(k, v)]);
        } else if m[0].0 != k {
            assert(m.take(0) + seq![(k, v)] + m.skip(0) =~= seq![(k, v)] + m);
        }
    } else {
        let rest = m.drop_first();
        assert forall|j: int| 0 <= j < i - 1 implies (#[trigger] rest[j]).0 != k && !key_less(k, rest[j].0) by {
            assert(rest[j] == m[j + 1]);
        }
        lemma_dict_insert_at(rest, k, v, i - 1);
        assert(m[0].0 != k && !key_less(k, m[0].0));
        if i < m.len() && m[i].0 == k {
            assert(seq![m[0]] + rest.update(i - 1, (k, v)) =~= m.update(i, (k, v)));
        } else {
            assert(seq![m[0]] + (rest.take(i - 1) + seq![(k, v)] + rest.skip(i - 1)) =~= m.take(i) + seq![(k, v)] + m.skip(i));
        }
    }
}

fn dict_insert_exec(
    members: &mut Vec<(String, JsonValue)>,
    key: String,
    value: JsonValue,
    Ghost(m): Ghost<Seq<(Seq<char>, PlistView)>>,
    Ghost(pv): Ghost<PlistView>,
)
    requires
        entries_rel(old(members)@, m),
        json_of(value, pv),
    ensures
        entries_rel(final(members)@, dict_insert(m, key@, pv)),
{
    let kc = crate::text::chars_of(key.as_str());
    let mut i: usize = 0;
    while i < members.len()
        invariant
            i <= members.len(),
            entries_rel(members@, m),
            kc@ == key@,
            json_of(value, pv),
            forall|j: int| 0 <= j < i ==> (#[trigger] m[j]).0 != key@ && !key_less(key@, m[j].0),
        decreases members.len() - i,
    {
        let other = crate::text::chars_of(members[i].0.as_str());
        if crate::text::chars_eq(kc.as_slice(), other.as_slice()) {
            proof {
                lemma_dict_insert_at(m, key@, pv, i as int);
            }
            let ghost before = members@;
            let e = (key, value);
            let ghost entry = e;
            members.set(i, e);
            proof {
                let d = m.update(i as int, (entry.0@, pv));
                assert forall|j: int| 0 <= j < d.len() implies (#[trigger] members@[j]).0@ == d[j].0 && json_of(members@[j].1, d[j].1) by {
                    if j != i {
                        assert(members@[j] == before[j]);
                        assert(before[j].0@ == m[j].0);
                    } else {
                        assert(members@[j] == entry);
                    }
                }
            }
            return;
        }
        if key_less_exec(&kc, &other) {
            proof {
                lemma_dict_insert_at(m, key@, pv, i as int);
            }
            let ghost before = members@;
            let e = (key, value);
            let ghost entry = e;
            members.insert(i, e);
            proof {
                let d = m.take(i as int) + seq![(entry.0@, pv)] + m.skip(i as int);
                assert forall|j: int| 0 <= j < d.len() implies (#[trigger] members@[j]).0@ == d[j].0 && json_of(members@[j].1, d[j].1) by {
                    if j < i {
                        assert(members@[j] == before[j]);
                        assert(before[j].0@ == m[j].0);
                    } else if j > i {
                        assert(members@[j] == before[j - 1]);
                        assert(before[j - 1].0@ == m[j - 1].0);
                    } else {
                        assert(members@[j] == entry);
                    }
                }
            }
            return;
        }
        i += 1;
    }
    proof {
        lemma_dict_insert_at(m, key@, pv, i as int);
    }
    let ghost before = members@;
    let e = (key, value);
    let ghost entry = e;
    members.push(e);
    proof {
        let d = m.take(i as int) + seq![(entry.0@, pv)] + m.skip(i as int);
        assert forall|j: int| 0 <= j < d.len() implies (#[trigger] members@[j]).0@ == d[j].0 && json_of(members@[j].1, d[j].1) by {
            if j < i {
                assert(members@[j] == before[j]);
                assert(before[j].0@ == m[j].0);
            } else {
                assert(members@[j] == entry);
            }
        }
    }
}

fn name_is(name: &Vec<char>, literal: &str) -> (r: bool)
    ensures
        r == (name@ == literal@),
{
    let l = crate::text::chars_of(literal);
    crate::text::chars_eq(name.as_slice(), l.as_slice())
}

/// The value at `p`, as `value_at` describes it.
fn value_exec(s: &Vec<char>, p: usize) -> (r: Result<(JsonValue, usize), (usize, String)>)
    requires
        p <= s.len(),
    ensures
        match (r, value_at(s@, p as int)) {
            (Ok((v, q)), Ok((pv, q2))) => q == q2 && json_of(v, pv) && p < q <= s.len(),
            (Err(e), Err(f)) => failure_view(e) == f && e.0 <= s.len(),
            _ => false,
        },
    decreases s.len() - p, 0nat,
{
    let q = match skip_trivia_exec(s, p) {
        Err(e) => return Err(e),
        Ok(q) => q,
    };
    let (name, closed, q1) = match open_tag_exec(s, q) {
        Err(e) => return Err(e),
        Ok(t) => t,
    };
    if name_is(&name, "dict") {
        if closed {
            return Ok((JsonValue::Object(Vec::new()), q1));
        }
        return dict_exec(s, q1);
    }
    if name_is(&name, "array") {
        if closed {
            return Ok((JsonValue::Array(Vec::new()), q1));
        }
        return array_exec(s, q1);
    }
    let (text, q2) = match tag_value_exec(s, q1, &name, closed) {
        Err(e) => return Err(e),
        Ok(t) => t,
    };
    if name_is(&name, "string") || name_is(&name, "date") || name_is(&name, "data") {
        Ok((JsonValue::String(crate::text::string_from_chars(text.as_slice())), q2))
    } else if name_is(&name, "real") {
        let t = crate::text::string_from_chars(text.as_slice());
        match real_value(t.as_str()) {
            Some(v) => Ok((v, q2)),
            None => Err(fail(q2, "cannot parse float")),
        }
    } else if name_is(&name, "integer") {
        match i64_exec(&text) {
            Some(v) => Ok((crate::json::json_integer(v), q2)),
            None => Err(fail(q2, "cannot parse integer")),
        }
    } else if name_is(&name, "true") {
        Ok((JsonValue::Bool(true), q2))
    } else if name_is(&name, "false") {
        Ok((JsonValue::Bool(false), q2))
    } else {
        let mut m: Vec<char> = Vec::new();
        crate::text::push_str_chars(&mut m, "unexpected opened tag ");
        crate::text::push_chars(&mut m, name.as_slice());
        Err((q1, crate::text::string_from_chars(m.as_slice())))
    }
}

/// The rest of a dictionary from `p`, as `dict_at` describes it.
fn dict_exec(s: &Vec<char>, p: usize) -> (r: Result<(JsonValue, usize), (usize, String)>)
    requires
        p <= s.len(),
    ensures
        match (r, dict_at(s@, p as int, Seq::empty())) {
            (Ok((v, q)), Ok((pv, q2))) => q == q2 && json_of(v, pv) && p < q <= s.len(),
            (Err(e), Err(f)) => failure_view(e) == f && e.0 <= s.len(),
            _ => false,
        },
    decreases s.len() - p, 1nat,
{
    let mut members: Vec<(String, JsonValue)> = Vec::new();
    let ghost mut m: Seq<(Seq<char>, PlistView)> = Seq::empty();
    let mut pos = p;
    let dict_name = crate::text::chars_of("dict");
    let key_name = crate::text::chars_of("key");
    loop
        invariant
            p <= pos <= s.len(),
            entries_rel(members@, m),
            dict_at(s@, pos as int, m) == dict_at(s@, p as int, Seq::empty()),
            dict_name@ == "dict"@,
            key_name@ == "key"@,
        decreases s.len() - pos,
    {
        let q = match skip_trivia_exec(s, pos) {
            Err(e) => return Err(e),
            Ok(q) => q,
        };
        if close_tag_at_exec(s, q, &dict_name) {
            return match close_tag_exec(s, q, &dict_name) {
                Err(e) => Err(e),
                Ok(q2) => {
                    assert(json_of(JsonValue::Object(members), PlistView::Dict(m)));
                    Ok((JsonValue::Object(members), q2))
                },
            };
        }
        let (name, closed, q1) = match open_tag_exec(s, q) {
            Err(e) => return Err(e),
            Ok(t) => t,
        };
        if !crate::text::chars_eq(name.as_slice(), key_name.as_slice()) {
            return Err(fail(q1, "missing <key>"));
        }
        let (key, q2) = match tag_value_exec(s, q1, &name, closed) {
            Err(e) => return Err(e),
            Ok(t) => t,
        };
        let (v, q3) = match value_exec(s, q2) {
            Err(e) => return Err(e),
            Ok(t) => t,
        };
        let ghost pv = value_at(s@, q2 as int)->Ok_0.0;
        let key_text = crate::text::string_from_chars(key.as_slice());
        dict_insert_exec(&mut members, key_text, v, Ghost(m), Ghost(pv));
        proof {
            m = dict_insert(m, key@, pv);
        }
        pos = q3;
    }
}

/// The rest of an array from `p`, as `array_at` describes it.
fn array_exec(s: &Vec<char>, p: usize) -> (r: Result<(JsonValue, usize), (usize, String)>)
    requires
        p <= s.len(),
    ensures
        match (r, array_at(s@, p as int, Seq::empty())) {
            (Ok((v, q)), Ok((pv, q2))) => q == q2 && json_of(v, pv) && p < q <= s.len(),
            (Err(e), Err(f)) => failure_view(e) == f && e.0 <= s.len(),
            _ => false,
        },
    decreases s.len() - p, 1nat,
{
    let mut items: Vec<JsonValue> = Vec::new();
    let ghost mut a: Seq<PlistView> = Seq::empty();
    let mut pos = p;
    let array_name = crate::text::chars_of("array");
    loop
        invariant
            p <= pos <= s.len(),
            items@.len() == a.len(),
            forall|i: int| 0 <= i < a.len() ==> json_of(#[trigger] items@[i], a[i]),
            array_at(s@, pos as int, a) == array_at(s@, p as int, Seq::empty()),
            array_name@ == "array"@,
        decreases s.len() - pos,
    {
        let q = match skip_trivia_exec(s, pos) {
            Err(e) => return Err(e),
            Ok(q) => q,
        };
        if close_tag_at_exec(s, q, &array_name) {
            return match close_tag_exec(s, q, &array_name) {
                Err(e) => Err(e),
                Ok(q2) => {
                    assert(json_of(JsonValue::Array(items), PlistView::Array(a)));
                    Ok((JsonValue::Array(items), q2))
                },
            };
        }
        let (v, q3) = match value_exec(s, q) {
            Err(e) => return Err(e),
            Ok(t) => t,
        };
        let ghost pv = value_at(s@, q as int)->Ok_0.0;
        items.push(v);
        proof {
            a = a.push(pv);
        }
        pos = q3;
    }
}

/// The text without a leading byte-order mark.
pub open spec fn without_bom(s: Seq<char>) -> Seq<char> {
    if s.len() > 0 && s[0] == '\u{feff}' { s.drop_first() } else { s }
}

/// The name of the opening tag at `p`, without moving past it.
pub open spec fn peek_name(s: Seq<char>, p: int) -> Result<Seq<char>, Failure> {
    if !(0 <= p < s.len() && s[p] == '<') {
        Err((p, "expected <"@))
    } else {
        match find_from(s, p + 1, seq!['>']) {
            None => Err((p, "unexpected end of input"@)),
            Some(e) => Ok(trim(s.subrange(p + 1, e))),
        }
    }
}

/// After the root value at `p`: only trivia may follow.
pub open spec fn root_end(s: Seq<char>, v: PlistView, p: int) -> Result<PlistView, Failure> {
    match skip_trivia(s, p) {
        Err(f) => Err(f),
        Ok(q) => if q != s.len() { Err((q, "too many constructs in root"@)) } else { Ok(v) },
    }
}

/// The root of a document: a value, either inside a `plist` element (whose
/// opening tag is any whose name starts with `plist`) or on its own.
pub open spec fn plist_root(s: Seq<char>) -> Result<PlistView, Failure> {
    match skip_trivia(s, 0) {
        Err(f) => Err(f),
        Ok(q) => match peek_name(s, q) {
            Err(f) => Err(f),
            Ok(name) => if name.len() >= 5 && name.take(5) == "plist"@ {
                match open_tag(s, q) {
                    Err(f) => Err(f),
                    Ok((_, _, q1)) => match skip_trivia(s, q1) {
                        Err(f) => Err(f),
                        Ok(q2) => match value_at(s, q2) {
                            Err(f) => Err(f),
                            Ok((v, q3)) => match skip_trivia(s, q3) {
                                Err(f) => Err(f),
                                Ok(q4) => match close_tag(s, q4, "plist"@) {
                                    Err(f) => Err(f),
                                    Ok(q5) => root_end(s, v, q5),
                                },
                            },
                        },
                    },
                }
            } else {
                match value_at(s, q) {
                    Err(f) => Err(f),
                    Ok((v, q3)) => root_end(s, v, q3),
                }
            },
        },
    }
}

/// A property-list document: its root value, or where and why reading it
/// failed (a position in the text without its byte-order mark).
pub open spec fn plist_document(content: Seq<char>) -> Result<PlistView, Failure> {
    plist_root(without_bom(content))
}

/// Why a property list could not be read: the byte offset (in the text
/// without its byte-order mark) and a message.
#[derive(Clone, Debug, PartialEq, Eq)]
pub struct PlistError {
    pub offset: usize,
    pub message: String,
}

fn peek_name_exec(s: &Vec<char>, p: usize) -> (r: Result<Vec<char>, (usize, String)>)
    requires
        p <= s.len(),
    ensures
        match r {
            Ok(name) => peek_name(s@, p as int) == Ok::<Seq<char>, Failure>(name@),
            Err(e) => peek_name(s@, p as int) == Err::<Seq<char>, Failure>(failure_view(e)) && e.0 <= s.len(),
        },
{
    if !(p < s.len() && s[p] == '<') {
        return Err(fail(p, "expected <"));
    }
    let gt = ['>'];
    assert(gt@ =~= seq!['>']);
    match find_exec(s, p + 1, &gt) {
        None => Err(fail(p, "unexpected end of input")),
        Some(e) => Ok(trim_exec(&crate::text::sub_chars(s.as_slice(), p + 1, e))),
    }
}

fn root_end_exec(s: &Vec<char>, v: JsonValue, p: usize) -> (r: Result<JsonValue, (usize, String)>)
    requires
        p <= s.len(),
    ensures
        match r {
            Ok(w) => w == v && skip_trivia(s@, p as int) == Ok::<int, Failure>(s.len() as int),
            Err(e) => e.0 <= s.len() && match skip_trivia(s@, p as int) {
                Err(f) => f == failure_view(e),
                Ok(q) => q != s.len() && failure_view(e) == (q, "too many constructs in root"@),
            },
        },
{
    match skip_trivia_exec(s, p) {
        Err(e) => Err(e),
        Ok(q) => if q != s.len() {
            Err(fail(q, "too many constructs in root"))
        } else {
            Ok(v)
        },
    }
}

fn root_exec(s: &Vec<char>) -> (r: Result<JsonValue, (usize, String)>)
    ensures
        match (r, plist_root(s@)) {
            (Ok(v), Ok(pv)) => json_of(v, pv),
            (Err(e), Err(f)) => failure_view(e) == f && e.0 <= s.len(),
            _ => false,
        },
{
    let q = match skip_trivia_exec(s, 0) {
        Err(e) => return Err(e),
        Ok(q) => q,
    };
    let name = match peek_name_exec(s, q) {
        Err(e) => return Err(e),
        Ok(n) => n,
    };
    let plist = crate::text::chars_of("plist");
    proof {
        reveal_strlit("plist");
    }
    if crate::text::chars_start_with(name.as_slice(), plist.as_slice()) {
        let q1 = match open_tag_exec(s, q) {
            Err(e) => return Err(e),
            Ok((_, _, q1)) => q1,
        };
        let q2 = match skip_trivia_exec(s, q1) {
            Err(e) => return Err(e),
            Ok(q2) => q2,
        };
        let (v, q3) = match value_exec(s, q2) {
            Err(e) => return Err(e),
            Ok(t) => t,
        };
        let q4 = match skip_trivia_exec(s, q3) {
            Err(e) => return Err(e),
            Ok(q4) => q4,
        };
        let q5 = match close_tag_exec(s, q4, &plist) {
            Err(e) => return Err(e),
            Ok(q5) => q5,
        };
        root_end_exec(s, v, q5)
    } else {
        let (v, q3) = match value_exec(s, q) {
            Err(e) => return Err(e),
            Ok(t) => t,
        };
        root_end_exec(s, v, q3)
    }
}

/// The number of UTF-8 bytes in `s[0..p]`.
fn byte_offset_exec(s: &Vec<char>, p: usize) -> (r: usize)
    requires
        p <= s.len(),
        utf8_len(s@) <= usize::MAX,
    ensures
        r == utf8_len(s@.take(p as int)),
{
    let mut i: usize = 0;
    let mut n: usize = 0;
    assert(s@.take(0) =~= Seq::<char>::empty());
    assert(encode_utf8(Seq::<char>::empty()) =~= Seq::<u8>::empty());
    while i < p
        invariant
            i <= p <= s.len(),
            utf8_len(s@) <= usize::MAX,
            n == utf8_len(s@.take(i as int)),
        decreases p - i,
    {
        proof {
            assert(s@.take(i + 1) =~= s@.take(i as int).push(s@[i as int]));
            lemma_utf8_len_push(s@.take(i as int), s@[i as int]);
            lemma_utf8_len_prefix(s@, i + 1);
        }
        n = n + char_utf8_width(s[i]);
        i = i + 1;
    }
    n
}

/// Reads an XML property list into its JSON value: dictionaries become
/// objects (keys in order, a repeated key keeping its last value), arrays
/// arrays, `string`, `date` and `data` strings with their entities decoded
/// once, `integer` and `real` numbers, `true` and `false` booleans.
pub fn parse_plist(content: &str) -> (r: Result<JsonValue, PlistError>)
    ensures
        match (r, plist_document(content@)) {
            (Ok(v), Ok(pv)) => json_of(v, pv),
            (Err(e), Err(f)) => e.message@ == f.1 && 0 <= f.0 <= without_bom(content@).len()
                && e.offset == utf8_len(without_bom(content@).take(f.0)),
            _ => false,
        },
{
    let byte_count = content.as_bytes().len();
    let all = crate::text::chars_of(content);
    let s = if all.len() > 0 && all[0] == '\u{feff}' {
        crate::text::sub_chars(all.as_slice(), 1, all.len())
    } else {
        all
    };
    proof {
        assert(utf8_len(content@) == byte_count);
        if content@.len() > 0 && content@[0] == '\u{feff}' {
            assert(content@ =~= content@.take(1) + s@);
            lemma_encode_utf8_append(content@.take(1), s@);
        } else {
            assert(s@ =~= content@);
        }
        assert(s@ == without_bom(content@));
    }
    match root_exec(&s) {
        Ok(v) => Ok(v),
        Err((at, message)) => Err(PlistError { offset: byte_offset_exec(&s, at), message }),
    }
}

} // verus!
