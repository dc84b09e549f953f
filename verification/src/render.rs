use vstd::prelude::*;

use crate::text::{chars_eq, chars_of, is_whitespace, is_whitespace_char, push_chars, push_str_chars, string_from_chars};
use crate::tokens::{HighlightToken, HighlightTokensResult};

verus! {

broadcast use vstd::string::group_string_axioms;

/// How highlighted tokens are turned into HTML.
#[derive(Clone, Debug, PartialEq, Eq)]
pub struct RenderOptions {
    pub merge_whitespaces: bool,
    pub merge_same_style_tokens: bool,
    pub root_style: Option<String>,
    pub include_root_style: bool,
    pub tabindex: Option<String>,
}

impl RenderOptions {
    /// The defaults: merge whitespace, keep same-style tokens apart, derive
    /// the root style from the theme and use tabindex `0`.
    pub fn new() -> (r: RenderOptions)
        ensures
            r.merge_whitespaces,
            !r.merge_same_style_tokens,
            r.root_style is None,
            r.include_root_style,
            r.tabindex matches Some(t) && t@ == "0"@,
    {
        RenderOptions {
            merge_whitespaces: true,
            merge_same_style_tokens: false,
            root_style: None,
            include_root_style: true,
            tabindex: Some(string_from_chars(chars_of("0").as_slice())),
        }
    }
}

/// Whether the style bits hold `bit`.
pub open spec fn style_has(font_style: i32, bit: i32) -> bool {
    font_style & bit != 0
}

/// Whether a token is underlined or struck through.
pub open spec fn is_decorated(font_style: i32) -> bool {
    style_has(font_style, 4) || style_has(font_style, 8)
}

fn has_decoration(token: &HighlightToken) -> (r: bool)
    ensures
        r == is_decorated(token.font_style),
{
    token.font_style & 4 != 0 || token.font_style & 8 != 0
}

/// `items` joined with `sep`.
pub open spec fn join(items: Seq<Seq<char>>, sep: Seq<char>) -> Seq<char>
    decreases items.len(),
{
    if items.len() == 0 {
        Seq::empty()
    } else if items.len() == 1 {
        items[0]
    } else {
        join(items.drop_last(), sep) + sep + items.last()
    }
}

/// The CSS declarations of a token: its color when it has one, then
/// italic, bold and the text decorations its style holds.
pub open spec fn style_declarations(color: Seq<char>, font_style: i32) -> Seq<Seq<char>> {
    let decorations = (if style_has(font_style, 4) { seq!["underline"@] } else { Seq::empty() })
        + (if style_has(font_style, 8) { seq!["line-through"@] } else { Seq::empty() });
    (if color.len() > 0 { seq!["color:"@ + color] } else { Seq::empty() }) + (if style_has(
        font_style,
        1,
    ) {
        seq!["font-style:italic"@]
    } else {
        Seq::empty()
    }) + (if style_has(font_style, 2) {
        seq!["font-weight:bold"@]
    } else {
        Seq::empty()
    }) + (if decorations.len() > 0 {
        seq!["text-decoration:"@ + join(decorations, " "@)]
    } else {
        Seq::empty()
    })
}

/// The inline style of a token: its declarations joined by `;`.
pub open spec fn token_style_of(color: Seq<char>, font_style: i32) -> Seq<char> {
    join(style_declarations(color, font_style), ";"@)
}

proof fn lemma_join_push(items: Seq<Seq<char>>, x: Seq<char>, sep: Seq<char>)
    ensures
        join(items.push(x), sep) == if items.len() == 0 { x } else { join(items, sep) + sep + x },
{
    assert(items.push(x).drop_last() =~= items);
    if items.len() == 0 {
        assert(items.push(x) =~= seq![x]);
    }
}

fn push_join(out: &mut Vec<char>, count: usize, sep: &str, item: &Vec<char>)
    ensures
        final(out)@ == if count == 0 { old(out)@ + item@ } else { old(out)@ + sep@ + item@ },
{
    if count > 0 {
        push_str_chars(out, sep);
    }
    push_chars(out, item.as_slice());
}

/// The inline style of a token.
pub fn token_style(token: &HighlightToken) -> (r: String)
    ensures
        r@ == token_style_of(token.color@, token.font_style),
{
    let ghost items: Seq<Seq<char>> = style_declarations(token.color@, token.font_style);
    let ghost fs = token.font_style;
    let ghost p1: Seq<Seq<char>> = if token.color@.len() > 0 { seq!["color:"@ + token.color@] } else { Seq::empty() };
    let ghost p2: Seq<Seq<char>> = if style_has(fs, 1) { seq!["font-style:italic"@] } else { Seq::empty() };
    let ghost p3: Seq<Seq<char>> = if style_has(fs, 2) { seq!["font-weight:bold"@] } else { Seq::empty() };
    let ghost dec: Seq<Seq<char>> = (if style_has(fs, 4) { seq!["underline"@] } else { Seq::empty() })
        + (if style_has(fs, 8) { seq!["line-through"@] } else { Seq::empty() });
    let ghost p4: Seq<Seq<char>> = if dec.len() > 0 { seq!["text-decoration:"@ + join(dec, " "@)] } else { Seq::empty() };
    assert(items == p1 + p2 + p3 + p4);
    let mut out: Vec<char> = Vec::new();
    let mut count: usize = 0;
    let ghost mut done: Seq<Seq<char>> = Seq::empty();
    let color = chars_of(token.color.as_str());
    if color.len() > 0 {
        let mut d: Vec<char> = Vec::new();
        push_str_chars(&mut d, "color:");
        push_chars(&mut d, color.as_slice());
        proof {
            lemma_join_push(done, d@, ";"@);
        }
        push_join(&mut out, count, ";", &d);
        proof {
            done = done.push(d@);
        }
        count = count + 1;
    }
    assert(done =~= p1);
    if token.font_style & 1 != 0 {
        let d = chars_of("font-style:italic");
        proof {
            lemma_join_push(done, d@, ";"@);
        }
        push_join(&mut out, count, ";", &d);
        proof {
            done = done.push(d@);
        }
        count = count + 1;
    }
    assert(done =~= p1 + p2);
    if token.font_style & 2 != 0 {
        let d = chars_of("font-weight:bold");
        proof {
            lemma_join_push(done, d@, ";"@);
        }
        push_join(&mut out, count, ";", &d);
        proof {
            done = done.push(d@);
        }
        count = count + 1;
    }
    assert(done =~= p1 + p2 + p3);
    let underline = token.font_style & 4 != 0;
    let strike = token.font_style & 8 != 0;
    if underline || strike {
        let mut d: Vec<char> = Vec::new();
        push_str_chars(&mut d, "text-decoration:");
        let ghost deco: Seq<Seq<char>> = (if underline { seq!["underline"@] } else { Seq::empty() })
            + (if strike { seq!["line-through"@] } else { Seq::empty() });
        if underline {
            push_str_chars(&mut d, "underline");
        }
        if strike {
            if underline {
                push_str_chars(&mut d, " ");
            }
            push_str_chars(&mut d, "line-through");
        }
        proof {
            if underline && strike {
                assert(deco =~= seq!["underline"@, "line-through"@]);
                assert(seq!["underline"@, "line-through"@].drop_last() =~= seq!["underline"@]);
                let two = seq!["underline"@, "line-through"@];
                assert(two.len() == 2);
                assert(two.last() == "line-through"@);
                assert(join(two.drop_last(), " "@) == "underline"@);
                assert(join(two, " "@) == join(two.drop_last(), " "@) + " "@ + two.last());
                assert(join(deco, " "@) == "underline"@ + " "@ + "line-through"@);
                assert(d@ =~= "text-decoration:"@ + ("underline"@ + " "@ + "line-through"@));
            } else if underline {
                assert(deco =~= seq!["underline"@]);
                assert(join(deco, " "@) == "underline"@);
            } else {
                assert(deco =~= seq!["line-through"@]);
                assert(join(deco, " "@) == "line-through"@);
            }
            assert(dec == deco);
            assert(d@ == "text-decoration:"@ + join(dec, " "@));
            lemma_join_push(done, d@, ";"@);
        }
        push_join(&mut out, count, ";", &d);
        proof {
            done = done.push(d@);
        }
        count = count + 1;
    }
    proof {
        if !(underline || strike) {
            assert(dec =~= Seq::<Seq<char>>::empty());
        }
        assert(done =~= items);
    }
    string_from_chars(out.as_slice())
}

/// The characters that stand for `c` in HTML text.
pub open spec fn html_escape_char(c: char) -> Seq<char> {
    if c == '&' {
        "&#x26;"@
    } else if c == '<' {
        "&#x3C;"@
    } else {
        seq![c]
    }
}

/// The characters that stand for `c` in an HTML attribute value.
pub open spec fn attribute_escape_char(c: char) -> Seq<char> {
    if c == '"' {
        "&#x22;"@
    } else {
        html_escape_char(c)
    }
}

/// `s` with `&` and `<` escaped.
pub open spec fn html_escape(s: Seq<char>) -> Seq<char>
    decreases s.len(),
{
    if s.len() == 0 {
        Seq::empty()
    } else {
        html_escape(s.drop_last()) + html_escape_char(s.last())
    }
}

/// `s` with `&`, `<` and `"` escaped.
pub open spec fn attribute_escape(s: Seq<char>) -> Seq<char>
    decreases s.len(),
{
    if s.len() == 0 {
        Seq::empty()
    } else {
        attribute_escape(s.drop_last()) + attribute_escape_char(s.last())
    }
}

fn escape_chars(input: &Vec<char>, out: &mut Vec<char>, attribute: bool)
    ensures
        final(out)@ == old(out)@ + if attribute { attribute_escape(input@) } else { html_escape(input@) },
{
    let ghost start = out@;
    let mut i: usize = 0;
    while i < input.len()
        invariant
            i <= input.len(),
            out@ == start + if attribute { attribute_escape(input@.take(i as int)) } else { html_escape(input@.take(i as int)) },
        decreases input.len() - i,
    {
        let c = input[i];
        let ghost before = out@;
        if c == '&' {
            push_str_chars(out, "&#x26;");
        } else if c == '<' {
            push_str_chars(out, "&#x3C;");
        } else if attribute && c == '"' {
            push_str_chars(out, "&#x22;");
        } else {
            out.push(c);
        }
        proof {
            assert(input@.take(i + 1).drop_last() =~= input@.take(i as int));
            if !attribute || c != '"' {
                if c != '&' && c != '<' {
                    assert(out@ =~= before + seq![c]);
                }
            }
        }
        i += 1;
        assert(out@ =~= start + if attribute { attribute_escape(input@.take(i as int)) } else { html_escape(input@.take(i as int)) });
    }
    assert(input@.take(i as int) =~= input@);
}

/// Escapes `&` and `<` for HTML text.
pub fn escape_html(input: &str) -> (r: String)
    ensures
        r@ == html_escape(input@),
{
    let v = chars_of(input);
    let mut out: Vec<char> = Vec::new();
    escape_chars(&v, &mut out, false);
    assert(out@ =~= html_escape(input@));
    string_from_chars(out.as_slice())
}

/// Escapes `&`, `<` and `"` for HTML attribute values.
pub fn escape_attribute(input: &str) -> (r: String)
    ensures
        r@ == attribute_escape(input@),
{
    let v = chars_of(input);
    let mut out: Vec<char> = Vec::new();
    escape_chars(&v, &mut out, true);
    assert(out@ =~= attribute_escape(input@));
    string_from_chars(out.as_slice())
}

/// A token as plain values: content, offset, color, font style and token
/// type.
pub type TokenView = (Seq<char>, usize, Seq<char>, i32, Option<u8>);

pub open spec fn token_view(t: HighlightToken) -> TokenView {
    (t.content@, t.offset, t.color@, t.font_style, t.token_type)
}

pub open spec fn line_view(line: Seq<HighlightToken>) -> Seq<TokenView> {
    line.map_values(|t: HighlightToken| token_view(t))
}

pub open spec fn lines_view(lines: Seq<Vec<HighlightToken>>) -> Seq<Seq<TokenView>> {
    lines.map_values(|l: Vec<HighlightToken>| line_view(l@))
}

pub open spec fn all_whitespace(s: Seq<char>) -> bool {
    forall|i: int| 0 <= i < s.len() ==> is_whitespace_char(#[trigger] s[i])
}

/// Merges each undecorated whitespace-only token that has a successor into
/// the token after it; before a decorated token the carried whitespace
/// becomes a plain token of its own.
pub open spec fn merge_whitespace_from(line: Seq<TokenView>, i: int, carried: Seq<char>, first: usize) -> Seq<TokenView>
    decreases line.len() - i,
{
    if i < 0 || i >= line.len() {
        Seq::empty()
    } else {
        let t = line[i];
        let decorated = is_decorated(t.3);
        if !decorated && t.0.len() > 0 && all_whitespace(t.0) && i + 1 < line.len() {
            merge_whitespace_from(line, i + 1, carried + t.0, if carried.len() == 0 { t.1 } else { first })
        } else if carried.len() == 0 {
            seq![t] + merge_whitespace_from(line, i + 1, Seq::empty(), 0)
        } else if !decorated {
            seq![(carried + t.0, first, t.2, t.3, t.4)] + merge_whitespace_from(line, i + 1, Seq::empty(), 0)
        } else {
            seq![(carried, first, Seq::<char>::empty(), 0i32, None::<u8>), t] + merge_whitespace_from(line, i + 1, Seq::empty(), 0)
        }
    }
}

fn clone_token(t: &HighlightToken) -> (r: HighlightToken)
    ensures
        token_view(r) == token_view(*t),
{
    HighlightToken {
        content: t.content.clone(),
        offset: t.offset,
        color: t.color.clone(),
        font_style: t.font_style,
        token_type: t.token_type,
    }
}

fn all_whitespace_chars(v: &Vec<char>) -> (r: bool)
    ensures
        r == all_whitespace(v@),
{
    let mut i: usize = 0;
    while i < v.len()
        invariant
            i <= v.len(),
            forall|k: int| 0 <= k < i ==> is_whitespace_char(#[trigger] v@[k]),
        decreases v.len() - i,
    {
        if !is_whitespace(v[i]) {
            return false;
        }
        i += 1;
    }
    true
}

fn merge_whitespace_line(line: &Vec<HighlightToken>) -> (r: Vec<HighlightToken>)
    ensures
        line_view(r@) == merge_whitespace_from(line_view(line@), 0, Seq::empty(), 0),
{
    let ghost lv = line_view(line@);
    let mut output: Vec<HighlightToken> = Vec::new();
    let mut carried: Vec<char> = Vec::new();
    let mut first_offset: usize = 0;
    let mut i: usize = 0;
    while i < line.len()
        invariant
            i <= line.len(),
            lv == line_view(line@),
            line_view(output@) + merge_whitespace_from(lv, i as int, carried@, first_offset) == merge_whitespace_from(lv, 0, Seq::empty(), 0),
            carried@.len() == 0 ==> first_offset == 0,
        decreases line.len() - i,
    {
        let token = &line[i];
        assert(lv[i as int] == token_view(*token));
        let decorated = has_decoration(token);
        let content = chars_of(token.content.as_str());
        let ghost before = line_view(output@);
        if !decorated && content.len() > 0 && all_whitespace_chars(&content) && i + 1 < line.len() {
            if carried.len() == 0 {
                first_offset = token.offset;
            }
            push_chars(&mut carried, content.as_slice());
            i += 1;
            continue;
        }
        if carried.len() == 0 {
            assert(carried@ =~= Seq::<char>::empty());
            let t = clone_token(token);
            output.push(t);
            assert(line_view(output@) =~= before.push(token_view(t)));
            assert(line_view(output@) + merge_whitespace_from(lv, i + 1, carried@, first_offset) =~= before + merge_whitespace_from(lv, i as int, carried@, first_offset));
        } else if !decorated {
            let mut merged_content = carried.clone();
            push_chars(&mut merged_content, content.as_slice());
            let merged = HighlightToken {
                content: string_from_chars(merged_content.as_slice()),
                offset: first_offset,
                color: token.color.clone(),
                font_style: token.font_style,
                token_type: token.token_type,
            };
            output.push(merged);
            let ghost old_carried = carried@;
            let ghost old_first = first_offset;
            carried = Vec::new();
            first_offset = 0;
            assert(line_view(output@) =~= before.push(token_view(merged)));
            assert(line_view(output@) + merge_whitespace_from(lv, i + 1, carried@, first_offset) =~= before + merge_whitespace_from(lv, i as int, old_carried, old_first));
        } else {
            let plain = HighlightToken {
                content: string_from_chars(carried.as_slice()),
                offset: first_offset,
                color: String::new(),
                font_style: 0,
                token_type: None,
            };
            output.push(plain);
            let t = clone_token(token);
            output.push(t);
            let ghost old_carried = carried@;
            let ghost old_first = first_offset;
            carried = Vec::new();
            first_offset = 0;
            assert(line_view(output@) =~= before.push(token_view(plain)).push(token_view(t)));
            assert(line_view(output@) + merge_whitespace_from(lv, i + 1, carried@, first_offset) =~= before + merge_whitespace_from(lv, i as int, old_carried, old_first));
        }
        i += 1;
    }
    assert(line_view(output@) + merge_whitespace_from(lv, i as int, carried@, first_offset) =~= line_view(output@));
    output
}

/// Concatenates each token into its predecessor when neither is decorated
/// and both have the same inline style.
pub open spec fn merge_styled(line: Seq<TokenView>, k: int) -> Seq<TokenView>
    decreases k,
{
    if k <= 0 {
        Seq::empty()
    } else {
        let prev = merge_styled(line, k - 1);
        let t = line[k - 1];
        if prev.len() > 0 && !is_decorated(prev.last().3) && !is_decorated(t.3) && token_style_of(
            prev.last().2,
            prev.last().3,
        ) == token_style_of(t.2, t.3) {
            let p = prev.last();
            prev.drop_last().push((p.0 + t.0, p.1, p.2, p.3, p.4))
        } else {
            prev.push(t)
        }
    }
}

fn merge_styled_line(line: &Vec<HighlightToken>) -> (r: Vec<HighlightToken>)
    ensures
        line_view(r@) == merge_styled(line_view(line@), line@.len() as int),
{
    let ghost lv = line_view(line@);
    let mut output: Vec<HighlightToken> = Vec::new();
    let mut i: usize = 0;
    while i < line.len()
        invariant
            i <= line.len(),
            lv == line_view(line@),
            line_view(output@) == merge_styled(lv, i as int),
        decreases line.len() - i,
    {
        let token = &line[i];
        assert(lv[i as int] == token_view(*token));
        let ghost before = line_view(output@);
        let n = output.len();
        let mut merged = false;
        if n > 0 {
            let same = !has_decoration(&output[n - 1]) && !has_decoration(token) && token_style(&output[n - 1]) == token_style(token);
            assert(before.last() == token_view(output@[n - 1]));
            if same {
                let mut previous = output.pop().unwrap();
                let mut content = chars_of(previous.content.as_str());
                let extra = chars_of(token.content.as_str());
                push_chars(&mut content, extra.as_slice());
                previous.content = string_from_chars(content.as_slice());
                output.push(previous);
                merged = true;
                assert(line_view(output@) =~= before.drop_last().push(token_view(previous)));
            }
        }
        if !merged {
            let t = clone_token(token);
            output.push(t);
            assert(line_view(output@) =~= before.push(token_view(t)));
        }
        i += 1;
    }
    output
}

pub open spec fn merged_whitespace_lines(lines: Seq<Seq<TokenView>>) -> Seq<Seq<TokenView>> {
    lines.map_values(|l: Seq<TokenView>| merge_whitespace_from(l, 0, Seq::empty(), 0))
}

pub open spec fn merged_styled_lines(lines: Seq<Seq<TokenView>>) -> Seq<Seq<TokenView>> {
    lines.map_values(|l: Seq<TokenView>| merge_styled(l, l.len() as int))
}

/// The lines that are rendered: whitespace merged first when asked, then
/// same-style tokens when asked.
pub open spec fn prepared_lines(lines: Seq<Seq<TokenView>>, options: RenderOptions) -> Seq<Seq<TokenView>> {
    let ws = if options.merge_whitespaces { merged_whitespace_lines(lines) } else { lines };
    if options.merge_same_style_tokens { merged_styled_lines(ws) } else { ws }
}

fn clone_line(line: &Vec<HighlightToken>) -> (r: Vec<HighlightToken>)
    ensures
        line_view(r@) == line_view(line@),
{
    let mut out: Vec<HighlightToken> = Vec::new();
    let mut i: usize = 0;
    while i < line.len()
        invariant
            i <= line.len(),
            line_view(out@) == line_view(line@).take(i as int),
        decreases line.len() - i,
    {
        let t = clone_token(&line[i]);
        let ghost before = out@;
        out.push(t);
        assert(line_view(out@) =~= line_view(before).push(token_view(t)));
        assert(line_view(line@).take(i + 1) =~= line_view(line@).take(i as int).push(line_view(line@)[i as int]));
        i += 1;
    }
    assert(line_view(line@).take(i as int) =~= line_view(line@));
    out
}

/// Applies the merges that the options ask for.
pub fn prepare_tokens(source: &Vec<Vec<HighlightToken>>, options: &RenderOptions) -> (r: Vec<Vec<HighlightToken>>)
    ensures
        lines_view(r@) == prepared_lines(lines_view(source@), *options),
{
    let ghost sv = lines_view(source@);
    let mut first: Vec<Vec<HighlightToken>> = Vec::new();
    let mut i: usize = 0;
    let ghost ws = if options.merge_whitespaces { merged_whitespace_lines(sv) } else { sv };
    while i < source.len()
        invariant
            i <= source.len(),
            sv == lines_view(source@),
            ws == if options.merge_whitespaces { merged_whitespace_lines(sv) } else { sv },
            lines_view(first@) == ws.take(i as int),
        decreases source.len() - i,
    {
        let line = if options.merge_whitespaces {
            merge_whitespace_line(&source[i])
        } else {
            clone_line(&source[i])
        };
        let ghost before = first@;
        proof {
            if options.merge_whitespaces {
                assert(ws[i as int] == merge_whitespace_from(sv[i as int], 0, Seq::empty(), 0));
            }
            assert(sv[i as int] == line_view(source@[i as int]@));
        }
        first.push(line);
        assert(lines_view(first@) =~= lines_view(before).push(line_view(line@)));
        assert(ws.take(i + 1) =~= ws.take(i as int).push(ws[i as int]));
        i += 1;
    }
    assert(ws.take(i as int) =~= ws);
    if !options.merge_same_style_tokens {
        return first;
    }
    let mut second: Vec<Vec<HighlightToken>> = Vec::new();
    let ghost st = merged_styled_lines(ws);
    let mut j: usize = 0;
    while j < first.len()
        invariant
            j <= first.len(),
            lines_view(first@) == ws,
            st == merged_styled_lines(ws),
            lines_view(second@) == st.take(j as int),
        decreases first.len() - j,
    {
        let line = merge_styled_line(&first[j]);
        proof {
            assert(ws[j as int] == line_view(first@[j as int]@));
            assert(line_view(first@[j as int]@).len() == first@[j as int]@.len());
        }
        let ghost before = second@;
        second.push(line);
        assert(lines_view(second@) =~= lines_view(before).push(line_view(line@)));
        assert(st.take(j + 1) =~= st.take(j as int).push(st[j as int]));
        j += 1;
    }
    assert(st.take(j as int) =~= st);
    second
}

/// A node of a HAST (HTML syntax tree).
#[derive(Debug)]
pub enum HastNode {
    Root { children: Vec<HastNode> },
    Element { tag_name: String, properties: Vec<(String, String)>, children: Vec<HastNode> },
    Text { value: String },
}

/// A HAST node as plain values.
pub enum SpecHast {
    Root(Seq<SpecHast>),
    Element(Seq<char>, Seq<(Seq<char>, Seq<char>)>, Seq<SpecHast>),
    Text(Seq<char>),
}

pub open spec fn props_view(p: Seq<(String, String)>) -> Seq<(Seq<char>, Seq<char>)> {
    p.map_values(|kv: (String, String)| (kv.0@, kv.1@))
}

pub open spec fn hast_view(n: HastNode) -> SpecHast
    decreases n, 1nat,
{
    match n {
        HastNode::Root { children } => SpecHast::Root(hast_views(children@)),
        HastNode::Element { tag_name, properties, children } => SpecHast::Element(
            tag_name@,
            props_view(properties@),
            hast_views(children@),
        ),
        HastNode::Text { value } => SpecHast::Text(value@),
    }
}

pub open spec fn hast_views(s: Seq<HastNode>) -> Seq<SpecHast>
    decreases s, 0nat,
{
    if s.len() == 0 {
        Seq::empty()
    } else {
        hast_views(s.drop_last()).push(hast_view(s.last()))
    }
}

proof fn lemma_hast_views_push(s: Seq<HastNode>, n: HastNode)
    ensures
        hast_views(s.push(n)) == hast_views(s).push(hast_view(n)),
{
    assert(s.push(n).drop_last() =~= s);
}

proof fn lemma_hast_views_index(s: Seq<HastNode>, i: int)
    requires
        0 <= i < s.len(),
    ensures
        hast_views(s).len() == s.len(),
        hast_views(s)[i] == hast_view(s[i]),
    decreases s.len(),
{
    lemma_hast_views_len(s);
    if i < s.len() - 1 {
        lemma_hast_views_index(s.drop_last(), i);
    }
}

proof fn lemma_hast_views_len(s: Seq<HastNode>)
    ensures
        hast_views(s).len() == s.len(),
    decreases s.len(),
{
    if s.len() > 0 {
        lemma_hast_views_len(s.drop_last());
    }
}

/// The HTML attributes of an element.
pub open spec fn props_html(props: Seq<(Seq<char>, Seq<char>)>) -> Seq<char>
    decreases props.len(),
{
    if props.len() == 0 {
        Seq::empty()
    } else {
        props_html(props.drop_last()) + " "@ + props.last().0 + "=\""@ + attribute_escape(
            props.last().1,
        ) + "\""@
    }
}

/// The HTML of a node: escaped text, or an element with its attributes and
/// children; a root renders as nothing.
pub open spec fn html_of(n: SpecHast) -> Seq<char>
    decreases n, 1nat,
{
    match n {
        SpecHast::Text(v) => html_escape(v),
        SpecHast::Element(tag, props, children) => "<"@ + tag + props_html(props) + ">"@
            + children_html(children) + "</"@ + tag + ">"@,
        SpecHast::Root(_) => Seq::empty(),
    }
}

pub open spec fn children_html(cs: Seq<SpecHast>) -> Seq<char>
    decreases cs, 0nat,
{
    if cs.len() == 0 {
        Seq::empty()
    } else {
        children_html(cs.drop_last()) + html_of(cs.last())
    }
}

fn push_props_html(out: &mut Vec<char>, props: &Vec<(String, String)>)
    ensures
        final(out)@ == old(out)@ + props_html(props_view(props@)),
{
    let ghost start = out@;
    let ghost pv = props_view(props@);
    let mut i: usize = 0;
    while i < props.len()
        invariant
            i <= props.len(),
            pv == props_view(props@),
            out@ == start + props_html(pv.take(i as int)),
        decreases props.len() - i,
    {
        let ghost before = out@;
        push_str_chars(out, " ");
        push_str_chars(out, props[i].0.as_str());
        push_str_chars(out, "=\"");
        let v = chars_of(props[i].1.as_str());
        escape_chars(&v, out, true);
        push_str_chars(out, "\"");
        proof {
            assert(pv.take(i + 1).drop_last() =~= pv.take(i as int));
            assert(pv.take(i + 1).last() == (props@[i as int].0@, props@[i as int].1@));
        }
        i += 1;
        assert(out@ =~= start + props_html(pv.take(i as int)));
    }
    assert(pv.take(i as int) =~= pv);
}

fn push_node_html(out: &mut Vec<char>, node: &HastNode)
    ensures
        final(out)@ == old(out)@ + html_of(hast_view(*node)),
    decreases node, 1nat,
{
    match node {
        HastNode::Text { value } => {
            let v = chars_of(value.as_str());
            escape_chars(&v, out, false);
        },
        HastNode::Element { tag_name, properties, children } => {
            let ghost start = out@;
            push_str_chars(out, "<");
            push_str_chars(out, tag_name.as_str());
            push_props_html(out, properties);
            push_str_chars(out, ">");
            push_children_html(out, children);
            push_str_chars(out, "</");
            push_str_chars(out, tag_name.as_str());
            push_str_chars(out, ">");
            assert(out@ =~= start + html_of(hast_view(*node)));
        },
        HastNode::Root { children } => {
            assert(old(out)@ + html_of(hast_view(*node)) =~= old(out)@);
        },
    }
}

fn push_children_html(out: &mut Vec<char>, children: &Vec<HastNode>)
    ensures
        final(out)@ == old(out)@ + children_html(hast_views(children@)),
    decreases children, 0nat,
{
    let ghost start = out@;
    let mut i: usize = 0;
    while i < children.len()
        invariant
            i <= children.len(),
            out@ == start + children_html(hast_views(children@.take(i as int))),
        decreases children.len() - i,
    {
        push_node_html(out, &children[i]);
        proof {
            lemma_hast_views_push(children@.take(i as int), children@[i as int]);
            assert(children@.take(i + 1) =~= children@.take(i as int).push(children@[i as int]));
            let hv = hast_views(children@.take(i + 1));
            assert(hv.drop_last() =~= hast_views(children@.take(i as int)));
        }
        i += 1;
    }
    assert(children@.take(i as int) =~= children@);
}

/// Serializes a HAST node to HTML.
pub fn hast_node_to_html(node: &HastNode) -> (r: String)
    ensures
        r@ == html_of(hast_view(*node)),
{
    let mut out: Vec<char> = Vec::new();
    push_node_html(&mut out, node);
    assert(out@ =~= html_of(hast_view(*node)));
    string_from_chars(out.as_slice())
}

/// The span of one token: its inline style, where it has one, and its text.
pub open spec fn token_span(t: TokenView) -> SpecHast {
    let style = token_style_of(t.2, t.3);
    SpecHast::Element(
        "span"@,
        if style.len() == 0 { Seq::empty() } else { seq![("style"@, style)] },
        seq![SpecHast::Text(t.0)],
    )
}

/// The span of one line.
pub open spec fn line_span(line: Seq<TokenView>) -> SpecHast {
    SpecHast::Element(
        "span"@,
        seq![("class"@, "line"@)],
        line.map_values(|t: TokenView| token_span(t)),
    )
}

/// The children of the `code` element: the line spans, with a newline text
/// between two lines.
pub open spec fn code_children(lines: Seq<Seq<TokenView>>) -> Seq<SpecHast>
    decreases lines.len(),
{
    if lines.len() == 0 {
        Seq::empty()
    } else if lines.len() == 1 {
        seq![line_span(lines[0])]
    } else {
        code_children(lines.drop_last()).push(SpecHast::Text("\n"@)).push(line_span(lines.last()))
    }
}

/// The root style: the one the options give, else the theme's background
/// and foreground colors.
pub open spec fn root_style_of(result: HighlightTokensResult, options: RenderOptions) -> Seq<char> {
    match options.root_style {
        Some(s) => s@,
        None => "background-color:"@ + result.background@ + ";color:"@ + result.foreground@,
    }
}

/// The attributes of the `pre` element: the class, the root style where it
/// is asked for, the tabindex where there is one.
pub open spec fn pre_properties(result: HighlightTokensResult, options: RenderOptions) -> Seq<(Seq<char>, Seq<char>)> {
    seq![("class"@, "shiki "@ + result.theme_name@)]
        + (if options.include_root_style { seq![("style"@, root_style_of(result, options))] } else { Seq::empty() })
        + match options.tabindex {
            Some(t) => seq![("tabindex"@, t@)],
            None => Seq::empty(),
        }
}

/// The `pre` element of a highlighted document.
pub open spec fn pre_element(result: HighlightTokensResult, options: RenderOptions) -> SpecHast {
    SpecHast::Element(
        "pre"@,
        pre_properties(result, options),
        seq![SpecHast::Element("code"@, Seq::empty(), code_children(prepared_lines(lines_view(result.tokens@), options)))],
    )
}

/// The HAST of a highlighted document: a root holding the `pre` element.
pub open spec fn document_hast(result: HighlightTokensResult, options: RenderOptions) -> SpecHast {
    SpecHast::Root(seq![pre_element(result, options)])
}

fn text_node(value: &str) -> (r: HastNode)
    ensures
        hast_view(r) == SpecHast::Text(value@),
{
    HastNode::Text { value: string_from_chars(chars_of(value).as_slice()) }
}

fn str_string(value: &str) -> (r: String)
    ensures
        r@ == value@,
{
    string_from_chars(chars_of(value).as_slice())
}

fn token_node(token: &HighlightToken) -> (r: HastNode)
    ensures
        hast_view(r) == token_span(token_view(*token)),
{
    let style = token_style(token);
    let mut properties: Vec<(String, String)> = Vec::new();
    if !style.as_str().is_empty() {
        properties.push((str_string("style"), style));
    }
    let mut children: Vec<HastNode> = Vec::new();
    children.push(text_node(token.content.as_str()));
    let r = HastNode::Element { tag_name: str_string("span"), properties, children };
    proof {
        lemma_hast_views_len(children@);
        lemma_hast_views_index(children@, 0);
        assert(hast_views(children@) =~= seq![SpecHast::Text(token.content@)]);
        assert(props_view(properties@) =~= if style@.len() == 0 {
            Seq::<(Seq<char>, Seq<char>)>::empty()
        } else {
            seq![("style"@, style@)]
        });
    }
    r
}

fn line_node(line: &Vec<HighlightToken>) -> (r: HastNode)
    ensures
        hast_view(r) == line_span(line_view(line@)),
{
    let mut children: Vec<HastNode> = Vec::new();
    let ghost lv = line_view(line@);
    let mut i: usize = 0;
    while i < line.len()
        invariant
            i <= line.len(),
            lv == line_view(line@),
            hast_views(children@) == lv.take(i as int).map_values(|t: TokenView| token_span(t)),
        decreases line.len() - i,
    {
        let n = token_node(&line[i]);
        let ghost before = children@;
        children.push(n);
        proof {
            lemma_hast_views_push(before, n);
            assert(lv.take(i + 1).map_values(|t: TokenView| token_span(t)) =~= lv.take(i as int).map_values(
                |t: TokenView| token_span(t),
            ).push(token_span(lv[i as int])));
        }
        i += 1;
    }
    assert(lv.take(i as int) =~= lv);
    let mut properties: Vec<(String, String)> = Vec::new();
    properties.push((str_string("class"), str_string("line")));
    assert(props_view(properties@) =~= seq![("class"@, "line"@)]);
    HastNode::Element { tag_name: str_string("span"), properties, children }
}

proof fn lemma_code_children_push(lines: Seq<Seq<TokenView>>, line: Seq<TokenView>)
    ensures
        code_children(lines.push(line)) == if lines.len() == 0 {
            seq![line_span(line)]
        } else {
            code_children(lines).push(SpecHast::Text("\n"@)).push(line_span(line))
        },
{
    assert(lines.push(line).drop_last() =~= lines);
    if lines.len() == 0 {
        assert(lines.push(line)[0] == line);
    }
}

/// The HAST of a highlighted document.
pub fn render_hast(result: &HighlightTokensResult, options: &RenderOptions) -> (r: HastNode)
    ensures
        hast_view(r) == document_hast(*result, *options),
{
    let tokens = prepare_tokens(&result.tokens, options);
    let ghost lines = prepared_lines(lines_view(result.tokens@), *options);
    let mut pre_props: Vec<(String, String)> = Vec::new();
    let mut class_chars = chars_of("shiki ");
    push_str_chars(&mut class_chars, result.theme_name.as_str());
    pre_props.push((str_string("class"), string_from_chars(class_chars.as_slice())));
    if options.include_root_style {
        let style = match &options.root_style {
            Some(s) => crate::text::copy_string(s),
            None => {
                let mut v = chars_of("background-color:");
                push_str_chars(&mut v, result.background.as_str());
                push_str_chars(&mut v, ";color:");
                push_str_chars(&mut v, result.foreground.as_str());
                string_from_chars(v.as_slice())
            },
        };
        pre_props.push((str_string("style"), style));
    }
    match &options.tabindex {
        Some(t) => {
            pre_props.push((str_string("tabindex"), crate::text::copy_string(t)));
        },
        None => {},
    }
    assert(props_view(pre_props@) =~= pre_properties(*result, *options));
    let mut code: Vec<HastNode> = Vec::new();
    let mut i: usize = 0;
    while i < tokens.len()
        invariant
            i <= tokens.len(),
            lines_view(tokens@) == lines,
            hast_views(code@) == code_children(lines.take(i as int)),
        decreases tokens.len() - i,
    {
        let ghost before = code@;
        if i > 0 {
            let nl = text_node("\n");
            code.push(nl);
            proof { lemma_hast_views_push(before, nl); }
        }
        let ghost mid = code@;
        let n = line_node(&tokens[i]);
        code.push(n);
        proof {
            lemma_hast_views_push(mid, n);
            assert(lines[i as int] == line_view(tokens@[i as int]@));
            assert(lines.take(i + 1) =~= lines.take(i as int).push(lines[i as int]));
            lemma_code_children_push(lines.take(i as int), lines[i as int]);
        }
        i += 1;
    }
    assert(lines.take(i as int) =~= lines);
    let no_props: Vec<(String, String)> = Vec::new();
    assert(props_view(no_props@) =~= Seq::<(Seq<char>, Seq<char>)>::empty());
    let code_el = HastNode::Element { tag_name: str_string("code"), properties: no_props, children: code };
    let mut pre_children: Vec<HastNode> = Vec::new();
    pre_children.push(code_el);
    let pre = HastNode::Element { tag_name: str_string("pre"), properties: pre_props, children: pre_children };
    let mut root_children: Vec<HastNode> = Vec::new();
    root_children.push(pre);
    proof {
        lemma_hast_views_push(Seq::empty(), code_el);
        assert(Seq::<HastNode>::empty().push(code_el) =~= pre_children@);
        lemma_hast_views_push(Seq::empty(), pre);
        assert(Seq::<HastNode>::empty().push(pre) =~= root_children@);
    }
    HastNode::Root { children: root_children }
}

/// The HTML of a highlighted document: that of its `pre` element.
pub fn render_html(result: &HighlightTokensResult, options: &RenderOptions) -> (r: String)
    ensures
        r@ == html_of(pre_element(*result, *options)),
{
    let hast = render_hast(result, options);
    match &hast {
        HastNode::Root { children } => {
            proof {
                lemma_hast_views_len(children@);
                lemma_hast_views_index(children@, 0);
            }
            hast_node_to_html(&children[0])
        },
        _ => {
            proof { assert(false); }
            String::new()
        },
    }
}

/// Each item after a separator.
pub open spec fn prefixed(items: Seq<Seq<char>>, sep: Seq<char>) -> Seq<char>
    decreases items.len(),
{
    if items.len() == 0 {
        Seq::empty()
    } else {
        prefixed(items.drop_last(), sep) + sep + items.last()
    }
}

proof fn lemma_prefixed_concat(a: Seq<Seq<char>>, b: Seq<Seq<char>>, sep: Seq<char>)
    ensures
        prefixed(a + b, sep) == prefixed(a, sep) + prefixed(b, sep),
    decreases b.len(),
{
    if b.len() == 0 {
        assert(a + b =~= a);
        assert(prefixed(a, sep) + Seq::<char>::empty() =~= prefixed(a, sep));
    } else {
        lemma_prefixed_concat(a, b.drop_last(), sep);
        assert((a + b).drop_last() =~= a + b.drop_last());
        assert((a + b).last() == b.last());
        assert(prefixed(a + b, sep) =~= prefixed(a, sep) + prefixed(b, sep));
    }
}

proof fn lemma_join_prefixed(items: Seq<Seq<char>>, sep: Seq<char>)
    requires
        items.len() > 0,
    ensures
        join(items, sep) == items[0] + prefixed(items.drop_first(), sep),
        sep + join(items, sep) == prefixed(items, sep),
    decreases items.len(),
{
    if items.len() == 1 {
        assert(items.drop_first() =~= Seq::<Seq<char>>::empty());
        assert(items.drop_last() =~= Seq::<Seq<char>>::empty());
        assert(items[0] + Seq::<char>::empty() =~= items[0]);
        assert(prefixed(items.drop_last(), sep) == Seq::<char>::empty());
        assert(prefixed(items.drop_first(), sep) == Seq::<char>::empty());
        assert(items.last() == items[0]);
        assert(prefixed(items, sep) =~= sep + items[0]);
    } else {
        lemma_join_prefixed(items.drop_last(), sep);
        assert(items.drop_last().drop_first() =~= items.drop_first().drop_last());
        assert(items.drop_first().last() == items.last());
        assert(join(items, sep) =~= items[0] + prefixed(items.drop_first(), sep));
        assert(sep + join(items, sep) =~= prefixed(items, sep));
    }
}

proof fn lemma_prefixed_one(items: Seq<Seq<char>>, sep: Seq<char>)
    requires
        items.len() <= 1,
    ensures
        prefixed(items, sep) == if items.len() == 0 { Seq::<char>::empty() } else { sep + items[0] },
{
    if items.len() == 1 {
        assert(items.drop_last() =~= Seq::<Seq<char>>::empty());
        assert(prefixed(items.drop_last(), sep) == Seq::<char>::empty());
        assert(items.last() == items[0]);
        assert(Seq::<char>::empty() + sep + items[0] =~= sep + items[0]);
    } else {
        assert(prefixed(items, sep) == Seq::<char>::empty());
    }
}

/// The `;`-separated declaration for a style bit, where the bit is set.
pub open spec fn part_if(set: bool, declaration: Seq<char>) -> Seq<char> {
    if set { ";"@ + declaration } else { Seq::empty() }
}

/// The text of the decorations that bits 4 (underline) and 8
/// (line-through) ask for.
pub open spec fn decoration_text(font_style: i32) -> Seq<char> {
    if font_style & 4i32 != 0 && font_style & 8i32 != 0 {
        "underline line-through"@
    } else if font_style & 4i32 != 0 {
        "underline"@
    } else {
        "line-through"@
    }
}

proof fn lemma_decoration_join(fs: i32)
    ensures
        ({
            let dec: Seq<Seq<char>> = (if style_has(fs, 4) { seq!["underline"@] } else { Seq::empty() })
                + (if style_has(fs, 8) { seq!["line-through"@] } else { Seq::empty() });
            &&& (dec.len() > 0) == (fs & 4i32 != 0 || fs & 8i32 != 0)
            &&& dec.len() > 0 ==> join(dec, " "@) == decoration_text(fs)
        }),
{
    reveal_strlit("underline");
    reveal_strlit("line-through");
    reveal_strlit("underline line-through");
    reveal_strlit(" ");
    let dec: Seq<Seq<char>> = (if style_has(fs, 4) { seq!["underline"@] } else { Seq::empty() })
        + (if style_has(fs, 8) { seq!["line-through"@] } else { Seq::empty() });
    if style_has(fs, 4) && style_has(fs, 8) {
        let two = seq!["underline"@, "line-through"@];
        assert(dec =~= two);
        assert(two.drop_last() =~= seq!["underline"@]);
        assert(join(two, " "@) == join(two.drop_last(), " "@) + " "@ + two.last());
        assert("underline"@ + " "@ + "line-through"@ =~= "underline line-through"@);
    } else if style_has(fs, 4) {
        assert(dec =~= seq!["underline"@]);
    } else if style_has(fs, 8) {
        assert(dec =~= seq!["line-through"@]);
    } else {
        assert(dec =~= Seq::<Seq<char>>::empty());
    }
}

/// A token's inline style names its color first, then `font-style:italic`
/// exactly when bit 1 of its font style is set, `font-weight:bold` exactly
/// when bit 2 is, and the text decorations of bits 4 (underline) and 8
/// (line-through); each declaration follows the one before after a `;`.
/// Without a color the declarations start with the first style present.
#[verifier::rlimit(40)]
pub proof fn lemma_token_style_declarations(color: Seq<char>, font_style: i32)
    ensures
        ({
            let tail = part_if(font_style & 1i32 != 0, "font-style:italic"@) + part_if(font_style & 2i32 != 0, "font-weight:bold"@)
                + part_if(font_style & 4i32 != 0 || font_style & 8i32 != 0, "text-decoration:"@ + decoration_text(font_style));
            &&& color.len() > 0 ==> token_style_of(color, font_style) == "color:"@ + color + tail
            &&& color.len() == 0 && tail.len() > 0 ==> ";"@ + token_style_of(color, font_style) == tail
            &&& color.len() == 0 && tail.len() == 0 ==> token_style_of(color, font_style) == Seq::<char>::empty()
        }),
{
    let fs = font_style;
    let sep = ";"@;
    let p1: Seq<Seq<char>> = if color.len() > 0 { seq!["color:"@ + color] } else { Seq::empty() };
    let p2: Seq<Seq<char>> = if style_has(fs, 1) { seq!["font-style:italic"@] } else { Seq::empty() };
    let p3: Seq<Seq<char>> = if style_has(fs, 2) { seq!["font-weight:bold"@] } else { Seq::empty() };
    let dec: Seq<Seq<char>> = (if style_has(fs, 4) { seq!["underline"@] } else { Seq::empty() })
        + (if style_has(fs, 8) { seq!["line-through"@] } else { Seq::empty() });
    lemma_decoration_join(fs);
    let p4: Seq<Seq<char>> = if dec.len() > 0 { seq!["text-decoration:"@ + join(dec, " "@)] } else { Seq::empty() };
    let rest = p2 + p3 + p4;
    assert(style_declarations(color, fs) == p1 + rest);
    lemma_prefixed_concat(p2, p3, sep);
    lemma_prefixed_concat(p2 + p3, p4, sep);
    lemma_prefixed_one(p2, sep);
    lemma_prefixed_one(p3, sep);
    lemma_prefixed_one(p4, sep);
    let tail = part_if(fs & 1i32 != 0, "font-style:italic"@) + part_if(fs & 2i32 != 0, "font-weight:bold"@) + part_if(
        fs & 4i32 != 0 || fs & 8i32 != 0,
        "text-decoration:"@ + decoration_text(fs),
    );
    assert(prefixed(p2, sep) == part_if(fs & 1i32 != 0, "font-style:italic"@));
    assert(prefixed(p3, sep) == part_if(fs & 2i32 != 0, "font-weight:bold"@));
    assert(prefixed(p4, sep) == part_if(fs & 4i32 != 0 || fs & 8i32 != 0, "text-decoration:"@ + decoration_text(fs)));
    assert(prefixed(rest, sep) == tail);
    if color.len() > 0 {
        let items = p1 + rest;
        assert(items.drop_first() =~= rest);
        assert(items[0] == "color:"@ + color);
        lemma_join_prefixed(items, sep);
        assert(token_style_of(color, fs) =~= "color:"@ + color + tail);
    } else {
        assert(p1 + rest =~= rest);
        if rest.len() > 0 {
            lemma_join_prefixed(rest, sep);
        } else {
            assert(prefixed(rest, sep) =~= Seq::<char>::empty());
        }
    }
}

} // verus!
