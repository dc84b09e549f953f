use vstd::prelude::*;

use crate::encoded_token_attributes::{
    field_background, field_balanced_brackets, field_font_style, field_foreground, field_language_id,
    field_token_type, optional_to_standard, pack_fields, standard_to_optional, to_optional_token_type,
    token_type_code, EncodedTokenAttributes, OptionalStandardTokenType,
};
use crate::line_output::{
    chars_views, contains_rtl, matcher_matches_scopes, selector_holds_for, some_selector_holds,
    string_views, BalancedBracketSelectors, TokenTypeMatcher,
};
use crate::matcher::view_matcher;
use crate::text::{chars_of, copy_strings};
use crate::theme::FontStyle;

verus! {

broadcast use vstd::string::group_string_axioms;

/// A token of a line: the range `start_index..end_index` of the line and
/// the scope names that apply to it.
#[derive(Clone, Debug, PartialEq, Eq)]
pub struct Token {
    pub start_index: usize,
    pub end_index: usize,
    pub scopes: Vec<String>,
}

/// A token as plain values.
pub type TokenParts = (usize, usize, Seq<Seq<char>>);

pub open spec fn token_parts(t: Token) -> TokenParts {
    (t.start_index, t.end_index, string_views(t.scopes@))
}

pub open spec fn tokens_parts(ts: Seq<Token>) -> Seq<TokenParts> {
    ts.map_values(|t: Token| token_parts(t))
}

/// The scope names and metadata of the scope stack that a token is
/// produced from; none where there is no stack.
pub type ScopeInfo<'a> = Option<(&'a [String], EncodedTokenAttributes)>;

/// The scope names of a scope stack, as plain values.
pub open spec fn info_scopes(info: ScopeInfo) -> Seq<Seq<char>> {
    match info {
        Some(i) => string_views(i.0@),
        None => Seq::empty(),
    }
}

/// The metadata of a scope stack; the default (all zero) without one.
pub open spec fn info_bits(info: ScopeInfo) -> u32 {
    match info {
        Some(i) => i.1.0,
        None => 0,
    }
}

/// The metadata `bits` with a new token type (unless not set) and balanced
/// bracket flag (unless none); the other fields stay.
pub open spec fn with_type_and_brackets(bits: u32, token_type: OptionalStandardTokenType, balanced: Option<bool>) -> u32 {
    pack_fields(
        field_language_id(bits),
        if token_type == OptionalStandardTokenType::NotSet {
            field_token_type(bits)
        } else {
            token_type_code(optional_to_standard(token_type))
        },
        match balanced {
            Some(b) => b,
            None => field_balanced_brackets(bits),
        },
        field_font_style(bits) as i32,
        field_foreground(bits),
        field_background(bits),
    )
}

/// The metadata after the first `n` token type overrides: each one whose
/// selector holds for the scopes sets its token type.
pub open spec fn overridden_bits(bits: u32, overrides: Seq<TokenTypeMatcher>, n: int, scopes: Seq<Seq<char>>) -> u32
    decreases n,
{
    if n <= 0 {
        bits
    } else {
        let b = overridden_bits(bits, overrides, n - 1, scopes);
        if selector_holds_for(view_matcher(overrides[n - 1].matcher), scopes) {
            with_type_and_brackets(b, standard_to_optional(overrides[n - 1].token_type), None)
        } else {
            b
        }
    }
}

/// Whether brackets are balanced for the scopes by the selectors.
pub open spec fn brackets_balanced(s: BalancedBracketSelectors, scopes: Seq<Seq<char>>) -> bool {
    !some_selector_holds(s.unbalanced(), scopes) && (some_selector_holds(s.balanced(), scopes) || s.allows_any())
}

pub open spec fn selectors_always(s: Option<BalancedBracketSelectors>) -> bool {
    s matches Some(x) && x.allows_any() && x.unbalanced().len() == 0
}

pub open spec fn selectors_never(s: BalancedBracketSelectors) -> bool {
    s.balanced().len() == 0 && !s.allows_any()
}

/// Whether the metadata depends on the scope names: there are token type
/// overrides, or bracket selectors that neither always nor never hold.
pub open spec fn needs_scopes(overrides: Seq<TokenTypeMatcher>, s: Option<BalancedBracketSelectors>) -> bool {
    overrides.len() > 0 || (s matches Some(x) && !selectors_always(s) && !selectors_never(x))
}

/// The metadata of a binary token: that of the scope stack, with the token
/// type overrides applied and the balanced bracket flag set where the
/// selectors say so.
pub open spec fn binary_metadata(
    overrides: Seq<TokenTypeMatcher>,
    selectors: Option<BalancedBracketSelectors>,
    info: ScopeInfo,
) -> u32 {
    let scopes = info_scopes(info);
    let needs = needs_scopes(overrides, selectors);
    let m = if needs { overridden_bits(info_bits(info), overrides, overrides.len() as int, scopes) } else { info_bits(info) };
    let balanced = if needs {
        match selectors {
            Some(s) => brackets_balanced(s, scopes),
            None => false,
        }
    } else {
        selectors_always(selectors)
    };
    if balanced { with_type_and_brackets(m, OptionalStandardTokenType::NotSet, Some(true)) } else { m }
}

/// The tokens of one line as they are produced.
pub struct LineTokens {
    emit_binary_tokens: bool,
    tokens: Vec<Token>,
    binary_tokens: Vec<u32>,
    last_token_end_index: isize,
    token_type_overrides: Vec<TokenTypeMatcher>,
    balanced_bracket_selectors: Option<BalancedBracketSelectors>,
    merge_consecutive_tokens_with_equal_metadata: bool,
}

impl LineTokens {
    pub closed spec fn spec_emit_binary(&self) -> bool {
        self.emit_binary_tokens
    }

    pub closed spec fn spec_tokens(&self) -> Seq<TokenParts> {
        tokens_parts(self.tokens@)
    }

    pub closed spec fn spec_binary(&self) -> Seq<u32> {
        self.binary_tokens@
    }

    pub closed spec fn spec_last_end(&self) -> int {
        self.last_token_end_index as int
    }

    pub closed spec fn spec_overrides(&self) -> Seq<TokenTypeMatcher> {
        self.token_type_overrides@
    }

    pub closed spec fn spec_selectors(&self) -> Option<BalancedBracketSelectors> {
        self.balanced_bracket_selectors
    }

    pub closed spec fn spec_merge(&self) -> bool {
        self.merge_consecutive_tokens_with_equal_metadata
    }

    /// Whether the tokens tile the line from where the first one starts: each
    /// starts where the one before ended, none is empty, and the last ends
    /// where production stands; binary tokens come in pairs.
    pub open spec fn wf(&self) -> bool {
        let t = self.spec_tokens();
        &&& self.spec_last_end() >= 0
        &&& forall|i: int| 0 <= i < t.len() ==> (#[trigger] t[i]).0 < t[i].1
        &&& forall|i: int| 0 <= i < t.len() - 1 ==> (#[trigger] t[i]).1 == t[i + 1].0
        &&& t.len() > 0 ==> t.last().1 == self.spec_last_end()
        &&& self.spec_binary().len() % 2 == 0
        &&& self.spec_emit_binary() ==> t.len() == 0
        &&& !self.spec_emit_binary() ==> self.spec_binary().len() == 0
    }

    /// Tokens for a line; adjacent binary tokens with equal metadata are
    /// merged unless the line holds right-to-left text.
    pub fn new(
        emit_binary_tokens: bool,
        line_text: &str,
        token_type_overrides: Vec<TokenTypeMatcher>,
        balanced_bracket_selectors: Option<BalancedBracketSelectors>,
    ) -> (r: LineTokens)
        ensures
            r.wf(),
            r.spec_emit_binary() == emit_binary_tokens,
            r.spec_tokens().len() == 0,
            r.spec_binary().len() == 0,
            r.spec_last_end() == 0,
            r.spec_overrides() == token_type_overrides@,
            r.spec_selectors() == balanced_bracket_selectors,
            r.spec_merge() == !(exists|i: int| 0 <= i < line_text@.len() && crate::line_output::is_rtl_char(#[trigger] line_text@[i])),
    {
        LineTokens {
            emit_binary_tokens,
            tokens: Vec::new(),
            binary_tokens: Vec::new(),
            last_token_end_index: 0,
            token_type_overrides,
            balanced_bracket_selectors,
            merge_consecutive_tokens_with_equal_metadata: !contains_rtl(line_text),
        }
    }

    /// Produces the token that ends at `end_index`, from the scope stack
    /// described by `scopes_list`; nothing where production already reached
    /// `end_index`.
    pub fn produce_from_scopes(&mut self, scopes_list: ScopeInfo, end_index: usize)
        requires
            old(self).wf(),
            end_index <= isize::MAX,
        ensures
            final(self).wf(),
            final(self).spec_emit_binary() == old(self).spec_emit_binary(),
            final(self).spec_overrides() == old(self).spec_overrides(),
            final(self).spec_selectors() == old(self).spec_selectors(),
            final(self).spec_merge() == old(self).spec_merge(),
            old(self).spec_last_end() >= end_index ==> {
                &&& final(self).spec_tokens() == old(self).spec_tokens()
                &&& final(self).spec_binary() == old(self).spec_binary()
                &&& final(self).spec_last_end() == old(self).spec_last_end()
            },
            old(self).spec_last_end() < end_index ==> {
                &&& final(self).spec_last_end() == end_index
                &&& !old(self).spec_emit_binary() ==> {
                    &&& final(self).spec_tokens() == old(self).spec_tokens().push(
                        (old(self).spec_last_end() as usize, end_index, info_scopes(scopes_list)),
                    )
                    &&& final(self).spec_binary() == old(self).spec_binary()
                }
                &&& old(self).spec_emit_binary() ==> {
                    let m = binary_metadata(old(self).spec_overrides(), old(self).spec_selectors(), scopes_list);
                    &&& final(self).spec_tokens() == old(self).spec_tokens()
                    &&& final(self).spec_binary() == if old(self).spec_merge() && old(self).spec_binary().len() > 0
                        && old(self).spec_binary().last() == m {
                        old(self).spec_binary()
                    } else {
                        old(self).spec_binary().push(old(self).spec_last_end() as u32).push(m)
                    }
                }
            },
    {
        let ghost before = self.spec_tokens();
        self.produce_at(scopes_list, end_index);
        proof {
            let t = self.spec_tokens();
            if t.len() > before.len() {
                assert forall|i: int| 0 <= i < t.len() implies (#[trigger] t[i]).0 < t[i].1 by {
                    if i < before.len() {
                        assert(t[i] == before[i]);
                    }
                }
                assert forall|i: int| 0 <= i < t.len() - 1 implies (#[trigger] t[i]).1 == t[i + 1].0 by {
                    assert(t[i] == before[i]);
                    if i + 1 < before.len() {
                        assert(t[i + 1] == before[i + 1]);
                    }
                }
            }
        }
    }

    /// As `produce_from_scopes`, where production may stand before the line
    /// (at -1).
    fn produce_at(&mut self, scopes_list: ScopeInfo, end_index: usize)
        requires
            old(self).spec_last_end() >= -1,
            end_index <= isize::MAX,
        ensures
            final(self).spec_emit_binary() == old(self).spec_emit_binary(),
            final(self).spec_overrides() == old(self).spec_overrides(),
            final(self).spec_selectors() == old(self).spec_selectors(),
            final(self).spec_merge() == old(self).spec_merge(),
            old(self).spec_last_end() >= end_index ==> {
                &&& final(self).spec_tokens() == old(self).spec_tokens()
                &&& final(self).spec_binary() == old(self).spec_binary()
                &&& final(self).spec_last_end() == old(self).spec_last_end()
            },
            old(self).spec_last_end() < end_index ==> {
                let start = if old(self).spec_last_end() < 0 { 0int } else { old(self).spec_last_end() };
                &&& final(self).spec_last_end() == end_index
                &&& !old(self).spec_emit_binary() ==> {
                    &&& final(self).spec_tokens() == old(self).spec_tokens().push(
                        (start as usize, end_index, info_scopes(scopes_list)),
                    )
                    &&& final(self).spec_binary() == old(self).spec_binary()
                }
                &&& old(self).spec_emit_binary() ==> {
                    let m = binary_metadata(old(self).spec_overrides(), old(self).spec_selectors(), scopes_list);
                    &&& final(self).spec_tokens() == old(self).spec_tokens()
                    &&& final(self).spec_binary() == if old(self).spec_merge() && old(self).spec_binary().len() > 0
                        && old(self).spec_binary().last() == m {
                        old(self).spec_binary()
                    } else {
                        old(self).spec_binary().push(start as u32).push(m)
                    }
                }
            },
    {
        let end = end_index as isize;
        if self.last_token_end_index >= end {
            return;
        }
        let start: usize = if self.last_token_end_index < 0 { 0 } else { self.last_token_end_index as usize };
        if self.emit_binary_tokens {
            let metadata = self.binary_metadata(scopes_list);
            let n = self.binary_tokens.len();
            if self.merge_consecutive_tokens_with_equal_metadata && n > 0 && self.binary_tokens[n - 1] == metadata {
                self.last_token_end_index = end;
                return;
            }
            self.binary_tokens.push(start as u32);
            self.binary_tokens.push(metadata);
            self.last_token_end_index = end;
        } else {
            let scopes = match scopes_list {
                Some(info) => copy_slice_strings(info.0),
                None => Vec::new(),
            };
            assert(string_views(scopes@) == info_scopes(scopes_list)) by {
                assert(string_views(Seq::<String>::empty()) =~= Seq::<Seq<char>>::empty());
            }
            let ghost before = self.tokens@;
            let t = Token { start_index: start, end_index, scopes };
            self.tokens.push(t);
            assert(tokens_parts(self.tokens@) =~= tokens_parts(before).push(token_parts(t)));
            self.last_token_end_index = end;
        }
    }

    fn binary_metadata(&self, scopes_list: ScopeInfo) -> (r: u32)
        ensures
            r == binary_metadata(self.spec_overrides(), self.spec_selectors(), scopes_list),
    {
        let mut metadata: EncodedTokenAttributes = match scopes_list {
            Some(info) => info.1,
            None => EncodedTokenAttributes(0),
        };
        let mut balanced = match &self.balanced_bracket_selectors {
            Some(s) => s.matches_always(),
            None => false,
        };
        let needs = self.token_type_overrides.len() > 0 || match &self.balanced_bracket_selectors {
            Some(s) => !s.matches_always() && !s.matches_never(),
            None => false,
        };
        if needs {
            let names: Vec<String> = match scopes_list {
                Some(info) => copy_slice_strings(info.0),
                None => Vec::new(),
            };
            assert(string_views(names@) == info_scopes(scopes_list)) by {
                assert(string_views(Seq::<String>::empty()) =~= Seq::<Seq<char>>::empty());
            }
            let scopes = scope_chars(&names);
            let ghost sv = info_scopes(scopes_list);
            let mut i: usize = 0;
            while i < self.token_type_overrides.len()
                invariant
                    i <= self.token_type_overrides.len(),
                    chars_views(scopes@) == sv,
                    metadata.0 == overridden_bits(info_bits(scopes_list), self.token_type_overrides@, i as int, sv),
                decreases self.token_type_overrides.len() - i,
            {
                let o = &self.token_type_overrides[i];
                if matcher_matches_scopes(&o.matcher, &scopes) {
                    metadata = metadata.set(
                        0,
                        to_optional_token_type(o.token_type),
                        None,
                        FontStyle::not_set(),
                        0,
                        0,
                    );
                }
                i += 1;
            }
            match &self.balanced_bracket_selectors {
                Some(s) => {
                    balanced = s.matches(names.as_slice());
                },
                None => {},
            }
        }
        if balanced {
            metadata = metadata.set(0, OptionalStandardTokenType::NotSet, Some(true), FontStyle::not_set(), 0, 0);
        }
        metadata.0
    }

    /// The tokens of the line: a token that starts at the last position of
    /// the line is dropped, and where none is left one token with the scopes
    /// of `scopes_list` covers the line.  Production starts over.
    pub fn result(&mut self, scopes_list: ScopeInfo, line_length: usize) -> (r: Vec<Token>)
        requires
            old(self).wf(),
            !old(self).spec_emit_binary(),
            line_length <= isize::MAX,
        ensures
            final(self).wf(),
            final(self).spec_tokens().len() == 0,
            final(self).spec_binary() == old(self).spec_binary(),
            final(self).spec_emit_binary() == old(self).spec_emit_binary(),
            final(self).spec_overrides() == old(self).spec_overrides(),
            final(self).spec_selectors() == old(self).spec_selectors(),
            final(self).spec_merge() == old(self).spec_merge(),
            ({
                let t = old(self).spec_tokens();
                let last_pos = if line_length == 0 { 0 } else { line_length - 1 };
                let kept = if t.len() > 0 && t.last().0 == last_pos { t.drop_last() } else { t };
                tokens_parts(r@) == if kept.len() > 0 { kept } else { seq![(0usize, line_length, info_scopes(scopes_list))] }
            }),
    {
        let last_pos: usize = if line_length == 0 { 0 } else { line_length - 1 };
        let n = self.tokens.len();
        if n > 0 && self.tokens[n - 1].start_index == last_pos {
            let ghost before = self.tokens@;
            self.tokens.pop();
            assert(tokens_parts(self.tokens@) =~= tokens_parts(before).drop_last());
        }
        if self.tokens.len() == 0 {
            self.last_token_end_index = -1;
            self.produce_at(scopes_list, line_length);
        }
        let mut out: Vec<Token> = Vec::new();
        std::mem::swap(&mut out, &mut self.tokens);
        assert(tokens_parts(self.tokens@) =~= Seq::<TokenParts>::empty());
        out
    }

    /// The binary tokens of the line: a pair that starts at the last
    /// position of the line is dropped, and where none is left one pair
    /// with the metadata of `scopes_list` covers the line.  Production
    /// starts over.
    pub fn binary_result(&mut self, scopes_list: ScopeInfo, line_length: usize) -> (r: Vec<u32>)
        requires
            old(self).wf(),
            old(self).spec_emit_binary(),
            line_length <= isize::MAX,
        ensures
            final(self).wf(),
            final(self).spec_binary().len() == 0,
            final(self).spec_tokens() == old(self).spec_tokens(),
            final(self).spec_emit_binary() == old(self).spec_emit_binary(),
            final(self).spec_overrides() == old(self).spec_overrides(),
            final(self).spec_selectors() == old(self).spec_selectors(),
            final(self).spec_merge() == old(self).spec_merge(),
            ({
                let b = old(self).spec_binary();
                let last_pos = (if line_length == 0 { 0 } else { line_length - 1 }) as u32;
                let kept = if b.len() >= 2 && b[b.len() - 2] == last_pos { b.take(b.len() - 2) } else { b };
                r@ == if kept.len() > 0 {
                    kept
                } else {
                    seq![0u32, binary_metadata(old(self).spec_overrides(), old(self).spec_selectors(), scopes_list)]
                }
            }),
    {
        let last_pos: usize = if line_length == 0 { 0 } else { line_length - 1 };
        let n = self.binary_tokens.len();
        if n >= 2 && self.binary_tokens[n - 2] == last_pos as u32 {
            self.binary_tokens.truncate(n - 2);
        }
        if self.binary_tokens.len() == 0 {
            self.last_token_end_index = -1;
            self.produce_at(scopes_list, line_length);
            let k = self.binary_tokens.len() - 2;
            self.binary_tokens.set(k, 0);
        }
        let mut out: Vec<u32> = Vec::new();
        std::mem::swap(&mut out, &mut self.binary_tokens);
        out
    }
}

fn copy_slice_strings(v: &[String]) -> (r: Vec<String>)
    ensures
        r@ == v@,
{
    let mut r: Vec<String> = Vec::new();
    let mut i: usize = 0;
    while i < v.len()
        invariant
            i <= v.len(),
            r@ == v@.take(i as int),
        decreases v.len() - i,
    {
        r.push(v[i].clone());
        i += 1;
        assert(r@ =~= v@.take(i as int));
    }
    assert(v@.take(i as int) =~= v@);
    r
}

fn scope_chars(names: &Vec<String>) -> (r: Vec<Vec<char>>)
    ensures
        chars_views(r@) == string_views(names@),
{
    let mut r: Vec<Vec<char>> = Vec::new();
    let mut i: usize = 0;
    while i < names.len()
        invariant
            i <= names.len(),
            chars_views(r@) == string_views(names@).take(i as int),
        decreases names.len() - i,
    {
        let c = chars_of(names[i].as_str());
        let ghost before = r@;
        r.push(c);
        assert(chars_views(r@) =~= chars_views(before).push(c@));
        assert(string_views(names@).take(i + 1) =~= string_views(names@).take(i as int).push(names@[i as int]@));
        i += 1;
    }
    assert(string_views(names@).take(i as int) =~= string_views(names@));
    r
}

} // verus!
