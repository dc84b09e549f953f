use vstd::prelude::*;

use std::sync::Arc;

use crate::compiled_rule::{fallback_of, normalized, scanner_pattern_of, CompiledRule};
use crate::injection::strings_view;
use crate::scanner::scanner_compiles;
use crate::text::{chars_of, find_char, first_index_from, lemma_first_index_from, string_from_chars};

verus! {

broadcast use vstd::string::group_string_axioms;

/// What `\z` is rewritten to: an end anchor that does not match before a
/// final newline.
pub open spec fn end_anchor_replacement() -> Seq<char> {
    seq!['$', '(', '?', '!', '\\', 'n', ')', '(', '?', '<', '!', '\\', 'n', ')']
}

/// The source from `i` on with every escaped `z` replaced by the end
/// anchor replacement; other escapes are copied as they are.
pub open spec fn rewrite_end_anchor_from(s: Seq<char>, i: int) -> Seq<char>
    decreases s.len() - i,
{
    if i < 0 || i >= s.len() {
        Seq::empty()
    } else if s[i] == '\\' && i + 1 < s.len() {
        if s[i + 1] == 'z' {
            end_anchor_replacement() + rewrite_end_anchor_from(s, i + 2)
        } else {
            seq![s[i], s[i + 1]] + rewrite_end_anchor_from(s, i + 2)
        }
    } else {
        seq![s[i]] + rewrite_end_anchor_from(s, i + 1)
    }
}

/// Whether the source from `i` on holds an escaped `A` or `G`.
pub open spec fn has_anchor_from(s: Seq<char>, i: int) -> bool
    decreases s.len() - i,
{
    if i < 0 || i >= s.len() {
        false
    } else if s[i] == '\\' && i + 1 < s.len() {
        s[i + 1] == 'A' || s[i + 1] == 'G' || has_anchor_from(s, i + 2)
    } else {
        has_anchor_from(s, i + 1)
    }
}

/// The source from `i` on with escaped `A` and `G` kept when allowed and
/// otherwise replaced by U+FFFF after the backslash.
pub open spec fn resolve_anchors_from(s: Seq<char>, i: int, allow_a: bool, allow_g: bool) -> Seq<char>
    decreases s.len() - i,
{
    if i < 0 || i >= s.len() {
        Seq::empty()
    } else if s[i] == '\\' && i + 1 < s.len() {
        let c = if s[i + 1] == 'A' && !allow_a {
            '\u{ffff}'
        } else if s[i + 1] == 'G' && !allow_g {
            '\u{ffff}'
        } else {
            s[i + 1]
        };
        seq!['\\', c] + resolve_anchors_from(s, i + 2, allow_a, allow_g)
    } else {
        seq![s[i]] + resolve_anchors_from(s, i + 1, allow_a, allow_g)
    }
}

proof fn lemma_no_anchor_resolves_to_itself(s: Seq<char>, i: int, allow_a: bool, allow_g: bool)
    requires
        0 <= i <= s.len(),
        !has_anchor_from(s, i),
    ensures
        resolve_anchors_from(s, i, allow_a, allow_g) == s.subrange(i, s.len() as int),
    decreases s.len() - i,
{
    if i < s.len() {
        if s[i] == '\\' && i + 1 < s.len() {
            lemma_no_anchor_resolves_to_itself(s, i + 2, allow_a, allow_g);
            assert(s.subrange(i, s.len() as int) =~= seq![s[i], s[i + 1]] + s.subrange(i + 2, s.len() as int));
        } else {
            lemma_no_anchor_resolves_to_itself(s, i + 1, allow_a, allow_g);
            assert(s.subrange(i, s.len() as int) =~= seq![s[i]] + s.subrange(i + 1, s.len() as int));
        }
    } else {
        assert(s.subrange(i, s.len() as int) =~= Seq::<char>::empty());
    }
}

fn rewrite_end_anchor(source: &Vec<char>) -> (r: (Vec<char>, bool))
    ensures
        r.0@ == rewrite_end_anchor_from(source@, 0),
        r.1 == has_anchor_from(source@, 0),
{
    let ghost s = source@;
    let replacement = chars_of("$(?!\\n)(?<!\\n)");
    proof {
        reveal_strlit("$(?!\\n)(?<!\\n)");
        assert(replacement@ =~= end_anchor_replacement());
    }
    let mut out: Vec<char> = Vec::new();
    let mut has_anchor = false;
    let mut i: usize = 0;
    while i < source.len()
        invariant
            i <= source.len(),
            s == source@,
            replacement@ == end_anchor_replacement(),
            out@ + rewrite_end_anchor_from(s, i as int) == rewrite_end_anchor_from(s, 0),
            (has_anchor || has_anchor_from(s, i as int)) == has_anchor_from(s, 0),
        decreases source.len() - i,
    {
        if source[i] == '\\' && i + 1 < source.len() {
            let next = source[i + 1];
            let ghost old_out = out@;
            if next == 'z' {
                let mut k: usize = 0;
                while k < replacement.len()
                    invariant
                        k <= replacement.len(),
                        out@ == old_out + replacement@.take(k as int),
                    decreases replacement.len() - k,
                {
                    out.push(replacement[k]);
                    k += 1;
                    assert(out@ =~= old_out + replacement@.take(k as int));
                }
                assert(replacement@.take(k as int) =~= replacement@);
            } else {
                if next == 'A' || next == 'G' {
                    has_anchor = true;
                }
                out.push('\\');
                out.push(next);
                assert(out@ =~= old_out + seq![s[i as int], s[i + 1]]);
            }
            assert(out@ + rewrite_end_anchor_from(s, i + 2) =~= old_out + rewrite_end_anchor_from(s, i as int));
            i += 2;
        } else {
            let ghost old_out = out@;
            out.push(source[i]);
            assert(out@ + rewrite_end_anchor_from(s, i + 1) =~= old_out + rewrite_end_anchor_from(s, i as int));
            i += 1;
        }
    }
    assert(out@ + rewrite_end_anchor_from(s, i as int) =~= out@);
    (out, has_anchor)
}

fn scan_has_anchor(source: &Vec<char>) -> (r: bool)
    ensures
        r == has_anchor_from(source@, 0),
{
    let mut i: usize = 0;
    while i < source.len()
        invariant
            i <= source.len(),
            has_anchor_from(source@, i as int) == has_anchor_from(source@, 0),
        decreases source.len() - i,
    {
        if source[i] == '\\' && i + 1 < source.len() {
            if source[i + 1] == 'A' || source[i + 1] == 'G' {
                return true;
            }
            i += 2;
        } else {
            i += 1;
        }
    }
    false
}

fn resolve_anchor_variant(source: &Vec<char>, allow_a: bool, allow_g: bool) -> (r: Vec<char>)
    ensures
        r@ == resolve_anchors_from(source@, 0, allow_a, allow_g),
{
    let ghost s = source@;
    let mut out: Vec<char> = Vec::new();
    let mut i: usize = 0;
    while i < source.len()
        invariant
            i <= source.len(),
            s == source@,
            out@ + resolve_anchors_from(s, i as int, allow_a, allow_g) == resolve_anchors_from(s, 0, allow_a, allow_g),
        decreases source.len() - i,
    {
        let ghost old_out = out@;
        if source[i] == '\\' && i + 1 < source.len() {
            let next = source[i + 1];
            let c = if next == 'A' && !allow_a {
                '\u{ffff}'
            } else if next == 'G' && !allow_g {
                '\u{ffff}'
            } else {
                next
            };
            out.push('\\');
            out.push(c);
            assert(out@ + resolve_anchors_from(s, i + 2, allow_a, allow_g) =~= old_out + resolve_anchors_from(s, i as int, allow_a, allow_g));
            i += 2;
        } else {
            out.push(source[i]);
            assert(out@ + resolve_anchors_from(s, i + 1, allow_a, allow_g) =~= old_out + resolve_anchors_from(s, i as int, allow_a, allow_g));
            i += 1;
        }
    }
    assert(out@ + resolve_anchors_from(s, i as int, allow_a, allow_g) =~= out@);
    out
}

/// Whether `c` is an ASCII decimal digit.
pub open spec fn is_digit_char(c: char) -> bool {
    '0' <= c <= '9'
}

/// Whether the source holds a backslash directly followed by a digit.
pub open spec fn spec_has_back_references(s: Seq<char>) -> bool {
    exists|i: int| 0 <= i && i + 1 < s.len() && s[i] == '\\' && is_digit_char(#[trigger] s[i + 1])
}

fn has_back_references(source: &Vec<char>) -> (r: bool)
    ensures
        r == spec_has_back_references(source@),
{
    if source.len() < 2 {
        return false;
    }
    let mut i: usize = 0;
    while i < source.len() - 1
        invariant
            source.len() >= 2,
            forall|k: int| 0 <= k < i && k + 1 < source@.len() ==> !(source@[k] == '\\' && is_digit_char(#[trigger] source@[k + 1])),
        decreases source.len() - i,
    {
        if source[i] == '\\' && '0' <= source[i + 1] && source[i + 1] <= '9' {
            return true;
        }
        i += 1;
    }
    false
}

struct AnchorCache {
    a0_g0: String,
    a0_g1: String,
    a1_g0: String,
    a1_g1: String,
}

impl AnchorCache {
    fn copy(&self) -> (r: AnchorCache)
        ensures
            r == *self,
    {
        AnchorCache {
            a0_g0: crate::text::copy_string(&self.a0_g0),
            a0_g1: crate::text::copy_string(&self.a0_g1),
            a1_g0: crate::text::copy_string(&self.a1_g0),
            a1_g1: crate::text::copy_string(&self.a1_g1),
        }
    }

    spec fn variant(&self, allow_a: bool, allow_g: bool) -> Seq<char> {
        if allow_a {
            if allow_g { self.a1_g1@ } else { self.a1_g0@ }
        } else {
            if allow_g { self.a0_g1@ } else { self.a0_g0@ }
        }
    }

    fn build(source: &Vec<char>) -> (r: AnchorCache)
        ensures
            forall|a: bool, g: bool| r.variant(a, g) == resolve_anchors_from(source@, 0, a, g),
    {
        let a0_g0 = string_from_chars(resolve_anchor_variant(source, false, false).as_slice());
        let a0_g1 = string_from_chars(resolve_anchor_variant(source, false, true).as_slice());
        let a1_g0 = string_from_chars(resolve_anchor_variant(source, true, false).as_slice());
        let a1_g1 = string_from_chars(resolve_anchor_variant(source, true, true).as_slice());
        AnchorCache { a0_g0, a0_g1, a1_g0, a1_g1 }
    }
}

/// A TextMate regular expression source with its anchor variants.
pub struct RegExpSource<T> {
    pub source: String,
    pub rule_id: T,
    pub has_anchor: bool,
    pub has_back_references: bool,
    anchor_cache: Option<AnchorCache>,
}

impl<T> RegExpSource<T> {
    pub closed spec fn source_chars(&self) -> Seq<char> {
        self.source@
    }

    pub closed spec fn spec_rule_id(&self) -> T {
        self.rule_id
    }

    pub closed spec fn spec_has_anchor(&self) -> bool {
        self.has_anchor
    }

    pub closed spec fn spec_has_back_refs(&self) -> bool {
        self.has_back_references
    }

    /// Whether anchor variants are held.
    pub closed spec fn has_variants(&self) -> bool {
        self.anchor_cache is Some
    }

    /// The anchor variants are held exactly when the source has anchors,
    /// and then each is the source with its anchors resolved.
    pub closed spec fn wf(&self) -> bool {
        &&& self.has_variants() == self.has_anchor
        &&& forall|a: bool, g: bool| self.has_anchor ==> #[trigger] self.resolved(a, g) == resolve_anchors_from(self.source@, 0, a, g)
    }

    /// The text that `resolve_anchors` gives for the two flags.
    pub closed spec fn resolved(&self, allow_a: bool, allow_g: bool) -> Seq<char> {
        match self.anchor_cache {
            Some(c) => c.variant(allow_a, allow_g),
            None => self.source@,
        }
    }

    /// Rewrites `\z` and records whether the source uses `\A` or `\G` and
    /// numeric back references.
    pub fn new(reg_exp_source: &str, rule_id: T) -> (r: Self)
        ensures
            r.source_chars() == rewrite_end_anchor_from(reg_exp_source@, 0),
            r.spec_rule_id() == rule_id,
            r.spec_has_anchor() == has_anchor_from(r.source_chars(), 0),
            r.spec_has_back_refs() == spec_has_back_references(r.source_chars()),
            r.has_variants() == r.spec_has_anchor(),
            r.wf(),
            forall|a: bool, g: bool| r.resolved(a, g) == resolve_anchors_from(r.source_chars(), 0, a, g),
    {
        let chars = chars_of(reg_exp_source);
        let (rewritten, _) = rewrite_end_anchor(&chars);
        let has_anchor = scan_has_anchor(&rewritten);
        let anchor_cache = if has_anchor {
            Some(AnchorCache::build(&rewritten))
        } else {
            proof {
                assert forall|a: bool, g: bool| resolve_anchors_from(rewritten@, 0, a, g) == rewritten@ by {
                    lemma_no_anchor_resolves_to_itself(rewritten@, 0, a, g);
                    assert(rewritten@.subrange(0, rewritten@.len() as int) =~= rewritten@);
                }
            }
            None
        };
        let has_back_references = has_back_references(&rewritten);
        RegExpSource {
            source: string_from_chars(rewritten.as_slice()),
            rule_id,
            has_anchor,
            has_back_references,
            anchor_cache,
        }
    }

    /// Replaces the source; the anchor variants are rebuilt when the source
    /// was created with anchors. The rewrite of `\z` and the flags are not
    /// recomputed.
    pub fn set_source(&mut self, new_source: &str)
        requires
            old(self).wf(),
        ensures
            final(self).wf(),
            final(self).source_chars() == new_source@,
            forall|a: bool, g: bool|
                #[trigger] final(self).resolved(a, g) == if final(self).spec_has_anchor() {
                    resolve_anchors_from(new_source@, 0, a, g)
                } else {
                    new_source@
                },
            final(self).spec_rule_id() == old(self).spec_rule_id(),
            final(self).spec_has_anchor() == old(self).spec_has_anchor(),
            final(self).spec_has_back_refs() == old(self).spec_has_back_refs(),
            old(self).source_chars() == new_source@ ==> final(self).source_chars() == old(
                self,
            ).source_chars() && final(self).has_variants() == old(self).has_variants() && (forall|
                a: bool,
                g: bool,
            | final(self).resolved(a, g) == old(self).resolved(a, g)),
            old(self).source_chars() != new_source@ ==> final(self).source_chars() == new_source@
                && final(self).has_variants() == (old(self).has_variants()
                || old(self).spec_has_anchor()) && (forall|a: bool, g: bool|
                final(self).resolved(a, g) == if old(self).spec_has_anchor() {
                    resolve_anchors_from(new_source@, 0, a, g)
                } else if old(self).has_variants() {
                    old(self).resolved(a, g)
                } else {
                    new_source@
                }),
    {
        let new_chars = chars_of(new_source);
        let old_chars = chars_of(self.source.as_str());
        if crate::text::chars_eq(old_chars.as_slice(), new_chars.as_slice()) {
            return;
        }
        self.source = string_from_chars(new_chars.as_slice());
        if self.has_anchor {
            self.anchor_cache = Some(AnchorCache::build(&new_chars));
        }
    }

    /// The source with `\A` and `\G` kept or disabled as asked.
    pub fn resolve_anchors(&self, allow_a: bool, allow_g: bool) -> (r: &str)
        ensures
            r@ == self.resolved(allow_a, allow_g),
    {
        match &self.anchor_cache {
            None => self.source.as_str(),
            Some(cache) => {
                if allow_a {
                    if allow_g { cache.a1_g1.as_str() } else { cache.a1_g0.as_str() }
                } else {
                    if allow_g { cache.a0_g1.as_str() } else { cache.a0_g0.as_str() }
                }
            },
        }
    }
}

/// The end of the run of digits that starts at `i`.
pub open spec fn digits_end(s: Seq<char>, i: int) -> int
    decreases s.len() - i,
{
    if 0 <= i < s.len() && is_digit_char(s[i]) {
        digits_end(s, i + 1)
    } else {
        i
    }
}

pub(crate) proof fn lemma_digits_end(s: Seq<char>, i: int)
    requires
        0 <= i <= s.len(),
    ensures
        i <= digits_end(s, i) <= s.len(),
        forall|k: int| i <= k < digits_end(s, i) ==> is_digit_char(#[trigger] s[k]),
        digits_end(s, i) < s.len() ==> !is_digit_char(s[digits_end(s, i)]),
    decreases s.len() - i,
{
    if i < s.len() && is_digit_char(s[i]) {
        lemma_digits_end(s, i + 1);
    }
}

pub(crate) fn scan_digits(s: &Vec<char>, i: usize) -> (r: usize)
    requires
        i <= s.len(),
    ensures
        r == digits_end(s@, i as int),
        i <= r <= s.len(),
{
    proof {
        lemma_digits_end(s@, i as int);
    }
    let mut j = i;
    while j < s.len() && '0' <= s[j] && s[j] <= '9'
        invariant
            i <= j <= s.len(),
            digits_end(s@, i as int) == digits_end(s@, j as int),
        decreases s.len() - j,
    {
        j += 1;
    }
    j
}

/// Whether the brace at `i` opens a valid `{n}`, `{n,}`, `{,m}` or `{n,m}`
/// interval.
pub open spec fn starts_valid_interval_at(s: Seq<char>, i: int) -> bool {
    let j = digits_end(s, i + 1);
    let first = j > i + 1;
    if j < s.len() && s[j] == '}' {
        first
    } else if !(j < s.len() && s[j] == ',') {
        false
    } else {
        let k = digits_end(s, j + 1);
        k < s.len() && s[k] == '}' && (first || k > j + 1)
    }
}

/// Whether the text before `i` ends with `\p`, `\P`, `\x`, `\o` or `(?`.
pub open spec fn special_brace_at(s: Seq<char>, i: int) -> bool {
    i >= 2 && ((s[i - 2] == '\\' && (s[i - 1] == 'p' || s[i - 1] == 'P' || s[i - 1] == 'x'
        || s[i - 1] == 'o')) || (s[i - 2] == '(' && s[i - 1] == '?'))
}

/// The pattern from `i` on with every brace outside a character class that
/// neither opens an interval nor follows a special marker escaped.
pub open spec fn normalize_from(s: Seq<char>, i: int, in_class: bool) -> Seq<char>
    decreases s.len() - i,
{
    if i < 0 || i >= s.len() {
        Seq::empty()
    } else if s[i] == '\\' {
        if i + 1 < s.len() {
            seq!['\\', s[i + 1]] + normalize_from(s, i + 2, in_class)
        } else {
            seq!['\\']
        }
    } else {
        let c = s[i];
        let next_class = if c == '[' {
            true
        } else if c == ']' {
            false
        } else {
            in_class
        };
        let escaped = c == '{' && !in_class && !starts_valid_interval_at(s, i) && !special_brace_at(s, i);
        (if escaped { seq!['\\', c] } else { seq![c] }) + normalize_from(s, i + 1, next_class)
    }
}

fn starts_valid_interval(s: &Vec<char>, i: usize) -> (r: bool)
    requires
        i < s.len(),
    ensures
        r == starts_valid_interval_at(s@, i as int),
{
    let j = scan_digits(s, i + 1);
    let first = j > i + 1;
    if j < s.len() && s[j] == '}' {
        return first;
    }
    if !(j < s.len() && s[j] == ',') {
        return false;
    }
    let k = scan_digits(s, j + 1);
    k < s.len() && s[k] == '}' && (first || k > j + 1)
}

fn starts_special_brace_expression(s: &Vec<char>, i: usize) -> (r: bool)
    requires
        i <= s.len(),
    ensures
        r == special_brace_at(s@, i as int),
{
    if i < 2 {
        return false;
    }
    let a = s[i - 2];
    let b = s[i - 1];
    (a == '\\' && (b == 'p' || b == 'P' || b == 'x' || b == 'o')) || (a == '(' && b == '?')
}

/// Escapes the braces that the regex engine would reject as intervals.
pub fn normalize_ferroni_pattern(pattern: &str) -> (r: String)
    ensures
        r@ == normalize_from(pattern@, 0, false),
{
    let s = chars_of(pattern);
    let mut out: Vec<char> = Vec::new();
    let mut i: usize = 0;
    let mut in_class = false;
    while i < s.len()
        invariant
            i <= s.len(),
            s@ == pattern@,
            out@ + normalize_from(s@, i as int, in_class) == normalize_from(s@, 0, false),
        decreases s.len() - i,
    {
        let ghost old_out = out@;
        let ghost old_class = in_class;
        let c = s[i];
        if c == '\\' {
            out.push('\\');
            if i + 1 < s.len() {
                out.push(s[i + 1]);
                assert(out@ + normalize_from(s@, i + 2, in_class) =~= old_out + normalize_from(s@, i as int, old_class));
                i += 2;
            } else {
                assert(out@ + normalize_from(s@, i + 1, in_class) =~= old_out + normalize_from(s@, i as int, old_class));
                i += 1;
            }
        } else {
            let escaped = c == '{' && !in_class && !starts_valid_interval(&s, i)
                && !starts_special_brace_expression(&s, i);
            if c == '[' {
                in_class = true;
            } else if c == ']' {
                in_class = false;
            }
            if escaped {
                out.push('\\');
            }
            out.push(c);
            assert(out@ + normalize_from(s@, i + 1, in_class) =~= old_out + normalize_from(s@, i as int, old_class));
            i += 1;
        }
    }
    assert(out@ + normalize_from(s@, i as int, in_class) =~= out@);
    string_from_chars(out.as_slice())
}

/// Whether `s` holds `t` at position `p`.
pub open spec fn holds_at(s: Seq<char>, p: int, t: Seq<char>) -> bool {
    0 <= p && p + t.len() <= s.len() && s.subrange(p, p + t.len() as int) == t
}

/// Where the opener of a named group at `p` ends (just after its `>` or
/// closing quote): `(?<name>` but not a look-behind, `(?'name'` and
/// `(?P<name>`.
pub open spec fn opener_end(s: Seq<char>, p: int) -> Option<int> {
    if holds_at(s, p, seq!['(', '?', '<']) && !holds_at(s, p, seq!['(', '?', '<', '=']) && !holds_at(
        s,
        p,
        seq!['(', '?', '<', '!'],
    ) {
        match first_index_from(s, '>', p) {
            Some(e) => Some(e + 1),
            None => None,
        }
    } else if holds_at(s, p, seq!['(', '?', '\'']) {
        match first_index_from(s, '\'', p + 3) {
            Some(e) => Some(e + 1),
            None => None,
        }
    } else if holds_at(s, p, seq!['(', '?', 'P', '<']) {
        match first_index_from(s, '>', p) {
            Some(e) => Some(e + 1),
            None => None,
        }
    } else {
        None
    }
}

/// The empty look-ahead put after group openers.
pub open spec fn empty_lookahead() -> Seq<char> {
    seq!['(', '?', '=', ')']
}

/// The pattern from `i` on with an empty look-ahead after the opener of
/// every named group and in front of every other capturing group outside a
/// character class, so that each group takes part in a match.
pub open spec fn stabilize_from(s: Seq<char>, i: int, in_class: bool) -> Seq<char>
    decreases s.len() - i,
{
    if i < 0 || i >= s.len() {
        Seq::empty()
    } else if s[i] == '\\' {
        if i + 1 < s.len() {
            seq!['\\', s[i + 1]] + stabilize_from(s, i + 2, in_class)
        } else {
            seq!['\\']
        }
    } else if s[i] == '(' && !in_class && opener_end(s, i) is Some && i < opener_end(s, i).unwrap() <= s.len() {
        let e = opener_end(s, i).unwrap();
        s.subrange(i, e) + empty_lookahead() + stabilize_from(s, e, in_class)
    } else if s[i] == '(' && !in_class && !(i + 1 < s.len() && s[i + 1] == '?') {
        seq!['('] + empty_lookahead() + stabilize_from(s, i + 1, in_class)
    } else {
        let next_class = if s[i] == '[' {
            true
        } else if s[i] == ']' {
            false
        } else {
            in_class
        };
        seq![s[i]] + stabilize_from(s, i + 1, next_class)
    }
}

fn chars_at(s: &Vec<char>, p: usize, t: &[char]) -> (r: bool)
    ensures
        r == holds_at(s@, p as int, t@),
{
    if p > s.len() || t.len() > s.len() - p {
        return false;
    }
    let mut k: usize = 0;
    while k < t.len()
        invariant
            k <= t.len(),
            p + t.len() <= s.len(),
            forall|j: int| 0 <= j < k ==> s@[p + j] == t@[j],
        decreases t.len() - k,
    {
        if s[p + k] != t[k] {
            return false;
        }
        k += 1;
    }
    assert(s@.subrange(p as int, p + t@.len()) =~= t@);
    true
}

fn named_capture_opener_end(s: &Vec<char>, p: usize) -> (r: Option<usize>)
    requires
        p < s.len(),
    ensures
        match opener_end(s@, p as int) {
            Some(e) => r matches Some(x) && x == e,
            None => r is None,
        },
        r matches Some(e) ==> p < e <= s.len(),
{
    proof {
        lemma_first_index_from(s@, '>', p as int);
        lemma_first_index_from(s@, '\'', p + 3);
    }
    if chars_at(s, p, &['(', '?', '<']) && !chars_at(s, p, &['(', '?', '<', '=']) && !chars_at(s, p, &['(', '?', '<', '!']) {
        return match find_char(s.as_slice(), '>', p) {
            Some(e) => Some(e + 1),
            None => None,
        };
    }
    if chars_at(s, p, &['(', '?', '\'']) {
        return match find_char(s.as_slice(), '\'', p + 3) {
            Some(e) => Some(e + 1),
            None => None,
        };
    }
    if chars_at(s, p, &['(', '?', 'P', '<']) {
        return match find_char(s.as_slice(), '>', p) {
            Some(e) => Some(e + 1),
            None => None,
        };
    }
    None
}

/// Puts an empty look-ahead after the opener of every named group and in
/// front of every other capturing group, so that the regex engine reports
/// each group a match passes through.
pub fn stabilize_ferroni_captures(pattern: &str) -> (r: String)
    ensures
        r@ == stabilize_from(pattern@, 0, false),
{
    let s = chars_of(pattern);
    let mut out: Vec<char> = Vec::new();
    let mut i: usize = 0;
    let mut in_class = false;
    while i < s.len()
        invariant
            i <= s.len(),
            s@ == pattern@,
            out@ + stabilize_from(s@, i as int, in_class) == stabilize_from(s@, 0, false),
        decreases s.len() - i,
    {
        let ghost old_out = out@;
        let ghost old_class = in_class;
        let c = s[i];
        if c == '\\' {
            out.push('\\');
            if i + 1 < s.len() {
                out.push(s[i + 1]);
                assert(out@ + stabilize_from(s@, i + 2, in_class) =~= old_out + stabilize_from(s@, i as int, old_class));
                i += 2;
            } else {
                assert(out@ + stabilize_from(s@, i + 1, in_class) =~= old_out + stabilize_from(s@, i as int, old_class));
                i += 1;
            }
        } else {
            if c == '(' && !in_class {
                match named_capture_opener_end(&s, i) {
                    Some(e) => {
                        if e > i && e <= s.len() {
                            let mut k = i;
                            while k < e
                                invariant
                                    i <= k <= e,
                                    e <= s.len(),
                                    out@ == old_out + s@.subrange(i as int, k as int),
                                decreases e - k,
                            {
                                out.push(s[k]);
                                assert(s@.subrange(i as int, k + 1) =~= s@.subrange(i as int, k as int).push(s@[k as int]));
                                k += 1;
                            }
                            out.push('(');
                            out.push('?');
                            out.push('=');
                            out.push(')');
                            assert(s@[i as int] == '(');
                            assert(opener_end(s@, i as int) == Some(e as int));
                            assert(out@ =~= old_out + s@.subrange(i as int, e as int) + empty_lookahead());
                            assert(stabilize_from(s@, i as int, old_class) == s@.subrange(i as int, e as int) + empty_lookahead()
                                + stabilize_from(s@, e as int, old_class));
                            assert(out@ + stabilize_from(s@, e as int, in_class) =~= old_out + stabilize_from(s@, i as int, old_class));
                            i = e;
                            continue;
                        }
                    },
                    None => {},
                }
                if !(i + 1 < s.len() && s[i + 1] == '?') {
                    out.push('(');
                    out.push('(');
                    out.push('?');
                    out.push('=');
                    out.push(')');
                    assert(out@ + stabilize_from(s@, i + 1, in_class) =~= old_out + stabilize_from(s@, i as int, old_class));
                    i += 1;
                    continue;
                }
            }
            if c == '[' {
                in_class = true;
            } else if c == ']' {
                in_class = false;
            }
            out.push(c);
            assert(out@ + stabilize_from(s@, i + 1, in_class) =~= old_out + stabilize_from(s@, i as int, old_class));
            i += 1;
        }
    }
    assert(out@ + stabilize_from(s@, i as int, in_class) =~= out@);
    string_from_chars(out.as_slice())
}

/// Whether a `^` occurs outside escapes and character classes, from `i`.
pub open spec fn line_start_anchor_from(s: Seq<char>, i: int, in_class: bool) -> bool
    decreases s.len() + 2 - i,
{
    if i < 0 || i >= s.len() {
        false
    } else if s[i] == '\\' {
        line_start_anchor_from(s, i + 2, in_class)
    } else if s[i] == '[' {
        line_start_anchor_from(s, i + 1, true)
    } else if s[i] == ']' {
        line_start_anchor_from(s, i + 1, false)
    } else if s[i] == '^' && !in_class {
        true
    } else {
        line_start_anchor_from(s, i + 1, in_class)
    }
}

/// Whether the pattern uses a line-start anchor.
pub fn has_line_start_anchor(pattern: &str) -> (r: bool)
    ensures
        r == line_start_anchor_from(pattern@, 0, false),
{
    let s = chars_of(pattern);
    let mut i: usize = 0;
    let mut in_class = false;
    while i < s.len()
        invariant
            i <= s.len(),
            s@ == pattern@,
            line_start_anchor_from(s@, i as int, in_class) == line_start_anchor_from(s@, 0, false),
        decreases s.len() - i,
    {
        let c = s[i];
        if c == '\\' {
            if i + 1 >= s.len() {
                assert(!line_start_anchor_from(s@, i + 2, in_class));
                return false;
            }
            i += 2;
        } else {
            if c == '[' {
                in_class = true;
            } else if c == ']' {
                in_class = false;
            } else if c == '^' && !in_class {
                return true;
            }
            i += 1;
        }
    }
    false
}

/// The decimal value of the digits `s[i..j]`.
pub open spec fn decimal_value(s: Seq<char>, i: int, j: int) -> nat
    decreases j - i,
{
    if j <= i {
        0
    } else {
        decimal_value(s, i, j - 1) * 10 + ((s[j - 1] as u32) - ('0' as u32)) as nat
    }
}

/// The case command of a `${n:/command}` placeholder.
#[derive(Clone, Copy, Debug, PartialEq, Eq, Structural)]
pub enum CaptureCommand {
    Downcase,
    Upcase,
}

/// A capture placeholder: start and end positions, capture index and
/// optional case command.
pub struct CapturePlaceholder {
    pub start: usize,
    pub end: usize,
    pub index: usize,
    pub command: Option<CaptureCommand>,
}

pub open spec fn downcase_chars() -> Seq<char> {
    seq!['d', 'o', 'w', 'n', 'c', 'a', 's', 'e']
}

pub open spec fn upcase_chars() -> Seq<char> {
    seq!['u', 'p', 'c', 'a', 's', 'e']
}

/// The outcome of looking for a placeholder at `p`: not one here
/// (`None`), or a placeholder with its end, command and index; the search
/// gives up when the index does not fit in `usize`.
pub enum PlaceholderAt {
    NotHere,
    Found { end: int, index: nat, command: Option<CaptureCommand> },
}

pub open spec fn placeholder_at(s: Seq<char>, p: int) -> PlaceholderAt {
    if !(0 <= p < s.len()) || s[p] != '$' {
        PlaceholderAt::NotHere
    } else if p + 1 < s.len() && is_digit_char(s[p + 1]) {
        let end = digits_end(s, p + 1);
        PlaceholderAt::Found { end, index: decimal_value(s, p + 1, end), command: None }
    } else if p + 1 < s.len() && s[p + 1] == '{' {
        let ds = p + 2;
        let de = digits_end(s, ds);
        if de == ds || !(de < s.len() && de + 1 < s.len() && s[de] == ':' && s[de + 1] == '/') {
            PlaceholderAt::NotHere
        } else {
            let cs = de + 2;
            let (command, len) = if crate::text::occurs_at(s, downcase_chars(), cs) {
                (Some(CaptureCommand::Downcase), 8int)
            } else if crate::text::occurs_at(s, upcase_chars(), cs) {
                (Some(CaptureCommand::Upcase), 6int)
            } else {
                (None, 0int)
            };
            if command is None {
                PlaceholderAt::NotHere
            } else if !(cs + len < s.len() && s[cs + len] == '}') {
                PlaceholderAt::NotHere
            } else {
                PlaceholderAt::Found { end: cs + len + 1, index: decimal_value(s, ds, de), command }
            }
        }
    } else {
        PlaceholderAt::NotHere
    }
}

/// The first placeholder at or after `from`, as start, end, index and
/// command; `None` when there is none or when the first one's index does
/// not fit in `usize`.
pub open spec fn find_placeholder_from(s: Seq<char>, from: int) -> Option<(int, int, nat, Option<CaptureCommand>)>
    decreases s.len() - from,
{
    if from < 0 || from >= s.len() {
        None
    } else {
        match placeholder_at(s, from) {
            PlaceholderAt::Found { end, index, command } => if index <= usize::MAX {
                Some((from, end, index, command))
            } else {
                None
            },
            PlaceholderAt::NotHere => find_placeholder_from(s, from + 1),
        }
    }
}

/// A placeholder found at `p` ends after `p` and within `s`.
pub proof fn lemma_placeholder_at_end(s: Seq<char>, p: int)
    requires
        0 <= p < s.len(),
    ensures
        placeholder_at(s, p) matches PlaceholderAt::Found { end, .. } ==> p < end <= s.len(),
{
    if s[p] == '$' && p + 1 < s.len() && is_digit_char(s[p + 1]) {
        lemma_digits_end(s, p + 1);
    } else if s[p] == '$' && p + 1 < s.len() && s[p + 1] == '{' {
        lemma_digits_end(s, p + 2);
    }
}

pub(crate) fn parse_index(s: &Vec<char>, i: usize, j: usize) -> (r: Option<usize>)
    requires
        i <= j <= s.len(),
        forall|k: int| i <= k < j ==> is_digit_char(#[trigger] s@[k]),
    ensures
        match r {
            Some(v) => v == decimal_value(s@, i as int, j as int),
            None => decimal_value(s@, i as int, j as int) > usize::MAX,
        },
{
    let mut value: usize = 0;
    let mut k = i;
    let mut overflow = false;
    while k < j
        invariant
            i <= k <= j <= s.len(),
            forall|m: int| i <= m < j ==> is_digit_char(#[trigger] s@[m]),
            !overflow ==> value == decimal_value(s@, i as int, k as int),
            overflow ==> decimal_value(s@, i as int, k as int) > usize::MAX,
        decreases j - k,
    {
        let d = (s[k] as u32 - '0' as u32) as usize;
        assert(is_digit_char(s@[k as int]));
        proof {
            lemma_decimal_monotone(s@, i as int, k as int);
        }
        if !overflow {
            if value > (usize::MAX - d) / 10 {
                overflow = true;
                assert(decimal_value(s@, i as int, k + 1) > usize::MAX) by (nonlinear_arith)
                    requires
                        decimal_value(s@, i as int, k + 1) == value * 10 + d,
                        value > (usize::MAX - d) / 10,
                        d <= 9,
                ;
            } else {
                assert(value * 10 + d <= usize::MAX) by (nonlinear_arith)
                    requires
                        value <= (usize::MAX - d) / 10,
                        d <= 9,
                ;
                value = value * 10 + d;
            }
        }
        k += 1;
    }
    if overflow { None } else { Some(value) }
}

proof fn lemma_decimal_monotone(s: Seq<char>, i: int, k: int)
    requires
        i <= k,
        0 <= k < s.len(),
        is_digit_char(s[k]),
    ensures
        decimal_value(s, i, k + 1) >= decimal_value(s, i, k),
        decimal_value(s, i, k + 1) == decimal_value(s, i, k) * 10 + ((s[k] as u32) - ('0' as u32)) as nat,
{
}

fn placeholder_here(s: &Vec<char>, p: usize) -> (r: (bool, Option<CapturePlaceholder>))
    requires
        p < s.len(),
    ensures
        match placeholder_at(s@, p as int) {
            PlaceholderAt::NotHere => !r.0,
            PlaceholderAt::Found { end, index, command } => r.0 && match r.1 {
                Some(ph) => index <= usize::MAX && ph.start == p && ph.end == end && ph.index == index
                    && ph.command == command,
                None => index > usize::MAX,
            },
        },
{
    if s[p] != '$' {
        return (false, None);
    }
    if p + 1 < s.len() && '0' <= s[p + 1] && s[p + 1] <= '9' {
        let end = scan_digits(s, p + 1);
        proof {
            lemma_digits_end(s@, p + 1);
        }
        return match parse_index(s, p + 1, end) {
            Some(index) => (true, Some(CapturePlaceholder { start: p, end, index, command: None })),
            None => (true, None),
        };
    }
    if p + 1 < s.len() && s[p + 1] == '{' {
        let ds = p + 2;
        let de = scan_digits(s, ds);
        proof {
            lemma_digits_end(s@, ds as int);
        }
        if de == ds || !(de < s.len() && de + 1 < s.len() && s[de] == ':' && s[de + 1] == '/') {
            return (false, None);
        }
        let cs = de + 2;
        let downcase = chars_of("downcase");
        let upcase = chars_of("upcase");
        proof {
            reveal_strlit("downcase");
            reveal_strlit("upcase");
            assert(downcase@ =~= downcase_chars());
            assert(upcase@ =~= upcase_chars());
        }
        let (command, len): (Option<CaptureCommand>, usize) = if crate::text::chars_occur_at(s.as_slice(), downcase.as_slice(), cs) {
            (Some(CaptureCommand::Downcase), 8)
        } else if crate::text::chars_occur_at(s.as_slice(), upcase.as_slice(), cs) {
            (Some(CaptureCommand::Upcase), 6)
        } else {
            (None, 0)
        };
        if command.is_none() {
            return (false, None);
        }
        if !(cs + len < s.len() && s[cs + len] == '}') {
            return (false, None);
        }
        return match parse_index(s, ds, de) {
            Some(index) => (true, Some(CapturePlaceholder { start: p, end: cs + len + 1, index, command })),
            None => (true, None),
        };
    }
    (false, None)
}

pub(crate) fn find_capture_placeholder(s: &Vec<char>, from: usize) -> (r: Option<CapturePlaceholder>)
    ensures
        match find_placeholder_from(s@, from as int) {
            Some((start, end, index, command)) => r matches Some(ph) && ph.start == start && ph.end
                == end && ph.index == index && ph.command == command,
            None => r is None,
        },
{
    let mut p = from;
    while p < s.len()
        invariant
            from <= p,
            find_placeholder_from(s@, from as int) == find_placeholder_from(s@, p as int),
        decreases s.len() - p,
    {
        let (here, ph) = placeholder_here(s, p);
        if here {
            return ph;
        }
        p += 1;
    }
    None
}

/// Whether a rule name holds a `$n` or `${n:/downcase}`-style capture
/// placeholder.
pub fn has_captures(regex_source: Option<&str>) -> (r: bool)
    ensures
        r == match regex_source {
            None => false,
            Some(s) => find_placeholder_from(s@, 0) is Some,
        },
{
    match regex_source {
        None => false,
        Some(source) => {
            let s = chars_of(source);
            find_capture_placeholder(&s, 0).is_some()
        },
    }
}

impl<T: Copy> RegExpSource<T> {
    /// The same source.
    pub fn copy(&self) -> (r: RegExpSource<T>)
        ensures
            r == *self,
    {
        RegExpSource {
            source: crate::text::copy_string(&self.source),
            rule_id: self.rule_id,
            has_anchor: self.has_anchor,
            has_back_references: self.has_back_references,
            anchor_cache: match &self.anchor_cache {
                Some(c) => Some(c.copy()),
                None => None,
            },
        }
    }
}

impl<T> RegExpSource<T> {
    /// The source as kept.
    pub fn source_str(&self) -> (r: &str)
        ensures
            r@ == self.source_chars(),
    {
        self.source.as_str()
    }

    /// Whether the source holds a back reference.
    pub fn has_back_refs(&self) -> (r: bool)
        ensures
            r == self.spec_has_back_refs(),
    {
        self.has_back_references
    }

    /// The source with each back reference replaced by the escaped text of
    /// the capture it names.
    pub fn resolve_back_references(&self, line_text: &str, capture_indices: &[crate::captures::CaptureIndex]) -> (r: String)
        requires
            crate::captures::back_references_fit(self.source_chars()),
        ensures
            r@ == crate::captures::back_references_replaced(self.source_chars(), line_text@, capture_indices@, 0),
    {
        crate::captures::replace_numeric_back_references(self.source.as_str(), line_text, capture_indices)
    }
}

/// The patterns of a rule's scanner, in order, with the rules they stand
/// for; the compiled forms are kept until a source changes.
pub struct RegExpSourceList<T> {
    items: Vec<RegExpSource<T>>,
    has_anchors: bool,
    cached: Option<Arc<CompiledRule<T>>>,
    anchor_cache: Vec<Option<Arc<CompiledRule<T>>>>,
}

/// The sources of the items.
pub open spec fn item_sources<T>(items: Seq<RegExpSource<T>>) -> Seq<Seq<char>> {
    items.map_values(|x: RegExpSource<T>| x.source_chars())
}

/// The sources of the items with their anchors resolved for the flags.
pub open spec fn item_resolved<T>(items: Seq<RegExpSource<T>>, allow_a: bool, allow_g: bool) -> Seq<Seq<char>> {
    items.map_values(|x: RegExpSource<T>| x.resolved(allow_a, allow_g))
}

/// The rules of the items.
pub open spec fn item_rules<T>(items: Seq<RegExpSource<T>>) -> Seq<T> {
    items.map_values(|x: RegExpSource<T>| x.spec_rule_id())
}

/// Whether `c` is what compiling these patterns for these rules gives.
pub open spec fn compiled_from<T: Copy>(c: CompiledRule<T>, patterns: Seq<Seq<char>>, rules: Seq<T>) -> bool {
    &&& c.wf()
    &&& c.spec_reg_exps() == patterns
    &&& c.spec_rules() == rules
    &&& c.spec_fallbacks() == normalized(patterns).map_values(|p: Seq<char>| fallback_of(p))
    &&& c.spec_scanner_patterns() == normalized(patterns).map_values(|p: Seq<char>| scanner_pattern_of(p))
}

/// Whether compiling these patterns succeeds.
pub open spec fn list_compiles(patterns: Seq<Seq<char>>) -> bool {
    scanner_compiles(normalized(patterns).map_values(|p: Seq<char>| scanner_pattern_of(p)))
}

/// The slot of the compiled form for the two flags.
pub open spec fn anchor_slot(allow_a: bool, allow_g: bool) -> int {
    (if allow_a { 2int } else { 0int }) + (if allow_g { 1int } else { 0int })
}

impl<T> RegExpSourceList<T> {
    pub closed spec fn spec_items(&self) -> Seq<RegExpSource<T>> {
        self.items@
    }

    pub closed spec fn spec_has_anchors(&self) -> bool {
        self.has_anchors
    }

    /// The compiled form kept for the sources as they are.
    pub closed spec fn spec_cached(&self) -> Option<Arc<CompiledRule<T>>> {
        self.cached
    }

    /// The compiled forms kept for each pair of flags.
    pub closed spec fn spec_anchor_cache(&self) -> Seq<Option<Arc<CompiledRule<T>>>> {
        self.anchor_cache@
    }

    /// Four anchor slots; every item well formed; whether some item has
    /// anchors is recorded.
    pub closed spec fn wf(&self) -> bool {
        &&& self.anchor_cache@.len() == 4
        &&& forall|i: int| 0 <= i < self.items@.len() ==> (#[trigger] self.items@[i]).wf()
        &&& self.has_anchors == exists|i: int| 0 <= i < self.items@.len() && (#[trigger] self.items@[i]).spec_has_anchor()
    }

    fn no_anchor_cache() -> (r: Vec<Option<Arc<CompiledRule<T>>>>)
        ensures
            r@.len() == 4,
            forall|i: int| 0 <= i < 4 ==> (#[trigger] r@[i]) is None,
    {
        let mut v: Vec<Option<Arc<CompiledRule<T>>>> = Vec::new();
        v.push(None);
        v.push(None);
        v.push(None);
        v.push(None);
        v
    }

    pub fn new() -> (r: Self)
        ensures
            r.wf(),
            r.spec_items().len() == 0,
            r.spec_cached() is None,
            forall|i: int| 0 <= i < 4 ==> (#[trigger] r.spec_anchor_cache()[i]) is None,
    {
        RegExpSourceList { items: Vec::new(), has_anchors: false, cached: None, anchor_cache: Self::no_anchor_cache() }
    }

    /// Drops the compiled forms.
    pub fn dispose(&mut self)
        requires
            old(self).wf(),
        ensures
            final(self).wf(),
            final(self).spec_items() == old(self).spec_items(),
            final(self).spec_cached() is None,
            forall|i: int| 0 <= i < 4 ==> (#[trigger] final(self).spec_anchor_cache()[i]) is None,
    {
        let ghost before = self.items@;
        self.cached = None;
        self.anchor_cache = Self::no_anchor_cache();
        assert(self.items@ == before);
        assert(self.anchor_cache@.len() == 4);
        assert(forall|i: int| 0 <= i < self.items@.len() ==> (#[trigger] self.items@[i]).wf());
    }

    /// Adds a pattern at the end; compiled forms already kept stay.
    pub fn push(&mut self, item: RegExpSource<T>)
        requires
            old(self).wf(),
            item.wf(),
        ensures
            final(self).wf(),
            final(self).spec_items() == old(self).spec_items().push(item),
            final(self).spec_cached() == old(self).spec_cached(),
            final(self).spec_anchor_cache() == old(self).spec_anchor_cache(),
    {
        let ghost before = self.items@;
        self.has_anchors = self.has_anchors || item.has_anchor;
        self.items.push(item);
        proof {
            if self.has_anchors {
                if !item.spec_has_anchor() {
                    let i = choose|i: int| 0 <= i < before.len() && (#[trigger] before[i]).spec_has_anchor();
                    assert(self.items@[i] == before[i]);
                }
                else {
                    assert(self.items@[before.len() as int] == item);
                }
            } else {
                assert forall|i: int| 0 <= i < self.items@.len() implies !(#[trigger] self.items@[i]).spec_has_anchor() by {
                    if i < before.len() {
                        assert(self.items@[i] == before[i]);
                    }
                }
            }
        }
    }

    /// Adds a pattern at the start; compiled forms already kept stay.
    pub fn unshift(&mut self, item: RegExpSource<T>)
        requires
            old(self).wf(),
            item.wf(),
        ensures
            final(self).wf(),
            final(self).spec_items() == seq![item] + old(self).spec_items(),
            final(self).spec_cached() == old(self).spec_cached(),
            final(self).spec_anchor_cache() == old(self).spec_anchor_cache(),
    {
        let ghost before = self.items@;
        self.has_anchors = self.has_anchors || item.has_anchor;
        self.items.insert(0, item);
        assert(self.items@ =~= seq![item] + before);
        proof {
            if self.has_anchors {
                if !item.spec_has_anchor() {
                    let i = choose|i: int| 0 <= i < before.len() && (#[trigger] before[i]).spec_has_anchor();
                    assert(self.items@[i + 1] == before[i]);
                }
                else {
                    assert(self.items@[0] == item);
                }
            } else {
                assert forall|i: int| 0 <= i < self.items@.len() implies !(#[trigger] self.items@[i]).spec_has_anchor() by {
                    if i > 0 {
                        assert(self.items@[i] == before[i - 1]);
                    }
                }
            }
        }
    }

    pub fn len(&self) -> (r: usize)
        ensures
            r == self.spec_items().len(),
    {
        self.items.len()
    }

    pub fn is_empty(&self) -> (r: bool)
        ensures
            r == (self.spec_items().len() == 0),
    {
        self.items.len() == 0
    }

    /// Replaces the source of one pattern; where it changes, the compiled
    /// forms are dropped.
    pub fn set_source(&mut self, index: usize, new_source: &str)
        requires
            old(self).wf(),
            index < old(self).spec_items().len(),
        ensures
            final(self).wf(),
            final(self).spec_items().len() == old(self).spec_items().len(),
            forall|i: int| 0 <= i < old(self).spec_items().len() && i != index ==> final(self).spec_items()[i] == old(self).spec_items()[i],
            final(self).spec_items()[index as int].source_chars() == new_source@,
            final(self).spec_items()[index as int].spec_rule_id() == old(self).spec_items()[index as int].spec_rule_id(),
            forall|a: bool, g: bool|
                #[trigger] final(self).spec_items()[index as int].resolved(a, g) == if final(self).spec_items()[index as int].spec_has_anchor() {
                    resolve_anchors_from(new_source@, 0, a, g)
                } else {
                    new_source@
                },
            old(self).spec_items()[index as int].source_chars() == new_source@ ==> *final(self) == *old(self),
            old(self).spec_items()[index as int].source_chars() != new_source@ ==> final(self).spec_cached() is None && forall|i: int|
                0 <= i < 4 ==> (#[trigger] final(self).spec_anchor_cache()[i]) is None,
    {
        let current = chars_of(self.items[index].source.as_str());
        let wanted = chars_of(new_source);
        if crate::text::chars_eq(current.as_slice(), wanted.as_slice()) {
            proof {
                let x = self.items@[index as int];
                assert(x.wf());
                assert forall|a: bool, g: bool| #[trigger] x.resolved(a, g) == if x.spec_has_anchor() {
                    resolve_anchors_from(new_source@, 0, a, g)
                } else {
                    new_source@
                } by {
                    if !x.spec_has_anchor() {
                        assert(!x.has_variants());
                    }
                }
            }
            return;
        }
        self.dispose();
        let ghost before = self.items@;
        let mut item = self.items.remove(index);
        item.set_source(new_source);
        self.items.insert(index, item);
        proof {
            assert(self.items@ =~= before.update(index as int, item));
            assert forall|i: int| 0 <= i < self.items@.len() implies (#[trigger] self.items@[i]).wf() by {
                if i != index {
                    assert(self.items@[i] == before[i]);
                }
            }
            if self.has_anchors {
                let i = choose|i: int| 0 <= i < before.len() && (#[trigger] before[i]).spec_has_anchor();
                if i != index {
                    assert(self.items@[i] == before[i]);
                } else {
                    assert(self.items@[i].spec_has_anchor());
                }
            } else {
                assert forall|i: int| 0 <= i < self.items@.len() implies !(#[trigger] self.items@[i]).spec_has_anchor() by {
                    assert(!before[i].spec_has_anchor());
                    if i != index {
                        assert(self.items@[i] == before[i]);
                    }
                }
            }
        }
    }
}

impl<T: Copy> RegExpSourceList<T> {
    fn sources_and_rules(&self, resolve: bool, allow_a: bool, allow_g: bool) -> (r: (Vec<String>, Vec<T>))
        ensures
            strings_view(r.0@) == if resolve {
                item_resolved(self.spec_items(), allow_a, allow_g)
            } else {
                item_sources(self.spec_items())
            },
            r.1@ == item_rules(self.spec_items()),
            r.0@.len() == self.spec_items().len(),
            r.1@.len() == self.spec_items().len(),
    {
        let mut sources: Vec<String> = Vec::new();
        let mut rules: Vec<T> = Vec::new();
        let mut k: usize = 0;
        while k < self.items.len()
            invariant
                k <= self.items@.len(),
                strings_view(sources@) == (if resolve {
                    item_resolved(self.items@, allow_a, allow_g)
                } else {
                    item_sources(self.items@)
                }).take(k as int),
                rules@ == item_rules(self.items@).take(k as int),
            decreases self.items.len() - k,
        {
            let item = &self.items[k];
            let text = if resolve {
                string_from_chars(chars_of(item.resolve_anchors(allow_a, allow_g)).as_slice())
            } else {
                string_from_chars(chars_of(item.source.as_str()).as_slice())
            };
            let ghost before = sources@;
            sources.push(text);
            rules.push(item.rule_id);
            k += 1;
            proof {
                assert(strings_view(sources@) =~= strings_view(before).push(text@));
                assert(strings_view(sources@) =~= (if resolve {
                    item_resolved(self.items@, allow_a, allow_g)
                } else {
                    item_sources(self.items@)
                }).take(k as int));
                assert(rules@ =~= item_rules(self.items@).take(k as int));
            }
        }
        proof {
            assert(strings_view(sources@).len() == sources@.len());
            assert(item_rules(self.items@).take(k as int) =~= item_rules(self.items@));
            assert(item_sources(self.items@).take(k as int) =~= item_sources(self.items@));
            assert(item_resolved(self.items@, allow_a, allow_g).take(k as int) =~= item_resolved(self.items@, allow_a, allow_g));
        }
        (sources, rules)
    }

    /// The compiled form of the sources: the one kept, or a new one (then
    /// kept); none where the scanner refuses the patterns.
    pub fn compile(&mut self) -> (r: Option<Arc<CompiledRule<T>>>)
        requires
            old(self).wf(),
        ensures
            final(self).wf(),
            final(self).spec_items() == old(self).spec_items(),
            final(self).spec_anchor_cache() == old(self).spec_anchor_cache(),
            match old(self).spec_cached() {
                Some(c) => r == Some(c) && final(self).spec_cached() == old(self).spec_cached(),
                None => {
                    &&& (r is Some <==> list_compiles(item_sources(old(self).spec_items())))
                    &&& final(self).spec_cached() == r
                    &&& (r matches Some(c) ==> compiled_from(*c, item_sources(old(self).spec_items()), item_rules(old(self).spec_items())))
                },
            },
    {
        match &self.cached {
            Some(c) => {
                proof {
                    assert(forall|i: int| 0 <= i < self.items@.len() ==> (#[trigger] self.items@[i]).wf());
                }
                return Some(c.clone());
            },
            None => {},
        }
        let (sources, rules) = self.sources_and_rules(false, true, true);
        match CompiledRule::new(sources, rules) {
            Some(c) => {
                let shared = Arc::new(c);
                self.cached = Some(shared.clone());
                proof {
                    assert(self.items@ == old(self).items@);
                    assert(forall|i: int| 0 <= i < self.items@.len() ==> (#[trigger] self.items@[i]).wf());
                }
                Some(shared)
            },
            None => {
                proof {
                    assert(forall|i: int| 0 <= i < self.items@.len() ==> (#[trigger] self.items@[i]).wf());
                }
                None
            },
        }
    }

    /// The compiled form with `\A` and `\G` kept or disabled as asked: the
    /// plain one where no pattern has anchors, else the one kept for the
    /// flags, or a new one (then kept).
    pub fn compile_ag(&mut self, allow_a: bool, allow_g: bool) -> (r: Option<Arc<CompiledRule<T>>>)
        requires
            old(self).wf(),
        ensures
            final(self).wf(),
            final(self).spec_items() == old(self).spec_items(),
            !old(self).spec_has_anchors() ==> match old(self).spec_cached() {
                Some(c) => r == Some(c),
                None => {
                    &&& (r is Some <==> list_compiles(item_sources(old(self).spec_items())))
                    &&& (r matches Some(c) ==> compiled_from(*c, item_sources(old(self).spec_items()), item_rules(old(self).spec_items())))
                },
            },
            old(self).spec_has_anchors() ==> match old(self).spec_anchor_cache()[anchor_slot(allow_a, allow_g)] {
                Some(c) => r == Some(c),
                None => {
                    &&& (r is Some <==> list_compiles(item_resolved(old(self).spec_items(), allow_a, allow_g)))
                    &&& (r matches Some(c) ==> compiled_from(
                        *c,
                        item_resolved(old(self).spec_items(), allow_a, allow_g),
                        item_rules(old(self).spec_items()),
                    ))
                    &&& final(self).spec_anchor_cache()[anchor_slot(allow_a, allow_g)] == r
                },
            },
    {
        if !self.has_anchors {
            return self.compile();
        }
        let slot: usize = (if allow_a { 2 } else { 0 }) + (if allow_g { 1 } else { 0 });
        match &self.anchor_cache[slot] {
            Some(c) => {
                proof {
                    assert(forall|i: int| 0 <= i < self.items@.len() ==> (#[trigger] self.items@[i]).wf());
                }
                return Some(c.clone());
            },
            None => {},
        }
        let (sources, rules) = self.sources_and_rules(true, allow_a, allow_g);
        match CompiledRule::new(sources, rules) {
            Some(c) => {
                let shared = Arc::new(c);
                self.anchor_cache.set(slot, Some(shared.clone()));
                proof {
                    assert(self.items@ == old(self).items@);
                    assert(forall|i: int| 0 <= i < self.items@.len() ==> (#[trigger] self.items@[i]).wf());
                }
                Some(shared)
            },
            None => {
                proof {
                    assert(forall|i: int| 0 <= i < self.items@.len() ==> (#[trigger] self.items@[i]).wf());
                }
                None
            },
        }
    }
}

/// Compiles the sources of `items` with `\A` and `\G` kept or disabled as
/// asked, each for its rule.
pub fn compile_sources<T: Copy>(items: &Vec<RegExpSource<T>>, allow_a: bool, allow_g: bool) -> (r: Option<CompiledRule<T>>)
    ensures
        r is Some <==> list_compiles(item_resolved(items@, allow_a, allow_g)),
        r matches Some(c) ==> compiled_from(c, item_resolved(items@, allow_a, allow_g), item_rules(items@)),
{
    let mut sources: Vec<String> = Vec::new();
    let mut rules: Vec<T> = Vec::new();
    let mut k: usize = 0;
    while k < items.len()
        invariant
            k <= items@.len(),
            strings_view(sources@) == item_resolved(items@, allow_a, allow_g).take(k as int),
            rules@ == item_rules(items@).take(k as int),
            sources@.len() == k,
        decreases items.len() - k,
    {
        let item = &items[k];
        let text = string_from_chars(chars_of(item.resolve_anchors(allow_a, allow_g)).as_slice());
        let ghost before = sources@;
        sources.push(text);
        rules.push(item.rule_id);
        k += 1;
        proof {
            assert(strings_view(sources@) =~= strings_view(before).push(text@));
            assert(strings_view(sources@) =~= item_resolved(items@, allow_a, allow_g).take(k as int));
            assert(rules@ =~= item_rules(items@).take(k as int));
        }
    }
    proof {
        assert(item_rules(items@).take(k as int) =~= item_rules(items@));
        assert(item_resolved(items@, allow_a, allow_g).take(k as int) =~= item_resolved(items@, allow_a, allow_g));
    }
    CompiledRule::new(sources, rules)
}

} // verus!
