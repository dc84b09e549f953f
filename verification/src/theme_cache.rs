use vstd::prelude::*;
use vstd::utf8::encode_utf8;

use crate::lexical::string_views;
use crate::text::copy_string;
use crate::theme_style::{
    choose_rules, opt_chars, parse_scope_list, resolve_token_style, str_views, theme_scores_fit, whitespace_words,
    ResolvedStyle, ThemeData,
};

verus! {

broadcast use vstd::string::group_string_axioms;

// A scope stack is hashed with 64-bit FNV-1a over its length, the bytes of
// each scope and a separator after each (0xff, or 0xfe for extra scopes).

pub open spec fn fnv_mix(h: u64, b: u64) -> u64 {
    (h ^ b).wrapping_mul(0x100000001b3u64)
}

/// `h` with the bytes mixed in, in order.
pub open spec fn hash_bytes(h: u64, bytes: Seq<u8>) -> u64
    decreases bytes.len(),
{
    if bytes.len() == 0 {
        h
    } else {
        fnv_mix(hash_bytes(h, bytes.drop_last()), bytes.last() as u64)
    }
}

/// `h` with each scope's bytes and then `sep` mixed in, in order.
pub open spec fn hash_scopes(h: u64, scopes: Seq<Seq<char>>, sep: u64) -> u64
    decreases scopes.len(),
{
    if scopes.len() == 0 {
        h
    } else {
        fnv_mix(hash_bytes(hash_scopes(h, scopes.drop_last(), sep), encode_utf8(scopes.last())), sep)
    }
}

pub open spec fn fnv_offset() -> u64 {
    0xcbf29ce484222325u64
}

/// The key of a scope stack.
pub open spec fn scope_hash(scopes: Seq<Seq<char>>) -> u64 {
    hash_scopes(fnv_mix(fnv_offset(), scopes.len() as u64), scopes, 0xff)
}

/// The key of a scope stack with extra scopes after it.
pub open spec fn scope_hash_with_extra(scopes: Seq<Seq<char>>, extra: Seq<Seq<char>>) -> u64 {
    hash_scopes(hash_scopes(fnv_mix(fnv_offset(), (scopes.len() + extra.len()) as u64), scopes, 0xff), extra, 0xfe)
}

fn mix_scopes(h0: u64, scopes: &[String], sep: u64) -> (r: u64)
    ensures
        r == hash_scopes(h0, string_views(scopes@), sep),
{
    let mut h = h0;
    let ghost views = string_views(scopes@);
    let mut i: usize = 0;
    while i < scopes.len()
        invariant
            i <= scopes.len(),
            views == string_views(scopes@),
            h == hash_scopes(h0, views.take(i as int), sep),
        decreases scopes.len() - i,
    {
        let bytes = scopes[i].as_str().as_bytes();
        let ghost start = h;
        let mut k: usize = 0;
        assert(bytes@.take(0) =~= Seq::<u8>::empty());
        while k < bytes.len()
            invariant
                k <= bytes@.len(),
                h == hash_bytes(start, bytes@.take(k as int)),
            decreases bytes@.len() - k,
        {
            assert(bytes@.take(k + 1).drop_last() =~= bytes@.take(k as int));
            h = (h ^ bytes[k] as u64).wrapping_mul(0x100000001b3u64);
            k += 1;
        }
        assert(bytes@.take(k as int) =~= bytes@);
        assert(bytes@ == encode_utf8(views[i as int]));
        h = (h ^ sep).wrapping_mul(0x100000001b3u64);
        proof {
            let t = views.take(i + 1);
            assert(t.drop_last() =~= views.take(i as int));
            assert(t.last() == views[i as int]);
        }
        i += 1;
    }
    assert(views.take(i as int) =~= views);
    h
}

/// The key of a scope stack.
pub fn scope_hash_owned(scope_stack: &[String]) -> (r: u64)
    ensures
        r == scope_hash(string_views(scope_stack@)),
{
    let h = (0xcbf29ce484222325u64 ^ scope_stack.len() as u64).wrapping_mul(0x100000001b3u64);
    mix_scopes(h, scope_stack, 0xff)
}

/// The key of a scope stack with extra scopes after it.
pub fn scope_hash_with_extra_owned(scope_stack: &[String], extra_scopes: &[String]) -> (r: u64)
    requires
        scope_stack@.len() + extra_scopes@.len() <= usize::MAX,
    ensures
        r == scope_hash_with_extra(string_views(scope_stack@), string_views(extra_scopes@)),
{
    let n = scope_stack.len() + extra_scopes.len();
    let h = (0xcbf29ce484222325u64 ^ n as u64).wrapping_mul(0x100000001b3u64);
    let h = mix_scopes(h, scope_stack, 0xff);
    mix_scopes(h, extra_scopes, 0xfe)
}

/// The style a theme gives a scope stack, as plain values.
pub open spec fn resolved(theme: ThemeData, stack: Seq<Seq<char>>) -> (Option<Seq<char>>, u8) {
    let c = choose_rules(theme.settings@, theme.settings.len() as int, stack);
    (c.1, c.2)
}

pub open spec fn style_pair(s: ResolvedStyle) -> (Option<Seq<char>>, u8) {
    (opt_chars(s.foreground), s.font_style)
}

/// The style stored for `key`: that of the first entry with it.
pub open spec fn cached_style(entries: Seq<(u64, ResolvedStyle)>, key: u64) -> Option<(Option<Seq<char>>, u8)>
    decreases entries.len(),
{
    if entries.len() == 0 {
        None
    } else if entries[0].0 == key {
        Some(style_pair(entries[0].1))
    } else {
        cached_style(entries.drop_first(), key)
    }
}

/// Styles resolved so far, by the key of their scope stack.  Stacks with
/// the same key share a style.
pub struct ThemeCache {
    map: Vec<(u64, ResolvedStyle)>,
}

fn copy_style(s: &ResolvedStyle) -> (r: ResolvedStyle)
    ensures
        style_pair(r) == style_pair(*s),
{
    ResolvedStyle {
        foreground: match &s.foreground {
            Some(c) => Some(copy_string(c)),
            None => None,
        },
        font_style: s.font_style,
    }
}

fn str_refs(scope_stack: &[String]) -> (r: Vec<&str>)
    ensures
        str_views(r@) == string_views(scope_stack@),
{
    let mut refs: Vec<&str> = Vec::new();
    let mut i: usize = 0;
    while i < scope_stack.len()
        invariant
            i <= scope_stack.len(),
            str_views(refs@) == string_views(scope_stack@).take(i as int),
        decreases scope_stack.len() - i,
    {
        let ghost before = refs@;
        let item = scope_stack[i].as_str();
        refs.push(item);
        assert(item@ == scope_stack@[i as int]@);
        assert(str_views(refs@) =~= str_views(before).push(item@));
        assert(string_views(scope_stack@).take(i + 1) =~= string_views(scope_stack@).take(i as int).push(scope_stack@[i as int]@));
        i += 1;
    }
    assert(string_views(scope_stack@).take(i as int) =~= string_views(scope_stack@));
    refs
}

impl ThemeCache {
    pub closed spec fn entries(&self) -> Seq<(u64, ResolvedStyle)> {
        self.map@
    }

    pub fn new() -> (r: ThemeCache)
        ensures
            r.entries().len() == 0,
    {
        ThemeCache { map: Vec::new() }
    }

    fn lookup(&self, key: u64) -> (r: Option<usize>)
        ensures
            match r {
                Some(i) => i < self.entries().len() && cached_style(self.entries(), key) == Some(style_pair(self.entries()[i as int].1)),
                None => cached_style(self.entries(), key) is None,
            },
    {
        let mut i: usize = 0;
        assert(self.map@.skip(0) =~= self.map@);
        while i < self.map.len()
            invariant
                i <= self.map.len(),
                cached_style(self.map@, key) == cached_style(self.map@.skip(i as int), key),
            decreases self.map.len() - i,
        {
            assert(self.map@.skip(i as int).drop_first() =~= self.map@.skip(i + 1));
            if self.map[i].0 == key {
                return Some(i);
            }
            i += 1;
        }
        None
    }

    fn resolve_key(&mut self, key: u64, refs: &Vec<&str>, theme: &ThemeData) -> (r: ResolvedStyle)
        requires
            theme_scores_fit(*theme),
        ensures
            match cached_style(old(self).entries(), key) {
                Some(s) => style_pair(r) == s && final(self).entries() == old(self).entries(),
                None => {
                    &&& style_pair(r) == resolved(*theme, str_views(refs@))
                    &&& final(self).entries().len() == old(self).entries().len() + 1
                    &&& final(self).entries().drop_last() == old(self).entries()
                    &&& final(self).entries().last().0 == key
                    &&& style_pair(final(self).entries().last().1) == style_pair(r)
                },
            },
    {
        match self.lookup(key) {
            Some(i) => copy_style(&self.map[i].1),
            None => {
                let style = resolve_token_style(refs.as_slice(), theme);
                let ghost before = self.map@;
                let kept = copy_style(&style);
                self.map.push((key, kept));
                assert(self.map@.drop_last() =~= before);
                style
            },
        }
    }

    /// The style of a scope stack: the one stored under its key, else the
    /// one the theme gives it, which is then stored.
    pub fn resolve_owned(&mut self, scope_stack: &[String], theme: &ThemeData) -> (r: ResolvedStyle)
        requires
            theme_scores_fit(*theme),
        ensures
            match cached_style(old(self).entries(), scope_hash(string_views(scope_stack@))) {
                Some(s) => style_pair(r) == s && final(self).entries() == old(self).entries(),
                None => {
                    &&& style_pair(r) == resolved(*theme, string_views(scope_stack@))
                    &&& final(self).entries().drop_last() == old(self).entries()
                    &&& cached_style(final(self).entries(), scope_hash(string_views(scope_stack@))) == Some(style_pair(r))
                },
            },
    {
        let key = scope_hash_owned(scope_stack);
        let refs = str_refs(scope_stack);
        let ghost before = self.entries();
        let r = self.resolve_key(key, &refs, theme);
        proof {
            if cached_style(before, key) is None {
                lemma_cached_after_push(before, self.entries(), key);
            }
        }
        r
    }

    /// The style of a scope stack with the scopes of `extra` (split at
    /// white space) after it, stored under their key.
    pub fn resolve_with_extra_owned(&mut self, scope_stack: &[String], extra: &str, theme: &ThemeData) -> (r: ResolvedStyle)
        requires
            theme_scores_fit(*theme),
            scope_stack@.len() + extra@.len() <= usize::MAX,
        ensures
            ({
                let extra_scopes = whitespace_words(extra@);
                let key = scope_hash_with_extra(string_views(scope_stack@), extra_scopes);
                match cached_style(old(self).entries(), key) {
                    Some(s) => style_pair(r) == s && final(self).entries() == old(self).entries(),
                    None => {
                        &&& style_pair(r) == resolved(*theme, string_views(scope_stack@) + extra_scopes)
                        &&& final(self).entries().drop_last() == old(self).entries()
                        &&& cached_style(final(self).entries(), key) == Some(style_pair(r))
                    },
                }
            }),
    {
        let extra_scopes = parse_scope_list(extra);
        proof {
            lemma_words_len(extra@);
        }
        let key = scope_hash_with_extra_owned(scope_stack, extra_scopes.as_slice());
        let mut refs = str_refs(scope_stack);
        let tail = str_refs(extra_scopes.as_slice());
        let ghost head = refs@;
        let mut j: usize = 0;
        while j < tail.len()
            invariant
                j <= tail.len(),
                str_views(refs@) == str_views(head) + str_views(tail@).take(j as int),
            decreases tail.len() - j,
        {
            let ghost before = refs@;
            refs.push(tail[j]);
            assert(str_views(refs@) =~= str_views(before).push(tail@[j as int]@));
            assert(str_views(tail@).take(j + 1) =~= str_views(tail@).take(j as int).push(tail@[j as int]@));
            assert(str_views(refs@) =~= str_views(head) + str_views(tail@).take(j + 1));
            j += 1;
        }
        assert(str_views(tail@).take(j as int) =~= str_views(tail@));
        let ghost before = self.entries();
        let r = self.resolve_key(key, &refs, theme);
        proof {
            if cached_style(before, key) is None {
                lemma_cached_after_push(before, self.entries(), key);
            }
        }
        r
    }
}

proof fn lemma_cached_after_push(before: Seq<(u64, ResolvedStyle)>, after: Seq<(u64, ResolvedStyle)>, key: u64)
    requires
        cached_style(before, key) is None,
        after.len() == before.len() + 1,
        after.drop_last() == before,
        after.last().0 == key,
    ensures
        cached_style(after, key) == Some(style_pair(after.last().1)),
    decreases before.len(),
{
    if before.len() > 0 {
        assert(after[0] == before[0]);
        assert(after.drop_first().drop_last() =~= before.drop_first());
        lemma_cached_after_push(before.drop_first(), after.drop_first(), key);
    }
}

proof fn lemma_words_len(s: Seq<char>)
    ensures
        whitespace_words(s).len() <= s.len(),
{
    lemma_words_from_len(s, 0, Seq::empty());
}

proof fn lemma_words_from_len(s: Seq<char>, i: int, cur: Seq<char>)
    requires
        0 <= i <= s.len(),
        cur.len() <= i,
    ensures
        crate::theme_style::words_from(s, i, cur).len() + i <= s.len() + (if cur.len() > 0 { 1int } else { 0int }),
    decreases s.len() - i,
{
    if i < s.len() {
        if crate::text::is_whitespace_char(s[i]) {
            lemma_words_from_len(s, i + 1, Seq::empty());
        } else {
            lemma_words_from_len(s, i + 1, cur.push(s[i]));
        }
    }
}

/// The color and font style of a scope stack: the style's color, or the
/// theme's default foreground.
pub fn resolve_color_for_scope_stack_owned(scope_stack: &[String], theme: &ThemeData, cache: &mut ThemeCache) -> (r: (String, u8))
    requires
        theme_scores_fit(*theme),
    ensures
        ({
            let key = scope_hash(string_views(scope_stack@));
            let s = match cached_style(old(cache).entries(), key) {
                Some(s) => s,
                None => resolved(*theme, string_views(scope_stack@)),
            };
            &&& r.0@ == match s.0 {
                Some(c) => c,
                None => theme.fg_normalized@,
            }
            &&& r.1 == s.1
        }),
{
    let style = cache.resolve_owned(scope_stack, theme);
    let color = match style.foreground {
        Some(c) => c,
        None => copy_string(&theme.fg_normalized),
    };
    (color, style.font_style)
}

/// The color and font style of a scope stack with the scopes of `extra`
/// after it: the style's color, or the theme's default foreground.
pub fn resolve_color_with_extra_scope(
    scope_stack: &[String],
    extra: &str,
    theme: &ThemeData,
    cache: &mut ThemeCache,
) -> (r: (String, u8))
    requires
        theme_scores_fit(*theme),
        scope_stack@.len() + extra@.len() <= usize::MAX,
    ensures
        ({
            let extra_scopes = whitespace_words(extra@);
            let key = scope_hash_with_extra(string_views(scope_stack@), extra_scopes);
            let s = match cached_style(old(cache).entries(), key) {
                Some(s) => s,
                None => resolved(*theme, string_views(scope_stack@) + extra_scopes),
            };
            &&& r.0@ == match s.0 {
                Some(c) => c,
                None => theme.fg_normalized@,
            }
            &&& r.1 == s.1
        }),
{
    let style = cache.resolve_with_extra_owned(scope_stack, extra, theme);
    let color = match style.foreground {
        Some(c) => c,
        None => copy_string(&theme.fg_normalized),
    };
    (color, style.font_style)
}

} // verus!
