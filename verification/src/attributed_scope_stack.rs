use vstd::prelude::*;

use std::sync::Arc;

use crate::basic_scope_attributes::{BasicScopeAttributes, BasicScopeAttributesProvider, embedded_language_of, token_type_from};
use crate::encoded_token_attributes::{font_view, font_with, set_fields, EncodedTokenAttributes, FontAttribute, FontView};
use crate::registration::views_of;
use crate::text::{chars_of, copy_string, str_eq, string_from_chars};
use crate::theme::{same_arc, stack_segments, FontStyle, ScopeStack};
use crate::theme_trie::{sep_parts_from, split_chars, style_matched, style_view, trie_node, StyleAttributes, Theme};

verus! {

broadcast use vstd::string::group_string_axioms;

/// What a scope stack asks of its surroundings: the language and token
/// type of a scope name, and the theme style of a scope path.
pub trait ScopeAttributesProvider {
    fn metadata_for_scope(&self, scope_name: &str) -> BasicScopeAttributes;

    fn theme_match(&self, scope_path: &ScopeStack) -> Option<StyleAttributes>;
}

/// The attributes of scopes from a language's scope table and a theme.
pub struct ScopeAttributesResolver<'a> {
    pub basic_scope_attributes: &'a BasicScopeAttributesProvider,
    pub theme: &'a Theme,
}

impl<'a> ScopeAttributesProvider for ScopeAttributesResolver<'a> {
    fn metadata_for_scope(&self, scope_name: &str) -> (r: BasicScopeAttributes)
        ensures
            r == (BasicScopeAttributes {
                language_id: match embedded_language_of(self.basic_scope_attributes.embedded_entries(), scope_name@) {
                    Some(id) => id,
                    None => 0,
                },
                token_type: token_type_from(scope_name@, 0),
            }),
    {
        self.basic_scope_attributes.basic_scope_attributes(Some(scope_name))
    }

    fn theme_match(&self, scope_path: &ScopeStack) -> (r: Option<StyleAttributes>)
        ensures
            match r {
                Some(s) => style_matched(trie_node(self.theme.root), stack_segments(*scope_path)) == Some(style_view(s)),
                None => style_matched(trie_node(self.theme.root), stack_segments(*scope_path)) is None,
            },
    {
        self.theme.match_scope(Some(scope_path))
    }
}

/// A frame of a scope stack's extension: the token attributes of a scope
/// and the scope names it adds.
#[derive(Clone, Debug, Eq, PartialEq)]
pub struct AttributedScopeStackFrame {
    pub encoded_token_attributes: EncodedTokenAttributes,
    pub scope_names: Vec<String>,
}

/// A stack of scopes with the token attributes, font and theme style that
/// each level resolved to; stacks share their parents.
#[derive(Debug)]
pub struct AttributedScopeStack {
    pub parent: Option<Arc<AttributedScopeStack>>,
    pub scope_path: Arc<ScopeStack>,
    pub token_attributes: EncodedTokenAttributes,
    pub font_attributes: Option<FontAttribute>,
    pub style_attributes: Option<StyleAttributes>,
}

/// The scope names of a level's path, outermost first.
pub open spec fn path_names(s: AttributedScopeStack) -> Seq<Seq<char>> {
    stack_segments(*s.scope_path)
}

/// Each level's path extends its parent's path.
pub open spec fn attributed_wf(s: AttributedScopeStack) -> bool
    decreases s,
{
    match s.parent {
        None => true,
        Some(p) => attributed_wf(*p) && path_names(*p).is_prefix_of(path_names(s)),
    }
}

pub open spec fn opt_attributed_wf(s: Option<Arc<AttributedScopeStack>>) -> bool {
    match s {
        Some(x) => attributed_wf(*x),
        None => true,
    }
}

/// The levels of a stack, outermost first: each level's path names and
/// token attributes.
pub open spec fn level_views(s: AttributedScopeStack) -> Seq<(Seq<Seq<char>>, u32)>
    decreases s,
{
    match s.parent {
        None => seq![(path_names(s), s.token_attributes.0)],
        Some(p) => level_views(*p).push((path_names(s), s.token_attributes.0)),
    }
}

pub open spec fn opt_level_views(s: Option<Arc<AttributedScopeStack>>) -> Seq<(Seq<Seq<char>>, u32)> {
    match s {
        Some(x) => level_views(*x),
        None => Seq::empty(),
    }
}

/// The levels of a stack, outermost first: each level's scope name (the
/// last of its path names) and token attributes (what `equals` compares).
pub open spec fn level_names(s: AttributedScopeStack) -> Seq<(Seq<char>, u32)> {
    level_views(s).map_values(|v: (Seq<Seq<char>>, u32)| (v.0.last(), v.1))
}

pub open spec fn opt_level_names(s: Option<Arc<AttributedScopeStack>>) -> Seq<(Seq<char>, u32)> {
    match s {
        Some(x) => level_names(*x),
        None => Seq::empty(),
    }
}

pub open spec fn ref_level_names(s: Option<&Arc<AttributedScopeStack>>) -> Seq<(Seq<char>, u32)> {
    match s {
        Some(x) => level_names(**x),
        None => Seq::empty(),
    }
}

pub open spec fn depth(s: AttributedScopeStack) -> nat
    decreases s,
{
    match s.parent {
        None => 1,
        Some(p) => 1 + depth(*p),
    }
}

pub open spec fn ref_depth(s: Option<&Arc<AttributedScopeStack>>) -> nat {
    match s {
        Some(x) => depth(**x),
        None => 0,
    }
}

/// An extension frame as plain values.
pub open spec fn frame_views(frames: Seq<AttributedScopeStackFrame>) -> Seq<(Seq<Seq<char>>, u32)> {
    frames.map_values(|f: AttributedScopeStackFrame| (views_of(f.scope_names@), f.encoded_token_attributes.0))
}

/// The path names after pushing the names of the first `n` frames onto
/// `start`.
pub open spec fn names_after(start: Seq<Seq<char>>, frames: Seq<(Seq<Seq<char>>, u32)>, n: int) -> Seq<Seq<char>>
    decreases n,
{
    if n <= 0 {
        start
    } else {
        names_after(start, frames, n - 1) + frames[n - 1].0
    }
}

/// The levels that the first `n` frames make on a stack with path names
/// `start`.
pub open spec fn rebuilt_levels(start: Seq<Seq<char>>, frames: Seq<(Seq<Seq<char>>, u32)>, n: int) -> Seq<(Seq<Seq<char>>, u32)>
    decreases n,
{
    if n <= 0 {
        Seq::empty()
    } else {
        rebuilt_levels(start, frames, n - 1).push((names_after(start, frames, n), frames[n - 1].1))
    }
}

pub open spec fn ref_path_names(s: Option<&Arc<AttributedScopeStack>>) -> Seq<Seq<char>> {
    match s {
        Some(x) => path_names(**x),
        None => Seq::empty(),
    }
}

pub open spec fn ref_level_views(s: Option<&Arc<AttributedScopeStack>>) -> Seq<(Seq<Seq<char>>, u32)> {
    match s {
        Some(x) => level_views(**x),
        None => Seq::empty(),
    }
}

pub open spec fn opt_path_names(s: Option<Arc<AttributedScopeStack>>) -> Seq<Seq<char>> {
    match s {
        Some(x) => path_names(*x),
        None => Seq::empty(),
    }
}

/// The token attributes of a level under the language and token type of
/// its scope and its theme style (the font style and colors of the style;
/// none set where there is no style).
pub open spec fn merged_attributes(existing: u32, basic: BasicScopeAttributes, style: Option<StyleAttributes>) -> u32 {
    match style {
        Some(st) => set_fields(existing, basic.language_id, basic.token_type, None, st.font_style, st.foreground_id, st.background_id),
        None => set_fields(existing, basic.language_id, basic.token_type, None, FontStyle(-1i32), 0, 0),
    }
}

/// `s` is the level that pushing a scope onto `target` makes, where the
/// scope resolved to `basic` and the new path to `style`.
pub open spec fn pushed_level(s: AttributedScopeStack, target: AttributedScopeStack, basic: BasicScopeAttributes, style: Option<StyleAttributes>) -> bool {
    &&& s.parent == Some(Arc::new(target))
    &&& s.scope_path.parent == Some(target.scope_path)
    &&& s.token_attributes.0 == merged_attributes(target.token_attributes.0, basic, style)
    &&& match (s.font_attributes, target.font_attributes) {
        (Some(f), Some(g)) => font_view(f) == font_with(font_view(g), style),
        (None, None) => true,
        _ => false,
    }
    &&& s.style_attributes == style
}

/// Whether `s` is the level that pushing a scope onto `target` makes, for
/// some resolution of the scope and its path.
pub open spec fn pushed_on(s: AttributedScopeStack, target: AttributedScopeStack) -> bool {
    exists|basic: BasicScopeAttributes, style: Option<StyleAttributes>| pushed_level(s, target, basic, style)
}

/// The token attributes of a level: the existing ones with the scope's
/// language and token type and the style's font style and colors set.
pub fn merge_attributes(
    existing_token_attributes: EncodedTokenAttributes,
    basic_scope_attributes: BasicScopeAttributes,
    style_attributes: Option<&StyleAttributes>,
) -> (r: EncodedTokenAttributes)
    ensures
        r.0 == merged_attributes(existing_token_attributes.0, basic_scope_attributes, match style_attributes {
            Some(st) => Some(*st),
            None => None,
        }),
{
    let (font_style, foreground, background) = match style_attributes {
        Some(style) => (style.font_style, style.foreground_id, style.background_id),
        None => (FontStyle::not_set(), 0, 0),
    };
    existing_token_attributes.set(
        basic_scope_attributes.language_id,
        basic_scope_attributes.token_type,
        None,
        font_style,
        foreground,
        background,
    )
}

fn copy_font(f: &Option<FontAttribute>) -> (r: Option<FontAttribute>)
    ensures
        r == *f,
{
    match f {
        Some(font) => Some(font.with(None)),
        None => None,
    }
}

fn copy_style(s: &StyleAttributes) -> (r: StyleAttributes)
    ensures
        r == *s,
{
    StyleAttributes {
        font_style: s.font_style,
        foreground_id: s.foreground_id,
        background_id: s.background_id,
        font_family: copy_string(&s.font_family),
        font_size: s.font_size,
        line_height: s.line_height,
    }
}

fn push_names(path: Option<Arc<ScopeStack>>, names: &Vec<String>) -> (r: Option<Arc<ScopeStack>>)
    ensures
        crate::theme::path_segments(r) == crate::theme::path_segments(path) + views_of(names@),
        names@.len() == 0 ==> r == path,
{
    let mut path = path;
    let ghost start = crate::theme::path_segments(path);
    let ghost start_path = path;
    let mut i: usize = 0;
    while i < names.len()
        invariant
            i <= names.len(),
            crate::theme::path_segments(path) == start + views_of(names@).take(i as int),
            i == 0 ==> path == start_path,
        decreases names.len() - i,
    {
        let ghost before = path;
        path = Some(Arc::new(ScopeStack { parent: path, scope_name: copy_string(&names[i]) }));
        proof {
            assert(views_of(names@).take(i + 1) =~= views_of(names@).take(i as int).push(names@[i as int]@));
            if before is None {
                assert(start + views_of(names@).take(i as int) =~= Seq::<Seq<char>>::empty());
            }
        }
        i += 1;
    }
    assert(views_of(names@).take(i as int) =~= views_of(names@));
    path
}

impl AttributedScopeStack {
    /// A root level: the scope name, with the given attributes and font.
    pub fn create_root(scope_name: &str, token_attributes: EncodedTokenAttributes, font_attribute: FontAttribute) -> (r: Arc<Self>)
        ensures
            r.parent is None,
            stack_segments(*r.scope_path) == seq![scope_name@],
            r.token_attributes == token_attributes,
            r.font_attributes == Some(font_attribute),
            r.style_attributes is None,
            attributed_wf(*r),
    {
        Arc::new(AttributedScopeStack {
            parent: None,
            scope_path: Arc::new(ScopeStack { parent: None, scope_name: string_from_chars(chars_of(scope_name).as_slice()) }),
            token_attributes,
            font_attributes: Some(font_attribute),
            style_attributes: None,
        })
    }

    /// A root level whose attributes and font are merged with what the
    /// provider gives for the scope name and the one-scope path.
    pub fn create_root_and_lookup_scope_name<P: ScopeAttributesProvider>(
        scope_name: &str,
        token_attributes: EncodedTokenAttributes,
        font_attribute: FontAttribute,
        provider: &P,
    ) -> (r: Arc<Self>)
        ensures
            r.parent is None,
            stack_segments(*r.scope_path) == seq![scope_name@],
            attributed_wf(*r),
            exists|basic: BasicScopeAttributes, style: Option<StyleAttributes>|
                Self::rooted_with(*r, token_attributes, font_attribute, basic, style),
    {
        let raw_root_metadata = provider.metadata_for_scope(scope_name);
        let scope_path = Arc::new(ScopeStack { parent: None, scope_name: string_from_chars(chars_of(scope_name).as_slice()) });
        let root_style = provider.theme_match(&scope_path);
        let r = Self::root_with(scope_path, token_attributes, &font_attribute, raw_root_metadata, root_style);
        assert(Self::rooted_with(*r, token_attributes, font_attribute, raw_root_metadata, root_style));
        r
    }

    /// `s` is a root with the given attributes and font merged with `basic`
    /// and `style`.
    pub open spec fn rooted_with(
        s: AttributedScopeStack,
        token_attributes: EncodedTokenAttributes,
        font_attribute: FontAttribute,
        basic: BasicScopeAttributes,
        style: Option<StyleAttributes>,
    ) -> bool {
        &&& s.token_attributes.0 == merged_attributes(token_attributes.0, basic, style)
        &&& s.font_attributes matches Some(f) && font_view(f) == font_with(font_view(font_attribute), style)
        &&& s.style_attributes == style
    }

    /// The root level on `scope_path` whose scope resolved to `basic` and
    /// whose path resolved to `style`.
    pub fn root_with(
        scope_path: Arc<ScopeStack>,
        token_attributes: EncodedTokenAttributes,
        font_attribute: &FontAttribute,
        basic: BasicScopeAttributes,
        style: Option<StyleAttributes>,
    ) -> (r: Arc<Self>)
        ensures
            r.parent is None,
            r.scope_path == scope_path,
            Self::rooted_with(*r, token_attributes, *font_attribute, basic, style),
    {
        let resolved_token_attributes = merge_attributes(token_attributes, basic, style.as_ref());
        let resolved_font_attributes = font_attribute.with(style.as_ref());
        Arc::new(AttributedScopeStack {
            parent: None,
            scope_path,
            token_attributes: resolved_token_attributes,
            font_attributes: Some(resolved_font_attributes),
            style_attributes: style,
        })
    }

    /// The innermost scope name.
    pub fn scope_name(&self) -> (r: &str)
        ensures
            r@ == self.scope_path.scope_name@,
    {
        self.scope_path.scope_name.as_str()
    }

    /// The scope names of the path, outermost first.
    pub fn scope_names(&self) -> (r: Vec<String>)
        ensures
            views_of(r@) == stack_segments(*self.scope_path),
    {
        let r = self.scope_path.get_segments();
        assert(views_of(r@) == r@.map_values(|s: String| s@));
        r
    }

    /// Whether two stacks have the same scope names and token attributes
    /// at every level.
    pub fn equals(left: Option<&Arc<Self>>, right: Option<&Arc<Self>>) -> (r: bool)
        ensures
            r == (ref_level_names(left) == ref_level_names(right)),
        decreases ref_depth(left),
    {
        match (left, right) {
            (Some(l), Some(r)) => {
                if same_arc(l, r) {
                    return true;
                }
                if !str_eq(l.scope_name(), r.scope_name()) || l.token_attributes != r.token_attributes {
                    proof {
                        let a = ref_level_names(left);
                        let b = ref_level_names(right);
                        if a == b {
                            assert(a.last() == b.last());
                        }
                    }
                    return false;
                }
                let lp = l.parent.as_ref();
                let rp = r.parent.as_ref();
                assert(ref_level_names(lp) == opt_level_names(l.parent));
                assert(ref_level_names(rp) == opt_level_names(r.parent));
                let same = Self::equals(lp, rp);
                proof {
                    let a = ref_level_names(left);
                    let b = ref_level_names(right);
                    let pa = ref_level_names(lp);
                    let pb = ref_level_names(rp);
                    assert(a =~= pa.push(a.last()));
                    assert(b =~= pb.push(b.last()));
                    if a == b {
                        assert(pa =~= a.drop_last());
                        assert(pb =~= b.drop_last());
                    }
                }
                same
            },
            (None, None) => true,
            (Some(l), None) => {
                assert(ref_level_names(left).len() > 0);
                false
            },
            (None, Some(r)) => {
                assert(ref_level_names(right).len() > 0);
                false
            },
        }
    }

    /// The level that pushing `scope_path`'s last name onto `target` makes,
    /// where the name resolved to `basic` and the path to `style`.
    pub fn push_with(
        target: &Arc<Self>,
        scope_path: Arc<ScopeStack>,
        basic: BasicScopeAttributes,
        style: Option<StyleAttributes>,
    ) -> (r: Arc<Self>)
        requires
            scope_path.parent == Some(target.scope_path),
        ensures
            pushed_level(*r, **target, basic, style),
            r.scope_path == scope_path,
    {
        let metadata = merge_attributes(target.token_attributes, basic, style.as_ref());
        let font_attributes = match &target.font_attributes {
            Some(font) => Some(font.with(style.as_ref())),
            None => None,
        };
        Arc::new(AttributedScopeStack {
            parent: Some(target.clone()),
            scope_path,
            token_attributes: metadata,
            font_attributes,
            style_attributes: style,
        })
    }

    fn push_single_attributed<P: ScopeAttributesProvider>(target: &Arc<Self>, scope_name: &str, provider: &P) -> (r: Arc<Self>)
        ensures
            pushed_on(*r, **target),
            stack_segments(*r.scope_path) == stack_segments(*target.scope_path).push(scope_name@),
    {
        let raw_metadata = provider.metadata_for_scope(scope_name);
        let new_path = target.scope_path.push_scope(scope_name);
        let scope_theme_match_result = provider.theme_match(&new_path);
        let r = Self::push_with(target, new_path, raw_metadata, scope_theme_match_result);
        assert(pushed_level(*r, **target, raw_metadata, scope_theme_match_result));
        r
    }

    /// This stack with the space-separated scope names of `scope_path`
    /// pushed in order, each level resolved by the provider; this stack
    /// itself where there is no path.
    pub fn push_attributed<P: ScopeAttributesProvider>(self: &Arc<Self>, scope_path: Option<&str>, provider: &P) -> (r: Arc<Self>)
        requires
            attributed_wf(**self),
        ensures
            scope_path is None ==> r == *self,
            attributed_wf(*r),
            match scope_path {
                Some(p) => stack_segments(*r.scope_path) == stack_segments(*self.scope_path) + sep_parts_from(p@, ' ', 0, Seq::empty()),
                None => true,
            },
    {
        let path = match scope_path {
            Some(p) => p,
            None => {
                return self.clone();
            },
        };
        let chars = chars_of(path);
        let names = split_chars(&chars, ' ');
        let ghost views = names@.map_values(|p: Vec<char>| p@);
        let mut result = self.clone();
        let mut i: usize = 0;
        while i < names.len()
            invariant
                i <= names.len(),
                attributed_wf(*result),
                views == names@.map_values(|p: Vec<char>| p@),
                views == sep_parts_from(path@, ' ', 0, Seq::empty()),
                stack_segments(*result.scope_path) == stack_segments(*self.scope_path) + views.take(i as int),
            decreases names.len() - i,
        {
            let ghost before = result;
            let name = string_from_chars(names[i].as_slice());
            result = Self::push_single_attributed(&result, name.as_str(), provider);
            proof {
                let w = choose|basic: BasicScopeAttributes, style: Option<StyleAttributes>| pushed_level(*result, *before, basic, style);
                assert(pushed_level(*result, *before, w.0, w.1));
                assert(views.take(i + 1) =~= views.take(i as int).push(names@[i as int]@));
                assert(path_names(*before).is_prefix_of(path_names(*result)));
            }
            i += 1;
        }
        assert(views.take(i as int) =~= views);
        result
    }

    /// The frames that rebuild this stack on `base`, outermost first: for
    /// each level above `base`, its token attributes and the scope names it
    /// adds to its parent's path (all of them for a root).  None where
    /// `base` is given and is not this very stack or one of its parents.
    /// Identity is not part of the model: what is stated is what an answer
    /// says of the values.
    pub fn extension_if_defined(self: &Arc<Self>, base: Option<&Arc<Self>>) -> (r: Option<Vec<AttributedScopeStackFrame>>)
        requires
            attributed_wf(**self),
        ensures
            base is None ==> r is Some,
            r matches Some(frames) ==> {
                &&& level_views(**self) == ref_level_views(base) + rebuilt_levels(ref_path_names(base), frame_views(frames@), frames@.len() as int)
                &&& names_after(ref_path_names(base), frame_views(frames@), frames@.len() as int) == path_names(**self)
            },
        decreases **self,
    {
        if let Some(b) = base {
            if same_arc(self, b) {
                let v: Vec<AttributedScopeStackFrame> = Vec::new();
                proof {
                    assert(level_views(**self) =~= ref_level_views(base) + rebuilt_levels(ref_path_names(base), frame_views(v@), 0));
                }
                return Some(v);
            }
        }
        let names = self.scope_path.get_segments();
        match &self.parent {
            Some(p) => match p.extension_if_defined(base) {
                Some(mut frames) => {
                    let parent_names = p.scope_path.get_segments();
                    let mut added: Vec<String> = Vec::new();
                    let mut k: usize = parent_names.len();
                    proof {
                        assert(names@.map_values(|s: String| s@) == path_names(**self));
                        assert(parent_names@.map_values(|s: String| s@) == path_names(**p));
                        assert(path_names(**p).is_prefix_of(path_names(**self)));
                    }
                    while k < names.len()
                        invariant
                            parent_names@.len() <= k <= names@.len(),
                            views_of(added@) == views_of(names@).subrange(parent_names@.len() as int, k as int),
                        decreases names.len() - k,
                    {
                        let ghost before = added@;
                        added.push(copy_string(&names[k]));
                        assert(views_of(added@) =~= views_of(before).push(names@[k as int]@));
                        assert(views_of(names@).subrange(parent_names@.len() as int, k + 1) =~= views_of(names@).subrange(
                            parent_names@.len() as int,
                            k as int,
                        ).push(names@[k as int]@));
                        k += 1;
                    }
                    let ghost before = frames@;
                    frames.push(AttributedScopeStackFrame { encoded_token_attributes: self.token_attributes, scope_names: added });
                    proof {
                        let start = ref_path_names(base);
                        let fv = frame_views(frames@);
                        let n = frames@.len() as int;
                        assert(frame_views(before) =~= fv.take(n - 1));
                        lemma_rebuilt_prefix(start, frame_views(before), fv, n - 1);
                        assert(views_of(names@) == path_names(**self));
                        assert(views_of(parent_names@) == path_names(**p));
                        assert(path_names(**self) =~= path_names(**p) + views_of(added@));
                        assert(fv[n - 1] == (views_of(added@), self.token_attributes.0));
                        assert(names_after(start, fv, n) == path_names(**self));
                        assert(level_views(**self) =~= ref_level_views(base) + rebuilt_levels(start, fv, n));
                    }
                    Some(frames)
                },
                None => None,
            },
            None => {
                if base.is_none() {
                    let mut frames: Vec<AttributedScopeStackFrame> = Vec::new();
                    frames.push(AttributedScopeStackFrame { encoded_token_attributes: self.token_attributes, scope_names: names });
                    proof {
                        let fv = frame_views(frames@);
                        assert(views_of(names@) == names@.map_values(|s: String| s@));
                        assert(names_after(Seq::empty(), fv, 0) == Seq::<Seq<char>>::empty());
                        assert(names_after(Seq::empty(), fv, 1) =~= path_names(**self));
                        assert(rebuilt_levels(Seq::empty(), fv, 0) =~= Seq::<(Seq<Seq<char>>, u32)>::empty());
                        assert(level_views(**self) =~= ref_level_views(base) + rebuilt_levels(Seq::empty(), fv, 1));
                    }
                    Some(frames)
                } else {
                    None
                }
            },
        }
    }

    /// The stack that the frames make on `names_scope_list`: for each
    /// frame, a level whose path is its parent's with the frame's scope
    /// names pushed and whose token attributes are the frame's.
    pub fn from_extension(
        names_scope_list: Option<Arc<Self>>,
        content_name_scopes_list: &[AttributedScopeStackFrame],
    ) -> (r: Option<Arc<Self>>)
        requires
            names_scope_list is None && content_name_scopes_list@.len() > 0 ==> content_name_scopes_list@[0].scope_names@.len() > 0,
            opt_attributed_wf(names_scope_list),
        ensures
            r is None <==> (names_scope_list is None && content_name_scopes_list@.len() == 0),
            opt_attributed_wf(r),
            opt_level_views(r) == opt_level_views(names_scope_list) + rebuilt_levels(
                opt_path_names(names_scope_list),
                frame_views(content_name_scopes_list@),
                content_name_scopes_list@.len() as int,
            ),
    {
        let ghost start = opt_path_names(names_scope_list);
        let ghost base_levels = opt_level_views(names_scope_list);
        let ghost fv = frame_views(content_name_scopes_list@);
        let mut current = names_scope_list;
        let mut scope_names: Option<Arc<ScopeStack>> = match &current {
            Some(scope) => Some(scope.scope_path.clone()),
            None => None,
        };
        let mut i: usize = 0;
        while i < content_name_scopes_list.len()
            invariant
                i <= content_name_scopes_list@.len(),
                fv == frame_views(content_name_scopes_list@),
                names_scope_list is None && content_name_scopes_list@.len() > 0 ==> content_name_scopes_list@[0].scope_names@.len() > 0,
                current is None <==> (names_scope_list is None && i == 0),
                current is None ==> scope_names is None,
                current matches Some(c) ==> scope_names == Some(c.scope_path),
                opt_attributed_wf(current),
                opt_level_views(current) == base_levels + rebuilt_levels(start, fv, i as int),
                opt_path_names(current) == names_after(start, fv, i as int),
                base_levels == opt_level_views(names_scope_list),
                start == opt_path_names(names_scope_list),
            decreases content_name_scopes_list.len() - i,
        {
            let frame = &content_name_scopes_list[i];
            let ghost before = current;
            let ghost before_names = scope_names;
            scope_names = push_names(scope_names, &frame.scope_names);
            let path = match &scope_names {
                Some(p) => p.clone(),
                None => {
                    proof {
                        assert(views_of(frame.scope_names@).len() == frame.scope_names@.len());
                    }
                    return None;
                },
            };
            current = Some(Arc::new(AttributedScopeStack {
                parent: current,
                scope_path: path,
                token_attributes: frame.encoded_token_attributes,
                font_attributes: None,
                style_attributes: None,
            }));
            proof {
                assert(fv[i as int] == (views_of(frame.scope_names@), frame.encoded_token_attributes.0));
                let c = current.unwrap();
                match before {
                    Some(b) => {
                        assert(crate::theme::path_segments(before_names) == path_names(*b));
                        assert(path_names(*b).is_prefix_of(path_names(*c)));
                    },
                    None => {
                        assert(start =~= Seq::<Seq<char>>::empty());
                    },
                }
                assert(path_names(*c) == crate::theme::path_segments(scope_names));
                assert(path_names(*c) =~= names_after(start, fv, i + 1));
                assert(opt_level_views(current) =~= base_levels + rebuilt_levels(start, fv, i + 1));
            }
            i += 1;
        }
        current
    }
}

proof fn lemma_rebuilt_prefix(start: Seq<Seq<char>>, a: Seq<(Seq<Seq<char>>, u32)>, b: Seq<(Seq<Seq<char>>, u32)>, n: int)
    requires
        0 <= n <= a.len(),
        n <= b.len(),
        forall|i: int| 0 <= i < n ==> a[i] == b[i],
    ensures
        rebuilt_levels(start, a, n) == rebuilt_levels(start, b, n),
        names_after(start, a, n) == names_after(start, b, n),
    decreases n,
{
    if n > 0 {
        lemma_rebuilt_prefix(start, a, b, n - 1);
    }
}

/// Rebuilding a stack from its extension over a base gives a stack that
/// `equals` the original: where a stack's levels are the base's followed by
/// the levels its frames make, and another stack is what those frames make
/// on the base, the two have the same scope names and token attributes at
/// every level.
pub proof fn lemma_extension_roundtrip(
    stack: AttributedScopeStack,
    base: Option<Arc<AttributedScopeStack>>,
    frames: Seq<AttributedScopeStackFrame>,
    rebuilt: Option<Arc<AttributedScopeStack>>,
)
    requires
        level_views(stack) == opt_level_views(base) + rebuilt_levels(opt_path_names(base), frame_views(frames), frames.len() as int),
        opt_level_views(rebuilt) == opt_level_views(base) + rebuilt_levels(opt_path_names(base), frame_views(frames), frames.len() as int),
    ensures
        rebuilt matches Some(r) && level_names(stack) == level_names(*r),
{
    assert(level_views(stack).len() > 0);
}

} // verus!
