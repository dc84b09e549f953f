use std::sync::Arc;
use vstd::prelude::*;
use vstd::std_specs::ops::BitOrSpecImpl;

use crate::text::{chars_of, copy_string, push_str_chars, str_eq, string_from_chars};

verus! {

broadcast use vstd::string::group_string_axioms;

/// A TextMate font style: a set of style bits, or `-1` for "not set".
#[derive(Clone, Copy, Debug, PartialEq, Eq, Structural)]
pub struct FontStyle(pub i32);

impl FontStyle {
    pub fn not_set() -> (r: FontStyle)
        ensures
            r.0 == -1,
    {
        FontStyle(-1)
    }

    pub fn none() -> (r: FontStyle)
        ensures
            r.0 == 0,
    {
        FontStyle(0)
    }

    pub fn italic() -> (r: FontStyle)
        ensures
            r.0 == 1,
    {
        FontStyle(1)
    }

    pub fn bold() -> (r: FontStyle)
        ensures
            r.0 == 2,
    {
        FontStyle(2)
    }

    pub fn underline() -> (r: FontStyle)
        ensures
            r.0 == 4,
    {
        FontStyle(4)
    }

    pub fn strikethrough() -> (r: FontStyle)
        ensures
            r.0 == 8,
    {
        FontStyle(8)
    }

    pub fn from_bits(value: i32) -> (r: FontStyle)
        ensures
            r.0 == value,
    {
        FontStyle(value)
    }

    pub fn bits(self) -> (r: i32)
        ensures
            r == self.0,
    {
        self.0
    }

    /// Whether the two styles share at least one bit.
    pub fn contains(self, other: FontStyle) -> (r: bool)
        ensures
            r == (self.0 & other.0 != 0),
    {
        self.0 & other.0 != 0
    }
}

impl core::ops::BitOr for FontStyle {
    type Output = FontStyle;

    fn bitor(self, rhs: FontStyle) -> (r: FontStyle) {
        FontStyle(self.0 | rhs.0)
    }
}

impl BitOrSpecImpl for FontStyle {
    open spec fn obeys_bitor_spec() -> bool {
        true
    }

    open spec fn bitor_req(self, rhs: FontStyle) -> bool {
        true
    }

    open spec fn bitor_spec(self, rhs: FontStyle) -> FontStyle {
        FontStyle(self.0 | rhs.0)
    }
}

/// The names of the style bits that `bits` holds, in the order italic,
/// bold, underline, strikethrough.
pub open spec fn style_names(bits: i32) -> Seq<Seq<char>> {
    (if bits & 1 != 0 { seq!["italic"@] } else { Seq::empty() })
        + (if bits & 2 != 0 { seq!["bold"@] } else { Seq::empty() })
        + (if bits & 4 != 0 { seq!["underline"@] } else { Seq::empty() })
        + (if bits & 8 != 0 { seq!["strikethrough"@] } else { Seq::empty() })
}

/// `items` joined with single spaces.
pub open spec fn space_joined(items: Seq<Seq<char>>) -> Seq<char>
    decreases items.len(),
{
    if items.len() == 0 {
        Seq::empty()
    } else if items.len() == 1 {
        items[0]
    } else {
        space_joined(items.drop_last()) + " "@ + items.last()
    }
}

/// The text of a font style: `not set`, `none`, or the names of its bits.
pub open spec fn font_style_text(font_style: FontStyle) -> Seq<char> {
    if font_style.0 == -1 {
        "not set"@
    } else if style_names(font_style.0).len() == 0 {
        "none"@
    } else {
        space_joined(style_names(font_style.0))
    }
}

/// The text of a font style (see `font_style_text`).
pub fn font_style_to_string(font_style: FontStyle) -> (r: String)
    ensures
        r@ == font_style_text(font_style),
{
    if font_style.0 == -1 {
        return string_from_chars(chars_of("not set").as_slice());
    }
    let ghost bits = font_style.0;
    let mut out: Vec<char> = Vec::new();
    let mut count: usize = 0;
    let ghost mut done: Seq<Seq<char>> = Seq::empty();
    if font_style.contains(FontStyle::italic()) {
        push_name(&mut out, count, "italic");
        proof { lemma_space_joined_push(done, "italic"@); done = done.push("italic"@); }
        count += 1;
    }
    if font_style.contains(FontStyle::bold()) {
        push_name(&mut out, count, "bold");
        proof { lemma_space_joined_push(done, "bold"@); done = done.push("bold"@); }
        count += 1;
    }
    if font_style.contains(FontStyle::underline()) {
        push_name(&mut out, count, "underline");
        proof { lemma_space_joined_push(done, "underline"@); done = done.push("underline"@); }
        count += 1;
    }
    if font_style.contains(FontStyle::strikethrough()) {
        push_name(&mut out, count, "strikethrough");
        proof { lemma_space_joined_push(done, "strikethrough"@); done = done.push("strikethrough"@); }
        count += 1;
    }
    proof {
        assert(done =~= style_names(bits));
    }
    if count == 0 {
        return string_from_chars(chars_of("none").as_slice());
    }
    string_from_chars(out.as_slice())
}

proof fn lemma_space_joined_push(items: Seq<Seq<char>>, x: Seq<char>)
    ensures
        space_joined(items.push(x)) == if items.len() == 0 { x } else { space_joined(items) + " "@ + x },
{
    assert(items.push(x).drop_last() =~= items);
    if items.len() == 0 {
        assert(items.push(x)[0] == x);
    }
}

fn push_name(out: &mut Vec<char>, count: usize, name: &str)
    ensures
        final(out)@ == if count == 0 { old(out)@ + name@ } else { old(out)@ + " "@ + name@ },
{
    if count > 0 {
        push_str_chars(out, " ");
    }
    push_str_chars(out, name);
}

/// The parts of `s` between single spaces, from position `i` on, `cur`
/// being the part read before `i` (as `split(' ')`).
pub open spec fn space_parts_from(s: Seq<char>, i: int, cur: Seq<char>) -> Seq<Seq<char>>
    decreases s.len() - i,
{
    if i < 0 || i >= s.len() {
        seq![cur]
    } else if s[i] == ' ' {
        seq![cur] + space_parts_from(s, i + 1, Seq::empty())
    } else {
        space_parts_from(s, i + 1, cur.push(s[i]))
    }
}

/// The parts of `s` between single spaces.
pub open spec fn space_parts(s: Seq<char>) -> Seq<Seq<char>> {
    space_parts_from(s, 0, Seq::empty())
}

/// The font style that a theme's `fontStyle` text gives: the bits whose
/// names stand among its space-separated parts; other parts are ignored.
pub open spec fn parsed_font_style(s: Seq<char>) -> i32 {
    let parts = space_parts(s);
    ((if parts.contains("italic"@) { 1i32 } else { 0i32 }) | (if parts.contains("bold"@) { 2i32 } else { 0i32 })
        | (if parts.contains("underline"@) { 4i32 } else { 0i32 }) | (if parts.contains("strikethrough"@) { 8i32 } else { 0i32 }))
}

/// The style bit that a part names, if any.
pub open spec fn part_bit(part: Seq<char>) -> i32 {
    if part == "italic"@ {
        1
    } else if part == "bold"@ {
        2
    } else if part == "underline"@ {
        4
    } else if part == "strikethrough"@ {
        8
    } else {
        0
    }
}

/// The bits that the first `n` parts name.
pub open spec fn parts_bits(parts: Seq<Seq<char>>, n: int) -> i32
    decreases n,
{
    if n <= 0 {
        0
    } else {
        parts_bits(parts, n - 1) | part_bit(parts[n - 1])
    }
}

proof fn lemma_parts_bits_prefix(parts: Seq<Seq<char>>, n: int)
    requires
        0 <= n <= parts.len(),
    ensures
        parts_bits(parts.take(n), n) == parts_bits(parts, n),
    decreases n,
{
    if n > 0 {
        lemma_parts_bits_prefix(parts, n - 1);
        lemma_parts_bits_push(parts.take(n - 1), parts[n - 1], n - 1);
        assert(parts.take(n) =~= parts.take(n - 1).push(parts[n - 1]));
    }
}

proof fn lemma_parts_bits_push(parts: Seq<Seq<char>>, x: Seq<char>, n: int)
    requires
        0 <= n <= parts.len(),
    ensures
        parts_bits(parts.push(x), n) == parts_bits(parts, n),
    decreases n,
{
    if n > 0 {
        lemma_parts_bits_push(parts, x, n - 1);
        assert(parts.push(x)[n - 1] == parts[n - 1]);
    }
}

proof fn lemma_parts_bits(parts: Seq<Seq<char>>, n: int)
    requires
        0 <= n <= parts.len(),
    ensures
        parts_bits(parts, n) == ((if parts.take(n).contains("italic"@) { 1i32 } else { 0i32 }) | (if parts.take(n).contains("bold"@) { 2i32 } else { 0i32 })
            | (if parts.take(n).contains("underline"@) { 4i32 } else { 0i32 }) | (if parts.take(n).contains("strikethrough"@) { 8i32 } else { 0i32 })),
    decreases n,
{
    reveal_strlit("italic");
    reveal_strlit("bold");
    reveal_strlit("underline");
    reveal_strlit("strikethrough");
    if n > 0 {
        lemma_parts_bits(parts, n - 1);
        let t = parts.take(n);
        let u = parts.take(n - 1);
        assert(t =~= u.push(parts[n - 1]));
        let p = parts[n - 1];
        assert forall|w: Seq<char>| t.contains(w) <==> (u.contains(w) || p == w) by {
            if t.contains(w) {
                let k = choose|k: int| 0 <= k < t.len() && t[k] == w;
                if k < n - 1 {
                    assert(u[k] == w);
                }
            }
            if u.contains(w) {
                let k = choose|k: int| 0 <= k < u.len() && u[k] == w;
                assert(t[k] == w);
            }
            if p == w {
                assert(t[n - 1] == w);
            }
        }
        assert(t.contains("italic"@) == (u.contains("italic"@) || p == "italic"@));
        assert(t.contains("bold"@) == (u.contains("bold"@) || p == "bold"@));
        assert(t.contains("underline"@) == (u.contains("underline"@) || p == "underline"@));
        assert(t.contains("strikethrough"@) == (u.contains("strikethrough"@) || p == "strikethrough"@));
        assert("italic"@.len() == 6 && "bold"@.len() == 4 && "underline"@.len() == 9 && "strikethrough"@.len() == 13);
        assert("italic"@ != "bold"@ && "italic"@ != "underline"@ && "italic"@ != "strikethrough"@);
        assert("bold"@ != "underline"@ && "bold"@ != "strikethrough"@ && "underline"@ != "strikethrough"@);
        lemma_parts_bits_prefix(parts, n - 1);
        let a: i32 = if u.contains("italic"@) { 1 } else { 0 };
        let b: i32 = if u.contains("bold"@) { 2 } else { 0 };
        let c: i32 = if u.contains("underline"@) { 4 } else { 0 };
        let d: i32 = if u.contains("strikethrough"@) { 8 } else { 0 };
        let x = part_bit(p);
        let a2: i32 = if t.contains("italic"@) { 1 } else { 0 };
        let b2: i32 = if t.contains("bold"@) { 2 } else { 0 };
        let c2: i32 = if t.contains("underline"@) { 4 } else { 0 };
        let d2: i32 = if t.contains("strikethrough"@) { 8 } else { 0 };
        assert(a2 == (if a == 1 || x == 1 { 1i32 } else { 0i32 }));
        assert(b2 == (if b == 2 || x == 2 { 2i32 } else { 0i32 }));
        assert(c2 == (if c == 4 || x == 4 { 4i32 } else { 0i32 }));
        assert(d2 == (if d == 8 || x == 8 { 8i32 } else { 0i32 }));
        assert(x == 0 || x == 1 || x == 2 || x == 4 || x == 8);
        assert((a | b | c | d) | x == a2 | b2 | c2 | d2) by (bit_vector)
            requires
                a == 0 || a == 1,
                b == 0 || b == 2,
                c == 0 || c == 4,
                d == 0 || d == 8,
                x == 0 || x == 1 || x == 2 || x == 4 || x == 8,
                a2 == (if a == 1 || x == 1 { 1i32 } else { 0i32 }),
                b2 == (if b == 2 || x == 2 { 2i32 } else { 0i32 }),
                c2 == (if c == 4 || x == 4 { 4i32 } else { 0i32 }),
                d2 == (if d == 8 || x == 8 { 8i32 } else { 0i32 }),
        ;
    } else {
        assert(parts.take(0) =~= Seq::<Seq<char>>::empty());
        assert((0i32 | 0i32 | 0i32 | 0i32) == 0i32) by (bit_vector);
    }
}

/// The font style that a theme's `fontStyle` text gives.
pub fn parse_font_style(value: &str) -> (r: FontStyle)
    ensures
        r.0 == parsed_font_style(value@),
{
    let v = chars_of(value);
    let mut bits: i32 = 0;
    let mut cur: Vec<char> = Vec::new();
    let ghost mut done: Seq<Seq<char>> = Seq::empty();
    let mut i: usize = 0;
    while i < v.len()
        invariant
            i <= v.len(),
            v@ == value@,
            space_parts(value@) == done + space_parts_from(value@, i as int, cur@),
            bits == parts_bits(done, done.len() as int),
        decreases v.len() - i,
    {
        if v[i] == ' ' {
            let b = segment_bit(cur.as_slice());
            proof {
                assert(done.push(cur@).drop_last() =~= done);
                assert(done + (seq![cur@] + space_parts_from(value@, i + 1, Seq::empty())) =~= done.push(cur@)
                    + space_parts_from(value@, i + 1, Seq::empty()));
                lemma_parts_bits_push(done, cur@, done.len() as int);
                done = done.push(cur@);
            }
            bits = bits | b;
            cur = Vec::new();
        } else {
            cur.push(v[i]);
        }
        i += 1;
    }
    let b = segment_bit(cur.as_slice());
    proof {
        assert(done.push(cur@).drop_last() =~= done);
        lemma_parts_bits_push(done, cur@, done.len() as int);
        done = done.push(cur@);
        assert(space_parts(value@) == done);
        lemma_parts_bits(done, done.len() as int);
        assert(done.take(done.len() as int) =~= done);
    }
    bits = bits | b;
    FontStyle(bits)
}

fn segment_bit(part: &[char]) -> (r: i32)
    ensures
        r == part_bit(part@),
{
    if crate::text::chars_eq(part, chars_of("italic").as_slice()) {
        1
    } else if crate::text::chars_eq(part, chars_of("bold").as_slice()) {
        2
    } else if crate::text::chars_eq(part, chars_of("underline").as_slice()) {
        4
    } else if crate::text::chars_eq(part, chars_of("strikethrough").as_slice()) {
        8
    } else {
        0
    }
}

/// Whether `c` is an ASCII hex digit.
pub open spec fn is_hex_digit(c: char) -> bool {
    ('0' <= c && c <= '9') || ('a' <= c && c <= 'f') || ('A' <= c && c <= 'F')
}

/// Whether a color is `#` and three, four, six or eight hex digits.
pub open spec fn valid_hex_color(s: Seq<char>) -> bool {
    &&& (s.len() == 4 || s.len() == 5 || s.len() == 7 || s.len() == 9)
    &&& s[0] == '#'
    &&& forall|i: int| 1 <= i < s.len() ==> is_hex_digit(#[trigger] s[i])
}

/// Whether a color is `#` and three, four, six or eight hex digits.
pub fn is_valid_hex_color(color: &str) -> (r: bool)
    ensures
        r == valid_hex_color(color@),
{
    let v = chars_of(color);
    let n = v.len();
    if !(n == 4 || n == 5 || n == 7 || n == 9) || v[0] != '#' {
        return false;
    }
    let mut i: usize = 1;
    while i < n
        invariant
            1 <= i <= n,
            n == v.len(),
            v@ == color@,
            forall|j: int| 1 <= j < i ==> is_hex_digit(#[trigger] v@[j]),
        decreases n - i,
    {
        let c = v[i];
        if !(('0' <= c && c <= '9') || ('a' <= c && c <= 'f') || ('A' <= c && c <= 'F')) {
            return false;
        }
        i += 1;
    }
    true
}

/// The scope of a theme setting: one string of comma-separated selectors,
/// or a list of selectors.
#[derive(Clone, Debug, PartialEq)]
pub enum RawThemeScope {
    String(String),
    Array(Vec<String>),
}

/// Why a theme could not be set up.
#[derive(Debug, PartialEq, Eq)]
pub enum ThemeError {
    MissingFrozenColor(String),
}

impl ThemeError {
    /// The message: `missing color in color map - <color>`.
    pub fn to_string(&self) -> (r: String)
        ensures
            match self {
                ThemeError::MissingFrozenColor(c) => r@ == "missing color in color map - "@ + c@,
            },
    {
        match self {
            ThemeError::MissingFrozenColor(c) => {
                let mut v = chars_of("missing color in color map - ");
                push_str_chars(&mut v, c.as_str());
                string_from_chars(v.as_slice())
            },
        }
    }
}

/// A stack of scope names, innermost last; stacks share their parents.
#[derive(Debug)]
pub struct ScopeStack {
    pub parent: Option<Arc<ScopeStack>>,
    pub scope_name: String,
}

/// The scope names of a stack, outermost first.
pub open spec fn stack_segments(s: ScopeStack) -> Seq<Seq<char>>
    decreases s,
{
    match s.parent {
        Some(p) => stack_segments(*p).push(s.scope_name@),
        None => seq![s.scope_name@],
    }
}

/// The scope names of an optional stack, outermost first.
pub open spec fn path_segments(p: Option<Arc<ScopeStack>>) -> Seq<Seq<char>> {
    match p {
        Some(s) => stack_segments(*s),
        None => Seq::empty(),
    }
}

/// The scope names of an optional base stack.
pub open spec fn base_segments(base: Option<&Arc<ScopeStack>>) -> Seq<Seq<char>> {
    match base {
        Some(b) => stack_segments(**b),
        None => Seq::empty(),
    }
}

/// Whether `o` is `s` or one of its parents, as values.
pub open spec fn has_ancestor(s: ScopeStack, o: ScopeStack) -> bool
    decreases s,
{
    s == o || match s.parent {
        Some(p) => has_ancestor(*p, o),
        None => false,
    }
}

/// `Arc::ptr_eq`: whether two handles point to the same allocation.  Two
/// handles to one allocation hold one value; handles to equal values in two
/// allocations are not the same, and nothing is claimed of those.
#[verifier::external_body]
pub(crate) fn same_arc<T>(a: &Arc<T>, b: &Arc<T>) -> (r: bool)
    ensures
        r ==> **a == **b,
{
    Arc::ptr_eq(a, b)
}

impl ScopeStack {
    /// `path` with the scope names pushed in order.
    pub fn push(path: Option<Arc<ScopeStack>>, scope_names: &[&str]) -> (r: Option<Arc<ScopeStack>>)
        ensures
            path_segments(r) == path_segments(path) + scope_names@.map_values(|s: &str| s@),
    {
        let mut path = path;
        let ghost start = path_segments(path);
        let ghost names = scope_names@.map_values(|s: &str| s@);
        let mut i: usize = 0;
        while i < scope_names.len()
            invariant
                i <= scope_names.len(),
                names == scope_names@.map_values(|s: &str| s@),
                path_segments(path) == start + names.take(i as int),
            decreases scope_names.len() - i,
        {
            let ghost before = path;
            path = Some(Arc::new(ScopeStack { parent: path, scope_name: string_from_chars(chars_of(scope_names[i]).as_slice()) }));
            proof {
                assert(names.take(i + 1) =~= names.take(i as int).push(names[i as int]));
                match before {
                    Some(p) => {},
                    None => {
                        assert(start + names.take(i as int) =~= Seq::<Seq<char>>::empty());
                    },
                }
            }
            i += 1;
        }
        assert(names.take(i as int) =~= names);
        path
    }

    /// A stack of the scope names, in order.
    pub fn from(segments: &[&str]) -> (r: Option<Arc<ScopeStack>>)
        ensures
            path_segments(r) == segments@.map_values(|s: &str| s@),
    {
        let r = ScopeStack::push(None, segments);
        assert(Seq::<Seq<char>>::empty() + segments@.map_values(|s: &str| s@) =~= segments@.map_values(|s: &str| s@));
        r
    }

    /// This stack with one more scope name.
    pub fn push_scope(self: &Arc<Self>, scope_name: &str) -> (r: Arc<ScopeStack>)
        ensures
            stack_segments(*r) == stack_segments(**self).push(scope_name@),
            r.parent == Some(*self),
    {
        Arc::new(ScopeStack { parent: Some(self.clone()), scope_name: string_from_chars(chars_of(scope_name).as_slice()) })
    }

    /// The scope names, outermost first.
    pub fn get_segments(&self) -> (r: Vec<String>)
        ensures
            r@.map_values(|s: String| s@) == stack_segments(*self),
        decreases *self,
    {
        match &self.parent {
            Some(p) => {
                let mut v = p.get_segments();
                let ghost before = v@;
                v.push(copy_string(&self.scope_name));
                assert(v@.map_values(|s: String| s@) =~= before.map_values(|s: String| s@).push(self.scope_name@));
                v
            },
            None => {
                let mut v: Vec<String> = Vec::new();
                v.push(copy_string(&self.scope_name));
                assert(v@.map_values(|s: String| s@) =~= seq![self.scope_name@]);
                v
            },
        }
    }

    /// The scope names joined with spaces.
    pub fn to_string(&self) -> (r: String)
        ensures
            r@ == space_joined(stack_segments(*self)),
    {
        let segments = self.get_segments();
        let ghost views = segments@.map_values(|s: String| s@);
        let mut out: Vec<char> = Vec::new();
        let mut i: usize = 0;
        while i < segments.len()
            invariant
                i <= segments.len(),
                views == segments@.map_values(|s: String| s@),
                out@ == space_joined(views.take(i as int)),
            decreases segments.len() - i,
        {
            push_name(&mut out, i, segments[i].as_str());
            proof {
                lemma_space_joined_push(views.take(i as int), views[i as int]);
                assert(views.take(i + 1) =~= views.take(i as int).push(views[i as int]));
            }
            i += 1;
        }
        assert(views.take(i as int) =~= views);
        string_from_chars(out.as_slice())
    }

    /// Whether `other` is this stack or one of its parents, the very same
    /// stack and not an equal copy.  Identity is not part of the model:
    /// what is stated is that a true answer names a parent equal in value.
    pub fn extends(self: &Arc<Self>, other: &Arc<Self>) -> (r: bool)
        ensures
            r ==> has_ancestor(**self, **other),
        decreases **self,
    {
        if same_arc(self, other) {
            return true;
        }
        match &self.parent {
            Some(p) => p.extends(other),
            None => false,
        }
    }

    /// The scope names pushed onto `base` to make this stack, outermost
    /// first, where `base` is this very stack or one of its parents; all of
    /// them where there is no base; otherwise none.  Identity is not part
    /// of the model: what is stated is what an answer says of the values.
    pub fn get_extension_if_defined(self: &Arc<Self>, base: Option<&Arc<Self>>) -> (r: Option<Vec<String>>)
        ensures
            base is None ==> r is Some,
            r matches Some(ext) ==> stack_segments(**self) == base_segments(base) + ext@.map_values(
                |s: String| s@,
            ),
        decreases **self,
    {
        if let Some(b) = base {
            if same_arc(self, b) {
                let v: Vec<String> = Vec::new();
                assert(stack_segments(**self) =~= stack_segments(**b) + v@.map_values(|s: String| s@));
                return Some(v);
            }
        }
        match &self.parent {
            Some(p) => match p.get_extension_if_defined(base) {
                Some(mut v) => {
                    let ghost before = v@;
                    v.push(copy_string(&self.scope_name));
                    proof {
                        assert(v@.map_values(|s: String| s@) =~= before.map_values(|s: String| s@).push(self.scope_name@));
                        let b_seg = base_segments(base);
                        assert(b_seg + v@.map_values(|s: String| s@) =~= (b_seg + before.map_values(|s: String| s@)).push(self.scope_name@));
                    }
                    Some(v)
                },
                None => None,
            },
            None => {
                if base.is_none() {
                    let mut v: Vec<String> = Vec::new();
                    v.push(copy_string(&self.scope_name));
                    assert(stack_segments(**self) =~= Seq::<Seq<char>>::empty() + v@.map_values(|s: String| s@));
                    Some(v)
                } else {
                    None
                }
            },
        }
    }
}

} // verus!
