use vstd::prelude::*;

use crate::theme::FontStyle;
use crate::theme_trie::{float_bits_nonzero, float_nonzero, StyleAttributes};
use crate::text::copy_opt_string;

verus! {

/// The standard token type stored in two metadata bits.
#[derive(Clone, Copy, Debug, PartialEq, Eq, Structural)]
pub enum StandardTokenType {
    Other,
    Comment,
    String,
    RegEx,
}

/// A token type that may be left unset.
#[derive(Clone, Copy, Debug, PartialEq, Eq, Structural)]
pub enum OptionalStandardTokenType {
    Other,
    Comment,
    String,
    RegEx,
    NotSet,
}

/// The numeric code of a standard token type.
pub open spec fn token_type_code(t: StandardTokenType) -> u32 {
    match t {
        StandardTokenType::Other => 0,
        StandardTokenType::Comment => 1,
        StandardTokenType::String => 2,
        StandardTokenType::RegEx => 3,
    }
}

/// The standard token type with the given two-bit code.
pub open spec fn token_type_of_code(code: u32) -> StandardTokenType {
    if code == 0 {
        StandardTokenType::Other
    } else if code == 1 {
        StandardTokenType::Comment
    } else if code == 2 {
        StandardTokenType::String
    } else {
        StandardTokenType::RegEx
    }
}

impl StandardTokenType {
    pub fn from_bits(value: u32) -> (r: StandardTokenType)
        requires
            value < 4,
        ensures
            r == token_type_of_code(value),
            token_type_code(r) == value,
    {
        if value == 0 {
            StandardTokenType::Other
        } else if value == 1 {
            StandardTokenType::Comment
        } else if value == 2 {
            StandardTokenType::String
        } else {
            StandardTokenType::RegEx
        }
    }

    pub fn code(self) -> (r: u32)
        ensures
            r == token_type_code(self),
    {
        match self {
            StandardTokenType::Other => 0,
            StandardTokenType::Comment => 1,
            StandardTokenType::String => 2,
            StandardTokenType::RegEx => 3,
        }
    }
}

/// The standard token type that an optional one denotes, if set.
pub open spec fn optional_to_standard(t: OptionalStandardTokenType) -> StandardTokenType {
    match t {
        OptionalStandardTokenType::Other => StandardTokenType::Other,
        OptionalStandardTokenType::Comment => StandardTokenType::Comment,
        OptionalStandardTokenType::String => StandardTokenType::String,
        OptionalStandardTokenType::RegEx => StandardTokenType::RegEx,
        OptionalStandardTokenType::NotSet => StandardTokenType::Other,
    }
}

/// The optional token type that a standard one denotes.
pub open spec fn standard_to_optional(t: StandardTokenType) -> OptionalStandardTokenType {
    match t {
        StandardTokenType::Other => OptionalStandardTokenType::Other,
        StandardTokenType::Comment => OptionalStandardTokenType::Comment,
        StandardTokenType::String => OptionalStandardTokenType::String,
        StandardTokenType::RegEx => OptionalStandardTokenType::RegEx,
    }
}

impl OptionalStandardTokenType {
    pub fn to_standard(self) -> (r: StandardTokenType)
        requires
            self != OptionalStandardTokenType::NotSet,
        ensures
            r == optional_to_standard(self),
            standard_to_optional(r) == self,
    {
        match self {
            OptionalStandardTokenType::Other => StandardTokenType::Other,
            OptionalStandardTokenType::Comment => StandardTokenType::Comment,
            OptionalStandardTokenType::String => StandardTokenType::String,
            OptionalStandardTokenType::RegEx => StandardTokenType::RegEx,
            OptionalStandardTokenType::NotSet => StandardTokenType::Other,
        }
    }
}

pub fn to_optional_token_type(standard_type: StandardTokenType) -> (r: OptionalStandardTokenType)
    ensures
        r == standard_to_optional(standard_type),
        r != OptionalStandardTokenType::NotSet,
        optional_to_standard(r) == standard_type,
{
    match standard_type {
        StandardTokenType::Other => OptionalStandardTokenType::Other,
        StandardTokenType::Comment => OptionalStandardTokenType::Comment,
        StandardTokenType::String => OptionalStandardTokenType::String,
        StandardTokenType::RegEx => OptionalStandardTokenType::RegEx,
    }
}

/// The collapsed 32-bit metadata carried by a TextMate scope stack.
///
/// Bits 0-7 hold the language id, 8-9 the token type, 10 the balanced
/// bracket flag, 11-14 the font style, 15-23 the foreground color id and
/// 24-31 the background color id.
#[derive(Clone, Copy, Debug, Default, PartialEq, Eq, Structural)]
pub struct EncodedTokenAttributes(pub u32);

pub open spec fn field_language_id(bits: u32) -> u32 {
    bits % 256
}

pub open spec fn field_token_type(bits: u32) -> u32 {
    (bits / 256) % 4
}

pub open spec fn field_balanced_brackets(bits: u32) -> bool {
    (bits / 1024) % 2 == 1
}

pub open spec fn field_font_style(bits: u32) -> u32 {
    (bits / 2048) % 16
}

pub open spec fn field_foreground(bits: u32) -> u32 {
    (bits / 32768) % 512
}

pub open spec fn field_background(bits: u32) -> u32 {
    bits / 16777216
}

/// The word that packs the given field values at their offsets.
pub open spec fn pack_fields(
    language_id: u32,
    token_type: u32,
    balanced: bool,
    font_style: i32,
    foreground: u32,
    background: u32,
) -> u32 {
    language_id | (token_type << 8u32) | ((if balanced { 1u32 } else { 0u32 }) << 10u32) | (
    (font_style as u32) << 11u32) | (foreground << 15u32) | (background << 24u32)
}

proof fn lemma_pack_fields(l: u32, t: u32, b: u32, f: u32, fg: u32, bg: u32)
    requires
        l < 256,
        t < 4,
        b < 2,
        f < 16,
        fg < 512,
        bg < 256,
    ensures
        ({
            let w = l | (t << 8u32) | (b << 10u32) | (f << 11u32) | (fg << 15u32) | (bg << 24u32);
            &&& w % 256 == l
            &&& (w / 256) % 4 == t
            &&& (w / 1024) % 2 == b
            &&& (w / 2048) % 16 == f
            &&& (w / 32768) % 512 == fg
            &&& w / 16777216 == bg
        }),
{
    assert({
        let w = l | (t << 8u32) | (b << 10u32) | (f << 11u32) | (fg << 15u32) | (bg << 24u32);
        &&& w % 256 == l
        &&& (w / 256) % 4 == t
        &&& (w / 1024) % 2 == b
        &&& (w / 2048) % 16 == f
        &&& (w / 32768) % 512 == fg
        &&& w / 16777216 == bg
    }) by (bit_vector)
        requires
            l < 256,
            t < 4,
            b < 2,
            f < 16,
            fg < 512,
            bg < 256,
    ;
}

/// The word with the given fields set: zero, `NotSet`, `None` and the
/// not-set font style keep the field of `bits`.
pub open spec fn set_fields(
    bits: u32,
    language_id: u32,
    token_type: OptionalStandardTokenType,
    contains_balanced_brackets: Option<bool>,
    font_style: FontStyle,
    foreground: u32,
    background: u32,
) -> u32 {
    pack_fields(
        if language_id == 0 { field_language_id(bits) } else { language_id },
        if token_type == OptionalStandardTokenType::NotSet {
            field_token_type(bits)
        } else {
            token_type_code(optional_to_standard(token_type))
        },
        match contains_balanced_brackets {
            Some(b) => b,
            None => field_balanced_brackets(bits),
        },
        if font_style.0 == -1 { field_font_style(bits) as i32 } else { font_style.0 },
        if foreground == 0 { field_foreground(bits) } else { foreground },
        if background == 0 { field_background(bits) } else { background },
    )
}

impl EncodedTokenAttributes {
    pub fn new(value: u32) -> (r: EncodedTokenAttributes)
        ensures
            r.0 == value,
    {
        EncodedTokenAttributes(value)
    }

    pub fn bits(self) -> (r: u32)
        ensures
            r == self.0,
    {
        self.0
    }

    pub fn language_id(self) -> (r: u32)
        ensures
            r == field_language_id(self.0),
    {
        let v = self.0;
        assert(v & 0xff == v % 256) by (bit_vector);
        v & 0xff
    }

    pub fn token_type(self) -> (r: StandardTokenType)
        ensures
            r == token_type_of_code(field_token_type(self.0)),
    {
        let v = self.0;
        assert((v & 0x300) >> 8u32 == (v / 256) % 4) by (bit_vector);
        StandardTokenType::from_bits((v & 0x300) >> 8)
    }

    pub fn contains_balanced_brackets(self) -> (r: bool)
        ensures
            r == field_balanced_brackets(self.0),
    {
        let v = self.0;
        assert((v & 0x400 != 0) == ((v / 1024) % 2 == 1)) by (bit_vector);
        v & 0x400 != 0
    }

    pub fn font_style(self) -> (r: FontStyle)
        ensures
            r.0 == field_font_style(self.0),
    {
        let v = self.0;
        assert((v & 0x7800) >> 11u32 == (v / 2048) % 16) by (bit_vector);
        FontStyle::from_bits(((v & 0x7800) >> 11) as i32)
    }

    pub fn foreground(self) -> (r: u32)
        ensures
            r == field_foreground(self.0),
    {
        let v = self.0;
        assert((v & 0xff8000) >> 15u32 == (v / 32768) % 512) by (bit_vector);
        (v & 0xff8000) >> 15
    }

    pub fn background(self) -> (r: u32)
        ensures
            r == field_background(self.0),
    {
        let v = self.0;
        assert((v & 0xff000000) >> 24u32 == v / 16777216) by (bit_vector);
        (v & 0xff000000) >> 24
    }
    /// The 32 binary digits of the metadata word, most significant first.
    pub fn to_binary_str(self) -> (r: String)
        ensures
            r@ == binary_digits(self.0 as nat, 32),
            r@.len() == 32,
    {
        let digits = binary_digit_vec(self.0, 32);
        crate::text::string_from_chars(digits.as_slice())
    }

    /// Update selected metadata fields.
    ///
    /// Zero, `NotSet`, `None` and the not-set font style retain the
    /// corresponding current field.
    pub fn set(
        self,
        language_id: u32,
        token_type: OptionalStandardTokenType,
        contains_balanced_brackets: Option<bool>,
        font_style: FontStyle,
        foreground: u32,
        background: u32,
    ) -> (r: EncodedTokenAttributes)
        ensures
            r.0 == set_fields(self.0, language_id, token_type, contains_balanced_brackets, font_style, foreground, background),
    {
        let language_id = if language_id == 0 {
            self.language_id()
        } else {
            language_id
        };
        let token_type = if token_type == OptionalStandardTokenType::NotSet {
            self.token_type()
        } else {
            token_type.to_standard()
        };
        let balanced_brackets = match contains_balanced_brackets {
            Some(b) => b,
            None => self.contains_balanced_brackets(),
        };
        let font_style = if font_style.0 == -1 {
            self.font_style()
        } else {
            font_style
        };
        let foreground = if foreground == 0 {
            self.foreground()
        } else {
            foreground
        };
        let background = if background == 0 {
            self.background()
        } else {
            background
        };
        let balanced_bit: u32 = if balanced_brackets { 1 } else { 0 };
        EncodedTokenAttributes(
            language_id | (token_type.code() << 8u32) | (balanced_bit << 10u32) | (
            (font_style.bits() as u32) << 11u32) | (foreground << 15u32) | (background << 24u32),
        )
    }
}

/// The `n` low binary digits of `v`, most significant first.
pub open spec fn binary_digits(v: nat, n: nat) -> Seq<char>
    decreases n,
{
    if n == 0 {
        Seq::empty()
    } else {
        binary_digits(v / 2, (n - 1) as nat).push(if v % 2 == 1 { '1' } else { '0' })
    }
}

proof fn lemma_binary_digits_len(v: nat, n: nat)
    ensures
        binary_digits(v, n).len() == n,
    decreases n,
{
    if n > 0 {
        lemma_binary_digits_len(v / 2, (n - 1) as nat);
    }
}

/// The number that binary digits stand for, most significant first.
pub open spec fn binary_value(s: Seq<char>) -> nat
    decreases s.len(),
{
    if s.len() == 0 {
        0
    } else {
        2 * binary_value(s.drop_last()) + if s.last() == '1' { 1nat } else { 0nat }
    }
}

/// Two to the power `n`.
pub open spec fn two_to(n: nat) -> nat
    decreases n,
{
    if n == 0 {
        1
    } else {
        2 * two_to((n - 1) as nat)
    }
}

proof fn lemma_binary_digits_value(v: nat, n: nat)
    requires
        v < two_to(n),
    ensures
        binary_value(binary_digits(v, n)) == v,
        forall|i: int| 0 <= i < binary_digits(v, n).len() ==> #[trigger] binary_digits(v, n)[i] == '0' || binary_digits(v, n)[i] == '1',
    decreases n,
{
    if n > 0 {
        lemma_binary_digits_value(v / 2, (n - 1) as nat);
        let s = binary_digits(v, n);
        assert(s.drop_last() =~= binary_digits(v / 2, (n - 1) as nat));
    }
}

/// `to_binary_str` reads back: its 32 characters are binary digits, and the
/// number they stand for is the metadata word.
pub proof fn lemma_binary_str_reads_back(attrs: EncodedTokenAttributes)
    ensures
        binary_digits(attrs.0 as nat, 32).len() == 32,
        forall|i: int| 0 <= i < 32 ==> #[trigger] binary_digits(attrs.0 as nat, 32)[i] == '0' || binary_digits(attrs.0 as nat, 32)[i] == '1',
        binary_value(binary_digits(attrs.0 as nat, 32)) == attrs.0,
{
    lemma_binary_digits_len(attrs.0 as nat, 32);
    assert(two_to(32) == 0x1_0000_0000) by {
        reveal_with_fuel(two_to, 33);
    }
    lemma_binary_digits_value(attrs.0 as nat, 32);
}

fn binary_digit_vec(v: u32, n: u32) -> (r: Vec<char>)
    ensures
        r@ == binary_digits(v as nat, n as nat),
        r@.len() == n,
    decreases n,
{
    proof {
        lemma_binary_digits_len(v as nat, n as nat);
    }
    if n == 0 {
        Vec::new()
    } else {
        let mut r = binary_digit_vec(v / 2, n - 1);
        r.push(if v % 2 == 1 { '1' } else { '0' });
        r
    }
}

/// Reading a field back after `set` gives the value that `set` chose for
/// it, whenever every chosen value fits in its field.
pub proof fn lemma_set_then_read(
    attrs: EncodedTokenAttributes,
    language_id: u32,
    token_type: OptionalStandardTokenType,
    contains_balanced_brackets: Option<bool>,
    font_style: FontStyle,
    foreground: u32,
    background: u32,
)
    requires
        language_id < 256,
        font_style.0 == -1 || 0 <= font_style.0 < 16,
        foreground < 512,
        background < 256,
    ensures
        ({
            let l = if language_id == 0 { field_language_id(attrs.0) } else { language_id };
            let t = if token_type == OptionalStandardTokenType::NotSet {
                field_token_type(attrs.0)
            } else {
                token_type_code(optional_to_standard(token_type))
            };
            let b = match contains_balanced_brackets {
                Some(b) => b,
                None => field_balanced_brackets(attrs.0),
            };
            let f = if font_style.0 == -1 { field_font_style(attrs.0) as i32 } else { font_style.0 };
            let fg = if foreground == 0 { field_foreground(attrs.0) } else { foreground };
            let bg = if background == 0 { field_background(attrs.0) } else { background };
            let w = pack_fields(l, t, b, f, fg, bg);
            &&& field_language_id(w) == l
            &&& field_token_type(w) == t
            &&& field_balanced_brackets(w) == b
            &&& field_font_style(w) == f as u32
            &&& field_foreground(w) == fg
            &&& field_background(w) == bg
        }),
{
    let l = if language_id == 0 { field_language_id(attrs.0) } else { language_id };
    let t = if token_type == OptionalStandardTokenType::NotSet {
        field_token_type(attrs.0)
    } else {
        token_type_code(optional_to_standard(token_type))
    };
    let b = match contains_balanced_brackets {
        Some(b) => b,
        None => field_balanced_brackets(attrs.0),
    };
    let f = if font_style.0 == -1 { field_font_style(attrs.0) as i32 } else { font_style.0 };
    let fg = if foreground == 0 { field_foreground(attrs.0) } else { foreground };
    let bg = if background == 0 { field_background(attrs.0) } else { background };
    let bu: u32 = if b { 1 } else { 0 };
    let x = attrs.0;
    assert(x % 256 < 256 && (x / 256) % 4 < 4 && (x / 2048) % 16 < 16 && (x / 32768) % 512 < 512
        && x / 16777216 < 256) by (bit_vector);
    assert(0 <= f < 16);
    lemma_pack_fields(l, t, bu, f as u32, fg, bg);
}

impl From<u32> for EncodedTokenAttributes {
    fn from(value: u32) -> (r: EncodedTokenAttributes) {
        EncodedTokenAttributes(value)
    }
}

impl vstd::std_specs::convert::FromSpecImpl<u32> for EncodedTokenAttributes {
    open spec fn obeys_from_spec() -> bool {
        true
    }

    open spec fn from_spec(value: u32) -> EncodedTokenAttributes {
        EncodedTokenAttributes(value)
    }
}

impl From<EncodedTokenAttributes> for u32 {
    fn from(value: EncodedTokenAttributes) -> (r: u32) {
        value.0
    }
}

impl vstd::std_specs::convert::FromSpecImpl<EncodedTokenAttributes> for u32 {
    open spec fn obeys_from_spec() -> bool {
        true
    }

    open spec fn from_spec(value: EncodedTokenAttributes) -> u32 {
        value.0
    }
}

/// The font of a scope: its family, and its size and line height as the
/// bits of their doubles.
#[derive(Clone, Debug, Default, PartialEq)]
pub struct FontAttribute {
    pub font_family: Option<String>,
    pub font_size: Option<u64>,
    pub line_height: Option<u64>,
}

/// A font as plain values.
pub struct FontView {
    pub family: Option<Seq<char>>,
    pub size: Option<u64>,
    pub line_height: Option<u64>,
}

pub open spec fn font_view(f: FontAttribute) -> FontView {
    FontView {
        family: match f.font_family {
            Some(s) => Some(s@),
            None => None,
        },
        size: f.font_size,
        line_height: f.line_height,
    }
}

/// A font under a theme style: the style's family, size and line height
/// replace the font's where they are set (a family not empty, a size or a
/// line height not zero).
pub open spec fn font_with(f: FontView, style: Option<StyleAttributes>) -> FontView {
    match style {
        None => f,
        Some(st) => FontView {
            family: if st.font_family@.len() == 0 { f.family } else { Some(st.font_family@) },
            size: if float_bits_nonzero(st.font_size) { Some(st.font_size) } else { f.size },
            line_height: if float_bits_nonzero(st.line_height) { Some(st.line_height) } else { f.line_height },
        },
    }
}

impl FontAttribute {
    pub fn from(font_family: Option<String>, font_size: Option<u64>, line_height: Option<u64>) -> (r: Self)
        ensures
            r.font_family == font_family,
            r.font_size == font_size,
            r.line_height == line_height,
    {
        FontAttribute { font_family, font_size, line_height }
    }

    /// This font under a theme style (see `font_with`).
    pub fn with(&self, style_attributes: Option<&StyleAttributes>) -> (r: Self)
        ensures
            font_view(r) == font_with(font_view(*self), match style_attributes {
                Some(st) => Some(*st),
                None => None,
            }),
            style_attributes is None ==> r == *self,
    {
        let style = match style_attributes {
            Some(st) => st,
            None => {
                return FontAttribute {
                    font_family: copy_opt_string(&self.font_family),
                    font_size: self.font_size,
                    line_height: self.line_height,
                };
            },
        };
        FontAttribute {
            font_family: if style.font_family.as_str().is_empty() {
                copy_opt_string(&self.font_family)
            } else {
                Some(style.font_family.clone())
            },
            font_size: if float_nonzero(style.font_size) {
                Some(style.font_size)
            } else {
                self.font_size
            },
            line_height: if float_nonzero(style.line_height) {
                Some(style.line_height)
            } else {
                self.line_height
            },
        }
    }
}

} // verus!
