use ferriki::basic_scope_attributes::{BasicScopeAttributes, BasicScopeAttributesProvider, EmbeddedLanguages};
use ferriki::encoded_token_attributes::{
    to_optional_token_type, EncodedTokenAttributes, OptionalStandardTokenType, StandardTokenType,
};
use ferriki::theme::FontStyle;

fn assert_attributes(
    value: EncodedTokenAttributes,
    language_id: u32,
    token_type: StandardTokenType,
    contains_balanced_brackets: bool,
    font_style: FontStyle,
    foreground: u32,
    background: u32,
) {
    assert_eq!(value.language_id(), language_id);
    assert_eq!(value.token_type(), token_type);
    assert_eq!(value.contains_balanced_brackets(), contains_balanced_brackets);
    assert_eq!(value.font_style(), font_style);
    assert_eq!(value.foreground(), foreground);
    assert_eq!(value.background(), background);
}

fn initial_attributes() -> EncodedTokenAttributes {
    EncodedTokenAttributes::new(0).set(
        1,
        OptionalStandardTokenType::RegEx,
        Some(false),
        FontStyle::underline() | FontStyle::bold(),
        101,
        102,
    )
}

#[test]
fn sets_and_reads_collapsed_metadata() {
    let value = initial_attributes();
    assert_attributes(
        value,
        1,
        StandardTokenType::RegEx,
        false,
        FontStyle::underline() | FontStyle::bold(),
        101,
        102,
    );
    assert_eq!(value.to_binary_str().len(), 32);
}

#[test]
fn preserves_not_set_fields_and_overwrites_selected_fields() {
    let value = initial_attributes()
        .set(2, OptionalStandardTokenType::NotSet, Some(false), FontStyle::not_set(), 0, 0)
        .set(0, OptionalStandardTokenType::Comment, Some(true), FontStyle::none(), 5, 7);
    assert_attributes(value, 2, StandardTokenType::Comment, true, FontStyle::none(), 5, 7);
}

#[test]
fn retains_balanced_bracket_state_when_not_set() {
    let value = initial_attributes()
        .set(0, OptionalStandardTokenType::NotSet, Some(true), FontStyle::not_set(), 0, 0)
        .set(0, OptionalStandardTokenType::NotSet, None, FontStyle::not_set(), 0, 0);
    assert!(value.contains_balanced_brackets());
}

#[test]
fn supports_upstream_maximum_field_values() {
    let value = EncodedTokenAttributes::new(0).set(
        255,
        OptionalStandardTokenType::RegEx,
        Some(true),
        FontStyle::bold() | FontStyle::italic() | FontStyle::underline(),
        511,
        254,
    );
    assert_attributes(
        value,
        255,
        StandardTokenType::RegEx,
        true,
        FontStyle::bold() | FontStyle::italic() | FontStyle::underline(),
        511,
        254,
    );
}

#[test]
fn binary_string_lists_bits_most_significant_first() {
    let value = EncodedTokenAttributes::new(5);
    assert_eq!(value.to_binary_str(), "00000000000000000000000000000101");
    let high = EncodedTokenAttributes::new(0x8000_0001);
    assert_eq!(high.to_binary_str(), "10000000000000000000000000000001");
}

#[test]
fn set_then_read_law_on_concrete_values() {
    let base = EncodedTokenAttributes::new(0xffff_ffff);
    let value = base.set(3, OptionalStandardTokenType::String, Some(false), FontStyle::italic(), 9, 0);
    assert_eq!(value.language_id(), 3);
    assert_eq!(value.token_type(), StandardTokenType::String);
    assert!(!value.contains_balanced_brackets());
    assert_eq!(value.font_style(), FontStyle::italic());
    assert_eq!(value.foreground(), 9);
    assert_eq!(value.background(), 255);
    assert_eq!(value.bits(), 3 | (2 << 8) | (1 << 11) | (9 << 15) | (255 << 24));
}

#[test]
fn optional_token_types_round_trip() {
    for t in [
        StandardTokenType::Other,
        StandardTokenType::Comment,
        StandardTokenType::String,
        StandardTokenType::RegEx,
    ] {
        assert_eq!(to_optional_token_type(t).to_standard(), t);
    }
    assert_eq!(StandardTokenType::from_bits(2), StandardTokenType::String);
}

#[test]
fn returns_default_and_null_scope_attributes() {
    let provider = BasicScopeAttributesProvider::new(7, None);
    assert_eq!(
        provider.default_attributes(),
        BasicScopeAttributes { language_id: 7, token_type: OptionalStandardTokenType::NotSet }
    );
    assert_eq!(
        provider.basic_scope_attributes(None),
        BasicScopeAttributes { language_id: 0, token_type: OptionalStandardTokenType::Other }
    );
}

#[test]
fn identifies_standard_token_types_at_word_boundaries() {
    let provider = BasicScopeAttributesProvider::new(1, None);
    for (scope, expected) in [
        ("comment.block.documentation", OptionalStandardTokenType::Comment),
        ("quoted.string", OptionalStandardTokenType::String),
        ("source.regex.group", OptionalStandardTokenType::RegEx),
        ("meta.embedded.block.html", OptionalStandardTokenType::Other),
    ] {
        assert_eq!(provider.basic_scope_attributes(Some(scope)).token_type, expected);
    }
    for scope in ["comments", "stringify", "regexes", "meta.embeddedness"] {
        assert_eq!(
            provider.basic_scope_attributes(Some(scope)).token_type,
            OptionalStandardTokenType::NotSet
        );
    }
}

#[test]
fn chooses_the_most_specific_embedded_language_scope() {
    let embedded_languages =
        EmbeddedLanguages::from([("source.ts".into(), 1), ("source.ts.embedded".into(), 2)]);
    let provider = BasicScopeAttributesProvider::new(9, Some(&embedded_languages));
    assert_eq!(provider.basic_scope_attributes(Some("source.ts.embedded.html")).language_id, 2);
    assert_eq!(provider.basic_scope_attributes(Some("source.ts.type")).language_id, 1);
    assert_eq!(provider.basic_scope_attributes(Some("source.tsx")).language_id, 0);
}

#[test]
fn leftmost_standard_word_wins() {
    let provider = BasicScopeAttributesProvider::new(1, None);
    assert_eq!(
        provider.basic_scope_attributes(Some("string.comment")).token_type,
        OptionalStandardTokenType::String
    );
    assert_eq!(
        provider.basic_scope_attributes(Some("x_comment comment")).token_type,
        OptionalStandardTokenType::Comment
    );
}

#[test]
fn converts_to_and_from_the_metadata_word() {
    for value in [0u32, 1, 0x8000_0001, u32::MAX, 0x0123_4567] {
        assert_eq!(EncodedTokenAttributes::from(value).bits(), value);
        assert_eq!(u32::from(EncodedTokenAttributes::new(value)), value);
        let digits = EncodedTokenAttributes::new(value).to_binary_str();
        assert_eq!(digits.len(), 32);
        assert!(digits.bytes().all(|c| c == b'0' || c == b'1'));
        assert_eq!(u32::from_str_radix(&digits, 2), Ok(value));
    }
}
