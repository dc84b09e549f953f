use ferriki::encoded_token_attributes::{EncodedTokenAttributes, OptionalStandardTokenType, StandardTokenType};
use ferriki::line_output::{BalancedBracketSelectors, TokenTypeMatcher};
use ferriki::line_tokens::LineTokens;
use ferriki::theme::FontStyle;

fn names(list: &str) -> Vec<String> {
    list.split(' ').map(str::to_owned).collect()
}

#[test]
fn emits_text_tokens_and_removes_the_newline_token() {
    let scopes = names("source.test word");
    let metadata = EncodedTokenAttributes::new(1);
    let mut tokens = LineTokens::new(false, "ab\n", Vec::new(), None);
    tokens.produce_from_scopes(Some((&scopes, metadata)), 2);
    tokens.produce_from_scopes(Some((&scopes, metadata)), 3);

    let result = tokens.result(Some((&scopes, metadata)), 3);
    assert_eq!(result.len(), 1);
    assert_eq!(result[0].start_index, 0);
    assert_eq!(result[0].end_index, 2);
    assert_eq!(result[0].scopes, ["source.test", "word"]);
}

#[test]
fn merges_binary_tokens_but_preserves_boundaries_for_rtl_lines() {
    let metadata = EncodedTokenAttributes::new(1);
    let scopes = names("source.test");

    let mut ltr = LineTokens::new(true, "ab\n", Vec::new(), None);
    ltr.produce_from_scopes(Some((&scopes, metadata)), 1);
    ltr.produce_from_scopes(Some((&scopes, metadata)), 2);
    assert_eq!(ltr.binary_result(Some((&scopes, metadata)), 3), [0, 1]);

    let mut rtl = LineTokens::new(true, "אb\n", Vec::new(), None);
    rtl.produce_from_scopes(Some((&scopes, metadata)), 1);
    rtl.produce_from_scopes(Some((&scopes, metadata)), 2);
    assert_eq!(rtl.binary_result(Some((&scopes, metadata)), 3), [0, 1, 1, 1]);
}

#[test]
fn applies_token_type_and_balanced_bracket_overrides() {
    let metadata = EncodedTokenAttributes::new(0).set(1, OptionalStandardTokenType::Comment, None, FontStyle::none(), 1, 2);
    let scopes = names("source.test meta.embedded");
    let overrides = TokenTypeMatcher::from_selector("meta.embedded", StandardTokenType::String);
    let selectors = BalancedBracketSelectors::new(&["*".into()], &[]);
    let mut tokens = LineTokens::new(true, "x\n", overrides, Some(selectors));
    tokens.produce_from_scopes(Some((&scopes, metadata)), 1);

    let result = tokens.binary_result(Some((&scopes, metadata)), 2);
    let result = EncodedTokenAttributes::new(result[1]);
    assert_eq!(result.token_type(), StandardTokenType::String);
    assert!(result.contains_balanced_brackets());
    assert_eq!(result.language_id(), 1);
    assert_eq!(result.foreground(), 1);
    assert_eq!(result.background(), 2);
}

#[test]
fn producing_up_to_an_earlier_index_adds_nothing() {
    let scopes = names("source.test");
    let mut tokens = LineTokens::new(false, "abc", Vec::new(), None);
    tokens.produce_from_scopes(Some((&scopes, EncodedTokenAttributes::new(0))), 2);
    tokens.produce_from_scopes(None, 2);
    tokens.produce_from_scopes(None, 1);
    tokens.produce_from_scopes(None, 3);
    let result = tokens.result(None, 4);
    assert_eq!(result.len(), 2);
    assert_eq!((result[0].start_index, result[0].end_index), (0, 2));
    assert_eq!((result[1].start_index, result[1].end_index), (2, 3));
    assert!(result[1].scopes.is_empty());
}

#[test]
fn an_empty_line_gets_one_covering_token() {
    let scopes = names("source.test");
    let mut tokens = LineTokens::new(false, "", Vec::new(), None);
    let result = tokens.result(Some((&scopes, EncodedTokenAttributes::new(0))), 0);
    assert_eq!(result.len(), 1);
    assert_eq!((result[0].start_index, result[0].end_index), (0, 0));
    assert_eq!(result[0].scopes, ["source.test"]);

    let mut binary = LineTokens::new(true, "", Vec::new(), None);
    assert_eq!(binary.binary_result(None, 0), [0, 0]);
}
