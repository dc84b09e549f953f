use ferriki::theme::{
    font_style_to_string, is_valid_hex_color, parse_font_style, FontStyle, RawThemeScope,
    ScopeStack, ThemeError,
};

#[test]
fn scope_stack_preserves_identity_based_extensions() {
    let base = ScopeStack::from(&["source.ts", "meta.function"]).unwrap();
    let extended = base.push_scope("variable.parameter");
    let unrelated = ScopeStack::from(&["source.ts", "meta.function"]).unwrap();

    assert!(extended.extends(&base));
    assert!(!extended.extends(&unrelated));
    assert_eq!(
        extended.get_extension_if_defined(Some(&base)),
        Some(vec!["variable.parameter".to_owned()])
    );
    assert_eq!(extended.get_extension_if_defined(Some(&unrelated)), None);
    assert_eq!(
        extended.get_segments(),
        ["source.ts", "meta.function", "variable.parameter"]
    );
}

#[test]
fn scope_stack_without_base_gives_every_segment() {
    let stack = ScopeStack::push(None, &["a", "b"]).unwrap();
    assert_eq!(stack.get_extension_if_defined(None), Some(vec!["a".to_owned(), "b".to_owned()]));
    assert_eq!(stack.to_string(), "a b");
    let longer = ScopeStack::push(Some(stack.clone()), &["c"]).unwrap();
    assert_eq!(longer.get_segments(), ["a", "b", "c"]);
    assert!(longer.extends(&stack));
    assert!(ScopeStack::from(&[]).is_none());
}

#[test]
fn font_styles_are_named() {
    assert_eq!(font_style_to_string(FontStyle::not_set()), "not set");
    assert_eq!(font_style_to_string(FontStyle::none()), "none");
    assert_eq!(font_style_to_string(FontStyle::italic() | FontStyle::underline()), "italic underline");
    assert_eq!(font_style_to_string(FontStyle::from_bits(15)), "italic bold underline strikethrough");
}

#[test]
fn font_style_text_is_parsed_at_single_spaces() {
    assert_eq!(parse_font_style("bold strikethrough").bits(), 10);
    assert_eq!(parse_font_style("italic  underline").bits(), 5);
    assert_eq!(parse_font_style("").bits(), 0);
    assert_eq!(parse_font_style("Bold italic,bold").bits(), 0);
}

#[test]
fn hex_colors_are_checked() {
    assert!(is_valid_hex_color("#fff"));
    assert!(is_valid_hex_color("#ffff"));
    assert!(is_valid_hex_color("#A0b1C2"));
    assert!(is_valid_hex_color("#A0b1C2d3"));
    assert!(!is_valid_hex_color("#ff"));
    assert!(!is_valid_hex_color("fff0"));
    assert!(!is_valid_hex_color("#ggg"));
    assert!(!is_valid_hex_color("#ffé"));
}

#[test]
fn theme_errors_name_the_missing_color() {
    let error = ThemeError::MissingFrozenColor("#123456".to_owned());
    assert_eq!(error.to_string(), "missing color in color map - #123456");
    let scope = RawThemeScope::Array(vec!["a".to_owned()]);
    assert_eq!(scope, RawThemeScope::Array(vec!["a".to_owned()]));
}
