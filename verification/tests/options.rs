use ferriki::options::HighlightOptions;

#[test]
fn parses_render_controls_from_shiki_options() {
    let options = HighlightOptions::parse(
        r#"{
            "lang": "js",
            "theme": "nord",
            "rootStyle": false,
            "tabindex": -1,
            "mergeWhitespaces": false,
            "tokenizeTimeLimit": 42
        }"#,
    )
    .expect("options");

    assert!(!options.render.include_root_style);
    assert_eq!(options.render.tabindex.as_deref(), Some("-1"));
    assert!(!options.render.merge_whitespaces);
    assert_eq!(options.tokenize.time_limit_millis, 42);
}

#[test]
fn options_have_shiki_defaults() {
    let options = HighlightOptions::parse(r#"{"lang": "js", "theme": "nord"}"#).expect("options");
    assert_eq!(options.language, "js");
    assert_eq!(options.theme, "nord");
    assert_eq!(options.tokenize.time_limit_millis, 500);
    assert_eq!(options.tokenize.max_line_length, 0);
    assert!(!options.tokenize.include_token_type);
    assert!(!options.tokenize.include_scopes);
    assert!(options.render.merge_whitespaces);
    assert!(!options.render.merge_same_style_tokens);
    assert!(options.render.include_root_style);
    assert_eq!(options.render.root_style, None);
    assert_eq!(options.render.tabindex.as_deref(), Some("0"));
}

#[test]
fn explanation_and_root_style_strings_are_read() {
    let options = HighlightOptions::parse(
        r#"{"lang": "js", "theme": "nord", "includeExplanation": "tokenType", "rootStyle": "color:red", "tabindex": "2", "tokenizeMaxLineLength": 80}"#,
    )
    .expect("options");
    assert!(options.tokenize.include_token_type);
    assert!(!options.tokenize.include_scopes);
    assert_eq!(options.render.root_style.as_deref(), Some("color:red"));
    assert!(options.render.include_root_style);
    assert_eq!(options.render.tabindex.as_deref(), Some("2"));
    assert_eq!(options.tokenize.max_line_length, 80);

    let scopes = HighlightOptions::parse(r#"{"lang": "js", "theme": "nord", "includeExplanation": true, "tabindex": null}"#)
        .expect("options");
    assert!(scopes.tokenize.include_scopes);
    assert_eq!(scopes.render.tabindex, None);
}

#[test]
fn options_report_what_is_missing() {
    let err = HighlightOptions::parse(r#"{"theme": "nord"}"#).expect_err("no lang");
    assert_eq!(err, "Highlight options require `lang`.");
    let err = HighlightOptions::parse(r#"{"lang": 1}"#).expect_err("bad lang");
    assert_eq!(err, "Highlight options require `lang`.");
    let err = HighlightOptions::parse(r#"{"lang": "js"}"#).expect_err("no theme");
    assert_eq!(err, "Highlight options require `theme`.");
    let err = HighlightOptions::parse("{").expect_err("not JSON");
    assert!(err.starts_with("Failed to parse highlight options: "));
}
