use ferriki::theme::{font_style_to_string, FontStyle, RawThemeScope, ScopeStack, ThemeError};
use ferriki::theme_trie::{parse_theme, ParsedThemeRule, RawTheme, RawThemeSetting, RawThemeStyle, Theme};

fn style(font_style: Option<&str>, foreground: Option<&str>, background: Option<&str>) -> RawThemeStyle {
    RawThemeStyle {
        font_style: font_style.map(str::to_owned),
        foreground: foreground.map(str::to_owned),
        background: background.map(str::to_owned),
        ..RawThemeStyle::default()
    }
}

fn setting(scope: Option<RawThemeScope>, settings: RawThemeStyle) -> RawThemeSetting {
    RawThemeSetting { scope, settings: Some(settings), ..RawThemeSetting::default() }
}

fn string_scope(scope: &str) -> Option<RawThemeScope> {
    Some(RawThemeScope::String(scope.to_owned()))
}

fn theme(settings: Vec<RawThemeSetting>) -> Theme {
    Theme::create_from_raw_theme(Some(&RawTheme { settings, ..RawTheme::default() }), None).unwrap()
}

fn match_theme(theme: &Theme, path: &[&str]) -> (String, Option<String>, Option<String>) {
    let scope_stack = ScopeStack::from(path).unwrap();
    let result = theme.match_scope(Some(&scope_stack)).unwrap();
    let color_map = theme.get_color_map();
    (
        font_style_to_string(result.font_style),
        (result.foreground_id != 0).then(|| color_map[result.foreground_id as usize].clone()),
        (result.background_id != 0).then(|| color_map[result.background_id as usize].clone()),
    )
}

fn rule(scope: &str, parent_scopes: Option<Vec<&str>>, index: i32, font_style: FontStyle, foreground: Option<&str>, background: Option<&str>) -> ParsedThemeRule {
    ParsedThemeRule {
        scope: scope.to_owned(),
        parent_scopes: parent_scopes.map(|ps| ps.into_iter().map(str::to_owned).collect()),
        index,
        font_style,
        foreground: foreground.map(str::to_owned),
        background: background.map(str::to_owned),
        font_family: String::new(),
        font_size: 0,
        line_height: 0,
    }
}

#[test]
fn parses_upstream_theme_rules_and_ignores_invalid_colors() {
    let source = RawTheme {
        settings: vec![
            setting(None, style(None, Some("#F8F8F2"), Some("#272822"))),
            setting(string_scope("source, something"), style(None, None, Some("#100000"))),
            setting(
                Some(RawThemeScope::Array(vec!["bar".to_owned(), "baz".to_owned()])),
                style(None, None, Some("#010000")),
            ),
            setting(string_scope("source.css selector bar"), style(Some("bold"), None, None)),
            setting(string_scope("constant.numeric.bin"), style(Some("bold strikethrough"), None, None)),
            setting(string_scope("variable.parameter"), style(Some("italic"), Some(""), None)),
        ],
        ..RawTheme::default()
    };

    assert_eq!(
        parse_theme(Some(&source)),
        vec![
            rule("", None, 0, FontStyle::not_set(), Some("#F8F8F2"), Some("#272822")),
            rule("source", None, 1, FontStyle::not_set(), None, Some("#100000")),
            rule("something", None, 1, FontStyle::not_set(), None, Some("#100000")),
            rule("bar", None, 2, FontStyle::not_set(), None, Some("#010000")),
            rule("baz", None, 2, FontStyle::not_set(), None, Some("#010000")),
            rule("bar", Some(vec!["selector", "source.css"]), 3, FontStyle::bold(), None, None),
            rule("constant.numeric.bin", None, 4, FontStyle::bold() | FontStyle::strikethrough(), None, None),
            rule("variable.parameter", None, 5, FontStyle::italic(), None, None),
        ]
    );
}

#[test]
fn strips_trailing_commas_from_multiline_scope_selectors() {
    let source = RawTheme {
        settings: vec![setting(
            string_scope("meta.at-rule.return.scss,\nmeta.at-rule.return.scss punctuation.definition,"),
            style(None, Some("#CC7832"), None),
        )],
        ..RawTheme::default()
    };

    let parsed = parse_theme(Some(&source));
    assert_eq!(parsed.len(), 2);
    assert_eq!(parsed[0].scope, "meta.at-rule.return.scss");
    assert_eq!(parsed[0].parent_scopes, None);
    assert_eq!(parsed[1].scope, "punctuation.definition");
    assert_eq!(parsed[1].parent_scopes, Some(vec!["meta.at-rule.return.scss".to_owned()]));
}

#[test]
fn matches_upstream_inheritance_and_not_set_cases() {
    let theme = theme(vec![
        setting(None, style(None, Some("#F8F8F2"), Some("#272822"))),
        setting(string_scope("source, something"), style(None, None, Some("#100000"))),
        setting(
            Some(RawThemeScope::Array(vec!["bar".to_owned(), "baz".to_owned()])),
            style(None, None, Some("#200000")),
        ),
        setting(string_scope("source.css selector bar"), style(Some("bold"), None, None)),
        setting(string_scope("constant"), style(Some("italic"), Some("#300000"), None)),
        setting(string_scope("constant.numeric"), style(None, Some("#400000"), None)),
        setting(string_scope("constant.numeric.hex"), style(Some("bold"), None, None)),
        setting(string_scope("constant.numeric.oct"), style(Some("bold italic underline"), None, None)),
        setting(string_scope("constant.numeric.dec"), style(Some(""), Some("#500000"), None)),
        setting(string_scope("storage.object.bar"), style(Some(""), Some("#600000"), None)),
    ]);

    let cases = [
        (vec!["source.ts"], ("not set", None, Some("#100000"))),
        (vec!["constant.string"], ("italic", Some("#300000"), None)),
        (vec!["constant.numeric"], ("italic", Some("#400000"), None)),
        (vec!["constant.numeric.hex.baz"], ("bold", Some("#400000"), None)),
        (vec!["constant.numeric.oct"], ("italic bold underline", Some("#400000"), None)),
        (vec!["constant.numeric.dec.baz"], ("none", Some("#500000"), None)),
        (vec!["storage.object.bart"], ("not set", None, None)),
        (vec!["source.css", "selector", "bar"], ("bold", None, Some("#200000"))),
    ];

    for (path, (font_style, foreground, background)) in cases {
        let actual = match_theme(&theme, &path);
        assert_eq!(actual.0, font_style, "{path:?}");
        assert_eq!(actual.1.as_deref(), foreground, "{path:?}");
        assert_eq!(actual.2.as_deref(), background, "{path:?}");
    }
}

#[test]
fn gives_deeper_scope_matches_priority() {
    let theme = theme(vec![
        setting(None, style(None, Some("#100000"), Some("#200000"))),
        setting(string_scope("punctuation.definition.string.begin.html"), style(None, Some("#300000"), None)),
        setting(string_scope("meta.tag punctuation.definition.string"), style(None, Some("#400000"), None)),
    ]);

    assert_eq!(match_theme(&theme, &["punctuation.definition.string.begin.html"]).1, Some("#300000".to_owned()));
}

#[test]
fn gives_deeper_parent_scopes_priority() {
    let theme = theme(vec![
        setting(None, style(None, Some("#100000"), None)),
        setting(string_scope("y.z a.b"), style(None, Some("#200000"), None)),
        setting(string_scope("x y a.b"), style(None, Some("#300000"), None)),
    ]);

    assert_eq!(match_theme(&theme, &["x", "y", "a.b"]).1, Some("#300000".to_owned()));
    assert_eq!(match_theme(&theme, &["x", "y.z", "a.b"]).1, Some("#200000".to_owned()));
}

#[test]
fn matches_parent_scopes_and_child_combinators() {
    let theme = theme(vec![
        setting(None, style(None, Some("#100000"), None)),
        setting(string_scope("b a"), style(None, Some("#200000"), None)),
        setting(string_scope("b > a"), style(None, Some("#300000"), None)),
        setting(string_scope("c > b > a"), style(None, Some("#400000"), None)),
        setting(string_scope("a"), style(None, Some("#500000"), None)),
    ]);

    let cases = [
        (vec!["b", "a"], "#300000"),
        (vec!["b", "c", "a"], "#200000"),
        (vec!["c", "b", "a"], "#400000"),
        (vec!["c", "b", "d", "a"], "#200000"),
    ];
    for (path, expected) in cases {
        assert_eq!(match_theme(&theme, &path).1, Some(expected.to_owned()), "{path:?}");
    }
}

#[test]
fn merges_defaults_and_same_parent_rules_in_source_order() {
    let theme = Theme::create_from_parsed_theme(
        vec![
            rule("", None, -1, FontStyle::not_set(), None, Some("#ff0000")),
            rule("", None, 0, FontStyle::bold(), Some("#00ff00"), None),
            rule("var", None, 1, FontStyle::bold(), Some("#100000"), None),
            rule("var", Some(vec!["source.css"]), 2, FontStyle::italic(), Some("#300000"), None),
            rule("var", Some(vec!["source.css"]), 3, FontStyle::underline(), None, None),
        ],
        None,
    )
    .unwrap();

    assert_eq!(theme.get_defaults().font_style, FontStyle::bold());
    let colors = theme.get_color_map();
    assert_eq!(colors[theme.get_defaults().foreground_id as usize], "#00FF00");
    assert_eq!(colors[theme.get_defaults().background_id as usize], "#FF0000");

    let stack = ScopeStack::from(&["source.css", "var"]).unwrap();
    let result = theme.match_scope(Some(&stack)).unwrap();
    assert_eq!(result.font_style, FontStyle::underline());
    assert_eq!(colors[result.foreground_id as usize], "#300000");
}

#[test]
fn a_frozen_color_map_refuses_colors_it_lacks() {
    let source = RawTheme { settings: vec![setting(None, style(None, Some("#abcdef"), Some("#000000")))], ..RawTheme::default() };
    let frozen = vec!["".to_owned(), "#ABCDEF".to_owned(), "#000000".to_owned()];
    let theme = Theme::create_from_raw_theme(Some(&source), Some(frozen.clone())).expect("theme");
    assert_eq!(theme.get_defaults().foreground_id, 1);
    assert_eq!(theme.get_defaults().background_id, 2);
    assert_eq!(theme.get_color_map(), frozen);

    let missing = Theme::create_from_raw_theme(Some(&source), Some(vec!["".to_owned(), "#ABCDEF".to_owned()]));
    assert_eq!(missing.err(), Some(ThemeError::MissingFrozenColor("#000000".to_owned())));
}

#[test]
fn unmatched_paths_and_missing_paths() {
    let theme = theme(vec![setting(string_scope("a b"), style(None, Some("#111111"), None))]);
    // the root rule matches any path; without a path the defaults come back
    assert_eq!(match_theme(&theme, &["x"]).0, "not set");
    let defaults = theme.match_scope(None).unwrap();
    assert_eq!(&defaults, theme.get_defaults());
    assert_eq!(theme.get_color_map(), vec!["".to_owned(), "#000000".to_owned(), "#FFFFFF".to_owned(), "#111111".to_owned()]);
    // a rule needing parent `a` does not match a path without it, and the
    // root rule still does
    assert_eq!(match_theme(&theme, &["c", "b"]).1, None);
    assert_eq!(match_theme(&theme, &["a", "b"]).1, Some("#111111".to_owned()));
}
