use ferriki::json::JsonValue;
use ferriki::theme::RawThemeScope;
use ferriki::theme_data::{flattened_font_style, parse_scope, parse_settings, parse_theme_data};

#[test]
fn preserves_textmate_settings_and_derives_editor_colors() {
    let theme = parse_theme_data(
        "demo",
        r##"{
            "name": "demo",
            "type": "light",
            "colors": {
                "editor.foreground": "#112233",
                "editor.background": "#fefefe"
            },
            "tokenColors": [{
                "scope": "keyword",
                "settings": {
                    "foreground": "#aabbcc",
                    "fontStyle": "bold italic"
                }
            }]
        }"##,
    )
    .expect("theme");

    assert_eq!(theme.foreground, "#112233");
    assert_eq!(theme.background, "#fefefe");
    assert_eq!(theme.raw_theme.settings.len(), 2);
    assert_eq!(theme.raw_theme.settings[1].scope, Some(RawThemeScope::String("keyword".to_owned())));
    assert_eq!(
        theme.raw_theme.settings[1].settings.as_ref().and_then(|style| style.font_style.as_deref()),
        Some("bold italic")
    );
}

#[test]
fn uses_shiki_fallback_colors_for_sparse_themes() {
    let light = parse_theme_data("light", r#"{"type":"light"}"#).expect("light");
    let dark = parse_theme_data("dark", r#"{}"#).expect("dark");

    assert_eq!(light.foreground, "#333333");
    assert_eq!(light.background, "#fffffe");
    assert_eq!(dark.foreground, "#bbbbbb");
    assert_eq!(dark.background, "#1e1e1e");
}

#[test]
fn theme_data_takes_the_id_as_name_and_puts_the_editor_setting_first() {
    let theme = parse_theme_data("fallback-id", r##"{"fg": "#010203", "bg": "#040506"}"##).expect("theme");
    assert_eq!(theme.name, "fallback-id");
    assert_eq!(theme.raw_theme.name.as_deref(), Some("fallback-id"));
    assert_eq!(theme.raw_theme.settings.len(), 1);
    let style = theme.raw_theme.settings[0].settings.as_ref().expect("style");
    assert_eq!(style.foreground.as_deref(), Some("#010203"));
    assert_eq!(style.background.as_deref(), Some("#040506"));
    assert_eq!(theme.raw_theme.settings[0].scope, None);
}

#[test]
fn theme_data_reads_colors_from_the_global_setting() {
    let theme = parse_theme_data(
        "g",
        r##"{"settings": [{"settings": {"foreground": "#aaaaaa", "background": "#bbbbbb"}},
                          {"scope": ["a", "b"], "settings": {"fontStyle": "bold"}}]}"##,
    )
    .expect("theme");
    assert_eq!(theme.foreground, "#aaaaaa");
    assert_eq!(theme.background, "#bbbbbb");
    assert_eq!(theme.raw_theme.settings.len(), 2);
    assert_eq!(
        theme.raw_theme.settings[1].scope,
        Some(RawThemeScope::Array(vec!["a".to_owned(), "b".to_owned()]))
    );
}

#[test]
fn theme_data_reports_invalid_json_and_non_objects() {
    let err = parse_theme_data("x", "{").unwrap_err();
    assert!(err.starts_with("Failed to parse theme JSON: "));
    let err = parse_theme_data("x", "[1]").unwrap_err();
    assert_eq!(err, "Theme registration must be a JSON object.");
}

#[test]
fn theme_data_rejects_settings_with_fields_of_the_wrong_type() {
    let err = parse_theme_data("x", r#"{"tokenColors": [{"scope": 3, "settings": {}}]}"#).unwrap_err();
    assert!(err.starts_with("Failed to parse TextMate theme setting: "));
    let err = parse_theme_data("x", r#"{"tokenColors": [{"settings": {"fontSize": "big"}}]}"#).unwrap_err();
    assert!(err.starts_with("Failed to parse TextMate theme setting: "));
    let err = parse_theme_data("x", r#"{"tokenColors": [{"scope": ["a", 1], "settings": null}]}"#).unwrap_err();
    assert!(err.starts_with("Failed to parse TextMate theme setting: "));
}

#[test]
fn flat_token_colors_keep_what_has_the_right_type() {
    let theme = JsonValue::parse(
        r##"{"tokenColors": "none", "settings": [
            {"name": "n", "scope": ["x", 2, "y"], "fontStyle": 5, "foreground": "#123456",
             "fontSize": 14, "lineHeight": "tall"},
            3,
            {"scope": 7, "fontStyle": "bold"}
        ]}"##,
    )
    .expect("json");
    let settings = parse_settings(&theme).expect("settings");
    assert_eq!(settings.len(), 2);
    assert_eq!(settings[0].name.as_deref(), Some("n"));
    assert_eq!(settings[0].scope, Some(RawThemeScope::Array(vec!["x".to_owned(), "y".to_owned()])));
    let style = settings[0].settings.as_ref().expect("style");
    assert_eq!(style.font_style.as_deref(), Some("italic underline"));
    assert_eq!(style.foreground.as_deref(), Some("#123456"));
    assert_eq!(style.font_size, Some(14.0f64.to_bits()));
    assert_eq!(style.line_height, None);
    assert_eq!(settings[1].scope, None);
    assert_eq!(settings[1].settings.as_ref().and_then(|s| s.font_style.clone()), None);
}

#[test]
fn a_style_may_be_an_array_of_its_six_fields() {
    let theme = JsonValue::parse(
        r##"{"tokenColors": [{"settings": ["italic", "#111111", null, "Mono", 1.5, null]}]}"##,
    )
    .expect("json");
    let settings = parse_settings(&theme).expect("settings");
    let style = settings[0].settings.as_ref().expect("style");
    assert_eq!(style.font_style.as_deref(), Some("italic"));
    assert_eq!(style.foreground.as_deref(), Some("#111111"));
    assert_eq!(style.background, None);
    assert_eq!(style.font_family.as_deref(), Some("Mono"));
    assert_eq!(style.font_size, Some(1.5f64.to_bits()));
    let short = JsonValue::parse(r##"{"tokenColors": [{"settings": ["italic"]}]}"##).expect("json");
    assert!(parse_settings(&short).is_err());
}

#[test]
fn font_style_bits_are_named_in_order() {
    let all = JsonValue::parse("15").expect("json");
    assert_eq!(flattened_font_style(Some(&all)).as_deref(), Some("italic bold underline strikethrough"));
    let none = JsonValue::parse("0").expect("json");
    assert_eq!(flattened_font_style(Some(&none)).as_deref(), Some(""));
    let text = JsonValue::parse("\"bold\"").expect("json");
    assert_eq!(flattened_font_style(Some(&text)), None);
    assert_eq!(flattened_font_style(None), None);
}

#[test]
fn loose_scopes_are_strings_or_arrays_of_strings() {
    let s = JsonValue::parse("\"a.b\"").expect("json");
    assert_eq!(parse_scope(Some(&s)), Some(RawThemeScope::String("a.b".to_owned())));
    let n = JsonValue::parse("1").expect("json");
    assert_eq!(parse_scope(Some(&n)), None);
}
