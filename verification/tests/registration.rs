use ferriki::json::JsonValue;
use ferriki::registration::{parse_grammar_registration, parse_string_array, parse_theme_registration};

#[test]
fn grammar_registration_takes_the_grammar_member_and_fills_in_the_scope_name() {
    let reg = parse_grammar_registration(
        r##"{"scopeName": "source.demo", "aliases": ["dm"], "injectTo": ["text.html", 3],
            "grammar": {"name": "demo", "patterns": []}}"##,
    )
    .expect("registration");
    assert_eq!(reg.scope_name, "source.demo");
    assert!(reg.has_explicit_grammar);
    assert_eq!(reg.aliases, vec!["dm".to_owned()]);
    assert_eq!(reg.inject_to, vec!["text.html".to_owned()]);
    assert_eq!(reg.grammar.get("scopeName").and_then(|v| v.as_str()), Some("source.demo"));
    assert_eq!(reg.grammar.get("name").and_then(|v| v.as_str()), Some("demo"));
    match &reg.grammar {
        JsonValue::Object(members) => {
            let keys: Vec<&str> = members.iter().map(|(k, _)| k.as_str()).collect();
            assert_eq!(keys, vec!["name", "patterns", "scopeName"]);
        }
        other => panic!("unexpected grammar {:?}", other),
    }
}

#[test]
fn grammar_registration_can_be_the_grammar_itself() {
    let reg = parse_grammar_registration(r##"{"scopeName": "source.x", "fileTypes": ["x"]}"##).expect("registration");
    assert!(!reg.has_explicit_grammar);
    assert!(reg.aliases.is_empty());
    assert_eq!(reg.grammar.get("fileTypes").is_some(), true);

    // the grammar's own scope name and aliases are used where the payload has none
    let reg = parse_grammar_registration(r##"{"grammar": {"scopeName": "source.y", "aliases": ["yy", 1]}}"##)
        .expect("registration");
    assert_eq!(reg.scope_name, "source.y");
    assert_eq!(reg.aliases, vec!["yy".to_owned()]);
}

#[test]
fn grammar_registration_reports_each_error() {
    let err = parse_grammar_registration("{").err().expect("error");
    assert!(err.starts_with("Failed to parse grammar registration JSON: "));
    assert_eq!(
        parse_grammar_registration("[]").err().as_deref(),
        Some("Grammar registration payload must be an object.")
    );
    assert_eq!(
        parse_grammar_registration(r##"{"patterns": []}"##).err().as_deref(),
        Some("Grammar registration requires `scopeName`.")
    );
    assert_eq!(
        parse_grammar_registration(r##"{"scopeName": "a", "grammar": 4}"##).err().as_deref(),
        Some("Grammar registration `grammar` must be an object.")
    );
}

#[test]
fn theme_registration_reads_name_colors_and_rules() {
    let theme = parse_theme_registration(
        r##"{"name": "t", "fg": "#abcdef", "bg": "#000000",
            "settings": [{"scope": ["a b", 5, "c"], "foreground": "#ff00aa", "fontStyle": 258}, "skip", {}]}"##,
    )
    .expect("theme");
    assert_eq!(theme.name, "t");
    assert_eq!(theme.fg, "#abcdef");
    assert_eq!(theme.fg_normalized, "#ABCDEF");
    assert_eq!(theme.bg, "#000000");
    assert_eq!(theme.settings.len(), 2);
    assert_eq!(theme.settings[0].scopes, vec!["a b".to_owned(), "c".to_owned()]);
    assert_eq!(theme.settings[0].scope_parts[0], vec!["a".to_owned(), "b".to_owned()]);
    assert_eq!(theme.settings[0].foreground.as_deref(), Some("#FF00AA"));
    // the style number is cut to its low eight bits
    assert_eq!(theme.settings[0].font_style, 2);
    assert!(theme.settings[1].scopes.is_empty());
    assert!(theme.settings[1].foreground.is_none());
    assert_eq!(theme.settings[1].font_style, 0);
}

#[test]
fn theme_registration_reports_each_error_and_defaults_colors() {
    assert!(parse_theme_registration("nope").err().expect("error").starts_with("Failed to parse theme registration JSON: "));
    assert_eq!(parse_theme_registration("1").err().as_deref(), Some("Theme registration payload must be an object."));
    assert_eq!(parse_theme_registration("{}").err().as_deref(), Some("Theme registration requires `name`."));
    let theme = parse_theme_registration(r##"{"name": "bare"}"##).expect("theme");
    assert_eq!(theme.fg, "");
    assert_eq!(theme.bg, "");
    assert!(theme.settings.is_empty());
}

#[test]
fn string_arrays_keep_only_strings() {
    let v = JsonValue::parse(r##"["a", 1, null, "b"]"##).expect("json");
    assert_eq!(parse_string_array(Some(&v)), vec!["a".to_owned(), "b".to_owned()]);
    let not_array = JsonValue::parse(r##""a""##).expect("json");
    assert!(parse_string_array(Some(&not_array)).is_empty());
    assert!(parse_string_array(None).is_empty());
}
