use ferriki::theme_style::{
    normalize_hex_color, parse_scope_list, resolve_token_style, scope_component_matches,
    selector_matches_presplit, ThemeData, ThemeRule,
};

#[test]
fn test_scope_component_matches_exact() {
    assert!(scope_component_matches("comment", "comment"));
}

#[test]
fn test_scope_component_matches_prefix() {
    assert!(scope_component_matches("comment", "comment.line"));
    assert!(scope_component_matches("keyword", "keyword.control.ts"));
}

#[test]
fn test_scope_component_no_partial() {
    assert!(!scope_component_matches("key", "keyword"));
    assert!(!scope_component_matches("comment.l", "comment.line"));
}

fn selector_matches(selector: &str, scope_stack: &[&str]) -> Option<usize> {
    let parts = parse_scope_list(selector);
    selector_matches_presplit(&parts, scope_stack)
}

#[test]
fn test_selector_matches_single() {
    let stack = vec!["source.ts", "keyword.control.ts"];
    assert!(selector_matches("keyword", &stack).is_some());
    assert!(selector_matches("keyword.control", &stack).is_some());
    assert!(selector_matches("keyword.control.ts", &stack).is_some());
    assert!(selector_matches("string", &stack).is_none());
}

#[test]
fn test_selector_matches_ancestor_chain() {
    let stack = vec!["source.ts", "meta.block.ts", "keyword.control.ts"];
    assert!(selector_matches("source.ts keyword.control", &stack).is_some());
    assert!(selector_matches("meta.block keyword.control", &stack).is_some());
    assert!(selector_matches("source.ts meta.block keyword.control", &stack).is_some());
    assert!(selector_matches("string keyword.control", &stack).is_none());
}

#[test]
fn test_selector_specificity_longer_wins() {
    let stack = vec!["source.ts", "comment.line.ts"];
    let score1 = selector_matches("comment", &stack).unwrap();
    let score2 = selector_matches("comment.line", &stack).unwrap();
    assert!(score2 > score1);
}

#[test]
fn selector_score_is_the_byte_length_of_its_parts() {
    let stack = vec!["source.ts", "meta.block.ts", "keyword.control.ts"];
    assert_eq!(selector_matches("meta keyword", &stack), Some(11));
    assert_eq!(selector_matches("keyword.control.ts", &stack), Some(18));
    // parts must match enclosing scopes in order
    assert_eq!(selector_matches("meta.block source.ts keyword", &stack), None);
    assert_eq!(selector_matches("", &stack), None);
    assert_eq!(selector_matches("keyword", &[]), None);
}

#[test]
fn scope_lists_split_at_any_white_space() {
    assert_eq!(parse_scope_list("  a.b\tc \n d  "), vec!["a.b", "c", "d"]);
    assert!(parse_scope_list(" \u{a0} ").is_empty());
}

#[test]
fn colors_are_normalized_to_upper_case() {
    assert_eq!(normalize_hex_color("#ff00aa"), "#FF00AA");
    assert_eq!(normalize_hex_color("#FFffFF80"), "#FFFFFF80");
}

#[test]
fn test_resolve_token_style_basic() {
    let theme = ThemeData {
        name: "test".to_owned(),
        fg: "#ffffff".to_owned(),
        fg_normalized: "#FFFFFF".to_owned(),
        bg: "#000000".to_owned(),
        settings: vec![
            ThemeRule::new(vec![], Some("#ffffff".to_owned()), 0),
            ThemeRule::new(vec!["comment".to_owned()], Some("#666666".to_owned()), 1),
            ThemeRule::new(vec!["keyword".to_owned()], Some("#ff0000".to_owned()), 0),
        ],
    };

    let style = resolve_token_style(&["source.ts", "comment.line.ts"], &theme);
    assert_eq!(style.foreground.as_deref(), Some("#666666"));
    assert_eq!(style.font_style, 1);

    let style2 = resolve_token_style(&["source.ts", "keyword.control.ts"], &theme);
    assert_eq!(style2.foreground.as_deref(), Some("#FF0000"));

    let style3 = resolve_token_style(&["source.ts", "variable.other.ts"], &theme);
    assert_eq!(style3.foreground.as_deref(), Some("#FFFFFF"));
}

#[test]
fn test_resolve_token_style_specificity() {
    let theme = ThemeData {
        name: "test".to_owned(),
        fg: "#ffffff".to_owned(),
        fg_normalized: "#FFFFFF".to_owned(),
        bg: "#000000".to_owned(),
        settings: vec![
            ThemeRule::new(vec!["string".to_owned()], Some("#aaaaaa".to_owned()), 0),
            ThemeRule::new(vec!["string.quoted".to_owned()], Some("#bbbbbb".to_owned()), 0),
            ThemeRule::new(vec!["string.quoted.double".to_owned()], Some("#cccccc".to_owned()), 0),
        ],
    };

    let style = resolve_token_style(&["source.ts", "string.quoted.double.ts"], &theme);
    assert_eq!(style.foreground.as_deref(), Some("#CCCCCC"));
}

#[test]
fn a_rule_without_color_keeps_the_color_chosen_before() {
    let theme = ThemeData {
        name: "test".to_owned(),
        fg: "#ffffff".to_owned(),
        fg_normalized: "#FFFFFF".to_owned(),
        bg: "#000000".to_owned(),
        settings: vec![
            ThemeRule::new(vec!["string".to_owned()], Some("#aaaaaa".to_owned()), 0),
            ThemeRule::new(vec!["string.quoted".to_owned()], None, 2),
        ],
    };
    let style = resolve_token_style(&["source.ts", "string.quoted.ts"], &theme);
    assert_eq!(style.foreground.as_deref(), Some("#AAAAAA"));
    assert_eq!(style.font_style, 2);
}
