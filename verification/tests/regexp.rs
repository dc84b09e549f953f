use ferriki::regexp::{has_captures, has_line_start_anchor, normalize_ferroni_pattern, stabilize_ferroni_captures, RegExpSource};

#[test]
fn rewrites_end_anchor_and_resolves_a_and_g_anchors() {
    let source = RegExpSource::new(r"\Afoo\Gbar\z", 1_u32);
    assert_eq!(source.source, "\\Afoo\\Gbar$(?!\\n)(?<!\\n)");
    assert!(source.has_anchor);
    assert_eq!(source.resolve_anchors(false, false), "\\\u{ffff}foo\\\u{ffff}bar$(?!\\n)(?<!\\n)");
    assert_eq!(source.resolve_anchors(false, true), "\\\u{ffff}foo\\Gbar$(?!\\n)(?<!\\n)");
    assert_eq!(source.resolve_anchors(true, false), "\\Afoo\\\u{ffff}bar$(?!\\n)(?<!\\n)");
    assert_eq!(source.resolve_anchors(true, true), "\\Afoo\\Gbar$(?!\\n)(?<!\\n)");

    let unicode_escape = RegExpSource::new("\\é\\A", 2_u32);
    assert_eq!(unicode_escape.resolve_anchors(true, false), "\\é\\A");
}

#[test]
fn sources_without_anchors_resolve_to_themselves() {
    let source = RegExpSource::new(r"a\\z\d", 3_u32);
    assert_eq!(source.source, r"a\\z\d");
    assert!(!source.has_anchor);
    assert!(!source.has_back_references);
    assert_eq!(source.resolve_anchors(false, false), r"a\\z\d");
    assert_eq!(source.rule_id, 3);
}

#[test]
fn detects_numeric_back_references() {
    assert!(RegExpSource::new(r"end-\1-\12", 1_u32).has_back_references);
    assert!(!RegExpSource::new(r"end-\w", 1_u32).has_back_references);
}

#[test]
fn set_source_rebuilds_anchor_variants() {
    let mut source = RegExpSource::new(r"\Gx", 1_u32);
    source.set_source(r"\Gy");
    assert_eq!(source.source, r"\Gy");
    assert_eq!(source.resolve_anchors(false, false), "\\\u{ffff}y");
    assert_eq!(source.resolve_anchors(false, true), r"\Gy");

    let mut plain = RegExpSource::new("x", 1_u32);
    plain.set_source(r"\Gy");
    assert_eq!(plain.resolve_anchors(false, false), r"\Gy");
}

#[test]
fn escapes_invalid_interval_braces_for_ferroni() {
    assert_eq!(normalize_ferroni_pattern(r"(:)\s*(?!(\s*{))"), r"(:)\s*(?!(\s*\{))");
    for pattern in [r"a{1}", r"a{1,}", r"a{1,3}", r"a{,3}", r"\p{Greek}", r"\x{20}", r"[{}]", r"(?{callout})"] {
        assert_eq!(normalize_ferroni_pattern(pattern), pattern);
    }
    assert_eq!(normalize_ferroni_pattern("a{,}"), r"a\{,}");
    assert_eq!(normalize_ferroni_pattern("{x}"), r"\{x}");
}

#[test]
fn detects_line_start_anchors_outside_classes() {
    assert!(has_line_start_anchor("^foo"));
    assert!(!has_line_start_anchor("[^a]"));
    assert!(!has_line_start_anchor(r"\^"));
    assert!(has_line_start_anchor("(?:x|^y)"));
}

#[test]
fn replaces_name_capture_placeholders_detection() {
    assert!(has_captures(Some("entity.${0:/downcase}.$0.${0:/upcase}")));
    assert!(!has_captures(Some("entity.name")));
    assert!(has_captures(Some("entity.$12")));
    assert!(!has_captures(Some("${1:/other}")));
    assert!(has_captures(Some("${1:/upcase}")));
    assert!(!has_captures(None));
    assert!(!has_captures(Some("$99999999999999999999999999")));
}

#[test]
fn marks_every_capturing_group_with_an_empty_lookahead() {
    assert_eq!(stabilize_ferroni_captures("a(b)c"), "a((?=)b)c");
    assert_eq!(stabilize_ferroni_captures("(?<n>x)"), "(?<n>(?=)x)");
    assert_eq!(stabilize_ferroni_captures("(?'n'x)"), "(?'n'(?=)x)");
    assert_eq!(stabilize_ferroni_captures("(?P<n>x)"), "(?P<n>(?=)x)");
    assert_eq!(stabilize_ferroni_captures("(?<=a)(?:b)"), "(?<=a)(?:b)");
    assert_eq!(stabilize_ferroni_captures("[(]\\(x"), "[(]\\(x");
    assert_eq!(stabilize_ferroni_captures("(?<n"), "(?<n");
}
