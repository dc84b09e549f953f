use ferriki::captures::{escape_reg_exp_characters, replace_captures, replace_numeric_back_references, CaptureIndex};
use ferriki::regexp::{has_captures, RegExpSource};

#[test]
fn resolves_and_escapes_numeric_back_references() {
    let source = RegExpSource::new(r"end-\1-\12", 1_u32);
    let line = "💻 a.b";
    let captures = vec![
        CaptureIndex { start: 0, end: 6, length: 6 },
        CaptureIndex { start: 3, end: 6, length: 3 },
    ];

    assert!(source.has_back_references);
    assert_eq!(source.resolve_back_references(line, &captures), r"end-a\.b-");
}

#[test]
fn replaces_name_capture_placeholders() {
    let capture = CaptureIndex { start: 0, end: 8, length: 8 };
    assert!(has_captures(Some("entity.${0:/downcase}.$0.${0:/upcase}")));
    assert!(!has_captures(Some("entity.name")));
    assert_eq!(
        replace_captures("entity.${0:/downcase}.$0.${0:/upcase}", ".Foo.Bar", &[capture]),
        "entity.foo.bar.Foo.Bar.FOO.BAR"
    );
}

#[test]
fn placeholders_for_missing_captures_stay() {
    let capture = CaptureIndex { start: 0, end: 3, length: 3 };
    assert_eq!(replace_captures("a.$1.${2:/upcase}.b", "xyz", &[capture]), "a.$1.${2:/upcase}.b");
    assert_eq!(replace_captures("a.$0", "xyz", &[capture]), "a.xyz");
}

#[test]
fn regexp_characters_are_escaped() {
    assert_eq!(escape_reg_exp_characters("a.b*c"), r"a\.b\*c");
    assert_eq!(escape_reg_exp_characters("x y\t#"), "x\\ y\\\t\\#");
    assert_eq!(escape_reg_exp_characters("plain"), "plain");
}

#[test]
fn back_references_use_utf16_offsets() {
    // the capture ends inside the surrogate pair of the emoji, which rounds up
    let captures = vec![CaptureIndex { start: 0, end: 1, length: 1 }];
    assert_eq!(replace_numeric_back_references(r"\0!", "💻x", &captures), "💻!");
    assert_eq!(replace_numeric_back_references(r"\\d \9", "x", &captures), r"\\d ");
}
