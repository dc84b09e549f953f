use ferriki::captures::CaptureIndex;
use ferriki::tokenize::{
    escape_regex_literal, push_styled_slice, push_with_capture_ranges, resolve_capture_name_backrefs,
    resolve_capture_reference, resolve_pattern_backrefs, slice_bytes, CaptureRange, StyledJsonToken,
};
use ferriki::tokens::{token_from_metadata, utf16_to_byte_map};

fn cap(start: usize, end: usize) -> CaptureIndex {
    CaptureIndex { start, end, length: end - start }
}

#[test]
fn slices_text_on_character_boundaries_only() {
    let s = "a😀b";
    assert_eq!(slice_bytes(s, 0, 1).as_deref(), Some("a"));
    assert_eq!(slice_bytes(s, 1, 5).as_deref(), Some("😀"));
    assert_eq!(slice_bytes(s, 5, 5).as_deref(), Some(""));
    assert_eq!(slice_bytes(s, 2, 5), None);
    assert_eq!(slice_bytes(s, 5, 1), None);
    assert_eq!(slice_bytes(s, 0, 7), None);
}

#[test]
fn escapes_every_regex_metacharacter() {
    assert_eq!(escape_regex_literal("a.b*(c)|[d]{e}^$+?\\"), "a\\.b\\*\\(c\\)\\|\\[d\\]\\{e\\}\\^\\$\\+\\?\\\\");
    assert_eq!(escape_regex_literal("plain"), "plain");
}

#[test]
fn resolves_capture_references_by_utf16_offsets() {
    let code = "x😀yz";
    let map = utf16_to_byte_map(code);
    let caps = vec![cap(0, 5), cap(1, 3), cap(3, 3)];
    assert_eq!(resolve_capture_reference("1", &caps, &map, code).as_deref(), Some("😀"));
    assert_eq!(resolve_capture_reference("0", &caps, &map, code).as_deref(), Some("x😀yz"));
    assert_eq!(resolve_capture_reference("2", &caps, &map, code), None);
    assert_eq!(resolve_capture_reference("3", &caps, &map, code), None);
    assert_eq!(resolve_capture_reference("", &caps, &map, code), None);
    assert_eq!(resolve_capture_reference("99999999999999999999999", &caps, &map, code), None);
    let inside = vec![0usize, 2, 5];
    assert_eq!(resolve_capture_reference("0", &[cap(0, 1)], &inside, "x😀"), None);
}

#[test]
fn pattern_backrefs_are_replaced_by_escaped_captures() {
    let code = "<a.b>";
    let map = utf16_to_byte_map(code);
    let caps = vec![cap(0, 5), cap(1, 4)];
    assert_eq!(resolve_pattern_backrefs("</\\1>", &caps, &map, code), "</a\\.b>");
    assert_eq!(resolve_pattern_backrefs("\\w\\9x", &caps, &map, code), "\\wx");
    assert_eq!(resolve_pattern_backrefs("end\\", &caps, &map, code), "end\\");
}

#[test]
fn name_backrefs_take_plain_braced_and_transformed_forms() {
    let code = "Foo bar";
    let map = utf16_to_byte_map(code);
    let caps = vec![cap(0, 7), cap(0, 3), cap(4, 7)];
    assert_eq!(resolve_capture_name_backrefs("entity.$1.$2", &caps, &map, code), "entity.Foo.bar");
    assert_eq!(resolve_capture_name_backrefs("x.${1:/downcase}", &caps, &map, code), "x.foo");
    assert_eq!(resolve_capture_name_backrefs("x.${2:/upcase}", &caps, &map, code), "x.BAR");
    assert_eq!(resolve_capture_name_backrefs("x.${1}", &caps, &map, code), "x.Foo");
    assert_eq!(resolve_capture_name_backrefs("x.${1:/other}", &caps, &map, code), "x.Foo");
    assert_eq!(resolve_capture_name_backrefs("x.$9.${1", &caps, &map, code), "x.$9.${1");
    assert_eq!(resolve_capture_name_backrefs("cost$", &caps, &map, code), "cost$");
}

#[test]
fn name_backrefs_copy_other_bytes_as_latin1_characters() {
    let code = "a";
    let map = utf16_to_byte_map(code);
    let caps = vec![cap(0, 1)];
    assert_eq!(resolve_capture_name_backrefs("é", &caps, &map, code), "\u{c3}\u{a9}");
}

fn styled(content: &str, offset: usize, len: usize, color: &str, font_style: u8) -> StyledJsonToken {
    StyledJsonToken {
        content: content.to_owned(),
        content_utf16_len: len,
        offset_utf16: offset,
        color: color.to_owned(),
        font_style,
        dark_color: None,
    }
}

#[test]
fn styled_slices_skip_empty_ranges_and_fail_inside_characters() {
    let code = "a😀b";
    let map = utf16_to_byte_map(code);
    let mut out = Vec::new();
    push_styled_slice(&mut out, &map, code, 1, 3, "#fff", 1).unwrap();
    assert_eq!(out, vec![styled("😀", 1, 2, "#fff", 1)]);
    push_styled_slice(&mut out, &map, code, 3, 3, "#fff", 1).unwrap();
    push_styled_slice(&mut out, &map, code, 3, 9, "#fff", 1).unwrap();
    assert_eq!(out.len(), 1);
    let inside = vec![0usize, 2, 5];
    let err = push_styled_slice(&mut out, &inside, code, 0, 1, "#fff", 1).unwrap_err();
    assert_eq!(err, "Ferriki grammar tokenizer failed to slice source text.");
    assert_eq!(out.len(), 1);
}

#[test]
fn capture_ranges_split_a_match_in_order() {
    let code = "abcdefgh";
    let map = utf16_to_byte_map(code);
    let mut out = Vec::new();
    let ranges = vec![
        CaptureRange { start: 5, end: 7, color: "#2".to_owned(), font_style: 2 },
        CaptureRange { start: 1, end: 3, color: "#1".to_owned(), font_style: 1 },
        CaptureRange { start: 2, end: 4, color: "#3".to_owned(), font_style: 3 },
    ];
    push_with_capture_ranges(&mut out, &map, code, 0, 8, "#0", 0, ranges).unwrap();
    assert_eq!(
        out,
        vec![
            styled("a", 0, 1, "#0", 0),
            styled("bc", 1, 2, "#1", 1),
            styled("d", 3, 1, "#3", 3),
            styled("e", 4, 1, "#0", 0),
            styled("fg", 5, 2, "#2", 2),
            styled("h", 7, 1, "#0", 0),
        ]
    );
    let mut plain = Vec::new();
    push_with_capture_ranges(&mut plain, &map, code, 2, 4, "#0", 0, Vec::new()).unwrap();
    assert_eq!(plain, vec![styled("cd", 2, 2, "#0", 0)]);
}

#[test]
fn tokens_from_metadata_take_color_style_and_type() {
    let line = "let x";
    let map = utf16_to_byte_map(line);
    let colors = vec!["".to_owned(), "#111".to_owned(), "#222".to_owned()];
    let metadata: u32 = (2 << 15) | (1 << 11) | (2 << 8);
    let token = token_from_metadata(line, &map, 0..3, 10, metadata, &colors, true).expect("token");
    assert_eq!(token.content, "let");
    assert_eq!(token.offset, 10);
    assert_eq!(token.color, "#222");
    assert_eq!(token.font_style, 1);
    assert_eq!(token.token_type, Some(2));
    let unknown = token_from_metadata(line, &map, 3..5, 0, 9 << 15, &colors, false).expect("token");
    assert_eq!(unknown.content, " x");
    assert_eq!(unknown.color, "");
    assert_eq!(unknown.token_type, None);
    assert!(token_from_metadata(line, &map, 2..2, 0, 0, &colors, false).is_none());
    assert!(token_from_metadata(line, &map, 2..9, 0, 0, &colors, false).is_none());
}
