use ferriki::tokens::{split_lines, utf16_to_byte_map, TokenizeOptions};

#[test]
fn splits_crlf_lines_with_global_utf16_offsets() {
    assert_eq!(split_lines("😀a\r\nb\n"), vec![("😀a", 0), ("b", 5), ("", 7)]);
}

#[test]
fn maps_utf16_offsets_to_utf8_boundaries() {
    assert_eq!(utf16_to_byte_map("a😀b"), vec![0, 1, 1, 5, 6]);
}

#[test]
fn splits_empty_and_unterminated_input() {
    assert_eq!(split_lines(""), vec![("", 0)]);
    assert_eq!(split_lines("abc"), vec![("abc", 0)]);
    assert_eq!(split_lines("\r\n"), vec![("", 0), ("", 2)]);
    assert_eq!(split_lines("é\nx"), vec![("é", 0), ("x", 2)]);
}

#[test]
fn maps_multibyte_characters() {
    assert_eq!(utf16_to_byte_map(""), vec![0]);
    assert_eq!(utf16_to_byte_map("é€"), vec![0, 2, 5]);
}

#[test]
fn tokenize_options_have_defaults() {
    let options = TokenizeOptions::new();
    assert_eq!(options.time_limit_millis, 500);
    assert_eq!(options.max_line_length, 0);
    assert!(!options.include_token_type);
}
