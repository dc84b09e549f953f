use ferriki::theme_cache::{
    resolve_color_for_scope_stack_owned, resolve_color_with_extra_scope, scope_hash_owned,
    scope_hash_with_extra_owned, ThemeCache,
};
use ferriki::theme_style::{ThemeData, ThemeRule};

fn theme() -> ThemeData {
    ThemeData {
        name: "test".to_owned(),
        fg: "#ffffff".to_owned(),
        fg_normalized: "#FFFFFF".to_owned(),
        bg: "#000000".to_owned(),
        settings: vec![
            ThemeRule::new(vec!["comment".to_owned()], Some("#666666".to_owned()), 1),
            ThemeRule::new(vec!["keyword".to_owned()], None, 2),
        ],
    }
}

fn fnv(parts: &[(&str, u8)], len: usize) -> u64 {
    let mut h: u64 = 0xcbf29ce484222325;
    h ^= len as u64;
    h = h.wrapping_mul(0x100000001b3);
    for (s, sep) in parts {
        for b in s.as_bytes() {
            h ^= *b as u64;
            h = h.wrapping_mul(0x100000001b3);
        }
        h ^= *sep as u64;
        h = h.wrapping_mul(0x100000001b3);
    }
    h
}

fn strings(v: &[&str]) -> Vec<String> {
    v.iter().map(|s| s.to_string()).collect()
}

#[test]
fn scope_hashes_are_fnv_over_lengths_bytes_and_separators() {
    let stack = strings(&["source.ts", "comment.line"]);
    assert_eq!(scope_hash_owned(&stack), fnv(&[("source.ts", 0xff), ("comment.line", 0xff)], 2));
    assert_eq!(scope_hash_owned(&[]), fnv(&[], 0));
    let extra = strings(&["string"]);
    assert_eq!(
        scope_hash_with_extra_owned(&stack, &extra),
        fnv(&[("source.ts", 0xff), ("comment.line", 0xff), ("string", 0xfe)], 3)
    );
    assert_ne!(scope_hash_owned(&strings(&["a", "b"])), scope_hash_owned(&strings(&["ab"])));
}

#[test]
fn colors_come_from_the_theme_or_its_default_foreground() {
    let theme = theme();
    let mut cache = ThemeCache::new();
    let (color, style) = resolve_color_for_scope_stack_owned(&strings(&["source.ts", "comment.line"]), &theme, &mut cache);
    assert_eq!((color.as_str(), style), ("#666666", 1));
    let (color, style) = resolve_color_for_scope_stack_owned(&strings(&["source.ts", "keyword"]), &theme, &mut cache);
    assert_eq!((color.as_str(), style), ("#FFFFFF", 2));
    let (color, style) = resolve_color_with_extra_scope(&strings(&["source.ts"]), " x  comment.block ", &theme, &mut cache);
    assert_eq!((color.as_str(), style), ("#666666", 1));
}

#[test]
fn the_cache_gives_back_what_it_stored() {
    let theme = theme();
    let mut cache = ThemeCache::new();
    let stack = strings(&["source.ts", "comment.line"]);
    let first = cache.resolve_owned(&stack, &theme);
    let again = cache.resolve_owned(&stack, &theme);
    assert_eq!(first.foreground, again.foreground);
    assert_eq!(first.font_style, again.font_style);
}
