use ferriki::injection::{
    compile_selector, compile_selector_disjunct, parse_injection_clause_priority, parse_injection_term,
    scope_token_matches_scope, selector_disjunct_matches_compiled, selector_matches_compiled, split_selector_terms,
    split_top_level, CompiledSelectorExpr, InjectionPriority,
};

fn stack(items: &[&str]) -> Vec<String> {
    items.iter().map(|s| s.to_string()).collect()
}

#[test]
fn compiled_injection_selector_uses_full_scope_stack() {
    let selector = compile_selector("L:meta.tag -meta.attribute, L:meta.element -meta.attribute");
    let tag_stack = vec!["text.html.vue".to_owned(), "meta.tag".to_owned()];
    let attr_stack = vec![
        "text.html.vue".to_owned(),
        "meta.tag".to_owned(),
        "meta.attribute".to_owned(),
    ];
    let element_stack = vec!["text.html.vue".to_owned(), "meta.element".to_owned()];

    assert!(selector_matches_compiled(&selector, &tag_stack));
    assert!(selector_matches_compiled(&selector, &element_stack));
    assert!(!selector_matches_compiled(&selector, &attr_stack));
}

#[test]
fn clause_priorities_are_read_and_stripped() {
    assert_eq!(parse_injection_clause_priority("  L: source.js "), (InjectionPriority::Left, "source.js".to_owned()));
    assert_eq!(parse_injection_clause_priority("R:text"), (InjectionPriority::Right, "text".to_owned()));
    assert_eq!(parse_injection_clause_priority("L:B:x"), (InjectionPriority::Default, "x".to_owned()));
    assert_eq!(parse_injection_clause_priority("source.js"), (InjectionPriority::Default, "source.js".to_owned()));
}

#[test]
fn terms_lose_negations_and_brackets() {
    assert_eq!(parse_injection_term(" -comment "), (true, "comment".to_owned()));
    assert_eq!(parse_injection_term("!!string"), (false, "string".to_owned()));
    assert_eq!(parse_injection_term("(^meta)"), (false, "meta".to_owned()));
}

#[test]
fn splits_happen_outside_brackets_only() {
    assert_eq!(split_top_level("a, (b, c) ,, d", &[',']), vec!["a", "(b, c)", "d"]);
    assert_eq!(split_top_level("a | b", &['|']), vec!["a", "b"]);
    assert_eq!(split_selector_terms("a & b (c d) -e"), vec!["a", "b", "(c d)", "-e"]);
}

#[test]
fn bracketed_alternatives_compile_to_groups() {
    let disjunct = compile_selector_disjunct("text (string | comment) - meta").expect("compiles");
    assert_eq!(disjunct.terms.len(), 3);
    assert!(matches!(disjunct.terms[1].expr, CompiledSelectorExpr::AnyOf(ref b) if b.len() == 2));
    assert!(disjunct.terms[2].negate);
    assert!(selector_disjunct_matches_compiled(&disjunct, &stack(&["text.html", "comment.line"])));
    assert!(!selector_disjunct_matches_compiled(&disjunct, &stack(&["text.html", "comment.line", "meta.tag"])));
    assert!(!selector_disjunct_matches_compiled(&disjunct, &stack(&["text.html"])));
    assert!(compile_selector_disjunct("  ").is_none());
}

#[test]
fn scope_tokens_match_prefixes_and_wildcards() {
    assert!(scope_token_matches_scope("*", "anything"));
    assert!(scope_token_matches_scope("$self", "anything"));
    assert!(scope_token_matches_scope("meta", "meta.tag"));
    assert!(!scope_token_matches_scope("meta", "metadata"));
    assert!(!scope_token_matches_scope("", "meta"));
}
