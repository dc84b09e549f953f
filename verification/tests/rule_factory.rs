use ferriki::raw_grammar::{find_ref, initialize_grammar, GrammarProvider, GrammarStore, RawGrammar, RawRule};

fn sample() -> RawGrammar {
    let mut inner = RawRule::empty();
    inner.match_pattern = Some("a".to_owned());
    RawGrammar {
        rules: vec![inner],
        repository: vec![("$self".to_owned(), 0), ("word".to_owned(), 0)],
        scope_name: "source.sample".to_owned(),
        patterns: vec![0],
        injections: vec![],
        injection_selector: None,
        file_types: vec![],
        name: None,
        first_line_match: None,
        location: None,
    }
}

#[test]
fn self_and_base_name_the_grammar_itself_without_a_base() {
    let grammar = initialize_grammar(&sample(), None);
    assert_eq!(grammar.rules.len(), 2);
    assert_eq!(find_ref(&grammar.repository, "$self"), Some(1));
    assert_eq!(find_ref(&grammar.repository, "$base"), Some(1));
    assert_eq!(find_ref(&grammar.repository, "word"), Some(0));
    let self_rule = &grammar.rules[1];
    assert_eq!(self_rule.name.as_deref(), Some("source.sample"));
    assert_eq!(self_rule.patterns, Some(vec![0]));
    assert_eq!(grammar.rules[0].match_pattern.as_deref(), Some("a"));
}

#[test]
fn base_names_the_given_rule() {
    let mut base = RawRule::empty();
    base.name = Some("source.base".to_owned());
    let grammar = initialize_grammar(&sample(), Some(base));
    assert_eq!(grammar.rules.len(), 3);
    assert_eq!(find_ref(&grammar.repository, "$self"), Some(1));
    assert_eq!(find_ref(&grammar.repository, "$base"), Some(2));
    assert_eq!(grammar.rules[2].name.as_deref(), Some("source.base"));
    assert_eq!(grammar.repository.iter().filter(|(k, _)| k == "$self").count(), 1);
}

#[test]
fn grammar_provider_finds_grammars_by_scope_name() {
    let mut store = GrammarStore::new();
    store.insert(sample());
    let found = GrammarProvider::lookup(&store, "source.sample").unwrap();
    assert_eq!(found.scope_name, "source.sample");
    assert!(GrammarProvider::lookup(&store, "source.other").is_none());
}
