use ferriki::grammar_dependencies::{AbsoluteRuleReference, ScopeDependencyProcessor};
use ferriki::raw_grammar::{find_ref, GrammarStore, RawGrammar, RawRule, RuleId};

fn including(target: &str) -> RawRule {
    let mut rule = RawRule::empty();
    rule.include_target = Some(target.to_owned());
    rule
}

fn grammar(scope_name: &str, rules: Vec<RawRule>, patterns: Vec<usize>, repository: Vec<(&str, usize)>) -> RawGrammar {
    RawGrammar {
        rules,
        repository: repository.into_iter().map(|(k, v)| (k.to_owned(), v)).collect(),
        scope_name: scope_name.to_owned(),
        patterns,
        injections: vec![],
        injection_selector: None,
        file_types: vec![],
        name: None,
        first_line_match: None,
        location: None,
    }
}

#[test]
fn discovers_full_partial_and_injection_dependencies() {
    let root = grammar(
        "source.root",
        vec![including("source.full"), including("source.partial#word"), including("source.partial#word")],
        vec![0, 1, 2],
        vec![],
    );
    let full = grammar("source.full", vec![including("source.transitive")], vec![0], vec![]);
    let partial = grammar(
        "source.partial",
        vec![including("source.unrequested"), including("source.partial-dependency")],
        vec![0],
        vec![("word", 1)],
    );
    let mut store = GrammarStore::new();
    for grammar in [root, full, partial] {
        store.insert(grammar);
    }
    store.set_injections("source.root", vec!["source.injection".into()]);
    let mut processor = ScopeDependencyProcessor::new(&store, "source.root");

    processor.process_queue().unwrap();

    assert_eq!(
        processor.queue(),
        [
            AbsoluteRuleReference::top_level("source.full"),
            AbsoluteRuleReference::repository("source.partial", "word"),
            AbsoluteRuleReference::top_level("source.injection"),
        ]
    );

    processor.process_queue().unwrap();

    assert_eq!(
        processor.queue(),
        [
            AbsoluteRuleReference::top_level("source.transitive"),
            AbsoluteRuleReference::top_level("source.partial-dependency"),
        ]
    );
}

#[test]
fn reports_a_missing_initial_grammar() {
    let store = GrammarStore::new();
    let mut processor = ScopeDependencyProcessor::new(&store, "source.missing");

    let error = processor.process_queue().unwrap_err();

    assert_eq!(error.to_string(), "no grammar provided for <source.missing>");
}

#[test]
fn whole_grammar_is_requested_only_once() {
    let a = grammar("source.a", vec![including("source.b"), including("$self")], vec![0, 1], vec![]);
    let b = grammar("source.b", vec![including("source.a"), including("source.b#x")], vec![0, 1], vec![]);
    let mut store = GrammarStore::new();
    store.insert(a);
    store.insert(b);
    let mut processor = ScopeDependencyProcessor::new(&store, "source.a");
    processor.process_queue().unwrap();
    assert_eq!(processor.queue(), [AbsoluteRuleReference::top_level("source.b")]);
    processor.process_queue().unwrap();
    // `source.a` was requested whole already; `source.b#x` belongs to a
    // grammar requested whole
    assert!(processor.is_complete());
}

#[test]
fn missing_dependency_grammar_is_skipped() {
    let a = grammar("source.a", vec![including("source.gone")], vec![0], vec![]);
    let mut store = GrammarStore::new();
    store.insert(a);
    let mut processor = ScopeDependencyProcessor::new(&store, "source.a");
    processor.process_queue().unwrap();
    assert_eq!(processor.queue(), [AbsoluteRuleReference::top_level("source.gone")]);
    processor.process_queue().unwrap();
    assert!(processor.is_complete());
}

#[test]
fn relative_and_base_references_are_followed() {
    let a = grammar(
        "source.a",
        vec![including("#inner"), including("source.c"), including("$base")],
        vec![0],
        vec![("inner", 1)],
    );
    let mut store = GrammarStore::new();
    store.insert(a);
    let mut processor = ScopeDependencyProcessor::new(&store, "source.a");
    processor.process_queue().unwrap();
    assert_eq!(processor.queue(), [AbsoluteRuleReference::top_level("source.c")]);
}

#[test]
fn reference_keys_join_scope_and_rule() {
    assert_eq!(AbsoluteRuleReference::top_level("source.js").key(), "source.js");
    assert_eq!(AbsoluteRuleReference::repository("source.js", "expr").key(), "source.js#expr");
    assert_eq!(AbsoluteRuleReference::repository("source.js", "expr").scope_name(), "source.js");
}

#[test]
fn store_insert_replaces_a_grammar_of_the_same_scope() {
    let mut store = GrammarStore::new();
    assert!(store.insert(grammar("source.a", vec![], vec![], vec![])).is_none());
    let previous = store.insert(grammar("source.a", vec![RawRule::empty()], vec![0], vec![]));
    assert_eq!(previous.map(|g| g.rules.len()), Some(0));
    assert_eq!(store.lookup("source.a").map(|g| g.rules.len()), Some(1));
    assert!(store.lookup("source.b").is_none());
    assert_eq!(store.len(), 1);
    store.set_injections("source.a", vec!["source.x".into()]);
    assert_eq!(store.injections("source.a"), vec!["source.x".to_owned()]);
    assert!(store.injections("source.b").is_empty());
    store.clear();
    assert_eq!(store.len(), 0);
}

#[test]
fn find_ref_takes_the_first_entry_with_the_key() {
    let refs = vec![("a".to_owned(), 3), ("b".to_owned(), 4), ("a".to_owned(), 5)];
    assert_eq!(find_ref(&refs, "a"), Some(3));
    assert_eq!(find_ref(&refs, "b"), Some(4));
    assert_eq!(find_ref(&refs, "c"), None);
}

#[test]
fn rule_ids_round_trip() {
    assert_eq!(RuleId::new(7).get(), 7);
}
