use ferriki::raw_grammar::{GrammarStore, RawGrammar, RawRule, RuleRef};
use ferriki::rule::RuleScannerId;
use ferriki::rule_factory::RuleFactory;
use ferroni::scanner::OnigString;

fn rule() -> RawRule {
    RawRule::empty()
}

fn pointing_to(target: &str) -> RawRule {
    let mut r = RawRule::empty();
    r.include_target = Some(target.to_owned());
    r
}

fn matching(pattern: &str) -> RawRule {
    let mut r = RawRule::empty();
    r.match_pattern = Some(pattern.to_owned());
    r
}

fn refs(entries: &[(&str, usize)]) -> Vec<RuleRef> {
    entries.iter().map(|(k, i)| ((*k).to_owned(), *i)).collect()
}

fn grammar(scope: &str, rules: Vec<RawRule>, repository: Vec<RuleRef>, patterns: Vec<usize>) -> RawGrammar {
    RawGrammar {
        rules,
        repository,
        scope_name: scope.to_owned(),
        patterns,
        injections: vec![],
        injection_selector: None,
        file_types: vec![],
        name: None,
        first_line_match: None,
        location: None,
    }
}

#[test]
fn compiles_local_includes_and_include_shorthand() {
    let mut word = matching("[a-z]+");
    word.name = Some("word.test".to_owned());
    let root_grammar = grammar(
        "source.test",
        vec![pointing_to("#wrapper"), pointing_to("#word"), word],
        refs(&[("wrapper", 1), ("word", 2)]),
        vec![0],
    );
    let store = GrammarStore::new();
    let mut factory = RuleFactory::new(&root_grammar, &store);
    let root = factory.compile_root();
    let registry = factory.registry();
    let root_rule = registry.get_rule(root);
    assert_eq!(root_rule.get_name(None, None).as_deref(), Some("source.test"));
    let wrapper = registry.get_rule(root_rule.as_include_only().unwrap().patterns[0]);
    let matched = registry.get_rule(wrapper.as_include_only().unwrap().patterns[0]);
    assert_eq!(matched.as_match().unwrap().debug_match_reg_exp(), "[a-z]+");
    let mut compiled = root_rule.compile(registry, None).unwrap();
    let result = compiled.find_next_match(&OnigString::new("word"), 0, 0).unwrap();
    assert!(matches!(result.rule_id, RuleScannerId::Rule(_)));
}

#[test]
fn preserves_sparse_captures_and_retokenization_rules() {
    let mut outer = matching("(a)(b)(c)");
    outer.captures = Some(refs(&[("1", 1), ("3", 2)]));
    let mut first = rule();
    first.name = Some("first.test".to_owned());
    let mut third = rule();
    third.name = Some("third.test".to_owned());
    third.patterns = Some(vec![3]);
    let g = grammar("source.test", vec![outer, first, third, matching("c")], vec![], vec![0]);
    let store = GrammarStore::new();
    let mut factory = RuleFactory::new(&g, &store);
    let root = factory.compile_root();
    let root_rule = factory.registry().get_rule(root).as_include_only().unwrap();
    let match_rule = factory.registry().get_rule(root_rule.patterns[0]).as_match().unwrap();

    assert_eq!(match_rule.captures.len(), 4);
    assert!(match_rule.captures[0].is_none());
    assert!(match_rule.captures[2].is_none());
    assert!(match_rule.captures[1].is_some());
    assert!(match_rule.captures[3].as_ref().unwrap().retokenize_captured_with_rule_id.is_some());
}

#[test]
fn skips_rules_whose_only_patterns_are_missing() {
    let mut wrapper = rule();
    wrapper.patterns = Some(vec![2]);
    let g = grammar(
        "source.test",
        vec![pointing_to("#wrapper"), wrapper, pointing_to("#missing")],
        refs(&[("wrapper", 1)]),
        vec![0],
    );
    let store = GrammarStore::new();
    let mut factory = RuleFactory::new(&g, &store);
    let root = factory.compile_root();
    let root = factory.registry().get_rule(root).as_include_only().unwrap();

    assert!(root.patterns.is_empty());
    assert!(root.has_missing_patterns);
}

#[test]
fn explicit_empty_patterns_suppress_include_shorthand() {
    let mut wrapper = pointing_to("#word");
    wrapper.patterns = Some(vec![]);
    let g = grammar(
        "source.test",
        vec![pointing_to("#wrapper"), wrapper, matching("word")],
        refs(&[("wrapper", 1), ("word", 2)]),
        vec![0],
    );
    let store = GrammarStore::new();
    let mut factory = RuleFactory::new(&g, &store);
    let root = factory.compile_root();
    let root = factory.registry().get_rule(root).as_include_only().unwrap();
    let wrapper = factory.registry().get_rule(root.patterns[0]).as_include_only().unwrap();

    assert!(wrapper.patterns.is_empty());
    assert!(!wrapper.has_missing_patterns);
}

#[test]
fn local_repositories_shadow_outer_rules() {
    let mut nested = rule();
    nested.repository = Some(refs(&[("word", 1)]));
    nested.patterns = Some(vec![2]);
    let g = grammar(
        "source.test",
        vec![nested, matching("local"), pointing_to("#word"), matching("outer")],
        refs(&[("word", 3)]),
        vec![0],
    );
    let store = GrammarStore::new();
    let mut factory = RuleFactory::new(&g, &store);
    let root = factory.compile_root();
    let root = factory.registry().get_rule(root).as_include_only().unwrap();
    let nested = factory.registry().get_rule(root.patterns[0]).as_include_only().unwrap();
    let word = factory.registry().get_rule(nested.patterns[0]).as_match().unwrap();

    assert_eq!(word.debug_match_reg_exp(), "local");
}

#[test]
fn compiles_external_grammar_and_repository_references() {
    let root_grammar = grammar(
        "source.test",
        vec![pointing_to("source.external#word"), pointing_to("source.external")],
        vec![],
        vec![0, 1],
    );
    let external = grammar(
        "source.external",
        vec![pointing_to("#word"), matching("external")],
        refs(&[("word", 1)]),
        vec![0],
    );
    let mut store = GrammarStore::new();
    store.insert(external);
    let mut factory = RuleFactory::new(&root_grammar, &store);
    let root = factory.compile_root();
    let root_rule = factory.registry().get_rule(root).as_include_only().unwrap();

    assert_eq!(root_rule.patterns.len(), 2);
    let word = factory.registry().get_rule(root_rule.patterns[0]).as_match().unwrap();
    assert_eq!(word.debug_match_reg_exp(), "external");
    let external_root = factory.registry().get_rule(root_rule.patterns[1]);
    assert_eq!(external_root.get_name(None, None).as_deref(), Some("source.external"));
    assert_eq!(external_root.as_include_only().unwrap().patterns, vec![root_rule.patterns[0]]);
    let mut compiled = factory.registry().get_rule(root).compile(factory.registry(), None).unwrap();
    assert!(compiled.find_next_match(&OnigString::new("external"), 0, 0).is_some());
}

#[test]
fn reserves_ids_before_following_recursive_includes() {
    let mut a = rule();
    a.patterns = Some(vec![2]);
    let mut b = rule();
    b.patterns = Some(vec![4]);
    let g = grammar(
        "source.test",
        vec![pointing_to("#a"), a, pointing_to("#b"), b, pointing_to("#a")],
        refs(&[("a", 1), ("b", 3)]),
        vec![0],
    );
    let store = GrammarStore::new();
    let mut factory = RuleFactory::new(&g, &store);

    let root = factory.compile_root();

    assert_eq!(root.get(), 1);
    assert_eq!(factory.registry().len(), 3);
}

#[test]
fn base_of_an_external_grammar_is_the_including_grammar() {
    let root_grammar = grammar("source.test", vec![pointing_to("source.external")], vec![], vec![0]);
    let external = grammar("source.external", vec![pointing_to("$base")], vec![], vec![0]);
    let mut store = GrammarStore::new();
    store.insert(external);
    let mut factory = RuleFactory::new(&root_grammar, &store);
    let root = factory.compile_root();
    let root_rule = factory.registry().get_rule(root).as_include_only().unwrap();
    let external_root = factory.registry().get_rule(root_rule.patterns[0]).as_include_only().unwrap();
    assert_eq!(external_root.patterns, vec![root]);
    assert_eq!(factory.registry().len(), 2);
}

#[test]
fn compiling_the_root_again_gives_the_same_rule() {
    let g = grammar("source.test", vec![matching("a"), pointing_to("#x")], refs(&[("x", 0)]), vec![0, 1]);
    let store = GrammarStore::new();
    let mut factory = RuleFactory::new(&g, &store);
    let first = factory.compile_root();
    let size = factory.registry().len();
    let second = factory.compile_root();
    assert_eq!(first, second);
    assert_eq!(factory.registry().len(), size);
    let root_rule = factory.registry().get_rule(first).as_include_only().unwrap();
    assert_eq!(root_rule.patterns[0], root_rule.patterns[1]);
    let (root_grammar, registry) = factory.into_parts();
    assert_eq!(root_grammar.scope_name, "source.test");
    assert_eq!(registry.len(), size);
}
