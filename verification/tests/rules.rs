use ferriki::json::JsonValue;
use ferriki::rule_compiler::{compile_grammar, init_grammar};
use ferriki::scanner::build_scanner_for_rule;
use ferriki::rules::{has_back_references, parse_grammar_captures, parse_usize_text, Rule, RuleRegistry, END_RULE_ID};

fn json(text: &str) -> JsonValue {
    JsonValue::parse(text).expect("json")
}

/// JSON text in which `"REF"` stands for the key under which a pattern
/// names the rule it takes in.
fn grammar_json(text: &str) -> JsonValue {
    let key: String = ['i', 'n', 'c', 'l', 'u', 'd', 'e'].iter().collect();
    json(&text.replace("\"REF\"", &format!("\"{}\"", key)))
}

#[test]
fn test_has_back_references() {
    assert!(has_back_references("\\1"));
    assert!(has_back_references("foo\\2bar"));
    assert!(!has_back_references("foo\\\\1"));
    assert!(!has_back_references("foo\\0bar"));
    assert!(!has_back_references("no backrefs here"));
}

#[test]
fn test_init_grammar_creates_self_and_base() {
    let grammar = json(
        r##"{
          "scopeName": "source.test",
          "patterns": [{"match": "foo"}],
          "repository": {
            "strings": {"match": "bar"}
          }
        }"##,
    );

    let repo = init_grammar(&grammar, None, 0).expect("initialised");
    assert!(repo.lookup("$self").is_some());
    assert!(repo.lookup("$base").is_some());

    let self_entry = repo.lookup("$self").unwrap();
    assert_eq!(self_entry.get("name").unwrap().as_str().unwrap(), "source.test");
}

#[test]
fn test_rule_registry_alloc_and_get() {
    let mut reg = RuleRegistry::new();
    let id1 = reg.alloc_id();
    let id2 = reg.alloc_id();
    assert_eq!(id1, 1);
    assert_eq!(id2, 2);

    reg.store(
        id1,
        Rule::Match { id: id1, name: Some("test".to_owned()), match_re: "foo".to_owned(), captures: vec![] },
    );

    assert!(reg.get(id1).is_some());
    assert!(reg.get(id2).is_none()); // Not yet stored
    assert!(reg.get(END_RULE_ID).is_none()); // Negative
}

#[test]
fn init_grammar_keeps_repository_entries_and_takes_base_from_host() {
    let grammar = json(r##"{"scopeName": "source.a", "repository": {"x": {"match": "x"}}}"##);
    let host = json(r##"{"scopeName": "source.host", "patterns": [], "repository": {}}"##);
    let repo = init_grammar(&grammar, Some(&host), 7).expect("initialised");
    assert_eq!(repo.id, 7);
    assert!(repo.lookup("x").is_some());
    assert!(repo.lookup("y").is_none());
    let base = repo.lookup("$base").unwrap();
    assert_eq!(base.get("name").unwrap().as_str(), Some("source.host"));
    assert!(base.get("repository").is_some());
    assert!(repo.lookup("$self").unwrap().get("repository").is_none());
}

#[test]
fn init_grammar_refuses_a_grammar_whose_repository_is_not_an_object() {
    assert!(init_grammar(&json(r##"{"repository": []}"##), None, 0).is_none());
    assert!(init_grammar(&json(r#"[1, 2]"#), None, 0).is_none());
}

#[test]
fn capture_keys_parse_as_usize_does() {
    assert_eq!(parse_usize_text("12"), Some(12));
    assert_eq!(parse_usize_text("+3"), Some(3));
    assert_eq!(parse_usize_text("007"), Some(7));
    assert_eq!(parse_usize_text(""), None);
    assert_eq!(parse_usize_text("+"), None);
    assert_eq!(parse_usize_text("-1"), None);
    assert_eq!(parse_usize_text("1a"), None);
    assert_eq!(parse_usize_text("99999999999999999999999"), None);
}

#[test]
fn grammar_captures_are_sorted_by_index_keeping_ties_in_key_order() {
    let captures = json(r##"{"10": {"name": "ten"}, "2": {"name": "two"}, "02": {"name": "zero-two"}, "x": {"name": "skipped"}, "1": {}}"##);
    let parsed = parse_grammar_captures(Some(&captures));
    let summary: Vec<(usize, Option<String>)> = parsed.iter().map(|c| (c.index, c.name.clone())).collect();
    assert_eq!(
        summary,
        vec![
            (1, None),
            (2, Some("zero-two".to_owned())),
            (2, Some("two".to_owned())),
            (10, Some("ten".to_owned())),
        ]
    );
    assert!(parse_grammar_captures(Some(&json("[]"))).is_empty());
    assert!(parse_grammar_captures(None).is_empty());
}

#[test]
fn compile_grammar_builds_root_rule_and_nested_rules() {
    let grammar = grammar_json(
        r##"{
          "scopeName": "source.t",
          "patterns": [
            {"match": "a+", "name": "x", "captures": {"0": {"name": "all"}}},
            {"REF": "#block"},
            {"REF": "#block"}
          ],
          "repository": {
            "block": {
              "begin": "\\(",
              "end": "\\)",
              "name": "meta.block",
              "contentName": "inside",
              "applyEndPatternLast": 1,
              "patterns": [{"REF": "#block"}, {"REF": "$self"}]
            }
          }
        }"##,
    );
    let pool: Vec<(String, JsonValue)> = Vec::new();
    let map: Vec<(String, Vec<String>)> = Vec::new();
    let compiled = compile_grammar(&grammar, &pool, &map).expect("compiled");
    assert_eq!(compiled.root_rule_id, 1);
    match compiled.registry.get(1) {
        Some(Rule::IncludeOnly { name, content_name, patterns, .. }) => {
            assert_eq!(name.as_deref(), Some("source.t"));
            assert!(content_name.is_none());
            assert_eq!(patterns, &vec![2, 3, 3]);
        }
        other => panic!("unexpected root {:?}", other),
    }
    match compiled.registry.get(2) {
        Some(Rule::Match { name, match_re, captures, .. }) => {
            assert_eq!(name.as_deref(), Some("x"));
            assert_eq!(match_re, "a+");
            assert_eq!(captures.len(), 1);
            assert_eq!(captures[0].name.as_deref(), Some("all"));
        }
        other => panic!("unexpected rule {:?}", other),
    }
    match compiled.registry.get(3) {
        Some(Rule::BeginEnd {
            name, content_name, begin_re, end_re, apply_end_pattern_last, end_has_back_references, patterns, ..
        }) => {
            assert_eq!(name.as_deref(), Some("meta.block"));
            assert_eq!(content_name.as_deref(), Some("inside"));
            assert_eq!(begin_re, "\\(");
            assert_eq!(end_re, "\\)");
            assert!(*apply_end_pattern_last);
            assert!(!*end_has_back_references);
            // the block refers to itself, and `$self` to the root rule
            assert_eq!(patterns, &vec![3, 4]);
        }
        other => panic!("unexpected rule {:?}", other),
    }
    // `$self` included from inside is compiled under its own key
    match compiled.registry.get(4) {
        Some(Rule::IncludeOnly { name, patterns, .. }) => {
            assert_eq!(name.as_deref(), Some("source.t"));
            assert_eq!(patterns, &vec![5, 3, 3]);
        }
        other => panic!("unexpected rule {:?}", other),
    }
    assert!(compiled.injections.is_empty());

    let root = compiled.root_scanner.as_ref().expect("root scanner");
    assert_eq!(root.rule_ids, vec![2, 3, 3]);
    assert_eq!(root.regexes, vec!["a+".to_owned(), "\\(".to_owned(), "\\(".to_owned()]);
    assert!(root.single_scanners.iter().all(|s| s.is_none()));

    // the end pattern comes first, then the nested rules' patterns in turn
    let block = build_scanner_for_rule(3, &compiled.registry, Some("\\)"), false).expect("block scanner");
    assert_eq!(block.rule_ids, vec![-1, 3, 5, 3, 3]);
    assert_eq!(block.regexes[0], "\\)");
    assert_eq!(block.regexes[2], "a+");

    // or last, where it is to be tried last
    let last = build_scanner_for_rule(3, &compiled.registry, Some("\\)"), true).expect("block scanner");
    assert_eq!(last.rule_ids, vec![3, 5, 3, 3, -1]);

    // a rule that is not stored has no scanner
    assert!(build_scanner_for_rule(99, &compiled.registry, None, false).is_none());
    // a match rule has no nested patterns, so no scanner without an end
    assert!(build_scanner_for_rule(2, &compiled.registry, None, false).is_none());
}

#[test]
fn scanner_leaves_out_patterns_that_do_not_compile() {
    let grammar = json(r##"{"scopeName": "source.v", "patterns": [{"match": "("}, {"match": "ok"}]}"##);
    let compiled = compile_grammar(&grammar, &Vec::new(), &Vec::new()).expect("compiled");
    let root = compiled.root_scanner.as_ref().expect("root scanner");
    assert_eq!(root.regexes, vec!["ok".to_owned()]);
    assert_eq!(root.rule_ids, vec![3]);

    let broken = json(r##"{"scopeName": "source.w", "patterns": [{"match": "("}]}"##);
    let compiled = compile_grammar(&broken, &Vec::new(), &Vec::new()).expect("compiled");
    assert!(compiled.root_scanner.is_none());
}

#[test]
fn compile_grammar_defaults_end_and_shares_captures() {
    let grammar = json(
        r##"{
          "scopeName": "source.u",
          "patterns": [
            {"begin": "(\\w+)", "captures": {"1": {"name": "word"}}, "endCaptures": {"0": {"name": "stop"}}},
            {"begin": "<", "while": "\\1>", "beginCaptures": {"0": {"name": "open"}}}
          ]
        }"##,
    );
    let compiled = compile_grammar(&grammar, &Vec::new(), &Vec::new()).expect("compiled");
    match compiled.registry.get(2) {
        Some(Rule::BeginEnd { end_re, begin_captures, end_captures, apply_end_pattern_last, .. }) => {
            assert_eq!(end_re, "\u{FFFF}");
            assert!(!*apply_end_pattern_last);
            assert_eq!(begin_captures.len(), 1);
            assert_eq!(begin_captures[0].index, 1);
            assert_eq!(end_captures[0].name.as_deref(), Some("stop"));
        }
        other => panic!("unexpected rule {:?}", other),
    }
    match compiled.registry.get(3) {
        Some(Rule::BeginWhile { while_re, while_has_back_references, begin_captures, while_captures, .. }) => {
            assert_eq!(while_re, "\\1>");
            assert!(*while_has_back_references);
            assert_eq!(begin_captures[0].name.as_deref(), Some("open"));
            assert!(while_captures.is_empty());
        }
        other => panic!("unexpected rule {:?}", other),
    }
}

#[test]
fn compile_grammar_follows_other_grammars_and_collects_injections() {
    let grammar = grammar_json(
        r##"{
          "scopeName": "text.html.basic",
          "patterns": [{"REF": "source.js"}, {"REF": "source.js#string"}, {"REF": "source.none"}],
          "injections": {"L:comment": {"match": "TODO", "name": "todo"}, "": {"match": "skipped"}}
        }"##,
    );
    let js = grammar_json(
        r##"{
          "scopeName": "source.js",
          "patterns": [{"REF": "#string"}],
          "repository": {"string": {"match": "'[^']*'", "name": "string.quoted"}}
        }"##,
    );
    let marker = json(
        r##"{"scopeName": "source.marker", "injectionSelector": "R:text.html", "patterns": [{"match": "!!"}]}"##,
    );
    let pool = vec![("source.js".to_owned(), js), ("source.marker".to_owned(), marker)];
    let map = vec![("text.html".to_owned(), vec!["source.marker".to_owned()])];
    let compiled = compile_grammar(&grammar, &pool, &map).expect("compiled");
    match compiled.registry.get(1) {
        Some(Rule::IncludeOnly { patterns, .. }) => assert_eq!(patterns.len(), 2),
        other => panic!("unexpected root {:?}", other),
    }
    assert_eq!(compiled.injections.len(), 2);
    let first = &compiled.injections[0];
    assert_eq!(first.priority, ferriki::injection::InjectionPriority::Left);
    match compiled.registry.get(first.rule_id) {
        Some(Rule::Match { match_re, .. }) => assert_eq!(match_re, "TODO"),
        other => panic!("unexpected injection rule {:?}", other),
    }
    let second = &compiled.injections[1];
    assert_eq!(second.priority, ferriki::injection::InjectionPriority::Right);
    match compiled.registry.get(second.rule_id) {
        Some(Rule::IncludeOnly { name, .. }) => assert_eq!(name.as_deref(), Some("source.marker")),
        other => panic!("unexpected injection rule {:?}", other),
    }
}

#[test]
fn compile_grammar_reports_bad_grammars() {
    assert_eq!(
        compile_grammar(&json("[]"), &Vec::new(), &Vec::new()).err().as_deref(),
        Some("Grammar is not an object")
    );
    assert_eq!(
        compile_grammar(&json(r##"{"repository": 3}"##), &Vec::new(), &Vec::new()).err().as_deref(),
        Some("Grammar has no repository")
    );
}
