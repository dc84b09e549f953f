use ferriki::json::JsonValue;
use ferriki::rule_compiler::{compile_patterns_inner, compile_rule_inner, init_grammar, CompileContext, CompileState, RuleSource};
use ferriki::rules::{Rule, RuleRegistry};

fn with_reference(text: &str) -> String {
    let key: String = ['i', 'n', 'c', 'l', 'u', 'd', 'e'].iter().collect();
    text.replace("\"REF\"", &format!("\"{}\"", key))
}

fn fresh_state() -> CompileState {
    CompileState { registry: RuleRegistry::new(), compiled: Vec::new(), next_repository: 1 }
}

#[test]
fn two_references_to_one_entry_share_one_rule() {
    let grammar = JsonValue::parse(r#"{"scopeName": "source.t", "repository": {"a": {"match": "x"}}}"#).expect("json");
    let repo = init_grammar(&grammar, None, 0).expect("repository");
    let pool: Vec<(String, JsonValue)> = Vec::new();
    let ctx = CompileContext { pool: &pool, host_grammar: None };
    let mut st = fresh_state();
    let items = JsonValue::parse(&with_reference(r##"[{"REF": "#a"}, {"REF": "#a"}, {"REF": "#missing"}, 5]"##)).expect("json");
    let ids = compile_patterns_inner(Some(&items), "p", 0, &repo, &ctx, &mut st);
    assert_eq!(ids, vec![1, 1]);
    assert_eq!(st.compiled.len(), 1);
    match st.registry.get(1) {
        Some(Rule::Match { match_re, name, .. }) => {
            assert_eq!(match_re, "x");
            assert_eq!(*name, None);
        },
        _ => panic!("expected a match rule"),
    }
    assert!(st.registry.get(2).is_none());
}

#[test]
fn a_begin_rule_keys_its_nested_patterns_by_position() {
    let grammar = JsonValue::parse(r#"{"scopeName": "source.t", "repository": {}}"#).expect("json");
    let repo = init_grammar(&grammar, None, 0).expect("repository");
    let pool: Vec<(String, JsonValue)> = Vec::new();
    let ctx = CompileContext { pool: &pool, host_grammar: None };
    let mut st = fresh_state();
    let desc = JsonValue::parse(r#"{"begin": "a", "captures": {"1": {"name": "x"}}, "patterns": [{"match": "c"}]}"#).expect("json");
    let id = compile_rule_inner(RuleSource::Value(&desc), "k", 0, &repo, &ctx, &mut st);
    assert_eq!(id, Some(1));
    let keys: Vec<(String, i32)> = st.compiled.clone();
    assert_eq!(keys, vec![("k".to_string(), 1), ("k/pat/0".to_string(), 2)]);
    match st.registry.get(1) {
        Some(Rule::BeginEnd { begin_re, end_re, apply_end_pattern_last, begin_captures, end_captures, patterns, name, .. }) => {
            assert_eq!(begin_re, "a");
            assert_eq!(end_re, "\u{FFFF}");
            assert!(!apply_end_pattern_last);
            assert_eq!(begin_captures.len(), 1);
            assert_eq!((begin_captures[0].index, begin_captures[0].name.as_deref()), (1, Some("x")));
            assert_eq!(end_captures.len(), 1);
            assert_eq!(*patterns, vec![2]);
            assert_eq!(*name, None);
        },
        _ => panic!("expected a begin/end rule"),
    }
    match st.registry.get(2) {
        Some(Rule::Match { match_re, captures, .. }) => {
            assert_eq!(match_re, "c");
            assert!(captures.is_empty());
        },
        _ => panic!("expected a match rule"),
    }
    let again = compile_rule_inner(RuleSource::Value(&desc), "k", 0, &repo, &ctx, &mut st);
    assert_eq!(again, Some(1));
    assert_eq!(st.compiled.len(), 2);
}
