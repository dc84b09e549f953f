use ferriki::injection::InjectionPriority;
use ferriki::json::JsonValue;
use ferriki::rule_compiler::{compile_grammar, CompiledGrammar};
use ferriki::captures::CaptureIndex;
use ferriki::scanner::{build_scanner_for_rule, find_next_match_ordered, ordered_step, ScanMatch};
use ferriki::tokenize::{find_injection_match, injection_step};
use ferroni::scanner::OnigString;

fn onig_string(text: &str) -> OnigString {
    OnigString::new(text)
}

/// JSON text in which `"REF"` stands for the key under which a pattern
/// names the rule it takes in.
fn grammar(text: &str) -> CompiledGrammar {
    let key: String = ['i', 'n', 'c', 'l', 'u', 'd', 'e'].iter().collect();
    let value = JsonValue::parse(&text.replace("\"REF\"", &format!("\"{}\"", key))).expect("json");
    compile_grammar(&value, &Vec::new(), &Vec::new()).expect("compiled")
}

fn three_rules() -> CompiledGrammar {
    grammar(
        r##"{
          "scopeName": "source.s",
          "patterns": [{"REF": "#bee"}, {"REF": "#ay"}, {"REF": "#ay2"}],
          "repository": {
            "bee": {"match": "b"},
            "ay": {"match": "a"},
            "ay2": {"match": "a+"}
          }
        }"##,
    )
}

#[test]
fn ordered_search_prefers_the_earliest_start_then_the_first_pattern() {
    let compiled = three_rules();
    let mut scanner = build_scanner_for_rule(1, &compiled.registry, None, false).expect("scanner");
    assert_eq!(scanner.rule_ids, vec![2, 3, 4]);
    let line = onig_string("xaab\n");
    let found = find_next_match_ordered(&mut scanner, &line, 1, 0, 0).expect("match");
    assert_eq!(found.index, 1);
    assert_eq!((found.captures[0].start, found.captures[0].end), (1, 2));
    let later = find_next_match_ordered(&mut scanner, &line, 1, 3, 0).expect("match");
    assert_eq!(later.index, 0);
    assert_eq!(later.captures[0].start, 3);
    assert!(find_next_match_ordered(&mut scanner, &onig_string("zzz\n"), 2, 0, 0).is_none());
}

#[test]
fn earlier_injection_matches_win() {
    let compiled = three_rules();
    let line = onig_string("ba\n");
    let active = vec![(3, InjectionPriority::Default), (2, InjectionPriority::Left)];
    let (found, rule, priority) = find_injection_match(&compiled, &active, &line, 7, 0, 0).expect("match");
    assert_eq!(rule, 2);
    assert_eq!(priority, InjectionPriority::Left);
    assert_eq!(found.captures[0].start, 0);
}

#[test]
fn left_priority_wins_equal_starts_and_stops_the_search() {
    let compiled = three_rules();
    let line = onig_string("a\n");
    let active = vec![(3, InjectionPriority::Left), (4, InjectionPriority::Default)];
    let (_, rule, priority) = find_injection_match(&compiled, &active, &line, 8, 0, 0).expect("match");
    assert_eq!((rule, priority), (3, InjectionPriority::Left));

    let active = vec![(3, InjectionPriority::Default), (4, InjectionPriority::Right)];
    let (_, rule, _) = find_injection_match(&compiled, &active, &line, 9, 0, 0).expect("match");
    assert_eq!(rule, 4);

    let active = vec![(3, InjectionPriority::Default), (4, InjectionPriority::Left)];
    let (_, rule, priority) = find_injection_match(&compiled, &active, &line, 10, 0, 0).expect("match");
    assert_eq!((rule, priority), (4, InjectionPriority::Left));
}

#[test]
fn injections_without_a_match_give_none() {
    let compiled = three_rules();
    let line = onig_string("zz\n");
    let active = vec![(2, InjectionPriority::Left), (99, InjectionPriority::Default)];
    assert!(find_injection_match(&compiled, &active, &line, 11, 0, 0).is_none());
    assert!(find_injection_match(&compiled, &[], &line, 12, 0, 0).is_none());
}

fn found_at(index: usize, start: usize, end: usize) -> ScanMatch {
    ScanMatch { index, captures: vec![CaptureIndex { start, end, length: end - start }] }
}

#[test]
fn an_earlier_single_pattern_match_replaces_the_best() {
    let best = found_at(3, 5, 6);
    let (next, stopped) = ordered_step(best.clone(), Some(found_at(0, 2, 4)), 1, 0);
    assert_eq!(next.index, 1);
    assert_eq!(next.captures[0].start, 2);
    assert!(!stopped);
    let (next, stopped) = ordered_step(best.clone(), Some(found_at(0, 5, 9)), 2, 5);
    assert_eq!((next.index, next.captures[0].end), (2, 9));
    assert!(stopped);
    let (next, stopped) = ordered_step(best.clone(), Some(found_at(0, 7, 8)), 0, 0);
    assert_eq!(next, best);
    assert!(!stopped);
    let (next, stopped) = ordered_step(best.clone(), None, 0, 0);
    assert_eq!(next, best);
    assert!(!stopped);
}

#[test]
fn an_injection_step_keeps_a_left_priority_tie() {
    let (best, stopped) = injection_step(None, Some((found_at(0, 4, 5), 7)), InjectionPriority::Left, 2);
    assert!(!stopped);
    let kept = best.clone();
    let (same, stopped) = injection_step(best, Some((found_at(0, 4, 6), 9)), InjectionPriority::Default, 2);
    assert_eq!(same, kept);
    assert!(!stopped);
    let (earlier, stopped) = injection_step(same, Some((found_at(1, 2, 3), 11)), InjectionPriority::Left, 2);
    let (m, rule, start, priority) = earlier.expect("best");
    assert_eq!((m.index, rule, start, priority), (1, 11, 2, InjectionPriority::Left));
    assert!(stopped);
}
