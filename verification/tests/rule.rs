use std::sync::Arc;

use ferriki::captures::CaptureIndex;
use ferriki::raw_grammar::{Location, RuleId};
use ferriki::rule::{
    BeginEndRule, BeginEndRuleOptions, BeginWhileRule, BeginWhileRuleOptions, CaptureRule, CompilePatternsResult,
    IncludeOnlyRule, MatchRule, Rule, RuleRegistry, RuleScannerId,
};
use ferroni::scanner::OnigString;

fn match_rule(registry: &mut RuleRegistry, pattern: &str) -> RuleId {
    registry.register_rule(|id| Rule::Match(MatchRule::new(None, id, None, pattern, Vec::new())))
}

#[test]
fn resolves_capturing_rule_names_and_debug_locations() {
    let mut registry = RuleRegistry::new();
    let id = registry.register_rule(|id| {
        Rule::Match(MatchRule::new(
            Some(Location { filename: "/grammars/test.tmLanguage.json".into(), line: 17, character: 3 }),
            id,
            Some("entity.$1".into()),
            "x",
            Vec::new(),
        ))
    });
    let whole_match = CaptureIndex { start: 0, end: 1, length: 1 };
    let capture = whole_match;
    let rule = registry.get_rule(id);

    assert_eq!(rule.location().unwrap().line, 17);
    assert_eq!(rule.get_name(Some("x"), Some(&[whole_match, capture])), Some("entity.x".into()));
}

#[test]
fn include_only_rules_flatten_registered_patterns() {
    let mut registry = RuleRegistry::new();
    let x = match_rule(&mut registry, "x");
    let y = match_rule(&mut registry, "y");
    let holder = registry.register_rule(|id| {
        Rule::IncludeOnly(IncludeOnlyRule::new(
            None,
            id,
            None,
            None,
            CompilePatternsResult { patterns: vec![x, y], has_missing_patterns: false },
        ))
    });

    let mut compiled = registry.get_rule(holder).compile(&registry, None).unwrap();
    let result = compiled.find_next_match(&OnigString::new("yx"), 0, 0).unwrap();
    assert_eq!(result.rule_id, RuleScannerId::Rule(y));
}

#[test]
fn match_rules_compile_their_own_pattern() {
    let mut registry = RuleRegistry::new();
    let matched = match_rule(&mut registry, "x");
    let mut compiled = registry.get_rule(matched).compile(&registry, None).unwrap();

    assert_eq!(
        compiled.find_next_match(&OnigString::new("x"), 0, 0).unwrap().rule_id,
        RuleScannerId::Rule(matched)
    );
}

#[test]
fn begin_end_rules_resolve_back_references_and_end_priority() {
    let mut registry = RuleRegistry::new();
    let content = match_rule(&mut registry, "x");
    let begin_end = registry.register_rule(|id| {
        Rule::BeginEnd(BeginEndRule::new(BeginEndRuleOptions {
            location: None,
            id,
            name: None,
            content_name: None,
            begin: "(['\"])".into(),
            begin_captures: Vec::new(),
            end: Some(r"\1".into()),
            end_captures: Vec::new(),
            apply_end_pattern_last: false,
            patterns: CompilePatternsResult { patterns: vec![content], has_missing_patterns: false },
        }))
    });

    let rule = registry.get_rule(begin_end);
    let capture = CaptureIndex { start: 0, end: 1, length: 1 };
    let end = rule.as_begin_end().unwrap().get_end_with_resolved_back_references("\"", &[capture]);
    let mut compiled = rule.compile(&registry, Some(&end)).unwrap();
    let result = compiled.find_next_match(&OnigString::new("\"x"), 0, 0).unwrap();

    assert_eq!(result.rule_id, RuleScannerId::End);
}

#[test]
fn begin_while_rules_compile_resolved_while_patterns() {
    let mut registry = RuleRegistry::new();
    let begin_while = registry.register_rule(|id| {
        Rule::BeginWhile(BeginWhileRule::new(BeginWhileRuleOptions {
            location: None,
            id,
            name: None,
            content_name: None,
            begin: r"(\w+)".into(),
            begin_captures: Vec::new(),
            while_pattern: r"\1".into(),
            while_captures: Vec::new(),
            patterns: CompilePatternsResult::default(),
        }))
    });
    let rule = registry.get_rule(begin_while).as_begin_while().unwrap();
    let capture = CaptureIndex { start: 0, end: 3, length: 3 };
    let resolved = rule.get_while_with_resolved_back_references("tag", &[capture]);
    let mut compiled = rule.compile_while(Some(&resolved)).unwrap();

    assert_eq!(
        compiled.find_next_match(&OnigString::new("tag"), 0, 0).unwrap().rule_id,
        RuleScannerId::While
    );
}

#[test]
fn registry_reserves_identities_before_filling_them() {
    let mut registry = RuleRegistry::new();
    assert!(registry.is_empty());
    let first = registry.reserve_rule();
    let second = registry.reserve_rule();
    assert_eq!(first.get(), 1);
    assert_eq!(second.get(), 2);
    assert_eq!(registry.len(), 2);
    registry.set_rule(
        second,
        Rule::Match(MatchRule::new(None, second, Some("word.test".into()), "[a-z]+", Vec::new())),
    );
    let rule = registry.get_rule(second);
    assert_eq!(rule.id(), second);
    assert_eq!(rule.as_match().unwrap().debug_match_reg_exp(), "[a-z]+");
    assert!(rule.as_include_only().is_none());
    assert_eq!(rule.get_name(None, None).as_deref(), Some("word.test"));
}

#[test]
fn begin_end_rule_without_end_never_ends() {
    let rule = BeginEndRule::new(BeginEndRuleOptions {
        location: None,
        id: RuleId::new(3),
        name: None,
        content_name: Some("meta.block".into()),
        begin: "\\{".into(),
        begin_captures: Vec::new(),
        end: None,
        end_captures: Vec::new(),
        apply_end_pattern_last: true,
        patterns: CompilePatternsResult { patterns: vec![RuleId::new(4)], has_missing_patterns: false },
    });
    assert_eq!(rule.debug_begin_reg_exp(), "\\{");
    assert_eq!(rule.debug_end_reg_exp(), "\u{ffff}");
    assert!(!rule.end_has_back_references);
    assert!(rule.apply_end_pattern_last);
    assert_eq!(rule.patterns, vec![RuleId::new(4)]);
}

#[test]
fn end_back_references_take_the_begin_captures() {
    let rule = BeginEndRule::new(BeginEndRuleOptions {
        location: None,
        id: RuleId::new(1),
        name: None,
        content_name: None,
        begin: "<<(\\w+)".into(),
        begin_captures: Vec::new(),
        end: Some("^\\1$".into()),
        end_captures: Vec::new(),
        apply_end_pattern_last: false,
        patterns: CompilePatternsResult::default(),
    });
    assert!(rule.end_has_back_references);
    let caps = [CaptureIndex { start: 0, end: 5, length: 5 }, CaptureIndex { start: 2, end: 5, length: 3 }];
    assert_eq!(rule.get_end_with_resolved_back_references("<<EOF", &caps), "^EOF$");
}

#[test]
fn match_rule_keeps_end_of_input_anchor_rewritten() {
    let rule = MatchRule::new(None, RuleId::new(1), None, "a\\z", Vec::new());
    assert_eq!(rule.debug_match_reg_exp(), "a$(?!\\n)(?<!\\n)");
}

#[test]
fn names_with_placeholders_take_captured_text() {
    let capture = CaptureRule::new(None, RuleId::new(2), Some("entity.$1.test".into()), None, None);
    assert!(capture.data.name_is_capturing);
    let rule = Rule::Capture(Arc::new(capture));
    let caps = [CaptureIndex { start: 0, end: 3, length: 3 }, CaptureIndex { start: 0, end: 3, length: 3 }];
    assert_eq!(rule.get_name(Some("div"), Some(&caps)).as_deref(), Some("entity.div.test"));
    assert_eq!(rule.get_name(None, Some(&caps)).as_deref(), Some("entity.$1.test"));
    assert!(rule.as_capture().is_some());

    let holder = IncludeOnlyRule::new(
        None,
        RuleId::new(5),
        None,
        Some("meta.$1".into()),
        CompilePatternsResult { patterns: Vec::new(), has_missing_patterns: true },
    );
    let rule = Rule::IncludeOnly(holder);
    assert_eq!(rule.get_content_name("abc", &caps).as_deref(), Some("meta.abc"));
    assert!(rule.as_include_only().unwrap().has_missing_patterns);
}

#[test]
fn begin_while_rule_keeps_its_patterns() {
    let rule = BeginWhileRule::new(BeginWhileRuleOptions {
        location: None,
        id: RuleId::new(7),
        name: Some("markup.quote".into()),
        content_name: None,
        begin: "^>".into(),
        begin_captures: Vec::new(),
        while_pattern: "^>".into(),
        while_captures: Vec::new(),
        patterns: CompilePatternsResult::default(),
    });
    assert_eq!(rule.debug_begin_reg_exp(), "^>");
    assert_eq!(rule.debug_while_reg_exp(), "^>");
    assert!(!rule.while_has_back_references);
    assert_eq!(Rule::BeginWhile(rule).id(), RuleId::new(7));
}
