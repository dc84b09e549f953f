use ferriki::matcher::MatcherPriority;
use ferriki::raw_grammar::RuleId;
use ferriki::tokenize_string::Injection;

#[test]
fn an_injection_selector_gives_one_injection_per_selector() {
    let injections = Injection::from_selector("L:source.test, R:text.x - comment, meta.y", RuleId(3));
    assert_eq!(injections.len(), 3);
    assert_eq!(injections[0].priority, MatcherPriority::Left);
    assert_eq!(injections[1].priority, MatcherPriority::Right);
    assert_eq!(injections[2].priority, MatcherPriority::Normal);
    for injection in &injections {
        assert_eq!(injection.rule_id, RuleId(3));
        assert_eq!(injection.debug_selector, "L:source.test, R:text.x - comment, meta.y");
    }
}
