use ferriki::line_output::{contains_rtl, BalancedBracketSelectors, TokenTypeMatcher};
use ferriki::encoded_token_attributes::StandardTokenType;
use ferriki::matcher::{create_matchers, Matcher, MatcherPriority};

struct Case {
    expression: &'static str,
    input: &'static [&'static str],
    result: bool,
}

#[test]
fn matches_upstream_selector_cases() {
    let cases = [
        Case { expression: "foo", input: &["foo"], result: true },
        Case { expression: "foo", input: &["bar"], result: false },
        Case { expression: "- foo", input: &["foo"], result: false },
        Case { expression: "- foo", input: &["bar"], result: true },
        Case { expression: "- - foo", input: &["bar"], result: false },
        Case { expression: "bar foo", input: &["foo"], result: false },
        Case { expression: "bar foo", input: &["bar"], result: false },
        Case { expression: "bar foo", input: &["bar", "foo"], result: true },
        Case { expression: "bar - foo", input: &["bar"], result: true },
        Case { expression: "bar - foo", input: &["foo", "bar"], result: false },
        Case { expression: "bar - foo", input: &["foo"], result: false },
        Case { expression: "bar, foo", input: &["foo"], result: true },
        Case { expression: "bar, foo", input: &["bar"], result: true },
        Case { expression: "bar, foo", input: &["bar", "foo"], result: true },
        Case { expression: "bar, -foo", input: &["bar", "foo"], result: true },
        Case { expression: "bar, -foo", input: &["yo"], result: true },
        Case { expression: "bar, -foo", input: &["foo"], result: false },
        Case { expression: "(foo)", input: &["foo"], result: true },
        Case { expression: "(foo - bar)", input: &["foo"], result: true },
        Case { expression: "(foo - bar)", input: &["foo", "bar"], result: false },
        Case { expression: "foo bar - (yo man)", input: &["foo", "bar"], result: true },
        Case { expression: "foo bar - (yo man)", input: &["foo", "bar", "yo"], result: true },
        Case { expression: "foo bar - (yo man)", input: &["foo", "bar", "yo", "man"], result: false },
        Case { expression: "foo bar - (yo | man)", input: &["foo", "bar", "yo", "man"], result: false },
        Case { expression: "foo bar - (yo | man)", input: &["foo", "bar", "yo"], result: false },
        Case {
            expression: "R:text.html - (comment.block, text.html source)",
            input: &["text.html", "bar", "source"],
            result: false,
        },
        Case {
            expression: "text.html.php - (meta.embedded | meta.tag), L:text.html.php meta.tag, L:source.js.embedded.html",
            input: &["text.html.php", "bar", "source.js"],
            result: true,
        },
    ];

    for (index, case) in cases.into_iter().enumerate() {
        let matchers = create_matchers(case.expression);
        let result = matchers.iter().any(|matcher| {
            matcher.matcher.matches(&case.input, &|identifiers: &Vec<String>, stack: &&[&str]| {
                let mut last_index = 0;
                identifiers.iter().all(|identifier| {
                    let Some(relative_index) =
                        stack[last_index..].iter().position(|element| *element == identifier)
                    else {
                        return false;
                    };
                    last_index += relative_index + 1;
                    true
                })
            })
        });
        assert_eq!(result, case.result, "upstream matcher case #{index}");
    }
}

#[test]
fn retains_injection_priorities() {
    let matchers = create_matchers("R:text.html, L:source.js, comment");
    assert_eq!(matchers[0].priority, MatcherPriority::Right);
    assert_eq!(matchers[1].priority, MatcherPriority::Left);
    assert_eq!(matchers[2].priority, MatcherPriority::Normal);
}

#[test]
fn parses_selector_structure() {
    let matchers = create_matchers("a.b c, -d");
    assert_eq!(matchers.len(), 2);
    match &matchers[0].matcher {
        Matcher::Conjunction(parts) => {
            assert_eq!(parts.len(), 1);
            match &parts[0] {
                Matcher::Name(names) => assert_eq!(names, &vec!["a.b".to_string(), "c".to_string()]),
                other => panic!("unexpected {other:?}"),
            }
        }
        other => panic!("unexpected {other:?}"),
    }
    match &matchers[1].matcher {
        Matcher::Conjunction(parts) => match &parts[0] {
            Matcher::Negate(inner) => assert!(matches!(**inner, Matcher::Name(_))),
            other => panic!("unexpected {other:?}"),
        },
        other => panic!("unexpected {other:?}"),
    }
    assert!(create_matchers("").is_empty());
    assert!(matches!(&create_matchers("-")[0].matcher, Matcher::Conjunction(parts) if matches!(parts[0], Matcher::Never)));
}

#[test]
fn matches_balanced_and_unbalanced_scope_selectors() {
    let selectors = BalancedBracketSelectors::new(&["*".into()], &["comment".into()]);
    assert!(!selectors.matches_always());
    assert!(!selectors.matches_never());
    assert!(selectors.matches(&["source.js".into()]));
    assert!(!selectors.matches(&["source.js".into(), "comment.block".into()]));

    let never = BalancedBracketSelectors::new(&[], &[]);
    assert!(never.matches_never());
}

#[test]
fn balanced_selectors_use_prefix_scope_matching() {
    let selectors = BalancedBracketSelectors::new(&["source.js meta.brace".into()], &[]);
    assert!(!selectors.matches_always());
    assert!(!selectors.matches_never());
    assert!(selectors.matches(&["source.js".into(), "x".into(), "meta.brace.round".into()]));
    assert!(!selectors.matches(&["meta.brace.round".into(), "source.js".into()]));
    assert!(!selectors.matches(&["source.jsx".into(), "meta.brace".into()]));
    let always = BalancedBracketSelectors::new(&["*".into()], &[]);
    assert!(always.matches_always());
}

#[test]
fn token_type_matchers_keep_the_token_type() {
    let matchers = TokenTypeMatcher::from_selector("string, comment", StandardTokenType::String);
    assert_eq!(matchers.len(), 2);
    assert!(matchers.iter().all(|m| m.token_type == StandardTokenType::String));
}

#[test]
fn detects_right_to_left_text() {
    assert!(!contains_rtl("abc\n"));
    assert!(contains_rtl("אb\n"));
    assert!(contains_rtl("x\u{200f}"));
    assert!(!contains_rtl(""));
}
