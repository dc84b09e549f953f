use ferriki::include_reference::{parse_include, IncludeReference};

#[test]
fn parses_base_and_self_references() {
    assert_eq!(parse_include("$base"), IncludeReference::Base);
    assert_eq!(parse_include("$self"), IncludeReference::SelfReference);
}

#[test]
fn parses_relative_and_top_level_references() {
    assert_eq!(parse_include("#string"), IncludeReference::RelativeReference { rule_name: "string" });
    assert_eq!(parse_include("source.js"), IncludeReference::TopLevelReference { scope_name: "source.js" });
}

#[test]
fn splits_top_level_repository_references_at_the_first_hash() {
    assert_eq!(
        parse_include("source.js#template#nested"),
        IncludeReference::TopLevelRepositoryReference { scope_name: "source.js", rule_name: "template#nested" }
    );
}

#[test]
fn preserves_upstream_empty_reference_behavior() {
    assert_eq!(parse_include(""), IncludeReference::TopLevelReference { scope_name: "" });
    assert_eq!(parse_include("#"), IncludeReference::RelativeReference { rule_name: "" });
    assert_eq!(
        parse_include("source.js#"),
        IncludeReference::TopLevelRepositoryReference { scope_name: "source.js", rule_name: "" }
    );
}

#[test]
fn splits_multibyte_scope_names_on_character_boundaries() {
    assert_eq!(
        parse_include("sourcé.x#rülé"),
        IncludeReference::TopLevelRepositoryReference { scope_name: "sourcé.x", rule_name: "rülé" }
    );
    assert_eq!(parse_include("$selfish"), IncludeReference::TopLevelReference { scope_name: "$selfish" });
}
