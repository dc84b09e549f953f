use ferriki::json::JsonValue;
use ferriki::state_frames::{build_scope_stack_from_frames, deserialize_state_frames, serialize_state_frames, StateFrame};

fn frame(rule_id: i32, end: Option<&str>, names: &[&str], contents: &[&str]) -> StateFrame {
    StateFrame {
        rule_id,
        enter_pos: 3,
        anchor_pos: 4,
        end_rule: end.map(str::to_owned),
        name_scopes: names.iter().map(|s| s.to_string()).collect(),
        content_scopes: contents.iter().map(|s| s.to_string()).collect(),
    }
}

#[test]
fn scope_stacks_list_the_root_then_each_frames_scopes() {
    let stack = vec![frame(1, None, &[], &[]), frame(2, Some("\\)"), &["meta.a"], &["inner.a", "inner.b"])];
    assert_eq!(build_scope_stack_from_frames(&stack, Some("source.x")), vec!["source.x", "meta.a", "inner.a", "inner.b"]);
    assert_eq!(build_scope_stack_from_frames(&stack, None), vec!["meta.a", "inner.a", "inner.b"]);
}

#[test]
fn saved_states_read_back_with_positions_reset() {
    let stack = vec![frame(1, None, &[], &[]), frame(-7, Some("x"), &["a"], &["b"])];
    let saved = serialize_state_frames(&stack, Some("source.x"));
    let back = deserialize_state_frames(&saved).expect("frames");
    assert_eq!(back.len(), 2);
    assert_eq!(back[1].rule_id, -7);
    assert_eq!(back[1].end_rule.as_deref(), Some("x"));
    assert_eq!(back[1].name_scopes, vec!["a".to_owned()]);
    assert_eq!(back[1].content_scopes, vec!["b".to_owned()]);
    assert_eq!((back[1].enter_pos, back[1].anchor_pos), (0, 0));
    assert_eq!(saved.get("rootScope").and_then(|v| v.as_str()), Some("source.x"));
}

#[test]
fn saved_states_take_bare_arrays_and_reject_bad_frames() {
    let bare = JsonValue::parse(r#"[{"ruleId": 5, "nameScopes": ["a", 1, "b"], "endRule": 3}]"#).expect("json");
    let frames = deserialize_state_frames(&bare).expect("frames");
    assert_eq!(frames[0].rule_id, 5);
    assert_eq!(frames[0].name_scopes, vec!["a".to_owned(), "b".to_owned()]);
    assert_eq!(frames[0].end_rule, None);
    assert!(frames[0].content_scopes.is_empty());
    let wrapped_long = JsonValue::parse(r#"{"frames": [{"ruleId": 4294967297}]}"#).expect("json");
    assert_eq!(deserialize_state_frames(&wrapped_long).expect("frames")[0].rule_id, 1);
    assert!(deserialize_state_frames(&JsonValue::parse(r#"[{"ruleId": 1.5}]"#).unwrap()).is_none());
    assert!(deserialize_state_frames(&JsonValue::parse(r#"[3]"#).unwrap()).is_none());
    assert!(deserialize_state_frames(&JsonValue::parse(r#"{"other": []}"#).unwrap()).is_none());
    assert!(deserialize_state_frames(&JsonValue::parse(r#""x""#).unwrap()).is_none());
}
