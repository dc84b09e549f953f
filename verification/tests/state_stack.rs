use std::sync::Arc;

use ferriki::attributed_scope_stack::{AttributedScopeStack, AttributedScopeStackFrame};
use ferriki::encoded_token_attributes::{EncodedTokenAttributes, FontAttribute};
use ferriki::raw_grammar::RuleId;
use ferriki::state_stack::{apply_state_stack_diff, diff_state_stacks_ref_eq, StackDiff, StateStack};

fn root(rule_id: u32) -> Arc<StateStack> {
    StateStack::new(None, RuleId::new(rule_id), -1, -1, false, None, None, None)
}

fn scopes(name: &str, metadata: u32) -> Arc<AttributedScopeStack> {
    AttributedScopeStack::create_root(name, EncodedTokenAttributes::new(metadata), FontAttribute::default())
}

#[test]
fn diffs_from_the_shared_reference_ancestor() {
    let root = root(1);
    let first = root.push(RuleId::new(2), 1, 0, false, None, None, None);
    let second = root
        .push(RuleId::new(3), 2, 1, false, None, None, None)
        .push(RuleId::new(4), 3, 2, true, Some("end".into()), None, None);

    let diff = diff_state_stacks_ref_eq(&first, &second);
    let applied = apply_state_stack_diff(Some(first), &diff).unwrap();

    assert_eq!(diff.pops, 1);
    assert_eq!(diff.new_frames.len(), 2);
    assert!(applied.equals(&second));
}

#[test]
fn rebuilds_structurally_equal_stacks_without_shared_references() {
    let first = root(1).push(RuleId::new(2), 1, 0, false, None, None, None);
    let second = root(1).push(RuleId::new(2), 7, 5, false, None, None, None);

    let diff = diff_state_stacks_ref_eq(&first, &second);
    let applied = apply_state_stack_diff(Some(first), &diff).unwrap();

    assert_eq!(diff.pops, 2);
    assert_eq!(diff.new_frames.len(), 2);
    assert!(applied.equals(&second));
}

#[test]
fn applies_diffs_to_and_from_empty_stacks() {
    let stack = root(1);
    let remove = StackDiff { pops: 1, new_frames: Vec::new() };
    let empty = apply_state_stack_diff(Some(Arc::clone(&stack)), &remove);
    assert!(empty.is_none());

    let restore = StackDiff { pops: 0, new_frames: vec![stack.to_frame()] };
    assert!(apply_state_stack_diff(empty, &restore).unwrap().equals(&stack));
}

#[test]
fn equality_ignores_positions_but_compares_rules_ends_and_scopes() {
    let first_root = StateStack::new(None, RuleId::new(1), 1, 1, false, None, None, Some(scopes("source.test", 1)));
    let second_root = StateStack::new(None, RuleId::new(1), 99, 42, false, None, None, Some(scopes("source.test", 1)));
    assert!(first_root.equals(&second_root));

    let different_scope = StateStack::new(None, RuleId::new(1), 1, 1, false, None, None, Some(scopes("source.test", 2)));
    assert!(!first_root.equals(&different_scope));

    let different_end = second_root.with_end_rule("end".to_string());
    assert!(!first_root.equals(&different_end));
}

#[test]
fn detects_same_rules_at_the_same_enter_position() {
    let root = StateStack::new(None, RuleId::new(1), 4, 0, false, None, None, None);
    let middle = root.push(RuleId::new(2), 4, 0, false, None, None, None);
    let current = middle.push(RuleId::new(3), 4, 0, false, None, None, None);
    let repeated = StateStack::new(None, RuleId::new(1), 4, 0, false, None, None, None);
    let other_position = StateStack::new(None, RuleId::new(1), 5, 0, false, None, None, None);

    assert!(current.has_same_rule_as(&repeated));
    assert!(!current.has_same_rule_as(&other_position));
}

#[test]
fn roundtrips_state_stack_frames() {
    let name = scopes("source.test", 1);
    let content = AttributedScopeStack::from_extension(
        Some(Arc::clone(&name)),
        &[AttributedScopeStackFrame {
            encoded_token_attributes: EncodedTokenAttributes::new(2),
            scope_names: vec!["meta.block".into()],
        }],
    )
    .unwrap();
    let state = StateStack::new(None, RuleId::new(7), 3, 2, true, Some("end".into()), Some(name), Some(content));
    let frame = state.to_frame();
    let rebuilt = StateStack::push_frame(None, &frame);

    assert!(state.equals(&rebuilt));
    assert_eq!(rebuilt.enter_pos(), -1);
    assert_eq!(rebuilt.anchor_pos(), -1);
    assert_eq!(frame.rule_id, 7);
}

#[test]
fn state_stack_pops_and_keeps_depth() {
    let root = root(1);
    let child = root.push(RuleId::new(2), 7, 5, true, Some("end".into()), None, None);
    assert_eq!(child.depth, 2);
    assert!(Arc::ptr_eq(&child.pop().unwrap(), &root));
    assert!(Arc::ptr_eq(&root.safe_pop(), &root));
    assert_eq!(child.enter_pos(), 7);
    assert_eq!(child.anchor_pos(), 5);
    let same = child.with_end_rule("end".to_string());
    assert!(Arc::ptr_eq(&same, &child));
}
