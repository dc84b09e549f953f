use ferriki::captures::CaptureIndex;
use ferriki::compiled_rule::{fallback_step, CompiledRule};
use ferriki::scanner::ScanMatch;
use ferroni::scanner::OnigString;

fn compiled(patterns: &[&str], rules: &[u32]) -> CompiledRule<u32> {
    CompiledRule::new(patterns.iter().map(|p| p.to_string()).collect(), rules.to_vec()).expect("compiled")
}

fn at(start: usize, end: usize) -> CaptureIndex {
    CaptureIndex { start, end, length: end - start }
}

#[test]
fn the_earliest_match_gives_its_rule() {
    let mut rule = compiled(&["a", "b+"], &[10, 20]);
    let found = rule.find_next_match(&OnigString::new("xbba"), 0, 0).expect("match");
    assert_eq!(found.rule_id, 20);
    assert_eq!(found.capture_indices, vec![at(1, 3)]);
    let later = rule.find_next_match(&OnigString::new("xbba"), 3, 0).expect("match");
    assert_eq!(later.rule_id, 10);
    assert_eq!(later.capture_indices, vec![at(3, 4)]);
    assert!(rule.find_next_match(&OnigString::new("zzz"), 0, 0).is_none());
}

#[test]
fn the_first_listed_pattern_wins_a_tie() {
    let mut rule = compiled(&["b", "b+"], &[1, 2]);
    let found = rule.find_next_match(&OnigString::new("bb"), 0, 0).expect("match");
    assert_eq!(found.rule_id, 1);
    assert_eq!(found.capture_indices, vec![at(0, 1)]);
}

#[test]
fn offsets_count_utf16_units() {
    let mut rule = compiled(&["(b)"], &[7]);
    let found = rule.find_next_match(&OnigString::new("\u{e9} \u{1F600}b"), 0, 0).expect("match");
    assert_eq!(found.rule_id, 7);
    assert_eq!(found.capture_indices, vec![at(4, 5), at(4, 5)]);
}

#[test]
fn a_direct_match_replaces_a_later_best() {
    let best = ScanMatch { index: 1, captures: vec![at(5, 6)] };
    let next = fallback_step(Some(best.clone()), Some(vec![at(2, 3)]), 0, false, 10).expect("best");
    assert_eq!((next.index, next.captures[0].start), (0, 2));
    let kept = fallback_step(Some(best.clone()), Some(vec![at(5, 7)]), 2, false, 10).expect("best");
    assert_eq!(kept, best);
    let refused = fallback_step(None, Some(vec![at(10, 10)]), 0, true, 10);
    assert!(refused.is_none());
    let merged = fallback_step(
        Some(ScanMatch { index: 0, captures: vec![at(2, 4), at(2, 3)] }),
        Some(vec![at(2, 4), at(3, 9)]),
        0,
        false,
        10,
    )
    .expect("best");
    assert_eq!(merged.captures, vec![at(2, 4), at(2, 3)]);
}

#[test]
fn a_named_group_with_a_numbered_back_reference_still_matches() {
    let mut rule = compiled(&["(?<a>x)\\1"], &[5]);
    let found = rule.find_next_match(&OnigString::new("axx"), 0, 0).expect("match");
    assert_eq!(found.rule_id, 5);
    assert_eq!(found.capture_indices[0], at(1, 3));
}
