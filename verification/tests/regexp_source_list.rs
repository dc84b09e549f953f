use std::sync::Arc;

use ferriki::regexp::{RegExpSource, RegExpSourceList};

#[test]
fn source_list_keeps_its_compiled_form_until_a_source_changes() {
    let mut list: RegExpSourceList<u32> = RegExpSourceList::new();
    assert!(list.is_empty());
    list.push(RegExpSource::new("a+", 1));
    list.unshift(RegExpSource::new("b", 2));
    assert_eq!(list.len(), 2);

    let first = list.compile().unwrap();
    let again = list.compile().unwrap();
    assert!(Arc::ptr_eq(&first, &again));

    list.set_source(0, "b");
    assert!(Arc::ptr_eq(&first, &list.compile().unwrap()));

    list.set_source(0, "c");
    let changed = list.compile().unwrap();
    assert!(!Arc::ptr_eq(&first, &changed));
}

#[test]
fn source_list_keeps_one_compiled_form_per_anchor_choice() {
    let mut list: RegExpSourceList<u32> = RegExpSourceList::new();
    list.push(RegExpSource::new("\\Gx", 1));
    let with_g = list.compile_ag(false, true).unwrap();
    let without_g = list.compile_ag(false, false).unwrap();
    assert!(!Arc::ptr_eq(&with_g, &without_g));
    assert!(Arc::ptr_eq(&with_g, &list.compile_ag(false, true).unwrap()));

    let mut plain: RegExpSourceList<u32> = RegExpSourceList::new();
    plain.push(RegExpSource::new("x", 1));
    let a = plain.compile_ag(true, false).unwrap();
    let b = plain.compile_ag(false, true).unwrap();
    assert!(Arc::ptr_eq(&a, &b));
}

#[test]
fn source_list_reports_patterns_that_do_not_compile() {
    let mut list: RegExpSourceList<u32> = RegExpSourceList::new();
    list.push(RegExpSource::new("(", 1));
    assert!(list.compile().is_none());
}

#[test]
fn invalidates_compiled_scanner_when_a_source_changes() {
    let mut sources = RegExpSourceList::new();
    sources.push(RegExpSource::new("a", 1_u32));
    let first = sources.compile().unwrap();
    assert!(Arc::ptr_eq(&first, &sources.compile().unwrap()));

    sources.set_source(0, "b");
    let second = sources.compile().unwrap();
    assert!(!Arc::ptr_eq(&first, &second));
}
