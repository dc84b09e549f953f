use std::sync::Arc;

use ferriki::attributed_scope_stack::{merge_attributes, AttributedScopeStack, ScopeAttributesProvider};
use ferriki::basic_scope_attributes::BasicScopeAttributes;
use ferriki::encoded_token_attributes::{EncodedTokenAttributes, FontAttribute, OptionalStandardTokenType, StandardTokenType};
use ferriki::theme::{FontStyle, ScopeStack};
use ferriki::theme_trie::StyleAttributes;

struct TestProvider;

impl ScopeAttributesProvider for TestProvider {
    fn metadata_for_scope(&self, scope_name: &str) -> BasicScopeAttributes {
        BasicScopeAttributes {
            language_id: u32::from(scope_name == "source.embedded"),
            token_type: if scope_name.contains("string") {
                OptionalStandardTokenType::String
            } else {
                OptionalStandardTokenType::NotSet
            },
        }
    }

    fn theme_match(&self, scope_path: &ScopeStack) -> Option<StyleAttributes> {
        if scope_path.scope_name == "string.quoted" {
            Some(StyleAttributes {
                font_style: FontStyle::italic(),
                foreground_id: 7,
                background_id: 0,
                font_family: "Serif".into(),
                font_size: 1.2f64.to_bits(),
                line_height: 0.0f64.to_bits(),
            })
        } else {
            None
        }
    }
}

#[test]
fn pushes_scopes_and_merges_language_type_and_theme_metadata() {
    let root = AttributedScopeStack::create_root_and_lookup_scope_name(
        "source.test",
        EncodedTokenAttributes::default().set(9, OptionalStandardTokenType::NotSet, None, FontStyle::none(), 1, 2),
        FontAttribute::from(Some("Mono".into()), Some(1.0f64.to_bits()), Some(1.0f64.to_bits())),
        &TestProvider,
    );
    let pushed = root.push_attributed(Some("source.embedded string.quoted"), &TestProvider);

    assert_eq!(pushed.scope_names(), ["source.test", "source.embedded", "string.quoted"]);
    assert_eq!(pushed.token_attributes.language_id(), 1);
    assert_eq!(pushed.token_attributes.token_type(), StandardTokenType::String);
    assert_eq!(pushed.token_attributes.font_style(), FontStyle::italic());
    assert_eq!(pushed.token_attributes.foreground(), 7);
    assert_eq!(pushed.font_attributes.as_ref().and_then(|font| font.font_family.as_deref()), Some("Serif"));
}

#[test]
fn compares_structural_scope_and_metadata_values() {
    let first = AttributedScopeStack::create_root("source.test", EncodedTokenAttributes::new(1), FontAttribute::default())
        .push_attributed(Some("meta.block"), &TestProvider);
    let second = AttributedScopeStack::create_root("source.test", EncodedTokenAttributes::new(1), FontAttribute::default())
        .push_attributed(Some("meta.block"), &TestProvider);
    let different = AttributedScopeStack::create_root("source.test", EncodedTokenAttributes::new(2), FontAttribute::default())
        .push_attributed(Some("meta.block"), &TestProvider);

    assert!(AttributedScopeStack::equals(Some(&first), Some(&second)));
    assert!(!AttributedScopeStack::equals(Some(&first), Some(&different)));
    assert!(AttributedScopeStack::equals(Some(&first), Some(&first)));
}

#[test]
fn roundtrips_scope_extensions() {
    let root = AttributedScopeStack::create_root("source.test", EncodedTokenAttributes::new(1), FontAttribute::default());
    let pushed = root.push_attributed(Some("meta.block string.quoted"), &TestProvider);
    let extension = pushed.extension_if_defined(Some(&root)).unwrap();
    let rebuilt = AttributedScopeStack::from_extension(Some(Arc::clone(&root)), &extension).unwrap();

    assert!(AttributedScopeStack::equals(Some(&pushed), Some(&rebuilt)));
    assert!(pushed.extension_if_defined(None).is_some());
    let unrelated = AttributedScopeStack::create_root("source.other", EncodedTokenAttributes::default(), FontAttribute::default());
    assert!(pushed.extension_if_defined(Some(&unrelated)).is_none());
}

#[test]
fn font_attributes_inherit_zero_theme_values() {
    let base = FontAttribute::from(Some("Mono".into()), Some(1.0f64.to_bits()), Some(1.2f64.to_bits()));
    let inherited = base.with(Some(&StyleAttributes {
        font_style: FontStyle::none(),
        foreground_id: 1,
        background_id: 2,
        font_family: String::new(),
        font_size: 0.0f64.to_bits(),
        line_height: 0.0f64.to_bits(),
    }));
    assert_eq!(inherited, base);

    let overridden = base.with(Some(&StyleAttributes {
        font_style: FontStyle::none(),
        foreground_id: 1,
        background_id: 2,
        font_family: "Serif".into(),
        font_size: 1.5f64.to_bits(),
        line_height: 2.0f64.to_bits(),
    }));
    assert_eq!(overridden.font_family.as_deref(), Some("Serif"));
    assert_eq!(overridden.font_size, Some(1.5f64.to_bits()));
    assert_eq!(overridden.line_height, Some(2.0f64.to_bits()));
}

#[test]
fn negative_zero_theme_sizes_are_inherited_too() {
    let base = FontAttribute::from(None, Some(3.0f64.to_bits()), None);
    let style = StyleAttributes {
        font_style: FontStyle::none(),
        foreground_id: 0,
        background_id: 0,
        font_family: String::new(),
        font_size: (-0.0f64).to_bits(),
        line_height: 0,
    };
    assert_eq!(base.with(Some(&style)).font_size, Some(3.0f64.to_bits()));
    assert_eq!(base.with(None), base);
}

#[test]
fn extension_frames_hold_the_names_each_level_adds() {
    let root = AttributedScopeStack::create_root("source.a", EncodedTokenAttributes::new(5), FontAttribute::default());
    let pushed = root.push_attributed(Some("x y"), &TestProvider);
    let all = pushed.extension_if_defined(None).unwrap();
    assert_eq!(all.len(), 3);
    assert_eq!(all[0].scope_names, vec!["source.a".to_owned()]);
    assert_eq!(all[1].scope_names, vec!["x".to_owned()]);
    assert_eq!(all[2].scope_names, vec!["y".to_owned()]);
    let rebuilt = AttributedScopeStack::from_extension(None, &all).unwrap();
    assert!(AttributedScopeStack::equals(Some(&pushed), Some(&rebuilt)));
    assert!(AttributedScopeStack::from_extension(None, &[]).is_none());
    let same = pushed.push_attributed(None, &TestProvider);
    assert!(Arc::ptr_eq(&same, &pushed));
}

#[test]
fn merged_attributes_keep_unset_fields() {
    let existing = EncodedTokenAttributes::new(0).set(3, OptionalStandardTokenType::Comment, None, FontStyle::bold(), 4, 5);
    let merged = merge_attributes(
        existing,
        BasicScopeAttributes { language_id: 0, token_type: OptionalStandardTokenType::NotSet },
        None,
    );
    assert_eq!(merged, existing);
    let styled = merge_attributes(
        existing,
        BasicScopeAttributes { language_id: 9, token_type: OptionalStandardTokenType::NotSet },
        Some(&StyleAttributes {
            font_style: FontStyle::italic(),
            foreground_id: 0,
            background_id: 6,
            font_family: String::new(),
            font_size: 0,
            line_height: 0,
        }),
    );
    assert_eq!(styled.language_id(), 9);
    assert_eq!(styled.token_type(), StandardTokenType::Comment);
    assert_eq!(styled.font_style(), FontStyle::italic());
    assert_eq!(styled.foreground(), 4);
    assert_eq!(styled.background(), 6);
}
