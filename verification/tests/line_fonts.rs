use std::sync::Arc;

use ferriki::attributed_scope_stack::AttributedScopeStack;
use ferriki::encoded_token_attributes::{EncodedTokenAttributes, FontAttribute};
use ferriki::line_output::{FontInfo, LineFonts};
use ferriki::theme::ScopeStack;

fn scopes(names: &str, metadata: EncodedTokenAttributes, font: FontAttribute) -> Arc<AttributedScopeStack> {
    let mut scopes = AttributedScopeStack::create_root(names.split(' ').next().unwrap(), metadata, font);
    for name in names.split(' ').skip(1) {
        scopes = Arc::new(AttributedScopeStack {
            parent: Some(Arc::clone(&scopes)),
            scope_path: ScopeStack::push(Some(Arc::clone(&scopes.scope_path)), &[name]).unwrap(),
            token_attributes: metadata,
            font_attributes: scopes.font_attributes.clone(),
            style_attributes: None,
        });
    }
    scopes
}

#[test]
fn merges_adjacent_font_runs_and_tracks_unstyled_gaps() {
    let plain = scopes(
        "source.test",
        EncodedTokenAttributes::default(),
        FontAttribute::from(Some(String::new()), Some(0.0f64.to_bits()), Some(0.0f64.to_bits())),
    );
    let styled = scopes(
        "source.test styled",
        EncodedTokenAttributes::default(),
        FontAttribute::from(Some("Mono".into()), Some(1.2f64.to_bits()), Some(3.0f64.to_bits())),
    );
    let mut fonts = LineFonts::new();
    fonts.produce_from_scopes(Some(&plain), 2);
    fonts.produce_from_scopes(Some(&styled), 4);
    fonts.produce_from_scopes(Some(&styled), 6);

    assert_eq!(
        fonts.result(),
        [FontInfo {
            start_index: 2,
            end_index: 6,
            font_family: Some("Mono".into()),
            font_size_multiplier: Some(1.2f64.to_bits()),
            line_height_multiplier: Some(3.0f64.to_bits()),
        }]
    );
}

#[test]
fn font_runs_split_where_the_font_changes_and_skip_nan_sizes() {
    let a = scopes("source.a", EncodedTokenAttributes::default(), FontAttribute::from(Some("A".into()), None, None));
    let b = scopes("source.b", EncodedTokenAttributes::default(), FontAttribute::from(Some("B".into()), None, None));
    let nan = scopes("source.n", EncodedTokenAttributes::default(), FontAttribute::from(None, Some(f64::NAN.to_bits()), None));
    let mut fonts = LineFonts::new();
    fonts.produce_from_scopes(Some(&a), 1);
    fonts.produce_from_scopes(Some(&b), 3);
    fonts.produce_from_scopes(Some(&nan), 4);
    fonts.produce_from_scopes(None, 5);
    fonts.produce_from_scopes(Some(&b), 7);
    let runs: Vec<(usize, usize, Option<String>)> =
        fonts.result().into_iter().map(|f| (f.start_index, f.end_index, f.font_family)).collect();
    assert_eq!(
        runs,
        vec![(0, 1, Some("A".to_owned())), (1, 3, Some("B".to_owned())), (5, 7, Some("B".to_owned()))]
    );
}
