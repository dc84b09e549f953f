use vstd::prelude::*;

use crate::basic_scope_attributes::EmbeddedLanguages;
use crate::encoded_token_attributes::StandardTokenType;

verus! {

/// How a grammar is set up for tokenizing: the language of its own text,
/// the languages embedded in it and the token types by scope, and which
/// scopes count for bracket matching.
#[derive(Clone, Default)]
pub struct GrammarConfiguration {
    pub initial_language_id: u32,
    pub embedded_languages: EmbeddedLanguages,
    pub token_types: Vec<(String, StandardTokenType)>,
    pub balanced_bracket_selectors: Option<Vec<String>>,
    pub unbalanced_bracket_selectors: Vec<String>,
}

} // verus!
