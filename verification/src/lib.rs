use vstd::prelude::*;

pub mod asset_catalog;
pub mod attributed_scope_stack;
pub mod asset_cli;
pub mod assets;
pub mod basic_scope_attributes;
pub mod captures;
pub mod compiled_rule;
pub mod encoded_token_attributes;
pub mod grammar;
pub mod grammar_dependencies;
pub mod include_reference;
pub mod injection;
pub mod raw_grammar;
pub mod lexical;
pub mod line_output;
pub mod line_tokens;
pub mod json;
pub mod matcher;
pub mod options;
pub mod plist;
pub mod regexp;
pub mod registration;
pub mod render;
pub mod rule;
pub mod rules;
pub mod rule_factory;
pub mod scanner;
pub mod rule_compiler;
pub mod text;
pub mod tokens;
pub mod tokenize_string;
pub mod tokenize;
pub mod unicode;
pub mod theme;
pub mod theme_style;
pub mod theme_trie;
pub mod theme_data;
pub mod theme_cache;
pub mod state_frames;
pub mod state_stack;

verus! {

} // verus!
