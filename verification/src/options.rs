use vstd::prelude::*;

use crate::json::{json_bool, json_member, json_str, json_u64, parse_json, JsonValue};
use crate::render::RenderOptions;
use crate::text::{chars_of, copy_string, push_chars, push_str_chars, str_eq, string_from_chars};
use crate::tokens::TokenizeOptions;

verus! {

broadcast use vstd::string::group_string_axioms;

/// What a highlight call asks for: the language, the theme, and how to
/// tokenize and render.
#[derive(Debug)]
pub struct HighlightOptions {
    pub language: String,
    pub theme: String,
    pub tokenize: TokenizeOptions,
    pub render: RenderOptions,
}

/// The message for a missing required option.
pub open spec fn missing_option_message(key: Seq<char>) -> Seq<char> {
    "Highlight options require `"@ + key + "`."@
}

/// The tabindex that the `tabindex` option gives: none for `false` or
/// `null`, a string as it is, a number as its text, and `0` otherwise or
/// when absent.
pub open spec fn tabindex_of(v: Option<JsonValue>) -> Option<Seq<char>> {
    match v {
        Some(JsonValue::Bool(false)) => None,
        Some(JsonValue::Null) => None,
        Some(JsonValue::String(s)) => Some(s@),
        Some(JsonValue::Number(n)) => Some(n.text@),
        _ => Some("0"@),
    }
}

/// Whether the options are read from `value` as Shiki's: `lang` and `theme`
/// are required strings; the other options have their defaults where they
/// are absent or of another type.
pub open spec fn options_from(value: JsonValue, o: HighlightOptions) -> bool {
    let explanation = json_member(value, "includeExplanation"@);
    &&& json_str(json_member(value, "lang"@)) == Some(o.language@)
    &&& json_str(json_member(value, "theme"@)) == Some(o.theme@)
    &&& o.tokenize.include_token_type == (json_str(explanation) == Some("tokenType"@))
    &&& o.tokenize.include_scopes == (explanation is Some && (json_bool(explanation) == Some(true)
        || json_str(explanation) == Some("scopeName"@)))
    &&& o.tokenize.time_limit_millis == match json_u64(json_member(value, "tokenizeTimeLimit"@)) {
        Some(n) => n,
        None => 500,
    }
    &&& o.tokenize.max_line_length == match json_u64(json_member(value, "tokenizeMaxLineLength"@)) {
        Some(n) => if n <= usize::MAX { n as usize } else { 0 },
        None => 0,
    }
    &&& o.render.merge_whitespaces == match json_bool(json_member(value, "mergeWhitespaces"@)) {
        Some(b) => b,
        None => true,
    }
    &&& o.render.merge_same_style_tokens == match json_bool(json_member(value, "mergeSameStyleTokens"@)) {
        Some(b) => b,
        None => false,
    }
    &&& crate::theme_style::opt_chars(o.render.root_style) == json_str(json_member(value, "rootStyle"@))
    &&& o.render.include_root_style == (json_bool(json_member(value, "rootStyle"@)) != Some(false))
    &&& crate::theme_style::opt_chars(o.render.tabindex) == tabindex_of(json_member(value, "tabindex"@))
}

fn owned(s: &str) -> (r: String)
    ensures
        r@ == s@,
{
    string_from_chars(chars_of(s).as_slice())
}

fn required_string(value: &JsonValue, key: &str) -> (r: Result<String, String>)
    ensures
        match r {
            Ok(s) => json_str(json_member(*value, key@)) == Some(s@),
            Err(e) => json_str(json_member(*value, key@)) is None && e@ == missing_option_message(key@),
        },
{
    match value.get(key) {
        Some(JsonValue::String(s)) => Ok(copy_string(s)),
        _ => {
            let mut v = chars_of("Highlight options require `");
            push_str_chars(&mut v, key);
            push_str_chars(&mut v, "`.");
            Err(string_from_chars(v.as_slice()))
        },
    }
}

impl HighlightOptions {
    /// Reads the options from a parsed JSON value (see `options_from`).
    /// Fails where `lang` or `theme` is not a string, `lang` first.
    pub fn from_json(value: &JsonValue) -> (r: Result<HighlightOptions, String>)
        ensures
            match r {
                Ok(o) => options_from(*value, o),
                Err(e) => if json_str(json_member(*value, "lang"@)) is None {
                    e@ == missing_option_message("lang"@)
                } else {
                    json_str(json_member(*value, "theme"@)) is None && e@ == missing_option_message("theme"@)
                },
            },
    {
        let language = match required_string(value, "lang") {
            Ok(s) => s,
            Err(e) => {
                return Err(e);
            },
        };
        let theme = match required_string(value, "theme") {
            Ok(s) => s,
            Err(e) => {
                return Err(e);
            },
        };
        let explanation = value.get("includeExplanation");
        let include_token_type = match explanation {
            Some(JsonValue::String(s)) => str_eq(s.as_str(), "tokenType"),
            _ => false,
        };
        let include_scopes = match explanation {
            Some(JsonValue::Bool(b)) => *b,
            Some(JsonValue::String(s)) => str_eq(s.as_str(), "scopeName"),
            _ => false,
        };
        let time_limit_millis = match value.get("tokenizeTimeLimit") {
            Some(JsonValue::Number(n)) => match n.unsigned {
                Some(v) => v,
                None => 500,
            },
            _ => 500,
        };
        let max_line_length: usize = match value.get("tokenizeMaxLineLength") {
            Some(JsonValue::Number(n)) => match n.unsigned {
                Some(v) => if v <= usize::MAX as u64 { v as usize } else { 0 },
                None => 0,
            },
            _ => 0,
        };
        let merge_whitespaces = match value.get("mergeWhitespaces") {
            Some(JsonValue::Bool(b)) => *b,
            _ => true,
        };
        let merge_same_style_tokens = match value.get("mergeSameStyleTokens") {
            Some(JsonValue::Bool(b)) => *b,
            _ => false,
        };
        let root = value.get("rootStyle");
        let root_style = match root {
            Some(JsonValue::String(s)) => Some(copy_string(s)),
            _ => None,
        };
        let include_root_style = match root {
            Some(JsonValue::Bool(false)) => false,
            _ => true,
        };
        let tabindex = match value.get("tabindex") {
            Some(JsonValue::Bool(false)) => None,
            Some(JsonValue::Null) => None,
            Some(JsonValue::String(s)) => Some(copy_string(s)),
            Some(JsonValue::Number(n)) => Some(copy_string(&n.text)),
            _ => Some(owned("0")),
        };
        Ok(HighlightOptions {
            language,
            theme,
            tokenize: TokenizeOptions { time_limit_millis, max_line_length, include_token_type, include_scopes },
            render: RenderOptions { merge_whitespaces, merge_same_style_tokens, root_style, include_root_style, tabindex },
        })
    }

    /// Reads the options from JSON text.  Fails where the text is not JSON,
    /// with serde_json's message after `Failed to parse highlight options: `,
    /// or as `from_json` does.
    pub fn parse(source: &str) -> (r: Result<HighlightOptions, String>)
        ensures
            match crate::json::json_text_value(source@) {
                Err(m) => r matches Err(e) && e@ == "Failed to parse highlight options: "@ + m,
                Ok(v) => match r {
                    Ok(o) => options_from(v, o),
                    Err(e) => if json_str(json_member(v, "lang"@)) is None {
                        e@ == missing_option_message("lang"@)
                    } else {
                        json_str(json_member(v, "theme"@)) is None && e@ == missing_option_message("theme"@)
                    },
                },
            },
    {
        match parse_json(source) {
            Ok(value) => HighlightOptions::from_json(&value),
            Err(message) => {
                let mut v = chars_of("Failed to parse highlight options: ");
                push_str_chars(&mut v, message.as_str());
                Err(string_from_chars(v.as_slice()))
            },
        }
    }
}

} // verus!
