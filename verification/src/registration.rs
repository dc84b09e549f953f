use vstd::prelude::*;

use crate::json::{json_member, json_str, json_u64, member_of, parse_json, JsonValue};
use crate::lexical::{chars_before, str_before};
use crate::rule_compiler::{member_ref, member_ref_of, opt_ref};
use crate::text::{push_str_chars, str_eq, string_from_chars};
use crate::theme_style::{normalize_hex_color, normalized_color, opt_chars, rule_prepared, ThemeData, ThemeRule};

verus! {

broadcast use vstd::string::group_string_axioms;

/// The strings among the elements of `items[from..]`, in order.
pub open spec fn strings_among(items: Seq<JsonValue>, from: int) -> Seq<Seq<char>>
    decreases items.len() - from,
{
    if from < 0 || from >= items.len() {
        Seq::empty()
    } else {
        match items[from] {
            JsonValue::String(s) => seq![s@] + strings_among(items, from + 1),
            _ => strings_among(items, from + 1),
        }
    }
}

/// The strings of an array value (none unless it is an array).
pub open spec fn string_array(v: Option<JsonValue>) -> Seq<Seq<char>> {
    match v {
        Some(JsonValue::Array(items)) => strings_among(items@, 0),
        _ => Seq::empty(),
    }
}

/// The views of a list of strings.
pub open spec fn views_of(v: Seq<String>) -> Seq<Seq<char>> {
    v.map_values(|s: String| s@)
}

/// The strings of an array value, in order; other elements are skipped.
pub fn parse_string_array(value: Option<&JsonValue>) -> (r: Vec<String>)
    ensures
        views_of(r@) == string_array(opt_ref(value)),
{
    let items = match value {
        Some(JsonValue::Array(items)) => items,
        _ => {
            return Vec::new();
        },
    };
    let mut out: Vec<String> = Vec::new();
    let mut i: usize = 0;
    while i < items.len()
        invariant
            i <= items.len(),
            strings_among(items@, 0) == views_of(out@) + strings_among(items@, i as int),
        decreases items.len() - i,
    {
        let ghost before = out@;
        match &items[i] {
            JsonValue::String(s) => {
                out.push(s.clone());
                assert(views_of(out@) =~= views_of(before).push(s@));
                assert(views_of(out@) + strings_among(items@, i + 1) =~= views_of(before) + strings_among(items@, i as int));
            },
            _ => {},
        }
        i += 1;
    }
    assert(views_of(out@) + strings_among(items@, i as int) =~= views_of(out@));
    out
}

/// A grammar as registered: its scope name, the grammar (with the scope
/// name filled in), its aliases, whether the payload gave the grammar
/// itself, and the scopes it injects into.
pub struct GrammarRegistration {
    pub scope_name: String,
    pub grammar: JsonValue,
    pub aliases: Vec<String>,
    pub has_explicit_grammar: bool,
    pub inject_to: Vec<String>,
}

/// Whether `members` has a member with key `key`.
pub open spec fn has_member(members: Seq<(String, JsonValue)>, key: Seq<char>) -> bool {
    member_of(members, key, 0) is Some
}

/// The first position whose key comes after `key`, or the end.
pub open spec fn key_position(members: Seq<(String, JsonValue)>, key: Seq<char>, from: int) -> int
    decreases members.len() - from,
{
    if from < 0 || from >= members.len() {
        members.len() as int
    } else if chars_before(key, members[from].0@) {
        from
    } else {
        key_position(members, key, from + 1)
    }
}

proof fn lemma_key_position(members: Seq<(String, JsonValue)>, key: Seq<char>, from: int)
    requires
        0 <= from <= members.len(),
    ensures
        from <= key_position(members, key, from) <= members.len(),
    decreases members.len() - from,
{
    if from < members.len() && !chars_before(key, members[from].0@) {
        lemma_key_position(members, key, from + 1);
    }
}

/// Whether `after` is `before` with the string member (`key`, `value`)
/// added where an object ordered by key puts it.
pub open spec fn with_string_member(before: Seq<(String, JsonValue)>, after: Seq<(String, JsonValue)>, key: Seq<char>, value: Seq<char>) -> bool {
    let p = key_position(before, key, 0);
    &&& after.len() == before.len() + 1
    &&& forall|i: int| 0 <= i < p ==> #[trigger] after[i] == before[i]
    &&& forall|i: int| p < i < after.len() ==> #[trigger] after[i] == before[i - 1]
    &&& after[p].0@ == key
    &&& after[p].1 matches JsonValue::String(s) && s@ == value
}

/// Adds the string member (`key`, `value`) where an object ordered by key
/// puts it.
fn insert_string_member(members: &mut Vec<(String, JsonValue)>, key: &str, value: String)
    ensures
        with_string_member(old(members)@, final(members)@, key@, value@),
{
    let ghost before = members@;
    proof {
        lemma_key_position(before, key@, 0);
    }
    let mut p: usize = 0;
    while p < members.len() && !str_before(key, members[p].0.as_str())
        invariant
            p <= members.len(),
            members@ == before,
            key_position(before, key@, 0) == key_position(before, key@, p as int),
        decreases members.len() - p,
    {
        p += 1;
    }
    members.insert(p, (key.to_string(), JsonValue::String(value)));
}

/// The grammar that a registration payload gives: its `grammar` member,
/// else the payload itself.
pub open spec fn registered_grammar(payload: JsonValue) -> JsonValue {
    match json_member(payload, "grammar"@) {
        Some(g) => g,
        None => payload,
    }
}

/// The scope name that a registration payload gives: its own
/// `scopeName`, else that of its grammar.
pub open spec fn registered_scope(payload: JsonValue) -> Option<Seq<char>> {
    match json_str(json_member(payload, "scopeName"@)) {
        Some(s) => Some(s),
        None => json_str(json_member(registered_grammar(payload), "scopeName"@)),
    }
}

/// The message of a registration whose JSON does not parse.
pub open spec fn parse_failure(prefix: Seq<char>, message: Seq<char>) -> Seq<char> {
    prefix + message
}

pub(crate) fn prefixed(prefix: &str, message: &str) -> (r: String)
    ensures
        r@ == prefix@ + message@,
{
    let mut v: Vec<char> = Vec::new();
    push_str_chars(&mut v, prefix);
    push_str_chars(&mut v, message);
    string_from_chars(v.as_slice())
}

fn has_key(members: &Vec<(String, JsonValue)>, key: &str) -> (r: bool)
    ensures
        r == has_member(members@, key@),
{
    member_ref(members, key).is_some()
}

/// Reads the members of a registration payload that are read before its
/// grammar is taken out: whether it gives a grammar, its scope name, its
/// aliases and the scopes it injects into.
fn registration_header(payload: &JsonValue) -> (r: (bool, Option<String>, Vec<String>, Vec<String>))
    requires
        *payload is Object,
    ensures
        r.0 == match *payload {
            JsonValue::Object(ms) => has_member(ms@, "grammar"@) || has_member(ms@, "patterns"@) || has_member(ms@, "repository"@)
                || has_member(ms@, "injections"@),
            _ => false,
        },
        opt_chars(r.1) == registered_scope(*payload),
        views_of(r.2@) == string_array(json_member(*payload, "aliases"@)),
        views_of(r.3@) == string_array(json_member(*payload, "injectTo"@)),
{
    let members = match payload {
        JsonValue::Object(ms) => ms,
        _ => {
            return (false, None, Vec::new(), Vec::new());
        },
    };
    let explicit = has_key(members, "grammar") || has_key(members, "patterns") || has_key(members, "repository")
        || has_key(members, "injections");
    let scope = match member_ref(members, "scopeName") {
        Some(JsonValue::String(s)) => Some(s.clone()),
        _ => {
            let grammar = match member_ref(members, "grammar") {
                Some(g) => g,
                None => payload,
            };
            match member_ref_of(grammar, "scopeName") {
                Some(JsonValue::String(s)) => Some(s.clone()),
                _ => None,
            }
        },
    };
    let aliases = parse_string_array(member_ref(members, "aliases"));
    let inject_to = parse_string_array(member_ref(members, "injectTo"));
    (explicit, scope, aliases, inject_to)
}

/// Takes the grammar out of a registration payload: its `grammar` member
/// (the first with that key), else the payload itself.
fn take_grammar(payload: JsonValue) -> (r: JsonValue)
    ensures
        r == registered_grammar(payload),
{
    match payload {
        JsonValue::Object(mut members) => {
            let mut i: usize = 0;
            while i < members.len()
                invariant
                    i <= members.len(),
                    payload == JsonValue::Object(members),
                    member_of(members@, "grammar"@, 0) == member_of(members@, "grammar"@, i as int),
                decreases members.len() - i,
            {
                if str_eq(members[i].0.as_str(), "grammar") {
                    let ghost found = members@[i as int].1;
                    let (_key, grammar) = members.remove(i);
                    assert(grammar == found);
                    return grammar;
                }
                i += 1;
            }
            JsonValue::Object(members)
        },
        other => other,
    }
}

/// Parses a grammar registration: the payload, or its `grammar` member,
/// with the payload's (else the grammar's) scope name filled into the
/// grammar where it has none; the aliases of the payload (else of the
/// grammar) and the scopes of its `injectTo`.
pub fn parse_grammar_registration(payload_json: &str) -> (r: Result<GrammarRegistration, String>)
    ensures
        match json_text_or(payload_json@) {
            Err(m) => r matches Err(e) && e@ == "Failed to parse grammar registration JSON: "@ + m,
            Ok(payload) => if !(payload is Object) {
                r matches Err(e) && e@ == "Grammar registration payload must be an object."@
            } else if registered_scope(payload) is None {
                r matches Err(e) && e@ == "Grammar registration requires `scopeName`."@
            } else if !(registered_grammar(payload) is Object) {
                r matches Err(e) && e@ == "Grammar registration `grammar` must be an object."@
            } else {
                r matches Ok(reg) && {
                    let scope = registered_scope(payload)->Some_0;
                    let before = registered_grammar(payload)->Object_0@;
                    &&& reg.scope_name@ == scope
                    &&& reg.has_explicit_grammar == match payload {
                        JsonValue::Object(ms) => has_member(ms@, "grammar"@) || has_member(ms@, "patterns"@)
                            || has_member(ms@, "repository"@) || has_member(ms@, "injections"@),
                        _ => false,
                    }
                    &&& reg.grammar matches JsonValue::Object(after) && if has_member(before, "scopeName"@) {
                        after@ == before
                    } else {
                        with_string_member(before, after@, "scopeName"@, scope)
                    }
                    &&& views_of(reg.aliases@) == if string_array(json_member(payload, "aliases"@)).len() > 0 {
                        string_array(json_member(payload, "aliases"@))
                    } else {
                        string_array(json_member(registered_grammar(payload), "aliases"@))
                    }
                    &&& views_of(reg.inject_to@) == string_array(json_member(payload, "injectTo"@))
                }
            },
        },
{
    let payload = match parse_json(payload_json) {
        Ok(v) => v,
        Err(message) => {
            return Err(prefixed("Failed to parse grammar registration JSON: ", message.as_str()));
        },
    };
    match &payload {
        JsonValue::Object(_) => {},
        _ => {
            return Err("Grammar registration payload must be an object.".to_string());
        },
    }
    let (has_explicit_grammar, scope, payload_aliases, inject_to) = registration_header(&payload);
    let scope_name = match scope {
        Some(s) => s,
        None => {
            return Err("Grammar registration requires `scopeName`.".to_string());
        },
    };
    let ghost p = payload;
    let mut grammar = take_grammar(payload);
    match &grammar {
        JsonValue::Object(_) => {},
        _ => {
            return Err("Grammar registration `grammar` must be an object.".to_string());
        },
    }
    let aliases = if payload_aliases.len() > 0 {
        payload_aliases
    } else {
        parse_string_array(member_ref_of(&grammar, "aliases"))
    };
    let ghost before = grammar;
    match &mut grammar {
        JsonValue::Object(members) => {
            if !has_key(members, "scopeName") {
                insert_string_member(members, "scopeName", scope_name.clone());
            }
        },
        _ => {},
    }
    assert(grammar matches JsonValue::Object(after) && if has_member(before->Object_0@, "scopeName"@) {
        after@ == before->Object_0@
    } else {
        with_string_member(before->Object_0@, after@, "scopeName"@, scope_name@)
    });
    Ok(GrammarRegistration { scope_name, grammar, aliases, has_explicit_grammar, inject_to })
}

/// What serde_json gives for a text, the value or the message of the
/// error.
pub open spec fn json_text_or(source: Seq<char>) -> Result<JsonValue, Seq<char>> {
    crate::json::json_text_value(source)
}

/// The rule that an element of a registration's `settings` gives: the
/// strings of its `scope` array, its `foreground`, and its `fontStyle`
/// number (0 where it has none) cut to its low eight bits.
pub open spec fn registered_rule(item: JsonValue) -> (Seq<Seq<char>>, Option<Seq<char>>, u8) {
    (
        string_array(json_member(item, "scope"@)),
        json_str(json_member(item, "foreground"@)),
        (match json_u64(json_member(item, "fontStyle"@)) {
            Some(n) => n,
            None => 0u64,
        }) as u8,
    )
}

/// The rules that the elements of `items[from..]` give: one for each object.
pub open spec fn registered_rules(items: Seq<JsonValue>, from: int) -> Seq<(Seq<Seq<char>>, Option<Seq<char>>, u8)>
    decreases items.len() - from,
{
    if from < 0 || from >= items.len() {
        Seq::empty()
    } else {
        match items[from] {
            JsonValue::Object(_) => seq![registered_rule(items[from])] + registered_rules(items, from + 1),
            _ => registered_rules(items, from + 1),
        }
    }
}

/// What a theme rule says: its selectors, its color as given, its style.
pub open spec fn rule_view(r: ThemeRule) -> (Seq<Seq<char>>, Option<Seq<char>>, u8) {
    (views_of(r.scopes@), opt_chars(r.foreground), r.font_style)
}

/// Whether `rules` are the prepared rules for `given`, with each color
/// normalized.
pub open spec fn rules_match(rules: Seq<ThemeRule>, given: Seq<(Seq<Seq<char>>, Option<Seq<char>>, u8)>) -> bool {
    &&& rules.len() == given.len()
    &&& forall|i: int| 0 <= i < rules.len() ==> {
        &&& views_of((#[trigger] rules[i]).scopes@) == given[i].0
        &&& opt_chars(rules[i].foreground) == match given[i].1 {
            Some(c) => Some(normalized_color(c)),
            None => None,
        }
        &&& rules[i].font_style == given[i].2
        &&& rule_prepared(rules[i])
    }
}

fn string_or_empty(v: Option<&JsonValue>) -> (r: String)
    ensures
        r@ == match json_str(opt_ref(v)) {
            Some(s) => s,
            None => Seq::empty(),
        },
{
    match v {
        Some(JsonValue::String(s)) => s.clone(),
        _ => String::new(),
    }
}

fn registered_theme_rule(item: &JsonValue) -> (r: ThemeRule)
    requires
        *item is Object,
    ensures
        views_of(r.scopes@) == registered_rule(*item).0,
        opt_chars(r.foreground) == match registered_rule(*item).1 {
            Some(c) => Some(normalized_color(c)),
            None => None,
        },
        r.font_style == registered_rule(*item).2,
        rule_prepared(r),
{
    let scopes = parse_string_array(member_ref_of(item, "scope"));
    let foreground = match member_ref_of(item, "foreground") {
        Some(JsonValue::String(s)) => Some(s.clone()),
        _ => None,
    };
    let bits: u64 = match member_ref_of(item, "fontStyle") {
        Some(JsonValue::Number(n)) => match n.unsigned {
            Some(u) => u,
            None => 0,
        },
        _ => 0,
    };
    ThemeRule::new(scopes, foreground, bits as u8)
}

/// Parses a theme registration: its `name` (required), `fg` and `bg`
/// (empty where not given) and, for each object in its `settings` array,
/// a rule.
pub fn parse_theme_registration(payload_json: &str) -> (r: Result<ThemeData, String>)
    ensures
        match json_text_or(payload_json@) {
            Err(m) => r matches Err(e) && e@ == "Failed to parse theme registration JSON: "@ + m,
            Ok(payload) => if !(payload is Object) {
                r matches Err(e) && e@ == "Theme registration payload must be an object."@
            } else if json_str(json_member(payload, "name"@)) is None {
                r matches Err(e) && e@ == "Theme registration requires `name`."@
            } else {
                r matches Ok(theme) && {
                    let fg = match json_str(json_member(payload, "fg"@)) {
                        Some(s) => s,
                        None => Seq::empty(),
                    };
                    &&& Some(theme.name@) == json_str(json_member(payload, "name"@))
                    &&& theme.fg@ == fg
                    &&& theme.fg_normalized@ == normalized_color(fg)
                    &&& theme.bg@ == match json_str(json_member(payload, "bg"@)) {
                        Some(s) => s,
                        None => Seq::empty(),
                    }
                    &&& rules_match(theme.settings@, match json_member(payload, "settings"@) {
                        Some(JsonValue::Array(items)) => registered_rules(items@, 0),
                        _ => Seq::empty(),
                    })
                }
            },
        },
{
    let payload = match parse_json(payload_json) {
        Ok(v) => v,
        Err(message) => {
            return Err(prefixed("Failed to parse theme registration JSON: ", message.as_str()));
        },
    };
    match &payload {
        JsonValue::Object(_) => {},
        _ => {
            return Err("Theme registration payload must be an object.".to_string());
        },
    }
    let name = match member_ref_of(&payload, "name") {
        Some(JsonValue::String(s)) => s.clone(),
        _ => {
            return Err("Theme registration requires `name`.".to_string());
        },
    };
    let fg = string_or_empty(member_ref_of(&payload, "fg"));
    let bg = string_or_empty(member_ref_of(&payload, "bg"));
    let mut settings: Vec<ThemeRule> = Vec::new();
    match member_ref_of(&payload, "settings") {
        Some(JsonValue::Array(items)) => {
            let mut i: usize = 0;
            while i < items.len()
                invariant
                    i <= items.len(),
                    rules_match(settings@, registered_rules(items@, 0).take(registered_rules(items@, 0).len() - registered_rules(items@, i as int).len())),
                    registered_rules(items@, 0).len() >= registered_rules(items@, i as int).len(),
                    registered_rules(items@, 0) =~= registered_rules(items@, 0).take(registered_rules(items@, 0).len() - registered_rules(items@, i as int).len()) + registered_rules(items@, i as int),
                decreases items.len() - i,
            {
                let ghost all = registered_rules(items@, 0);
                let ghost rest = registered_rules(items@, i as int);
                let ghost done = all.take(all.len() - rest.len());
                match &items[i] {
                    JsonValue::Object(_) => {
                        let rule = registered_theme_rule(&items[i]);
                        let ghost before = settings@;
                        settings.push(rule);
                        proof {
                            let after = registered_rules(items@, i + 1);
                            assert(rest == seq![registered_rule(items@[i as int])] + after);
                            let done2 = all.take(all.len() - after.len());
                            assert(done2 =~= done.push(registered_rule(items@[i as int])));
                            assert(all =~= done2 + after);
                            assert(settings@ == before.push(rule));
                            assert forall|k: int| 0 <= k < settings@.len() implies {
                                &&& views_of((#[trigger] settings@[k]).scopes@) == done2[k].0
                                &&& opt_chars(settings@[k].foreground) == match done2[k].1 {
                                    Some(c) => Some(normalized_color(c)),
                                    None => None,
                                }
                                &&& settings@[k].font_style == done2[k].2
                                &&& rule_prepared(settings@[k])
                            } by {
                                if k < before.len() {
                                    assert(settings@[k] == before[k]);
                                    assert(done2[k] == done[k]);
                                }
                            }
                        }
                    },
                    _ => {
                        proof {
                            assert(rest == registered_rules(items@, i + 1));
                        }
                    },
                }
                i += 1;
            }
            proof {
                let all = registered_rules(items@, 0);
                assert(registered_rules(items@, i as int) =~= Seq::<(Seq<Seq<char>>, Option<Seq<char>>, u8)>::empty());
                assert(all.take(all.len() as int) =~= all);
            }
        },
        _ => {},
    }
    let fg_normalized = normalize_hex_color(fg.as_str());
    Ok(ThemeData { name, fg, fg_normalized, bg, settings })
}

} // verus!
