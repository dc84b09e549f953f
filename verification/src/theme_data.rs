use vstd::prelude::*;

use crate::json::{json_member, json_str, json_text_value, json_u64, parse_json, JsonValue};
use crate::registration::{string_array, parse_string_array, strings_among};
use crate::rule_compiler::{member_ref_of, opt_ref};
use crate::registration::prefixed;
use crate::text::{push_str_chars, str_eq, string_from_chars};
use crate::theme::RawThemeScope;
use crate::theme_trie::{ostr, RawTheme, RawThemeSetting, RawThemeStyle};

verus! {

broadcast use vstd::string::group_string_axioms;

/// A theme as the highlighter holds it: its name, its editor colors and
/// its settings, the first of which gives those colors.
#[derive(Clone, Debug)]
pub struct ThemeData {
    pub name: String,
    pub foreground: String,
    pub background: String,
    pub raw_theme: RawTheme,
}

/// The style of a setting as plain values.
pub struct RawStyleView {
    pub font_style: Option<Seq<char>>,
    pub foreground: Option<Seq<char>>,
    pub background: Option<Seq<char>>,
    pub font_family: Option<Seq<char>>,
    pub font_size: Option<u64>,
    pub line_height: Option<u64>,
}

/// The scope of a setting as plain values.
pub enum RawScopeView {
    Text(Seq<char>),
    List(Seq<Seq<char>>),
}

/// A setting as plain values.
pub struct RawSettingView {
    pub name: Option<Seq<char>>,
    pub scope: Option<RawScopeView>,
    pub settings: Option<RawStyleView>,
}

pub open spec fn raw_style_view(s: RawThemeStyle) -> RawStyleView {
    RawStyleView {
        font_style: ostr(s.font_style),
        foreground: ostr(s.foreground),
        background: ostr(s.background),
        font_family: ostr(s.font_family),
        font_size: s.font_size,
        line_height: s.line_height,
    }
}

pub open spec fn raw_scope_view(s: RawThemeScope) -> RawScopeView {
    match s {
        RawThemeScope::String(t) => RawScopeView::Text(t@),
        RawThemeScope::Array(v) => RawScopeView::List(v@.map_values(|t: String| t@)),
    }
}

pub open spec fn raw_setting_view(s: RawThemeSetting) -> RawSettingView {
    RawSettingView {
        name: ostr(s.name),
        scope: match s.scope {
            Some(sc) => Some(raw_scope_view(sc)),
            None => None,
        },
        settings: match s.settings {
            Some(st) => Some(raw_style_view(st)),
            None => None,
        },
    }
}

pub open spec fn raw_setting_views(s: Seq<RawThemeSetting>) -> Seq<RawSettingView> {
    s.map_values(|x: RawThemeSetting| raw_setting_view(x))
}

// ---------------------------------------------------------------------
// A setting written with a `settings` member is read field by field into
// the setting's shape: each field may be missing or `null`, or must have
// its type.

/// An optional text field: missing or `null`, or a string.
pub open spec fn optional_text(v: Option<JsonValue>) -> Result<Option<Seq<char>>, ()> {
    match v {
        None => Ok(None),
        Some(JsonValue::Null) => Ok(None),
        Some(JsonValue::String(s)) => Ok(Some(s@)),
        _ => Err(()),
    }
}

/// An optional number field, held as the bits of its double: missing or
/// `null`, or a number.
pub open spec fn optional_float(v: Option<JsonValue>) -> Result<Option<u64>, ()> {
    match v {
        None => Ok(None),
        Some(JsonValue::Null) => Ok(None),
        Some(JsonValue::Number(n)) => Ok(Some(n.bits)),
        _ => Err(()),
    }
}

/// Whether every item is a string.
pub open spec fn all_strings(items: Seq<JsonValue>) -> bool {
    forall|i: int| 0 <= i < items.len() ==> #[trigger] items[i] is String
}

/// An optional scope field: missing or `null`, a string, or an array of
/// strings.
pub open spec fn optional_scope(v: Option<JsonValue>) -> Result<Option<RawScopeView>, ()> {
    match v {
        None => Ok(None),
        Some(JsonValue::Null) => Ok(None),
        Some(JsonValue::String(s)) => Ok(Some(RawScopeView::Text(s@))),
        Some(JsonValue::Array(items)) => if all_strings(items@) {
            Ok(Some(RawScopeView::List(strings_among(items@, 0))))
        } else {
            Err(())
        },
        _ => Err(()),
    }
}

/// A style from its six fields, in the order `fontStyle`, `foreground`,
/// `background`, `fontFamily`, `fontSize`, `lineHeight`.
pub open spec fn style_fields(
    a: Option<JsonValue>,
    b: Option<JsonValue>,
    c: Option<JsonValue>,
    d: Option<JsonValue>,
    e: Option<JsonValue>,
    f: Option<JsonValue>,
) -> Result<RawStyleView, ()> {
    match (optional_text(a), optional_text(b), optional_text(c), optional_text(d), optional_float(e), optional_float(f)) {
        (Ok(fs), Ok(fg), Ok(bg), Ok(ff), Ok(sz), Ok(lh)) => Ok(RawStyleView {
            font_style: fs,
            foreground: fg,
            background: bg,
            font_family: ff,
            font_size: sz,
            line_height: lh,
        }),
        _ => Err(()),
    }
}

/// An optional style field: missing or `null`, an object read by its
/// members, or an array of exactly six values read in field order.
pub open spec fn optional_style(v: Option<JsonValue>) -> Result<Option<RawStyleView>, ()> {
    match v {
        None => Ok(None),
        Some(JsonValue::Null) => Ok(None),
        Some(JsonValue::Object(_)) => {
            let o = v.unwrap();
            match style_fields(
                json_member(o, "fontStyle"@),
                json_member(o, "foreground"@),
                json_member(o, "background"@),
                json_member(o, "fontFamily"@),
                json_member(o, "fontSize"@),
                json_member(o, "lineHeight"@),
            ) {
                Ok(s) => Ok(Some(s)),
                Err(_) => Err(()),
            }
        },
        Some(JsonValue::Array(items)) => if items@.len() == 6 {
            match style_fields(
                Some(items@[0]),
                Some(items@[1]),
                Some(items@[2]),
                Some(items@[3]),
                Some(items@[4]),
                Some(items@[5]),
            ) {
                Ok(s) => Ok(Some(s)),
                Err(_) => Err(()),
            }
        } else {
            Err(())
        },
        _ => Err(()),
    }
}

/// A setting read field by field from an entry.
pub open spec fn shaped_setting(entry: JsonValue) -> Result<RawSettingView, ()> {
    match (
        optional_text(json_member(entry, "name"@)),
        optional_scope(json_member(entry, "scope"@)),
        optional_style(json_member(entry, "settings"@)),
    ) {
        (Ok(n), Ok(sc), Ok(st)) => Ok(RawSettingView { name: n, scope: sc, settings: st }),
        _ => Err(()),
    }
}

// ---------------------------------------------------------------------
// A setting written without a `settings` member is a flat token color:
// what has the wrong type is left out.

/// The number of a value, held as the bits of its double.
pub open spec fn json_float(v: Option<JsonValue>) -> Option<u64> {
    match v {
        Some(JsonValue::Number(n)) => Some(n.bits),
        _ => None,
    }
}

/// `acc`, followed by `word` (with a space between them where `acc` is not
/// empty) where `present`.
pub open spec fn add_word(acc: Seq<char>, present: bool, word: Seq<char>) -> Seq<char> {
    if !present {
        acc
    } else if acc.len() == 0 {
        word
    } else {
        acc + seq![' '] + word
    }
}

/// The names of the font style bits, joined by spaces: `italic` (1),
/// `bold` (2), `underline` (4), `strikethrough` (8).
pub open spec fn font_style_words(bits: u64) -> Seq<char> {
    add_word(
        add_word(
            add_word(add_word(Seq::empty(), bits & 1 != 0, "italic"@), bits & 2 != 0, "bold"@),
            bits & 4 != 0,
            "underline"@,
        ),
        bits & 8 != 0,
        "strikethrough"@,
    )
}

/// The scope of a flat token color: a string, or the strings of an array.
pub open spec fn loose_scope(v: Option<JsonValue>) -> Option<RawScopeView> {
    match v {
        Some(JsonValue::String(s)) => Some(RawScopeView::Text(s@)),
        Some(JsonValue::Array(_)) => Some(RawScopeView::List(string_array(v))),
        _ => None,
    }
}

/// The setting of a flat token color.
pub open spec fn loose_setting(entry: JsonValue) -> RawSettingView {
    RawSettingView {
        name: json_str(json_member(entry, "name"@)),
        scope: loose_scope(json_member(entry, "scope"@)),
        settings: Some(RawStyleView {
            font_style: match json_u64(json_member(entry, "fontStyle"@)) {
                Some(b) => Some(font_style_words(b)),
                None => None,
            },
            foreground: json_str(json_member(entry, "foreground"@)),
            background: json_str(json_member(entry, "background"@)),
            font_family: json_str(json_member(entry, "fontFamily"@)),
            font_size: json_float(json_member(entry, "fontSize"@)),
            line_height: json_float(json_member(entry, "lineHeight"@)),
        }),
    }
}

/// The settings that the first `n` entries give: one for each object, or
/// a failure where an entry with a `settings` member does not have the
/// shape of a setting.
pub open spec fn settings_upto(items: Seq<JsonValue>, n: int) -> Result<Seq<RawSettingView>, ()>
    decreases n,
{
    if n <= 0 || n > items.len() {
        Ok(Seq::empty())
    } else {
        match settings_upto(items, n - 1) {
            Err(_) => Err(()),
            Ok(done) => match items[n - 1] {
                JsonValue::Object(_) => if json_member(items[n - 1], "settings"@) is Some {
                    match shaped_setting(items[n - 1]) {
                        Ok(s) => Ok(done.push(s)),
                        Err(_) => Err(()),
                    }
                } else {
                    Ok(done.push(loose_setting(items[n - 1])))
                },
                _ => Ok(done),
            },
        }
    }
}

/// The entries of a theme: its `tokenColors` array, else its `settings`
/// array.
pub open spec fn setting_entries(theme: JsonValue) -> Option<Seq<JsonValue>> {
    match json_member(theme, "tokenColors"@) {
        Some(JsonValue::Array(items)) => Some(items@),
        _ => match json_member(theme, "settings"@) {
            Some(JsonValue::Array(items)) => Some(items@),
            _ => None,
        },
    }
}

/// The settings of a theme.
pub open spec fn theme_settings(theme: JsonValue) -> Result<Seq<RawSettingView>, ()> {
    match setting_entries(theme) {
        None => Ok(Seq::empty()),
        Some(items) => settings_upto(items, items.len() as int),
    }
}

/// The message of a setting that does not have its shape.
pub open spec fn setting_error_text() -> Seq<char> {
    "Failed to parse TextMate theme setting: the entry does not have the shape of a theme setting"@
}

/// The position of the first setting without a name and a scope.
pub open spec fn global_index(settings: Seq<RawSettingView>, from: int) -> Option<int>
    decreases settings.len() - from,
{
    if from < 0 || from >= settings.len() {
        None
    } else if settings[from].name is None && settings[from].scope is None {
        Some(from)
    } else {
        global_index(settings, from + 1)
    }
}

/// The color that the first setting without a name and a scope gives, by
/// `pick` (foreground or background).
pub open spec fn global_color(settings: Seq<RawSettingView>, foreground: bool) -> Option<Seq<char>> {
    match global_index(settings, 0) {
        Some(k) => match settings[k].settings {
            Some(st) => if foreground { st.foreground } else { st.background },
            None => None,
        },
        None => None,
    }
}

/// The editor color `key` of a theme's `colors` object.
pub open spec fn editor_color(theme: JsonValue, key: Seq<char>) -> Option<Seq<char>> {
    match json_member(theme, "colors"@) {
        Some(colors) => json_str(json_member(colors, key)),
        None => None,
    }
}

/// The color of a theme: `fg` (or `bg`), else the global setting's, else
/// the editor's, else a fallback for light or dark themes.
pub open spec fn theme_color(theme: JsonValue, settings: Seq<RawSettingView>, foreground: bool) -> Seq<char> {
    let light = json_str(json_member(theme, "type"@)) == Some("light"@);
    match json_str(json_member(theme, if foreground { "fg"@ } else { "bg"@ })) {
        Some(c) => c,
        None => match global_color(settings, foreground) {
            Some(c) => c,
            None => match editor_color(theme, if foreground { "editor.foreground"@ } else { "editor.background"@ }) {
                Some(c) => c,
                None => if foreground {
                    if light { "#333333"@ } else { "#bbbbbb"@ }
                } else {
                    if light { "#fffffe"@ } else { "#1e1e1e"@ }
                },
            },
        },
    }
}

/// The settings, with a first setting that gives the editor colors put in
/// front where the first one has a scope or no style.
pub open spec fn with_editor_setting(settings: Seq<RawSettingView>, fg: Seq<char>, bg: Seq<char>) -> Seq<RawSettingView> {
    if settings.len() > 0 && settings[0].scope is None && settings[0].settings is Some {
        settings
    } else {
        seq![RawSettingView {
            name: None,
            scope: None,
            settings: Some(RawStyleView {
                font_style: None,
                foreground: Some(fg),
                background: Some(bg),
                font_family: None,
                font_size: None,
                line_height: None,
            }),
        }] + settings
    }
}

// ---------------------------------------------------------------------

fn optional_text_of(v: Option<&JsonValue>) -> (r: Result<Option<String>, ()>)
    ensures
        match optional_text(opt_ref(v)) {
            Ok(t) => r matches Ok(o) && ostr(o) == t,
            Err(_) => r is Err,
        },
{
    match v {
        None => Ok(None),
        Some(JsonValue::Null) => Ok(None),
        Some(JsonValue::String(s)) => Ok(Some(s.clone())),
        _ => Err(()),
    }
}

fn optional_float_of(v: Option<&JsonValue>) -> (r: Result<Option<u64>, ()>)
    ensures
        match optional_float(opt_ref(v)) {
            Ok(t) => r == Ok::<Option<u64>, ()>(t),
            Err(_) => r is Err,
        },
{
    match v {
        None => Ok(None),
        Some(JsonValue::Null) => Ok(None),
        Some(JsonValue::Number(n)) => Ok(Some(n.bits)),
        _ => Err(()),
    }
}

fn all_string_items(items: &Vec<JsonValue>) -> (r: bool)
    ensures
        r == all_strings(items@),
{
    let mut i: usize = 0;
    while i < items.len()
        invariant
            i <= items.len(),
            forall|k: int| 0 <= k < i ==> #[trigger] items@[k] is String,
        decreases items.len() - i,
    {
        match &items[i] {
            JsonValue::String(_) => {},
            _ => {
                return false;
            },
        }
        i += 1;
    }
    true
}

fn optional_scope_of(v: Option<&JsonValue>) -> (r: Result<Option<RawThemeScope>, ()>)
    ensures
        match optional_scope(opt_ref(v)) {
            Ok(t) => r matches Ok(o) && match o {
                Some(sc) => t == Some(raw_scope_view(sc)),
                None => t is None,
            },
            Err(_) => r is Err,
        },
{
    match v {
        None => Ok(None),
        Some(JsonValue::Null) => Ok(None),
        Some(JsonValue::String(s)) => Ok(Some(RawThemeScope::String(s.clone()))),
        Some(JsonValue::Array(items)) => {
            if all_string_items(items) {
                let list = parse_string_array(v);
                Ok(Some(RawThemeScope::Array(list)))
            } else {
                Err(())
            }
        },
        _ => Err(()),
    }
}

fn style_of_fields(
    a: Option<&JsonValue>,
    b: Option<&JsonValue>,
    c: Option<&JsonValue>,
    d: Option<&JsonValue>,
    e: Option<&JsonValue>,
    f: Option<&JsonValue>,
) -> (r: Result<RawThemeStyle, ()>)
    ensures
        match style_fields(opt_ref(a), opt_ref(b), opt_ref(c), opt_ref(d), opt_ref(e), opt_ref(f)) {
            Ok(t) => r matches Ok(s) && raw_style_view(s) == t,
            Err(_) => r is Err,
        },
{
    let font_style = match optional_text_of(a) {
        Ok(x) => x,
        Err(_) => {
            return Err(());
        },
    };
    let foreground = match optional_text_of(b) {
        Ok(x) => x,
        Err(_) => {
            return Err(());
        },
    };
    let background = match optional_text_of(c) {
        Ok(x) => x,
        Err(_) => {
            return Err(());
        },
    };
    let font_family = match optional_text_of(d) {
        Ok(x) => x,
        Err(_) => {
            return Err(());
        },
    };
    let font_size = match optional_float_of(e) {
        Ok(x) => x,
        Err(_) => {
            return Err(());
        },
    };
    let line_height = match optional_float_of(f) {
        Ok(x) => x,
        Err(_) => {
            return Err(());
        },
    };
    Ok(RawThemeStyle { font_style, foreground, background, font_family, font_size, line_height })
}

fn optional_style_of(v: Option<&JsonValue>) -> (r: Result<Option<RawThemeStyle>, ()>)
    ensures
        match optional_style(opt_ref(v)) {
            Ok(t) => r matches Ok(o) && match o {
                Some(st) => t == Some(raw_style_view(st)),
                None => t is None,
            },
            Err(_) => r is Err,
        },
{
    match v {
        None => Ok(None),
        Some(JsonValue::Null) => Ok(None),
        Some(o) => match o {
            JsonValue::Object(_) => {
                match style_of_fields(
                    member_ref_of(o, "fontStyle"),
                    member_ref_of(o, "foreground"),
                    member_ref_of(o, "background"),
                    member_ref_of(o, "fontFamily"),
                    member_ref_of(o, "fontSize"),
                    member_ref_of(o, "lineHeight"),
                ) {
                    Ok(s) => Ok(Some(s)),
                    Err(_) => Err(()),
                }
            },
            JsonValue::Array(items) => {
                if items.len() == 6 {
                    match style_of_fields(
                        Some(&items[0]),
                        Some(&items[1]),
                        Some(&items[2]),
                        Some(&items[3]),
                        Some(&items[4]),
                        Some(&items[5]),
                    ) {
                        Ok(s) => Ok(Some(s)),
                        Err(_) => Err(()),
                    }
                } else {
                    Err(())
                }
            },
            _ => Err(()),
        },
    }
}

fn shaped_setting_of(entry: &JsonValue) -> (r: Result<RawThemeSetting, ()>)
    ensures
        match shaped_setting(*entry) {
            Ok(t) => r matches Ok(s) && raw_setting_view(s) == t,
            Err(_) => r is Err,
        },
{
    let name = match optional_text_of(member_ref_of(entry, "name")) {
        Ok(x) => x,
        Err(_) => {
            return Err(());
        },
    };
    let scope = match optional_scope_of(member_ref_of(entry, "scope")) {
        Ok(x) => x,
        Err(_) => {
            return Err(());
        },
    };
    let settings = match optional_style_of(member_ref_of(entry, "settings")) {
        Ok(x) => x,
        Err(_) => {
            return Err(());
        },
    };
    Ok(RawThemeSetting { name, scope, settings })
}

fn text_of(v: Option<&JsonValue>) -> (r: Option<String>)
    ensures
        ostr(r) == json_str(opt_ref(v)),
{
    match v {
        Some(JsonValue::String(s)) => Some(s.clone()),
        _ => None,
    }
}

fn float_of(v: Option<&JsonValue>) -> (r: Option<u64>)
    ensures
        r == json_float(opt_ref(v)),
{
    match v {
        Some(JsonValue::Number(n)) => Some(n.bits),
        _ => None,
    }
}

/// The scope of a flat token color: a string, or the strings of an array
/// (other items left out); anything else gives none.
pub fn parse_scope(value: Option<&JsonValue>) -> (r: Option<RawThemeScope>)
    ensures
        match r {
            Some(sc) => loose_scope(opt_ref(value)) == Some(raw_scope_view(sc)),
            None => loose_scope(opt_ref(value)) is None,
        },
{
    match value {
        Some(JsonValue::String(s)) => Some(RawThemeScope::String(s.clone())),
        Some(JsonValue::Array(_)) => Some(RawThemeScope::Array(parse_string_array(value))),
        _ => None,
    }
}

fn push_word(out: &mut Vec<char>, present: bool, word: &str)
    ensures
        final(out)@ == add_word(old(out)@, present, word@),
{
    if present {
        if out.len() > 0 {
            out.push(' ');
        }
        let ghost before = out@;
        push_str_chars(out, word);
        proof {
            if before.len() == 0 {
                assert(out@ =~= word@);
            }
        }
    }
}

/// The font style of a flat token color: the names of the bits of its
/// `fontStyle` number (`italic`, `bold`, `underline`, `strikethrough`),
/// joined by spaces; none where it is not a non-negative integer.
pub fn flattened_font_style(value: Option<&JsonValue>) -> (r: Option<String>)
    ensures
        ostr(r) == match json_u64(opt_ref(value)) {
            Some(b) => Some(font_style_words(b)),
            None => None,
        },
{
    let bits: u64 = match value {
        Some(JsonValue::Number(n)) => match n.unsigned {
            Some(b) => b,
            None => {
                return None;
            },
        },
        _ => {
            return None;
        },
    };
    let mut out: Vec<char> = Vec::new();
    push_word(&mut out, bits & 1 != 0, "italic");
    push_word(&mut out, bits & 2 != 0, "bold");
    push_word(&mut out, bits & 4 != 0, "underline");
    push_word(&mut out, bits & 8 != 0, "strikethrough");
    Some(string_from_chars(out.as_slice()))
}

fn loose_setting_of(entry: &JsonValue) -> (r: RawThemeSetting)
    ensures
        raw_setting_view(r) == loose_setting(*entry),
{
    let style = RawThemeStyle {
        font_style: flattened_font_style(member_ref_of(entry, "fontStyle")),
        foreground: text_of(member_ref_of(entry, "foreground")),
        background: text_of(member_ref_of(entry, "background")),
        font_family: text_of(member_ref_of(entry, "fontFamily")),
        font_size: float_of(member_ref_of(entry, "fontSize")),
        line_height: float_of(member_ref_of(entry, "lineHeight")),
    };
    RawThemeSetting {
        name: text_of(member_ref_of(entry, "name")),
        scope: parse_scope(member_ref_of(entry, "scope")),
        settings: Some(style),
    }
}

fn setting_error() -> (r: String)
    ensures
        r@ == setting_error_text(),
{
    "Failed to parse TextMate theme setting: the entry does not have the shape of a theme setting".to_string()
}

/// The settings of a theme, from its `tokenColors` array (else its
/// `settings` array): for each object, the setting it gives.  An object
/// with a `settings` member is read field by field and fails where a field
/// has the wrong type; one without is a flat token color.
pub fn parse_settings(theme: &JsonValue) -> (r: Result<Vec<RawThemeSetting>, String>)
    ensures
        match theme_settings(*theme) {
            Ok(s) => r matches Ok(v) && raw_setting_views(v@) == s,
            Err(_) => r matches Err(e) && e@ == setting_error_text(),
        },
{
    let entries = match member_ref_of(theme, "tokenColors") {
        Some(JsonValue::Array(items)) => items,
        _ => match member_ref_of(theme, "settings") {
            Some(JsonValue::Array(items)) => items,
            _ => {
                return Ok(Vec::new());
            },
        },
    };
    assert(setting_entries(*theme) == Some(entries@));
    let mut out: Vec<RawThemeSetting> = Vec::new();
    assert(raw_setting_views(out@) =~= Seq::<RawSettingView>::empty());
    let mut i: usize = 0;
    while i < entries.len()
        invariant
            i <= entries.len(),
            settings_upto(entries@, i as int) == Ok::<Seq<RawSettingView>, ()>(raw_setting_views(out@)),
            setting_entries(*theme) == Some(entries@),
        decreases entries.len() - i,
    {
        let entry = &entries[i];
        let ghost before = out@;
        match entry {
            JsonValue::Object(_) => {
                if member_ref_of(entry, "settings").is_some() {
                    match shaped_setting_of(entry) {
                        Ok(s) => {
                            out.push(s);
                        },
                        Err(_) => {
                            proof {
                                assert(settings_upto(entries@, i + 1) is Err);
                                lemma_settings_fail_on(entries@, i + 1, entries@.len() as int);
                                assert(theme_settings(*theme) == settings_upto(entries@, entries@.len() as int));
                            }
                            return Err(setting_error());
                        },
                    }
                } else {
                    out.push(loose_setting_of(entry));
                }
                assert(raw_setting_views(out@) =~= raw_setting_views(before).push(raw_setting_view(out@.last())));
            },
            _ => {},
        }
        i += 1;
    }
    assert(theme_settings(*theme) == settings_upto(entries@, entries@.len() as int));
    Ok(out)
}

proof fn lemma_settings_fail_on(items: Seq<JsonValue>, n: int, m: int)
    requires
        0 < n <= m <= items.len(),
        settings_upto(items, n) is Err,
    ensures
        settings_upto(items, m) is Err,
    decreases m - n,
{
    if n < m {
        lemma_settings_fail_on(items, n, m - 1);
    }
}

/// The position of the first setting without a name and a scope.
fn global_position(settings: &Vec<RawThemeSetting>) -> (r: Option<usize>)
    ensures
        match r {
            Some(k) => k < settings.len() && global_index(raw_setting_views(settings@), 0) == Some(k as int),
            None => global_index(raw_setting_views(settings@), 0) is None,
        },
{
    let ghost views = raw_setting_views(settings@);
    let mut i: usize = 0;
    while i < settings.len()
        invariant
            i <= settings.len(),
            views == raw_setting_views(settings@),
            global_index(views, 0) == global_index(views, i as int),
        decreases settings.len() - i,
    {
        assert(views[i as int] == raw_setting_view(settings@[i as int]));
        if settings[i].name.is_none() && settings[i].scope.is_none() {
            return Some(i);
        }
        i += 1;
    }
    None
}

fn theme_color_of(theme: &JsonValue, settings: &Vec<RawThemeSetting>, foreground: bool) -> (r: String)
    ensures
        r@ == theme_color(*theme, raw_setting_views(settings@), foreground),
{
    let ghost views = raw_setting_views(settings@);
    let own = if foreground { member_ref_of(theme, "fg") } else { member_ref_of(theme, "bg") };
    if let Some(JsonValue::String(c)) = own {
        return c.clone();
    }
    let global: Option<&Option<String>> = match global_position(settings) {
        Some(k) => {
            assert(views[k as int] == raw_setting_view(settings@[k as int]));
            match &settings[k].settings {
                Some(st) => if foreground { Some(&st.foreground) } else { Some(&st.background) },
                None => None,
            }
        },
        None => None,
    };
    if let Some(Some(c)) = global {
        return c.clone();
    }
    assert(global_color(views, foreground) is None);
    let colors = member_ref_of(theme, "colors");
    let key = if foreground { "editor.foreground" } else { "editor.background" };
    if let Some(cs) = colors {
        if let Some(JsonValue::String(c)) = member_ref_of(cs, key) {
            return c.clone();
        }
    }
    let light = match member_ref_of(theme, "type") {
        Some(JsonValue::String(t)) => str_eq(t.as_str(), "light"),
        _ => false,
    };
    if foreground {
        if light { "#333333".to_string() } else { "#bbbbbb".to_string() }
    } else {
        if light { "#fffffe".to_string() } else { "#1e1e1e".to_string() }
    }
}

/// Reads a theme file: its `name` (else `id`), its settings, and its
/// editor colors (`fg` and `bg`, else the global setting's, else the
/// `colors` of the editor, else a fallback for its `type`).  Where the
/// first setting has a scope or no style, a setting with the editor colors
/// is put in front.
pub fn parse_theme_data(id: &str, source: &str) -> (r: Result<ThemeData, String>)
    ensures
        match json_text_value(source@) {
            Err(m) => r matches Err(e) && e@ == "Failed to parse theme JSON: "@ + m,
            Ok(theme) => if !(theme is Object) {
                r matches Err(e) && e@ == "Theme registration must be a JSON object."@
            } else {
                match theme_settings(theme) {
                    Err(_) => r matches Err(e) && e@ == setting_error_text(),
                    Ok(settings) => r matches Ok(data) && {
                        let name = match json_str(json_member(theme, "name"@)) {
                            Some(n) => n,
                            None => id@,
                        };
                        let fg = theme_color(theme, settings, true);
                        let bg = theme_color(theme, settings, false);
                        &&& data.name@ == name
                        &&& data.foreground@ == fg
                        &&& data.background@ == bg
                        &&& ostr(data.raw_theme.name) == Some(name)
                        &&& raw_setting_views(data.raw_theme.settings@) == with_editor_setting(settings, fg, bg)
                    },
                }
            },
        },
{
    let theme = match parse_json(source) {
        Ok(v) => v,
        Err(m) => {
            return Err(prefixed("Failed to parse theme JSON: ", m.as_str()));
        },
    };
    match &theme {
        JsonValue::Object(_) => {},
        _ => {
            return Err("Theme registration must be a JSON object.".to_string());
        },
    }
    let name = match member_ref_of(&theme, "name") {
        Some(JsonValue::String(n)) => n.clone(),
        _ => id.to_string(),
    };
    let mut settings = match parse_settings(&theme) {
        Ok(s) => s,
        Err(e) => {
            return Err(e);
        },
    };
    let foreground = theme_color_of(&theme, &settings, true);
    let background = theme_color_of(&theme, &settings, false);
    let keep = settings.len() > 0 && settings[0].scope.is_none() && settings[0].settings.is_some();
    proof {
        if settings.len() > 0 {
            assert(raw_setting_views(settings@)[0] == raw_setting_view(settings@[0]));
        }
    }
    if !keep {
        let first = RawThemeSetting {
            name: None,
            scope: None,
            settings: Some(RawThemeStyle {
                font_style: None,
                foreground: Some(foreground.clone()),
                background: Some(background.clone()),
                font_family: None,
                font_size: None,
                line_height: None,
            }),
        };
        let ghost before = settings@;
        settings.insert(0, first);
        assert(raw_setting_views(settings@) =~= seq![raw_setting_view(first)] + raw_setting_views(before));
    }
    let theme_name = name.clone();
    Ok(ThemeData { name, foreground, background, raw_theme: RawTheme { name: Some(theme_name), settings } })
}

} // verus!
