use vstd::prelude::*;

use crate::json::{json_i64, json_integer, json_member, json_str, JsonValue};
use crate::lexical::string_views;
use crate::registration::{parse_string_array, string_array};
use crate::rule_compiler::{member_ref_of, opt_ref};
use crate::text::{copy_string, copy_strings};

verus! {

broadcast use vstd::string::group_string_axioms;

/// A level of the tokenizer's state: the rule it is in, where it entered
/// and anchored, the end pattern it waits for, and the scope names of its
/// rule's name and content.
#[derive(Clone, Debug, PartialEq, Eq)]
pub struct StateFrame {
    pub rule_id: i32,
    pub enter_pos: i32,
    pub anchor_pos: i32,
    pub end_rule: Option<String>,
    pub name_scopes: Vec<String>,
    pub content_scopes: Vec<String>,
}

/// The scope names of the first `n` frames: each frame's name scopes,
/// then its content scopes.
pub open spec fn frames_scopes(frames: Seq<StateFrame>, n: int) -> Seq<Seq<char>>
    decreases n,
{
    if n <= 0 || n > frames.len() {
        Seq::empty()
    } else {
        frames_scopes(frames, n - 1) + string_views(frames[n - 1].name_scopes@) + string_views(
            frames[n - 1].content_scopes@,
        )
    }
}

fn push_copies(out: &mut Vec<String>, items: &Vec<String>)
    ensures
        string_views(final(out)@) == string_views(old(out)@) + string_views(items@),
{
    let ghost start = string_views(out@);
    let mut i: usize = 0;
    while i < items.len()
        invariant
            i <= items.len(),
            string_views(out@) == start + string_views(items@).take(i as int),
        decreases items.len() - i,
    {
        let ghost before = out@;
        out.push(copy_string(&items[i]));
        assert(string_views(out@) =~= string_views(before).push(items@[i as int]@));
        assert(string_views(items@).take(i + 1) =~= string_views(items@).take(i as int).push(items@[i as int]@));
        i += 1;
    }
    assert(string_views(items@).take(i as int) =~= string_views(items@));
}

/// The scope stack of a state: the root scope where there is one, then
/// each frame's name and content scopes, outermost first.
pub fn build_scope_stack_from_frames(stack: &[StateFrame], root_scope: Option<&str>) -> (r: Vec<String>)
    ensures
        string_views(r@) == match root_scope {
            Some(root) => seq![root@],
            None => Seq::empty(),
        } + frames_scopes(stack@, stack@.len() as int),
{
    let mut scopes: Vec<String> = Vec::new();
    if let Some(root) = root_scope {
        scopes.push(root.to_string());
    }
    let ghost start = string_views(scopes@);
    assert(start =~= match root_scope {
        Some(root) => seq![root@],
        None => Seq::<Seq<char>>::empty(),
    });
    let mut i: usize = 0;
    while i < stack.len()
        invariant
            i <= stack.len(),
            string_views(scopes@) == start + frames_scopes(stack@, i as int),
        decreases stack.len() - i,
    {
        push_copies(&mut scopes, &stack[i].name_scopes);
        push_copies(&mut scopes, &stack[i].content_scopes);
        assert(string_views(scopes@) =~= start + frames_scopes(stack@, i + 1));
        i += 1;
    }
    scopes
}

/// A frame as plain values.
pub struct FrameView {
    pub rule_id: i32,
    pub enter_pos: i32,
    pub anchor_pos: i32,
    pub end_rule: Option<Seq<char>>,
    pub name_scopes: Seq<Seq<char>>,
    pub content_scopes: Seq<Seq<char>>,
}

pub open spec fn frame_view(f: StateFrame) -> FrameView {
    FrameView {
        rule_id: f.rule_id,
        enter_pos: f.enter_pos,
        anchor_pos: f.anchor_pos,
        end_rule: match f.end_rule {
            Some(e) => Some(e@),
            None => None,
        },
        name_scopes: string_views(f.name_scopes@),
        content_scopes: string_views(f.content_scopes@),
    }
}

pub open spec fn frame_views(fs: Seq<StateFrame>) -> Seq<FrameView> {
    fs.map_values(|f: StateFrame| frame_view(f))
}

/// The frame that a saved item gives: its `ruleId` (an integer, cut to
/// 32 bits), its `endRule` where it is a string, and the strings of its
/// `nameScopes` and `contentScopes` arrays; positions start at 0.  None
/// where the item is not an object or has no integer `ruleId`.
pub open spec fn saved_frame(item: JsonValue) -> Option<FrameView> {
    if !(item is Object) {
        None
    } else {
        match json_i64(json_member(item, "ruleId"@)) {
            None => None,
            Some(id) => Some(FrameView {
                rule_id: id as i32,
                enter_pos: 0,
                anchor_pos: 0,
                end_rule: json_str(json_member(item, "endRule"@)),
                name_scopes: string_array(json_member(item, "nameScopes"@)),
                content_scopes: string_array(json_member(item, "contentScopes"@)),
            }),
        }
    }
}

/// The frames that the first `n` saved items give, or none where one of
/// them gives none.
pub open spec fn saved_frames(items: Seq<JsonValue>, n: int) -> Option<Seq<FrameView>>
    decreases n,
{
    if n <= 0 || n > items.len() {
        Some(Seq::empty())
    } else {
        match (saved_frames(items, n - 1), saved_frame(items[n - 1])) {
            (Some(done), Some(f)) => Some(done.push(f)),
            _ => None,
        }
    }
}

/// The list of saved frames: the `frames` array of an object, or the value
/// itself where it is an array.
pub open spec fn saved_items(value: JsonValue) -> Option<Seq<JsonValue>> {
    match value {
        JsonValue::Object(_) => match json_member(value, "frames"@) {
            Some(JsonValue::Array(items)) => Some(items@),
            _ => None,
        },
        JsonValue::Array(items) => Some(items@),
        _ => None,
    }
}

fn frame_from(item: &JsonValue) -> (r: Option<StateFrame>)
    ensures
        match saved_frame(*item) {
            Some(f) => r matches Some(frame) && frame_view(frame) == f,
            None => r is None,
        },
{
    match item {
        JsonValue::Object(_) => {},
        _ => {
            return None;
        },
    }
    let rule_id: i64 = match member_ref_of(item, "ruleId") {
        Some(JsonValue::Number(n)) => match n.signed {
            Some(v) => v,
            None => {
                return None;
            },
        },
        _ => {
            return None;
        },
    };
    let end_rule = match member_ref_of(item, "endRule") {
        Some(JsonValue::String(s)) => Some(copy_string(s)),
        _ => None,
    };
    let name_scopes = parse_string_array(member_ref_of(item, "nameScopes"));
    let content_scopes = parse_string_array(member_ref_of(item, "contentScopes"));
    proof {
        assert(string_views(name_scopes@) =~= name_scopes@.map_values(|s: String| s@));
    }
    Some(StateFrame { rule_id: rule_id as i32, enter_pos: 0, anchor_pos: 0, end_rule, name_scopes, content_scopes })
}

/// Reads a saved tokenizer state: an object with a `frames` array (and a
/// `rootScope`), or a bare array of frames.  None where the frames are
/// missing or one of them is not a frame (see `saved_frame`).
pub fn deserialize_state_frames(value: &JsonValue) -> (r: Option<Vec<StateFrame>>)
    ensures
        match saved_items(*value) {
            None => r is None,
            Some(items) => match saved_frames(items, items.len() as int) {
                None => r is None,
                Some(fs) => r matches Some(v) && frame_views(v@) == fs,
            },
        },
{
    let items = match value {
        JsonValue::Object(_) => match member_ref_of(value, "frames") {
            Some(JsonValue::Array(items)) => items,
            _ => {
                return None;
            },
        },
        JsonValue::Array(items) => items,
        _ => {
            return None;
        },
    };
    assert(saved_items(*value) == Some(items@));
    let mut frames: Vec<StateFrame> = Vec::new();
    let mut i: usize = 0;
    while i < items.len()
        invariant
            i <= items.len(),
            saved_items(*value) == Some(items@),
            saved_frames(items@, i as int) == Some(frame_views(frames@)),
        decreases items.len() - i,
    {
        match frame_from(&items[i]) {
            Some(frame) => {
                let ghost before = frames@;
                frames.push(frame);
                assert(frame_views(frames@) =~= frame_views(before).push(frame_view(frame)));
            },
            None => {
                proof {
                    lemma_saved_fail(items@, i + 1, items@.len() as int);
                }
                return None;
            },
        }
        i += 1;
    }
    Some(frames)
}

proof fn lemma_saved_fail(items: Seq<JsonValue>, n: int, m: int)
    requires
        0 < n <= m <= items.len(),
        saved_frames(items, n) is None,
    ensures
        saved_frames(items, m) is None,
    decreases m - n,
{
    if n < m {
        lemma_saved_fail(items, n, m - 1);
    }
}

/// The strings as a JSON array.
fn string_array_value(items: &Vec<String>) -> (r: JsonValue)
    ensures
        r matches JsonValue::Array(vs) && vs@.len() == items@.len() && forall|i: int|
            0 <= i < items@.len() ==> ((#[trigger] vs@[i]) matches JsonValue::String(s) && s@ == items@[i]@),
{
    let mut vs: Vec<JsonValue> = Vec::new();
    let mut i: usize = 0;
    while i < items.len()
        invariant
            i <= items.len(),
            vs@.len() == i,
            forall|k: int| 0 <= k < i ==> ((#[trigger] vs@[k]) matches JsonValue::String(s) && s@ == items@[k]@),
        decreases items.len() - i,
    {
        vs.push(JsonValue::String(copy_string(&items[i])));
        i += 1;
    }
    JsonValue::Array(vs)
}

/// Whether `v` is the saved form of frame `f`: an object with the members
/// `contentScopes`, `endRule`, `nameScopes` and `ruleId`, in that order.
pub open spec fn saved_form(v: JsonValue, f: StateFrame) -> bool {
    &&& v matches JsonValue::Object(ms)
    &&& ms@.len() == 4
    &&& ms@[0].0@ == "contentScopes"@
    &&& string_array(Some(ms@[0].1)) == string_views(f.content_scopes@)
    &&& (ms@[0].1 matches JsonValue::Array(a) && a@.len() == f.content_scopes@.len())
    &&& ms@[1].0@ == "endRule"@ && match f.end_rule {
        Some(e) => ms@[1].1 matches JsonValue::String(s) && s@ == e@,
        None => ms@[1].1 is Null,
    }
    &&& ms@[2].0@ == "nameScopes"@
    &&& string_array(Some(ms@[2].1)) == string_views(f.name_scopes@)
    &&& (ms@[2].1 matches JsonValue::Array(a) && a@.len() == f.name_scopes@.len())
    &&& ms@[3].0@ == "ruleId"@
    &&& (ms@[3].1 matches JsonValue::Number(n) && n.signed == Some(f.rule_id as i64))
}

proof fn lemma_strings_among_all(items: Seq<JsonValue>, from: int)
    requires
        0 <= from <= items.len(),
        forall|i: int| 0 <= i < items.len() ==> #[trigger] items[i] is String,
    ensures
        crate::registration::strings_among(items, from) == items.subrange(from, items.len() as int).map_values(
            |v: JsonValue| match v {
                JsonValue::String(s) => s@,
                _ => Seq::<char>::empty(),
            },
        ),
    decreases items.len() - from,
{
    if from < items.len() {
        lemma_strings_among_all(items, from + 1);
        assert(items.subrange(from, items.len() as int).map_values(
            |v: JsonValue| match v {
                JsonValue::String(s) => s@,
                _ => Seq::<char>::empty(),
            },
        ) =~= seq![match items[from] {
            JsonValue::String(s) => s@,
            _ => Seq::<char>::empty(),
        }] + items.subrange(from + 1, items.len() as int).map_values(
            |v: JsonValue| match v {
                JsonValue::String(s) => s@,
                _ => Seq::<char>::empty(),
            },
        ));
    } else {
        assert(items.subrange(from, items.len() as int) =~= Seq::<JsonValue>::empty());
    }
}

proof fn lemma_array_strings(v: JsonValue, items: Seq<String>)
    requires
        v matches JsonValue::Array(vs) && vs@.len() == items.len() && forall|i: int|
            0 <= i < items.len() ==> ((#[trigger] vs@[i]) matches JsonValue::String(s) && s@ == items[i]@),
    ensures
        string_array(Some(v)) == string_views(items),
{
    match v {
        JsonValue::Array(a) => {
            lemma_strings_among_all(a@, 0);
            assert(a@.subrange(0, a@.len() as int) =~= a@);
            assert(string_views(items) =~= a@.map_values(
                |v: JsonValue| match v {
                    JsonValue::String(s) => s@,
                    _ => Seq::<char>::empty(),
                },
            ));
        },
        _ => {},
    }
}

fn saved_frame_value(f: &StateFrame) -> (r: JsonValue)
    ensures
        saved_form(r, *f),
{
    let contents = string_array_value(&f.content_scopes);
    let names = string_array_value(&f.name_scopes);
    proof {
        lemma_array_strings(contents, f.content_scopes@);
        lemma_array_strings(names, f.name_scopes@);
    }
    let end = match &f.end_rule {
        Some(e) => JsonValue::String(copy_string(e)),
        None => JsonValue::Null,
    };
    let id = json_integer(f.rule_id as i64);
    let mut members: Vec<(String, JsonValue)> = Vec::new();
    members.push(("contentScopes".to_string(), contents));
    members.push(("endRule".to_string(), end));
    members.push(("nameScopes".to_string(), names));
    members.push(("ruleId".to_string(), id));
    JsonValue::Object(members)
}

/// Saves a tokenizer state: an object with the root scope (where there is
/// one) under `rootScope` and the frames under `frames`, each with its
/// content scopes, end pattern, name scopes and rule (members in key order,
/// as serde_json orders them).
pub fn serialize_state_frames(stack: &[StateFrame], root_scope: Option<&str>) -> (r: JsonValue)
    ensures
        r matches JsonValue::Object(ms) && {
            &&& ms@.len() == if root_scope is Some { 2int } else { 1int }
            &&& ms@[0].0@ == "frames"@
            &&& ms@[0].1 matches JsonValue::Array(items) && items@.len() == stack@.len() && forall|i: int|
                0 <= i < stack@.len() ==> saved_form(#[trigger] items@[i], stack@[i])
            &&& root_scope matches Some(root) ==> (ms@[1].0@ == "rootScope"@ && (ms@[1].1 matches JsonValue::String(s)
                && s@ == root@))
        },
{
    let mut items: Vec<JsonValue> = Vec::new();
    let mut i: usize = 0;
    while i < stack.len()
        invariant
            i <= stack.len(),
            items@.len() == i,
            forall|k: int| 0 <= k < i ==> saved_form(#[trigger] items@[k], stack@[k]),
        decreases stack.len() - i,
    {
        items.push(saved_frame_value(&stack[i]));
        i += 1;
    }
    let mut members: Vec<(String, JsonValue)> = Vec::new();
    members.push(("frames".to_string(), JsonValue::Array(items)));
    if let Some(root) = root_scope {
        members.push(("rootScope".to_string(), JsonValue::String(root.to_string())));
    }
    JsonValue::Object(members)
}

/// Reading a saved state gives its frames back, each with its rule (cut
/// to 32 bits, which it already is), end pattern and scopes, and with
/// positions 0.
pub proof fn lemma_saved_frames_read_back(stack: Seq<StateFrame>, saved: JsonValue, root_present: bool)
    requires
        saved matches JsonValue::Object(ms) && ms@.len() >= 1 && ms@[0].0@ == "frames"@ && (ms@[0].1 matches JsonValue::Array(items)
            && items@.len() == stack.len() && forall|i: int| 0 <= i < stack.len() ==> saved_form(#[trigger] items@[i], stack[i])),
    ensures
        saved_items(saved) matches Some(items) && saved_frames(items, items.len() as int) == Some(
            stack.map_values(|f: StateFrame| FrameView { enter_pos: 0, anchor_pos: 0, ..frame_view(f) }),
        ),
{
    match saved {
        JsonValue::Object(ms) => {
            assert(json_member(saved, "frames"@) == Some(ms@[0].1));
            match ms@[0].1 {
                JsonValue::Array(items) => {
                    lemma_saved_frames_prefix(stack, items@, items@.len() as int);
                    assert(stack.map_values(|f: StateFrame| FrameView { enter_pos: 0, anchor_pos: 0, ..frame_view(f) }).take(
                        items@.len() as int,
                    ) =~= stack.map_values(|f: StateFrame| FrameView { enter_pos: 0, anchor_pos: 0, ..frame_view(f) }));
                },
                _ => {},
            }
        },
        _ => {},
    }
}

proof fn lemma_saved_frames_prefix(stack: Seq<StateFrame>, items: Seq<JsonValue>, n: int)
    requires
        0 <= n <= items.len(),
        items.len() == stack.len(),
        forall|i: int| 0 <= i < stack.len() ==> saved_form(#[trigger] items[i], stack[i]),
    ensures
        saved_frames(items, n) == Some(
            stack.map_values(|f: StateFrame| FrameView { enter_pos: 0, anchor_pos: 0, ..frame_view(f) }).take(n),
        ),
    decreases n,
{
    let all = stack.map_values(|f: StateFrame| FrameView { enter_pos: 0, anchor_pos: 0, ..frame_view(f) });
    if n > 0 {
        lemma_saved_frames_prefix(stack, items, n - 1);
        let item = items[n - 1];
        let f = stack[n - 1];
        assert(saved_form(item, f));
        reveal_strlit("contentScopes");
        reveal_strlit("endRule");
        reveal_strlit("nameScopes");
        reveal_strlit("ruleId");
        assert("contentScopes"@.len() == 13);
        assert("endRule"@.len() == 7);
        assert("nameScopes"@.len() == 10);
        assert("ruleId"@.len() == 6);
        match item {
            JsonValue::Object(ms) => {
                let m = ms@;
                assert(m[0].0@ != "ruleId"@);
                assert(m[1].0@ != "ruleId"@);
                assert(m[2].0@ != "ruleId"@);
                assert(crate::json::member_of(m, "ruleId"@, 3) == Some(m[3].1));
                assert(crate::json::member_of(m, "ruleId"@, 2) == Some(m[3].1));
                assert(crate::json::member_of(m, "ruleId"@, 1) == Some(m[3].1));
                assert(json_member(item, "ruleId"@) == Some(m[3].1));
                assert(m[0].0@ != "endRule"@);
                assert(crate::json::member_of(m, "endRule"@, 1) == Some(m[1].1));
                assert(json_member(item, "endRule"@) == Some(m[1].1));
                assert(m[0].0@ != "nameScopes"@);
                assert(m[1].0@ != "nameScopes"@);
                assert(crate::json::member_of(m, "nameScopes"@, 2) == Some(m[2].1));
                assert(crate::json::member_of(m, "nameScopes"@, 1) == Some(m[2].1));
                assert(json_member(item, "nameScopes"@) == Some(m[2].1));
                assert(json_member(item, "contentScopes"@) == Some(ms@[0].1));
            },
            _ => {},
        }
        assert(all.take(n) =~= all.take(n - 1).push(all[n - 1]));
    } else {
        assert(all.take(0) =~= Seq::<FrameView>::empty());
    }
}

} // verus!
