use vstd::prelude::*;

use crate::injection::{
    clause_priority, compile_selector, compile_selector_spec, parse_injection_clause_priority, selector_view,
    CompiledSelector, InjectionPriority,
};
use crate::json::{json_member, json_str, member_of, JsonValue};
use crate::rules::{
    back_reference_from, captures_view, copy_captures, decimal_text, grammar_captures, has_back_references, opt_view,
    parse_grammar_captures, push_decimal, GrammarCapture, Rule, RuleRegistry,
};
use crate::scanner::{build_scanner_for_rule, scanner_built, CompiledScanner};
use crate::text::{chars_of, find_char, first_index_from, lemma_first_index_from, push_str_chars, str_eq, string_from_chars, sub_chars};

verus! {

broadcast use vstd::string::group_string_axioms;

/// The deepest nesting of rule descriptions that is compiled.
pub const MAX_COMPILE_DEPTH: usize = 64;

/// The value behind an optional reference.
pub open spec fn opt_ref(v: Option<&JsonValue>) -> Option<JsonValue> {
    match v {
        Some(x) => Some(*x),
        None => None,
    }
}

/// Where the description of a rule comes from: a value of a grammar, or an
/// entry that initialising a grammar adds to its repository (`$self`,
/// `$base`), which has only the members `patterns`, `name` and
/// `repository`, each where it is given.
#[derive(Clone, Copy)]
pub enum RuleSource<'a> {
    Value(&'a JsonValue),
    Entry { patterns: Option<&'a JsonValue>, name: Option<&'a JsonValue>, repository: Option<&'a JsonValue> },
}

impl<'a> RuleSource<'a> {
    /// Whether the description is an object.
    pub open spec fn is_object(self) -> bool {
        match self {
            RuleSource::Value(v) => *v is Object,
            RuleSource::Entry { .. } => true,
        }
    }

    /// The member `key` of the description.
    pub open spec fn field(self, key: Seq<char>) -> Option<JsonValue> {
        match self {
            RuleSource::Value(v) => json_member(*v, key),
            RuleSource::Entry { patterns, name, repository } => {
                if key == "patterns"@ {
                    opt_ref(patterns)
                } else if key == "name"@ {
                    opt_ref(name)
                } else if key == "repository"@ {
                    opt_ref(repository)
                } else {
                    None
                }
            },
        }
    }

    /// Whether the description is an object.
    pub fn is_object_value(&self) -> (r: bool)
        ensures
            r == self.is_object(),
    {
        match self {
            RuleSource::Value(v) => match v {
                JsonValue::Object(_) => true,
                _ => false,
            },
            RuleSource::Entry { .. } => true,
        }
    }

    /// The member `key` of the description.
    pub fn get(&self, key: &str) -> (r: Option<&'a JsonValue>)
        ensures
            opt_ref(r) == self.field(key@),
    {
        match self {
            RuleSource::Value(v) => member_ref_of(v, key),
            RuleSource::Entry { patterns, name, repository } => {
                if str_eq(key, "patterns") {
                    *patterns
                } else if str_eq(key, "name") {
                    *name
                } else if str_eq(key, "repository") {
                    *repository
                } else {
                    None
                }
            },
        }
    }
}

/// The member `key` of a value, where it is an object that has one.
pub fn member_ref_of<'a>(v: &'a JsonValue, key: &str) -> (r: Option<&'a JsonValue>)
    ensures
        opt_ref(r) == json_member(*v, key@),
{
    match v {
        JsonValue::Object(members) => member_ref(members, key),
        _ => None,
    }
}

/// The first member with key `key`.
pub fn member_ref<'a>(members: &'a Vec<(String, JsonValue)>, key: &str) -> (r: Option<&'a JsonValue>)
    ensures
        opt_ref(r) == member_of(members@, key@, 0),
{
    let mut i: usize = 0;
    while i < members.len()
        invariant
            i <= members.len(),
            member_of(members@, key@, 0) == member_of(members@, key@, i as int),
        decreases members.len() - i,
    {
        if str_eq(members[i].0.as_str(), key) {
            return Some(&members[i].1);
        }
        i += 1;
    }
    None
}

/// The repository of a grammar as initialising the grammar leaves it: its
/// own entries, with `$self` and `$base` added over them.  `id` tells
/// repositories apart: every initialisation gets one of its own.
pub struct GrammarRepository<'a> {
    pub id: u64,
    pub members: Option<&'a Vec<(String, JsonValue)>>,
    pub self_entry: RuleSource<'a>,
    pub base_entry: RuleSource<'a>,
}

/// The entries of a repository object, or none.
pub open spec fn members_view(members: Option<&Vec<(String, JsonValue)>>) -> Seq<(String, JsonValue)> {
    match members {
        Some(ms) => ms@,
        None => Seq::empty(),
    }
}

impl<'a> GrammarRepository<'a> {
    /// The description stored under `key`.
    pub open spec fn entry(self, key: Seq<char>) -> Option<RuleSource<'a>> {
        if key == "$self"@ {
            Some(self.self_entry)
        } else if key == "$base"@ {
            Some(self.base_entry)
        } else {
            match member_of(members_view(self.members), key, 0) {
                Some(v) => Some(RuleSource::Value(&v)),
                None => None,
            }
        }
    }

    /// The description stored under `key`.
    pub fn lookup(&self, key: &str) -> (r: Option<RuleSource<'a>>)
        ensures
            r == self.entry(key@),
    {
        if str_eq(key, "$self") {
            Some(self.self_entry)
        } else if str_eq(key, "$base") {
            Some(self.base_entry)
        } else {
            match self.members {
                Some(ms) => match member_ref(ms, key) {
                    Some(v) => Some(RuleSource::Value(v)),
                    None => None,
                },
                None => None,
            }
        }
    }
}

/// Whether `e` is the entry that initialising a grammar builds from `g`:
/// its patterns and its scope name, and its repository where it is asked
/// for.
pub open spec fn entry_from(e: RuleSource, g: JsonValue, with_repository: bool) -> bool {
    match e {
        RuleSource::Entry { patterns, name, repository } => {
            &&& opt_ref(patterns) == json_member(g, "patterns"@)
            &&& opt_ref(name) == json_member(g, "scopeName"@)
            &&& opt_ref(repository) == (if with_repository { json_member(g, "repository"@) } else { None })
        },
        _ => false,
    }
}

/// Whether a grammar can be initialised: it is an object, and its
/// repository, where it has one, is an object too.
pub open spec fn initialisable(g: JsonValue) -> bool {
    &&& g is Object
    &&& match json_member(g, "repository"@) {
        Some(JsonValue::Object(_)) => true,
        Some(_) => false,
        None => true,
    }
}

/// Initialises a grammar: adds the `$self` entry (the grammar's patterns
/// and scope name) and the `$base` entry (those of the base grammar, with
/// its repository, where one is given and is an object; else the same as
/// `$self`) to its repository.  A grammar that is not an object, or whose
/// repository is not an object, gives no repository.
pub fn init_grammar<'a>(grammar: &'a JsonValue, base_grammar: Option<&'a JsonValue>, id: u64) -> (r: Option<GrammarRepository<'a>>)
    ensures
        r is Some <==> initialisable(*grammar),
        r matches Some(repo) ==> {
            &&& repo.id == id
            &&& members_view(repo.members) == match json_member(*grammar, "repository"@) {
                Some(JsonValue::Object(ms)) => ms@,
                _ => Seq::empty(),
            }
            &&& entry_from(repo.self_entry, *grammar, false)
            &&& match base_grammar {
                Some(b) => if *b is Object {
                    entry_from(repo.base_entry, *b, true)
                } else {
                    repo.base_entry == repo.self_entry
                },
                None => repo.base_entry == repo.self_entry,
            }
        },
{
    match grammar {
        JsonValue::Object(_) => {},
        _ => {
            return None;
        },
    }
    let members = match member_ref_of(grammar, "repository") {
        Some(JsonValue::Object(ms)) => Some(ms),
        Some(_) => {
            return None;
        },
        None => None,
    };
    let self_entry = RuleSource::Entry {
        patterns: member_ref_of(grammar, "patterns"),
        name: member_ref_of(grammar, "scopeName"),
        repository: None,
    };
    let base_entry = match base_grammar {
        Some(b) => match b {
            JsonValue::Object(_) => RuleSource::Entry {
                patterns: member_ref_of(b, "patterns"),
                name: member_ref_of(b, "scopeName"),
                repository: member_ref_of(b, "repository"),
            },
            _ => self_entry,
        },
        None => self_entry,
    };
    Some(GrammarRepository { id, members, self_entry, base_entry })
}

/// The memo key of the repository entry `key` of repository `id`.
pub open spec fn repository_key(id: u64, key: Seq<char>) -> Seq<char> {
    decimal_text(id as nat) + ":repo/"@ + key
}

/// The memo key of pattern `index` of the rule with key `parent`.
pub open spec fn pattern_key(parent: Seq<char>, index: usize) -> Seq<char> {
    parent + "/pat/"@ + decimal_text(index as nat)
}

/// The memo key of entry `key` of the grammar with scope `scope`.
pub open spec fn cross_key(scope: Seq<char>, key: Seq<char>) -> Seq<char> {
    "cross:"@ + scope + "#"@ + key
}

/// The memo key of the `$self` entry of the grammar with scope `scope`.
pub open spec fn scope_key(scope: Seq<char>) -> Seq<char> {
    "scope:"@ + scope + "/$self"@
}

fn make_repository_key(id: u64, key: &str) -> (r: String)
    ensures
        r@ == repository_key(id, key@),
{
    let mut v: Vec<char> = Vec::new();
    push_decimal(&mut v, id);
    push_str_chars(&mut v, ":repo/");
    push_str_chars(&mut v, key);
    string_from_chars(v.as_slice())
}

fn make_pattern_key(parent: &str, index: usize) -> (r: String)
    ensures
        r@ == pattern_key(parent@, index),
{
    let mut v: Vec<char> = Vec::new();
    push_str_chars(&mut v, parent);
    push_str_chars(&mut v, "/pat/");
    push_decimal(&mut v, index as u64);
    string_from_chars(v.as_slice())
}

fn make_cross_key(scope: &str, key: &str) -> (r: String)
    ensures
        r@ == cross_key(scope@, key@),
{
    let mut v: Vec<char> = Vec::new();
    push_str_chars(&mut v, "cross:");
    push_str_chars(&mut v, scope);
    push_str_chars(&mut v, "#");
    push_str_chars(&mut v, key);
    string_from_chars(v.as_slice())
}

fn make_scope_key(scope: &str) -> (r: String)
    ensures
        r@ == scope_key(scope@),
{
    let mut v: Vec<char> = Vec::new();
    push_str_chars(&mut v, "scope:");
    push_str_chars(&mut v, scope);
    push_str_chars(&mut v, "/$self");
    string_from_chars(v.as_slice())
}

/// The id remembered for `key`: that of the first entry with the key.
pub open spec fn memo_lookup(memo: Seq<(String, i32)>, key: Seq<char>, from: int) -> Option<i32>
    decreases memo.len() - from,
{
    if from < 0 || from >= memo.len() {
        None
    } else if memo[from].0@ == key {
        Some(memo[from].1)
    } else {
        memo_lookup(memo, key, from + 1)
    }
}

proof fn lemma_memo_lookup(memo: Seq<(String, i32)>, key: Seq<char>, from: int)
    requires
        0 <= from,
    ensures
        memo_lookup(memo, key, from) matches Some(id) ==> exists|i: int| from <= i < memo.len() && #[trigger] memo[i].1 == id,
        memo_lookup(memo, key, from) is None ==> forall|i: int| from <= i < memo.len() ==> (#[trigger] memo[i]).0@ != key,
    decreases memo.len() - from,
{
    if from < memo.len() {
        lemma_memo_lookup(memo, key, from + 1);
        if memo[from].0@ == key {
            assert(memo[from].1 == memo[from].1);
        }
    }
}

/// An entry appended after a memo without the key is what a lookup of the
/// key finds.
proof fn lemma_memo_first_new(old: Seq<(String, i32)>, new: Seq<(String, i32)>, key: Seq<char>, from: int)
    requires
        0 <= from <= old.len(),
        old.len() < new.len(),
        forall|i: int| 0 <= i < old.len() ==> #[trigger] new[i] == old[i],
        forall|i: int| from <= i < old.len() ==> (#[trigger] old[i]).0@ != key,
        new[old.len() as int].0@ == key,
    ensures
        memo_lookup(new, key, from) == Some(new[old.len() as int].1),
    decreases old.len() - from,
{
    if from < old.len() {
        assert(new[from] == old[from]);
        lemma_memo_first_new(old, new, key, from + 1);
    }
}

fn memo_find(memo: &Vec<(String, i32)>, key: &str) -> (r: Option<i32>)
    ensures
        r == memo_lookup(memo@, key@, 0),
{
    let mut i: usize = 0;
    while i < memo.len()
        invariant
            i <= memo.len(),
            memo_lookup(memo@, key@, 0) == memo_lookup(memo@, key@, i as int),
        decreases memo.len() - i,
    {
        if str_eq(memo[i].0.as_str(), key) {
            return Some(memo[i].1);
        }
        i += 1;
    }
    None
}

/// What compiling rules builds up: the registry, the ids remembered by key
/// (so that each description is compiled once, and cycles end), and the
/// identity the next initialised repository gets.
pub struct CompileState {
    pub registry: RuleRegistry,
    pub compiled: Vec<(String, i32)>,
    pub next_repository: u64,
}

impl CompileState {
    /// The registry is well formed, every remembered id was handed out, and
    /// no key is remembered twice.
    pub open spec fn wf(&self) -> bool {
        &&& self.registry.wf()
        &&& forall|i: int| 0 <= i < self.compiled@.len() ==> 1 <= (#[trigger] self.compiled@[i]).1 < self.registry.next_id
        &&& forall|i: int, j: int| 0 <= i < j < self.compiled@.len() ==> (#[trigger] self.compiled@[i]).0@ != (#[trigger] self.compiled@[j]).0@
    }
}

/// How compiling changes the state: ids are only added; a stored rule stays
/// as it is; every id handed out since has its rule stored; remembered keys
/// stay remembered.
pub open spec fn grows(a: CompileState, b: CompileState) -> bool {
    &&& a.registry.next_id <= b.registry.next_id
    &&& forall|i: int| 0 <= i < a.registry.rules@.len() && (#[trigger] a.registry.rules@[i]) is Some ==> b.registry.rules@[i] == a.registry.rules@[i]
    &&& forall|i: int| a.registry.rules@.len() <= i < b.registry.rules@.len() ==> (#[trigger] b.registry.rules@[i]) is Some
    &&& a.compiled@.len() <= b.compiled@.len()
    &&& forall|i: int| 0 <= i < a.compiled@.len() ==> #[trigger] b.compiled@[i] == a.compiled@[i]
}

proof fn lemma_grows_trans(a: CompileState, b: CompileState, c: CompileState)
    requires
        grows(a, b),
        grows(b, c),
        a.registry.rules@.len() <= b.registry.rules@.len(),
    ensures
        grows(a, c),
{
    assert forall|i: int| 0 <= i < a.registry.rules@.len() && (#[trigger] a.registry.rules@[i]) is Some implies c.registry.rules@[i] == a.registry.rules@[i] by {
        assert(b.registry.rules@[i] is Some);
    }
    assert forall|i: int| a.registry.rules@.len() <= i < c.registry.rules@.len() implies (#[trigger] c.registry.rules@[i]) is Some by {
        if i < b.registry.rules@.len() {
            assert(b.registry.rules@[i] is Some);
        }
    }
    assert forall|i: int| 0 <= i < a.compiled@.len() implies #[trigger] c.compiled@[i] == a.compiled@[i] by {
        assert(b.compiled@[i] == a.compiled@[i]);
    }
}

/// What compiling reads besides the grammar being compiled: the grammars
/// that can be included, by scope name, and the grammar that stands as
/// `$base` for the grammars it includes.
pub struct CompileContext<'a> {
    pub pool: &'a Vec<(String, JsonValue)>,
    pub host_grammar: Option<&'a JsonValue>,
}

/// The key under which a pattern names the rule it takes in from
/// elsewhere, spelt out letter by letter.
pub open spec fn reference_key_text() -> Seq<char> {
    seq!['i', 'n', 'c', 'l', 'u', 'd', 'e']
}

fn reference_key() -> (r: String)
    ensures
        r@ == reference_key_text(),
{
    let letters: Vec<char> = vec!['i', 'n', 'c', 'l', 'u', 'd', 'e'];
    string_from_chars(letters.as_slice())
}

/// Whether `applyEndPatternLast` is set: `true`, or a number other than 0.
pub open spec fn end_pattern_last(v: Option<JsonValue>) -> bool {
    match v {
        Some(JsonValue::Bool(b)) => b,
        Some(JsonValue::Number(n)) => match n.unsigned {
            Some(u) => u != 0,
            None => false,
        },
        _ => false,
    }
}

/// The captures given for one part of a rule, else its shared captures.
pub open spec fn captures_or(own: Seq<(usize, Option<Seq<char>>)>, shared: Seq<(usize, Option<Seq<char>>)>) -> Seq<(usize, Option<Seq<char>>)> {
    if own.len() == 0 {
        shared
    } else {
        own
    }
}

/// The end pattern of a begin/end rule: its `end`, else a pattern that
/// matches nothing in ordinary text.
pub open spec fn end_pattern(v: Option<Seq<char>>) -> Seq<char> {
    match v {
        Some(e) => e,
        None => seq!['\u{FFFF}'],
    }
}

/// Whether `rule`, stored under `id`, is the rule that `src` describes,
/// apart from the ids of its nested patterns: a match rule where it has a
/// `match` string; else a begin/while rule where it has `begin` and `while`
/// strings; else a begin/end rule where it has a `begin` string; else a
/// rule that only gathers patterns.
pub open spec fn rule_shape(src: RuleSource, rule: Rule, id: i32) -> bool {
    let name = json_str(src.field("name"@));
    let content_name = json_str(src.field("contentName"@));
    let captures = grammar_captures(src.field("captures"@));
    match json_str(src.field("match"@)) {
        Some(m) => {
            &&& rule matches Rule::Match { id: rid, name: n, match_re, captures: cs }
            &&& rid == id
            &&& opt_view(n) == name
            &&& match_re@ == m
            &&& captures_view(cs@) == captures
        },
        None => match json_str(src.field("begin"@)) {
            Some(b) => match json_str(src.field("while"@)) {
                Some(w) => {
                    &&& rule matches Rule::BeginWhile {
                        id: rid,
                        name: n,
                        content_name: cn,
                        begin_re,
                        while_re,
                        while_has_back_references: wb,
                        begin_captures,
                        while_captures,
                        ..
                    }
                    &&& rid == id
                    &&& opt_view(n) == name
                    &&& opt_view(cn) == content_name
                    &&& begin_re@ == b
                    &&& while_re@ == w
                    &&& wb == back_reference_from(w, 0)
                    &&& captures_view(begin_captures@) == captures_or(grammar_captures(src.field("beginCaptures"@)), captures)
                    &&& captures_view(while_captures@) == captures_or(grammar_captures(src.field("whileCaptures"@)), captures)
                },
                None => {
                    &&& rule matches Rule::BeginEnd {
                        id: rid,
                        name: n,
                        content_name: cn,
                        begin_re,
                        end_re,
                        end_has_back_references: eb,
                        apply_end_pattern_last: last,
                        begin_captures,
                        end_captures,
                        ..
                    }
                    &&& rid == id
                    &&& opt_view(n) == name
                    &&& opt_view(cn) == content_name
                    &&& begin_re@ == b
                    &&& end_re@ == end_pattern(json_str(src.field("end"@)))
                    &&& eb == back_reference_from(end_re@, 0)
                    &&& last == end_pattern_last(src.field("applyEndPatternLast"@))
                    &&& captures_view(begin_captures@) == captures_or(grammar_captures(src.field("beginCaptures"@)), captures)
                    &&& captures_view(end_captures@) == captures_or(grammar_captures(src.field("endCaptures"@)), captures)
                },
            },
            None => {
                &&& rule matches Rule::IncludeOnly { id: rid, name: n, content_name: cn, .. }
                &&& rid == id
                &&& opt_view(n) == name
                &&& opt_view(cn) == content_name
            },
        },
    }
}

fn opt_string(v: Option<&JsonValue>) -> (r: Option<String>)
    ensures
        opt_view(r) == json_str(opt_ref(v)),
{
    match v {
        Some(JsonValue::String(s)) => Some(s.clone()),
        _ => None,
    }
}

fn opt_str<'a>(v: Option<&'a JsonValue>) -> (r: Option<&'a str>)
    ensures
        match r {
            Some(s) => json_str(opt_ref(v)) == Some(s@),
            None => json_str(opt_ref(v)) is None,
        },
{
    match v {
        Some(JsonValue::String(s)) => Some(s.as_str()),
        _ => None,
    }
}

fn own_or_shared(own: Vec<GrammarCapture>, shared: &Vec<GrammarCapture>) -> (r: Vec<GrammarCapture>)
    ensures
        captures_view(r@) == captures_or(captures_view(own@), captures_view(shared@)),
{
    if own.len() == 0 {
        copy_captures(shared)
    } else {
        own
    }
}

fn end_pattern_last_of(v: Option<&JsonValue>) -> (r: bool)
    ensures
        r == end_pattern_last(opt_ref(v)),
{
    match v {
        Some(JsonValue::Bool(b)) => *b,
        Some(JsonValue::Number(n)) => match n.unsigned {
            Some(u) => u != 0,
            None => false,
        },
        _ => false,
    }
}

/// Takes a fresh identity for a repository that is initialised.
fn fresh_repository(st: &mut CompileState) -> (id: u64)
    ensures
        final(st).registry == old(st).registry,
        final(st).compiled == old(st).compiled,
        id == old(st).next_repository,
{
    let id = st.next_repository;
    if st.next_repository < u64::MAX {
        st.next_repository = st.next_repository + 1;
    }
    id
}

/// Compiles the rule that `src` describes, under the memo key `key`, and
/// returns its id; nested rules are compiled in turn.  A key compiled
/// before gives the id it was given (so that cycles end); a description
/// nested deeper than `MAX_COMPILE_DEPTH`, or that is not an object, gives
/// none; so does a registry that has handed out every `i32` id.
pub fn compile_rule_inner<'a>(
    src: RuleSource<'a>,
    key: &str,
    depth: usize,
    repo: &GrammarRepository<'a>,
    ctx: &CompileContext<'a>,
    st: &mut CompileState,
) -> (r: Option<i32>)
    requires
        old(st).wf(),
    ensures
        final(st).wf(),
        grows(*old(st), *final(st)),
        r matches Some(id) ==> 1 <= id < final(st).registry.next_id,
        depth > MAX_COMPILE_DEPTH ==> r is None && *final(st) == *old(st),
        depth <= MAX_COMPILE_DEPTH && memo_lookup(old(st).compiled@, key@, 0) is Some ==> {
            &&& r == memo_lookup(old(st).compiled@, key@, 0)
            &&& *final(st) == *old(st)
        },
        depth <= MAX_COMPILE_DEPTH && memo_lookup(old(st).compiled@, key@, 0) is None && (!src.is_object()
            || old(st).registry.next_id == i32::MAX) ==> r is None && *final(st) == *old(st),
        depth <= MAX_COMPILE_DEPTH && memo_lookup(old(st).compiled@, key@, 0) is None && src.is_object()
            && old(st).registry.next_id < i32::MAX ==> {
            let id = old(st).registry.next_id;
            &&& r == Some(id)
            &&& final(st).compiled@[old(st).compiled@.len() as int].0@ == key@
            &&& final(st).compiled@[old(st).compiled@.len() as int].1 == id
            &&& final(st).compiled@.len() > old(st).compiled@.len()
            &&& memo_lookup(final(st).compiled@, key@, 0) == Some(id)
            &&& final(st).registry.rules@[id as int] matches Some(rule) && rule_shape(src, rule, id)
            &&& final(st).registry.rules@[id as int] matches Some(rule) && nested_counted(
                src,
                rule,
                key@,
                *repo,
                depth,
                final(st).registry.next_id,
                final(st).compiled@,
            )
        },
    decreases MAX_COMPILE_DEPTH + 1 - depth, 2nat,
{
    if depth > MAX_COMPILE_DEPTH {
        return None;
    }
    proof {
        lemma_memo_lookup(st.compiled@, key@, 0);
    }
    match memo_find(&st.compiled, key) {
        Some(id) => {
            return Some(id);
        },
        None => {},
    }
    if !src.is_object_value() {
        return None;
    }
    if st.registry.next_id == i32::MAX {
        return None;
    }
    let ghost st0 = *st;
    let id = st.registry.alloc_id();
    st.compiled.push((key.to_string(), id));
    let ghost st1 = *st;
    let name = opt_string(src.get("name"));
    let content_name = opt_string(src.get("contentName"));
    match opt_str(src.get("match")) {
        Some(m) => {
            let captures = parse_grammar_captures(src.get("captures"));
            st.registry.store(id, Rule::Match { id, name, match_re: m.to_string(), captures });
            proof {
                lemma_memo_lookup(st0.compiled@, key@, 0);
                lemma_memo_first_new(st0.compiled@, st.compiled@, key@, 0);
            }
            return Some(id);
        },
        None => {},
    }
    match opt_str(src.get("begin")) {
        Some(b) => {
            let captures = parse_grammar_captures(src.get("captures"));
            match opt_str(src.get("while")) {
                Some(w) => {
                    let begin_captures = own_or_shared(parse_grammar_captures(src.get("beginCaptures")), &captures);
                    let while_captures = own_or_shared(parse_grammar_captures(src.get("whileCaptures")), &captures);
                    let nested = match src.get("set") {
                        Some(v) => Some(v),
                        None => src.get("patterns"),
                    };
                    assert(opt_ref(nested) == nested_member(src));
                    let patterns = compile_patterns_inner(nested, key, depth, repo, ctx, st);
                    let ghost st2 = *st;
                    let ghost nested_ids = patterns@;
                    let rule = Rule::BeginWhile {
                        id,
                        name,
                        content_name,
                        begin_re: b.to_string(),
                        while_re: w.to_string(),
                        while_has_back_references: has_back_references(w),
                        begin_captures,
                        while_captures,
                        patterns,
                    };
                    st.registry.store(id, rule);
                    proof {
                        lemma_stored(st0, st1, st2, *st, id, rule);
                            }
                    return Some(id);
                },
                None => {},
            }
            let end_re = match opt_str(src.get("end")) {
                Some(e) => e.to_string(),
                None => "\u{FFFF}".to_string(),
            };
            proof {
                reveal_strlit("\u{FFFF}");
            }
            let begin_captures = own_or_shared(parse_grammar_captures(src.get("beginCaptures")), &captures);
            let end_captures = own_or_shared(parse_grammar_captures(src.get("endCaptures")), &captures);
            let apply_end_pattern_last = end_pattern_last_of(src.get("applyEndPatternLast"));
            let nested = match src.get("set") {
                Some(v) => Some(v),
                None => src.get("patterns"),
            };
            assert(opt_ref(nested) == nested_member(src));
            let patterns = compile_patterns_inner(nested, key, depth, repo, ctx, st);
            let ghost st2 = *st;
            let ghost nested_ids = patterns@;
            let end_has_back_references = has_back_references(end_re.as_str());
            assert(end_re@ == end_pattern(json_str(src.field("end"@))));
            assert(json_str(src.field("begin"@)) == Some(b@));
            assert(json_str(src.field("match"@)) is None);
            assert(json_str(src.field("while"@)) is None);
            assert(apply_end_pattern_last == end_pattern_last(src.field("applyEndPatternLast"@)));
            assert(captures_view(begin_captures@) == captures_or(grammar_captures(src.field("beginCaptures"@)), grammar_captures(src.field("captures"@))));
            assert(captures_view(end_captures@) == captures_or(grammar_captures(src.field("endCaptures"@)), grammar_captures(src.field("captures"@))));
            assert(opt_view(name) == json_str(src.field("name"@)));
            let rule = Rule::BeginEnd {
                id,
                name,
                content_name,
                begin_re: b.to_string(),
                end_re,
                end_has_back_references,
                apply_end_pattern_last,
                begin_captures,
                end_captures,
                patterns,
            };
            st.registry.store(id, rule);
            proof {
                lemma_stored(st0, st1, st2, *st, id, rule);
            }
            return Some(id);
        },
        None => {},
    }
    let patterns = match src {
        RuleSource::Value(desc) => match member_ref_of(desc, reference_key().as_str()) {
            Some(_) => match compile_pattern_item(desc, 0, key, depth, repo, ctx, st) {
                Some(p) => vec![p],
                None => Vec::new(),
            },
            None => {
                let nested = match src.get("patterns") {
                    Some(v) => Some(v),
                    None => src.get("set"),
                };
                compile_patterns_inner(nested, key, depth, repo, ctx, st)
            },
        },
        RuleSource::Entry { .. } => {
            let nested = match src.get("patterns") {
                Some(v) => Some(v),
                None => src.get("set"),
            };
            compile_patterns_inner(nested, key, depth, repo, ctx, st)
        },
    };
    let ghost st2 = *st;
    let rule = Rule::IncludeOnly { id, name, content_name, patterns };
    st.registry.store(id, rule);
    proof {
        lemma_stored(st0, st1, st2, *st, id, rule);
    }
    Some(id)
}

/// Storing a freshly compiled rule under the id handed out for it keeps the
/// state well formed and grown.
proof fn lemma_stored(st0: CompileState, st1: CompileState, st2: CompileState, st3: CompileState, id: i32, rule: Rule)
    requires
        st0.wf(),
        st1.wf(),
        st2.wf(),
        id == st0.registry.next_id,
        st1.registry.next_id == id + 1,
        st1.registry.rules@ == st0.registry.rules@.push(None),
        st1.compiled@.len() == st0.compiled@.len() + 1,
        forall|i: int| 0 <= i < st0.compiled@.len() ==> #[trigger] st1.compiled@[i] == st0.compiled@[i],
        grows(st1, st2),
        st3.registry.next_id == st2.registry.next_id,
        st3.registry.rules@ == st2.registry.rules@.update(id as int, Some(rule)),
        st3.compiled == st2.compiled,
        rule.rule_id() == id,
        forall|k: int| 0 <= k < rule.pattern_ids().len() ==> 1 <= #[trigger] rule.pattern_ids()[k] < st2.registry.next_id,
    ensures
        st3.wf(),
        grows(st0, st3),
        st3.compiled@[st0.compiled@.len() as int] == st1.compiled@[st0.compiled@.len() as int],
        st3.registry.rules@[id as int] == Some(rule),
        memo_lookup(st0.compiled@, st1.compiled@[st0.compiled@.len() as int].0@, 0) is None ==> memo_lookup(
            st3.compiled@,
            st1.compiled@[st0.compiled@.len() as int].0@,
            0,
        ) == Some(st1.compiled@[st0.compiled@.len() as int].1),
{
    let k = st1.compiled@[st0.compiled@.len() as int].0@;
    if memo_lookup(st0.compiled@, k, 0) is None {
        lemma_memo_lookup(st0.compiled@, k, 0);
        assert(st3.compiled@[st0.compiled@.len() as int] == st1.compiled@[st0.compiled@.len() as int]) by {
            assert(st2.compiled@[st0.compiled@.len() as int] == st1.compiled@[st0.compiled@.len() as int]);
        }
        lemma_memo_first_new(st0.compiled@, st3.compiled@, k, 0);
    }
    assert(st2.compiled@[st0.compiled@.len() as int] == st1.compiled@[st0.compiled@.len() as int]);
    assert forall|i: int| 0 <= i < st3.registry.rules@.len() && (#[trigger] st3.registry.rules@[i]) is Some implies {
        let r = st3.registry.rules@[i]->Some_0;
        &&& r.rule_id() == i
        &&& forall|k: int| 0 <= k < r.pattern_ids().len() ==> 1 <= #[trigger] r.pattern_ids()[k] < st3.registry.next_id
    } by {
        if i != id {
            assert(st2.registry.rules@[i] is Some);
        }
    }
    assert forall|i: int| 0 <= i < st0.registry.rules@.len() && (#[trigger] st0.registry.rules@[i]) is Some implies st3.registry.rules@[i] == st0.registry.rules@[i] by {
        assert(st1.registry.rules@[i] == st0.registry.rules@[i]);
    }
    assert forall|i: int| st0.registry.rules@.len() <= i < st3.registry.rules@.len() implies (#[trigger] st3.registry.rules@[i]) is Some by {
        if i != id {
            assert(st2.registry.rules@[i] is Some);
        }
    }
    assert forall|i: int| 0 <= i < st0.compiled@.len() implies #[trigger] st3.compiled@[i] == st0.compiled@[i] by {
        assert(st2.compiled@[i] == st1.compiled@[i]);
    }
}

/// Whether a patterns item names a rule of its own grammar's repository:
/// its include is `$self`, `$base` or `#name`.
pub open spec fn item_is_local(item: JsonValue) -> bool {
    match json_str(json_member(item, reference_key_text())) {
        Some(r) => r == "$self"@ || r == "$base"@ || (r.len() > 0 && r[0] == '#'),
        None => false,
    }
}

/// The repository entry that a local include names.
pub open spec fn local_target<'a>(item: JsonValue, repo: GrammarRepository<'a>) -> Option<RuleSource<'a>> {
    match json_str(json_member(item, reference_key_text())) {
        Some(r) => if r == "$self"@ || r == "$base"@ {
            repo.entry(r)
        } else if r.len() > 0 && r[0] == '#' {
            repo.entry(r.subrange(1, r.len() as int))
        } else {
            None
        },
        None => None,
    }
}

/// Whether a patterns item surely compiles while ids are left and nesting
/// is not too deep: an object that describes a rule of its own (it has no
/// string include), or whose include names an object entry of its own
/// grammar's repository.
pub open spec fn item_surely_compiles<'a>(item: JsonValue, repo: GrammarRepository<'a>) -> bool {
    &&& item is Object
    &&& match json_str(json_member(item, reference_key_text())) {
        None => true,
        Some(_) => item_is_local(item) && (local_target(item, repo) matches Some(t) && t.is_object()),
    }
}

/// The memo key under which a patterns item's rule is compiled: the key of
/// its position for a rule of its own; the repository key of the entry a
/// local include names; the cross key of `scope#name`; else the scope key
/// of the grammar it names.
pub open spec fn item_key(item: JsonValue, index: usize, parent: Seq<char>, repo_id: u64) -> Seq<char> {
    match json_str(json_member(item, reference_key_text())) {
        None => pattern_key(parent, index),
        Some(r) => if r == "$self"@ || r == "$base"@ {
            repository_key(repo_id, r)
        } else if r.len() > 0 && r[0] == '#' {
            repository_key(repo_id, r.subrange(1, r.len() as int))
        } else {
            match first_index_from(r, '#', 0) {
                Some(p) => cross_key(r.subrange(0, p), r.subrange(p + 1, r.len() as int)),
                None => scope_key(r),
            }
        },
    }
}

/// The items of a `patterns` array, none where it is not one.
pub open spec fn array_items(v: Option<JsonValue>) -> Seq<JsonValue> {
    match v {
        Some(JsonValue::Array(items)) => items@,
        _ => Seq::empty(),
    }
}

/// Whether the ids `r` are those of the items at the increasing positions
/// `origin`, each the id the memo holds under its item's key (see
/// `item_key`).
pub open spec fn ids_in_order(r: Seq<i32>, items: Seq<JsonValue>, origin: Seq<int>, parent: Seq<char>, repo_id: u64, memo: Seq<(String, i32)>) -> bool {
    &&& origin.len() == r.len()
    &&& forall|j: int|
        0 <= j < r.len() ==> 0 <= #[trigger] origin[j] < items.len() && memo_lookup(
            memo,
            item_key(items[origin[j]], origin[j] as usize, parent, repo_id),
            0,
        ) == Some(r[j])
    &&& forall|i: int, j: int| 0 <= i < j < r.len() ==> #[trigger] origin[i] < #[trigger] origin[j]
}

/// The nested patterns member of a begin rule: `set`, else `patterns`.
pub open spec fn nested_member(src: RuleSource) -> Option<JsonValue> {
    match src.field("set"@) {
        Some(v) => Some(v),
        None => src.field("patterns"@),
    }
}

/// The items of a begin rule's nested patterns, none where they are not an
/// array.
pub open spec fn nested_items(src: RuleSource) -> Seq<JsonValue> {
    array_items(nested_member(src))
}

/// Whether the ids `ids` are those that compiling `items` under the key
/// `key` gives: the ids of items in their order, each the id the memo
/// `memo` holds under its item's key (see `ids_in_order`), no more than
/// the object items and, while nesting is not too deep and ids are left,
/// one for every item that surely compiles.
pub open spec fn ids_cover<'a>(
    ids: Seq<i32>,
    items: Seq<JsonValue>,
    key: Seq<char>,
    repo: GrammarRepository<'a>,
    depth: usize,
    next_id: i32,
    memo: Seq<(String, i32)>,
) -> bool {
    &&& ids.len() <= object_count(items, items.len() as int)
    &&& depth < MAX_COMPILE_DEPTH && next_id < i32::MAX ==> ids.len() >= surely_count(items, repo, items.len() as int)
    &&& exists|origin: Seq<int>|
        {
            &&& #[trigger] ids_in_order(ids, items, origin, key, repo.id, memo)
            &&& forall|j: int| 0 <= j < origin.len() ==> item_may_compile(#[trigger] items[origin[j]], repo)
            &&& depth < MAX_COMPILE_DEPTH && next_id < i32::MAX ==> forall|i: int|
                0 <= i < items.len() && #[trigger] item_surely_compiles(items[i], repo) ==> origin.contains(i)
        }
}

/// Whether a patterns item can give an id at all: it is an object and, where
/// it is a local include, the entry it names is there.
pub open spec fn item_may_compile<'a>(item: JsonValue, repo: GrammarRepository<'a>) -> bool {
    &&& item is Object
    &&& !(item_is_local(item) && local_target(item, repo) is None)
}

/// The patterns member of a rule that only gathers patterns: `patterns`,
/// else `set`.
pub open spec fn gathered_member(src: RuleSource) -> Option<JsonValue> {
    match src.field("patterns"@) {
        Some(v) => Some(v),
        None => src.field("set"@),
    }
}

/// The description itself where it is an include (it has an `include`
/// member), else none.
pub open spec fn shorthand_item(src: RuleSource) -> Option<JsonValue> {
    match src {
        RuleSource::Value(d) => if json_member(*d, reference_key_text()) is Some {
            Some(*d)
        } else {
            None
        },
        RuleSource::Entry { .. } => None,
    }
}

/// Whether the nested patterns of a rule compiled from `src` under the key
/// `key` are those its items give (see `ids_cover`): for a begin rule the
/// items of `set`, else `patterns`; for a rule that only gathers patterns,
/// the description itself where it is an include (as the item at position
/// 0), else the items of `patterns`, else `set`.
pub open spec fn nested_counted<'a>(
    src: RuleSource,
    rule: Rule,
    key: Seq<char>,
    repo: GrammarRepository<'a>,
    depth: usize,
    next_id: i32,
    memo: Seq<(String, i32)>,
) -> bool {
    json_str(src.field("match"@)) is None ==> if json_str(src.field("begin"@)) is Some {
        ids_cover(rule.pattern_ids(), nested_items(src), key, repo, depth, next_id, memo)
    } else {
        match shorthand_item(src) {
            Some(d) => {
                &&& rule.pattern_ids().len() <= 1
                &&& rule.pattern_ids().len() == 1 ==> memo_lookup(memo, item_key(d, 0, key, repo.id), 0) == Some(
                    rule.pattern_ids()[0],
                )
                &&& item_surely_compiles(d, repo) && depth < MAX_COMPILE_DEPTH && next_id < i32::MAX ==> rule.pattern_ids().len()
                    == 1
            },
            None => ids_cover(rule.pattern_ids(), array_items(gathered_member(src)), key, repo, depth, next_id, memo),
        }
    }
}

/// How many of the first `n` items surely compile.
pub open spec fn surely_count<'a>(items: Seq<JsonValue>, repo: GrammarRepository<'a>, n: int) -> nat
    decreases n,
{
    if n <= 0 || n > items.len() {
        0
    } else {
        surely_count(items, repo, n - 1) + if item_surely_compiles(items[n - 1], repo) { 1nat } else { 0nat }
    }
}

/// How many of the first `n` items are objects.
pub open spec fn object_count(items: Seq<JsonValue>, n: int) -> nat
    decreases n,
{
    if n <= 0 || n > items.len() {
        0
    } else {
        object_count(items, n - 1) + if items[n - 1] is Object { 1nat } else { 0nat }
    }
}

/// Compiles the rules that a `patterns` array describes, in order, and
/// returns the ids of those that compiled; anything but an array describes
/// none.  Items that are not objects give nothing; while ids are left and
/// nesting is not too deep, every item that surely compiles (see
/// `item_surely_compiles`) gives an id.
pub fn compile_patterns_inner<'a>(
    patterns: Option<&'a JsonValue>,
    parent_key: &str,
    depth: usize,
    repo: &GrammarRepository<'a>,
    ctx: &CompileContext<'a>,
    st: &mut CompileState,
) -> (r: Vec<i32>)
    requires
        old(st).wf(),
    ensures
        final(st).wf(),
        grows(*old(st), *final(st)),
        depth >= MAX_COMPILE_DEPTH ==> r@.len() == 0,
        depth > MAX_COMPILE_DEPTH ==> *final(st) == *old(st),
        forall|k: int| 0 <= k < r@.len() ==> 1 <= #[trigger] r@[k] < final(st).registry.next_id,
        r@.len() <= match opt_ref(patterns) {
            Some(JsonValue::Array(items)) => items@.len(),
            _ => 0,
        },
        r@.len() <= match opt_ref(patterns) {
            Some(JsonValue::Array(items)) => object_count(items@, items@.len() as int),
            _ => 0,
        },
        depth < MAX_COMPILE_DEPTH && final(st).registry.next_id < i32::MAX ==> r@.len() >= match opt_ref(patterns) {
            Some(JsonValue::Array(items)) => surely_count(items@, *repo, items@.len() as int),
            _ => 0,
        },
        ids_cover(r@, array_items(opt_ref(patterns)), parent_key@, *repo, depth, final(st).registry.next_id, final(st).compiled@),
    decreases MAX_COMPILE_DEPTH + 1 - depth, 1nat,
{
    if depth > MAX_COMPILE_DEPTH {
        let r: Vec<i32> = Vec::new();
        assert(ids_in_order(r@, array_items(opt_ref(patterns)), Seq::empty(), parent_key@, repo.id, st.compiled@));
        return r;
    }
    let items = match patterns {
        Some(JsonValue::Array(items)) => items,
        _ => {
            let r: Vec<i32> = Vec::new();
            assert(ids_in_order(r@, array_items(opt_ref(patterns)), Seq::empty(), parent_key@, repo.id, st.compiled@));
            assert(array_items(opt_ref(patterns)) =~= Seq::<JsonValue>::empty());
            return r;
        },
    };
    let ghost st0 = *st;
    let ghost mut origin: Seq<int> = Seq::empty();
    let mut out: Vec<i32> = Vec::new();
    let mut index: usize = 0;
    while index < items.len()
        invariant
            index <= items.len(),
            depth <= MAX_COMPILE_DEPTH,
            st.wf(),
            grows(st0, *st),
            st0.registry.rules@.len() <= st.registry.rules@.len(),
            out@.len() <= index,
            forall|k: int| 0 <= k < out@.len() ==> 1 <= #[trigger] out@[k] < st.registry.next_id,
            out@.len() <= object_count(items@, index as int),
            depth < MAX_COMPILE_DEPTH && st.registry.next_id < i32::MAX ==> out@.len() >= surely_count(items@, *repo, index as int),
            ids_in_order(out@, items@, origin, parent_key@, repo.id, st.compiled@),
            forall|j: int| 0 <= j < origin.len() ==> item_may_compile(#[trigger] items@[origin[j]], *repo),
            depth >= MAX_COMPILE_DEPTH ==> out@.len() == 0,
            forall|j: int| 0 <= j < origin.len() ==> #[trigger] origin[j] < index,
            depth < MAX_COMPILE_DEPTH && st.registry.next_id < i32::MAX ==> forall|i: int|
                0 <= i < index && #[trigger] item_surely_compiles(items@[i], *repo) ==> origin.contains(i),
        decreases items.len() - index,
    {
        let ghost before = *st;
        let ghost out_before = out@;
        let ghost origin_before = origin;
        let compiled = compile_pattern_item(&items[index], index, parent_key, depth, repo, ctx, st);
        proof {
            lemma_grows_trans(st0, before, *st);
            assert(object_count(items@, index + 1) == object_count(items@, index as int) + if items@[index as int] is Object { 1nat } else { 0nat });
            assert(surely_count(items@, *repo, index + 1) == surely_count(items@, *repo, index as int) + if item_surely_compiles(items@[index as int], *repo) { 1nat } else { 0nat });
            assert forall|j: int| 0 <= j < out_before.len() implies memo_lookup(
                st.compiled@,
                item_key(items@[origin_before[j]], origin_before[j] as usize, parent_key@, repo.id),
                0,
            ) == Some(out_before[j]) by {
                lemma_memo_lookup_prefix(
                    before.compiled@,
                    st.compiled@,
                    item_key(items@[origin_before[j]], origin_before[j] as usize, parent_key@, repo.id),
                    0,
                );
            }
        }
        match compiled {
            Some(id) => {
                out.push(id);
                proof {
                    origin = origin.push(index as int);
                }
            },
            None => {},
        }
        proof {
            assert forall|i: int|
                0 <= i < index + 1 && #[trigger] item_surely_compiles(items@[i], *repo) && depth < MAX_COMPILE_DEPTH
                    && st.registry.next_id < i32::MAX implies origin.contains(i) by {
                if i < index {
                    assert(origin_before.contains(i));
                    let w = choose|w: int| 0 <= w < origin_before.len() && origin_before[w] == i;
                    assert(origin[w] == i);
                } else {
                    assert(origin[origin.len() - 1] == i);
                }
            }
        }
        index += 1;
    }
    assert(array_items(opt_ref(patterns)) == items@);
    out
}

/// Compiles one item of a `patterns` array: an include names a repository
/// entry (`$self`, `$base`, `#name`), an entry of another grammar
/// (`scope#name`) or another grammar as a whole (`scope`); any other
/// object describes a rule of its own, under the key of its position.
fn compile_pattern_item<'a>(
    item: &'a JsonValue,
    index: usize,
    parent_key: &str,
    depth: usize,
    repo: &GrammarRepository<'a>,
    ctx: &CompileContext<'a>,
    st: &mut CompileState,
) -> (r: Option<i32>)
    requires
        old(st).wf(),
        depth <= MAX_COMPILE_DEPTH,
    ensures
        final(st).wf(),
        grows(*old(st), *final(st)),
        r matches Some(id) ==> 1 <= id < final(st).registry.next_id,
        !(*item is Object) ==> r is None && *final(st) == *old(st),
        *item is Object && item_is_local(*item) && local_target(*item, *repo) is None ==> r is None && *final(st) == *old(st),
        item_surely_compiles(*item, *repo) && depth < MAX_COMPILE_DEPTH && old(st).registry.next_id < i32::MAX ==> r is Some,
        depth >= MAX_COMPILE_DEPTH ==> r is None,
        r matches Some(id) ==> memo_lookup(final(st).compiled@, item_key(*item, index, parent_key@, repo.id), 0) == Some(id),
    decreases MAX_COMPILE_DEPTH + 1 - depth, 0nat,
{
    match item {
        JsonValue::Object(_) => {},
        _ => {
            return None;
        },
    }
    let reference = match member_ref_of(item, reference_key().as_str()) {
        Some(JsonValue::String(s)) => s.as_str(),
        _ => {
            let key = make_pattern_key(parent_key, index);
            return compile_rule_inner(RuleSource::Value(item), key.as_str(), depth + 1, repo, ctx, st);
        },
    };
    if str_eq(reference, "$self") || str_eq(reference, "$base") {
        return match repo.lookup(reference) {
            Some(target) => {
                let key = make_repository_key(repo.id, reference);
                compile_rule_inner(target, key.as_str(), depth + 1, repo, ctx, st)
            },
            None => None,
        };
    }
    let v = chars_of(reference);
    if v.len() > 0 && v[0] == '#' {
        let name = string_from_chars(sub_chars(v.as_slice(), 1, v.len()).as_slice());
        return match repo.lookup(name.as_str()) {
            Some(target) => {
                let key = make_repository_key(repo.id, name.as_str());
                compile_rule_inner(target, key.as_str(), depth + 1, repo, ctx, st)
            },
            None => None,
        };
    }
    proof {
        lemma_first_index_from(v@, '#', 0);
    }
    match find_char(v.as_slice(), '#', 0) {
        Some(p) => {
            let scope = string_from_chars(sub_chars(v.as_slice(), 0, p).as_slice());
            let name = string_from_chars(sub_chars(v.as_slice(), p + 1, v.len()).as_slice());
            if scope.as_str().is_empty() || name.as_str().is_empty() {
                return None;
            }
            match member_ref(ctx.pool, scope.as_str()) {
                Some(grammar) => {
                    let id = fresh_repository(st);
                    match init_grammar(grammar, ctx.host_grammar, id) {
                        Some(target_repo) => match target_repo.lookup(name.as_str()) {
                            Some(target) => {
                                let key = make_cross_key(scope.as_str(), name.as_str());
                                compile_rule_inner(target, key.as_str(), depth + 1, &target_repo, ctx, st)
                            },
                            None => None,
                        },
                        None => None,
                    }
                },
                None => None,
            }
        },
        None => match member_ref(ctx.pool, reference) {
            Some(grammar) => {
                let id = fresh_repository(st);
                match init_grammar(grammar, ctx.host_grammar, id) {
                    Some(target_repo) => {
                        let key = make_scope_key(reference);
                        compile_rule_inner(target_repo.self_entry, key.as_str(), depth + 1, &target_repo, ctx, st)
                    },
                    None => None,
                }
            },
            None => None,
        },
    }
}

/// Compiles the rule that `src` describes, at the top of the nesting.
pub fn compile_rule<'a>(
    src: RuleSource<'a>,
    key: &str,
    repo: &GrammarRepository<'a>,
    ctx: &CompileContext<'a>,
    st: &mut CompileState,
) -> (r: Option<i32>)
    requires
        old(st).wf(),
    ensures
        final(st).wf(),
        grows(*old(st), *final(st)),
        r matches Some(id) ==> 1 <= id < final(st).registry.next_id,
        memo_lookup(old(st).compiled@, key@, 0) is Some ==> {
            &&& r == memo_lookup(old(st).compiled@, key@, 0)
            &&& *final(st) == *old(st)
        },
        memo_lookup(old(st).compiled@, key@, 0) is None && (!src.is_object() || old(st).registry.next_id == i32::MAX)
            ==> r is None && *final(st) == *old(st),
        memo_lookup(old(st).compiled@, key@, 0) is None && src.is_object() && old(st).registry.next_id < i32::MAX ==> {
            let id = old(st).registry.next_id;
            &&& r == Some(id)
            &&& final(st).compiled@[old(st).compiled@.len() as int].0@ == key@
            &&& final(st).compiled@[old(st).compiled@.len() as int].1 == id
            &&& final(st).compiled@.len() > old(st).compiled@.len()
            &&& memo_lookup(final(st).compiled@, key@, 0) == Some(id)
            &&& final(st).registry.rules@[id as int] matches Some(rule) && rule_shape(src, rule, id)
            &&& final(st).registry.rules@[id as int] matches Some(rule) && nested_counted(
                src,
                rule,
                key@,
                *repo,
                0,
                final(st).registry.next_id,
                final(st).compiled@,
            )
        },
{
    compile_rule_inner(src, key, 0, repo, ctx, st)
}

/// An injection: the rule that is tried wherever the scope stack matches
/// the selector, with the selector's priority.
#[derive(Debug)]
pub struct Injection {
    pub compiled_selector: CompiledSelector,
    pub rule_id: i32,
    pub priority: InjectionPriority,
}

/// Whether `inj` is the injection that selector text `selector` gives: its
/// compiled selector, which has clauses, and its priority.
pub open spec fn injection_from(inj: Injection, selector: Seq<char>) -> bool {
    &&& selector_view(inj.compiled_selector) == compile_selector_spec(selector)
    &&& compile_selector_spec(selector).len() > 0
    &&& inj.priority == clause_priority(selector).0
}

/// Whether every injection has a rule that was handed out by the registry.
pub open spec fn injections_valid(injections: Seq<Injection>, next_id: i32) -> bool {
    forall|k: int| 0 <= k < injections.len() ==> 1 <= (#[trigger] injections[k]).rule_id < next_id
}

/// Whether `inj` is the injection that the key of one of `members` gives.
pub open spec fn injection_listed(inj: Injection, members: Seq<(String, JsonValue)>) -> bool {
    exists|j: int| 0 <= j < members.len() && injection_from(inj, #[trigger] members[j].0@)
}

/// The members of the `injections` object of a grammar, or none.
pub open spec fn injection_members(g: JsonValue) -> Seq<(String, JsonValue)> {
    match json_member(g, "injections"@) {
        Some(JsonValue::Object(ms)) => ms@,
        _ => Seq::empty(),
    }
}

/// The memo key of the injection with selector `selector`.
pub open spec fn injection_key(selector: Seq<char>) -> Seq<char> {
    "injection:"@ + selector
}

/// The memo key of the injection that grammar `scope` makes into others.
pub open spec fn external_injection_key(scope: Seq<char>) -> Seq<char> {
    "external-injection:"@ + scope
}

fn make_prefixed_key(prefix: &str, s: &str) -> (r: String)
    ensures
        r@ == prefix@ + s@,
{
    let mut v: Vec<char> = Vec::new();
    push_str_chars(&mut v, prefix);
    push_str_chars(&mut v, s);
    string_from_chars(v.as_slice())
}

/// Whether a member of an `injections` object surely gives an injection
/// (while the registry has ids left): its selector compiles to clauses and
/// its value is an object.
pub open spec fn member_candidate(m: (String, JsonValue)) -> bool {
    compile_selector_spec(m.0@).len() > 0 && m.1 is Object
}

/// Whether injections `r` come from the members `im` at the increasing
/// positions `origin`, each from its member's selector; where the registry
/// has ids left (`next_id` below `i32::MAX`), every candidate member (see
/// `member_candidate`) gives one.
pub open spec fn injections_in_order(r: Seq<Injection>, im: Seq<(String, JsonValue)>, origin: Seq<int>, next_id: i32) -> bool {
    &&& origin.len() == r.len()
    &&& forall|k: int| 0 <= k < r.len() ==> 0 <= #[trigger] origin[k] < im.len() && injection_from(r[k], im[origin[k]].0@)
    &&& forall|j: int, k: int| 0 <= j < k < r.len() ==> #[trigger] origin[j] < #[trigger] origin[k]
    &&& next_id < i32::MAX ==> forall|i: int| 0 <= i < im.len() && #[trigger] member_candidate(im[i]) ==> origin.contains(i)
}

/// Compiles the injections a grammar declares in its `injections` object:
/// one for each selector whose compiled form has clauses, with the rule its
/// value describes (compiled against the grammar's repository), in the
/// order of the members; while the registry has ids left, every member
/// whose selector has clauses and whose value is an object gives one.
pub fn collect_injections<'a>(
    grammar: &'a JsonValue,
    repo: &GrammarRepository<'a>,
    pool: &'a Vec<(String, JsonValue)>,
    st: &mut CompileState,
) -> (r: Vec<Injection>)
    requires
        old(st).wf(),
    ensures
        final(st).wf(),
        grows(*old(st), *final(st)),
        injections_valid(r@, final(st).registry.next_id),
        r@.len() <= injection_members(*grammar).len(),
        forall|k: int| 0 <= k < r@.len() ==> injection_listed(#[trigger] r@[k], injection_members(*grammar)),
        exists|origin: Seq<int>| #[trigger] injections_in_order(r@, injection_members(*grammar), origin, final(st).registry.next_id),
{
    let members = match member_ref_of(grammar, "injections") {
        Some(JsonValue::Object(ms)) => ms,
        _ => {
            let r: Vec<Injection> = Vec::new();
            assert(injections_in_order(r@, injection_members(*grammar), Seq::empty(), st.registry.next_id));
            return r;
        },
    };
    let ctx = CompileContext { pool, host_grammar: None };
    let ghost st0 = *st;
    let ghost im = injection_members(*grammar);
    let mut out: Vec<Injection> = Vec::new();
    let ghost mut origin: Seq<int> = Seq::empty();
    let mut i: usize = 0;
    while i < members.len()
        invariant
            i <= members.len(),
            members@ == im,
            im == injection_members(*grammar),
            st.wf(),
            grows(st0, *st),
            st0.registry.rules@.len() <= st.registry.rules@.len(),
            out@.len() <= i,
            origin.len() == out@.len(),
            injections_valid(out@, st.registry.next_id),
            forall|k: int| 0 <= k < out@.len() ==> 0 <= #[trigger] origin[k] < im.len() && injection_from(out@[k], im[origin[k]].0@),
            forall|k: int| 0 <= k < out@.len() ==> #[trigger] origin[k] < i,
            forall|j: int, k: int| 0 <= j < k < out@.len() ==> #[trigger] origin[j] < #[trigger] origin[k],
            st.registry.next_id < i32::MAX ==> forall|p: int| 0 <= p < i && #[trigger] member_candidate(im[p]) ==> origin.contains(p),
        decreases members.len() - i,
    {
        let ghost origin_before = origin;
        let ghost next_before = st.registry.next_id;
        let selector = members[i].0.as_str();
        let compiled_selector = compile_selector(selector);
        if compiled_selector.clauses.len() > 0 {
            let (priority, _normalized) = parse_injection_clause_priority(selector);
            let key = make_prefixed_key("injection:", selector);
            let ghost before = *st;
            let compiled = compile_rule(RuleSource::Value(&members[i].1), key.as_str(), repo, &ctx, st);
            proof {
                lemma_grows_trans(st0, before, *st);
            }
            match compiled {
                Some(rule_id) => {
                    let inj = Injection { compiled_selector, rule_id, priority };
                    assert(injection_from(inj, im[i as int].0@));
                    out.push(inj);
                    proof {
                        origin = origin.push(i as int);
                        assert(origin[origin.len() - 1] == i);
                    }
                },
                None => {},
            }
        }
        proof {
            if st.registry.next_id < i32::MAX {
                assert(next_before < i32::MAX);
                assert forall|p: int| 0 <= p < i + 1 && #[trigger] member_candidate(im[p]) implies origin.contains(p) by {
                    if p < i {
                        let w = choose|w: int| 0 <= w < origin_before.len() && origin_before[w] == p;
                        assert(origin[w] == p);
                    } else {
                        assert(compile_selector_spec(im[p].0@).len() > 0);
                        assert(origin[origin.len() - 1] == p);
                    }
                }
            }
        }
        i += 1;
    }
    proof {
        assert forall|k: int| 0 <= k < out@.len() implies injection_listed(#[trigger] out@[k], im) by {
            assert(0 <= origin[k] < im.len() && injection_from(out@[k], im[origin[k]].0@));
        }
        assert(injections_in_order(out@, im, origin, st.registry.next_id));
    }
    out
}

/// Whether grammar `ext` makes an injection into other grammars: it is an
/// object that can be initialised, with an `injectionSelector` that is a
/// non-empty string whose compiled form has clauses.
pub open spec fn external_qualifies(ext: JsonValue) -> bool {
    &&& ext is Object
    &&& json_str(json_member(ext, "injectionSelector"@)) matches Some(sel)
    &&& sel.len() > 0
    &&& compile_selector_spec(sel).len() > 0
    &&& initialisable(ext)
}

/// Compiles the injection that grammar `ext` makes into other grammars: its
/// `injectionSelector` (where it is a non-empty string whose compiled form
/// has clauses), with its own patterns (its `$self`) as the rule.
pub fn collect_external_injection<'a>(
    ext: &'a JsonValue,
    injections: &mut Vec<Injection>,
    pool: &'a Vec<(String, JsonValue)>,
    st: &mut CompileState,
)
    requires
        old(st).wf(),
        injections_valid(old(injections)@, old(st).registry.next_id),
    ensures
        final(st).wf(),
        grows(*old(st), *final(st)),
        injections_valid(final(injections)@, final(st).registry.next_id),
        old(injections)@.len() <= final(injections)@.len() <= old(injections)@.len() + 1,
        forall|k: int| 0 <= k < old(injections)@.len() ==> #[trigger] final(injections)@[k] == old(injections)@[k],
        final(injections)@.len() == old(injections)@.len() + 1 ==> (json_str(json_member(*ext, "injectionSelector"@)) matches Some(sel) && injection_from(final(injections)@[old(injections)@.len() as int], sel)),
        !external_qualifies(*ext) ==> final(injections)@ == old(injections)@,
        external_qualifies(*ext) && old(st).registry.next_id < i32::MAX ==> final(injections)@.len() == old(injections)@.len() + 1,
{
    match ext {
        JsonValue::Object(_) => {},
        _ => {
            return;
        },
    }
    let selector = match opt_str(member_ref_of(ext, "injectionSelector")) {
        Some(s) => s,
        None => {
            return;
        },
    };
    if selector.is_empty() {
        return;
    }
    let compiled_selector = compile_selector(selector);
    if compiled_selector.clauses.len() == 0 {
        return;
    }
    assert(compile_selector_spec(selector@).len() > 0);
    let (priority, _normalized) = parse_injection_clause_priority(selector);
    let scope = match opt_str(member_ref_of(ext, "scopeName")) {
        Some(s) => s,
        None => "",
    };
    let key = make_prefixed_key("external-injection:", scope);
    let id = fresh_repository(st);
    let repo = match init_grammar(ext, None, id) {
        Some(repo) => repo,
        None => {
            return;
        },
    };
    let ctx = CompileContext { pool, host_grammar: Some(ext) };
    let ghost before = injections@;
    match compile_rule(repo.self_entry, key.as_str(), &repo, &ctx, st) {
        Some(rule_id) => {
            let inj = Injection { compiled_selector, rule_id, priority };
            assert(injection_from(inj, selector@));
            injections.push(inj);
            assert(injections@[before.len() as int] == inj);
        },
        None => {},
    }
}

/// The position of the first entry of an injection map at or after `from`
/// with key `scope`.
pub open spec fn injection_entry(map: Seq<(String, Vec<String>)>, scope: Seq<char>, from: int) -> Option<int>
    decreases map.len() - from,
{
    if from < 0 || from >= map.len() {
        None
    } else if map[from].0@ == scope {
        Some(from)
    } else {
        injection_entry(map, scope, from + 1)
    }
}

/// The injecting grammars listed for `scope` in an injection map (none
/// where it has no entry).
pub open spec fn listed_injectors(map: Seq<(String, Vec<String>)>, scope: Seq<char>) -> Seq<String> {
    match injection_entry(map, scope, 0) {
        Some(i) => map[i].1@,
        None => Seq::empty(),
    }
}

/// The injecting grammars listed for `scope` in an injection map: those of
/// its first entry with that key.
fn injecting_scopes<'a>(map: &'a Vec<(String, Vec<String>)>, scope: &str) -> (r: Option<&'a Vec<String>>)
    ensures
        r matches Some(v) ==> exists|i: int| 0 <= i < map@.len() && map@[i].0@ == scope@ && *v == #[trigger] map@[i].1,
        match injection_entry(map@, scope@, 0) {
            Some(i) => r matches Some(v) && *v == map@[i].1,
            None => r is None,
        },
{
    let mut i: usize = 0;
    while i < map.len()
        invariant
            i <= map.len(),
            injection_entry(map@, scope@, 0) == injection_entry(map@, scope@, i as int),
        decreases map.len() - i,
    {
        if str_eq(map[i].0.as_str(), scope) {
            return Some(&map[i].1);
        }
        i += 1;
    }
    None
}

/// How many of the first `n` listed grammars are in the pool and make an
/// injection (see `external_qualifies`).
pub open spec fn qualifying_injectors(scopes: Seq<String>, pool: Seq<(String, JsonValue)>, n: int) -> nat
    decreases n,
{
    if n <= 0 || n > scopes.len() {
        0
    } else {
        qualifying_injectors(scopes, pool, n - 1) + match member_of(pool, scopes[n - 1]@, 0) {
            Some(ext) => if external_qualifies(ext) { 1nat } else { 0nat },
            None => 0nat,
        }
    }
}

/// Compiles the injections that the grammars `injection_map` lists for
/// `scope` make into the grammar being compiled: one for each listed
/// grammar of the pool that makes one (see `external_qualifies`), in
/// order, as long as the registry has ids left.
fn collect_injections_into<'a>(
    scope: &str,
    injection_map: &Vec<(String, Vec<String>)>,
    pool: &'a Vec<(String, JsonValue)>,
    injections: &mut Vec<Injection>,
    st: &mut CompileState,
)
    requires
        old(st).wf(),
        injections_valid(old(injections)@, old(st).registry.next_id),
    ensures
        final(st).wf(),
        grows(*old(st), *final(st)),
        old(st).registry.rules@.len() <= final(st).registry.rules@.len(),
        injections_valid(final(injections)@, final(st).registry.next_id),
        ({
            let listed = listed_injectors(injection_map@, scope@);
            let q = qualifying_injectors(listed, pool@, listed.len() as int);
            &&& old(injections)@.len() <= final(injections)@.len() <= old(injections)@.len() + q
            &&& forall|k: int| 0 <= k < old(injections)@.len() ==> #[trigger] final(injections)@[k] == old(injections)@[k]
            &&& final(st).registry.next_id < i32::MAX ==> final(injections)@.len() == old(injections)@.len() + q
        }),
{
    let ghost st0 = *st;
    let ghost inj0 = injections@;
    match injecting_scopes(injection_map, scope) {
        Some(scopes) => {
            let ghost listed = scopes@;
            assert(listed == listed_injectors(injection_map@, scope@));
            let mut j: usize = 0;
            while j < scopes.len()
                invariant
                    j <= scopes.len(),
                    listed == scopes@,
                    st.wf(),
                    grows(st0, *st),
                    st0.registry.rules@.len() <= st.registry.rules@.len(),
                    injections_valid(injections@, st.registry.next_id),
                    inj0.len() <= injections@.len() <= inj0.len() + qualifying_injectors(listed, pool@, j as int),
                    forall|k: int| 0 <= k < inj0.len() ==> #[trigger] injections@[k] == inj0[k],
                    st.registry.next_id < i32::MAX ==> injections@.len() == inj0.len() + qualifying_injectors(listed, pool@, j as int),
                decreases scopes.len() - j,
            {
                let ghost before_inj = injections@;
                let ghost before = *st;
                match member_ref(pool, scopes[j].as_str()) {
                    Some(ext) => {
                        collect_external_injection(ext, injections, pool, st);
                        proof {
                            lemma_grows_trans(st0, before, *st);
                        }
                    },
                    None => {},
                }
                proof {
                    assert forall|k: int| 0 <= k < inj0.len() implies #[trigger] injections@[k] == inj0[k] by {
                        assert(injections@[k] == before_inj[k]);
                    }
                    assert(qualifying_injectors(listed, pool@, j + 1) == qualifying_injectors(listed, pool@, j as int)
                        + match member_of(pool@, listed[j as int]@, 0) {
                        Some(ext) => if external_qualifies(ext) { 1nat } else { 0nat },
                        None => 0nat,
                    });
                    match member_of(pool@, listed[j as int]@, 0) {
                        Some(ext) => {
                            if !external_qualifies(ext) {
                                assert(injections@ == before_inj);
                            } else {
                                assert(injections@.len() <= before_inj.len() + 1);
                            }
                        },
                        None => {
                            assert(injections@ == before_inj);
                        },
                    }
                }
                j += 1;
            }
        },
        None => {
            assert(listed_injectors(injection_map@, scope@) =~= Seq::<String>::empty());
        },
    }
}

/// The injections that the grammars `map` lists make for the scopes that
/// `scope` extends at its first `k` characters: for each `.` among them,
/// those made for the scope before it.
pub open spec fn prefix_injector_count(map: Seq<(String, Vec<String>)>, pool: Seq<(String, JsonValue)>, scope: Seq<char>, k: int) -> nat
    decreases k,
{
    if k <= 0 || k > scope.len() {
        0
    } else {
        prefix_injector_count(map, pool, scope, k - 1) + if scope[k - 1] == '.' {
            let listed = listed_injectors(map, scope.take(k - 1));
            qualifying_injectors(listed, pool, listed.len() as int)
        } else {
            0nat
        }
    }
}

/// The injections that the grammars `map` lists make into a grammar of
/// scope `scope`: those for each scope it extends at a `.`, then those for
/// the scope itself (none for an empty scope name).
pub open spec fn scope_injector_count(map: Seq<(String, Vec<String>)>, pool: Seq<(String, JsonValue)>, scope: Seq<char>) -> nat {
    prefix_injector_count(map, pool, scope, scope.len() as int) + if scope.len() > 0 {
        let listed = listed_injectors(map, scope);
        qualifying_injectors(listed, pool, listed.len() as int)
    } else {
        0nat
    }
}

/// The scope name of a grammar, empty where it has none.
pub open spec fn grammar_scope(grammar: JsonValue) -> Seq<char> {
    match json_str(json_member(grammar, "scopeName"@)) {
        Some(s) => s,
        None => Seq::empty(),
    }
}

/// A grammar compiled to rules: the registry, the id of its root rule (its
/// `$self`), its injections, and the scanner for its root rule.
pub struct CompiledGrammar {
    pub registry: RuleRegistry,
    pub root_rule_id: i32,
    pub injections: Vec<Injection>,
    pub root_scanner: Option<CompiledScanner>,
}

/// Compiles a grammar: its root rule, the injections it declares, and the
/// injections that the grammars `injection_map` lists for its scope, or for
/// a scope that its scope name extends at a `.`, make into it.
pub fn compile_grammar(
    grammar: &JsonValue,
    pool: &Vec<(String, JsonValue)>,
    injection_map: &Vec<(String, Vec<String>)>,
) -> (r: Result<CompiledGrammar, String>)
    ensures
        !(*grammar is Object) ==> (r matches Err(e) && e@ == "Grammar is not an object"@),
        *grammar is Object && !initialisable(*grammar) ==> (r matches Err(e) && e@ == "Grammar has no repository"@),
        initialisable(*grammar) ==> (r matches Ok(g) && {
            &&& g.registry.wf()
            &&& g.root_rule_id == 1
            &&& g.registry.rules@[1] matches Some(Rule::IncludeOnly { name, content_name, .. })
            &&& opt_view(name) == json_str(json_member(*grammar, "scopeName"@))
            &&& content_name is None
            &&& injections_valid(g.injections@, g.registry.next_id)
            &&& scanner_built(g.registry.rules@, 1, None, false, g.root_scanner)
            &&& exists|d: int, origin: Seq<int>|
                #![trigger injections_in_order(g.injections@.take(d), injection_members(*grammar), origin, g.registry.next_id)]
                {
                    &&& 0 <= d <= g.injections@.len()
                    &&& injections_in_order(g.injections@.take(d), injection_members(*grammar), origin, g.registry.next_id)
                    &&& g.injections@.len() - d <= scope_injector_count(injection_map@, pool@, grammar_scope(*grammar))
                    &&& g.registry.next_id < i32::MAX ==> g.injections@.len() - d == scope_injector_count(
                        injection_map@,
                        pool@,
                        grammar_scope(*grammar),
                    )
                }
        }),
{
    match grammar {
        JsonValue::Object(_) => {},
        _ => {
            return Err("Grammar is not an object".to_string());
        },
    }
    let repo = match init_grammar(grammar, None, 0) {
        Some(repo) => repo,
        None => {
            return Err("Grammar has no repository".to_string());
        },
    };
    let mut st = CompileState { registry: RuleRegistry::new(), compiled: Vec::new(), next_repository: 1 };
    let ctx = CompileContext { pool, host_grammar: Some(grammar) };
    proof {
        reveal_strlit("name");
        reveal_strlit("patterns");
        reveal_strlit("match");
        reveal_strlit("begin");
        reveal_strlit("contentName");
        reveal_strlit("repository");
    }
    let root_rule_id = match compile_rule(repo.self_entry, "root/$self", &repo, &ctx, &mut st) {
        Some(id) => id,
        None => {
            return Err("Failed to compile root grammar rule".to_string());
        },
    };
    let ghost after_root = st;
    assert(root_rule_id == 1);
    assert(st.registry.rules@[1] matches Some(rule) && rule_shape(repo.self_entry, rule, 1));
    assert("match"@.len() == 5 && "begin"@.len() == 5 && "patterns"@.len() == 8 && "name"@.len() == 4);
    assert("repository"@.len() == 10 && "contentName"@.len() == 11);
    assert(st.registry.rules@[1] matches Some(Rule::IncludeOnly { name, content_name, .. }) && opt_view(name) == json_str(json_member(*grammar, "scopeName"@)) && content_name is None);
    let mut injections = collect_injections(grammar, &repo, pool, &mut st);
    proof {
        lemma_grows_trans(after_root, after_root, st);
    }
    let ghost declared = injections@;
    let ghost members = injection_members(*grammar);
    let ghost origin = choose|origin: Seq<int>| injections_in_order(declared, members, origin, st.registry.next_id);
    let ghost decl_next = st.registry.next_id;
    assert(injections_in_order(declared, members, origin, decl_next));
    let scope_name = match opt_str(member_ref_of(grammar, "scopeName")) {
        Some(s) => s,
        None => "",
    };
    proof {
        reveal_strlit("");
        reveal_strlit("scopeName");
    }
    let chars = chars_of(scope_name);
    assert(chars@ == grammar_scope(*grammar));
    let ghost scope = chars@;
    let mut k: usize = 0;
    while k < chars.len()
        invariant
            k <= chars.len(),
            scope == chars@,
            st.wf(),
            grows(after_root, st),
            after_root.registry.rules@.len() <= st.registry.rules@.len(),
            injections_valid(injections@, st.registry.next_id),
            decl_next <= st.registry.next_id,
            declared.len() <= injections@.len(),
            forall|i: int| 0 <= i < declared.len() ==> #[trigger] injections@[i] == declared[i],
            injections@.len() - declared.len() <= prefix_injector_count(injection_map@, pool@, scope, k as int),
            st.registry.next_id < i32::MAX ==> injections@.len() - declared.len() == prefix_injector_count(
                injection_map@,
                pool@,
                scope,
                k as int,
            ),
        decreases chars.len() - k,
    {
        if chars[k] == '.' {
            let sub_scope = string_from_chars(sub_chars(chars.as_slice(), 0, k).as_slice());
            assert(sub_scope@ == scope.take(k as int));
            let ghost before = st;
            collect_injections_into(sub_scope.as_str(), injection_map, pool, &mut injections, &mut st);
            proof {
                lemma_grows_trans(after_root, before, st);
            }
        }
        k += 1;
    }
    if chars.len() > 0 {
        let ghost before = st;
        collect_injections_into(scope_name, injection_map, pool, &mut injections, &mut st);
        proof {
            lemma_grows_trans(after_root, before, st);
        }
    }
    proof {
        assert(injections@.take(declared.len() as int) =~= declared);
        assert(injections_in_order(injections@.take(declared.len() as int), members, origin, st.registry.next_id));
        assert(injections@.len() - declared.len() <= scope_injector_count(injection_map@, pool@, scope));
        assert(st.registry.next_id < i32::MAX ==> injections@.len() - declared.len() == scope_injector_count(injection_map@, pool@, scope));
    }
    proof {
        assert(after_root.registry.rules@[1] is Some);
        assert(st.registry.rules@[1] == after_root.registry.rules@[1]);
    }
    let root_scanner = build_scanner_for_rule(root_rule_id, &st.registry, None, false);
    let g = CompiledGrammar { registry: st.registry, root_rule_id, injections, root_scanner };
    proof {
        let d = declared.len() as int;
        assert(g.injections@.take(d) == injections@.take(d));
        assert(injections_in_order(g.injections@.take(d), members, origin, g.registry.next_id));
        assert(g.injections@.len() - d <= scope_injector_count(injection_map@, pool@, grammar_scope(*grammar)));
    }
    Ok(g)
}

proof fn lemma_memo_lookup_prefix(a: Seq<(String, i32)>, b: Seq<(String, i32)>, key: Seq<char>, from: int)
    requires
        0 <= from <= a.len() <= b.len(),
        forall|i: int| 0 <= i < a.len() ==> #[trigger] b[i] == a[i],
        memo_lookup(a, key, from) is Some,
    ensures
        memo_lookup(b, key, from) == memo_lookup(a, key, from),
    decreases a.len() - from,
{
    if from < a.len() && a[from].0@ != key {
        lemma_memo_lookup_prefix(a, b, key, from + 1);
    }
}

/// Once a key has been compiled, it keeps its id: compiling more rules
/// (which only grows the state) gives the same id for it.
pub proof fn lemma_compiled_keys_keep_their_ids(a: CompileState, b: CompileState, key: Seq<char>)
    requires
        grows(a, b),
        memo_lookup(a.compiled@, key, 0) is Some,
    ensures
        memo_lookup(b.compiled@, key, 0) == memo_lookup(a.compiled@, key, 0),
{
    lemma_memo_lookup_prefix(a.compiled@, b.compiled@, key, 0);
}

} // verus!
