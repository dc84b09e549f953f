use vstd::prelude::*;

use crate::text::{copy_strings, str_eq};

verus! {

broadcast use vstd::string::group_string_axioms;

/// The identity given to a compiled rule.
#[derive(Clone, Copy, Debug, PartialEq, Eq, Hash, PartialOrd, Ord)]
pub struct RuleId(pub u32);

impl RuleId {
    pub fn new(value: u32) -> (r: RuleId)
        ensures
            r.0 == value,
    {
        RuleId(value)
    }

    pub fn get(self) -> (r: u32)
        ensures
            r == self.0,
    {
        self.0
    }
}

/// Where a rule or grammar was defined.
#[derive(Clone, Debug, PartialEq, Eq)]
pub struct Location {
    pub filename: String,
    pub line: u32,
    pub character: u32,
}

/// A named rule reference: a key and the position of the rule in its
/// grammar's list of rules.
pub type RuleRef = (String, usize);

/// A TextMate rule as read from a grammar.  Rules refer to other rules by
/// their position in the list of rules of the grammar that holds them.
#[derive(Debug)]
pub struct RawRule {
    pub id: Option<RuleId>,
    pub include_target: Option<String>,
    pub name: Option<String>,
    pub content_name: Option<String>,
    pub match_pattern: Option<String>,
    pub captures: Option<Vec<RuleRef>>,
    pub begin: Option<String>,
    pub begin_captures: Option<Vec<RuleRef>>,
    pub end: Option<String>,
    pub end_captures: Option<Vec<RuleRef>>,
    pub while_pattern: Option<String>,
    pub while_captures: Option<Vec<RuleRef>>,
    pub patterns: Option<Vec<usize>>,
    pub repository: Option<Vec<RuleRef>>,
    pub apply_end_pattern_last: bool,
    pub location: Option<Location>,
}

impl RawRule {
    /// A rule with nothing set.
    pub fn empty() -> (r: RawRule)
        ensures
            r.include_target is None,
            r.patterns is None,
            r.repository is None,
    {
        RawRule {
            id: None,
            include_target: None,
            name: None,
            content_name: None,
            match_pattern: None,
            captures: None,
            begin: None,
            begin_captures: None,
            end: None,
            end_captures: None,
            while_pattern: None,
            while_captures: None,
            patterns: None,
            repository: None,
            apply_end_pattern_last: false,
            location: None,
        }
    }
}

/// A TextMate grammar as read from its JSON or plist source.  `rules` holds
/// every rule of the grammar; the other fields refer to rules by position.
#[derive(Debug)]
pub struct RawGrammar {
    pub rules: Vec<RawRule>,
    pub repository: Vec<RuleRef>,
    pub scope_name: String,
    pub patterns: Vec<usize>,
    pub injections: Vec<RuleRef>,
    pub injection_selector: Option<String>,
    pub file_types: Vec<String>,
    pub name: Option<String>,
    pub first_line_match: Option<String>,
    pub location: Option<Location>,
}

/// Whether every position in `refs` names a rule of a list of `n` rules.
pub open spec fn refs_in(refs: Seq<RuleRef>, n: int) -> bool {
    forall|i: int| 0 <= i < refs.len() ==> (#[trigger] refs[i]).1 < n
}

/// Whether every position in `ids` names a rule of a list of `n` rules.
pub open spec fn ids_in(ids: Seq<usize>, n: int) -> bool {
    forall|i: int| 0 <= i < ids.len() ==> #[trigger] ids[i] < n
}

/// Whether the references of a rule stay within a list of `n` rules.
pub open spec fn rule_wf(r: RawRule, n: int) -> bool {
    &&& (r.patterns matches Some(p) ==> ids_in(p@, n))
    &&& (r.repository matches Some(p) ==> refs_in(p@, n))
    &&& (r.captures matches Some(p) ==> refs_in(p@, n))
    &&& (r.begin_captures matches Some(p) ==> refs_in(p@, n))
    &&& (r.end_captures matches Some(p) ==> refs_in(p@, n))
    &&& (r.while_captures matches Some(p) ==> refs_in(p@, n))
}

impl RawGrammar {
    /// Whether every reference to a rule names one of `rules`.
    pub open spec fn wf(&self) -> bool {
        let n = self.rules.len() as int;
        &&& forall|i: int| 0 <= i < n ==> rule_wf(#[trigger] self.rules@[i], n)
        &&& refs_in(self.repository@, n)
        &&& ids_in(self.patterns@, n)
        &&& refs_in(self.injections@, n)
    }
}

/// The position of the first entry of `refs` at or after `from` whose key
/// is `key`.
pub open spec fn ref_position_from(refs: Seq<RuleRef>, key: Seq<char>, from: int) -> Option<int>
    decreases refs.len() - from,
{
    if from < 0 || from >= refs.len() {
        None
    } else if refs[from].0@ == key {
        Some(from)
    } else {
        ref_position_from(refs, key, from + 1)
    }
}

/// The position of the first entry of `refs` whose key is `key`.
pub open spec fn ref_position(refs: Seq<RuleRef>, key: Seq<char>) -> Option<int> {
    ref_position_from(refs, key, 0)
}

pub proof fn lemma_ref_position_from(refs: Seq<RuleRef>, key: Seq<char>, from: int)
    requires
        0 <= from,
    ensures
        match ref_position_from(refs, key, from) {
            Some(i) => from <= i < refs.len() && refs[i].0@ == key,
            None => forall|j: int| from <= j < refs.len() ==> (#[trigger] refs[j]).0@ != key,
        },
    decreases refs.len() - from,
{
    if from < refs.len() && refs[from].0@ != key {
        lemma_ref_position_from(refs, key, from + 1);
    }
}

/// The rule that `refs` gives for `key`: the first entry with that key.
pub fn find_ref(refs: &Vec<RuleRef>, key: &str) -> (r: Option<usize>)
    ensures
        r == match ref_position(refs@, key@) {
            Some(i) => Some(refs@[i].1),
            None => None::<usize>,
        },
{
    let mut i: usize = 0;
    while i < refs.len()
        invariant
            i <= refs.len(),
            ref_position(refs@, key@) == ref_position_from(refs@, key@, i as int),
        decreases refs.len() - i,
    {
        if str_eq(refs[i].0.as_str(), key) {
            return Some(refs[i].1);
        }
        i += 1;
    }
    None
}

/// The grammars that are known, by scope name, and the scopes that inject
/// into each scope.
pub struct GrammarStore {
    grammars: Vec<RawGrammar>,
    injections: Vec<(String, Vec<String>)>,
}

/// The position of the first grammar at or after `from` with scope name
/// `scope`.
pub open spec fn grammar_position_from(gs: Seq<RawGrammar>, scope: Seq<char>, from: int) -> Option<int>
    decreases gs.len() - from,
{
    if from < 0 || from >= gs.len() {
        None
    } else if gs[from].scope_name@ == scope {
        Some(from)
    } else {
        grammar_position_from(gs, scope, from + 1)
    }
}

/// The position of the first grammar with scope name `scope`.
pub open spec fn grammar_position(gs: Seq<RawGrammar>, scope: Seq<char>) -> Option<int> {
    grammar_position_from(gs, scope, 0)
}

pub proof fn lemma_grammar_position_from(gs: Seq<RawGrammar>, scope: Seq<char>, from: int)
    requires
        0 <= from,
    ensures
        match grammar_position_from(gs, scope, from) {
            Some(i) => from <= i < gs.len() && gs[i].scope_name@ == scope && forall|j: int|
                from <= j < i ==> (#[trigger] gs[j]).scope_name@ != scope,
            None => forall|j: int| from <= j < gs.len() ==> (#[trigger] gs[j]).scope_name@ != scope,
        },
    decreases gs.len() - from,
{
    if from < gs.len() && gs[from].scope_name@ != scope {
        lemma_grammar_position_from(gs, scope, from + 1);
    }
}

/// Replacing a grammar by one of the same scope name moves no position.
proof fn lemma_grammar_position_update(gs: Seq<RawGrammar>, i: int, g: RawGrammar, scope: Seq<char>, from: int)
    requires
        0 <= i < gs.len(),
        0 <= from,
        gs[i].scope_name@ == g.scope_name@,
    ensures
        grammar_position_from(gs.update(i, g), scope, from) == grammar_position_from(gs, scope, from),
    decreases gs.len() - from,
{
    if from < gs.len() {
        assert(gs.update(i, g)[from].scope_name@ == gs[from].scope_name@);
        lemma_grammar_position_update(gs, i, g, scope, from + 1);
    }
}

/// Appending a grammar moves no position but that of its own scope name,
/// where it had none.
proof fn lemma_grammar_position_push(gs: Seq<RawGrammar>, g: RawGrammar, scope: Seq<char>, from: int)
    requires
        0 <= from <= gs.len(),
    ensures
        grammar_position_from(gs.push(g), scope, from) == match grammar_position_from(gs, scope, from) {
            Some(k) => Some(k),
            None => if g.scope_name@ == scope { Some(gs.len() as int) } else { None },
        },
    decreases gs.len() - from,
{
    if from < gs.len() {
        assert(gs.push(g)[from] == gs[from]);
        lemma_grammar_position_push(gs, g, scope, from + 1);
    } else {
        assert(gs.push(g)[from] == g);
        assert(grammar_position_from(gs.push(g), scope, from + 1) is None);
    }
}

/// The injection list that `injections` gives for `scope`: that of the
/// first entry for it, or none.
pub open spec fn injections_for(injections: Seq<(String, Vec<String>)>, scope: Seq<char>) -> Seq<String>
    decreases injections.len(),
{
    if injections.len() == 0 {
        Seq::empty()
    } else if injections[0].0@ == scope {
        injections[0].1@
    } else {
        injections_for(injections.drop_first(), scope)
    }
}

impl GrammarStore {
    /// The grammars, at most one per scope name.
    pub closed spec fn spec_grammars(&self) -> Seq<RawGrammar> {
        self.grammars@
    }

    /// The injection lists, at most one per target scope.
    pub closed spec fn spec_injections(&self) -> Seq<(String, Vec<String>)> {
        self.injections@
    }

    /// Whether no two grammars share a scope name and every grammar is well
    /// formed.
    pub open spec fn wf(&self) -> bool {
        &&& forall|i: int, j: int|
            0 <= i < j < self.spec_grammars().len() ==> (#[trigger] self.spec_grammars()[i]).scope_name@
                != (#[trigger] self.spec_grammars()[j]).scope_name@
        &&& forall|i: int| 0 <= i < self.spec_grammars().len() ==> (#[trigger] self.spec_grammars()[i]).wf()
    }

    /// The position of the grammar for `scope`.
    pub open spec fn position(&self, scope: Seq<char>) -> Option<int> {
        grammar_position(self.spec_grammars(), scope)
    }

    /// The scopes injected into `scope`.
    pub open spec fn spec_injections_for(&self, scope: Seq<char>) -> Seq<String> {
        injections_for(self.spec_injections(), scope)
    }

    /// An empty store.
    pub fn new() -> (r: GrammarStore)
        ensures
            r.wf(),
            r.spec_grammars().len() == 0,
            r.spec_injections().len() == 0,
    {
        GrammarStore { grammars: Vec::new(), injections: Vec::new() }
    }

    /// Adds a grammar under its scope name, replacing the grammar of the same
    /// scope; gives back the one replaced.
    pub fn insert(&mut self, grammar: RawGrammar) -> (r: Option<RawGrammar>)
        requires
            old(self).wf(),
            grammar.wf(),
        ensures
            final(self).wf(),
            final(self).spec_injections() == old(self).spec_injections(),
            final(self).position(grammar.scope_name@) matches Some(i) && final(self).spec_grammars()[i]
                == grammar,
            forall|s: Seq<char>|
                #![trigger old(self).position(s)]
                s != grammar.scope_name@ ==> match old(self).position(s) {
                    Some(i) => final(self).position(s) matches Some(j)
                        && final(self).spec_grammars()[j] == old(self).spec_grammars()[i],
                    None => final(self).position(s) is None,
                },
            match old(self).position(grammar.scope_name@) {
                Some(i) => r == Some(old(self).spec_grammars()[i]),
                None => r is None,
            },
    {
        let ghost scope = grammar.scope_name@;
        let mut i: usize = 0;
        while i < self.grammars.len()
            invariant
                i <= self.grammars.len(),
                grammar_position(self.grammars@, scope) == grammar_position_from(self.grammars@, scope, i as int),
                grammar.scope_name@ == scope,
            ensures
                i <= self.grammars.len(),
                grammar_position(self.grammars@, scope) == grammar_position_from(self.grammars@, scope, i as int),
                i < self.grammars.len() ==> self.grammars@[i as int].scope_name@ == scope,
            decreases self.grammars.len() - i,
        {
            if str_eq(self.grammars[i].scope_name.as_str(), grammar.scope_name.as_str()) {
                break;
            }
            i += 1;
        }
        let ghost before = self.grammars@;
        proof {
            lemma_grammar_position_from(before, scope, i as int);
        }
        if i < self.grammars.len() {
            let old_grammar = self.grammars.remove(i);
            self.grammars.insert(i, grammar);
            proof {
                assert(self.grammars@ == before.update(i as int, grammar));
                assert forall|t: Seq<char>| true implies #[trigger] grammar_position(self.grammars@, t)
                    == grammar_position(before, t) by {
                    lemma_grammar_position_update(before, i as int, grammar, t, 0);
                }
                assert forall|t: Seq<char>| t != scope implies match #[trigger] grammar_position(before, t) {
                    Some(k) => grammar_position(self.grammars@, t) matches Some(j) && self.grammars@[j] == before[k],
                    None => grammar_position(self.grammars@, t) is None,
                } by {
                    lemma_grammar_position_from(before, t, 0);
                    if let Some(k) = grammar_position(before, t) {
                        assert(k != i);
                        assert(self.grammars@[k] == before[k]);
                    }
                }
                assert forall|a: int, b: int| 0 <= a < b < self.grammars@.len() implies (
                #[trigger] self.grammars@[a]).scope_name@ != (
                #[trigger] self.grammars@[b]).scope_name@ by {
                    if a != i && b != i {
                        assert(self.grammars@[a] == before[a] && self.grammars@[b] == before[b]);
                    } else if a == i {
                        assert(self.grammars@[b] == before[b]);
                    } else {
                        assert(self.grammars@[a] == before[a]);
                    }
                }
                assert forall|k: int| 0 <= k < self.grammars@.len() implies (#[trigger] self.grammars@[k]).wf() by {
                    if k != i {
                        assert(self.grammars@[k] == before[k]);
                    }
                }
            }
            Some(old_grammar)
        } else {
            self.grammars.push(grammar);
            proof {
                assert(self.grammars@ == before.push(grammar));
                assert forall|t: Seq<char>| true implies #[trigger] grammar_position(self.grammars@, t)
                    == match grammar_position(before, t) {
                        Some(k) => Some(k),
                        None => if scope == t { Some(before.len() as int) } else { None },
                    } by {
                    lemma_grammar_position_push(before, grammar, t, 0);
                }
                assert forall|t: Seq<char>| t != scope implies match #[trigger] grammar_position(before, t) {
                    Some(k) => grammar_position(self.grammars@, t) matches Some(j) && self.grammars@[j] == before[k],
                    None => grammar_position(self.grammars@, t) is None,
                } by {
                    lemma_grammar_position_from(before, t, 0);
                    if let Some(k) = grammar_position(before, t) {
                        assert(self.grammars@[k] == before[k]);
                    }
                }
                lemma_grammar_position_from(before, scope, 0);
                assert forall|a: int, b: int| 0 <= a < b < self.grammars@.len() implies (
                #[trigger] self.grammars@[a]).scope_name@ != (
                #[trigger] self.grammars@[b]).scope_name@ by {
                    if b < before.len() {
                        assert(self.grammars@[a] == before[a] && self.grammars@[b] == before[b]);
                    } else {
                        assert(self.grammars@[a] == before[a]);
                    }
                }
                assert forall|k: int| 0 <= k < self.grammars@.len() implies (#[trigger] self.grammars@[k]).wf() by {
                    if k < before.len() {
                        assert(self.grammars@[k] == before[k]);
                    }
                }
            }
            None
        }
    }

    /// The same as `insert`; a grammar is not shared between stores here.
    pub fn insert_shared(&mut self, grammar: RawGrammar) -> (r: Option<RawGrammar>)
        requires
            old(self).wf(),
            grammar.wf(),
        ensures
            final(self).wf(),
            final(self).spec_injections() == old(self).spec_injections(),
            final(self).position(grammar.scope_name@) matches Some(i) && final(self).spec_grammars()[i]
                == grammar,
            forall|s: Seq<char>|
                #![trigger old(self).position(s)]
                s != grammar.scope_name@ ==> match old(self).position(s) {
                    Some(i) => final(self).position(s) matches Some(j)
                        && final(self).spec_grammars()[j] == old(self).spec_grammars()[i],
                    None => final(self).position(s) is None,
                },
            match old(self).position(grammar.scope_name@) {
                Some(i) => r == Some(old(self).spec_grammars()[i]),
                None => r is None,
            },
    {
        self.insert(grammar)
    }

    /// Sets the scopes that inject into `target_scope`.
    pub fn set_injections(&mut self, target_scope: &str, injection_scope_names: Vec<String>)
        requires
            old(self).wf(),
        ensures
            final(self).wf(),
            final(self).spec_grammars() == old(self).spec_grammars(),
            final(self).spec_injections_for(target_scope@) == injection_scope_names@,
            forall|s: Seq<char>|
                #![trigger old(self).spec_injections_for(s)]
                s != target_scope@ ==> final(self).spec_injections_for(s)
                    == old(self).spec_injections_for(s),
    {
        let ghost before = self.injections@;
        let entry = (copy_string_of(target_scope), injection_scope_names);
        self.injections.insert(0, entry);
        proof {
            assert(self.injections@.drop_first() =~= before);
        }
    }

    /// The scopes that inject into `scope`.
    pub fn injections(&self, scope: &str) -> (r: Vec<String>)
        ensures
            r@ == self.spec_injections_for(scope@),
    {
        let mut i: usize = 0;
        assert(self.injections@.skip(0) =~= self.injections@);
        while i < self.injections.len()
            invariant
                i <= self.injections.len(),
                injections_for(self.injections@, scope@) == injections_for(
                    self.injections@.skip(i as int),
                    scope@,
                ),
            decreases self.injections.len() - i,
        {
            if str_eq(self.injections[i].0.as_str(), scope) {
                return copy_strings(&self.injections[i].1);
            }
            assert(self.injections@.skip(i as int).drop_first() =~= self.injections@.skip(i + 1));
            i += 1;
        }
        Vec::new()
    }

    /// The position of the grammar for `scope`, if there is one.
    pub fn position_of(&self, scope: &str) -> (r: Option<usize>)
        ensures
            match r {
                Some(i) => self.position(scope@) == Some(i as int),
                None => self.position(scope@) is None,
            },
    {
        let mut i: usize = 0;
        while i < self.grammars.len()
            invariant
                i <= self.grammars.len(),
                grammar_position(self.grammars@, scope@) == grammar_position_from(self.grammars@, scope@, i as int),
            decreases self.grammars.len() - i,
        {
            if str_eq(self.grammars[i].scope_name.as_str(), scope) {
                return Some(i);
            }
            i += 1;
        }
        None
    }

    /// The grammar for `scope`, if there is one.
    pub fn lookup(&self, scope: &str) -> (r: Option<&RawGrammar>)
        ensures
            match self.position(scope@) {
                Some(i) => r matches Some(g) && *g == self.spec_grammars()[i],
                None => r is None,
            },
    {
        proof {
            lemma_grammar_position_from(self.grammars@, scope@, 0);
        }
        let p = self.position_of(scope);
        match p {
            Some(i) => {
                let g = &self.grammars[i];
                Some(g)
            },
            None => None,
        }
    }

    /// The grammar at a position.
    pub fn grammar_at(&self, i: usize) -> (r: &RawGrammar)
        requires
            i < self.spec_grammars().len(),
        ensures
            *r == self.spec_grammars()[i as int],
    {
        &self.grammars[i]
    }

    /// The number of grammars.
    pub fn len(&self) -> (r: usize)
        ensures
            r == self.spec_grammars().len(),
    {
        self.grammars.len()
    }

    /// Removes every grammar and injection list.
    pub fn clear(&mut self)
        ensures
            final(self).wf(),
            final(self).spec_grammars().len() == 0,
            final(self).spec_injections().len() == 0,
    {
        self.grammars = Vec::new();
        self.injections = Vec::new();
    }
}

fn copy_string_of(s: &str) -> (r: String)
    ensures
        r@ == s@,
{
    crate::text::string_from_chars(crate::text::chars_of(s).as_slice())
}

/// The rule that `refs` gives for `key`: that of its first entry with the
/// key.
pub open spec fn ref_lookup(refs: Seq<RuleRef>, key: Seq<char>) -> Option<usize> {
    match ref_position(refs, key) {
        Some(i) => Some(refs[i].1),
        None => None,
    }
}

/// The references as plain values.
pub open spec fn refs_view(v: Seq<RuleRef>) -> Seq<(Seq<char>, usize)> {
    v.map_values(|p: RuleRef| (p.0@, p.1))
}

/// An optional list of references as plain values.
pub open spec fn opt_refs_view(o: Option<Vec<RuleRef>>) -> Option<Seq<(Seq<char>, usize)>> {
    match o {
        Some(v) => Some(refs_view(v@)),
        None => None,
    }
}

/// An optional list of positions as plain values.
pub open spec fn opt_ids_view(o: Option<Vec<usize>>) -> Option<Seq<usize>> {
    match o {
        Some(v) => Some(v@),
        None => None,
    }
}

/// Whether two rules hold the same values.
pub open spec fn same_rule(a: RawRule, b: RawRule) -> bool {
    &&& a.id == b.id
    &&& a.include_target == b.include_target
    &&& a.name == b.name
    &&& a.content_name == b.content_name
    &&& a.match_pattern == b.match_pattern
    &&& opt_refs_view(a.captures) == opt_refs_view(b.captures)
    &&& a.begin == b.begin
    &&& opt_refs_view(a.begin_captures) == opt_refs_view(b.begin_captures)
    &&& a.end == b.end
    &&& opt_refs_view(a.end_captures) == opt_refs_view(b.end_captures)
    &&& a.while_pattern == b.while_pattern
    &&& opt_refs_view(a.while_captures) == opt_refs_view(b.while_captures)
    &&& opt_ids_view(a.patterns) == opt_ids_view(b.patterns)
    &&& opt_refs_view(a.repository) == opt_refs_view(b.repository)
    &&& a.apply_end_pattern_last == b.apply_end_pattern_last
    &&& a.location == b.location
}

fn copy_refs(v: &Vec<RuleRef>) -> (r: Vec<RuleRef>)
    ensures
        refs_view(r@) == refs_view(v@),
{
    let mut r: Vec<RuleRef> = Vec::new();
    let mut i: usize = 0;
    while i < v.len()
        invariant
            i <= v.len(),
            refs_view(r@) == refs_view(v@).take(i as int),
        decreases v.len() - i,
    {
        let ghost before = r@;
        r.push((crate::text::copy_string(&v[i].0), v[i].1));
        assert(refs_view(r@) =~= refs_view(before).push((v@[i as int].0@, v@[i as int].1)));
        assert(refs_view(v@).take(i + 1) =~= refs_view(v@).take(i as int).push(refs_view(v@)[i as int]));
        i += 1;
    }
    assert(refs_view(v@).take(i as int) =~= refs_view(v@));
    r
}

fn copy_opt_refs(o: &Option<Vec<RuleRef>>) -> (r: Option<Vec<RuleRef>>)
    ensures
        opt_refs_view(r) == opt_refs_view(*o),
{
    match o {
        Some(v) => Some(copy_refs(v)),
        None => None,
    }
}

fn copy_ids(v: &Vec<usize>) -> (r: Vec<usize>)
    ensures
        r@ == v@,
{
    let mut r: Vec<usize> = Vec::new();
    let mut i: usize = 0;
    while i < v.len()
        invariant
            i <= v.len(),
            r@ == v@.take(i as int),
        decreases v.len() - i,
    {
        r.push(v[i]);
        i += 1;
        assert(r@ =~= v@.take(i as int));
    }
    assert(v@.take(i as int) =~= v@);
    r
}

fn copy_opt_ids(o: &Option<Vec<usize>>) -> (r: Option<Vec<usize>>)
    ensures
        opt_ids_view(r) == opt_ids_view(*o),
{
    match o {
        Some(v) => Some(copy_ids(v)),
        None => None,
    }
}

pub(crate) fn copy_location(l: &Option<Location>) -> (r: Option<Location>)
    ensures
        r == *l,
{
    match l {
        Some(x) => Some(Location { filename: x.filename.clone(), line: x.line, character: x.character }),
        None => None,
    }
}

pub(crate) fn copy_rule(r: &RawRule) -> (c: RawRule)
    ensures
        same_rule(c, *r),
{
    RawRule {
        id: r.id,
        include_target: crate::text::copy_opt_string(&r.include_target),
        name: crate::text::copy_opt_string(&r.name),
        content_name: crate::text::copy_opt_string(&r.content_name),
        match_pattern: crate::text::copy_opt_string(&r.match_pattern),
        captures: copy_opt_refs(&r.captures),
        begin: crate::text::copy_opt_string(&r.begin),
        begin_captures: copy_opt_refs(&r.begin_captures),
        end: crate::text::copy_opt_string(&r.end),
        end_captures: copy_opt_refs(&r.end_captures),
        while_pattern: crate::text::copy_opt_string(&r.while_pattern),
        while_captures: copy_opt_refs(&r.while_captures),
        patterns: copy_opt_ids(&r.patterns),
        repository: copy_opt_refs(&r.repository),
        apply_end_pattern_last: r.apply_end_pattern_last,
        location: copy_location(&r.location),
    }
}

/// The key of the synthetic rule for the grammar itself.
pub open spec fn self_key() -> Seq<char> {
    seq!['$', 's', 'e', 'l', 'f']
}

/// The key of the synthetic rule for the base grammar.
pub open spec fn base_key() -> Seq<char> {
    seq!['$', 'b', 'a', 's', 'e']
}

/// Whether `r` is the rule for the grammar itself: named by its scope name,
/// with its patterns and location, and nothing else set.
pub open spec fn self_rule_of(r: RawRule, g: RawGrammar) -> bool {
    &&& r.id is None
    &&& r.include_target is None
    &&& r.name == Some(g.scope_name)
    &&& r.content_name is None
    &&& r.match_pattern is None
    &&& r.captures is None
    &&& r.begin is None
    &&& r.begin_captures is None
    &&& r.end is None
    &&& r.end_captures is None
    &&& r.while_pattern is None
    &&& r.while_captures is None
    &&& opt_ids_view(r.patterns) == Some(g.patterns@)
    &&& r.repository is None
    &&& !r.apply_end_pattern_last
    &&& r.location == g.location
}

proof fn lemma_same_rule_wf(a: RawRule, b: RawRule, n: int, m: int)
    requires
        same_rule(a, b),
        rule_wf(b, n),
        n <= m,
    ensures
        rule_wf(a, m),
{
    if let Some(p) = a.patterns {
        assert forall|i: int| 0 <= i < p@.len() implies #[trigger] p@[i] < m by {
            assert(opt_ids_view(a.patterns) == opt_ids_view(b.patterns));
        }
    }
    lemma_refs_wf(a.captures, b.captures, n, m);
    lemma_refs_wf(a.begin_captures, b.begin_captures, n, m);
    lemma_refs_wf(a.end_captures, b.end_captures, n, m);
    lemma_refs_wf(a.while_captures, b.while_captures, n, m);
    lemma_refs_wf(a.repository, b.repository, n, m);
}

proof fn lemma_refs_wf(a: Option<Vec<RuleRef>>, b: Option<Vec<RuleRef>>, n: int, m: int)
    requires
        opt_refs_view(a) == opt_refs_view(b),
        b matches Some(p) ==> refs_in(p@, n),
        n <= m,
    ensures
        a matches Some(p) ==> refs_in(p@, m),
{
    if let Some(p) = a {
        let q = b->Some_0;
        assert(refs_view(p@).len() == p@.len());
        assert(refs_view(q@).len() == q@.len());
        assert forall|i: int| 0 <= i < p@.len() implies (#[trigger] p@[i]).1 < m by {
            assert(refs_view(p@)[i] == refs_view(q@)[i]);
            assert(q@[i].1 < n);
        }
    }
}

proof fn lemma_ref_position_push(s: Seq<RuleRef>, x: RuleRef, key: Seq<char>, from: int)
    requires
        0 <= from <= s.len(),
    ensures
        ref_position_from(s.push(x), key, from) == match ref_position_from(s, key, from) {
            Some(i) => Some(i),
            None => if x.0@ == key { Some(s.len() as int) } else { None },
        },
    decreases s.len() - from,
{
    if from < s.len() {
        assert(s.push(x)[from] == s[from]);
        if s[from].0@ != key {
            lemma_ref_position_push(s, x, key, from + 1);
        }
    } else {
        assert(s.push(x)[from] == x);
        assert(ref_position_from(s.push(x), key, from + 1) is None);
    }
}

proof fn lemma_ref_lookup_push(s: Seq<RuleRef>, x: RuleRef, key: Seq<char>)
    ensures
        ref_lookup(s.push(x), key) == match ref_lookup(s, key) {
            Some(v) => Some(v),
            None => if x.0@ == key { Some(x.1) } else { None },
        },
{
    lemma_ref_position_push(s, x, key, 0);
    lemma_ref_position_from(s, key, 0);
    if let Some(i) = ref_position_from(s, key, 0) {
        assert(s.push(x)[i] == s[i]);
    }
}

proof fn lemma_ref_lookup_extend(before: Seq<RuleRef>, after: Seq<RuleRef>, old: Seq<RuleRef>, new: Seq<RuleRef>, key: Seq<char>)
    requires
        key != self_key() && key != base_key(),
        ref_lookup(before, key) == ref_lookup(old, key),
        new.len() == old.len() + 1,
        new == old.push(new[old.len() as int]),
        ({
            let e = new[old.len() as int];
            ||| ((e.0@ == self_key() || e.0@ == base_key()) && after == before)
            ||| (after.len() == before.len() + 1 && after == before.push(after[before.len() as int])
                && after[before.len() as int].0@ == e.0@ && after[before.len() as int].1 == e.1)
        }),
    ensures
        ref_lookup(after, key) == ref_lookup(new, key),
{
    let e = new[old.len() as int];
    lemma_ref_lookup_push(old, e, key);
    if after.len() == before.len() + 1 && after == before.push(after[before.len() as int]) {
        lemma_ref_lookup_push(before, after[before.len() as int], key);
    }
}

/// Adds the synthetic rules `$self` (the grammar's own patterns under its
/// scope name) and `$base` (`base`, or `$self` where there is none) to the
/// grammar's repository, in place of entries with those keys.  The rules
/// keep their positions; the new ones follow them.
pub fn initialize_grammar(grammar: &RawGrammar, base: Option<RawRule>) -> (r: RawGrammar)
    requires
        grammar.wf(),
        base matches Some(b) ==> rule_wf(b, grammar.rules@.len() as int),
    ensures
        r.wf(),
        r.rules@.len() == grammar.rules@.len() + if base is Some { 2int } else { 1int },
        forall|i: int| 0 <= i < grammar.rules@.len() ==> same_rule(#[trigger] r.rules@[i], grammar.rules@[i]),
        self_rule_of(r.rules@[grammar.rules@.len() as int], *grammar),
        base matches Some(b) ==> same_rule(r.rules@[grammar.rules@.len() as int + 1], b),
        ref_lookup(r.repository@, self_key()) == Some(grammar.rules@.len() as usize),
        ref_lookup(r.repository@, base_key()) == Some(if base is Some { (grammar.rules@.len() + 1) as usize } else { grammar.rules@.len() as usize }),
        forall|k: Seq<char>| k != self_key() && k != base_key() ==> #[trigger] ref_lookup(r.repository@, k) == ref_lookup(grammar.repository@, k),
        r.scope_name == grammar.scope_name,
        r.patterns@ == grammar.patterns@,
        refs_view(r.injections@) == refs_view(grammar.injections@),
        r.injection_selector == grammar.injection_selector,
        r.file_types@ == grammar.file_types@,
        r.name == grammar.name,
        r.first_line_match == grammar.first_line_match,
        r.location == grammar.location,
{
    let n = grammar.rules.len();
    let mut rules: Vec<RawRule> = Vec::new();
    let mut i: usize = 0;
    while i < n
        invariant
            i <= n,
            n == grammar.rules@.len(),
            rules@.len() == i,
            forall|j: int| 0 <= j < i ==> same_rule(#[trigger] rules@[j], grammar.rules@[j]),
        decreases n - i,
    {
        rules.push(copy_rule(&grammar.rules[i]));
        i += 1;
    }
    let self_rule = RawRule {
        id: None,
        include_target: None,
        name: Some(grammar.scope_name.clone()),
        content_name: None,
        match_pattern: None,
        captures: None,
        begin: None,
        begin_captures: None,
        end: None,
        end_captures: None,
        while_pattern: None,
        while_captures: None,
        patterns: Some(copy_ids(&grammar.patterns)),
        repository: None,
        apply_end_pattern_last: false,
        location: copy_location(&grammar.location),
    };
    rules.push(self_rule);
    let base_position = match base {
        Some(b) => {
            let p = rules.len();
            rules.push(b);
            p
        },
        None => n,
    };
    let self_name: String = "$self".to_string();
    let base_name: String = "$base".to_string();
    proof {
        reveal_strlit("$self");
        reveal_strlit("$base");
        assert(self_name@ =~= self_key());
        assert(base_name@ =~= base_key());
    }
    let mut repository: Vec<RuleRef> = Vec::new();
    repository.push((self_name, n));
    repository.push((base_name, base_position));
    proof {
        assert(grammar.repository@.take(0) =~= Seq::<RuleRef>::empty());
        assert forall|key: Seq<char>| key != self_key() && key != base_key() implies #[trigger] ref_lookup(repository@, key)
            == ref_lookup(grammar.repository@.take(0), key) by {
            lemma_ref_position_from(repository@, key, 0);
            lemma_ref_position_from(grammar.repository@.take(0), key, 0);
        }
    }
    let mut k: usize = 0;
    while k < grammar.repository.len()
        invariant
            k <= grammar.repository@.len(),
            repository@.len() >= 2,
            repository@[0].0@ == self_key() && repository@[0].1 == n,
            repository@[1].0@ == base_key() && repository@[1].1 == base_position,
            forall|j: int| 0 <= j < repository@.len() ==> #[trigger] repository@[j].1 < rules@.len(),
            rules@.len() == n + if base is Some { 2int } else { 1int },
            grammar.wf(),
            n == grammar.rules@.len(),
            forall|key: Seq<char>| key != self_key() && key != base_key() ==> #[trigger] ref_lookup(repository@, key)
                == ref_lookup(grammar.repository@.take(k as int), key),
        decreases grammar.repository@.len() - k,
    {
        let entry_name = grammar.repository[k].0.clone();
        let entry_rule = grammar.repository[k].1;
        proof {
            reveal_strlit("$self");
            reveal_strlit("$base");
            assert("$self"@ =~= self_key());
            assert("$base"@ =~= base_key());
        }
        let keep = !str_eq(entry_name.as_str(), "$self") && !str_eq(entry_name.as_str(), "$base");
        let ghost before = repository@;
        assert(grammar.repository@.take(k + 1) =~= grammar.repository@.take(k as int).push(grammar.repository@[k as int]));
        if keep {
            repository.push((entry_name, entry_rule));
        }
        proof {
            assert forall|key: Seq<char>| key != self_key() && key != base_key() implies #[trigger] ref_lookup(repository@, key)
                == ref_lookup(grammar.repository@.take(k + 1), key) by {
                lemma_ref_lookup_extend(before, repository@, grammar.repository@.take(k as int), grammar.repository@.take(k + 1), key);
            }
        }
        k += 1;
    }
    assert(grammar.repository@.take(k as int) =~= grammar.repository@);
    proof {
        let m = rules@.len() as int;
        assert forall|j: int| 0 <= j < m implies rule_wf(#[trigger] rules@[j], m) by {
            if j < n {
                assert(rule_wf(grammar.rules@[j], n as int));
                lemma_same_rule_wf(rules@[j], grammar.rules@[j], n as int, m);
            } else if j > n {
                lemma_same_rule_wf(rules@[j], base->Some_0, n as int, m);
            }
        }
    }
    proof {
        lemma_ref_position_from(repository@, self_key(), 0);
        lemma_ref_position_from(repository@, base_key(), 0);
        assert(ref_position_from(repository@, self_key(), 0) == Some(0int));
        assert(ref_position_from(repository@, base_key(), 1) == Some(1int));
    }
    let r = RawGrammar {
        rules,
        repository,
        scope_name: grammar.scope_name.clone(),
        patterns: copy_ids(&grammar.patterns),
        injections: copy_refs(&grammar.injections),
        injection_selector: crate::text::copy_opt_string(&grammar.injection_selector),
        file_types: copy_strings(&grammar.file_types),
        name: crate::text::copy_opt_string(&grammar.name),
        first_line_match: crate::text::copy_opt_string(&grammar.first_line_match),
        location: copy_location(&grammar.location),
    };
    proof {
        let m = r.rules@.len() as int;
        lemma_refs_wf(Some(r.injections), Some(grammar.injections), n as int, m);
        assert(refs_in(r.repository@, m));
        assert(ids_in(r.patterns@, m));
    }
    r
}

/// Supplies the grammars that top-level includes name.
pub trait GrammarProvider {
    /// The grammar with scope name `scope_name`, where there is one.
    fn lookup(&self, scope_name: &str) -> (r: Option<&RawGrammar>)
        ensures
            r matches Some(g) ==> g.scope_name@ == scope_name@,
    ;
}

impl GrammarProvider for GrammarStore {
    fn lookup(&self, scope_name: &str) -> (r: Option<&RawGrammar>) {
        proof {
            lemma_grammar_position_from(self.spec_grammars(), scope_name@, 0);
        }
        GrammarStore::lookup(self, scope_name)
    }
}

} // verus!
