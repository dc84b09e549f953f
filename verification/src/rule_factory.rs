use vstd::prelude::*;

use std::sync::Arc;

use crate::include_reference::{parse_include, IncludeReference};
use crate::raw_grammar::{
    copy_location, copy_rule, find_ref, ids_in, refs_in, initialize_grammar, lemma_ref_position_from, opt_ids_view, opt_refs_view, ref_lookup,
    rule_wf, same_rule, self_key, self_rule_of, GrammarStore, RawGrammar, RawRule, RuleId, RuleRef,
};
use crate::rule::{
    data_of, kept_source, missing_end, BeginEndRule, BeginEndRuleOptions, BeginWhileRule, BeginWhileRuleOptions, CaptureRule,
    CompilePatternsResult, IncludeOnlyRule, MatchRule, Rule, RuleRegistry,
};
use crate::rules::{parse_usize_text, usize_text_value};
use crate::text::{chars_of, copy_opt_string, str_eq, string_from_chars, sub_chars};

verus! {

broadcast use vstd::string::group_string_axioms;

/// A rule of one of the factory's grammars: the grammar's slot and the
/// rule's position in it.
pub type Identity = (usize, usize);

/// A repository in scope: the grammar's slot, and the rule whose own
/// repository it is (none for the grammar's).
pub type Layer = (usize, Option<usize>);

/// The repositories in scope, innermost last.
pub struct RepositoryContext {
    pub layers: Vec<Layer>,
}

/// The number of entries of an optional list.
pub open spec fn opt_len(o: Option<Vec<RuleRef>>) -> nat {
    match opt_refs_view(o) {
        Some(v) => v.len(),
        None => 0,
    }
}

/// The entries of `o`, or where it is not given, of `c`.
pub open spec fn either_len(o: Option<Vec<RuleRef>>, c: Option<Vec<RuleRef>>) -> nat {
    match opt_refs_view(o) {
        Some(v) => v.len(),
        None => opt_len(c),
    }
}

/// The number of capture entries that compiling a rule goes through.
pub open spec fn caps_used(d: RawRule) -> nat {
    if d.match_pattern is Some {
        opt_len(d.captures)
    } else if d.begin is None {
        0
    } else if d.while_pattern is Some {
        either_len(d.begin_captures, d.captures) + either_len(d.while_captures, d.captures)
    } else {
        either_len(d.begin_captures, d.captures) + either_len(d.end_captures, d.captures)
    }
}

/// How many identities compiling a rule may take: its own and one per
/// capture entry.
pub open spec fn rule_cost(d: RawRule) -> nat {
    1 + caps_used(d)
}

/// What the rules of a row not compiled yet may take.
pub open spec fn row_rem(row: Seq<Option<RuleId>>, rules: Seq<RawRule>) -> nat
    decreases row.len(),
{
    if row.len() == 0 {
        0
    } else {
        row_rem(row.drop_last(), rules) + if row.last() is None {
            rule_cost(rules[row.len() - 1])
        } else {
            0
        }
    }
}

/// What the rules not compiled yet may take, over all grammars.
pub open spec fn table_rem(memo: Seq<Vec<Option<RuleId>>>, gs: Seq<RawGrammar>) -> nat
    decreases memo.len(),
{
    if memo.len() == 0 {
        0
    } else {
        table_rem(memo.drop_last(), gs) + row_rem(memo.last()@, gs[memo.len() - 1].rules@)
    }
}

/// The number of leading decimal digits of `s` from `k`.
pub open spec fn lead_digits(s: Seq<char>, k: int) -> int
    decreases s.len() - k,
{
    if k < 0 || k >= s.len() || !('0' <= s[k] && s[k] <= '9') {
        k
    } else {
        lead_digits(s, k + 1)
    }
}

/// The capture a key names: the value of its leading digits.
pub open spec fn capture_id(s: Seq<char>) -> Option<usize> {
    let n = lead_digits(s, 0);
    if n <= 0 {
        None
    } else {
        usize_text_value(s.take(n))
    }
}

/// Whether no key of a capture list names the largest index.
pub open spec fn keys_ok(o: Option<Vec<RuleRef>>) -> bool {
    match opt_refs_view(o) {
        Some(v) => forall|j: int| 0 <= j < v.len() ==> capture_id(#[trigger] v[j].0) != Some(usize::MAX),
        None => true,
    }
}

pub open spec fn rule_keys_ok(r: RawRule) -> bool {
    &&& keys_ok(r.captures)
    &&& keys_ok(r.begin_captures)
    &&& keys_ok(r.end_captures)
    &&& keys_ok(r.while_captures)
}

pub open spec fn grammar_keys_ok(g: RawGrammar) -> bool {
    forall|i: int| 0 <= i < g.rules@.len() ==> rule_keys_ok(#[trigger] g.rules@[i])
}

/// Of the first `j` capture entries, the last whose key names capture `k`.
pub open spec fn last_entry(v: Seq<(Seq<char>, usize)>, k: nat, j: int) -> Option<int>
    decreases j,
{
    if j <= 0 || j > v.len() {
        None
    } else if capture_id(v[j - 1].0) == Some(k as usize) {
        Some(j - 1)
    } else {
        last_entry(v, k, j - 1)
    }
}

/// The largest capture index that the first `j` entries name (0 where
/// none does).
pub open spec fn max_capture(v: Seq<(Seq<char>, usize)>, j: int) -> nat
    decreases j,
{
    if j <= 0 || j > v.len() {
        0
    } else {
        let m = max_capture(v, j - 1);
        match capture_id(v[j - 1].0) {
            Some(c) => if c > m { c as nat } else { m },
            None => m,
        }
    }
}

/// The scope names that a capture list gives, by capture index: an entry
/// for every index up to the largest named, holding the name of the rule
/// of the last entry for that index, none for an index no entry names; no
/// entries where there is no list.
pub open spec fn capture_table(o: Option<Seq<(Seq<char>, usize)>>, rules: Seq<RawRule>) -> Seq<Option<Option<String>>> {
    match o {
        None => Seq::empty(),
        Some(v) => Seq::new(
            max_capture(v, v.len() as int) + 1,
            |k: int|
                match last_entry(v, k as nat, v.len() as int) {
                    Some(i) => Some(rules[v[i].1 as int].name),
                    None => None,
                },
        ),
    }
}

/// The scope names of compiled capture rules, by index.
pub open spec fn compiled_names(cs: Seq<Option<Arc<CaptureRule>>>) -> Seq<Option<Option<String>>> {
    cs.map_values(
        |c: Option<Arc<CaptureRule>>|
            match c {
                Some(r) => Some(r.data.name),
                None => None,
            },
    )
}

/// A capture list, or where it is not given, the rule's own captures.
pub open spec fn either_list(o: Option<Vec<RuleRef>>, c: Option<Vec<RuleRef>>) -> Option<Seq<(Seq<char>, usize)>> {
    match opt_refs_view(o) {
        Some(v) => Some(v),
        None => opt_refs_view(c),
    }
}

/// Whether the captures of `r` are those that `d` lists, the names taken
/// from `rules`: a begin, end or while pattern's own list where it has
/// one, else the rule's captures.
pub open spec fn captures_shaped(r: Rule, d: RawRule, rules: Seq<RawRule>) -> bool {
    match r {
        Rule::Match(x) => compiled_names(x.captures@) == capture_table(opt_refs_view(d.captures), rules),
        Rule::BeginEnd(x) => {
            &&& compiled_names(x.begin_captures@) == capture_table(either_list(d.begin_captures, d.captures), rules)
            &&& compiled_names(x.end_captures@) == capture_table(either_list(d.end_captures, d.captures), rules)
        },
        Rule::BeginWhile(x) => {
            &&& compiled_names(x.begin_captures@) == capture_table(either_list(d.begin_captures, d.captures), rules)
            &&& compiled_names(x.while_captures@) == capture_table(either_list(d.while_captures, d.captures), rules)
        },
        _ => true,
    }
}

/// Whether `r` is the rule compiled from `d` under `id`: the kind that the
/// description's fields choose, with its names and patterns.
pub open spec fn shaped(r: Rule, d: RawRule, id: RuleId) -> bool {
    match d.match_pattern {
        Some(m) => r matches Rule::Match(x) && data_of(x.data, d.location, id, d.name, None) && x.match_source.source_chars()
            == kept_source(m@),
        None => match d.begin {
            None => r matches Rule::IncludeOnly(x) && data_of(x.data, d.location, id, d.name, d.content_name),
            Some(b) => match d.while_pattern {
                Some(w) => r matches Rule::BeginWhile(x) && data_of(x.data, d.location, id, d.name, d.content_name)
                    && x.begin.source_chars() == kept_source(b@) && x.while_source.source_chars() == kept_source(w@),
                None => r matches Rule::BeginEnd(x) && data_of(x.data, d.location, id, d.name, d.content_name)
                    && x.begin.source_chars() == kept_source(b@) && x.end.source_chars() == kept_source(
                    match d.end {
                        Some(e) => e@,
                        None => missing_end(),
                    },
                ) && x.apply_end_pattern_last == d.apply_end_pattern_last,
            },
        },
    }
}

/// Compiles the raw rules of a grammar, and of the grammars it includes,
/// into a rule registry: each raw rule once, under the identity reserved
/// for it before its nested rules.
pub struct RuleFactory {
    grammars: Vec<RawGrammar>,
    loaded: Vec<bool>,
    bases: Vec<Option<Identity>>,
    memo: Vec<Vec<Option<RuleId>>>,
    registry: RuleRegistry,
}

proof fn lemma_max_capture_bound(v: Seq<(Seq<char>, usize)>, n: int, j: int)
    requires
        0 <= j < n <= v.len(),
    ensures
        capture_id(v[j].0) matches Some(c) ==> c <= max_capture(v, n),
    decreases n,
{
    if j < n - 1 {
        lemma_max_capture_bound(v, n - 1, j);
    }
}

proof fn lemma_max_capture_named(v: Seq<(Seq<char>, usize)>, n: int)
    requires
        0 <= n <= v.len(),
    ensures
        max_capture(v, n) == 0 || exists|j: int| 0 <= j < n && capture_id(#[trigger] v[j].0) == Some(max_capture(v, n) as usize),
    decreases n,
{
    if n > 0 {
        lemma_max_capture_named(v, n - 1);
        if max_capture(v, n) != max_capture(v, n - 1) {
            assert(capture_id(v[n - 1].0) == Some(max_capture(v, n) as usize));
        } else if max_capture(v, n - 1) != 0 {
            let j = choose|j: int| 0 <= j < n - 1 && capture_id(#[trigger] v[j].0) == Some(max_capture(v, n - 1) as usize);
            assert(capture_id(v[j].0) == Some(max_capture(v, n) as usize));
        }
    }
}

proof fn lemma_row_rem_update(row: Seq<Option<RuleId>>, rules: Seq<RawRule>, i: int, v: RuleId)
    requires
        0 <= i < row.len(),
        row[i] is None,
    ensures
        row_rem(row.update(i, Some(v)), rules) + rule_cost(rules[i]) == row_rem(row, rules),
    decreases row.len(),
{
    let u = row.update(i, Some(v));
    if i == row.len() - 1 {
        assert(u.drop_last() =~= row.drop_last());
    } else {
        lemma_row_rem_update(row.drop_last(), rules, i, v);
        assert(u.drop_last() =~= row.drop_last().update(i, Some(v)));
    }
}

proof fn lemma_table_rem_update(memo: Seq<Vec<Option<RuleId>>>, gs: Seq<RawGrammar>, s: int, row: Vec<Option<RuleId>>, i: int, v: RuleId)
    requires
        0 <= s < memo.len(),
        0 <= i < memo[s]@.len(),
        memo[s]@[i] is None,
        row@ == memo[s]@.update(i, Some(v)),
    ensures
        table_rem(memo.update(s, row), gs) + rule_cost(gs[s].rules@[i]) == table_rem(memo, gs),
    decreases memo.len(),
{
    let u = memo.update(s, row);
    if s == memo.len() - 1 {
        assert(u.drop_last() =~= memo.drop_last());
        lemma_row_rem_update(memo[s]@, gs[s].rules@, i, v);
    } else {
        lemma_table_rem_update(memo.drop_last(), gs, s, row, i, v);
        assert(u.drop_last() =~= memo.drop_last().update(s, row));
    }
}

proof fn lemma_row_rem_all_none_pos(row: Seq<Option<RuleId>>, rules: Seq<RawRule>, i: int)
    requires
        0 <= i < row.len(),
        row[i] is None,
    ensures
        row_rem(row, rules) >= rule_cost(rules[i]),
    decreases row.len(),
{
    if i < row.len() - 1 {
        lemma_row_rem_all_none_pos(row.drop_last(), rules, i);
    }
}

proof fn lemma_table_rem_pos(memo: Seq<Vec<Option<RuleId>>>, gs: Seq<RawGrammar>, s: int, i: int)
    requires
        0 <= s < memo.len(),
        0 <= i < memo[s]@.len(),
        memo[s]@[i] is None,
    ensures
        table_rem(memo, gs) >= rule_cost(gs[s].rules@[i]),
    decreases memo.len(),
{
    if s < memo.len() - 1 {
        lemma_table_rem_pos(memo.drop_last(), gs, s, i);
    } else {
        lemma_row_rem_all_none_pos(memo[s]@, gs[s].rules@, i);
    }
}

impl RuleFactory {
    /// The grammars: slot 0 the one compiled, slot `k + 1` the store's
    /// grammar `k`, each with its `$self` and `$base` rules.
    pub closed spec fn spec_grammars(&self) -> Seq<RawGrammar> {
        self.grammars@
    }

    /// The registry's slots.
    pub closed spec fn spec_slots(&self) -> Seq<Option<Rule>> {
        self.registry.slots()
    }

    pub closed spec fn spec_memo(&self) -> Seq<Vec<Option<RuleId>>> {
        self.memo@
    }

    pub closed spec fn valid(&self, x: Identity) -> bool {
        &&& x.0 < self.grammars@.len()
        &&& x.1 < self.grammars@[x.0 as int].rules@.len()
    }

    /// What compiling the rules not compiled yet may take.
    pub closed spec fn rem(&self) -> nat {
        table_rem(self.memo@, self.grammars@)
    }

    /// The identities taken and those that may still be taken.
    pub open spec fn budget(&self) -> nat {
        self.spec_slots().len() + self.rem()
    }

    /// Every reserved identity holds its rule.
    pub open spec fn quiescent(&self) -> bool {
        forall|i: int| 0 <= i < self.spec_slots().len() ==> (#[trigger] self.spec_slots()[i]) is Some
    }

    pub closed spec fn wf(&self) -> bool {
        let n = self.grammars@.len();
        &&& n >= 1
        &&& self.loaded@.len() == n
        &&& self.bases@.len() == n
        &&& self.memo@.len() == n
        &&& forall|s: int| 0 <= s < n ==> (#[trigger] self.grammars@[s]).wf() && grammar_keys_ok(self.grammars@[s])
        &&& forall|s: int| 0 <= s < n ==> (#[trigger] self.memo@[s])@.len() == self.grammars@[s].rules@.len()
        &&& forall|s: int| 0 <= s < n ==> (#[trigger] self.bases@[s] matches Some(b) ==> self.valid(b))
        &&& ref_lookup(self.grammars@[0].repository@, self_key()) is Some
        &&& forall|s: int, i: int|
            0 <= s < n && 0 <= i < self.memo@[s]@.len() ==> (#[trigger] self.memo@[s]@[i] matches Some(id) ==> {
                &&& 1 <= id.0 <= self.registry.slots().len()
                &&& (self.registry.slots()[id.0 - 1] matches Some(r) ==> shaped(r, self.grammars@[s].rules@[i], id)
                    && captures_shaped(r, self.grammars@[s].rules@[i], self.grammars@[s].rules@))
            })
    }

    pub closed spec fn ctx_wf(&self, ctx: &RepositoryContext) -> bool {
        forall|k: int| 0 <= k < ctx.layers@.len() ==> {
            let l = #[trigger] ctx.layers@[k];
            &&& l.0 < self.grammars@.len()
            &&& (l.1 matches Some(i) ==> i < self.grammars@[l.0 as int].rules@.len())
        }
    }

    /// What every compiling step keeps: the grammars, the invariant, the
    /// rules already in the registry; the new ones are all filled.
    pub closed spec fn step(&self, after: &RuleFactory, allowance: nat) -> bool {
        &&& after.wf()
        &&& after.grammars@ == self.grammars@
        &&& after.rem() <= self.rem()
        &&& after.budget() <= self.budget() + allowance
        &&& after.spec_slots().len() >= self.spec_slots().len()
        &&& forall|i: int| 0 <= i < self.spec_slots().len() ==> after.spec_slots()[i] == self.spec_slots()[i]
        &&& forall|i: int| self.spec_slots().len() <= i < after.spec_slots().len() ==> (#[trigger] after.spec_slots()[i]) is Some
        &&& forall|s: int, i: int|
            0 <= s < self.memo@.len() && 0 <= i < self.memo@[s]@.len() ==> match (#[trigger] self.memo@[s]@[i]) {
                Some(v) => after.memo@[s]@[i] == Some(v),
                None => after.memo@[s]@[i] matches Some(v) ==> v.0 > self.spec_slots().len(),
            }
    }
}

/// The capture a key names (see `capture_id`).
fn parse_capture_id(key: &str) -> (r: Option<usize>)
    ensures
        r == capture_id(key@),
{
    let v = chars_of(key);
    let mut k: usize = 0;
    while k < v.len() && '0' <= v[k] && v[k] <= '9'
        invariant
            k <= v.len(),
            v@ == key@,
            lead_digits(key@, k as int) == lead_digits(key@, 0),
        decreases v.len() - k,
    {
        k += 1;
    }
    if k == 0 {
        return None;
    }
    let digits = sub_chars(v.as_slice(), 0, k);
    assert(digits@ =~= key@.take(k as int));
    parse_usize_text(string_from_chars(digits.as_slice()).as_str())
}

/// Whether a rule holds only patterns that were missing.
fn has_only_missing_patterns(rule: &Rule) -> (r: bool) {
    match rule {
        Rule::IncludeOnly(x) => x.has_missing_patterns && x.patterns.len() == 0,
        Rule::BeginEnd(x) => x.has_missing_patterns && x.patterns.len() == 0,
        Rule::BeginWhile(x) => x.has_missing_patterns && x.patterns.len() == 0,
        _ => false,
    }
}

impl RepositoryContext {
    /// The grammar's own repository.
    pub fn new(slot: usize) -> (r: RepositoryContext)
        ensures
            r.layers@ == seq![(slot, None::<usize>)],
    {
        let mut layers: Vec<Layer> = Vec::new();
        layers.push((slot, None));
        assert(layers@ =~= seq![(slot, None::<usize>)]);
        RepositoryContext { layers }
    }

    /// These repositories with a rule's repository inside them.
    pub fn with_overlay(&self, slot: usize, owner: usize) -> (r: RepositoryContext)
        ensures
            r.layers@ == self.layers@.push((slot, Some(owner))),
    {
        let mut layers: Vec<Layer> = Vec::new();
        let mut k: usize = 0;
        while k < self.layers.len()
            invariant
                k <= self.layers@.len(),
                layers@ == self.layers@.take(k as int),
            decreases self.layers.len() - k,
        {
            layers.push(self.layers[k]);
            k += 1;
            assert(layers@ =~= self.layers@.take(k as int));
        }
        assert(self.layers@.take(k as int) =~= self.layers@);
        layers.push((slot, Some(owner)));
        RepositoryContext { layers }
    }
}

impl RuleFactory {
    /// The rule that `name` names in the repositories in scope, innermost
    /// first; in an included grammar's own repository, `$base` is the rule
    /// that `$base` named where the grammar was first included.
    fn ctx_get(&self, ctx: &RepositoryContext, name: &str) -> (r: Option<Identity>)
        requires
            self.wf(),
            self.ctx_wf(ctx),
        ensures
            r matches Some(x) ==> self.valid(x),
    {
        let is_base = str_eq(name, "$base");
        let mut k: usize = ctx.layers.len();
        while k > 0
            invariant
                k <= ctx.layers@.len(),
                self.wf(),
                self.ctx_wf(ctx),
            decreases k,
        {
            k -= 1;
            let (slot, owner) = ctx.layers[k];
            assert(ctx.layers@[k as int] == (slot, owner));
            if owner.is_none() && slot > 0 && self.loaded[slot] && is_base {
                match self.bases[slot] {
                    Some(b) => {
                        assert(self.bases@[slot as int] == Some(b));
                        return Some(b);
                    },
                    None => {},
                }
            }
            let g = &self.grammars[slot];
            assert(g.wf());
            let found = match owner {
                None => {
                    proof {
                        lemma_ref_position_from(g.repository@, name@, 0);
                    }
                    find_ref(&g.repository, name)
                },
                Some(i) => {
                    assert(rule_wf(g.rules@[i as int], g.rules@.len() as int));
                    match &g.rules[i].repository {
                        Some(refs) => {
                            proof {
                                lemma_ref_position_from(refs@, name@, 0);
                            }
                            find_ref(refs, name)
                        },
                        None => None,
                    }
                },
            };
            match found {
                Some(idx) => {
                    return Some((slot, idx));
                },
                None => {},
            }
        }
        None
    }

    /// Records `id` as the compiled rule of `x`.
    fn memo_set(&mut self, x: Identity, id: RuleId)
        requires
            old(self).valid(x),
            old(self).memo@.len() == old(self).grammars@.len(),
            old(self).memo@[x.0 as int]@.len() == old(self).grammars@[x.0 as int].rules@.len(),
            old(self).memo@[x.0 as int]@[x.1 as int] is None,
        ensures
            final(self).memo@ == old(self).memo@.update(x.0 as int, final(self).memo@[x.0 as int]),
            final(self).memo@[x.0 as int]@ == old(self).memo@[x.0 as int]@.update(x.1 as int, Some(id)),
            final(self).grammars == old(self).grammars,
            final(self).loaded == old(self).loaded,
            final(self).bases == old(self).bases,
            final(self).registry == old(self).registry,
            final(self).rem() + rule_cost(old(self).grammars@[x.0 as int].rules@[x.1 as int]) == old(self).rem(),
    {
        let mut rows: Vec<Vec<Option<RuleId>>> = Vec::new();
        std::mem::swap(&mut rows, &mut self.memo);
        let ghost before = rows@;
        let mut row = rows.remove(x.0);
        row.set(x.1, Some(id));
        rows.insert(x.0, row);
        assert(rows@ =~= before.update(x.0 as int, row));
        proof {
            lemma_table_rem_update(before, self.grammars@, x.0 as int, row, x.1 as int, id);
        }
        std::mem::swap(&mut rows, &mut self.memo);
    }
}

proof fn lemma_step_refl(f: RuleFactory)
    requires
        f.wf(),
    ensures
        f.step(&f, 0),
{
}

proof fn lemma_step_trans(a: RuleFactory, b: RuleFactory, c: RuleFactory, x: nat, y: nat)
    requires
        a.wf(),
        a.step(&b, x),
        b.step(&c, y),
    ensures
        a.step(&c, x + y),
{
    assert forall|s: int, i: int| 0 <= s < a.memo@.len() && 0 <= i < a.memo@[s]@.len() implies match (#[trigger] a.memo@[s]@[i]) {
        Some(v) => c.memo@[s]@[i] == Some(v),
        None => c.memo@[s]@[i] matches Some(v) ==> v.0 > a.spec_slots().len(),
    } by {
        assert(a.grammars@ == b.grammars@);
        assert(b.memo@.len() == a.memo@.len());
        assert(a.memo@[s]@.len() == a.grammars@[s].rules@.len());
        assert(b.memo@[s]@.len() == b.grammars@[s].rules@.len());
        assert(b.memo@[s]@.len() == a.memo@[s]@.len());
        match a.memo@[s]@[i] {
            Some(v) => {
                assert(b.memo@[s]@[i] == Some(v));
            },
            None => {
                match b.memo@[s]@[i] {
                    Some(w) => {
                        assert(c.memo@[s]@[i] == Some(w));
                    },
                    None => {},
                }
            },
        }
    }
    assert forall|i: int| a.spec_slots().len() <= i < c.spec_slots().len() implies (#[trigger] c.spec_slots()[i]) is Some by {
        if i < b.spec_slots().len() {
            assert(b.spec_slots()[i] is Some);
            assert(c.spec_slots()[i] == b.spec_slots()[i]);
        }
    }
}

proof fn lemma_same_rule_costs(a: RawRule, b: RawRule)
    requires
        same_rule(a, b),
    ensures
        caps_used(a) == caps_used(b),
        rule_keys_ok(a) == rule_keys_ok(b),
{
}

proof fn lemma_refs_transfer(a: Option<Vec<RuleRef>>, b: Option<Vec<RuleRef>>, n: int)
    requires
        opt_refs_view(a) == opt_refs_view(b),
        b matches Some(v) ==> refs_in(v@, n),
    ensures
        a matches Some(w) ==> refs_in(w@, n),
{
    if let Some(w) = a {
        let v = b.unwrap();
        assert(crate::raw_grammar::refs_view(w@) == crate::raw_grammar::refs_view(v@));
        assert(crate::raw_grammar::refs_view(w@).len() == w@.len());
        assert(crate::raw_grammar::refs_view(v@).len() == v@.len());
        assert forall|i: int| 0 <= i < w@.len() implies (#[trigger] w@[i]).1 < n by {
            assert(crate::raw_grammar::refs_view(w@)[i] == crate::raw_grammar::refs_view(v@)[i]);
            assert(v@[i].1 < n);
        }
    }
}

proof fn lemma_ids_transfer(a: Option<Vec<usize>>, b: Option<Vec<usize>>, n: int)
    requires
        opt_ids_view(a) == opt_ids_view(b),
        b matches Some(v) ==> ids_in(v@, n),
    ensures
        a matches Some(w) ==> ids_in(w@, n),
{
}

proof fn lemma_init_keys_ok(g: RawGrammar, init: RawGrammar)
    requires
        grammar_keys_ok(g),
        init.rules@.len() == g.rules@.len() + 1,
        forall|i: int| 0 <= i < g.rules@.len() ==> same_rule(#[trigger] init.rules@[i], g.rules@[i]),
        self_rule_of(init.rules@[g.rules@.len() as int], g),
    ensures
        grammar_keys_ok(init),
{
    assert forall|i: int| 0 <= i < init.rules@.len() implies rule_keys_ok(#[trigger] init.rules@[i]) by {
        if i < g.rules@.len() {
            lemma_same_rule_costs(init.rules@[i], g.rules@[i]);
            assert(rule_keys_ok(g.rules@[i]));
        }
    }
}

impl RuleFactory {
    /// A factory for `grammar`, whose top-level includes the grammars of
    /// `store` supply; nothing compiled yet.
    pub fn new(grammar: &RawGrammar, store: &GrammarStore) -> (r: RuleFactory)
        requires
            grammar.wf(),
            grammar_keys_ok(*grammar),
            store.wf(),
            forall|k: int| 0 <= k < store.spec_grammars().len() ==> grammar_keys_ok(#[trigger] store.spec_grammars()[k]),
        ensures
            r.wf(),
            r.quiescent(),
            r.spec_slots().len() == 0,
            r.spec_grammars().len() == store.spec_grammars().len() + 1,
            self_rule_of(r.spec_grammars()[0].rules@[grammar.rules@.len() as int], *grammar),
            ref_lookup(r.spec_grammars()[0].repository@, self_key()) == Some(grammar.rules@.len() as usize),
    {
        let mut grammars: Vec<RawGrammar> = Vec::new();
        let root = initialize_grammar(grammar, None);
        proof {
            lemma_init_keys_ok(*grammar, root);
        }
        grammars.push(root);
        let mut k: usize = 0;
        while k < store.len()
            invariant
                k <= store.spec_grammars().len(),
                store.wf(),
                forall|j: int| 0 <= j < store.spec_grammars().len() ==> grammar_keys_ok(#[trigger] store.spec_grammars()[j]),
                grammars@.len() == k + 1,
                grammars@[0] == root,
                forall|s: int| 0 <= s < grammars@.len() ==> (#[trigger] grammars@[s]).wf() && grammar_keys_ok(grammars@[s]),
            decreases store.spec_grammars().len() - k,
        {
            let g = store.grammar_at(k);
            assert(g.wf());
            assert(grammar_keys_ok(*g));
            let init = initialize_grammar(g, None);
            proof {
                lemma_init_keys_ok(*g, init);
            }
            grammars.push(init);
            k += 1;
        }
        let mut loaded: Vec<bool> = Vec::new();
        let mut bases: Vec<Option<Identity>> = Vec::new();
        let mut memo: Vec<Vec<Option<RuleId>>> = Vec::new();
        let mut s: usize = 0;
        while s < grammars.len()
            invariant
                s <= grammars@.len(),
                loaded@.len() == s,
                bases@.len() == s,
                memo@.len() == s,
                forall|t: int| 0 <= t < s ==> (#[trigger] bases@[t]) is None,
                forall|t: int| 0 <= t < s ==> (#[trigger] memo@[t])@.len() == grammars@[t].rules@.len(),
                forall|t: int, i: int| 0 <= t < s && 0 <= i < memo@[t]@.len() ==> (#[trigger] memo@[t]@[i]) is None,
            decreases grammars@.len() - s,
        {
            let mut row: Vec<Option<RuleId>> = Vec::new();
            let n = grammars[s].rules.len();
            let mut i: usize = 0;
            while i < n
                invariant
                    i <= n,
                    row@.len() == i,
                    forall|j: int| 0 <= j < i ==> (#[trigger] row@[j]) is None,
                decreases n - i,
            {
                row.push(None);
                i += 1;
            }
            loaded.push(false);
            bases.push(None);
            memo.push(row);
            s += 1;
        }
        RuleFactory { grammars, loaded, bases, memo, registry: RuleRegistry::new() }
    }

    /// The grammar compiled, with its `$self` and `$base` rules.
    pub fn root_grammar(&self) -> (r: &RawGrammar)
        requires
            self.wf(),
        ensures
            *r == self.spec_grammars()[0],
    {
        &self.grammars[0]
    }

    /// The rules compiled so far.
    pub fn registry(&self) -> (r: &RuleRegistry)
        ensures
            r.slots() == self.spec_slots(),
    {
        &self.registry
    }

    /// The grammar compiled and the rules.
    pub fn into_parts(self) -> (r: (RawGrammar, RuleRegistry))
        requires
            self.wf(),
        ensures
            r.0 == self.spec_grammars()[0],
            r.1.slots() == self.spec_slots(),
    {
        let RuleFactory { grammars, loaded, bases, memo, registry } = self;
        let mut grammars = grammars;
        let root = grammars.swap_remove(0);
        (root, registry)
    }

    /// Compiles the grammar's `$self` rule: its identity, with the rule of
    /// the grammar itself (named by its scope name, holding its patterns)
    /// under it.
    pub fn compile_root(&mut self) -> (r: RuleId)
        requires
            old(self).wf(),
            old(self).quiescent(),
            old(self).budget() <= u32::MAX,
        ensures
            final(self).wf(),
            final(self).quiescent(),
            final(self).spec_grammars() == old(self).spec_grammars(),
            1 <= r.0 <= final(self).spec_slots().len(),
            match ref_lookup(final(self).spec_grammars()[0].repository@, self_key()) {
                Some(i) => {
                    &&& final(self).spec_slots()[r.0 - 1] matches Some(rule) && shaped(
                        rule,
                        final(self).spec_grammars()[0].rules@[i as int],
                        r,
                    )
                    &&& final(self).spec_memo()[0]@[i as int] == Some(r)
                    &&& (old(self).spec_memo()[0]@[i as int] matches Some(v) ==> r == v && *final(self) == *old(self))
                },
                None => false,
            },
        decreases old(self).rem(), 5nat,
    {
        let ctx = RepositoryContext::new(0);
        proof {
            reveal_strlit("$self");
            assert("$self"@ =~= self_key());
            lemma_ref_position_from(self.grammars@[0].repository@, self_key(), 0);
            assert(self.grammars@[0].wf());
        }
        let i = match find_ref(&self.grammars[0].repository, "$self") {
            Some(i) => i,
            None => unreached(),
        };
        let r = self.get_compiled((0, i), &ctx);
        proof {
            assert(self.memo@[0]@[i as int] == Some(r));
        }
        r
    }

    fn create_capture_rule(
        &mut self,
        location: Option<crate::raw_grammar::Location>,
        name: Option<String>,
        content_name: Option<String>,
        retokenize: Option<RuleId>,
    ) -> (r: Arc<CaptureRule>)
        requires
            old(self).wf(),
            old(self).budget() + 1 <= u32::MAX,
        ensures
            old(self).step(final(self), 1),
            r.data.name == name,
    {
        let id = self.registry.reserve_rule();
        let capture = Arc::new(CaptureRule::new(location, id, name, content_name, retokenize));
        self.registry.set_rule(id, Rule::Capture(capture.clone()));
        capture
    }

    /// The compiled rule of `x`: the one recorded, or one compiled now
    /// under a newly reserved identity.
    fn get_compiled(&mut self, x: Identity, ctx: &RepositoryContext) -> (r: RuleId)
        requires
            old(self).wf(),
            old(self).ctx_wf(ctx),
            old(self).valid(x),
            old(self).budget() <= u32::MAX,
        ensures
            old(self).step(final(self), 0),
            final(self).spec_memo()[x.0 as int]@[x.1 as int] == Some(r),
            1 <= r.0 <= final(self).spec_slots().len(),
            old(self).spec_memo()[x.0 as int]@[x.1 as int] matches Some(v) ==> r == v && *final(self) == *old(self),
        decreases old(self).rem(), 0nat,
    {
        match self.memo[x.0][x.1] {
            Some(id) => {
                proof {
                    lemma_step_refl(*self);
                }
                return id;
            },
            None => {},
        }
        proof {
            lemma_table_rem_pos(self.memo@, self.grammars@, x.0 as int, x.1 as int);
        }
        let ghost start = *self;
        let id = self.registry.reserve_rule();
        self.memo_set(x, id);
        let desc = copy_rule(&self.grammars[x.0].rules[x.1]);
        proof {
            lemma_same_rule_costs(desc, self.grammars@[x.0 as int].rules@[x.1 as int]);
            assert(self.wf());
        }
        let ghost mid = *self;
        assert(mid.memo@[x.0 as int]@[x.1 as int] == Some(id));
        let rule = self.compile_rule(id, &desc, x, ctx);
        let ghost after = *self;
        self.registry.set_rule(id, rule);
        proof {
            let n = self.grammars@.len() as int;
            assert(after.memo@[x.0 as int]@[x.1 as int] == Some(id));
            assert forall|s: int, i: int| 0 <= s < n && 0 <= i < self.memo@[s]@.len() implies (#[trigger] self.memo@[s]@[i] matches Some(v) ==> {
                &&& 1 <= v.0 <= self.registry.slots().len()
                &&& (self.registry.slots()[v.0 - 1] matches Some(r) ==> shaped(r, self.grammars@[s].rules@[i], v) && captures_shaped(r, self.grammars@[s].rules@[i], self.grammars@[s].rules@))
            }) by {
                match self.memo@[s]@[i] {
                    Some(v) => {
                        if s == x.0 && i == x.1 {
                        } else {
                            assert(mid.memo@[s]@[i] == start.memo@[s]@[i]);
                            match start.memo@[s]@[i] {
                                Some(w) => {
                                    assert(w.0 <= start.spec_slots().len());
                                    assert(v == w);
                                },
                                None => {
                                    assert(v.0 > mid.spec_slots().len());
                                },
                            }
                            assert(v != id);
                            assert(self.registry.slots()[v.0 - 1] == after.registry.slots()[v.0 - 1]);
                        }
                    },
                    None => {},
                }
            }
            assert(self.wf());
            assert forall|s: int, i: int| 0 <= s < start.memo@.len() && 0 <= i < start.memo@[s]@.len() implies match (#[trigger] start.memo@[s]@[i]) {
                Some(v) => self.memo@[s]@[i] == Some(v),
                None => self.memo@[s]@[i] matches Some(v) ==> v.0 > start.spec_slots().len(),
            } by {
                if s == x.0 && i == x.1 {
                } else {
                    assert(mid.memo@[s]@[i] == start.memo@[s]@[i]);
                    match mid.memo@[s]@[i] {
                        Some(v) => {},
                        None => {
                            match after.memo@[s]@[i] {
                                Some(w) => {
                                    assert(w.0 > mid.spec_slots().len());
                                },
                                None => {},
                            }
                        },
                    }
                }
            }
            assert forall|i: int| 0 <= i < start.spec_slots().len() implies self.spec_slots()[i] == start.spec_slots()[i] by {
                assert(mid.spec_slots()[i] == start.spec_slots()[i]);
                assert(after.spec_slots()[i] == mid.spec_slots()[i]);
            }
            assert forall|i: int| start.spec_slots().len() <= i < self.spec_slots().len() implies (#[trigger] self.spec_slots()[i]) is Some by {
                if i > start.spec_slots().len() {
                    assert(after.spec_slots()[i] is Some);
                }
            }
        }
        id
    }
}

impl RuleFactory {
    /// The rule that description `desc` (the rule `x`) compiles to under
    /// `id`: a match rule where it has a match pattern; else, where it has
    /// no begin pattern, a rule that only holds its patterns (or the rule
    /// its include names), its own repository in scope; else a begin/while
    /// rule where it has a while pattern, a begin/end rule where not.
    /// Captures that a begin, while or end pattern does not list itself
    /// are the rule's captures.
    fn compile_rule(&mut self, id: RuleId, desc: &RawRule, x: Identity, ctx: &RepositoryContext) -> (r: Rule)
        requires
            old(self).wf(),
            old(self).ctx_wf(ctx),
            old(self).valid(x),
            same_rule(*desc, old(self).spec_grammars()[x.0 as int].rules@[x.1 as int]),
            old(self).budget() + caps_used(*desc) <= u32::MAX,
        ensures
            old(self).step(final(self), caps_used(*desc)),
            shaped(r, *desc, id),
            captures_shaped(r, *desc, old(self).spec_grammars()[x.0 as int].rules@),
        decreases old(self).rem(), 4nat,
    {
        let ghost g = self.grammars@[x.0 as int];
        proof {
            assert(g.wf());
            assert(rule_wf(g.rules@[x.1 as int], g.rules@.len() as int));
            assert(grammar_keys_ok(g));
            assert(rule_keys_ok(g.rules@[x.1 as int]));
            lemma_same_rule_costs(*desc, g.rules@[x.1 as int]);
            let n = g.rules@.len() as int;
            let o = g.rules@[x.1 as int];
            lemma_refs_transfer(desc.captures, o.captures, n);
            lemma_refs_transfer(desc.begin_captures, o.begin_captures, n);
            lemma_refs_transfer(desc.end_captures, o.end_captures, n);
            lemma_refs_transfer(desc.while_captures, o.while_captures, n);
            lemma_ids_transfer(desc.patterns, o.patterns, n);
        }
        let location = copy_location(&desc.location);
        let name = copy_opt_string(&desc.name);
        match &desc.match_pattern {
            Some(m) => {
                let captures = self.compile_captures(&desc.captures, x.0, ctx);
                return Rule::Match(MatchRule::new(location, id, name, m.as_str(), captures));
            },
            None => {},
        }
        let content_name = copy_opt_string(&desc.content_name);
        let begin = match &desc.begin {
            Some(b) => b,
            None => {
                let inner = ctx.with_overlay(x.0, x.1);
                let scoped = if desc.repository.is_some() {
                    &inner
                } else {
                    ctx
                };
                let patterns = match &desc.patterns {
                    Some(p) => self.compile_patterns(p, x.0, scoped),
                    None => match &desc.include_target {
                        Some(target) => self.compile_shorthand(target.as_str(), scoped),
                        None => {
                            proof {
                                lemma_step_refl(*self);
                            }
                            CompilePatternsResult { patterns: Vec::new(), has_missing_patterns: false }
                        },
                    },
                };
                return Rule::IncludeOnly(IncludeOnlyRule::new(location, id, name, content_name, patterns));
            },
        };
        let ghost s0 = *self;
        let begin_list = if desc.begin_captures.is_some() {
            &desc.begin_captures
        } else {
            &desc.captures
        };
        let begin_captures = self.compile_captures(begin_list, x.0, ctx);
        let ghost s1 = *self;
        match &desc.while_pattern {
            Some(w) => {
                let while_list = if desc.while_captures.is_some() {
                    &desc.while_captures
                } else {
                    &desc.captures
                };
                let while_captures = self.compile_captures(while_list, x.0, ctx);
                let ghost s2 = *self;
                let patterns = self.compile_opt_patterns(&desc.patterns, x.0, ctx);
                proof {
                    lemma_step_trans(s0, s1, s2, either_len(desc.begin_captures, desc.captures), either_len(desc.while_captures, desc.captures));
                    lemma_step_trans(s0, s2, *self, caps_used(*desc), 0);
                }
                Rule::BeginWhile(
                    BeginWhileRule::new(
                        BeginWhileRuleOptions {
                            location,
                            id,
                            name,
                            content_name,
                            begin: crate::text::copy_string(begin),
                            begin_captures,
                            while_pattern: crate::text::copy_string(w),
                            while_captures,
                            patterns,
                        },
                    ),
                )
            },
            None => {
                let end_list = if desc.end_captures.is_some() {
                    &desc.end_captures
                } else {
                    &desc.captures
                };
                let end_captures = self.compile_captures(end_list, x.0, ctx);
                let ghost s2 = *self;
                let patterns = self.compile_opt_patterns(&desc.patterns, x.0, ctx);
                proof {
                    lemma_step_trans(s0, s1, s2, either_len(desc.begin_captures, desc.captures), either_len(desc.end_captures, desc.captures));
                    lemma_step_trans(s0, s2, *self, caps_used(*desc), 0);
                }
                Rule::BeginEnd(
                    BeginEndRule::new(
                        BeginEndRuleOptions {
                            location,
                            id,
                            name,
                            content_name,
                            begin: crate::text::copy_string(begin),
                            begin_captures,
                            end: copy_opt_string(&desc.end),
                            end_captures,
                            apply_end_pattern_last: desc.apply_end_pattern_last,
                            patterns,
                        },
                    ),
                )
            },
        }
    }

    /// The capture rules of a capture list, by index (none for an index
    /// not listed); a capture with patterns tokenizes its text again with
    /// its own compiled rule.
    fn compile_captures(&mut self, captures: &Option<Vec<RuleRef>>, slot: usize, ctx: &RepositoryContext) -> (r: Vec<
        Option<Arc<CaptureRule>>,
    >)
        requires
            old(self).wf(),
            old(self).ctx_wf(ctx),
            slot < old(self).spec_grammars().len(),
            captures matches Some(v) ==> refs_in(v@, old(self).spec_grammars()[slot as int].rules@.len() as int),
            keys_ok(*captures),
            old(self).budget() + opt_len(*captures) <= u32::MAX,
        ensures
            old(self).step(final(self), opt_len(*captures)),
            compiled_names(r@) == capture_table(opt_refs_view(*captures), old(self).spec_grammars()[slot as int].rules@),
        decreases old(self).rem(), 2nat,
    {
        let list = match captures {
            Some(l) => l,
            None => {
                proof {
                    lemma_step_refl(*self);
                    assert(compiled_names(Seq::<Option<Arc<CaptureRule>>>::empty()) =~= Seq::<Option<Option<String>>>::empty());
                }
                return Vec::new();
            },
        };
        let ghost v = crate::raw_grammar::refs_view(list@);
        let ghost rules = self.grammars@[slot as int].rules@;
        assert(opt_refs_view(*captures) == Some(v));
        let mut max: usize = 0;
        let mut j: usize = 0;
        while j < list.len()
            invariant
                j <= list@.len(),
                v == crate::raw_grammar::refs_view(list@),
                v.len() == list@.len(),
                keys_ok(*captures),
                opt_refs_view(*captures) == Some(v),
                max as nat == max_capture(v, j as int),
            decreases list.len() - j,
        {
            assert(v[j as int].0 == list@[j as int].0@);
            match parse_capture_id(list[j].0.as_str()) {
                Some(c) => {
                    if c > max {
                        max = c;
                    }
                },
                None => {},
            }
            j += 1;
        }
        proof {
            if max as nat == usize::MAX {
                lemma_max_capture_named(v, v.len() as int);
            }
        }
        let mut compiled: Vec<Option<Arc<CaptureRule>>> = Vec::new();
        let mut t: usize = 0;
        while t <= max
            invariant
                t <= max + 1,
                max < usize::MAX,
                compiled@.len() == t,
                forall|k: int| 0 <= k < t ==> (#[trigger] compiled@[k]) is None,
            decreases max + 1 - t,
        {
            compiled.push(None);
            t += 1;
        }
        let ghost start = *self;
        proof {
            lemma_step_refl(*self);
        }
        let mut j: usize = 0;
        while j < list.len()
            invariant
                j <= list@.len(),
                start.wf(),
                start.ctx_wf(ctx),
                start.step(self, j as nat),
                start == *old(self),
                start.budget() + list@.len() <= u32::MAX,
                slot < start.spec_grammars().len(),
                rules == start.spec_grammars()[slot as int].rules@,
                refs_in(list@, start.spec_grammars()[slot as int].rules@.len() as int),
                compiled@.len() == max + 1,
                max < usize::MAX,
                max as nat == max_capture(v, v.len() as int),
                v == crate::raw_grammar::refs_view(list@),
                v.len() == list@.len(),
                keys_ok(*captures),
                *captures == Some(*list),
                opt_len(*captures) == list@.len(),
                forall|k: int| 0 <= k <= max ==> compiled_names(compiled@)[k] == match last_entry(v, k as nat, j as int) {
                    Some(i) => Some(rules[v[i].1 as int].name),
                    None => None::<Option<String>>,
                },
            decreases list.len() - j,
        {
            assert(v[j as int].0 == list@[j as int].0@);
            assert(v[j as int].1 == list@[j as int].1);
            match parse_capture_id(list[j].0.as_str()) {
                None => {
                    proof {
                        lemma_step_trans(start, *self, *self, j as nat, 1);
                        assert forall|k: int| 0 <= k <= max implies compiled_names(compiled@)[k] == match #[trigger] last_entry(v, k as nat, j + 1) {
                            Some(i) => Some(rules[v[i].1 as int].name),
                            None => None::<Option<String>>,
                        } by {
                            assert(last_entry(v, k as nat, j + 1) == last_entry(v, k as nat, j as int));
                        }
                    }
                },
                Some(c) => {
                    proof {
                        lemma_max_capture_bound(v, v.len() as int, j as int);
                    }
                    let idx = list[j].1;
                    assert(idx < self.grammars@[slot as int].rules@.len());
                    let has_patterns = self.grammars[slot].rules[idx].patterns.is_some();
                    let location = copy_location(&self.grammars[slot].rules[idx].location);
                    let name = copy_opt_string(&self.grammars[slot].rules[idx].name);
                    let content_name = copy_opt_string(&self.grammars[slot].rules[idx].content_name);
                    let ghost s1 = *self;
                    let retokenize = if has_patterns {
                        Some(self.get_compiled((slot, idx), ctx))
                    } else {
                        proof {
                            lemma_step_refl(*self);
                        }
                        None
                    };
                    let ghost s2 = *self;
                    let capture = self.create_capture_rule(location, name, content_name, retokenize);
                    proof {
                        lemma_step_trans(start, s1, s2, j as nat, 0);
                        lemma_step_trans(start, s2, *self, j as nat, 1);
                    }
                    let ghost before = compiled@;
                    compiled.set(c, Some(capture));
                    proof {
                        assert forall|k: int| 0 <= k <= max implies compiled_names(compiled@)[k] == match last_entry(v, k as nat, j + 1) {
                            Some(i) => Some(rules[v[i].1 as int].name),
                            None => None::<Option<String>>,
                        } by {
                            assert(compiled_names(before)[k] == match last_entry(v, k as nat, j as int) {
                                Some(i) => Some(rules[v[i].1 as int].name),
                                None => None::<Option<String>>,
                            });
                            if k != c {
                                assert(compiled@[k] == before[k]);
                            } else {
                                assert(last_entry(v, k as nat, j + 1) == Some(j as int));
                                assert(compiled@[k] == Some(capture));
                            }
                        }
                    }
                },
            }
            j += 1;
        }
        proof {
            assert(compiled_names(compiled@) =~= capture_table(Some(v), rules));
        }
        compiled
    }
}

impl RuleFactory {
    /// Keeps `r` unless its rule holds only patterns that were missing.
    fn keep_compiled(&self, r: RuleId, compiled: &mut Vec<RuleId>)
        ensures
            final(compiled)@.len() <= old(compiled)@.len() + 1,
            final(compiled)@.len() >= old(compiled)@.len(),
    {
        let skip = match self.registry.try_get_rule(r) {
            Some(rule) => has_only_missing_patterns(rule),
            None => false,
        };
        if !skip {
            compiled.push(r);
        }
    }

    /// The rules of a list of patterns, in order: an include compiles to
    /// the rule it names (none where it names none), another pattern to its
    /// own rule; a rule that holds only missing patterns is left out.
    fn compile_patterns(&mut self, items: &Vec<usize>, slot: usize, ctx: &RepositoryContext) -> (r: CompilePatternsResult)
        requires
            old(self).wf(),
            old(self).ctx_wf(ctx),
            slot < old(self).spec_grammars().len(),
            ids_in(items@, old(self).spec_grammars()[slot as int].rules@.len() as int),
            old(self).budget() <= u32::MAX,
        ensures
            old(self).step(final(self), 0),
            r.patterns@.len() <= items@.len(),
            r.has_missing_patterns == (items@.len() != r.patterns@.len()),
        decreases old(self).rem(), 2nat,
    {
        let ghost start = *self;
        proof {
            lemma_step_refl(*self);
        }
        let mut compiled: Vec<RuleId> = Vec::new();
        let mut k: usize = 0;
        while k < items.len()
            invariant
                k <= items@.len(),
                start.wf(),
                start.ctx_wf(ctx),
                start.step(self, 0),
                start == *old(self),
                start.budget() <= u32::MAX,
                slot < start.spec_grammars().len(),
                ids_in(items@, start.spec_grammars()[slot as int].rules@.len() as int),
                compiled@.len() <= k,
            decreases items.len() - k,
        {
            let item = items[k];
            assert(item < self.grammars@[slot as int].rules@.len());
            let target = copy_opt_string(&self.grammars[slot].rules[item].include_target);
            let ghost s1 = *self;
            let rid = match &target {
                Some(t) => self.compile_include(t.as_str(), ctx),
                None => Some(self.get_compiled((slot, item), ctx)),
            };
            proof {
                lemma_step_trans(start, s1, *self, 0, 0);
            }
            match rid {
                Some(r) => self.keep_compiled(r, &mut compiled),
                None => {},
            }
            k += 1;
        }
        let has_missing_patterns = items.len() != compiled.len();
        CompilePatternsResult { patterns: compiled, has_missing_patterns }
    }

    /// The patterns of a list that may be absent (none compiled, none
    /// missing).
    fn compile_opt_patterns(&mut self, items: &Option<Vec<usize>>, slot: usize, ctx: &RepositoryContext) -> (r: CompilePatternsResult)
        requires
            old(self).wf(),
            old(self).ctx_wf(ctx),
            slot < old(self).spec_grammars().len(),
            items matches Some(v) ==> ids_in(v@, old(self).spec_grammars()[slot as int].rules@.len() as int),
            old(self).budget() <= u32::MAX,
        ensures
            old(self).step(final(self), 0),
        decreases old(self).rem(), 3nat,
    {
        match items {
            Some(p) => self.compile_patterns(p, slot, ctx),
            None => {
                proof {
                    lemma_step_refl(*self);
                }
                CompilePatternsResult { patterns: Vec::new(), has_missing_patterns: false }
            },
        }
    }

    /// The patterns of a rule that has none but an include: the one rule
    /// that the include names.
    fn compile_shorthand(&mut self, target: &str, ctx: &RepositoryContext) -> (r: CompilePatternsResult)
        requires
            old(self).wf(),
            old(self).ctx_wf(ctx),
            old(self).budget() <= u32::MAX,
        ensures
            old(self).step(final(self), 0),
            r.patterns@.len() <= 1,
            r.has_missing_patterns == (r.patterns@.len() != 1),
        decreases old(self).rem(), 2nat,
    {
        let mut compiled: Vec<RuleId> = Vec::new();
        match self.compile_include(target, ctx) {
            Some(r) => self.keep_compiled(r, &mut compiled),
            None => {},
        }
        let has_missing_patterns = compiled.len() != 1;
        CompilePatternsResult { patterns: compiled, has_missing_patterns }
    }

    /// The rule an include names, compiled: `$base` and `$self` and `#name`
    /// in the repositories in scope; `scope` and `scope#name` in the
    /// included grammar's own repository (its `$self` for `scope`).
    fn compile_include(&mut self, target: &str, ctx: &RepositoryContext) -> (r: Option<RuleId>)
        requires
            old(self).wf(),
            old(self).ctx_wf(ctx),
            old(self).budget() <= u32::MAX,
        ensures
            old(self).step(final(self), 0),
        decreases old(self).rem(), 1nat,
    {
        let found = match parse_include(target) {
            IncludeReference::Base => self.ctx_get(ctx, target),
            IncludeReference::SelfReference => self.ctx_get(ctx, target),
            IncludeReference::RelativeReference { rule_name } => self.ctx_get(ctx, rule_name),
            IncludeReference::TopLevelReference { scope_name } => {
                let ghost s0 = *self;
                let slot = match self.get_external_grammar(scope_name, ctx) {
                    Some(k) => k,
                    None => {
                        return None;
                    },
                };
                let own = RepositoryContext::new(slot);
                return match self.ctx_get(&own, "$self") {
                    Some(x) => {
                        let ghost s1 = *self;
                        let r = self.get_compiled(x, &own);
                        proof {
                            lemma_step_trans(s0, s1, *self, 0, 0);
                        }
                        Some(r)
                    },
                    None => None,
                };
            },
            IncludeReference::TopLevelRepositoryReference { scope_name, rule_name } => {
                let ghost s0 = *self;
                let slot = match self.get_external_grammar(scope_name, ctx) {
                    Some(k) => k,
                    None => {
                        return None;
                    },
                };
                let own = RepositoryContext::new(slot);
                return match self.ctx_get(&own, rule_name) {
                    Some(x) => {
                        let ghost s1 = *self;
                        let r = self.get_compiled(x, &own);
                        proof {
                            lemma_step_trans(s0, s1, *self, 0, 0);
                        }
                        Some(r)
                    },
                    None => None,
                };
            },
        };
        match found {
            Some(x) => Some(self.get_compiled(x, ctx)),
            None => {
                proof {
                    lemma_step_refl(*self);
                }
                None
            },
        }
    }

    /// The slot of the store's grammar for `scope`; where it is included
    /// for the first time, its `$base` becomes what `$base` names in the
    /// repositories in scope.
    fn get_external_grammar(&mut self, scope: &str, ctx: &RepositoryContext) -> (r: Option<usize>)
        requires
            old(self).wf(),
            old(self).ctx_wf(ctx),
        ensures
            old(self).step(final(self), 0),
            r matches Some(k) ==> 1 <= k < final(self).spec_grammars().len(),
    {
        let mut k: usize = 1;
        while k < self.grammars.len()
            invariant
                1 <= k <= self.grammars@.len(),
                self.wf(),
                self.ctx_wf(ctx),
                *self == *old(self),
            decreases self.grammars@.len() - k,
        {
            if str_eq(self.grammars[k].scope_name.as_str(), scope) {
                if !self.loaded[k] {
                    let base = self.ctx_get(ctx, "$base");
                    self.loaded.set(k, true);
                    self.bases.set(k, base);
                }
                proof {
                    lemma_step_refl(*old(self));
                }
                return Some(k);
            }
            k += 1;
        }
        proof {
            lemma_step_refl(*self);
        }
        None
    }
}

/// Between compilations, every raw rule that has been compiled has its
/// rule in the registry under the identity recorded for it, in the shape
/// of its description.
pub proof fn lemma_compiled_rules_have_their_shape(f: RuleFactory, s: int, i: int)
    requires
        f.wf(),
        f.quiescent(),
        0 <= s < f.spec_memo().len(),
        0 <= i < f.spec_memo()[s]@.len(),
        f.spec_memo()[s]@[i] is Some,
    ensures
        ({
            let id = f.spec_memo()[s]@[i]->Some_0;
            &&& 1 <= id.0 <= f.spec_slots().len()
            &&& f.spec_slots()[id.0 - 1] matches Some(r) && shaped(r, f.spec_grammars()[s].rules@[i], id)
        }),
{
    let id = f.spec_memo()[s]@[i]->Some_0;
    assert(f.memo@[s]@[i] == Some(id));
    assert(f.spec_slots()[id.0 - 1] is Some);
}

/// Between compilations, a compiled begin/end or begin/while rule takes
/// the captures of its description for a begin, end or while pattern that
/// lists none of its own: the same indices with the same scope names.  So
/// where neither the begin nor the end pattern lists captures, both are
/// scoped alike.
pub proof fn lemma_pattern_captures_fall_back(f: RuleFactory, s: int, i: int)
    requires
        f.wf(),
        f.quiescent(),
        0 <= s < f.spec_memo().len(),
        0 <= i < f.spec_memo()[s]@.len(),
        f.spec_memo()[s]@[i] is Some,
        f.spec_grammars()[s].rules@[i].match_pattern is None,
        f.spec_grammars()[s].rules@[i].begin is Some,
    ensures
        ({
            let d = f.spec_grammars()[s].rules@[i];
            let rules = f.spec_grammars()[s].rules@;
            let own = capture_table(opt_refs_view(d.captures), rules);
            let id = f.spec_memo()[s]@[i]->Some_0;
            match f.spec_slots()[id.0 - 1] {
                Some(Rule::BeginEnd(x)) => {
                    &&& d.while_pattern is None
                    &&& (d.begin_captures is None ==> compiled_names(x.begin_captures@) == own)
                    &&& (d.end_captures is None ==> compiled_names(x.end_captures@) == own)
                    &&& (d.begin_captures is None && d.end_captures is None ==> compiled_names(x.begin_captures@)
                        == compiled_names(x.end_captures@))
                },
                Some(Rule::BeginWhile(x)) => {
                    &&& d.while_pattern is Some
                    &&& (d.begin_captures is None ==> compiled_names(x.begin_captures@) == own)
                    &&& (d.while_captures is None ==> compiled_names(x.while_captures@) == own)
                },
                _ => false,
            }
        }),
{
    let id = f.spec_memo()[s]@[i]->Some_0;
    assert(f.memo@[s]@[i] == Some(id));
    assert(f.spec_slots()[id.0 - 1] is Some);
}

} // verus!
