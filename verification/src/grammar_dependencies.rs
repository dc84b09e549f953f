use vstd::prelude::*;

use crate::include_reference::{classify_include, parse_include, IncludeKind, IncludeReference};
use crate::raw_grammar::{find_ref, ref_position, GrammarStore, RawGrammar, RawRule};
use crate::text::{chars_of, copy_string, push_str_chars, str_eq, string_from_chars};

verus! {

broadcast use vstd::string::group_string_axioms;

/// A rule of some grammar, named from outside that grammar: the whole
/// grammar, or one rule of its repository.
#[derive(Clone, Debug, PartialEq, Eq)]
pub enum AbsoluteRuleReference {
    TopLevel { scope_name: String },
    Repository { scope_name: String, rule_name: String },
}

/// The scope name of a reference.
pub open spec fn reference_scope(r: AbsoluteRuleReference) -> Seq<char> {
    match r {
        AbsoluteRuleReference::TopLevel { scope_name } => scope_name@,
        AbsoluteRuleReference::Repository { scope_name, .. } => scope_name@,
    }
}

/// The key of a reference: the scope name, followed by `#` and the rule
/// name for a repository rule.
pub open spec fn reference_key(r: AbsoluteRuleReference) -> Seq<char> {
    match r {
        AbsoluteRuleReference::TopLevel { scope_name } => scope_name@,
        AbsoluteRuleReference::Repository { scope_name, rule_name } => scope_name@ + seq!['#']
            + rule_name@,
    }
}

fn owned(s: &str) -> (r: String)
    ensures
        r@ == s@,
{
    string_from_chars(chars_of(s).as_slice())
}

impl AbsoluteRuleReference {
    /// The whole grammar of `scope_name`.
    pub fn top_level(scope_name: &str) -> (r: AbsoluteRuleReference)
        ensures
            r matches AbsoluteRuleReference::TopLevel { scope_name: s } && s@ == scope_name@,
    {
        AbsoluteRuleReference::TopLevel { scope_name: owned(scope_name) }
    }

    /// The rule `rule_name` of the repository of the grammar of
    /// `scope_name`.
    pub fn repository(scope_name: &str, rule_name: &str) -> (r: AbsoluteRuleReference)
        ensures
            r matches AbsoluteRuleReference::Repository { scope_name: s, rule_name: n } && s@
                == scope_name@ && n@ == rule_name@,
    {
        AbsoluteRuleReference::Repository { scope_name: owned(scope_name), rule_name: owned(rule_name) }
    }

    /// The scope name of the grammar referred to.
    pub fn scope_name(&self) -> (r: &str)
        ensures
            r@ == reference_scope(*self),
    {
        match self {
            AbsoluteRuleReference::TopLevel { scope_name } => scope_name.as_str(),
            AbsoluteRuleReference::Repository { scope_name, .. } => scope_name.as_str(),
        }
    }

    /// The key of the reference (see `reference_key`).
    pub fn key(&self) -> (r: String)
        ensures
            r@ == reference_key(*self),
    {
        match self {
            AbsoluteRuleReference::TopLevel { scope_name } => copy_string(scope_name),
            AbsoluteRuleReference::Repository { scope_name, rule_name } => {
                let mut v = chars_of(scope_name.as_str());
                v.push('#');
                push_str_chars(&mut v, rule_name.as_str());
                string_from_chars(v.as_slice())
            },
        }
    }
}

/// A grammar that a dependency needs and that no one provided.
#[derive(Clone, Debug, PartialEq, Eq)]
pub struct GrammarDependencyError {
    scope_name: String,
}

impl GrammarDependencyError {
    pub closed spec fn spec_scope_name(&self) -> Seq<char> {
        self.scope_name@
    }

    fn missing(scope_name: &str) -> (r: GrammarDependencyError)
        ensures
            r.spec_scope_name() == scope_name@,
    {
        GrammarDependencyError { scope_name: owned(scope_name) }
    }

    /// The scope name of the missing grammar.
    pub fn scope_name(&self) -> (r: &str)
        ensures
            r@ == self.spec_scope_name(),
    {
        self.scope_name.as_str()
    }

    /// The message: `no grammar provided for <scope>`.
    pub fn to_string(&self) -> (r: String)
        ensures
            r@ == "no grammar provided for <"@ + self.spec_scope_name() + ">"@,
    {
        let mut v = chars_of("no grammar provided for <");
        push_str_chars(&mut v, self.scope_name.as_str());
        push_str_chars(&mut v, ">");
        string_from_chars(v.as_slice())
    }
}

// ---------------------------------------------------------------------------
// Which references an include names
// ---------------------------------------------------------------------------

/// The rule at position `r` of the grammar at position `g`.
pub open spec fn rule_at(gs: Seq<RawGrammar>, g: int, r: int) -> RawRule {
    gs[g].rules@[r]
}

/// Whether `(g, r)` is the position of a rule.
pub open spec fn is_rule(gs: Seq<RawGrammar>, g: int, r: int) -> bool {
    0 <= g < gs.len() && 0 <= r < gs[g].rules.len()
}

/// Whether the include of rule `(g, r)` names `reference` in another
/// grammar: `scope` for a whole grammar, `scope#rule` for a repository rule.
pub open spec fn include_names(gs: Seq<RawGrammar>, g: int, r: int, reference: AbsoluteRuleReference) -> bool {
    &&& is_rule(gs, g, r)
    &&& rule_at(gs, g, r).include_target matches Some(inc) && match classify_include(inc@) {
        IncludeKind::TopLevelReference { scope_name } => reference matches AbsoluteRuleReference::TopLevel {
            scope_name: s,
        } && s@ == scope_name,
        IncludeKind::TopLevelRepositoryReference { scope_name, rule_name } => reference matches AbsoluteRuleReference::Repository {
            scope_name: s,
            rule_name: n,
        } && s@ == scope_name && n@ == rule_name,
        _ => false,
    }
}

/// Whether a dependency of a grammar in the store is justified: an include
/// of some rule names it, or it is a whole grammar that the store injects
/// into some scope.
pub open spec fn justified(store: GrammarStore, reference: AbsoluteRuleReference) -> bool {
    ||| exists|g: int, r: int| include_names(store.spec_grammars(), g, r, reference)
    ||| exists|s: Seq<char>, i: int|
        reference matches AbsoluteRuleReference::TopLevel { scope_name: n } && 0 <= i < store.spec_injections_for(s).len()
            && (#[trigger] store.spec_injections_for(s)[i])@ == n@
}

/// Whether no two references share a key.
pub open spec fn distinct_keys(refs: Seq<AbsoluteRuleReference>) -> bool {
    forall|i: int, j: int|
        0 <= i < j < refs.len() ==> reference_key(#[trigger] refs[i]) != reference_key(#[trigger] refs[j])
}

// ---------------------------------------------------------------------------
// The walk over the rules
// ---------------------------------------------------------------------------

/// The number of `false` flags.
pub open spec fn count_false(s: Seq<bool>) -> nat
    decreases s.len(),
{
    if s.len() == 0 {
        0
    } else {
        count_false(s.drop_last()) + if s.last() { 0nat } else { 1nat }
    }
}

/// The number of rules not visited yet.
pub open spec fn unvisited(v: Seq<Vec<bool>>) -> nat
    decreases v.len(),
{
    if v.len() == 0 {
        0
    } else {
        unvisited(v.drop_last()) + count_false(v.last()@)
    }
}

proof fn lemma_count_false_set(s: Seq<bool>, i: int)
    requires
        0 <= i < s.len(),
        !s[i],
    ensures
        count_false(s.update(i, true)) + 1 == count_false(s),
    decreases s.len(),
{
    if i < s.len() - 1 {
        assert(s.update(i, true).drop_last() =~= s.drop_last().update(i, true));
        lemma_count_false_set(s.drop_last(), i);
    } else {
        assert(s.update(i, true).drop_last() =~= s.drop_last());
    }
}

proof fn lemma_unvisited_update(v: Seq<Vec<bool>>, g: int, row: Vec<bool>)
    requires
        0 <= g < v.len(),
    ensures
        unvisited(v.update(g, row)) + count_false(v[g]@) == unvisited(v) + count_false(row@),
    decreases v.len(),
{
    if g < v.len() - 1 {
        assert(v.update(g, row).drop_last() =~= v.drop_last().update(g, row));
        lemma_unvisited_update(v.drop_last(), g, row);
    } else {
        assert(v.update(g, row).drop_last() =~= v.drop_last());
    }
}

/// The references found so far and the rules visited so far.
struct Collector {
    references: Vec<AbsoluteRuleReference>,
    visited: Vec<Vec<bool>>,
}

impl Collector {
    /// Whether the collector fits the store: one flag per rule, references
    /// with distinct keys, each justified.
    spec fn fits(&self, store: GrammarStore) -> bool {
        &&& self.visited.len() == store.spec_grammars().len()
        &&& forall|g: int|
            0 <= g < self.visited.len() ==> (#[trigger] self.visited@[g]).len()
                == store.spec_grammars()[g].rules.len()
        &&& distinct_keys(self.references@)
        &&& forall|i: int| 0 <= i < self.references.len() ==> justified(store, #[trigger] self.references@[i])
    }

    /// Whether `self` follows `before`: the references found before stay in
    /// front, and no rule was unvisited.
    spec fn follows(&self, before: Collector) -> bool {
        &&& before.references@.len() <= self.references@.len()
        &&& self.references@.take(before.references@.len() as int) == before.references@
        &&& unvisited(self.visited@) <= unvisited(before.visited@)
    }

    fn new(store: &GrammarStore) -> (r: Collector)
        requires
            store.wf(),
        ensures
            r.fits(*store),
            r.references.len() == 0,
            walk_view(r) == initial_walk(*store),
    {
        let mut visited: Vec<Vec<bool>> = Vec::new();
        let mut g: usize = 0;
        let n = store.len();
        while g < n
            invariant
                g <= n,
                n == store.spec_grammars().len(),
                visited.len() == g,
                forall|k: int|
                    0 <= k < g ==> (#[trigger] visited@[k]).len() == store.spec_grammars()[k].rules.len(),
                forall|k: int| 0 <= k < g ==> #[trigger] visited@[k]@ == Seq::new(store.spec_grammars()[k].rules.len() as nat, |r: int| false),
            decreases n - g,
        {
            let count = store.grammar_at(g).rules.len();
            let mut row: Vec<bool> = Vec::new();
            let mut i: usize = 0;
            while i < count
                invariant
                    i <= count,
                    row.len() == i,
                    row@ == Seq::new(i as nat, |r: int| false),
                decreases count - i,
            {
                row.push(false);
                i += 1;
                assert(row@ =~= Seq::new(i as nat, |r: int| false));
            }
            visited.push(row);
            g += 1;
        }
        let c = Collector { references: Vec::new(), visited };
        assert(walk_view(c).0 =~= Seq::<RefView>::empty());
        assert(walk_view(c).1 =~= initial_walk(*store).1);
        c
    }

    /// Adds a reference unless one with its key was found before.
    fn add(&mut self, store: &GrammarStore, reference: AbsoluteRuleReference)
        requires
            old(self).fits(*store),
            justified(*store, reference),
        ensures
            final(self).fits(*store),
            final(self).visited == old(self).visited,
            final(self).references@ == if exists|i: int|
                0 <= i < old(self).references.len() && reference_key(
                    #[trigger] old(self).references@[i],
                ) == reference_key(reference) {
                old(self).references@
            } else {
                old(self).references@.push(reference)
            },
            walk_view(*final(self)) == (add_view(walk_view(*old(self)).0, ref_view(reference)), walk_view(*old(self)).1),
    {
        let key = reference.key();
        let mut i: usize = 0;
        while i < self.references.len()
            invariant
                i <= self.references.len(),
                *self == *old(self),
                self.fits(*store),
                key@ == reference_key(reference),
                forall|j: int| 0 <= j < i ==> reference_key(#[trigger] self.references@[j]) != key@,
            decreases self.references.len() - i,
        {
            let other = self.references[i].key();
            if str_eq(other.as_str(), key.as_str()) {
                proof {
                    let vs = walk_view(*self).0;
                    assert(view_key(vs[i as int]) == view_key(ref_view(reference)));
                }
                return;
            }
            i += 1;
        }
        let ghost before = walk_view(*self);
        proof {
            assert forall|j: int| 0 <= j < before.0.len() implies view_key(#[trigger] before.0[j]) != view_key(ref_view(reference)) by {
                assert(view_key(before.0[j]) == reference_key(self.references@[j]));
            }
        }
        self.references.push(reference);
        assert(walk_view(*self).0 =~= before.0.push(ref_view(reference)));
    }

    /// Marks rule `(g, r)` visited; whether it was not visited before.
    fn visit(&mut self, g: usize, r: usize) -> (first: bool)
        requires
            g < old(self).visited.len(),
            r < old(self).visited@[g as int].len(),
        ensures
            final(self).references == old(self).references,
            final(self).visited.len() == old(self).visited.len(),
            forall|k: int|
                0 <= k < final(self).visited.len() ==> (#[trigger] final(self).visited@[k]).len()
                    == old(self).visited@[k].len(),
            first ==> unvisited(final(self).visited@) < unvisited(old(self).visited@),
            !first ==> final(self).visited@ == old(self).visited@,
            first == !old(self).visited@[g as int]@[r as int],
            first ==> final(self).visited@ == old(self).visited@.update(
                g as int,
                final(self).visited@[g as int],
            ) && final(self).visited@[g as int]@ == old(self).visited@[g as int]@.update(r as int, true),
            first ==> walk_view(*final(self)) == (walk_view(*old(self)).0, walk_view(*old(self)).1.update(
                g as int,
                walk_view(*old(self)).1[g as int].update(r as int, true),
            )),
            first ==> unvisited_rows(walk_view(*final(self)).1) < unvisited_rows(walk_view(*old(self)).1),
            first == !walk_view(*old(self)).1[g as int][r as int],
    {
        if self.visited[g][r] {
            return false;
        }
        let ghost before = self.visited@;
        let mut row: Vec<bool> = Vec::new();
        std::mem::swap(&mut row, &mut self.visited[g]);
        let ghost old_row = row@;
        row.set(r, true);
        proof {
            lemma_count_false_set(old_row, r as int);
        }
        self.visited.set(g, row);
        proof {
            lemma_unvisited_update(before, g as int, row);
            assert(self.visited@ =~= before.update(g as int, row));
            lemma_unvisited_rows(before);
            lemma_unvisited_rows(self.visited@);
            assert(walk_view(*self).1 =~= walk_view(*old(self)).1.update(g as int, walk_view(*old(self)).1[g as int].update(r as int, true)));
        }
        true
    }
}

/// A layer of rule names: the repository of grammar `.0`, or, where `.1`
/// is a position, that of one of its rules.
pub type Layer = (usize, Option<usize>);

/// Where the walk stands: the base grammar, the grammar whose rules are
/// walked, and the repositories that names are looked up in, the last one
/// first.
struct Context {
    base: usize,
    current: usize,
    layers: Vec<Layer>,
}

/// Whether every position in a context names a grammar or a rule that has a
/// repository.
spec fn context_fits(store: GrammarStore, c: Context) -> bool {
    let gs = store.spec_grammars();
    &&& c.base < gs.len()
    &&& c.current < gs.len()
    &&& forall|i: int| 0 <= i < c.layers.len() ==> layer_fits(gs, #[trigger] c.layers@[i])
}

spec fn layer_fits(gs: Seq<RawGrammar>, l: Layer) -> bool {
    &&& l.0 < gs.len()
    &&& l.1 matches Some(r) ==> r < gs[l.0 as int].rules.len() && rule_at(gs, l.0 as int, r as int).repository is Some
}

fn copy_layers(layers: &Vec<Layer>) -> (r: Vec<Layer>)
    ensures
        r@ == layers@,
{
    let mut r: Vec<Layer> = Vec::new();
    let mut i: usize = 0;
    while i < layers.len()
        invariant
            i <= layers.len(),
            r@ == layers@.take(i as int),
        decreases layers.len() - i,
    {
        r.push(layers[i]);
        i += 1;
        assert(r@ =~= layers@.take(i as int));
    }
    assert(layers@.take(i as int) =~= layers@);
    r
}

/// The rule that `name` names in one layer: in the grammar's repository,
/// or in that of the layer's rule (none where it has no repository).
pub open spec fn layer_lookup(gs: Seq<RawGrammar>, l: Layer, name: Seq<char>) -> Option<usize> {
    let refs = match l.1 {
        None => Some(gs[l.0 as int].repository@),
        Some(r) => match rule_at(gs, l.0 as int, r as int).repository {
            Some(repo) => Some(repo@),
            None => None,
        },
    };
    match refs {
        Some(refs) => match crate::raw_grammar::ref_position(refs, name) {
            Some(i) => Some(refs[i].1),
            None => None,
        },
        None => None,
    }
}

/// The rule that `name` names in the first `n` layers: the last of them
/// that has the name decides.
pub open spec fn layers_lookup(gs: Seq<RawGrammar>, layers: Seq<Layer>, name: Seq<char>, n: int) -> Option<(usize, usize)>
    decreases n,
{
    if n <= 0 || n > layers.len() {
        None
    } else {
        match layer_lookup(gs, layers[n - 1], name) {
            Some(x) => Some((layers[n - 1].0, x)),
            None => layers_lookup(gs, layers, name, n - 1),
        }
    }
}

/// The rule that a name gives in the layers: the last layer that has the
/// name decides.
fn layers_get(store: &GrammarStore, layers: &Vec<Layer>, name: &str) -> (r: Option<(usize, usize)>)
    requires
        store.wf(),
        forall|i: int| 0 <= i < layers.len() ==> layer_fits(store.spec_grammars(), #[trigger] layers@[i]),
    ensures
        r matches Some(p) ==> is_rule(store.spec_grammars(), p.0 as int, p.1 as int),
        r == layers_lookup(store.spec_grammars(), layers@, name@, layers@.len() as int),
{
    let mut i = layers.len();
    while i > 0
        invariant
            i <= layers.len(),
            store.wf(),
            forall|k: int| 0 <= k < layers.len() ==> layer_fits(store.spec_grammars(), #[trigger] layers@[k]),
            layers_lookup(store.spec_grammars(), layers@, name@, layers@.len() as int) == layers_lookup(
                store.spec_grammars(),
                layers@,
                name@,
                i as int,
            ),
        decreases i,
    {
        let (g, local) = layers[i - 1];
        let grammar = store.grammar_at(g);
        proof {
            assert(store.spec_grammars()[g as int].wf());
        }
        let found = match local {
            None => find_ref(&grammar.repository, name),
            Some(r) => match &grammar.rules[r].repository {
                Some(repo) => {
                    proof {
                        assert(crate::raw_grammar::rule_wf(grammar.rules@[r as int], grammar.rules.len() as int));
                    }
                    find_ref(repo, name)
                },
                None => None,
            },
        };
        proof {
            if let Some(x) = found {
                match local {
                    None => {
                        crate::raw_grammar::lemma_ref_position_from(grammar.repository@, name@, 0);
                    },
                    Some(r) => {
                        let repo = grammar.rules@[r as int].repository->Some_0;
                        crate::raw_grammar::lemma_ref_position_from(repo@, name@, 0);
                        assert(crate::raw_grammar::rule_wf(grammar.rules@[r as int], grammar.rules.len() as int));
                    },
                }
            }
        }
        assert(found == layer_lookup(store.spec_grammars(), layers@[i - 1], name@));
        if let Some(x) = found {
            return Some((g, x));
        }
        i -= 1;
    }
    None
}

/// A reference as plain values.
pub enum RefView {
    Whole(Seq<char>),
    Rule(Seq<char>, Seq<char>),
}

/// The plain values of a reference.
pub open spec fn ref_view(r: AbsoluteRuleReference) -> RefView {
    match r {
        AbsoluteRuleReference::TopLevel { scope_name } => RefView::Whole(scope_name@),
        AbsoluteRuleReference::Repository { scope_name, rule_name } => RefView::Rule(scope_name@, rule_name@),
    }
}

/// The key of a reference view (see `reference_key`).
pub open spec fn view_key(r: RefView) -> Seq<char> {
    match r {
        RefView::Whole(s) => s,
        RefView::Rule(s, n) => s + seq!['#'] + n,
    }
}

/// The scope of a reference view.
pub open spec fn view_scope(r: RefView) -> Seq<char> {
    match r {
        RefView::Whole(s) => s,
        RefView::Rule(s, _) => s,
    }
}

/// The references found so far with `r` added, unless one with its key is
/// there.
pub open spec fn add_view(refs: Seq<RefView>, r: RefView) -> Seq<RefView> {
    if exists|i: int| 0 <= i < refs.len() && view_key(#[trigger] refs[i]) == view_key(r) {
        refs
    } else {
        refs.push(r)
    }
}

/// The number of rules not visited, over plain rows of flags.
pub open spec fn unvisited_rows(v: Seq<Seq<bool>>) -> nat
    decreases v.len(),
{
    if v.len() == 0 {
        0
    } else {
        unvisited_rows(v.drop_last()) + count_false(v.last())
    }
}

/// The references found and the rules visited, as plain values.
pub type WalkState = (Seq<RefView>, Seq<Seq<bool>>);

/// Walks the rules `rules[i..]` of grammar `g`, with the base grammar
/// `base`, the current grammar `current` and the repositories `layers`: a
/// rule not visited yet is marked, its nested patterns are walked with its
/// own repository added to the layers, then its include is followed.
pub open spec fn walk_rules(
    store: GrammarStore,
    g: usize,
    rules: Seq<usize>,
    i: int,
    base: usize,
    current: usize,
    layers: Seq<Layer>,
    st: WalkState,
) -> WalkState
    decreases unvisited_rows(st.1), 0nat, rules.len() - i,
{
    if i < 0 || i >= rules.len() {
        st
    } else {
        let r = rules[i];
        if g >= st.1.len() || r >= st.1[g as int].len() || st.1[g as int][r as int] {
            walk_rules(store, g, rules, i + 1, base, current, layers, st)
        } else {
            let st1 = (st.0, st.1.update(g as int, st.1[g as int].update(r as int, true)));
            let rule = rule_at(store.spec_grammars(), g as int, r as int);
            let inner = if rule.repository is Some {
                layers.push((g, Some(r)))
            } else {
                layers
            };
            if unvisited_rows(st1.1) < unvisited_rows(st.1) {
                let st2 = match rule.patterns {
                    Some(p) => walk_rules(store, g, p@, 0, base, current, inner, st1),
                    None => st1,
                };
                let st3 = if unvisited_rows(st2.1) < unvisited_rows(st.1) {
                    match rule.include_target {
                        Some(t) => walk_include(store, t@, base, current, layers, inner, st2),
                        None => st2,
                    }
                } else {
                    st2
                };
                if unvisited_rows(st3.1) <= unvisited_rows(st.1) {
                    walk_rules(store, g, rules, i + 1, base, current, layers, st3)
                } else {
                    st3
                }
            } else {
                st1
            }
        }
    }
}

/// The rules a grammar injects, by position.
pub open spec fn injected_rules(grammar: RawGrammar) -> Seq<usize> {
    grammar.injections@.map_values(|x: (String, usize)| x.1)
}

/// Walks the whole grammar `current`: its patterns, then its injections.
pub open spec fn walk_top(store: GrammarStore, base: usize, current: usize, st: WalkState) -> WalkState
    decreases unvisited_rows(st.1), 2nat, 0int,
{
    let gs = store.spec_grammars();
    let layers = seq![(current, None::<usize>)];
    let st1 = walk_rules(store, current, gs[current as int].patterns@, 0, base, current, layers, st);
    if unvisited_rows(st1.1) <= unvisited_rows(st.1) {
        walk_rules(store, current, injected_rules(gs[current as int]), 0, base, current, layers, st1)
    } else {
        st1
    }
}

/// Walks the rule that `name` names in the repositories `layers`.
pub open spec fn walk_repo(store: GrammarStore, name: Seq<char>, base: usize, current: usize, layers: Seq<Layer>, st: WalkState) -> WalkState
    decreases unvisited_rows(st.1), 1nat, 0int,
{
    match layers_lookup(store.spec_grammars(), layers, name, layers.len() as int) {
        Some((g, r)) => walk_rules(store, g, seq![r], 0, base, current, layers, st),
        None => st,
    }
}

/// Follows the include `target`: `$base` and `$self` walk the base or the
/// current grammar; `#name` the rule it names in the repositories seen from
/// inside the rule; `scope` and `scope#name` walk the current or the base
/// grammar where they name one, and are otherwise added as references.
pub open spec fn walk_include(
    store: GrammarStore,
    target: Seq<char>,
    base: usize,
    current: usize,
    layers: Seq<Layer>,
    inner: Seq<Layer>,
    st: WalkState,
) -> WalkState
    decreases unvisited_rows(st.1), 3nat, 0int,
{
    let gs = store.spec_grammars();
    match classify_include(target) {
        IncludeKind::Base => walk_top(store, base, base, st),
        IncludeKind::SelfReference => walk_top(store, base, current, st),
        IncludeKind::RelativeReference { rule_name } => walk_repo(store, rule_name, base, current, inner, st),
        IncludeKind::TopLevelReference { scope_name } => if scope_name == gs[current as int].scope_name@ {
            walk_top(store, base, current, st)
        } else if scope_name == gs[base as int].scope_name@ {
            walk_top(store, base, base, st)
        } else {
            (add_view(st.0, RefView::Whole(scope_name)), st.1)
        },
        IncludeKind::TopLevelRepositoryReference { scope_name, rule_name } => if scope_name == gs[current as int].scope_name@ {
            walk_repo(store, rule_name, base, current, inner, st)
        } else if scope_name == gs[base as int].scope_name@ {
            walk_repo(store, rule_name, base, base, inner, st)
        } else {
            (add_view(st.0, RefView::Rule(scope_name, rule_name)), st.1)
        },
    }
}

/// The references with the whole grammars `names[0..n]` added in order.
pub open spec fn add_wholes(refs: Seq<RefView>, names: Seq<String>, n: int) -> Seq<RefView>
    decreases n,
{
    if n <= 0 || n > names.len() {
        refs
    } else {
        add_view(add_wholes(refs, names, n - 1), RefView::Whole(names[n - 1]@))
    }
}

/// Collects the dependencies of one reference with `base` as the base
/// grammar: the walk of its grammar (whole) or of its rule, then the
/// grammars injected into its scope; nothing where its grammar or the base
/// grammar is missing.
pub open spec fn walk_reference(store: GrammarStore, reference: RefView, base: Seq<char>, st: WalkState) -> WalkState {
    let scope = view_scope(reference);
    match (store.position(scope), store.position(base)) {
        (Some(c), Some(b)) => {
            let st1 = match reference {
                RefView::Whole(_) => walk_top(store, b as usize, c as usize, st),
                RefView::Rule(_, name) => walk_repo(store, name, b as usize, c as usize, seq![(c as usize, None::<usize>)], st),
            };
            let names = store.spec_injections_for(scope);
            (add_wholes(st1.0, names, names.len() as int), st1.1)
        },
        _ => st,
    }
}

/// Nothing found and no rule visited.
pub open spec fn initial_walk(store: GrammarStore) -> WalkState {
    (Seq::empty(), Seq::new(
        store.spec_grammars().len(),
        |g: int| Seq::new(store.spec_grammars()[g].rules.len() as nat, |r: int| false),
    ))
}

/// What a collector holds, as plain values.
spec fn walk_view(c: Collector) -> WalkState {
    (c.references@.map_values(|r: AbsoluteRuleReference| ref_view(r)), c.visited@.map_values(|v: Vec<bool>| v@))
}

proof fn lemma_unvisited_rows(v: Seq<Vec<bool>>)
    ensures
        unvisited(v) == unvisited_rows(v.map_values(|x: Vec<bool>| x@)),
    decreases v.len(),
{
    if v.len() > 0 {
        lemma_unvisited_rows(v.drop_last());
        assert(v.map_values(|x: Vec<bool>| x@).drop_last() =~= v.drop_last().map_values(|x: Vec<bool>| x@));
    }
}

/// Collects the dependencies of `queue[0..n]` in order.
pub open spec fn walk_queue(store: GrammarStore, queue: Seq<AbsoluteRuleReference>, base: Seq<char>, n: int) -> WalkState
    decreases n,
{
    if n <= 0 || n > queue.len() {
        initial_walk(store)
    } else {
        walk_reference(store, ref_view(queue[n - 1]), base, walk_queue(store, queue, base, n - 1))
    }
}

/// The references that a round over `queue` collects, in order.
pub open spec fn collected_references(store: GrammarStore, queue: Seq<AbsoluteRuleReference>, base: Seq<char>) -> Seq<RefView> {
    walk_queue(store, queue, base, queue.len() as int).0
}

/// Walks the rules `rules` of grammar `g` (rank 0 of the walk).
fn collect_in_rules(store: &GrammarStore, g: usize, rules: &Vec<usize>, context: &Context, result: &mut Collector)
    requires
        store.wf(),
        old(result).fits(*store),
        context_fits(*store, *context),
        g < store.spec_grammars().len(),
        forall|i: int| 0 <= i < rules.len() ==> #[trigger] rules@[i] < store.spec_grammars()[g as int].rules.len(),
    ensures
        final(result).fits(*store),
        final(result).follows(*old(result)),
        walk_view(*final(result)) == walk_rules(
            *store,
            g,
            rules@,
            0,
            context.base,
            context.current,
            context.layers@,
            walk_view(*old(result)),
        ),
    decreases unvisited(old(result).visited@), 0nat,
{
    let ghost entry = *result;
    assert(entry.references@.take(entry.references@.len() as int) =~= entry.references@);
    let mut i: usize = 0;
    while i < rules.len()
        invariant
            i <= rules.len(),
            entry == *old(result),
            store.wf(),
            result.fits(*store),
            result.follows(entry),
            walk_rules(*store, g, rules@, 0, context.base, context.current, context.layers@, walk_view(entry)) == walk_rules(
                *store,
                g,
                rules@,
                i as int,
                context.base,
                context.current,
                context.layers@,
                walk_view(*result),
            ),
            context_fits(*store, *context),
            g < store.spec_grammars().len(),
            forall|k: int| 0 <= k < rules.len() ==> #[trigger] rules@[k] < store.spec_grammars()[g as int].rules.len(),
        decreases rules.len() - i,
    {
        let r = rules[i];
        let ghost before = *result;
        proof {
            assert(walk_view(before).1[g as int] == before.visited@[g as int]@);
        }
        if result.visit(g, r) {
            let grammar = store.grammar_at(g);
            let rule = &grammar.rules[r];
            proof {
                assert(store.spec_grammars()[g as int].wf());
                assert(crate::raw_grammar::rule_wf(grammar.rules@[r as int], grammar.rules.len() as int));
                assert(result.fits(*store));
            }
            let mut layers = copy_layers(&context.layers);
            if rule.repository.is_some() {
                layers.push((g, Some(r)));
            }
            let inner = Context { base: context.base, current: context.current, layers };
            proof {
                assert forall|k: int| 0 <= k < inner.layers.len() implies layer_fits(
                    store.spec_grammars(),
                    #[trigger] inner.layers@[k],
                ) by {
                    if k < context.layers.len() {
                        assert(inner.layers@[k] == context.layers@[k]);
                    }
                }
            }
            let ghost visited_at = *result;
            assert(unvisited(result.visited@) < unvisited(entry.visited@));
            if let Some(patterns) = &rule.patterns {
                collect_in_rules(store, g, patterns, &inner, result);
            }
            assert(unvisited(result.visited@) < unvisited(entry.visited@));
            let ghost walked = *result;
            proof {
                lemma_unvisited_rows(before.visited@);
                lemma_unvisited_rows(visited_at.visited@);
                lemma_unvisited_rows(walked.visited@);
                assert(*rule == rule_at(store.spec_grammars(), g as int, r as int));
            }
            if let Some(target) = &rule.include_target {
                collect_for_include(store, g, r, target.as_str(), context, inner, result);
            }
            proof {
                lemma_unvisited_rows(result.visited@);
                assert(walk_rules(*store, g, rules@, i as int, context.base, context.current, context.layers@, walk_view(before))
                    == walk_rules(*store, g, rules@, i + 1, context.base, context.current, context.layers@, walk_view(*result)));
            }
            proof {
                assert(result.references@.take(before.references@.len() as int) =~= before.references@) by {
                    assert(walked.references@.take(visited_at.references@.len() as int) == visited_at.references@);
                    assert(result.references@.take(walked.references@.len() as int) == walked.references@);
                    assert(visited_at.references == before.references);
                }
            }
        }
        proof {
            assert(result.references@.take(entry.references@.len() as int) =~= entry.references@) by {
                assert(result.references@.take(before.references@.len() as int) == before.references@);
                assert(before.references@.take(entry.references@.len() as int) == entry.references@);
            }
        }
        i += 1;
    }
}

/// Walks the whole grammar `current`: its patterns, then its injections
/// (rank 2 of the walk).
fn collect_in_top_level_rule(store: &GrammarStore, base: usize, current: usize, result: &mut Collector)
    requires
        store.wf(),
        old(result).fits(*store),
        base < store.spec_grammars().len(),
        current < store.spec_grammars().len(),
    ensures
        final(result).fits(*store),
        final(result).follows(*old(result)),
        walk_view(*final(result)) == walk_top(*store, base, current, walk_view(*old(result))),
    decreases unvisited(old(result).visited@), 2nat,
{
    let grammar = store.grammar_at(current);
    proof {
        assert(store.spec_grammars()[current as int].wf());
    }
    let mut layers: Vec<Layer> = Vec::new();
    layers.push((current, None));
    let context = Context { base, current, layers };
    assert(context.layers@[0] == (current, None::<usize>));
    let ghost entry = *result;
    collect_in_rules(store, current, &grammar.patterns, &context, result);
    let mut injected: Vec<usize> = Vec::new();
    let mut i: usize = 0;
    while i < grammar.injections.len()
        invariant
            i <= grammar.injections.len(),
            injected.len() == i,
            *grammar == store.spec_grammars()[current as int],
            grammar.wf(),
            forall|k: int| 0 <= k < i ==> #[trigger] injected@[k] < grammar.rules.len(),
            injected@ == injected_rules(*grammar).take(i as int),
        decreases grammar.injections.len() - i,
    {
        injected.push(grammar.injections[i].1);
        i += 1;
        assert(injected@ =~= injected_rules(*grammar).take(i as int));
    }
    assert(injected@ =~= injected_rules(*grammar));
    let ghost mid = *result;
    proof {
        lemma_unvisited_rows(entry.visited@);
        lemma_unvisited_rows(mid.visited@);
        assert(context.layers@ =~= seq![(current, None::<usize>)]);
    }
    collect_in_rules(store, current, &injected, &context, result);
    proof {
        assert(result.references@.take(entry.references@.len() as int) =~= entry.references@) by {
            assert(mid.references@.take(entry.references@.len() as int) == entry.references@);
            assert(result.references@.take(mid.references@.len() as int) == mid.references@);
        }
    }
}

/// Walks the rule that `rule_name` names in the repositories of `context`
/// (rank 1 of the walk).
fn collect_in_repository_rule(store: &GrammarStore, rule_name: &str, context: &Context, result: &mut Collector)
    requires
        store.wf(),
        old(result).fits(*store),
        context_fits(*store, *context),
    ensures
        final(result).fits(*store),
        final(result).follows(*old(result)),
        walk_view(*final(result)) == walk_repo(*store, rule_name@, context.base, context.current, context.layers@, walk_view(*old(result))),
    decreases unvisited(old(result).visited@), 1nat,
{
    if let Some((g, r)) = layers_get(store, &context.layers, rule_name) {
        let mut rules: Vec<usize> = Vec::new();
        rules.push(r);
        assert(rules@[0] == r);
        assert(rules@ =~= seq![r]);
        collect_in_rules(store, g, &rules, context, result);
    } else {
        assert(result.references@.take(result.references@.len() as int) =~= result.references@);
    }
}

/// Follows the include `target` of rule `(g, r)`; `inner` holds the
/// repositories seen from inside the rule (rank 3 of the walk, taken only
/// after a rule was visited).
fn collect_for_include(
    store: &GrammarStore,
    g: usize,
    r: usize,
    target: &str,
    context: &Context,
    inner: Context,
    result: &mut Collector,
)
    requires
        store.wf(),
        old(result).fits(*store),
        context_fits(*store, *context),
        context_fits(*store, inner),
        inner.base == context.base,
        inner.current == context.current,
        is_rule(store.spec_grammars(), g as int, r as int),
        rule_at(store.spec_grammars(), g as int, r as int).include_target matches Some(t) && t@ == target@,
    ensures
        final(result).fits(*store),
        final(result).follows(*old(result)),
        walk_view(*final(result)) == walk_include(
            *store,
            target@,
            context.base,
            context.current,
            context.layers@,
            inner.layers@,
            walk_view(*old(result)),
        ),
    decreases unvisited(old(result).visited@), 3nat,
{
    let parsed = parse_include(target);
    match parsed {
        IncludeReference::Base => {
            collect_in_top_level_rule(store, context.base, context.base, result);
        },
        IncludeReference::SelfReference => {
            collect_in_top_level_rule(store, context.base, context.current, result);
        },
        IncludeReference::RelativeReference { rule_name } => {
            collect_in_repository_rule(store, rule_name, &inner, result);
        },
        IncludeReference::TopLevelReference { scope_name } => {
            let current_scope = store.grammar_at(context.current).scope_name.as_str();
            let base_scope = store.grammar_at(context.base).scope_name.as_str();
            if str_eq(scope_name, current_scope) {
                collect_in_top_level_rule(store, context.base, context.current, result);
            } else if str_eq(scope_name, base_scope) {
                collect_in_top_level_rule(store, context.base, context.base, result);
            } else {
                let reference = AbsoluteRuleReference::top_level(scope_name);
                proof {
                    assert(include_names(store.spec_grammars(), g as int, r as int, reference));
                }
                result.add(store, reference);
                proof {
                    assert(result.references@.take(old(result).references@.len() as int) =~= old(result).references@);
                }
            }
        },
        IncludeReference::TopLevelRepositoryReference { scope_name, rule_name } => {
            let current_scope = store.grammar_at(context.current).scope_name.as_str();
            let base_scope = store.grammar_at(context.base).scope_name.as_str();
            if str_eq(scope_name, current_scope) {
                let nested = Context { base: inner.base, current: context.current, layers: inner.layers };
                collect_in_repository_rule(store, rule_name, &nested, result);
            } else if str_eq(scope_name, base_scope) {
                let nested = Context { base: inner.base, current: context.base, layers: inner.layers };
                collect_in_repository_rule(store, rule_name, &nested, result);
            } else {
                let reference = AbsoluteRuleReference::repository(scope_name, rule_name);
                proof {
                    assert(include_names(store.spec_grammars(), g as int, r as int, reference));
                }
                result.add(store, reference);
                proof {
                    assert(result.references@.take(old(result).references@.len() as int) =~= old(result).references@);
                }
            }
        },
    }
}

/// Whether collecting the dependencies of `reference`, with `base` as the
/// base grammar, fails: the grammar of the reference is missing and it is
/// the base one, or it is there and the base one is missing.
pub open spec fn reference_fails(store: GrammarStore, reference: AbsoluteRuleReference, base: Seq<char>) -> bool {
    let scope = reference_scope(reference);
    ||| (store.position(scope) is None && scope == base)
    ||| (store.position(scope) is Some && store.position(base) is None)
}

fn position_in_range(store: &GrammarStore, scope: &str) -> (r: Option<usize>)
    ensures
        match r {
            Some(i) => store.position(scope@) == Some(i as int) && i < store.spec_grammars().len(),
            None => store.position(scope@) is None,
        },
{
    proof {
        crate::raw_grammar::lemma_grammar_position_from(store.spec_grammars(), scope@, 0);
    }
    store.position_of(scope)
}

/// Collects the dependencies of one reference, and the grammars injected
/// into its scope.
fn collect_references_of_reference(
    store: &GrammarStore,
    reference: &AbsoluteRuleReference,
    base_scope: &str,
    result: &mut Collector,
) -> (r: Result<(), GrammarDependencyError>)
    requires
        store.wf(),
        old(result).fits(*store),
    ensures
        final(result).fits(*store),
        match r {
            Ok(()) => !reference_fails(*store, *reference, base_scope@),
            Err(e) => reference_fails(*store, *reference, base_scope@) && e.spec_scope_name()
                == base_scope@,
        },
        r is Ok ==> walk_view(*final(result)) == walk_reference(*store, ref_view(*reference), base_scope@, walk_view(*old(result))),
{
    let scope = reference.scope_name();
    let current = match position_in_range(store, scope) {
        Some(c) => c,
        None => {
            if str_eq(scope, base_scope) {
                return Err(GrammarDependencyError::missing(base_scope));
            }
            return Ok(());
        },
    };
    let base = match position_in_range(store, base_scope) {
        Some(b) => b,
        None => {
            return Err(GrammarDependencyError::missing(base_scope));
        },
    };
    match reference {
        AbsoluteRuleReference::TopLevel { .. } => {
            collect_in_top_level_rule(store, base, current, result);
        },
        AbsoluteRuleReference::Repository { rule_name, .. } => {
            let mut layers: Vec<Layer> = Vec::new();
            layers.push((current, None));
            let context = Context { base, current, layers };
            assert(context.layers@[0] == (current, None::<usize>));
            collect_in_repository_rule(store, rule_name.as_str(), &context, result);
        },
    }
    let injections = store.injections(scope);
    let ghost walked = walk_view(*result);
    let mut i: usize = 0;
    while i < injections.len()
        invariant
            i <= injections.len(),
            store.wf(),
            result.fits(*store),
            injections@ == store.spec_injections_for(scope@),
            walk_view(*result) == (add_wholes(walked.0, injections@, i as int), walked.1),
        decreases injections.len() - i,
    {
        let injected = AbsoluteRuleReference::top_level(injections[i].as_str());
        proof {
            assert(0 <= i < store.spec_injections_for(scope@).len() && store.spec_injections_for(scope@)[i as int]@ == injections@[i as int]@);
        }
        result.add(store, injected);
        assert(ref_view(injected) == RefView::Whole(injections@[i as int]@));
        i += 1;
    }
    proof {
        assert(ref_view(*reference) matches RefView::Rule(_, n) ==> reference matches AbsoluteRuleReference::Repository { rule_name, .. } && n == rule_name@);
    }
    Ok(())
}

// ---------------------------------------------------------------------------
// The processor
// ---------------------------------------------------------------------------

/// The strings of a list, as a set.
pub open spec fn string_set(v: Seq<String>) -> Set<Seq<char>> {
    Set::new(|s: Seq<char>| exists|i: int| 0 <= i < v.len() && (#[trigger] v[i])@ == s)
}

proof fn lemma_string_set_push(v: Seq<String>, x: String)
    ensures
        string_set(v.push(x)) == string_set(v).insert(x@),
{
    assert forall|s: Seq<char>| string_set(v.push(x)).contains(s) <==> string_set(v).insert(x@).contains(s) by {
        if string_set(v.push(x)).contains(s) {
            let i = choose|i: int| 0 <= i < v.push(x).len() && (#[trigger] v.push(x)[i])@ == s;
            if i < v.len() {
                assert(v[i] == v.push(x)[i]);
            }
        }
        if string_set(v).contains(s) {
            let i = choose|i: int| 0 <= i < v.len() && (#[trigger] v[i])@ == s;
            assert(v.push(x)[i] == v[i]);
        }
        if s == x@ {
            assert(v.push(x)[v.len() as int] == x);
        }
    }
    assert(string_set(v.push(x)) =~= string_set(v).insert(x@));
}

fn contains_string(v: &Vec<String>, s: &str) -> (r: bool)
    ensures
        r == string_set(v@).contains(s@),
{
    let mut i: usize = 0;
    while i < v.len()
        invariant
            i <= v.len(),
            forall|j: int| 0 <= j < i ==> (#[trigger] v@[j])@ != s@,
        decreases v.len() - i,
    {
        if str_eq(v[i].as_str(), s) {
            return true;
        }
        i += 1;
    }
    false
}

/// Which of `refs` are queued, in order, given the whole grammars and the
/// repository rules requested before: a whole grammar unless it was
/// requested before; a repository rule unless its grammar was requested
/// whole or the rule was requested before.  Also gives the requests after.
pub open spec fn queued_after(refs: Seq<AbsoluteRuleReference>, full: Set<Seq<char>>, partial: Set<Seq<char>>) -> (
    Seq<AbsoluteRuleReference>,
    Set<Seq<char>>,
    Set<Seq<char>>,
)
    decreases refs.len(),
{
    if refs.len() == 0 {
        (Seq::empty(), full, partial)
    } else {
        let r = refs[0];
        let rest = refs.drop_first();
        match r {
            AbsoluteRuleReference::TopLevel { scope_name } => if full.contains(scope_name@) {
                queued_after(rest, full, partial)
            } else {
                let t = queued_after(rest, full.insert(scope_name@), partial);
                (seq![r] + t.0, t.1, t.2)
            },
            AbsoluteRuleReference::Repository { scope_name, .. } => if full.contains(scope_name@)
                || partial.contains(reference_key(r)) {
                queued_after(rest, full, partial)
            } else {
                let t = queued_after(rest, full, partial.insert(reference_key(r)));
                (seq![r] + t.0, t.1, t.2)
            },
        }
    }
}

/// Whether processing `queue` fails: the initial grammar is missing and
/// some queued reference is to it, or to a grammar that is there.
pub open spec fn queue_fails(store: GrammarStore, initial: Seq<char>, queue: Seq<AbsoluteRuleReference>) -> bool {
    exists|i: int| 0 <= i < queue.len() && reference_fails(store, #[trigger] queue[i], initial)
}

/// Finds, round by round, the grammars that a grammar depends on through
/// its includes and the injections into the scopes it reaches.
pub struct ScopeDependencyProcessor<'a> {
    repository: &'a GrammarStore,
    initial_scope_name: String,
    seen_full_scope_requests: Vec<String>,
    seen_partial_scope_requests: Vec<String>,
    queue: Vec<AbsoluteRuleReference>,
}

impl<'a> ScopeDependencyProcessor<'a> {
    pub closed spec fn spec_store(&self) -> GrammarStore {
        *self.repository
    }

    pub closed spec fn spec_initial(&self) -> Seq<char> {
        self.initial_scope_name@
    }

    /// The scopes requested whole so far.
    pub closed spec fn spec_full(&self) -> Set<Seq<char>> {
        string_set(self.seen_full_scope_requests@)
    }

    /// The keys of the repository rules requested so far.
    pub closed spec fn spec_partial(&self) -> Set<Seq<char>> {
        string_set(self.seen_partial_scope_requests@)
    }

    /// The references of the next round.
    pub closed spec fn spec_queue(&self) -> Seq<AbsoluteRuleReference> {
        self.queue@
    }

    /// A processor whose first round is the whole grammar of
    /// `initial_scope_name`.
    pub fn new(repository: &'a GrammarStore, initial_scope_name: &str) -> (r: Self)
        ensures
            r.spec_store() == *repository,
            r.spec_initial() == initial_scope_name@,
            r.spec_full() == Set::<Seq<char>>::empty().insert(initial_scope_name@),
            r.spec_partial() == Set::<Seq<char>>::empty(),
            r.spec_queue().len() == 1,
            r.spec_queue()[0] matches AbsoluteRuleReference::TopLevel { scope_name: s } && s@
                == initial_scope_name@,
    {
        let mut seen_full: Vec<String> = Vec::new();
        seen_full.push(owned(initial_scope_name));
        let mut queue: Vec<AbsoluteRuleReference> = Vec::new();
        queue.push(AbsoluteRuleReference::top_level(initial_scope_name));
        let r = ScopeDependencyProcessor {
            repository,
            initial_scope_name: owned(initial_scope_name),
            seen_full_scope_requests: seen_full,
            seen_partial_scope_requests: Vec::new(),
            queue,
        };
        proof {
            lemma_string_set_push(Seq::empty(), seen_full@[0]);
            assert(Seq::<String>::empty().push(seen_full@[0]) =~= seen_full@);
            assert(string_set(Seq::<String>::empty()) =~= Set::<Seq<char>>::empty());
            assert(string_set(r.seen_partial_scope_requests@) =~= Set::<Seq<char>>::empty());
        }
        r
    }

    /// The references of the next round.
    pub fn queue(&self) -> (r: &[AbsoluteRuleReference])
        ensures
            r@ == self.spec_queue(),
    {
        self.queue.as_slice()
    }

    /// Whether no round is left.
    pub fn is_complete(&self) -> (r: bool)
        ensures
            r == (self.spec_queue().len() == 0),
    {
        self.queue.len() == 0
    }

    /// Runs one round: collects the dependencies of every queued reference
    /// and queues those not requested before.  Fails, with the initial scope
    /// name, where the initial grammar is missing and is needed; the queue
    /// is then left empty.
    pub fn process_queue(&mut self) -> (r: Result<(), GrammarDependencyError>)
        requires
            old(self).spec_store().wf(),
        ensures
            final(self).spec_store() == old(self).spec_store(),
            final(self).spec_initial() == old(self).spec_initial(),
            (r is Err) == queue_fails(old(self).spec_store(), old(self).spec_initial(), old(self).spec_queue()),
            match r {
                Err(e) => {
                    &&& e.spec_scope_name() == old(self).spec_initial()
                    &&& final(self).spec_queue().len() == 0
                    &&& final(self).spec_full() == old(self).spec_full()
                    &&& final(self).spec_partial() == old(self).spec_partial()
                },
                Ok(()) => exists|refs: Seq<AbsoluteRuleReference>|
                    {
                        &&& refs.map_values(|x: AbsoluteRuleReference| ref_view(x)) == collected_references(
                            old(self).spec_store(),
                            old(self).spec_queue(),
                            old(self).spec_initial(),
                        )
                        &&& distinct_keys(refs)
                        &&& forall|i: int| 0 <= i < refs.len() ==> justified(old(self).spec_store(), #[trigger] refs[i])
                        &&& queued_after(refs, old(self).spec_full(), old(self).spec_partial()) == (
                            final(self).spec_queue(),
                            final(self).spec_full(),
                            final(self).spec_partial(),
                        )
                    },
            },
    {
        let store: &GrammarStore = self.repository;
        let mut pending: Vec<AbsoluteRuleReference> = Vec::new();
        std::mem::swap(&mut pending, &mut self.queue);
        let mut references = Collector::new(store);
        let mut i: usize = 0;
        while i < pending.len()
            invariant
                i <= pending.len(),
                store.wf(),
                *store == old(self).spec_store(),
                self.repository == old(self).repository,
                self.initial_scope_name == old(self).initial_scope_name,
                self.seen_full_scope_requests == old(self).seen_full_scope_requests,
                self.seen_partial_scope_requests == old(self).seen_partial_scope_requests,
                self.queue@.len() == 0,
                pending@ == old(self).queue@,
                references.fits(*store),
                forall|k: int| 0 <= k < i ==> !reference_fails(*store, #[trigger] pending@[k], self.initial_scope_name@),
                walk_view(references) == walk_queue(*store, pending@, self.initial_scope_name@, i as int),
            decreases pending.len() - i,
        {
            let outcome = collect_references_of_reference(
                store,
                &pending[i],
                self.initial_scope_name.as_str(),
                &mut references,
            );
            if let Err(e) = outcome {
                return Err(e);
            }
            i += 1;
        }
        let refs = references.references;
        let ghost full0 = string_set(self.seen_full_scope_requests@);
        let ghost partial0 = string_set(self.seen_partial_scope_requests@);
        let mut k: usize = 0;
        assert(refs@.skip(0) =~= refs@);
        assert(self.queue@ + queued_after(refs@, full0, partial0).0 =~= queued_after(refs@, full0, partial0).0);
        while k < refs.len()
            invariant
                k <= refs.len(),
                self.repository == old(self).repository,
                self.initial_scope_name == old(self).initial_scope_name,
                queued_after(refs@, full0, partial0) == ({
                    let t = queued_after(
                        refs@.skip(k as int),
                        string_set(self.seen_full_scope_requests@),
                        string_set(self.seen_partial_scope_requests@),
                    );
                    (self.queue@ + t.0, t.1, t.2)
                }),
            decreases refs.len() - k,
        {
            let reference = &refs[k];
            let ghost full = string_set(self.seen_full_scope_requests@);
            let ghost partial = string_set(self.seen_partial_scope_requests@);
            let ghost rest = refs@.skip(k as int);
            assert(rest[0] == refs@[k as int]);
            assert(rest.drop_first() =~= refs@.skip(k + 1));
            match reference {
                AbsoluteRuleReference::TopLevel { scope_name } => {
                    if !contains_string(&self.seen_full_scope_requests, scope_name.as_str()) {
                        let ghost before = self.seen_full_scope_requests@;
                        let ghost q = self.queue@;
                        self.seen_full_scope_requests.push(copy_string(scope_name));
                        proof {
                            lemma_string_set_push(before, *scope_name);
                        }
                        self.queue.push(reference.clone_reference());
                        proof {
                            let t = queued_after(refs@.skip(k + 1), full.insert(scope_name@), partial);
                            assert(q + (seq![refs@[k as int]] + t.0) =~= q.push(refs@[k as int]) + t.0);
                        }
                    }
                },
                AbsoluteRuleReference::Repository { scope_name, .. } => {
                    let key = reference.key();
                    if !contains_string(&self.seen_full_scope_requests, scope_name.as_str())
                        && !contains_string(&self.seen_partial_scope_requests, key.as_str()) {
                        let ghost before = self.seen_partial_scope_requests@;
                        let ghost q = self.queue@;
                        self.seen_partial_scope_requests.push(key);
                        proof {
                            lemma_string_set_push(before, key);
                        }
                        self.queue.push(reference.clone_reference());
                        proof {
                            let t = queued_after(refs@.skip(k + 1), full, partial.insert(reference_key(refs@[k as int])));
                            assert(q + (seq![refs@[k as int]] + t.0) =~= q.push(refs@[k as int]) + t.0);
                        }
                    }
                },
            }
            k += 1;
        }
        proof {
            assert(refs@.skip(k as int) =~= Seq::<AbsoluteRuleReference>::empty());
            assert(self.queue@ + Seq::<AbsoluteRuleReference>::empty() =~= self.queue@);
            assert(!queue_fails(*store, self.initial_scope_name@, pending@));
        }
        Ok(())
    }
}

impl AbsoluteRuleReference {
    /// A copy of the reference.
    pub fn clone_reference(&self) -> (r: AbsoluteRuleReference)
        ensures
            r == *self,
    {
        match self {
            AbsoluteRuleReference::TopLevel { scope_name } => AbsoluteRuleReference::TopLevel {
                scope_name: copy_string(scope_name),
            },
            AbsoluteRuleReference::Repository { scope_name, rule_name } => AbsoluteRuleReference::Repository {
                scope_name: copy_string(scope_name),
                rule_name: copy_string(rule_name),
            },
        }
    }
}

/// A round queues each whole grammar at most once and only if it was not
/// requested whole before, and each repository rule at most once, only if
/// it was not requested before and its grammar was not requested whole;
/// what it queues is recorded as requested, and nothing requested is
/// forgotten.
pub proof fn lemma_round_queues_new_requests_once(
    refs: Seq<AbsoluteRuleReference>,
    full: Set<Seq<char>>,
    partial: Set<Seq<char>>,
)
    ensures
        ({
            let (q, f, p) = queued_after(refs, full, partial);
            &&& full.subset_of(f)
            &&& partial.subset_of(p)
            &&& forall|i: int|
                0 <= i < q.len() ==> match #[trigger] q[i] {
                    AbsoluteRuleReference::TopLevel { scope_name } => !full.contains(scope_name@)
                        && f.contains(scope_name@),
                    AbsoluteRuleReference::Repository { scope_name, .. } => !full.contains(scope_name@)
                        && !partial.contains(reference_key(q[i])) && p.contains(reference_key(q[i])),
                }
            &&& forall|i: int, j: int|
                0 <= i < j < q.len() ==> match (#[trigger] q[i], #[trigger] q[j]) {
                    (AbsoluteRuleReference::TopLevel { scope_name: a }, AbsoluteRuleReference::TopLevel { scope_name: b }) => a@ != b@,
                    (AbsoluteRuleReference::Repository { .. }, AbsoluteRuleReference::Repository { .. }) => reference_key(q[i]) != reference_key(q[j]),
                    _ => true,
                }
        }),
    decreases refs.len(),
{
    if refs.len() > 0 {
        let r = refs[0];
        let rest = refs.drop_first();
        match r {
            AbsoluteRuleReference::TopLevel { scope_name } => {
                if full.contains(scope_name@) {
                    lemma_round_queues_new_requests_once(rest, full, partial);
                } else {
                    lemma_round_queues_new_requests_once(rest, full.insert(scope_name@), partial);
                    let t = queued_after(rest, full.insert(scope_name@), partial);
                    let q = seq![r] + t.0;
                    assert forall|i: int| 0 < i < q.len() implies q[i] == t.0[i - 1] by {}
                }
            },
            AbsoluteRuleReference::Repository { scope_name, .. } => {
                if full.contains(scope_name@) || partial.contains(reference_key(r)) {
                    lemma_round_queues_new_requests_once(rest, full, partial);
                } else {
                    lemma_round_queues_new_requests_once(rest, full, partial.insert(reference_key(r)));
                    let t = queued_after(rest, full, partial.insert(reference_key(r)));
                    let q = seq![r] + t.0;
                    assert forall|i: int| 0 < i < q.len() implies q[i] == t.0[i - 1] by {}
                }
            },
        }
    }
}

/// The whole grammars and repository rules requested after the first `n`
/// of a run of rounds, the round `i` collecting `refs[i]`.
pub open spec fn requests_after(
    refs: Seq<Seq<AbsoluteRuleReference>>,
    full: Set<Seq<char>>,
    partial: Set<Seq<char>>,
    n: nat,
) -> (Set<Seq<char>>, Set<Seq<char>>)
    decreases n,
{
    if n == 0 {
        (full, partial)
    } else {
        let (f, p) = requests_after(refs, full, partial, (n - 1) as nat);
        let t = queued_after(refs[n - 1], f, p);
        (t.1, t.2)
    }
}

/// What round `n` of a run queues.
pub open spec fn round_queue(
    refs: Seq<Seq<AbsoluteRuleReference>>,
    full: Set<Seq<char>>,
    partial: Set<Seq<char>>,
    n: nat,
) -> Seq<AbsoluteRuleReference> {
    let (f, p) = requests_after(refs, full, partial, n);
    queued_after(refs[n as int], f, p).0
}

proof fn lemma_requests_grow(
    refs: Seq<Seq<AbsoluteRuleReference>>,
    full: Set<Seq<char>>,
    partial: Set<Seq<char>>,
    n: nat,
    m: nat,
)
    requires
        n <= m,
    ensures
        requests_after(refs, full, partial, n).0.subset_of(requests_after(refs, full, partial, m).0),
        requests_after(refs, full, partial, n).1.subset_of(requests_after(refs, full, partial, m).1),
    decreases m,
{
    if n < m {
        lemma_requests_grow(refs, full, partial, n, (m - 1) as nat);
        let (f, p) = requests_after(refs, full, partial, (m - 1) as nat);
        lemma_round_queues_new_requests_once(refs[m - 1], f, p);
    }
}

/// Over a run of rounds, each starting from the requests the one before
/// left (as `process_queue` does): no round queues a whole grammar or a
/// rule of a grammar requested whole at the start (the initial one among
/// them), and a later round queues no whole grammar that an earlier round
/// queued, no repository rule of it, and no repository rule that an
/// earlier round queued.
pub proof fn lemma_rounds_queue_each_request_once(
    refs: Seq<Seq<AbsoluteRuleReference>>,
    full: Set<Seq<char>>,
    partial: Set<Seq<char>>,
    n: nat,
    m: nat,
    k: int,
    l: int,
)
    requires
        n < m < refs.len(),
        0 <= k < round_queue(refs, full, partial, n).len(),
        0 <= l < round_queue(refs, full, partial, m).len(),
    ensures
        match round_queue(refs, full, partial, m)[l] {
            AbsoluteRuleReference::TopLevel { scope_name } => !full.contains(scope_name@),
            AbsoluteRuleReference::Repository { scope_name, .. } => !full.contains(scope_name@),
        },
        match (round_queue(refs, full, partial, n)[k], round_queue(refs, full, partial, m)[l]) {
            (AbsoluteRuleReference::TopLevel { scope_name: a }, AbsoluteRuleReference::TopLevel { scope_name: b }) => a@ != b@,
            (AbsoluteRuleReference::TopLevel { scope_name: a }, AbsoluteRuleReference::Repository { scope_name: b, .. }) => a@ != b@,
            (AbsoluteRuleReference::Repository { .. }, AbsoluteRuleReference::Repository { .. }) => reference_key(
                round_queue(refs, full, partial, n)[k],
            ) != reference_key(round_queue(refs, full, partial, m)[l]),
            _ => true,
        },
{
    let (fn_, pn) = requests_after(refs, full, partial, n);
    let (fm, pm) = requests_after(refs, full, partial, m);
    lemma_round_queues_new_requests_once(refs[n as int], fn_, pn);
    lemma_round_queues_new_requests_once(refs[m as int], fm, pm);
    lemma_requests_grow(refs, full, partial, 0, m);
    lemma_requests_grow(refs, full, partial, n + 1, m);
    assert(requests_after(refs, full, partial, (n + 1) as nat) == ({
        let t = queued_after(refs[n as int], fn_, pn);
        (t.1, t.2)
    }));
}

proof fn lemma_run_follows_requests(
    refs: Seq<Seq<AbsoluteRuleReference>>,
    queues: Seq<Seq<AbsoluteRuleReference>>,
    fulls: Seq<Set<Seq<char>>>,
    partials: Seq<Set<Seq<char>>>,
    i: nat,
)
    requires
        queues.len() == refs.len() + 1,
        fulls.len() == refs.len() + 1,
        partials.len() == refs.len() + 1,
        forall|j: int| 0 <= j < refs.len() ==> #[trigger] queued_after(refs[j], fulls[j], partials[j]) == (
            queues[j + 1],
            fulls[j + 1],
            partials[j + 1],
        ),
        i <= refs.len(),
    ensures
        requests_after(refs, fulls[0], partials[0], i) == (fulls[i as int], partials[i as int]),
        i < refs.len() ==> round_queue(refs, fulls[0], partials[0], i) == queues[i + 1int],
    decreases i,
{
    if i > 0 {
        lemma_run_follows_requests(refs, queues, fulls, partials, (i - 1) as nat);
        assert(queued_after(refs[i - 1], fulls[i - 1], partials[i - 1]) == (queues[i as int], fulls[i as int], partials[i as int]));
    }
    if i < refs.len() {
        assert(queued_after(refs[i as int], fulls[i as int], partials[i as int]) == (queues[i + 1int], fulls[i + 1int], partials[i + 1int]));
    }
}

/// Over any run of successful `process_queue` calls (state `j + 1` is what
/// round `j` leaves: its queue and requests, from the references that round
/// collected): no queue of the run holds a whole grammar or a rule of a
/// grammar requested whole before the run (the initial grammar among them),
/// and a later queue holds no whole grammar that an earlier one held, no
/// repository rule of it, and no repository rule that an earlier one held.
pub proof fn lemma_process_queue_run_queues_each_request_once(
    refs: Seq<Seq<AbsoluteRuleReference>>,
    queues: Seq<Seq<AbsoluteRuleReference>>,
    fulls: Seq<Set<Seq<char>>>,
    partials: Seq<Set<Seq<char>>>,
    n: nat,
    m: nat,
    k: int,
    l: int,
)
    requires
        queues.len() == refs.len() + 1,
        fulls.len() == refs.len() + 1,
        partials.len() == refs.len() + 1,
        forall|j: int| 0 <= j < refs.len() ==> #[trigger] queued_after(refs[j], fulls[j], partials[j]) == (
            queues[j + 1],
            fulls[j + 1],
            partials[j + 1],
        ),
        n < m < refs.len(),
        0 <= k < queues[n + 1int].len(),
        0 <= l < queues[m + 1int].len(),
    ensures
        match queues[m + 1int][l] {
            AbsoluteRuleReference::TopLevel { scope_name } => !fulls[0].contains(scope_name@),
            AbsoluteRuleReference::Repository { scope_name, .. } => !fulls[0].contains(scope_name@),
        },
        match (queues[n + 1int][k], queues[m + 1int][l]) {
            (AbsoluteRuleReference::TopLevel { scope_name: a }, AbsoluteRuleReference::TopLevel { scope_name: b }) => a@ != b@,
            (AbsoluteRuleReference::TopLevel { scope_name: a }, AbsoluteRuleReference::Repository { scope_name: b, .. }) => a@ != b@,
            (AbsoluteRuleReference::Repository { .. }, AbsoluteRuleReference::Repository { .. }) => reference_key(queues[n + 1int][k])
                != reference_key(queues[m + 1int][l]),
            _ => true,
        },
{
    lemma_run_follows_requests(refs, queues, fulls, partials, n);
    lemma_run_follows_requests(refs, queues, fulls, partials, m);
    lemma_rounds_queue_each_request_once(refs, fulls[0], partials[0], n, m, k, l);
}

} // verus!
