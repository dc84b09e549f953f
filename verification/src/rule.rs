use vstd::prelude::*;

use std::sync::Arc;

use crate::captures::{back_references_fit, back_references_replaced, captures_replaced, replace_captures, CaptureIndex};
use crate::raw_grammar::{Location, RuleId};
use crate::compiled_rule::CompiledRule;
use crate::regexp::{
    compile_sources, compiled_from, find_placeholder_from, has_captures, item_resolved, item_rules, list_compiles, resolve_anchors_from,
    rewrite_end_anchor_from, RegExpSource,
};
use crate::rules::opt_view;
use crate::text::copy_string;

verus! {

/// What a compiled grammar pattern stands for in a scanner: a rule's own
/// pattern, or the end or while pattern of the rule on top of the stack.
#[derive(Clone, Copy, Debug, PartialEq, Eq)]
pub enum RuleScannerId {
    Rule(RuleId),
    End,
    While,
}

/// What every rule has: where it was defined, its identity, its name and
/// content name, and whether each holds capture placeholders.
pub struct RuleData {
    pub location: Option<Location>,
    pub id: RuleId,
    pub name: Option<String>,
    pub name_is_capturing: bool,
    pub content_name: Option<String>,
    pub content_name_is_capturing: bool,
}

/// Whether a name holds a capture placeholder.
pub open spec fn is_capturing(name: Option<String>) -> bool {
    match name {
        None => false,
        Some(s) => find_placeholder_from(s@, 0) is Some,
    }
}

/// Whether `d` is the data made from these values.
pub open spec fn data_of(d: RuleData, location: Option<Location>, id: RuleId, name: Option<String>, content_name: Option<String>) -> bool {
    &&& d.location == location
    &&& d.id == id
    &&& d.name == name
    &&& d.content_name == content_name
    &&& d.name_is_capturing == is_capturing(name)
    &&& d.content_name_is_capturing == is_capturing(content_name)
}

/// The name a rule gives a match: its placeholders filled from the
/// captures where it has some and the line and captures are given.
pub open spec fn name_for(name: Option<String>, capturing: bool, line: Option<Seq<char>>, caps: Option<Seq<CaptureIndex>>) -> Option<
    Seq<char>,
> {
    match name {
        None => None,
        Some(n) => if capturing && line is Some && caps is Some {
            Some(captures_replaced(n@, line->Some_0, caps->Some_0, 0))
        } else {
            Some(n@)
        },
    }
}

fn opt_str(s: &Option<String>) -> (r: Option<&str>)
    ensures
        match (r, *s) {
            (Some(a), Some(b)) => a@ == b@,
            (None, None) => true,
            _ => false,
        },
{
    match s {
        Some(x) => Some(x.as_str()),
        None => None,
    }
}

impl RuleData {
    fn new(location: Option<Location>, id: RuleId, name: Option<String>, content_name: Option<String>) -> (r: RuleData)
        ensures
            data_of(r, location, id, name, content_name),
    {
        let name_is_capturing = has_captures(opt_str(&name));
        let content_name_is_capturing = has_captures(opt_str(&content_name));
        RuleData { location, id, name, name_is_capturing, content_name, content_name_is_capturing }
    }

    fn get_name(&self, line_text: Option<&str>, capture_indices: Option<&[CaptureIndex]>) -> (r: Option<String>)
        ensures
            opt_view(r) == name_for(
                self.name,
                self.name_is_capturing,
                match line_text {
                    Some(t) => Some(t@),
                    None => None,
                },
                match capture_indices {
                    Some(c) => Some(c@),
                    None => None,
                },
            ),
    {
        let name = match &self.name {
            Some(n) => n,
            None => {
                return None;
            },
        };
        if !self.name_is_capturing {
            return Some(copy_string(name));
        }
        match (line_text, capture_indices) {
            (Some(line), Some(caps)) => Some(replace_captures(name.as_str(), line, caps)),
            _ => Some(copy_string(name)),
        }
    }

    fn get_content_name(&self, line_text: &str, capture_indices: &[CaptureIndex]) -> (r: Option<String>)
        ensures
            opt_view(r) == name_for(self.content_name, self.content_name_is_capturing, Some(line_text@), Some(capture_indices@)),
    {
        let name = match &self.content_name {
            Some(n) => n,
            None => {
                return None;
            },
        };
        if !self.content_name_is_capturing {
            return Some(copy_string(name));
        }
        Some(replace_captures(name.as_str(), line_text, capture_indices))
    }
}

/// A rule for a capture group: its scopes, and the rule that tokenizes
/// the captured text again, where there is one.
pub struct CaptureRule {
    pub data: RuleData,
    pub retokenize_captured_with_rule_id: Option<RuleId>,
}

impl CaptureRule {
    pub fn new(
        location: Option<Location>,
        id: RuleId,
        name: Option<String>,
        content_name: Option<String>,
        retokenize_captured_with_rule_id: Option<RuleId>,
    ) -> (r: CaptureRule)
        ensures
            data_of(r.data, location, id, name, content_name),
            r.retokenize_captured_with_rule_id == retokenize_captured_with_rule_id,
    {
        CaptureRule { data: RuleData::new(location, id, name, content_name), retokenize_captured_with_rule_id }
    }
}

/// The source a pattern was made from, as `RegExpSource::new` keeps it.
pub open spec fn kept_source(s: Seq<char>) -> Seq<char> {
    rewrite_end_anchor_from(s, 0)
}

/// A rule that matches one pattern.
pub struct MatchRule {
    pub data: RuleData,
    pub match_source: RegExpSource<RuleScannerId>,
    pub captures: Vec<Option<Arc<CaptureRule>>>,
}

impl MatchRule {
    pub fn new(
        location: Option<Location>,
        id: RuleId,
        name: Option<String>,
        match_pattern: &str,
        captures: Vec<Option<Arc<CaptureRule>>>,
    ) -> (r: MatchRule)
        ensures
            data_of(r.data, location, id, name, None),
            r.match_source.source_chars() == kept_source(match_pattern@),
            r.match_source.spec_rule_id() == RuleScannerId::Rule(id),
            r.match_source.wf(),
            r.captures@ == captures@,
    {
        MatchRule {
            data: RuleData::new(location, id, name, None),
            match_source: RegExpSource::new(match_pattern, RuleScannerId::Rule(id)),
            captures,
        }
    }

    /// The pattern's source.
    pub fn debug_match_reg_exp(&self) -> (r: &str)
        ensures
            r@ == self.match_source.source_chars(),
    {
        self.match_source.source_str()
    }
}

/// The nested rules that a list of patterns compiled to, and whether some
/// pattern gave none.
#[derive(Clone, Debug, Default, PartialEq, Eq)]
pub struct CompilePatternsResult {
    pub patterns: Vec<RuleId>,
    pub has_missing_patterns: bool,
}

/// A rule that only holds other rules.
pub struct IncludeOnlyRule {
    pub data: RuleData,
    pub has_missing_patterns: bool,
    pub patterns: Vec<RuleId>,
}

impl IncludeOnlyRule {
    pub fn new(
        location: Option<Location>,
        id: RuleId,
        name: Option<String>,
        content_name: Option<String>,
        patterns: CompilePatternsResult,
    ) -> (r: IncludeOnlyRule)
        ensures
            data_of(r.data, location, id, name, content_name),
            r.has_missing_patterns == patterns.has_missing_patterns,
            r.patterns@ == patterns.patterns@,
    {
        IncludeOnlyRule {
            data: RuleData::new(location, id, name, content_name),
            has_missing_patterns: patterns.has_missing_patterns,
            patterns: patterns.patterns,
        }
    }
}

/// What a begin/end rule is made from.
pub struct BeginEndRuleOptions {
    pub location: Option<Location>,
    pub id: RuleId,
    pub name: Option<String>,
    pub content_name: Option<String>,
    pub begin: String,
    pub begin_captures: Vec<Option<Arc<CaptureRule>>>,
    pub end: Option<String>,
    pub end_captures: Vec<Option<Arc<CaptureRule>>>,
    pub apply_end_pattern_last: bool,
    pub patterns: CompilePatternsResult,
}

/// A rule from a begin pattern to an end pattern.
pub struct BeginEndRule {
    pub data: RuleData,
    pub begin: RegExpSource<RuleScannerId>,
    pub begin_captures: Vec<Option<Arc<CaptureRule>>>,
    pub end: RegExpSource<RuleScannerId>,
    pub end_has_back_references: bool,
    pub end_captures: Vec<Option<Arc<CaptureRule>>>,
    pub apply_end_pattern_last: bool,
    pub has_missing_patterns: bool,
    pub patterns: Vec<RuleId>,
}

/// The end pattern of a rule that has none: one that never matches.
pub open spec fn missing_end() -> Seq<char> {
    seq!['\u{ffff}']
}

impl BeginEndRule {
    pub fn new(options: BeginEndRuleOptions) -> (r: BeginEndRule)
        ensures
            data_of(r.data, options.location, options.id, options.name, options.content_name),
            r.begin.source_chars() == kept_source(options.begin@),
            r.begin.spec_rule_id() == RuleScannerId::Rule(options.id),
            r.begin.wf(),
            r.end.source_chars() == kept_source(
                match options.end {
                    Some(e) => e@,
                    None => missing_end(),
                },
            ),
            r.end.spec_rule_id() == RuleScannerId::End,
            r.end.wf(),
            r.end_has_back_references == r.end.spec_has_back_refs(),
            r.begin_captures@ == options.begin_captures@,
            r.end_captures@ == options.end_captures@,
            r.apply_end_pattern_last == options.apply_end_pattern_last,
            r.has_missing_patterns == options.patterns.has_missing_patterns,
            r.patterns@ == options.patterns.patterns@,
    {
        let BeginEndRuleOptions {
            location,
            id,
            name,
            content_name,
            begin,
            begin_captures,
            end,
            end_captures,
            apply_end_pattern_last,
            patterns,
        } = options;
        let end_source = match &end {
            Some(e) => RegExpSource::new(e.as_str(), RuleScannerId::End),
            None => {
                let missing = "\u{ffff}";
                proof {
                    reveal_strlit("\u{ffff}");
                }
                assert(missing@ =~= missing_end());
                RegExpSource::new(missing, RuleScannerId::End)
            },
        };
        let end_has_back_references = end_source.has_back_refs();
        BeginEndRule {
            data: RuleData::new(location, id, name, content_name),
            begin: RegExpSource::new(begin.as_str(), RuleScannerId::Rule(id)),
            begin_captures,
            end: end_source,
            end_has_back_references,
            end_captures,
            apply_end_pattern_last,
            has_missing_patterns: patterns.has_missing_patterns,
            patterns: patterns.patterns,
        }
    }

    /// The begin pattern's source.
    pub fn debug_begin_reg_exp(&self) -> (r: &str)
        ensures
            r@ == self.begin.source_chars(),
    {
        self.begin.source_str()
    }

    /// The end pattern's source.
    pub fn debug_end_reg_exp(&self) -> (r: &str)
        ensures
            r@ == self.end.source_chars(),
    {
        self.end.source_str()
    }

    /// The end pattern with its back references replaced by what the begin
    /// match captured.
    pub fn get_end_with_resolved_back_references(&self, line_text: &str, capture_indices: &[CaptureIndex]) -> (r: String)
        requires
            back_references_fit(self.end.source_chars()),
        ensures
            r@ == back_references_replaced(self.end.source_chars(), line_text@, capture_indices@, 0),
    {
        self.end.resolve_back_references(line_text, capture_indices)
    }
}

/// What a begin/while rule is made from.
pub struct BeginWhileRuleOptions {
    pub location: Option<Location>,
    pub id: RuleId,
    pub name: Option<String>,
    pub content_name: Option<String>,
    pub begin: String,
    pub begin_captures: Vec<Option<Arc<CaptureRule>>>,
    pub while_pattern: String,
    pub while_captures: Vec<Option<Arc<CaptureRule>>>,
    pub patterns: CompilePatternsResult,
}

/// A rule from a begin pattern over the lines that its while pattern
/// matches at their start.
pub struct BeginWhileRule {
    pub data: RuleData,
    pub begin: RegExpSource<RuleScannerId>,
    pub begin_captures: Vec<Option<Arc<CaptureRule>>>,
    pub while_captures: Vec<Option<Arc<CaptureRule>>>,
    pub while_source: RegExpSource<RuleScannerId>,
    pub while_has_back_references: bool,
    pub has_missing_patterns: bool,
    pub patterns: Vec<RuleId>,
}

impl BeginWhileRule {
    pub fn new(options: BeginWhileRuleOptions) -> (r: BeginWhileRule)
        ensures
            data_of(r.data, options.location, options.id, options.name, options.content_name),
            r.begin.source_chars() == kept_source(options.begin@),
            r.begin.spec_rule_id() == RuleScannerId::Rule(options.id),
            r.begin.wf(),
            r.while_source.source_chars() == kept_source(options.while_pattern@),
            r.while_source.spec_rule_id() == RuleScannerId::While,
            r.while_source.wf(),
            r.while_has_back_references == r.while_source.spec_has_back_refs(),
            r.begin_captures@ == options.begin_captures@,
            r.while_captures@ == options.while_captures@,
            r.has_missing_patterns == options.patterns.has_missing_patterns,
            r.patterns@ == options.patterns.patterns@,
    {
        let BeginWhileRuleOptions {
            location,
            id,
            name,
            content_name,
            begin,
            begin_captures,
            while_pattern,
            while_captures,
            patterns,
        } = options;
        let while_source = RegExpSource::new(while_pattern.as_str(), RuleScannerId::While);
        let while_has_back_references = while_source.has_back_refs();
        BeginWhileRule {
            data: RuleData::new(location, id, name, content_name),
            begin: RegExpSource::new(begin.as_str(), RuleScannerId::Rule(id)),
            begin_captures,
            while_captures,
            while_source,
            while_has_back_references,
            has_missing_patterns: patterns.has_missing_patterns,
            patterns: patterns.patterns,
        }
    }

    /// The begin pattern's source.
    pub fn debug_begin_reg_exp(&self) -> (r: &str)
        ensures
            r@ == self.begin.source_chars(),
    {
        self.begin.source_str()
    }

    /// The while pattern's source.
    pub fn debug_while_reg_exp(&self) -> (r: &str)
        ensures
            r@ == self.while_source.source_chars(),
    {
        self.while_source.source_str()
    }

    /// The while pattern with its back references replaced by what the
    /// begin match captured.
    pub fn get_while_with_resolved_back_references(&self, line_text: &str, capture_indices: &[CaptureIndex]) -> (r: String)
        requires
            back_references_fit(self.while_source.source_chars()),
        ensures
            r@ == back_references_replaced(self.while_source.source_chars(), line_text@, capture_indices@, 0),
    {
        self.while_source.resolve_back_references(line_text, capture_indices)
    }
}

/// A compiled rule of a grammar.
pub enum Rule {
    Capture(Arc<CaptureRule>),
    Match(MatchRule),
    IncludeOnly(IncludeOnlyRule),
    BeginEnd(BeginEndRule),
    BeginWhile(BeginWhileRule),
}

/// The data of a rule.
pub open spec fn rule_data(r: Rule) -> RuleData {
    match r {
        Rule::Capture(c) => c.data,
        Rule::Match(m) => m.data,
        Rule::IncludeOnly(i) => i.data,
        Rule::BeginEnd(b) => b.data,
        Rule::BeginWhile(w) => w.data,
    }
}

impl Rule {
    fn data(&self) -> (r: &RuleData)
        ensures
            *r == rule_data(*self),
    {
        match self {
            Rule::Capture(c) => &c.data,
            Rule::Match(m) => &m.data,
            Rule::IncludeOnly(i) => &i.data,
            Rule::BeginEnd(b) => &b.data,
            Rule::BeginWhile(w) => &w.data,
        }
    }

    /// The rule's identity.
    pub fn id(&self) -> (r: RuleId)
        ensures
            r == rule_data(*self).id,
    {
        self.data().id
    }

    /// Where the rule was defined.
    pub fn location(&self) -> (r: Option<&Location>)
        ensures
            match (r, rule_data(*self).location) {
                (Some(a), Some(b)) => *a == b,
                (None, None) => true,
                _ => false,
            },
    {
        self.data().location.as_ref()
    }

    /// The name the rule gives a match (see `name_for`).
    pub fn get_name(&self, line_text: Option<&str>, capture_indices: Option<&[CaptureIndex]>) -> (r: Option<String>)
        ensures
            opt_view(r) == name_for(
                rule_data(*self).name,
                rule_data(*self).name_is_capturing,
                match line_text {
                    Some(t) => Some(t@),
                    None => None,
                },
                match capture_indices {
                    Some(c) => Some(c@),
                    None => None,
                },
            ),
    {
        self.data().get_name(line_text, capture_indices)
    }

    /// The content name the rule gives what it spans (see `name_for`).
    pub fn get_content_name(&self, line_text: &str, capture_indices: &[CaptureIndex]) -> (r: Option<String>)
        ensures
            opt_view(r) == name_for(
                rule_data(*self).content_name,
                rule_data(*self).content_name_is_capturing,
                Some(line_text@),
                Some(capture_indices@),
            ),
    {
        self.data().get_content_name(line_text, capture_indices)
    }

    pub fn as_capture(&self) -> (r: Option<&Arc<CaptureRule>>)
        ensures
            match *self {
                Rule::Capture(c) => r == Some(&c),
                _ => r is None,
            },
    {
        match self {
            Rule::Capture(c) => Some(c),
            _ => None,
        }
    }

    pub fn as_match(&self) -> (r: Option<&MatchRule>)
        ensures
            match *self {
                Rule::Match(m) => r == Some(&m),
                _ => r is None,
            },
    {
        match self {
            Rule::Match(m) => Some(m),
            _ => None,
        }
    }

    pub fn as_include_only(&self) -> (r: Option<&IncludeOnlyRule>)
        ensures
            match *self {
                Rule::IncludeOnly(i) => r == Some(&i),
                _ => r is None,
            },
    {
        match self {
            Rule::IncludeOnly(i) => Some(i),
            _ => None,
        }
    }

    pub fn as_begin_end(&self) -> (r: Option<&BeginEndRule>)
        ensures
            match *self {
                Rule::BeginEnd(b) => r == Some(&b),
                _ => r is None,
            },
    {
        match self {
            Rule::BeginEnd(b) => Some(b),
            _ => None,
        }
    }

    pub fn as_begin_while(&self) -> (r: Option<&BeginWhileRule>)
        ensures
            match *self {
                Rule::BeginWhile(w) => r == Some(&w),
                _ => r is None,
            },
    {
        match self {
            Rule::BeginWhile(w) => Some(w),
            _ => None,
        }
    }
}

/// The rules of a grammar by identity: identity `n` is slot `n - 1`, which
/// is reserved first and filled once.
pub struct RuleRegistry {
    rules: Vec<Option<Rule>>,
}

impl RuleRegistry {
    /// The slots, in order of identity.
    pub closed spec fn slots(&self) -> Seq<Option<Rule>> {
        self.rules@
    }

    pub fn new() -> (r: RuleRegistry)
        ensures
            r.slots().len() == 0,
    {
        RuleRegistry { rules: Vec::new() }
    }

    /// Reserves the next identity, one more than the number of slots.
    pub fn reserve_rule(&mut self) -> (r: RuleId)
        requires
            old(self).slots().len() < u32::MAX,
        ensures
            r.0 == old(self).slots().len() + 1,
            final(self).slots() == old(self).slots().push(None),
    {
        let id = RuleId((self.rules.len() + 1) as u32);
        self.rules.push(None);
        id
    }

    /// Reserves the next identity and fills it with the rule that
    /// `factory` makes for it.
    pub fn register_rule<F: FnOnce(RuleId) -> Rule>(&mut self, factory: F) -> (r: RuleId)
        requires
            old(self).slots().len() < u32::MAX,
            forall|id: RuleId| factory.requires((id,)),
            forall|id: RuleId, rule: Rule| factory.ensures((id,), rule) ==> rule_data(rule).id == id,
        ensures
            r.0 == old(self).slots().len() + 1,
            final(self).slots().len() == old(self).slots().len() + 1,
            forall|i: int| 0 <= i < old(self).slots().len() ==> final(self).slots()[i] == old(self).slots()[i],
            final(self).slots()[old(self).slots().len() as int] matches Some(rule) && factory.ensures((r,), rule),
    {
        let id = self.reserve_rule();
        let rule = factory(id);
        self.set_rule(id, rule);
        id
    }

    /// Fills the reserved, vacant slot of the rule's identity.
    pub fn set_rule(&mut self, id: RuleId, rule: Rule)
        requires
            rule_data(rule).id == id,
            1 <= id.0 <= old(self).slots().len(),
            old(self).slots()[id.0 - 1] is None,
        ensures
            final(self).slots() == old(self).slots().update(id.0 - 1, Some(rule)),
    {
        let index = (id.0 - 1) as usize;
        self.rules.set(index, Some(rule));
    }

    /// The rule of a filled slot.
    pub fn get_rule(&self, id: RuleId) -> (r: &Rule)
        requires
            1 <= id.0 <= self.slots().len(),
            self.slots()[id.0 - 1] is Some,
        ensures
            Some(*r) == self.slots()[id.0 - 1],
    {
        let index = (id.0 - 1) as usize;
        match &self.rules[index] {
            Some(rule) => rule,
            None => unreached(),
        }
    }

    /// The rule of a filled slot; none for an identity not reserved or
    /// not filled yet.
    pub fn try_get_rule(&self, id: RuleId) -> (r: Option<&Rule>)
        ensures
            match r {
                Some(rule) => 1 <= id.0 <= self.slots().len() && self.slots()[id.0 - 1] == Some(*rule),
                None => !(1 <= id.0 <= self.slots().len()) || self.slots()[id.0 - 1] is None,
            },
    {
        if id.0 == 0 || (id.0 as usize) > self.rules.len() {
            return None;
        }
        let index = (id.0 - 1) as usize;
        match &self.rules[index] {
            Some(rule) => Some(rule),
            None => None,
        }
    }

    /// The number of slots.
    pub fn len(&self) -> (r: usize)
        ensures
            r == self.slots().len(),
    {
        self.rules.len()
    }

    pub fn is_empty(&self) -> (r: bool)
        ensures
            r == (self.slots().len() == 0),
    {
        self.rules.len() == 0
    }
}

/// The rule under an identity, where it has one.
pub open spec fn slot_rule(slots: Seq<Option<Rule>>, id: RuleId) -> Option<Rule> {
    if 1 <= id.0 <= slots.len() {
        slots[id.0 - 1]
    } else {
        None
    }
}

/// The patterns that a rule puts in a scanner, with at most `fuel` levels
/// of rules that only hold others: its match pattern, or its begin
/// pattern, or those of the rules it holds.  None for a capture rule, an
/// identity without a rule, or nesting deeper than the fuel.
pub open spec fn collected(slots: Seq<Option<Rule>>, id: RuleId, fuel: nat) -> Option<Seq<RegExpSource<RuleScannerId>>>
    decreases fuel, 0nat,
{
    match slot_rule(slots, id) {
        Some(Rule::Match(m)) => Some(seq![m.match_source]),
        Some(Rule::BeginEnd(b)) => Some(seq![b.begin]),
        Some(Rule::BeginWhile(w)) => Some(seq![w.begin]),
        Some(Rule::IncludeOnly(i)) => if fuel == 0 {
            None
        } else {
            collected_list(slots, i.patterns@, (fuel - 1) as nat)
        },
        _ => None,
    }
}

/// The patterns of the rules `ids`, in order.
pub open spec fn collected_list(slots: Seq<Option<Rule>>, ids: Seq<RuleId>, fuel: nat) -> Option<Seq<RegExpSource<RuleScannerId>>>
    decreases fuel, ids.len() + 1,
{
    if ids.len() == 0 {
        Some(Seq::empty())
    } else {
        match (collected_list(slots, ids.drop_last(), fuel), collected(slots, ids.last(), fuel)) {
            (Some(a), Some(b)) => Some(a + b),
            _ => None,
        }
    }
}

/// The text an end or while pattern is compiled from: where it has back
/// references, the resolved text given (or one that never matches), its
/// anchors resolved where it has some; else its own text.
pub open spec fn end_text(e: RegExpSource<RuleScannerId>, has_back_references: bool, given: Option<Seq<char>>, allow_a: bool, allow_g: bool) -> Seq<
    char,
> {
    if has_back_references {
        let src = match given {
            Some(t) => t,
            None => missing_end(),
        };
        if e.spec_has_anchor() {
            resolve_anchors_from(src, 0, allow_a, allow_g)
        } else {
            src
        }
    } else {
        e.resolved(allow_a, allow_g)
    }
}

/// The patterns and rules of the scanner that a rule compiles to: those
/// its patterns collect (its match pattern for a match rule), and for a
/// begin/end rule its end pattern last or first as it asks.
pub open spec fn rule_patterns(slots: Seq<Option<Rule>>, r: Rule, given: Option<Seq<char>>, allow_a: bool, allow_g: bool) -> Option<
    (Seq<Seq<char>>, Seq<RuleScannerId>),
> {
    let fuel = slots.len() as nat;
    match r {
        Rule::Match(m) => Some((item_resolved(seq![m.match_source], allow_a, allow_g), item_rules(seq![m.match_source]))),
        Rule::IncludeOnly(i) => match collected_list(slots, i.patterns@, fuel) {
            Some(l) => Some((item_resolved(l, allow_a, allow_g), item_rules(l))),
            None => None,
        },
        Rule::BeginWhile(w) => match collected_list(slots, w.patterns@, fuel) {
            Some(l) => Some((item_resolved(l, allow_a, allow_g), item_rules(l))),
            None => None,
        },
        Rule::BeginEnd(b) => match collected_list(slots, b.patterns@, fuel) {
            Some(l) => {
                let e = end_text(b.end, b.end_has_back_references, given, allow_a, allow_g);
                if b.apply_end_pattern_last {
                    Some((item_resolved(l, allow_a, allow_g).push(e), item_rules(l).push(b.end.spec_rule_id())))
                } else {
                    Some((seq![e] + item_resolved(l, allow_a, allow_g), seq![b.end.spec_rule_id()] + item_rules(l)))
                }
            },
            None => None,
        },
        Rule::Capture(_) => None,
    }
}

proof fn lemma_collected_prefix(slots: Seq<Option<Rule>>, ids: Seq<RuleId>, fuel: nat, k: int)
    requires
        0 <= k <= ids.len(),
        collected_list(slots, ids, fuel) is Some,
    ensures
        collected_list(slots, ids.take(k), fuel) is Some,
        k < ids.len() ==> collected(slots, ids[k], fuel) is Some && collected_list(slots, ids.take(k + 1), fuel) == Some(
            collected_list(slots, ids.take(k), fuel)->Some_0 + collected(slots, ids[k], fuel)->Some_0,
        ),
    decreases ids.len() - k,
{
    if k == ids.len() {
        assert(ids.take(k) =~= ids);
    } else {
        lemma_collected_prefix(slots, ids, fuel, k + 1);
        let t = ids.take(k + 1);
        assert(t.drop_last() =~= ids.take(k));
        assert(t.last() == ids[k]);
    }
}

fn collect_one(registry: &RuleRegistry, id: RuleId, out: &mut Vec<RegExpSource<RuleScannerId>>, Ghost(fuel): Ghost<nat>)
    requires
        collected(registry.slots(), id, fuel) is Some,
    ensures
        final(out)@ == old(out)@ + collected(registry.slots(), id, fuel)->Some_0,
    decreases fuel, 0nat,
{
    let rule = registry.get_rule(id);
    match rule {
        Rule::Match(m) => {
            out.push(m.match_source.copy());
        },
        Rule::BeginEnd(b) => {
            out.push(b.begin.copy());
        },
        Rule::BeginWhile(w) => {
            out.push(w.begin.copy());
        },
        Rule::IncludeOnly(i) => {
            collect_ids(registry, &i.patterns, out, Ghost((fuel - 1) as nat));
        },
        Rule::Capture(_) => {},
    }
}

fn collect_ids(registry: &RuleRegistry, ids: &Vec<RuleId>, out: &mut Vec<RegExpSource<RuleScannerId>>, Ghost(fuel): Ghost<nat>)
    requires
        collected_list(registry.slots(), ids@, fuel) is Some,
    ensures
        final(out)@ == old(out)@ + collected_list(registry.slots(), ids@, fuel)->Some_0,
    decreases fuel, ids@.len() + 1,
{
    let ghost start = out@;
    let mut k: usize = 0;
    proof {
        lemma_collected_prefix(registry.slots(), ids@, fuel, 0);
        assert(ids@.take(0) =~= Seq::<RuleId>::empty());
        assert(start + Seq::<RegExpSource<RuleScannerId>>::empty() =~= start);
    }
    while k < ids.len()
        invariant
            k <= ids@.len(),
            collected_list(registry.slots(), ids@, fuel) is Some,
            collected_list(registry.slots(), ids@.take(k as int), fuel) is Some,
            out@ == start + collected_list(registry.slots(), ids@.take(k as int), fuel)->Some_0,
        decreases ids.len() - k,
    {
        proof {
            lemma_collected_prefix(registry.slots(), ids@, fuel, k as int);
        }
        let ghost before = out@;
        collect_one(registry, ids[k], out, Ghost(fuel));
        proof {
            assert(out@ =~= start + collected_list(registry.slots(), ids@.take(k + 1), fuel)->Some_0);
        }
        k += 1;
    }
    proof {
        assert(ids@.take(k as int) =~= ids@);
    }
}

/// The pattern list with `e` at the end or at the start.
proof fn lemma_item_lists(l: Seq<RegExpSource<RuleScannerId>>, e: RegExpSource<RuleScannerId>, allow_a: bool, allow_g: bool)
    ensures
        item_resolved(l.push(e), allow_a, allow_g) == item_resolved(l, allow_a, allow_g).push(e.resolved(allow_a, allow_g)),
        item_rules(l.push(e)) == item_rules(l).push(e.spec_rule_id()),
        item_resolved(seq![e] + l, allow_a, allow_g) == seq![e.resolved(allow_a, allow_g)] + item_resolved(l, allow_a, allow_g),
        item_rules(seq![e] + l) == seq![e.spec_rule_id()] + item_rules(l),
{
    assert(item_resolved(l.push(e), allow_a, allow_g) =~= item_resolved(l, allow_a, allow_g).push(e.resolved(allow_a, allow_g)));
    assert(item_rules(l.push(e)) =~= item_rules(l).push(e.spec_rule_id()));
    assert(item_resolved(seq![e] + l, allow_a, allow_g) =~= seq![e.resolved(allow_a, allow_g)] + item_resolved(l, allow_a, allow_g));
    assert(item_rules(seq![e] + l) =~= seq![e.spec_rule_id()] + item_rules(l));
}

/// An end or while pattern as compiled: where it has back references, its
/// source replaced by the text given (or one that never matches).
fn end_item(e: &RegExpSource<RuleScannerId>, has_back_references: bool, given: Option<&str>) -> (r: RegExpSource<RuleScannerId>)
    requires
        e.wf(),
    ensures
        forall|a: bool, g: bool| #[trigger] r.resolved(a, g) == end_text(*e, has_back_references, match given {
            Some(t) => Some(t@),
            None => None,
        }, a, g),
        r.spec_rule_id() == e.spec_rule_id(),
{
    let mut item = e.copy();
    if has_back_references {
        let text = match given {
            Some(t) => t,
            None => {
                proof {
                    reveal_strlit("\u{ffff}");
                }
                "\u{ffff}"
            },
        };
        assert(text@ == match given {
            Some(t) => t@,
            None => missing_end(),
        });
        item.set_source(text);
    }
    item
}

impl Rule {
    /// The scanner of the rule's patterns (see `rule_patterns`), with `\A`
    /// and `\G` kept or disabled as asked; `end_regex_source` stands for an
    /// end pattern with back references.  None where the scanner refuses
    /// the patterns.
    pub fn compile_ag(&self, registry: &RuleRegistry, end_regex_source: Option<&str>, allow_a: bool, allow_g: bool) -> (r: Option<
        CompiledRule<RuleScannerId>,
    >)
        requires
            rule_patterns(registry.slots(), *self, match end_regex_source {
                Some(t) => Some(t@),
                None => None,
            }, allow_a, allow_g) is Some,
            self matches Rule::BeginEnd(b) ==> b.end.wf(),
        ensures
            match rule_patterns(registry.slots(), *self, match end_regex_source {
                Some(t) => Some(t@),
                None => None,
            }, allow_a, allow_g) {
                Some((patterns, rules)) => {
                    &&& (r is Some <==> list_compiles(patterns))
                    &&& (r matches Some(c) ==> compiled_from(c, patterns, rules))
                },
                None => false,
            },
    {
        let ghost fuel = registry.slots().len() as nat;
        let mut items: Vec<RegExpSource<RuleScannerId>> = Vec::new();
        match self {
            Rule::Match(m) => {
                items.push(m.match_source.copy());
                assert(items@ =~= seq![m.match_source]);
            },
            Rule::IncludeOnly(i) => {
                collect_ids(registry, &i.patterns, &mut items, Ghost(fuel));
                assert(items@ =~= collected_list(registry.slots(), i.patterns@, fuel)->Some_0);
            },
            Rule::BeginWhile(w) => {
                collect_ids(registry, &w.patterns, &mut items, Ghost(fuel));
                assert(items@ =~= collected_list(registry.slots(), w.patterns@, fuel)->Some_0);
            },
            Rule::BeginEnd(b) => {
                collect_ids(registry, &b.patterns, &mut items, Ghost(fuel));
                let ghost l = items@;
                assert(l =~= collected_list(registry.slots(), b.patterns@, fuel)->Some_0);
                let end = end_item(&b.end, b.end_has_back_references, end_regex_source);
                proof {
                    lemma_item_lists(l, end, allow_a, allow_g);
                }
                if b.apply_end_pattern_last {
                    items.push(end);
                } else {
                    items.insert(0, end);
                    assert(items@ =~= seq![end] + l);
                }
            },
            Rule::Capture(_) => {},
        }
        compile_sources(&items, allow_a, allow_g)
    }

    /// `compile_ag` with `\A` and `\G` kept.
    pub fn compile(&self, registry: &RuleRegistry, end_regex_source: Option<&str>) -> (r: Option<CompiledRule<RuleScannerId>>)
        requires
            rule_patterns(registry.slots(), *self, match end_regex_source {
                Some(t) => Some(t@),
                None => None,
            }, true, true) is Some,
            self matches Rule::BeginEnd(b) ==> b.end.wf(),
        ensures
            match rule_patterns(registry.slots(), *self, match end_regex_source {
                Some(t) => Some(t@),
                None => None,
            }, true, true) {
                Some((patterns, rules)) => {
                    &&& (r is Some <==> list_compiles(patterns))
                    &&& (r matches Some(c) ==> compiled_from(c, patterns, rules))
                },
                None => false,
            },
    {
        self.compile_ag(registry, end_regex_source, true, true)
    }
}

impl BeginWhileRule {
    /// The scanner of the while pattern alone (its back references
    /// replaced by the text given, or one that never matches).
    pub fn compile_while_ag(&self, end_regex_source: Option<&str>, allow_a: bool, allow_g: bool) -> (r: Option<CompiledRule<RuleScannerId>>)
        requires
            self.while_source.wf(),
        ensures
            ({
                let t = end_text(self.while_source, self.while_has_back_references, match end_regex_source {
                    Some(t) => Some(t@),
                    None => None,
                }, allow_a, allow_g);
                &&& (r is Some <==> list_compiles(seq![t]))
                &&& (r matches Some(c) ==> compiled_from(c, seq![t], seq![self.while_source.spec_rule_id()]))
            }),
    {
        let item = end_item(&self.while_source, self.while_has_back_references, end_regex_source);
        let mut items: Vec<RegExpSource<RuleScannerId>> = Vec::new();
        items.push(item);
        proof {
            assert(items@ =~= seq![item]);
            assert(item_resolved(items@, allow_a, allow_g) =~= seq![item.resolved(allow_a, allow_g)]);
            assert(item_rules(items@) =~= seq![item.spec_rule_id()]);
        }
        compile_sources(&items, allow_a, allow_g)
    }

    /// `compile_while_ag` with `\A` and `\G` kept.
    pub fn compile_while(&self, end_regex_source: Option<&str>) -> (r: Option<CompiledRule<RuleScannerId>>)
        requires
            self.while_source.wf(),
        ensures
            ({
                let t = end_text(self.while_source, self.while_has_back_references, match end_regex_source {
                    Some(t) => Some(t@),
                    None => None,
                }, true, true);
                &&& (r is Some <==> list_compiles(seq![t]))
                &&& (r matches Some(c) ==> compiled_from(c, seq![t], seq![self.while_source.spec_rule_id()]))
            }),
    {
        self.compile_while_ag(end_regex_source, true, true)
    }
}

} // verus!
