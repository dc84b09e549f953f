use vstd::prelude::*;

use std::sync::Arc;

use crate::attributed_scope_stack::{opt_attributed_wf, opt_level_names, AttributedScopeStack, AttributedScopeStackFrame};
use crate::raw_grammar::RuleId;
use crate::rules::opt_view;
use crate::text::copy_opt_string;
use crate::theme::same_arc;

verus! {

/// The tokenizer's state at the end of a line: the rules that are open,
/// innermost last, each with the scopes it pushed.  States share their
/// parents.
#[derive(Debug)]
pub struct StateStack {
    pub parent: Option<Arc<StateStack>>,
    pub rule_id: RuleId,
    pub enter_pos: isize,
    pub anchor_pos: isize,
    pub begin_rule_captured_eol: bool,
    pub end_rule: Option<String>,
    pub name_scopes_list: Option<Arc<AttributedScopeStack>>,
    pub content_name_scopes_list: Option<Arc<AttributedScopeStack>>,
    pub depth: usize,
}

/// A state as plain values, without its parent: the rule, the scopes
/// that its name list and its content-name list add, and the end rule.
#[derive(Clone, Debug, PartialEq, Eq)]
pub struct StateStackFrame {
    pub rule_id: u32,
    pub enter_pos: Option<isize>,
    pub anchor_pos: Option<isize>,
    pub begin_rule_captured_eol: bool,
    pub end_rule: Option<String>,
    pub name_scopes_list: Vec<AttributedScopeStackFrame>,
    pub content_name_scopes_list: Vec<AttributedScopeStackFrame>,
}

/// How to turn one state into another: the number of states to pop, then
/// the frames to push, outermost first.
#[derive(Clone, Debug, PartialEq, Eq)]
pub struct StackDiff {
    pub pops: usize,
    pub new_frames: Vec<StateStackFrame>,
}

/// What a level decides of the tokenizer: its rule, its end rule and
/// whether its begin captured the end of the line.
pub open spec fn level_core(s: StateStack) -> (u32, Option<Seq<char>>, bool) {
    (s.rule_id.0, opt_view(s.end_rule), s.begin_rule_captured_eol)
}

/// The same of a frame.
pub open spec fn frame_core(f: StateStackFrame) -> (u32, Option<Seq<char>>, bool) {
    (f.rule_id, opt_view(f.end_rule), f.begin_rule_captured_eol)
}

pub open spec fn frames_core(fs: Seq<StateStackFrame>) -> Seq<(u32, Option<Seq<char>>, bool)> {
    fs.map_values(|f: StateStackFrame| frame_core(f))
}

/// The levels of a state, outermost first.
pub open spec fn stack_core(s: StateStack) -> Seq<(u32, Option<Seq<char>>, bool)>
    decreases s,
{
    match s.parent {
        None => seq![level_core(s)],
        Some(p) => stack_core(*p).push(level_core(s)),
    }
}

pub open spec fn opt_core(s: Option<Arc<StateStack>>) -> Seq<(u32, Option<Seq<char>>, bool)> {
    match s {
        Some(x) => stack_core(*x),
        None => Seq::empty(),
    }
}

/// The number of levels of a state.
pub open spec fn stack_depth(s: StateStack) -> nat
    decreases s,
{
    match s.parent {
        None => 1,
        Some(p) => 1 + stack_depth(*p),
    }
}

pub open spec fn opt_depth(s: Option<Arc<StateStack>>) -> nat {
    match s {
        Some(x) => stack_depth(*x),
        None => 0,
    }
}

/// Each level records its depth, and its scope lists are well formed.
pub open spec fn stack_wf(s: StateStack) -> bool
    decreases s,
{
    &&& s.depth == stack_depth(s)
    &&& opt_attributed_wf(s.name_scopes_list)
    &&& opt_attributed_wf(s.content_name_scopes_list)
    &&& match s.parent {
        None => true,
        Some(p) => stack_wf(*p),
    }
}

pub open spec fn opt_wf(s: Option<Arc<StateStack>>) -> bool {
    match s {
        Some(x) => stack_wf(*x),
        None => true,
    }
}

/// The parent of a state (none for no state).
pub open spec fn parent_of(s: Option<Arc<StateStack>>) -> Option<Arc<StateStack>> {
    match s {
        Some(x) => x.parent,
        None => None,
    }
}

/// The state after `k` pops.
pub open spec fn popped(s: Option<Arc<StateStack>>, k: nat) -> Option<Arc<StateStack>>
    decreases k,
{
    if k == 0 {
        s
    } else {
        match s {
            None => None,
            Some(x) => popped(x.parent, (k - 1) as nat),
        }
    }
}

/// Whether a state has no name scope list (or is no state).
pub open spec fn names_none(s: Option<Arc<StateStack>>) -> bool {
    match s {
        Some(x) => x.name_scopes_list is None,
        None => true,
    }
}

/// Whether a frame can be pushed on a state that has (`none` false) or
/// has not a name scope list: a scope list that starts from nothing starts
/// with a scope.
pub open spec fn frame_ok(none: bool, f: StateStackFrame) -> bool {
    &&& (none && f.name_scopes_list@.len() > 0 ==> f.name_scopes_list@[0].scope_names@.len() > 0)
    &&& (none && f.name_scopes_list@.len() == 0 && f.content_name_scopes_list@.len() > 0
        ==> f.content_name_scopes_list@[0].scope_names@.len() > 0)
}

/// Whether the frames can be pushed in order on such a state.
pub open spec fn frames_ok(none: bool, fs: Seq<StateStackFrame>) -> bool
    decreases fs.len(),
{
    if fs.len() == 0 {
        true
    } else {
        frame_ok(none, fs[0]) && frames_ok(none && fs[0].name_scopes_list@.len() == 0, fs.drop_first())
    }
}

/// Whether `d` turns `first` into `second`, level by level: popping its
/// pops from `first` leaves a state with the levels of a bottom part of
/// `second`, and its frames are the levels of the rest.
pub open spec fn diff_rebuilds(first: Option<Arc<StateStack>>, second: Option<Arc<StateStack>>, d: StackDiff) -> bool {
    &&& d.pops <= opt_depth(first)
    &&& opt_core(popped(first, d.pops as nat)) + frames_core(d.new_frames@) == opt_core(second)
}

/// Whether `r` is what applying `d` to `s` gives, level by level.
pub open spec fn applied(s: Option<Arc<StateStack>>, d: StackDiff, r: Option<Arc<StateStack>>) -> bool {
    &&& opt_wf(r)
    &&& opt_core(r) == opt_core(popped(s, d.pops as nat)) + frames_core(d.new_frames@)
}

/// The rule and end rule of a level.
pub open spec fn top_rule(s: StateStack) -> (u32, Option<Seq<char>>) {
    (s.rule_id.0, opt_view(s.end_rule))
}

/// The rule and end rule of each level, outermost first (what structural
/// equality compares).
pub open spec fn stack_rules(s: StateStack) -> Seq<(u32, Option<Seq<char>>)>
    decreases s,
{
    match s.parent {
        None => seq![top_rule(s)],
        Some(p) => stack_rules(*p).push(top_rule(s)),
    }
}

pub open spec fn opt_rules(s: Option<Arc<StateStack>>) -> Seq<(u32, Option<Seq<char>>)> {
    match s {
        Some(x) => stack_rules(*x),
        None => Seq::empty(),
    }
}

/// Whether `s` or one of its parents, walked while their enter position
/// is `enter_pos`, has the rule `rule_id`.
pub open spec fn same_rule_from(s: StateStack, rule_id: RuleId, enter_pos: isize) -> bool
    decreases s,
{
    if s.enter_pos != enter_pos {
        false
    } else if s.rule_id == rule_id {
        true
    } else {
        match s.parent {
            None => false,
            Some(p) => same_rule_from(*p, rule_id, enter_pos),
        }
    }
}

proof fn lemma_rules_len(s: Option<Arc<StateStack>>)
    ensures
        opt_rules(s).len() == opt_depth(s),
    decreases opt_depth(s),
{
    if let Some(x) = s {
        lemma_rules_len(parent_of(s));
        assert(opt_rules(s) == opt_rules(parent_of(s)).push(top_rule(*x)));
    }
}

/// Whether two states have the same rules and end rules at every level.
fn structural_equals(left: Option<&Arc<StateStack>>, right: Option<&Arc<StateStack>>) -> (r: bool)
    requires
        left matches Some(l) ==> stack_wf(**l),
        right matches Some(x) ==> stack_wf(**x),
    ensures
        r == (opt_rules(ref_state(left)) == opt_rules(ref_state(right))),
{
    let mut l: Option<Arc<StateStack>> = match left {
        Some(x) => Some(x.clone()),
        None => None,
    };
    let mut r: Option<Arc<StateStack>> = match right {
        Some(x) => Some(x.clone()),
        None => None,
    };
    loop
        invariant
            opt_wf(l),
            opt_wf(r),
            (opt_rules(ref_state(left)) == opt_rules(ref_state(right))) == (opt_rules(l) == opt_rules(r)),
        decreases opt_depth(l),
    {
        proof {
            lemma_rules_len(l);
            lemma_rules_len(r);
        }
        match (&l, &r) {
            (Some(a), Some(b)) => {
                if same_arc(a, b) {
                    return true;
                }
                if a.depth != b.depth || a.rule_id.0 != b.rule_id.0 || !opt_str_eq(&a.end_rule, &b.end_rule) {
                    proof {
                        assert(opt_rules(l) == opt_rules(parent_of(l)).push(top_rule(**a)));
                        assert(opt_rules(r) == opt_rules(parent_of(r)).push(top_rule(**b)));
                        if opt_rules(l) == opt_rules(r) {
                            assert(opt_rules(l).last() == top_rule(**a));
                            assert(opt_rules(r).last() == top_rule(**b));
                        }
                    }
                    return false;
                }
                let na = clone_state(&a.parent);
                let nb = clone_state(&b.parent);
                proof {
                    assert(opt_rules(l) == opt_rules(na).push(top_rule(**a)));
                    assert(opt_rules(r) == opt_rules(nb).push(top_rule(**b)));
                    assert(top_rule(**a) == top_rule(**b));
                    if opt_rules(l) == opt_rules(r) {
                        assert(opt_rules(na) =~= opt_rules(l).drop_last());
                        assert(opt_rules(nb) =~= opt_rules(r).drop_last());
                    }
                }
                l = na;
                r = nb;
            },
            (None, None) => {
                return true;
            },
            _ => {
                return false;
            },
        }
    }
}

pub open spec fn ref_state(s: Option<&Arc<StateStack>>) -> Option<Arc<StateStack>> {
    match s {
        Some(x) => Some(*x),
        None => None,
    }
}

fn opt_str_eq(a: &Option<String>, b: &Option<String>) -> (r: bool)
    ensures
        r == (opt_view(*a) == opt_view(*b)),
{
    match (a, b) {
        (Some(x), Some(y)) => crate::text::str_eq(x.as_str(), y.as_str()),
        (None, None) => true,
        _ => false,
    }
}

proof fn lemma_popped(s: Option<Arc<StateStack>>, k: nat)
    requires
        k <= opt_depth(s),
        opt_wf(s),
    ensures
        opt_wf(popped(s, k)),
        opt_depth(popped(s, k)) == opt_depth(s) - k,
        opt_core(popped(s, k)) == opt_core(s).take(opt_depth(s) - k),
        opt_core(s).len() == opt_depth(s),
    decreases k,
{
    lemma_core_len(s);
    if k == 0 {
        assert(opt_core(s).take(opt_depth(s) as int) =~= opt_core(s));
    } else {
        let x = s.unwrap();
        lemma_popped(parent_of(s), (k - 1) as nat);
        lemma_core_len(parent_of(s));
        assert(opt_core(s) == opt_core(parent_of(s)).push(level_core(*x)));
        assert(opt_core(parent_of(s)).take(opt_depth(parent_of(s)) - (k - 1)) =~= opt_core(s).take(opt_depth(s) - k));
    }
}

proof fn lemma_core_len(s: Option<Arc<StateStack>>)
    ensures
        opt_core(s).len() == opt_depth(s),
    decreases opt_depth(s),
{
    if let Some(x) = s {
        lemma_core_len(parent_of(s));
        assert(opt_core(s) == opt_core(parent_of(s)).push(level_core(*x)));
    }
}

proof fn lemma_popped_step(s: Option<Arc<StateStack>>, k: nat)
    requires
        k < opt_depth(s),
    ensures
        popped(s, k) is Some,
        popped(s, k + 1) == popped(s, k).unwrap().parent,
    decreases k,
{
    if k > 0 {
        lemma_popped_step(parent_of(s), (k - 1) as nat);
    } else {
        assert(popped(parent_of(s), 0) == parent_of(s));
    }
}

impl StateStack {
    /// A state on `parent`, one level deeper.
    pub fn new(
        parent: Option<Arc<StateStack>>,
        rule_id: RuleId,
        enter_pos: isize,
        anchor_pos: isize,
        begin_rule_captured_eol: bool,
        end_rule: Option<String>,
        name_scopes_list: Option<Arc<AttributedScopeStack>>,
        content_name_scopes_list: Option<Arc<AttributedScopeStack>>,
    ) -> (r: Arc<StateStack>)
        requires
            opt_wf(parent),
            opt_depth(parent) < usize::MAX,
            opt_attributed_wf(name_scopes_list),
            opt_attributed_wf(content_name_scopes_list),
        ensures
            stack_wf(*r),
            r.parent == parent,
            r.rule_id == rule_id,
            r.enter_pos == enter_pos,
            r.anchor_pos == anchor_pos,
            r.begin_rule_captured_eol == begin_rule_captured_eol,
            r.end_rule == end_rule,
            r.name_scopes_list == name_scopes_list,
            r.content_name_scopes_list == content_name_scopes_list,
            stack_depth(*r) == opt_depth(parent) + 1,
    {
        let depth: usize = match &parent {
            Some(p) => p.depth + 1,
            None => 1,
        };
        Arc::new(StateStack {
            parent,
            rule_id,
            enter_pos,
            anchor_pos,
            begin_rule_captured_eol,
            end_rule,
            name_scopes_list,
            content_name_scopes_list,
            depth,
        })
    }

    /// The rule of this level.
    pub fn rule_id(&self) -> (r: RuleId)
        ensures
            r == self.rule_id,
    {
        self.rule_id
    }

    /// Where this level's rule was entered on its line.
    pub fn enter_pos(&self) -> (r: isize)
        ensures
            r == self.enter_pos,
    {
        self.enter_pos
    }

    /// Where this level's anchor stands on its line.
    pub fn anchor_pos(&self) -> (r: isize)
        ensures
            r == self.anchor_pos,
    {
        self.anchor_pos
    }

    /// The same state.
    pub fn clone_stack(self: &Arc<Self>) -> (r: Arc<StateStack>)
        ensures
            r == *self,
    {
        self.clone()
    }

    /// The parent state, or this one where it is the outermost.
    pub fn safe_pop(self: &Arc<Self>) -> (r: Arc<StateStack>)
        ensures
            match self.parent {
                Some(p) => r == p,
                None => r == *self,
            },
    {
        match &self.parent {
            Some(p) => p.clone(),
            None => self.clone(),
        }
    }

    /// A state on this one, one level deeper.
    pub fn push(
        self: &Arc<Self>,
        rule_id: RuleId,
        enter_pos: isize,
        anchor_pos: isize,
        begin_rule_captured_eol: bool,
        end_rule: Option<String>,
        name_scopes_list: Option<Arc<AttributedScopeStack>>,
        content_name_scopes_list: Option<Arc<AttributedScopeStack>>,
    ) -> (r: Arc<StateStack>)
        requires
            stack_wf(**self),
            stack_depth(**self) < usize::MAX,
            opt_attributed_wf(name_scopes_list),
            opt_attributed_wf(content_name_scopes_list),
        ensures
            stack_wf(*r),
            r.parent == Some(*self),
            r.rule_id == rule_id,
            r.enter_pos == enter_pos,
            r.anchor_pos == anchor_pos,
            r.begin_rule_captured_eol == begin_rule_captured_eol,
            r.end_rule == end_rule,
            r.name_scopes_list == name_scopes_list,
            r.content_name_scopes_list == content_name_scopes_list,
    {
        StateStack::new(
            Some(self.clone()),
            rule_id,
            enter_pos,
            anchor_pos,
            begin_rule_captured_eol,
            end_rule,
            name_scopes_list,
            content_name_scopes_list,
        )
    }

    /// This state with `end_rule` as its end rule (this very state where it
    /// has it already).
    pub fn with_end_rule(self: &Arc<Self>, end_rule: String) -> (r: Arc<StateStack>)
        requires
            stack_wf(**self),
        ensures
            stack_wf(*r),
            r.parent == self.parent,
            r.rule_id == self.rule_id,
            r.enter_pos == self.enter_pos,
            r.anchor_pos == self.anchor_pos,
            r.begin_rule_captured_eol == self.begin_rule_captured_eol,
            opt_view(r.end_rule) == Some(end_rule@),
            r.name_scopes_list == self.name_scopes_list,
            r.content_name_scopes_list == self.content_name_scopes_list,
            opt_view(self.end_rule) == Some(end_rule@) ==> r == *self,
    {
        let same = match &self.end_rule {
            Some(e) => crate::text::str_eq(e.as_str(), end_rule.as_str()),
            None => false,
        };
        if same {
            return self.clone();
        }
        StateStack::new(
            clone_state(&self.parent),
            self.rule_id,
            self.enter_pos,
            self.anchor_pos,
            self.begin_rule_captured_eol,
            Some(end_rule),
            clone_scopes(&self.name_scopes_list),
            clone_scopes(&self.content_name_scopes_list),
        )
    }

    /// Whether this state or one of its parents, walked while their enter
    /// position is that of `other`, has the rule of `other`.
    pub fn has_same_rule_as(&self, other: &StateStack) -> (r: bool)
        ensures
            r == same_rule_from(*self, other.rule_id, other.enter_pos),
        decreases *self,
    {
        if self.enter_pos != other.enter_pos {
            return false;
        }
        if self.rule_id.0 == other.rule_id.0 {
            return true;
        }
        match &self.parent {
            Some(p) => p.has_same_rule_as(other),
            None => false,
        }
    }

    /// Whether two states are equal: the very same state, or the same rules
    /// and end rules at every level and the same content scopes (names and
    /// token attributes at every level).
    pub fn equals(self: &Arc<Self>, other: &Arc<StateStack>) -> (r: bool)
        requires
            stack_wf(**self),
            stack_wf(**other),
        ensures
            r == (stack_rules(**self) == stack_rules(**other) && opt_level_names(self.content_name_scopes_list)
                == opt_level_names(other.content_name_scopes_list)),
    {
        if same_arc(self, other) {
            return true;
        }
        structural_equals(Some(self), Some(other)) && AttributedScopeStack::equals(
            self.content_name_scopes_list.as_ref(),
            other.content_name_scopes_list.as_ref(),
        )
    }

    /// The parent state.
    pub fn pop(&self) -> (r: Option<Arc<StateStack>>)
        ensures
            r == self.parent,
    {
        clone_state(&self.parent)
    }

    /// This state as a frame on its parent: its rule and end rule, and the
    /// scopes its lists add (to its parent's name list, and to its own name
    /// list), none where a list does not extend that one.
    pub fn to_frame(&self) -> (r: StateStackFrame)
        requires
            stack_wf(*self),
        ensures
            frame_core(r) == level_core(*self),
            r.enter_pos is None,
            r.anchor_pos is None,
            self.name_scopes_list is None ==> r.name_scopes_list@.len() == 0,
            self.content_name_scopes_list is None ==> r.content_name_scopes_list@.len() == 0,
    {
        let parent_names: Option<&Arc<AttributedScopeStack>> = match &self.parent {
            Some(p) => p.name_scopes_list.as_ref(),
            None => None,
        };
        let names = match &self.name_scopes_list {
            Some(scopes) => match scopes.extension_if_defined(parent_names) {
                Some(frames) => frames,
                None => Vec::new(),
            },
            None => Vec::new(),
        };
        let contents = match &self.content_name_scopes_list {
            Some(scopes) => match scopes.extension_if_defined(self.name_scopes_list.as_ref()) {
                Some(frames) => frames,
                None => Vec::new(),
            },
            None => Vec::new(),
        };
        StateStackFrame {
            rule_id: self.rule_id.0,
            enter_pos: None,
            anchor_pos: None,
            begin_rule_captured_eol: self.begin_rule_captured_eol,
            end_rule: copy_opt_string(&self.end_rule),
            name_scopes_list: names,
            content_name_scopes_list: contents,
        }
    }

    /// The state that a frame makes on `parent`: its name list is the
    /// parent's extended by the frame's name scopes, its content-name list
    /// that one extended by the frame's content scopes.
    pub fn push_frame(parent: Option<Arc<StateStack>>, frame: &StateStackFrame) -> (r: Arc<StateStack>)
        requires
            opt_wf(parent),
            opt_depth(parent) < usize::MAX,
            frame_ok(names_none(parent), *frame),
        ensures
            stack_wf(*r),
            r.parent == parent,
            level_core(*r) == frame_core(*frame),
            r.name_scopes_list is None <==> (names_none(parent) && frame.name_scopes_list@.len() == 0),
            stack_depth(*r) == opt_depth(parent) + 1,
    {
        let base: Option<Arc<AttributedScopeStack>> = match &parent {
            Some(p) => clone_scopes(&p.name_scopes_list),
            None => None,
        };
        let names = AttributedScopeStack::from_extension(base, frame.name_scopes_list.as_slice());
        let contents = AttributedScopeStack::from_extension(clone_scopes(&names), frame.content_name_scopes_list.as_slice());
        let enter_pos: isize = match frame.enter_pos {
            Some(p) => p,
            None => -1,
        };
        let anchor_pos: isize = match frame.anchor_pos {
            Some(p) => p,
            None => -1,
        };
        StateStack::new(
            parent,
            RuleId(frame.rule_id),
            enter_pos,
            anchor_pos,
            frame.begin_rule_captured_eol,
            copy_opt_string(&frame.end_rule),
            names,
            contents,
        )
    }
}

fn clone_state(s: &Option<Arc<StateStack>>) -> (r: Option<Arc<StateStack>>)
    ensures
        r == *s,
{
    match s {
        Some(x) => Some(x.clone()),
        None => None,
    }
}

fn clone_scopes(s: &Option<Arc<AttributedScopeStack>>) -> (r: Option<Arc<AttributedScopeStack>>)
    ensures
        r == *s,
{
    match s {
        Some(x) => Some(x.clone()),
        None => None,
    }
}

fn option_ref_eq(left: &Option<Arc<StateStack>>, right: &Option<Arc<StateStack>>) -> (r: bool)
    ensures
        r ==> left == right,
        (left is None && right is None) ==> r,
        (left is None) != (right is None) ==> !r,
{
    match (left, right) {
        (Some(l), Some(r)) => same_arc(l, r),
        (None, None) => true,
        _ => false,
    }
}

/// The diff from `first` to `second`: pops down to the deepest state that
/// is shared with `second` (the very same state, or where there is none,
/// nothing), then frames for the levels of `second` above it.
pub fn diff_state_stacks_ref_eq(first: &Arc<StateStack>, second: &Arc<StateStack>) -> (r: StackDiff)
    requires
        stack_wf(**first),
        stack_wf(**second),
    ensures
        diff_rebuilds(Some(*first), Some(*second), r),
{
    let mut pops: usize = 0;
    let mut new_frames: Vec<StateStackFrame> = Vec::new();
    let mut current_first: Option<Arc<StateStack>> = Some(first.clone());
    let mut current_second: Option<Arc<StateStack>> = Some(second.clone());
    let ghost mut pushed: nat = 0;
    proof {
        lemma_core_len(Some(*first));
        lemma_core_len(Some(*second));
    }
    while !option_ref_eq(&current_first, &current_second)
        invariant
            stack_wf(**first),
            stack_wf(**second),
            pops <= opt_depth(Some(*first)),
            pushed <= opt_depth(Some(*second)),
            current_first == popped(Some(*first), pops as nat),
            current_second == popped(Some(*second), pushed),
            opt_wf(current_first),
            opt_wf(current_second),
            opt_depth(current_first) == opt_depth(Some(*first)) - pops,
            opt_depth(current_second) == opt_depth(Some(*second)) - pushed,
            opt_core(Some(*second)) == opt_core(current_second) + frames_core(new_frames@),
        decreases opt_depth(current_first) + opt_depth(current_second),
    {
        let pop_first = match (&current_first, &current_second) {
            (Some(f), Some(s)) => f.depth >= s.depth,
            (Some(_), None) => true,
            _ => false,
        };
        if pop_first {
            let next = match &current_first {
                Some(f) => clone_state(&f.parent),
                None => None,
            };
            proof {
                lemma_popped_step(Some(*first), pops as nat);
                lemma_popped(Some(*first), (pops + 1) as nat);
            }
            current_first = next;
            pops = pops + 1;
        } else {
            let s = match &current_second {
                Some(x) => x.clone(),
                None => {
                    return StackDiff { pops, new_frames };
                },
            };
            let frame = s.to_frame();
            let next = clone_state(&s.parent);
            proof {
                lemma_popped_step(Some(*second), pushed);
                lemma_popped(Some(*second), pushed + 1);
                assert(stack_core(*s) == opt_core(next).push(level_core(*s)));
            }
            let ghost before = new_frames@;
            new_frames.insert(0, frame);
            proof {
                assert(frames_core(new_frames@) =~= seq![level_core(*s)] + frames_core(before));
                assert(opt_core(next) + frames_core(new_frames@) =~= opt_core(next).push(level_core(*s)) + frames_core(before));
                pushed = pushed + 1;
            }
            current_second = next;
        }
    }
    proof {
        lemma_popped(Some(*first), pops as nat);
    }
    StackDiff { pops, new_frames }
}

/// Applies a diff: pops its pops from `stack`, then pushes its frames.
pub fn apply_state_stack_diff(stack: Option<Arc<StateStack>>, diff: &StackDiff) -> (r: Option<Arc<StateStack>>)
    requires
        opt_wf(stack),
        diff.pops <= opt_depth(stack),
        opt_depth(stack) + diff.new_frames@.len() < usize::MAX,
        frames_ok(names_none(popped(stack, diff.pops as nat)), diff.new_frames@),
    ensures
        applied(stack, *diff, r),
{
    let mut current = stack;
    let mut i: usize = 0;
    while i < diff.pops
        invariant
            i <= diff.pops <= opt_depth(stack),
            opt_wf(stack),
            current == popped(stack, i as nat),
        decreases diff.pops - i,
    {
        proof {
            lemma_popped_step(stack, i as nat);
        }
        current = match &current {
            Some(c) => clone_state(&c.parent),
            None => None,
        };
        i = i + 1;
    }
    proof {
        lemma_popped(stack, diff.pops as nat);
    }
    let ghost base = current;
    let ghost fs = diff.new_frames@;
    assert(fs.skip(0) =~= fs);
    assert(fs.take(0) =~= Seq::<StateStackFrame>::empty());
    assert(frames_core(fs.take(0)) =~= Seq::<(u32, Option<Seq<char>>, bool)>::empty());
    let mut j: usize = 0;
    while j < diff.new_frames.len()
        invariant
            j <= fs.len(),
            fs == diff.new_frames@,
            opt_wf(current),
            opt_depth(current) == opt_depth(base) + j,
            opt_depth(base) + fs.len() < usize::MAX,
            opt_core(current) == opt_core(base) + frames_core(fs.take(j as int)),
            frames_ok(names_none(current), fs.skip(j as int)),
        decreases fs.len() - j,
    {
        let frame = &diff.new_frames[j];
        proof {
            assert(fs.skip(j as int)[0] == fs[j as int]);
            assert(fs.skip(j as int).drop_first() =~= fs.skip(j + 1));
        }
        let ghost before = current;
        let next = StateStack::push_frame(current, frame);
        proof {
            assert(stack_core(*next) == opt_core(before).push(level_core(*next)));
            assert(frames_core(fs.take(j + 1)) =~= frames_core(fs.take(j as int)).push(frame_core(fs[j as int])));
        }
        current = Some(next);
        j = j + 1;
    }
    proof {
        assert(fs.take(fs.len() as int) =~= fs);
    }
    current
}

proof fn lemma_rules_of_core(s: Option<Arc<StateStack>>)
    ensures
        opt_rules(s) == opt_core(s).map_values(|c: (u32, Option<Seq<char>>, bool)| (c.0, c.1)),
    decreases opt_depth(s),
{
    if let Some(x) = s {
        lemma_rules_of_core(parent_of(s));
        assert(opt_rules(s) == opt_rules(parent_of(s)).push(top_rule(*x)));
        assert(opt_core(s) == opt_core(parent_of(s)).push(level_core(*x)));
        assert(opt_rules(s) =~= opt_core(s).map_values(|c: (u32, Option<Seq<char>>, bool)| (c.0, c.1)));
    } else {
        assert(opt_rules(s) =~= opt_core(s).map_values(|c: (u32, Option<Seq<char>>, bool)| (c.0, c.1)));
    }
}

/// Applying the diff from `first` to `second` to `first` gives a state
/// with the levels of `second`: the same rules, end rules and end-of-line
/// captures, outermost first, so that it is structurally equal to `second`
/// (where the frames can be pushed at all).
pub proof fn lemma_apply_diff_rebuilds_second(
    first: Option<Arc<StateStack>>,
    second: Option<Arc<StateStack>>,
    d: StackDiff,
    r: Option<Arc<StateStack>>,
)
    requires
        diff_rebuilds(first, second, d),
        applied(first, d, r),
    ensures
        opt_core(r) == opt_core(second),
        opt_rules(r) == opt_rules(second),
{
    lemma_rules_of_core(r);
    lemma_rules_of_core(second);
}

} // verus!
