use vstd::prelude::*;

use crate::matcher::{create_matchers, selector_matchers, view_matcher, view_prioritized, Matcher, MatcherPriority, SpecMatcher};
use crate::raw_grammar::RuleId;

verus! {

/// A rule that is tried wherever the scope stack matches a selector, with
/// the selector's priority and the selector text it came from.
#[derive(Debug)]
pub struct Injection {
    pub debug_selector: String,
    pub matcher: Matcher,
    pub priority: MatcherPriority,
    pub rule_id: RuleId,
}

/// The matcher and priority of each injection.
pub open spec fn injection_views(v: Seq<Injection>) -> Seq<(SpecMatcher, MatcherPriority)> {
    v.map_values(|i: Injection| (view_matcher(i.matcher), i.priority))
}

impl Injection {
    /// One injection of rule `rule_id` for each selector that `selector`
    /// denotes, in source order, each keeping the whole selector text.
    pub fn from_selector(selector: &str, rule_id: RuleId) -> (r: Vec<Injection>)
        ensures
            injection_views(r@) == selector_matchers(selector@),
            forall|i: int| 0 <= i < r@.len() ==> (#[trigger] r@[i]).rule_id == rule_id && r@[i].debug_selector@ == selector@,
    {
        let mut ms = create_matchers(selector);
        let ghost all = view_prioritized(ms@);
        let ghost n = ms@.len();
        let mut out: Vec<Injection> = Vec::new();
        while ms.len() > 0
            invariant
                all == selector_matchers(selector@),
                out@.len() + ms@.len() == n,
                all.len() == n,
                injection_views(out@) == all.take(out@.len() as int),
                forall|i: int| 0 <= i < out@.len() ==> (#[trigger] out@[i]).rule_id == rule_id && out@[i].debug_selector@ == selector@,
                view_prioritized(ms@) == all.skip(out@.len() as int),
            decreases ms.len(),
        {
            let ghost k = out@.len() as int;
            let ghost before = ms@;
            let m = ms.remove(0);
            let injection = Injection { debug_selector: selector.to_string(), matcher: m.matcher, priority: m.priority, rule_id };
            proof {
                assert(before[0] == m);
                assert(all.skip(k)[0] == (view_matcher(m.matcher), m.priority));
                assert(injection_views(out@.push(injection)) =~= injection_views(out@).push(all[k]));
                assert(all.take(k + 1) =~= all.take(k).push(all[k]));
                assert(ms@ =~= before.subrange(1, before.len() as int));
                assert forall|j: int| 0 <= j < ms@.len() implies view_prioritized(ms@)[j] == all.skip(k + 1)[j] by {
                    assert(ms@[j] == before[j + 1]);
                    assert(view_prioritized(before)[j + 1] == all.skip(k)[j + 1]);
                }
                assert(view_prioritized(ms@) =~= all.skip(k + 1));
            }
            out.push(injection);
        }
        assert(all.take(n as int) =~= all);
        out
    }
}

} // verus!
