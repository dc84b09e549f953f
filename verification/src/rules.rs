use vstd::prelude::*;

use crate::json::{json_member, json_str, JsonValue};
use crate::regexp::{decimal_value, parse_index};
use crate::text::{chars_of, str_eq};

verus! {

/// The rule id that stands for the end pattern of a begin/end rule.
pub const END_RULE_ID: i32 = -1;

/// A numbered capture of a rule, with the scope name it gives its text.
#[derive(Debug)]
pub struct GrammarCapture {
    pub index: usize,
    pub name: Option<String>,
}

/// The view of an optional string.
pub open spec fn opt_view(s: Option<String>) -> Option<Seq<char>> {
    match s {
        Some(t) => Some(t@),
        None => None,
    }
}

/// What a capture says: its index and its scope name.
pub open spec fn capture_view(c: GrammarCapture) -> (usize, Option<Seq<char>>) {
    (c.index, opt_view(c.name))
}

/// The views of a list of captures.
pub open spec fn captures_view(cs: Seq<GrammarCapture>) -> Seq<(usize, Option<Seq<char>>)> {
    cs.map_values(|c: GrammarCapture| capture_view(c))
}

/// A compiled rule of a grammar; the patterns of a rule are the ids of
/// other rules of the same registry.
#[derive(Debug)]
pub enum Rule {
    Match { id: i32, name: Option<String>, match_re: String, captures: Vec<GrammarCapture> },
    IncludeOnly { id: i32, name: Option<String>, content_name: Option<String>, patterns: Vec<i32> },
    BeginEnd {
        id: i32,
        name: Option<String>,
        content_name: Option<String>,
        begin_re: String,
        end_re: String,
        end_has_back_references: bool,
        apply_end_pattern_last: bool,
        begin_captures: Vec<GrammarCapture>,
        end_captures: Vec<GrammarCapture>,
        patterns: Vec<i32>,
    },
    BeginWhile {
        id: i32,
        name: Option<String>,
        content_name: Option<String>,
        begin_re: String,
        while_re: String,
        while_has_back_references: bool,
        begin_captures: Vec<GrammarCapture>,
        while_captures: Vec<GrammarCapture>,
        patterns: Vec<i32>,
    },
}

impl Rule {
    /// The id the rule was stored under.
    pub open spec fn rule_id(self) -> i32 {
        match self {
            Rule::Match { id, .. } => id,
            Rule::IncludeOnly { id, .. } => id,
            Rule::BeginEnd { id, .. } => id,
            Rule::BeginWhile { id, .. } => id,
        }
    }

    /// The ids of the rule's nested patterns (none for a match rule).
    pub open spec fn pattern_ids(self) -> Seq<i32> {
        match self {
            Rule::Match { .. } => Seq::empty(),
            Rule::IncludeOnly { patterns, .. } => patterns@,
            Rule::BeginEnd { patterns, .. } => patterns@,
            Rule::BeginWhile { patterns, .. } => patterns@,
        }
    }
}

/// The rules of a grammar by id.  Id 0 is never handed out; ids are handed
/// out in increasing order, and a rule is stored under its id once it has
/// been compiled.
#[derive(Debug)]
pub struct RuleRegistry {
    pub rules: Vec<Option<Rule>>,
    pub next_id: i32,
}

impl RuleRegistry {
    /// The registry is well formed: one slot per id handed out (and the
    /// unused slot 0), each stored rule carries its own id and names only
    /// ids that were handed out.
    pub open spec fn wf(&self) -> bool {
        &&& 1 <= self.next_id
        &&& self.rules@.len() == self.next_id as int
        &&& self.rules@[0] is None
        &&& forall|i: int| 0 <= i < self.rules@.len() && (#[trigger] self.rules@[i]) is Some ==> {
            let r = self.rules@[i]->Some_0;
            &&& r.rule_id() == i
            &&& forall|k: int| 0 <= k < r.pattern_ids().len() ==> 1 <= #[trigger] r.pattern_ids()[k] < self.next_id
        }
    }

    /// An empty registry: the next id is 1.
    pub fn new() -> (r: RuleRegistry)
        ensures
            r.wf(),
            r.next_id == 1,
            r.rules@ == seq![None::<Rule>],
    {
        let mut rules: Vec<Option<Rule>> = Vec::new();
        rules.push(None);
        RuleRegistry { rules, next_id: 1 }
    }

    /// Hands out the next id, with an empty slot for its rule.
    pub fn alloc_id(&mut self) -> (id: i32)
        requires
            old(self).wf(),
            old(self).next_id < i32::MAX,
        ensures
            id == old(self).next_id,
            final(self).next_id == id + 1,
            final(self).rules@ == old(self).rules@.push(None),
            final(self).wf(),
    {
        let id = self.next_id;
        self.next_id = id + 1;
        self.rules.push(None);
        id
    }

    /// Stores `rule` under `id`.
    pub fn store(&mut self, id: i32, rule: Rule)
        requires
            0 <= id < old(self).rules@.len(),
        ensures
            final(self).next_id == old(self).next_id,
            final(self).rules@ == old(self).rules@.update(id as int, Some(rule)),
    {
        self.rules.set(id as usize, Some(rule));
    }

    /// The rule stored under `id`, if any.
    pub fn get(&self, id: i32) -> (r: Option<&Rule>)
        ensures
            match r {
                Some(x) => 0 <= id < self.rules@.len() && self.rules@[id as int] == Some(*x),
                None => !(0 <= id < self.rules@.len()) || self.rules@[id as int] is None,
            },
    {
        if id < 0 || id as usize >= self.rules.len() {
            return None;
        }
        match &self.rules[id as usize] {
            Some(rule) => Some(rule),
            None => None,
        }
    }
}

/// Whether `s` is a pattern with a back-reference: a backslash followed by
/// a digit other than `0`, where escaped pairs (a backslash and the
/// character after it) are read as a unit from position `i` on.
pub open spec fn back_reference_from(s: Seq<char>, i: int) -> bool
    decreases s.len() - i,
{
    if i < 0 || i >= s.len() {
        false
    } else if s[i] == '\\' {
        if i + 1 < s.len() {
            ('1' <= s[i + 1] && s[i + 1] <= '9') || back_reference_from(s, i + 2)
        } else {
            false
        }
    } else {
        back_reference_from(s, i + 1)
    }
}

/// Whether the pattern holds a back-reference such as `\1`.
pub fn has_back_references(pattern: &str) -> (r: bool)
    ensures
        r == back_reference_from(pattern@, 0),
{
    let v = chars_of(pattern);
    let mut i: usize = 0;
    while i < v.len()
        invariant
            v@ == pattern@,
            back_reference_from(v@, 0) == back_reference_from(v@, i as int),
        decreases v.len() - i,
    {
        if v[i] == '\\' {
            if i + 1 < v.len() {
                let next = v[i + 1];
                if '1' <= next && next <= '9' {
                    return true;
                }
                i += 2;
            } else {
                return false;
            }
        } else {
            i += 1;
        }
    }
    false
}

/// What `str::parse::<usize>` gives for a key: an optional `+`, then one or
/// more decimal digits whose value fits in `usize`.
pub open spec fn usize_text_value(s: Seq<char>) -> Option<usize> {
    let d: int = if s.len() > 0 && s[0] == '+' { 1 } else { 0 };
    if d >= s.len() {
        None
    } else if exists|k: int| d <= k < s.len() && !('0' <= #[trigger] s[k] && s[k] <= '9') {
        None
    } else if decimal_value(s, d, s.len() as int) > usize::MAX {
        None
    } else {
        Some(decimal_value(s, d, s.len() as int) as usize)
    }
}

/// Parses a capture key as `str::parse::<usize>` does.
pub fn parse_usize_text(s: &str) -> (r: Option<usize>)
    ensures
        r == usize_text_value(s@),
{
    let v = chars_of(s);
    let d: usize = if v.len() > 0 && v[0] == '+' { 1 } else { 0 };
    if d >= v.len() {
        return None;
    }
    let mut k: usize = d;
    while k < v.len()
        invariant
            d <= k <= v.len(),
            v@ == s@,
            d == (if s@.len() > 0 && s@[0] == '+' { 1int } else { 0int }),
            forall|j: int| d <= j < k ==> '0' <= #[trigger] v@[j] && v@[j] <= '9',
        decreases v.len() - k,
    {
        if !('0' <= v[k] && v[k] <= '9') {
            assert(!('0' <= s@[k as int] && s@[k as int] <= '9'));
            return None;
        }
        k += 1;
    }
    parse_index(&v, d, v.len())
}

/// The captures listed by the members of a captures object, from member
/// `from` on: those whose key parses as an index, in member order.
pub open spec fn listed_captures(members: Seq<(String, JsonValue)>, from: int) -> Seq<(usize, Option<Seq<char>>)>
    decreases members.len() - from,
{
    if from < 0 || from >= members.len() {
        Seq::empty()
    } else {
        let rest = listed_captures(members, from + 1);
        match usize_text_value(members[from].0@) {
            Some(index) => seq![(index, json_str(json_member(members[from].1, "name"@)))] + rest,
            None => rest,
        }
    }
}

/// The first position of `sorted` whose index is greater than `index`.
pub open spec fn index_insert_position(sorted: Seq<(usize, Option<Seq<char>>)>, index: usize, from: int) -> int
    decreases sorted.len() - from,
{
    if from < 0 || from >= sorted.len() {
        sorted.len() as int
    } else if sorted[from].0 > index {
        from
    } else {
        index_insert_position(sorted, index, from + 1)
    }
}

/// The captures sorted by index, captures with equal indices in their order
/// (a stable sort).
pub open spec fn sorted_by_index(cs: Seq<(usize, Option<Seq<char>>)>) -> Seq<(usize, Option<Seq<char>>)>
    decreases cs.len(),
{
    if cs.len() == 0 {
        cs
    } else {
        let sorted = sorted_by_index(cs.drop_last());
        sorted.insert(index_insert_position(sorted, cs.last().0, 0), cs.last())
    }
}

/// The captures of a rule as its captures object lists them: none unless
/// it is an object.
pub open spec fn grammar_captures(value: Option<JsonValue>) -> Seq<(usize, Option<Seq<char>>)> {
    match value {
        Some(JsonValue::Object(members)) => sorted_by_index(listed_captures(members@, 0)),
        _ => Seq::empty(),
    }
}

proof fn lemma_index_insert_position(sorted: Seq<(usize, Option<Seq<char>>)>, index: usize, from: int)
    requires
        0 <= from <= sorted.len(),
    ensures
        from <= index_insert_position(sorted, index, from) <= sorted.len(),
    decreases sorted.len() - from,
{
    if from < sorted.len() && sorted[from].0 <= index {
        lemma_index_insert_position(sorted, index, from + 1);
    }
}

fn copy_opt(s: &Option<String>) -> (r: Option<String>)
    ensures
        opt_view(r) == opt_view(*s),
{
    match s {
        Some(t) => Some(t.clone()),
        None => None,
    }
}

/// A copy of a list of captures.
pub fn copy_captures(cs: &Vec<GrammarCapture>) -> (r: Vec<GrammarCapture>)
    ensures
        captures_view(r@) == captures_view(cs@),
{
    let mut out: Vec<GrammarCapture> = Vec::new();
    let mut i: usize = 0;
    while i < cs.len()
        invariant
            i <= cs.len(),
            captures_view(out@) == captures_view(cs@.take(i as int)),
        decreases cs.len() - i,
    {
        out.push(GrammarCapture { index: cs[i].index, name: copy_opt(&cs[i].name) });
        i += 1;
        assert(captures_view(cs@.take(i as int)) =~= captures_view(cs@.take(i - 1)).push(capture_view(cs@[i - 1])));
        assert(captures_view(out@) =~= captures_view(out@.drop_last()).push(capture_view(out@.last())));
    }
    assert(cs@.take(i as int) =~= cs@);
    out
}

/// Inserts `c` after the captures whose index is not greater than its own.
fn insert_capture(sorted: &mut Vec<GrammarCapture>, c: GrammarCapture)
    ensures
        captures_view(final(sorted)@) == captures_view(old(sorted)@).insert(
            index_insert_position(captures_view(old(sorted)@), c.index, 0),
            capture_view(c),
        ),
{
    let ghost sv = captures_view(sorted@);
    let mut p: usize = 0;
    proof {
        lemma_index_insert_position(sv, c.index, 0);
    }
    while p < sorted.len() && sorted[p].index <= c.index
        invariant
            p <= sorted.len(),
            sv == captures_view(sorted@),
            index_insert_position(sv, c.index, 0) == index_insert_position(sv, c.index, p as int),
        decreases sorted.len() - p,
    {
        p += 1;
    }
    let ghost before = sorted@;
    sorted.insert(p, c);
    assert(captures_view(sorted@) =~= sv.insert(p as int, capture_view(c)));
}

/// The captures of a rule from its captures object, sorted by index.
pub fn parse_grammar_captures(value: Option<&JsonValue>) -> (r: Vec<GrammarCapture>)
    ensures
        captures_view(r@) == grammar_captures(match value {
            Some(v) => Some(*v),
            None => None,
        }),
{
    let members = match value {
        Some(JsonValue::Object(members)) => members,
        _ => {
            return Vec::new();
        },
    };
    let mut sorted: Vec<GrammarCapture> = Vec::new();
    let ghost listed = listed_captures(members@, 0);
    let mut i: usize = 0;
    while i < members.len()
        invariant
            i <= members.len(),
            listed == listed_captures(members@, 0),
            captures_view(sorted@) == sorted_by_index(listed.take(listed.len() - listed_captures(members@, i as int).len())),
            listed.len() >= listed_captures(members@, i as int).len(),
            listed == listed.take(listed.len() - listed_captures(members@, i as int).len()) + listed_captures(members@, i as int),
        decreases members.len() - i,
    {
        let ghost before_rest = listed_captures(members@, i as int);
        let ghost taken = listed.take(listed.len() - before_rest.len());
        match parse_usize_text(members[i].0.as_str()) {
            Some(index) => {
                let name = match members[i].1.get("name") {
                    Some(n) => match n.as_str() {
                        Some(t) => Some(t.to_string()),
                        None => None,
                    },
                    None => None,
                };
                proof {
                    reveal_strlit("name");
                }
                let c = GrammarCapture { index, name };
                insert_capture(&mut sorted, c);
                proof {
                    let after = listed_captures(members@, i + 1);
                    assert(before_rest == seq![capture_view(c)] + after);
                    let taken2 = listed.take(listed.len() - after.len());
                    assert(taken2 =~= taken.push(capture_view(c)));
                    assert(taken2.drop_last() =~= taken);
                    assert(listed =~= taken2 + after);
                }
            },
            None => {
                proof {
                    assert(before_rest == listed_captures(members@, i + 1));
                }
            },
        }
        i += 1;
    }
    proof {
        assert(listed_captures(members@, i as int) =~= Seq::<(usize, Option<Seq<char>>)>::empty());
        assert(listed.take(listed.len() as int) =~= listed);
    }
    sorted
}

/// The decimal digit `d` as a character.
pub open spec fn digit_char(d: nat) -> char {
    if d == 0 { '0' }
    else if d == 1 { '1' }
    else if d == 2 { '2' }
    else if d == 3 { '3' }
    else if d == 4 { '4' }
    else if d == 5 { '5' }
    else if d == 6 { '6' }
    else if d == 7 { '7' }
    else if d == 8 { '8' }
    else { '9' }
}

/// The decimal text of `n`, as `to_string` writes it.
pub open spec fn decimal_text(n: nat) -> Seq<char>
    decreases n,
{
    if n < 10 {
        seq![digit_char(n)]
    } else {
        decimal_text(n / 10).push(digit_char(n % 10))
    }
}

fn digit(d: u64) -> (c: char)
    requires
        d < 10,
    ensures
        c == digit_char(d as nat),
{
    if d == 0 { '0' }
    else if d == 1 { '1' }
    else if d == 2 { '2' }
    else if d == 3 { '3' }
    else if d == 4 { '4' }
    else if d == 5 { '5' }
    else if d == 6 { '6' }
    else if d == 7 { '7' }
    else if d == 8 { '8' }
    else { '9' }
}

/// Appends the decimal text of `n`.
pub fn push_decimal(out: &mut Vec<char>, n: u64)
    ensures
        final(out)@ == old(out)@ + decimal_text(n as nat),
    decreases n,
{
    if n >= 10 {
        push_decimal(out, n / 10);
    }
    out.push(digit(n % 10));
    proof {
        if n >= 10 {
            assert(decimal_text(n as nat) == decimal_text((n / 10) as nat).push(digit_char((n % 10) as nat)));
        }
    }
}

} // verus!
