use vstd::prelude::*;

use crate::encoded_token_attributes::OptionalStandardTokenType;
use crate::text::{chars_of, chars_occur_at, occurs_at, scope_has_prefix_key, scope_prefix_matches};

verus! {

broadcast use vstd::string::group_string_axioms;

/// Embedded language ids, keyed by scope name.
pub type EmbeddedLanguages = Vec<(String, u32)>;

#[derive(Clone, Copy, Debug, PartialEq, Eq, Structural)]
pub struct BasicScopeAttributes {
    pub language_id: u32,
    pub token_type: OptionalStandardTokenType,
}

/// Entry `i` of `entries` is the embedded language that `scope` resolves to:
/// its key matches, no matching key is longer, and no later entry has a
/// matching key of the same length.
pub open spec fn is_best_embedded_entry(entries: Seq<(Seq<char>, u32)>, scope: Seq<char>, i: int) -> bool {
    &&& 0 <= i < entries.len()
    &&& scope_has_prefix_key(scope, entries[i].0)
    &&& forall|j: int|
        0 <= j < entries.len() && scope_has_prefix_key(scope, #[trigger] entries[j].0) ==> (
        entries[j].0.len() < entries[i].0.len() || (entries[j].0.len() == entries[i].0.len() && j
            <= i))
}

/// The language id that the embedded-language table gives `scope`.
pub open spec fn embedded_language_of(entries: Seq<(Seq<char>, u32)>, scope: Seq<char>) -> Option<u32> {
    if exists|i: int| is_best_embedded_entry(entries, scope, i) {
        Some(entries[choose|i: int| is_best_embedded_entry(entries, scope, i)].1)
    } else {
        None
    }
}

struct ScopeMatcher {
    values: Vec<(Vec<char>, u32)>,
}

impl ScopeMatcher {
    spec fn entries(&self) -> Seq<(Seq<char>, u32)> {
        self.values@.map_values(|e: (Vec<char>, u32)| (e.0@, e.1))
    }

    fn new(values: &Vec<(String, u32)>) -> (r: ScopeMatcher)
        ensures
            r.entries() == values@.map_values(|e: (String, u32)| (e.0@, e.1)),
    {
        let mut out: Vec<(Vec<char>, u32)> = Vec::new();
        let mut i: usize = 0;
        while i < values.len()
            invariant
                i <= values.len(),
                out@.len() == i,
                forall|j: int| 0 <= j < i ==> (#[trigger] out@[j]).0@ == values@[j].0@ && out@[j].1 == values@[j].1,
            decreases values.len() - i,
        {
            let key = chars_of(values[i].0.as_str());
            out.push((key, values[i].1));
            i += 1;
        }
        let r = ScopeMatcher { values: out };
        assert(r.entries() =~= values@.map_values(|e: (String, u32)| (e.0@, e.1)));
        r
    }

    fn matches(&self, scope: &Vec<char>) -> (r: Option<u32>)
        ensures
            r == embedded_language_of(self.entries(), scope@),
    {
        let ghost entries = self.entries();
        let mut best: Option<usize> = None;
        let mut i: usize = 0;
        while i < self.values.len()
            invariant
                i <= self.values.len(),
                entries == self.entries(),
                entries.len() == self.values.len(),
                match best {
                    Some(b) => b < i && is_best_embedded_entry(entries.take(i as int), scope@, b as int),
                    None => forall|j: int| 0 <= j < i ==> !scope_has_prefix_key(scope@, #[trigger] entries[j].0),
                },
            decreases self.values.len() - i,
        {
            let ghost prev = entries.take(i as int);
            assert(entries.take(i + 1) =~= prev.push(entries[i as int]));
            if scope_prefix_matches(scope.as_slice(), self.values[i].0.as_slice()) {
                match best {
                    Some(b) => {
                        if self.values[i].0.len() >= self.values[b].0.len() {
                            best = Some(i);
                        }
                    },
                    None => {
                        best = Some(i);
                    },
                }
            }
            i += 1;
        }
        assert(entries.take(i as int) =~= entries);
        match best {
            Some(b) => {
                assert(is_best_embedded_entry(entries, scope@, b as int));
                let ghost c = choose|k: int| is_best_embedded_entry(entries, scope@, k);
                assert(c == b);
                Some(self.values[b].1)
            },
            None => {
                assert(!exists|k: int| is_best_embedded_entry(entries, scope@, k));
                None
            },
        }
    }
}

/// Whether `c` is an ASCII letter, digit or underscore.
pub open spec fn is_word_char(c: char) -> bool {
    ('a' <= c <= 'z') || ('A' <= c <= 'Z') || ('0' <= c <= '9') || c == '_'
}

fn is_word_byte(c: char) -> (r: bool)
    ensures
        r == is_word_char(c),
{
    ('a' <= c && c <= 'z') || ('A' <= c && c <= 'Z') || ('0' <= c && c <= '9') || c == '_'
}

/// `pat` occurs at `i` in `s` with a word boundary on both sides.
pub open spec fn word_match_at(s: Seq<char>, pat: Seq<char>, i: int) -> bool {
    &&& occurs_at(s, pat, i)
    &&& (i == 0 || !is_word_char(s[i - 1]))
    &&& (i + pat.len() == s.len() || !is_word_char(s[i + pat.len()]))
}

fn has_word_boundary_before(value: &Vec<char>, index: usize) -> (r: bool)
    requires
        index <= value.len(),
    ensures
        r == (index == 0 || !is_word_char(value@[index - 1])),
{
    index == 0 || !is_word_byte(value[index - 1])
}

fn has_word_boundary_after(value: &Vec<char>, index: usize) -> (r: bool)
    requires
        index <= value.len(),
    ensures
        r == (index == value.len() || !is_word_char(value@[index as int])),
{
    index == value.len() || !is_word_byte(value[index])
}

pub open spec fn comment_chars() -> Seq<char> {
    seq!['c', 'o', 'm', 'm', 'e', 'n', 't']
}

pub open spec fn string_chars() -> Seq<char> {
    seq!['s', 't', 'r', 'i', 'n', 'g']
}

pub open spec fn regex_chars() -> Seq<char> {
    seq!['r', 'e', 'g', 'e', 'x']
}

pub open spec fn meta_embedded_chars() -> Seq<char> {
    seq!['m', 'e', 't', 'a', '.', 'e', 'm', 'b', 'e', 'd', 'd', 'e', 'd']
}

/// The token type named by the leftmost whole-word occurrence, at or after
/// `i`, of `comment`, `string`, `regex` or `meta.embedded`.
pub open spec fn token_type_from(s: Seq<char>, i: int) -> OptionalStandardTokenType
    decreases s.len() + 1 - i,
{
    if i < 0 || i > s.len() {
        OptionalStandardTokenType::NotSet
    } else if word_match_at(s, comment_chars(), i) {
        OptionalStandardTokenType::Comment
    } else if word_match_at(s, string_chars(), i) {
        OptionalStandardTokenType::String
    } else if word_match_at(s, regex_chars(), i) {
        OptionalStandardTokenType::RegEx
    } else if word_match_at(s, meta_embedded_chars(), i) {
        OptionalStandardTokenType::Other
    } else {
        token_type_from(s, i + 1)
    }
}

fn word_match(value: &Vec<char>, pat: &Vec<char>, i: usize) -> (r: bool)
    requires
        i <= value.len(),
    ensures
        r == word_match_at(value@, pat@, i as int),
{
    if !chars_occur_at(value.as_slice(), pat.as_slice(), i) {
        return false;
    }
    has_word_boundary_before(value, i) && has_word_boundary_after(value, i + pat.len())
}

fn standard_token_type(scope_name: &Vec<char>) -> (r: OptionalStandardTokenType)
    ensures
        r == token_type_from(scope_name@, 0),
{
    let comment = chars_of("comment");
    let string = chars_of("string");
    let regex = chars_of("regex");
    let meta_embedded = chars_of("meta.embedded");
    proof {
        reveal_strlit("comment");
        reveal_strlit("string");
        reveal_strlit("regex");
        reveal_strlit("meta.embedded");
        assert(comment@ =~= comment_chars());
        assert(string@ =~= string_chars());
        assert(regex@ =~= regex_chars());
        assert(meta_embedded@ =~= meta_embedded_chars());
    }
    let mut i: usize = 0;
    while i < scope_name.len()
        invariant
            i <= scope_name.len(),
            comment@ == comment_chars(),
            string@ == string_chars(),
            regex@ == regex_chars(),
            meta_embedded@ == meta_embedded_chars(),
            token_type_from(scope_name@, 0) == token_type_from(scope_name@, i as int),
        decreases scope_name.len() - i,
    {
        if word_match(scope_name, &comment, i) {
            return OptionalStandardTokenType::Comment;
        }
        if word_match(scope_name, &string, i) {
            return OptionalStandardTokenType::String;
        }
        if word_match(scope_name, &regex, i) {
            return OptionalStandardTokenType::RegEx;
        }
        if word_match(scope_name, &meta_embedded, i) {
            return OptionalStandardTokenType::Other;
        }
        i += 1;
    }
    proof {
        let n = scope_name@.len() as int;
        assert(!word_match_at(scope_name@, comment_chars(), n));
        assert(!word_match_at(scope_name@, string_chars(), n));
        assert(!word_match_at(scope_name@, regex_chars(), n));
        assert(!word_match_at(scope_name@, meta_embedded_chars(), n));
        assert(token_type_from(scope_name@, n + 1) == OptionalStandardTokenType::NotSet);
    }
    OptionalStandardTokenType::NotSet
}

/// Resolves the language id and standard token type of scope names.
pub struct BasicScopeAttributesProvider {
    default_attributes: BasicScopeAttributes,
    embedded_languages_matcher: ScopeMatcher,
}

impl BasicScopeAttributesProvider {
    /// The embedded-language table, as key characters and language ids.
    pub closed spec fn embedded_entries(&self) -> Seq<(Seq<char>, u32)> {
        self.embedded_languages_matcher.entries()
    }

    pub closed spec fn spec_default_attributes(&self) -> BasicScopeAttributes {
        self.default_attributes
    }

    pub fn new(initial_language_id: u32, embedded_languages: Option<&EmbeddedLanguages>) -> (r: Self)
        ensures
            r.spec_default_attributes() == (BasicScopeAttributes {
                language_id: initial_language_id,
                token_type: OptionalStandardTokenType::NotSet,
            }),
            r.embedded_entries() == match embedded_languages {
                Some(e) => e@.map_values(|e: (String, u32)| (e.0@, e.1)),
                None => Seq::empty(),
            },
    {
        let empty: Vec<(String, u32)> = Vec::new();
        let matcher = match embedded_languages {
            Some(e) => ScopeMatcher::new(e),
            None => ScopeMatcher::new(&empty),
        };
        proof {
            if embedded_languages.is_none() {
                assert(empty@.map_values(|e: (String, u32)| (e.0@, e.1)) =~= Seq::empty());
            }
        }
        BasicScopeAttributesProvider {
            default_attributes: BasicScopeAttributes {
                language_id: initial_language_id,
                token_type: OptionalStandardTokenType::NotSet,
            },
            embedded_languages_matcher: matcher,
        }
    }

    pub fn default_attributes(&self) -> (r: BasicScopeAttributes)
        ensures
            r == self.spec_default_attributes(),
    {
        self.default_attributes
    }

    /// The attributes of a scope: `None` gives language 0 and type `Other`;
    /// otherwise the embedded language that the scope falls under (0 when
    /// none) and the token type of its leftmost standard word.
    pub fn basic_scope_attributes(&self, scope_name: Option<&str>) -> (r: BasicScopeAttributes)
        ensures
            r == match scope_name {
                None => BasicScopeAttributes {
                    language_id: 0,
                    token_type: OptionalStandardTokenType::Other,
                },
                Some(s) => BasicScopeAttributes {
                    language_id: match embedded_language_of(self.embedded_entries(), s@) {
                        Some(id) => id,
                        None => 0,
                    },
                    token_type: token_type_from(s@, 0),
                },
            },
    {
        match scope_name {
            None => BasicScopeAttributes {
                language_id: 0,
                token_type: OptionalStandardTokenType::Other,
            },
            Some(s) => {
                let chars = chars_of(s);
                let language_id = match self.embedded_languages_matcher.matches(&chars) {
                    Some(id) => id,
                    None => 0,
                };
                BasicScopeAttributes { language_id, token_type: standard_token_type(&chars) }
            },
        }
    }
}

} // verus!
