use vstd::prelude::*;
use vstd::string::StrSliceExecFns;

use crate::text::{chars_eq, chars_of, find_char, first_index_from};

verus! {

broadcast use vstd::string::group_string_axioms;

/// A parsed TextMate grammar `include` reference.
#[derive(Clone, Debug, PartialEq, Eq)]
pub enum IncludeReference<'a> {
    Base,
    SelfReference,
    RelativeReference { rule_name: &'a str },
    TopLevelReference { scope_name: &'a str },
    TopLevelRepositoryReference { scope_name: &'a str, rule_name: &'a str },
}

/// The abstract shape of an include reference, over character sequences.
pub enum IncludeKind {
    Base,
    SelfReference,
    RelativeReference { rule_name: Seq<char> },
    TopLevelReference { scope_name: Seq<char> },
    TopLevelRepositoryReference { scope_name: Seq<char>, rule_name: Seq<char> },
}

/// The classification of an include string: `$base`, `$self`, otherwise
/// split at the first `#` (an empty scope part makes it relative), otherwise
/// a top-level scope reference.
pub open spec fn classify_include(s: Seq<char>) -> IncludeKind {
    if s == seq!['$', 'b', 'a', 's', 'e'] {
        IncludeKind::Base
    } else if s == seq!['$', 's', 'e', 'l', 'f'] {
        IncludeKind::SelfReference
    } else {
        match first_index_from(s, '#', 0) {
            Some(i) => if i == 0 {
                IncludeKind::RelativeReference { rule_name: s.subrange(1, s.len() as int) }
            } else {
                IncludeKind::TopLevelRepositoryReference {
                    scope_name: s.subrange(0, i),
                    rule_name: s.subrange(i + 1, s.len() as int),
                }
            },
            None => IncludeKind::TopLevelReference { scope_name: s },
        }
    }
}

impl<'a> IncludeReference<'a> {
    /// The abstract shape of this reference.
    pub open spec fn kind(self) -> IncludeKind {
        match self {
            IncludeReference::Base => IncludeKind::Base,
            IncludeReference::SelfReference => IncludeKind::SelfReference,
            IncludeReference::RelativeReference { rule_name } => IncludeKind::RelativeReference {
                rule_name: rule_name@,
            },
            IncludeReference::TopLevelReference { scope_name } => IncludeKind::TopLevelReference {
                scope_name: scope_name@,
            },
            IncludeReference::TopLevelRepositoryReference {
                scope_name,
                rule_name,
            } => IncludeKind::TopLevelRepositoryReference {
                scope_name: scope_name@,
                rule_name: rule_name@,
            },
        }
    }
}

/// Parses a TextMate grammar `include`: `$base`, `$self`, `#rule`, `scope#rule`, else `scope`.
pub fn parse_include<'a>(reference: &'a str) -> (r: IncludeReference<'a>)
    ensures
        r.kind() == classify_include(reference@),
{
    let chars = chars_of(reference);
    let base = chars_of("$base");
    let self_ref = chars_of("$self");
    proof {
        reveal_strlit("$base");
        reveal_strlit("$self");
        assert(base@ =~= seq!['$', 'b', 'a', 's', 'e']);
        assert(self_ref@ =~= seq!['$', 's', 'e', 'l', 'f']);
    }
    if chars_eq(chars.as_slice(), base.as_slice()) {
        return IncludeReference::Base;
    }
    if chars_eq(chars.as_slice(), self_ref.as_slice()) {
        return IncludeReference::SelfReference;
    }
    proof {
        crate::text::lemma_first_index_from(reference@, '#', 0);
    }
    match find_char(chars.as_slice(), '#', 0) {
        Some(i) => {
            let n = chars.len();
            let rule_name = reference.substring_char(i + 1, n);
            if i == 0 {
                IncludeReference::RelativeReference { rule_name }
            } else {
                IncludeReference::TopLevelRepositoryReference {
                    scope_name: reference.substring_char(0, i),
                    rule_name,
                }
            }
        },
        None => IncludeReference::TopLevelReference { scope_name: reference },
    }
}

} // verus!
