//! Relation kinds stored in the relations sidecar.

use vstd::prelude::*;
use crate::bindings::{ascii_lower, to_lowercase, unicode_lowercase};
use crate::text::str_eq;
use vstd::utf8::is_ascii_chars;

verus! {

/// Relation types between memories.
#[derive(Debug, Clone, Copy, PartialEq, Eq, Structural)]
pub enum RelationType {
    Cause,
    Effect,
    Semantic,
    Temporal,
    Contradicts,
    Supports,
}

impl RelationType {
    /// The lowercase name of the relation type.
    pub open spec fn name(self) -> Seq<char> {
        match self {
            RelationType::Cause => "cause"@,
            RelationType::Effect => "effect"@,
            RelationType::Semantic => "semantic"@,
            RelationType::Temporal => "temporal"@,
            RelationType::Contradicts => "contradicts"@,
            RelationType::Supports => "supports"@,
        }
    }

    /// The relation type a lowercase name stands for; any other text stands for `Semantic`.
    pub open spec fn from_name(n: Seq<char>) -> RelationType {
        if n == "cause"@ {
            RelationType::Cause
        } else if n == "effect"@ {
            RelationType::Effect
        } else if n == "semantic"@ {
            RelationType::Semantic
        } else if n == "temporal"@ {
            RelationType::Temporal
        } else if n == "contradicts"@ {
            RelationType::Contradicts
        } else if n == "supports"@ {
            RelationType::Supports
        } else {
            RelationType::Semantic
        }
    }

    /// The lowercase name of the relation type.
    pub fn as_str(&self) -> (s: &'static str)
        ensures
            s@ == self.name(),
    {
        match self {
            RelationType::Cause => "cause",
            RelationType::Effect => "effect",
            RelationType::Semantic => "semantic",
            RelationType::Temporal => "temporal",
            RelationType::Contradicts => "contradicts",
            RelationType::Supports => "supports",
        }
    }

    /// Parses a relation name, ignoring case; unknown names give `Semantic`.
    pub fn from_str(s: &str) -> (r: Self)
        ensures
            r == RelationType::from_name(unicode_lowercase(s@)),
            is_ascii_chars(s@) ==> r == RelationType::from_name(ascii_lower(s@)),
    {
        let lower = to_lowercase(s);
        let l = lower.as_str();
        if str_eq(l, "cause") {
            RelationType::Cause
        } else if str_eq(l, "effect") {
            RelationType::Effect
        } else if str_eq(l, "semantic") {
            RelationType::Semantic
        } else if str_eq(l, "temporal") {
            RelationType::Temporal
        } else if str_eq(l, "contradicts") {
            RelationType::Contradicts
        } else if str_eq(l, "supports") {
            RelationType::Supports
        } else {
            RelationType::Semantic
        }
    }
}

/// Reading back the name of a relation type gives the same type.
pub proof fn relation_type_name_round_trip(t: RelationType)
    ensures
        is_ascii_chars(t.name()),
        RelationType::from_name(ascii_lower(t.name())) == t,
{
    reveal_strlit("cause");
    reveal_strlit("effect");
    reveal_strlit("semantic");
    reveal_strlit("temporal");
    reveal_strlit("contradicts");
    reveal_strlit("supports");
    assert(ascii_lower(t.name()) =~= t.name());
    let c = "cause"@;
    let e = "effect"@;
    let s = "semantic"@;
    let t2 = "temporal"@;
    let d = "contradicts"@;
    let p = "supports"@;
    assert(c.len() == 5 && e.len() == 6 && s.len() == 8 && t2.len() == 8);
    assert(d.len() == 11 && p.len() == 8);
    assert(s[0] != t2[0] && p[1] != s[1] && p[0] != t2[0]);
    assert(s != t2 && p != s && p != t2);
}

} // verus!
