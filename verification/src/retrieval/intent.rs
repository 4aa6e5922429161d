//! Intent classification for query routing.

use vstd::prelude::*;
use crate::bindings::regex_search;
use crate::text::{any_pattern_matches, matches_any, str_views};
use crate::retrieval::search::QueryIntent;

verus! {

/// Heuristic WHY patterns.
pub open spec fn why_patterns() -> Seq<Seq<char>> {
    seq![
        "(?i)^why|did we decide|reason for|why did|what caused|ecause"@,
        "(?i)what led to|how did we|originated from|root cause"@,
    ]
}

/// Heuristic WHEN patterns.
pub open spec fn when_patterns() -> Seq<Seq<char>> {
    seq![
        "(?i)^when|did we discuss|at what point|time when|on what date"@,
        "(?i)last week|recently|yesterday|this week|last month|in march|in 202"@,
    ]
}

/// Heuristic ENTITY patterns.
pub open spec fn entity_patterns() -> Seq<Seq<char>> {
    seq![
        "(?i)^who|did we talk to|worked on|responsible for|assigned to"@,
        "(?i)which team|which person|who proposed|who suggested"@,
    ]
}

/// Confidence of a heuristic match, in basis points (0.95).
pub open spec fn heuristic_confidence() -> u32 {
    9500
}

/// Confidence of the fallback WHAT intent, in basis points (0.5).
pub open spec fn fallback_confidence() -> u32 {
    5000
}

/// The intent and confidence the heuristics assign to a query.
pub open spec fn intent_of(query: Seq<char>) -> (QueryIntent, u32) {
    if any_pattern_matches(why_patterns(), query) {
        (QueryIntent::Why, heuristic_confidence())
    } else if any_pattern_matches(when_patterns(), query) {
        (QueryIntent::When, heuristic_confidence())
    } else if any_pattern_matches(entity_patterns(), query) {
        (QueryIntent::Entity, heuristic_confidence())
    } else {
        (QueryIntent::What, fallback_confidence())
    }
}

/// Classifies a query's intent with heuristic patterns, tried in the order
/// WHY, WHEN, ENTITY; the first that matches gives its intent with confidence
/// 0.95. Otherwise the intent is WHAT with confidence 0.5. Confidence is in
/// basis points.
pub fn classify_intent(query: &str) -> (r: (QueryIntent, u32))
    ensures
        r == intent_of(query@),
        r.0 == QueryIntent::What <==> r.1 == fallback_confidence(),
        r.0 != QueryIntent::What <==> r.1 == heuristic_confidence(),
{
    let why: [&str; 2] = [
        "(?i)^why|did we decide|reason for|why did|what caused|ecause",
        "(?i)what led to|how did we|originated from|root cause",
    ];
    assert(str_views(why@) =~= why_patterns());
    if matches_any(&why, query) {
        return (QueryIntent::Why, 9500);
    }
    let when: [&str; 2] = [
        "(?i)^when|did we discuss|at what point|time when|on what date",
        "(?i)last week|recently|yesterday|this week|last month|in march|in 202",
    ];
    assert(str_views(when@) =~= when_patterns());
    if matches_any(&when, query) {
        return (QueryIntent::When, 9500);
    }
    let entity: [&str; 2] = [
        "(?i)^who|did we talk to|worked on|responsible for|assigned to",
        "(?i)which team|which person|who proposed|who suggested",
    ];
    assert(str_views(entity@) =~= entity_patterns());
    if matches_any(&entity, query) {
        return (QueryIntent::Entity, 9500);
    }
    (QueryIntent::What, 5000)
}

/// Whether either of two regular expressions matches the text.
pub open spec fn either_matches(p0: Seq<char>, p1: Seq<char>, text: Seq<char>) -> bool {
    regex_search(p0, text) == Some(true) || regex_search(p1, text) == Some(true)
}

/// How a query is classified, in terms of the regular expressions it is
/// matched against: WHY when `(?i)^why|did we decide|reason for|why did|what
/// caused|ecause` or `(?i)what led to|how did we|originated from|root cause`
/// matches; else WHEN when `(?i)^when|...` or `(?i)last week|...` matches;
/// else ENTITY when `(?i)^who|did we talk to|worked on|responsible for|assigned
/// to` or `(?i)which team|which person|who proposed|who suggested` matches
/// (confidence 0.95 each); else WHAT with confidence 0.5.
pub proof fn intent_follows_patterns(query: Seq<char>)
    ensures
        ({
            let why = either_matches(
                "(?i)^why|did we decide|reason for|why did|what caused|ecause"@,
                "(?i)what led to|how did we|originated from|root cause"@,
                query,
            );
            let when = either_matches(
                "(?i)^when|did we discuss|at what point|time when|on what date"@,
                "(?i)last week|recently|yesterday|this week|last month|in march|in 202"@,
                query,
            );
            let entity = either_matches(
                "(?i)^who|did we talk to|worked on|responsible for|assigned to"@,
                "(?i)which team|which person|who proposed|who suggested"@,
                query,
            );
            intent_of(query) == (if why {
                (QueryIntent::Why, 9500u32)
            } else if when {
                (QueryIntent::When, 9500u32)
            } else if entity {
                (QueryIntent::Entity, 9500u32)
            } else {
                (QueryIntent::What, 5000u32)
            })
        }),
{
    lemma_two_patterns(why_patterns(), query);
    lemma_two_patterns(when_patterns(), query);
    lemma_two_patterns(entity_patterns(), query);
}

/// A list of two patterns matches when either of them does.
proof fn lemma_two_patterns(ps: Seq<Seq<char>>, text: Seq<char>)
    requires
        ps.len() == 2,
    ensures
        any_pattern_matches(ps, text) == either_matches(ps[0], ps[1], text),
{
    if either_matches(ps[0], ps[1], text) {
        if regex_search(ps[0], text) == Some(true) {
            assert(regex_search(ps[0], text) == Some(true));
        } else {
            assert(regex_search(ps[1], text) == Some(true));
        }
    }
}

/// Description of an intent, for logging.
pub open spec fn description(intent: QueryIntent) -> Seq<char> {
    match intent {
        QueryIntent::Why => "WHY (causal reasoning)"@,
        QueryIntent::When => "WHEN (temporal recall)"@,
        QueryIntent::Entity => "ENTITY (named entity lookup)"@,
        QueryIntent::What => "WHAT (general recall)"@,
    }
}

/// Intent description for logging and debugging.
pub fn intent_description(intent: QueryIntent) -> (s: &'static str)
    ensures
        s@ == description(intent),
{
    match intent {
        QueryIntent::Why => "WHY (causal reasoning)",
        QueryIntent::When => "WHEN (temporal recall)",
        QueryIntent::Entity => "ENTITY (named entity lookup)",
        QueryIntent::What => "WHAT (general recall)",
    }
}

} // verus!
