//! Search requests, hits and query intents.

use vstd::prelude::*;
use crate::bindings::{to_uppercase, unicode_uppercase, Timestamp};
use crate::text::str_eq;

verus! {

/// Query intent classification.
#[derive(Debug, Clone, Copy, PartialEq, Eq, Structural)]
pub enum QueryIntent {
    /// "why did we decide X": causal reasoning.
    Why,
    /// "when was Y discussed": temporal.
    When,
    /// "who worked on Z": entity lookup.
    Entity,
    /// General recall.
    What,
}

impl Default for QueryIntent {
    fn default() -> (r: Self)
        ensures
            r == QueryIntent::What,
    {
        QueryIntent::What
    }
}

impl QueryIntent {
    /// The intent an uppercase hint names: `WHY`, `WHEN`, `ENTITY`; any
    /// other text means WHAT.
    pub open spec fn from_hint_name(n: Seq<char>) -> QueryIntent {
        if n == "WHY"@ {
            QueryIntent::Why
        } else if n == "WHEN"@ {
            QueryIntent::When
        } else if n == "ENTITY"@ {
            QueryIntent::Entity
        } else {
            QueryIntent::What
        }
    }

    /// Reads an intent hint, ignoring case: `why`, `when` and `entity` name
    /// their intents, and any other hint means WHAT.
    pub fn from_hint(hint: &str) -> (r: QueryIntent)
        ensures
            r == QueryIntent::from_hint_name(unicode_uppercase(hint@)),
    {
        let upper = to_uppercase(hint);
        let u = upper.as_str();
        if str_eq(u, "WHY") {
            QueryIntent::Why
        } else if str_eq(u, "WHEN") {
            QueryIntent::When
        } else if str_eq(u, "ENTITY") {
            QueryIntent::Entity
        } else {
            QueryIntent::What
        }
    }
}

/// Search request.
#[derive(Debug, Clone)]
pub struct SearchRequest {
    /// The query string.
    pub query: String,
    /// Maximum results to return.
    pub top_k: usize,
    /// Optional intent hint.
    pub intent: Option<QueryIntent>,
    /// Whether to include causal graph expansion.
    pub expand_graph: bool,
    /// Whether to rerank results.
    pub rerank: bool,
    /// Snippet character limit.
    pub snippet_chars: usize,
}

impl Default for SearchRequest {
    fn default() -> (r: Self)
        ensures
            r.query@ == Seq::<char>::empty(),
            r.top_k == 10,
            r.intent is None,
            r.expand_graph,
            r.rerank,
            r.snippet_chars == 200,
    {
        SearchRequest {
            query: String::new(),
            top_k: 10,
            intent: None,
            expand_graph: true,
            rerank: true,
            snippet_chars: 200,
        }
    }
}

/// A search hit. Score and confidence are in basis points (1/10000).
#[derive(Debug, Clone)]
pub struct SearchHit {
    pub frame_id: String,
    pub title: String,
    pub snippet: String,
    pub memory_type: String,
    pub score: u32,
    pub confidence: u32,
    pub tags: Vec<String>,
    pub created_at: Timestamp,
}

} // verus!
