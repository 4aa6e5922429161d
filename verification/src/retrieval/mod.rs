//! Retrieval layer: query intent, search records, reranking and causal graph
//! expansion.

pub mod search;
pub mod graph;

pub use search::{QueryIntent, SearchHit, SearchRequest};
pub use graph::expand_with_causal_graph;
pub mod intent;
pub mod rerank;

pub use intent::{classify_intent, intent_description};
pub use rerank::rerank_candidates;
