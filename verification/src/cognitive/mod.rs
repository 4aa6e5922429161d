//! Cognitive layer: decision extraction, causal edges, adaptive memory
//! metadata, feedback and conflict detection.

pub mod extract;
pub mod graph;


pub use extract::{extract_decisions, DecisionType, ExtractDecision};
pub use graph::{build_causal_edges, RelationType};

pub mod feedback;
pub use feedback::{process_feedback, FeedbackSignal};
pub mod amem;
pub use amem::{enrich_memory, extract_keywords, extract_tags};
pub mod conflict;
pub use conflict::{contains_negation, contains_status, detect_conflicts, Conflict};
