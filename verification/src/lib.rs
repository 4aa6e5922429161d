//! Memos — an agent memory system: memory frames, retrieval heuristics,
//! a causal-graph expansion, adaptive-memory metadata and feedback rules.
//!
//! Real-valued quantities (confidences, scores, weights) are held in basis
//! points: 10000 stands for 1.0.

pub mod bindings;
pub mod text;
pub mod ranking;
pub mod storage;
pub mod retrieval;
pub mod cognitive;
pub mod config;
pub mod hooks;
pub mod api;

pub use bindings::Timestamp;
pub use config::Config;
pub use retrieval::{QueryIntent, SearchHit, SearchRequest};
pub use cognitive::{ExtractDecision, RelationType};
pub use storage::frame::{LifecycleState, MemoryFrame, MemoryType, PutOptions};
pub use vstd::hash_map::StringHashMap;
