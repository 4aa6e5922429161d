//! Decisions extracted from session transcripts.

use vstd::prelude::*;

verus! {

/// Decision type.
#[derive(Debug, Clone, Copy, PartialEq, Eq, Structural)]
pub enum DecisionType {
    Decision,
    Observation,
    Preference,
    Fact,
}

impl Default for DecisionType {
    fn default() -> (r: Self)
        ensures
            r == DecisionType::Fact,
    {
        DecisionType::Fact
    }
}

/// A key-value fact extracted from a transcript.
#[derive(Debug, Clone)]
pub struct Fact {
    pub key: String,
    pub value: String,
}

/// A decision or observation extracted from a session. Confidence is in
/// basis points (1/10000).
#[derive(Debug, Clone)]
pub struct ExtractDecision {
    pub decision_type: DecisionType,
    pub title: String,
    pub facts: Vec<Fact>,
    pub narrative: String,
    /// Identifiers of the frames of superseded decisions.
    pub contradicts: Vec<String>,
    pub confidence: u32,
}

/// Extracts decisions from a transcript. No extraction model is wired in, so
/// no transcript, blank or not, yields any decision.
pub fn extract_decisions(transcript: &str) -> (r: Vec<ExtractDecision>)
    ensures
        r@.len() == 0,
{
    Vec::new()
}

} // verus!
