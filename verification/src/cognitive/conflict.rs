//! Conflict detection: finding decisions that contradict earlier ones.

use vstd::prelude::*;
use crate::cognitive::extract::ExtractDecision;
use crate::storage::frame::{MemoryFrame, MemoryType};
use crate::bindings::regex_search;
use crate::text::{any_pattern_matches, concat, matches_any, str_views};

verus! {

/// Patterns that indicate negation or a change of value; the plain negations
/// are matched ignoring case.
pub open spec fn negation_patterns() -> Seq<Seq<char>> {
    seq![
        "(?i)\\bnot\\b|\\bno\\b|\\bnever\\b|\\bdon't\\b|\\bdoesn't\\b|\\bdidn't\\b|\\bwon't\\b|\\bwouldn't\\b"@,
        "\\bchange[sd]?\\b|\\balter[ed]?\\b|\\breplac[ed]?\\b|\\bswitch[ed]?\\b"@,
        "\\bhowever\\b|\\bbut\\b|\\byet\\b|\\balthough\\b"@,
    ]
}

/// Patterns that indicate status transitions; the status keywords are matched
/// as written, the `was ... now` transition ignoring case.
pub open spec fn status_patterns() -> Seq<Seq<char>> {
    seq![
        "\\bTODO\\b|\\bDONE\\b|\\bIN PROGRESS\\b|\\bBLOCKED\\b|\\bCOMPLETED\\b"@,
        "(?i:\\bwas\\b.*\\bnow\\b)|\\bchanged\\b|\\bupdated\\b"@,
    ]
}

/// Whether a text contains a negation or change of value.
pub fn contains_negation(text: &str) -> (b: bool)
    ensures
        b == any_pattern_matches(negation_patterns(), text@),
{
    let pats: [&str; 3] = [
        "(?i)\\bnot\\b|\\bno\\b|\\bnever\\b|\\bdon't\\b|\\bdoesn't\\b|\\bdidn't\\b|\\bwon't\\b|\\bwouldn't\\b",
        "\\bchange[sd]?\\b|\\balter[ed]?\\b|\\breplac[ed]?\\b|\\bswitch[ed]?\\b",
        "\\bhowever\\b|\\bbut\\b|\\byet\\b|\\balthough\\b",
    ];
    assert(str_views(pats@) =~= negation_patterns());
    matches_any(&pats, text)
}

/// Whether a text contains a status keyword or transition.
pub fn contains_status(text: &str) -> (b: bool)
    ensures
        b == any_pattern_matches(status_patterns(), text@),
{
    let pats: [&str; 2] = [
        "\\bTODO\\b|\\bDONE\\b|\\bIN PROGRESS\\b|\\bBLOCKED\\b|\\bCOMPLETED\\b",
        "(?i:\\bwas\\b.*\\bnow\\b)|\\bchanged\\b|\\bupdated\\b",
    ];
    assert(str_views(pats@) =~= status_patterns());
    matches_any(&pats, text)
}

/// A detected conflict between two decisions. Severity is in basis points.
#[derive(Debug, Clone)]
pub struct Conflict {
    /// The newer decision that supersedes.
    pub new_id: String,
    /// The older decision that was contradicted.
    pub old_id: String,
    /// Severity of contradiction.
    pub severity: u32,
    /// Human-readable reason.
    pub reason: String,
}

/// A conflict taken by the views of its texts.
pub type ConflictView = (Seq<char>, Seq<char>, u32, Seq<char>);

/// Views of conflicts.
pub open spec fn conflict_views(cs: Seq<Conflict>) -> Seq<ConflictView> {
    cs.map_values(|c: Conflict| (c.new_id@, c.old_id@, c.severity, c.reason@))
}

/// Severity of a detected conflict, in basis points (0.25).
pub open spec fn conflict_severity() -> u32 {
    2500
}

/// The narrative of a frame: its context description, or its content when the
/// description is empty.
pub open spec fn narrative_of(f: MemoryFrame) -> Seq<char> {
    if f.context_desc@.len() > 0 {
        f.context_desc@
    } else {
        f.content@
    }
}

/// The reason given for a conflict.
pub open spec fn conflict_reason(new_title: Seq<char>, prior_title: Seq<char>) -> Seq<char> {
    "Decision '"@ + new_title + "' appears to contradict prior decision '"@ + prior_title + "'"@
}

/// A prior frame conflicts with a new decision when it is a decision of
/// another title, both narratives hold a negation, and exactly one of them
/// holds a status keyword.
pub open spec fn conflicts_with(new: ExtractDecision, prior: MemoryFrame) -> bool {
    &&& prior.memory_type == MemoryType::Decision
    &&& prior.title@ != new.title@
    &&& any_pattern_matches(negation_patterns(), narrative_of(prior))
    &&& any_pattern_matches(negation_patterns(), new.narrative@)
    &&& any_pattern_matches(status_patterns(), narrative_of(prior))
        != any_pattern_matches(status_patterns(), new.narrative@)
}

/// The conflicts of a new decision with a list of frames, in order.
pub open spec fn conflicts_among(new: ExtractDecision, existing: Seq<MemoryFrame>) -> Seq<ConflictView>
    decreases existing.len(),
{
    if existing.len() == 0 {
        Seq::empty()
    } else {
        let prior = existing.last();
        conflicts_among(new, existing.drop_last()) + if conflicts_with(new, prior) {
            seq![(new.title@, prior.frame_id@, conflict_severity(), conflict_reason(new.title@, prior.title@))]
        } else {
            Seq::<ConflictView>::empty()
        }
    }
}

impl MemoryFrame {
    /// Narrative text for conflict detection.
    pub fn narrative(&self) -> (s: String)
        ensures
            s@ == narrative_of(*self),
    {
        if !self.context_desc.as_str().is_empty() {
            self.context_desc.clone()
        } else {
            self.content.clone()
        }
    }
}

/// Detects conflicts between a new decision and prior decisions: each prior
/// decision with another title whose narrative, like the new one, holds a
/// negation, and which differs from the new one in holding a status keyword,
/// gives a conflict of severity 0.25 with a reason naming both titles.
pub fn detect_conflicts(new: &ExtractDecision, existing: &[MemoryFrame]) -> (r: Vec<Conflict>)
    ensures
        conflict_views(r@) == conflicts_among(*new, existing@),
{
    let mut conflicts: Vec<Conflict> = Vec::new();
    let mut i: usize = 0;
    assert(conflict_views(conflicts@) =~= conflicts_among(*new, existing@.take(0)));
    while i < existing.len()
        invariant
            i <= existing.len(),
            conflict_views(conflicts@) == conflicts_among(*new, existing@.take(i as int)),
        decreases existing.len() - i,
    {
        let prior = &existing[i];
        assert(existing@.take(i + 1).drop_last() =~= existing@.take(i as int));
        assert(existing@.take(i + 1).last() == *prior);
        if prior.memory_type == MemoryType::Decision && prior.title != new.title {
            let prior_narrative = prior.narrative();
            let prior_has_negation = contains_negation(prior_narrative.as_str());
            let new_has_negation = contains_negation(new.narrative.as_str());
            let prior_has_status = contains_status(prior_narrative.as_str());
            let new_has_status = contains_status(new.narrative.as_str());
            if prior_has_negation && new_has_negation && prior_has_status != new_has_status {
                let r1 = concat("Decision '", new.title.as_str());
                let r2 = concat(r1.as_str(), "' appears to contradict prior decision '");
                let r3 = concat(r2.as_str(), prior.title.as_str());
                let reason = concat(r3.as_str(), "'");
                let ghost b = conflicts@;
                conflicts.push(Conflict {
                    new_id: new.title.clone(),
                    old_id: prior.frame_id.clone(),
                    severity: 2500,
                    reason,
                });
                assert(conflict_views(conflicts@) =~= conflict_views(b).push(
                    (new.title@, prior.frame_id@, conflict_severity(), conflict_reason(new.title@, prior.title@)),
                ));
            }
        }
        i += 1;
    }
    assert(existing@.take(existing.len() as int) =~= existing@);
    conflicts
}

/// Every conflict names the new decision's title, a prior frame that is a
/// decision of another title, and severity 0.25.
pub proof fn conflicts_name_prior_decisions(new: ExtractDecision, existing: Seq<MemoryFrame>)
    ensures
        forall|k: int| 0 <= k < conflicts_among(new, existing).len() ==> {
            let c = #[trigger] conflicts_among(new, existing)[k];
            &&& c.0 == new.title@
            &&& c.2 == conflict_severity()
            &&& exists|j: int| 0 <= j < existing.len() && existing[j].frame_id@ == c.1
                && existing[j].memory_type == MemoryType::Decision && existing[j].title@ != new.title@
        },
    decreases existing.len(),
{
    if existing.len() > 0 {
        let p = existing.drop_last();
        conflicts_name_prior_decisions(new, p);
        let head = conflicts_among(new, p);
        assert forall|k: int| 0 <= k < conflicts_among(new, existing).len() implies {
            let c = #[trigger] conflicts_among(new, existing)[k];
            &&& c.0 == new.title@
            &&& c.2 == conflict_severity()
            &&& exists|j: int| 0 <= j < existing.len() && existing[j].frame_id@ == c.1
                && existing[j].memory_type == MemoryType::Decision && existing[j].title@ != new.title@
        } by {
            if k < head.len() {
                let c = head[k];
                let j = choose|j: int| 0 <= j < p.len() && p[j].frame_id@ == c.1
                    && p[j].memory_type == MemoryType::Decision && p[j].title@ != new.title@;
                assert(existing[j] == p[j]);
            } else {
                assert(existing[existing.len() - 1] == existing.last());
            }
        }
    }
}


/// Which conflicts are in the list: each is `conflicts_with` some frame of
/// `existing`, and each frame that conflicts has its entry.
proof fn lemma_conflicts_among_members(new: ExtractDecision, existing: Seq<MemoryFrame>)
    ensures
        forall|k: int| 0 <= k < conflicts_among(new, existing).len() ==> exists|j: int|
            0 <= j < existing.len() && conflicts_with(new, #[trigger] existing[j])
                && #[trigger] conflicts_among(new, existing)[k] == (new.title@, existing[j].frame_id@, conflict_severity(),
                    conflict_reason(new.title@, existing[j].title@)),
        forall|j: int| 0 <= j < existing.len() && conflicts_with(new, #[trigger] existing[j]) ==>
            conflicts_among(new, existing).contains((new.title@, existing[j].frame_id@, conflict_severity(),
                conflict_reason(new.title@, existing[j].title@))),
    decreases existing.len(),
{
    if existing.len() > 0 {
        let p = existing.drop_last();
        let prior = existing.last();
        lemma_conflicts_among_members(new, p);
        let head = conflicts_among(new, p);
        let all = conflicts_among(new, existing);
        let entry = (new.title@, prior.frame_id@, conflict_severity(), conflict_reason(new.title@, prior.title@));
        assert(existing[existing.len() - 1] == prior);
        assert forall|k: int| 0 <= k < all.len() implies exists|j: int|
            0 <= j < existing.len() && conflicts_with(new, #[trigger] existing[j])
                && #[trigger] all[k] == (new.title@, existing[j].frame_id@, conflict_severity(),
                    conflict_reason(new.title@, existing[j].title@)) by {
            if k < head.len() {
                assert(all[k] == head[k]);
                let j = choose|j: int| 0 <= j < p.len() && conflicts_with(new, #[trigger] p[j])
                    && head[k] == (new.title@, p[j].frame_id@, conflict_severity(),
                        conflict_reason(new.title@, p[j].title@));
                assert(existing[j] == p[j]);
            } else {
                assert(all[k] == entry);
            }
        }
        assert forall|j: int| 0 <= j < existing.len() && conflicts_with(new, #[trigger] existing[j]) implies
            all.contains((new.title@, existing[j].frame_id@, conflict_severity(),
                conflict_reason(new.title@, existing[j].title@))) by {
            if j < p.len() {
                assert(p[j] == existing[j]);
                let e = (new.title@, p[j].frame_id@, conflict_severity(), conflict_reason(new.title@, p[j].title@));
                assert(head.contains(e));
                let k = choose|k: int| 0 <= k < head.len() && head[k] == e;
                assert(all[k] == head[k]);
            } else {
                assert(all[all.len() - 1] == entry);
            }
        }
    }
}

/// Whether some regular expression of the list matches the text.
pub open spec fn matched_by_any(patterns: Seq<Seq<char>>, text: Seq<char>) -> bool {
    exists|i: int| 0 <= i < patterns.len() && regex_search(#[trigger] patterns[i], text) == Some(true)
}

/// The conflicts of a new decision are exactly its opposed prior decisions. A
/// prior frame is opposed when it is a decision of another title, both its
/// narrative and the new one hold a negation (`(?i)\bnot\b|\bno\b|...`,
/// `\bchange[sd]?\b|...` or `\bhowever\b|...`), and exactly one of the two
/// holds a status (`\bTODO\b|...` or `(?i:\bwas\b.*\bnow\b)|\bchanged\b|
/// \bupdated\b`). Each conflict names the new title and the prior frame, has
/// severity 0.25 and a reason naming both titles, and every opposed prior
/// decision has its conflict.
pub proof fn conflicts_are_the_opposed_decisions(new: ExtractDecision, existing: Seq<MemoryFrame>)
    ensures
        ({
            let neg = seq![
                "(?i)\\bnot\\b|\\bno\\b|\\bnever\\b|\\bdon't\\b|\\bdoesn't\\b|\\bdidn't\\b|\\bwon't\\b|\\bwouldn't\\b"@,
                "\\bchange[sd]?\\b|\\balter[ed]?\\b|\\breplac[ed]?\\b|\\bswitch[ed]?\\b"@,
                "\\bhowever\\b|\\bbut\\b|\\byet\\b|\\balthough\\b"@,
            ];
            let status = seq![
                "\\bTODO\\b|\\bDONE\\b|\\bIN PROGRESS\\b|\\bBLOCKED\\b|\\bCOMPLETED\\b"@,
                "(?i:\\bwas\\b.*\\bnow\\b)|\\bchanged\\b|\\bupdated\\b"@,
            ];
            let r = conflicts_among(new, existing);
            &&& forall|k: int| 0 <= k < r.len() ==> exists|j: int| 0 <= j < existing.len()
                && #[trigger] r[k] == (new.title@, existing[j].frame_id@, 2500u32,
                    "Decision '"@ + new.title@ + "' appears to contradict prior decision '"@ + existing[j].title@ + "'"@)
                && existing[j].memory_type == MemoryType::Decision
                && existing[j].title@ != new.title@
                && matched_by_any(neg, narrative_of(existing[j]))
                && matched_by_any(neg, new.narrative@)
                && matched_by_any(status, narrative_of(existing[j])) != matched_by_any(status, new.narrative@)
            &&& forall|j: int| 0 <= j < existing.len()
                && (#[trigger] existing[j]).memory_type == MemoryType::Decision
                && existing[j].title@ != new.title@
                && matched_by_any(neg, narrative_of(existing[j]))
                && matched_by_any(neg, new.narrative@)
                && matched_by_any(status, narrative_of(existing[j])) != matched_by_any(status, new.narrative@)
                ==> exists|k: int| 0 <= k < r.len() && #[trigger] r[k].1 == existing[j].frame_id@
        }),
{
    lemma_conflicts_among_members(new, existing);
    let r = conflicts_among(new, existing);
    assert forall|j: int| 0 <= j < existing.len() && conflicts_with(new, #[trigger] existing[j]) implies
        exists|k: int| 0 <= k < r.len() && #[trigger] r[k].1 == existing[j].frame_id@ by {
        let e = (new.title@, existing[j].frame_id@, conflict_severity(), conflict_reason(new.title@, existing[j].title@));
        assert(r.contains(e));
        let k = choose|k: int| 0 <= k < r.len() && r[k] == e;
        assert(r[k].1 == existing[j].frame_id@);
    }
}

} // verus!
