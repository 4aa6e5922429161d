//! Causal graph construction.

use vstd::prelude::*;
use crate::cognitive::extract::{DecisionType, ExtractDecision};
use crate::storage::frame::string_views;

verus! {

/// Relation types between memory nodes.
#[derive(Debug, Clone, Copy, PartialEq, Eq, Structural)]
pub enum RelationType {
    Cause,
    Effect,
    Semantic,
    Temporal,
    Contradicts,
    Supports,
}

/// A relation edge in the knowledge graph. Confidence is in basis points.
#[derive(Debug, Clone)]
pub struct Relation {
    pub source_id: String,
    pub target_id: String,
    pub rel_type: RelationType,
    pub confidence: u32,
}

/// A relation taken by the views of its identifiers.
pub type RelationView = (Seq<char>, Seq<char>, RelationType, u32);

/// Views of relations.
pub open spec fn relation_views(rs: Seq<Relation>) -> Seq<RelationView> {
    rs.map_values(|r: Relation| (r.source_id@, r.target_id@, r.rel_type, r.confidence))
}

/// Confidence of a contradiction edge, in basis points (0.75).
pub open spec fn contradiction_confidence() -> u32 {
    7500
}

/// The contradiction edges of one decision: from each frame it supersedes to
/// the decision's title.
pub open spec fn contradiction_edges(d: ExtractDecision) -> Seq<RelationView> {
    d.contradicts@.map_values(|c: String| (c@, d.title@, RelationType::Contradicts, contradiction_confidence()))
}

/// `rs` with edge `e` added at the end, unless it is already there.
pub open spec fn add_edge(rs: Seq<RelationView>, e: RelationView) -> Seq<RelationView> {
    if rs.contains(e) {
        rs
    } else {
        rs.push(e)
    }
}

/// `rs` with the edges of `es` added in order, each unless already there.
pub open spec fn add_edges(rs: Seq<RelationView>, es: Seq<RelationView>) -> Seq<RelationView>
    decreases es.len(),
{
    if es.len() == 0 {
        rs
    } else {
        add_edge(add_edges(rs, es.drop_last()), es.last())
    }
}

/// The edges built from a list of decisions when there are existing decisions
/// to relate them to: the contradiction edges of every decision that is not a
/// fact, in order, each edge once.
pub open spec fn causal_edges(ds: Seq<ExtractDecision>, has_existing: bool) -> Seq<RelationView>
    decreases ds.len(),
{
    if ds.len() == 0 {
        Seq::empty()
    } else {
        let prev = causal_edges(ds.drop_last(), has_existing);
        let d = ds.last();
        if !has_existing || d.decision_type == DecisionType::Fact {
            prev
        } else {
            add_edges(prev, contradiction_edges(d))
        }
    }
}

impl RelationType {
    /// The lowercase name of the relation type.
    pub open spec fn name(self) -> Seq<char> {
        match self {
            RelationType::Cause => "cause"@,
            RelationType::Effect => "effect"@,
            RelationType::Semantic => "semantic"@,
            RelationType::Temporal => "temporal"@,
            RelationType::Contradicts => "contradicts"@,
            RelationType::Supports => "supports"@,
        }
    }

    /// The lowercase name of the relation type.
    pub fn as_str(&self) -> (s: &'static str)
        ensures
            s@ == self.name(),
    {
        match self {
            RelationType::Cause => "cause",
            RelationType::Effect => "effect",
            RelationType::Semantic => "semantic",
            RelationType::Temporal => "temporal",
            RelationType::Contradicts => "contradicts",
            RelationType::Supports => "supports",
        }
    }
}

/// Whether `rs` holds the contradiction edge from `source` to `target`.
fn has_contradiction(rs: &Vec<Relation>, source: &String, target: &String) -> (b: bool)
    ensures
        b == relation_views(rs@).contains((source@, target@, RelationType::Contradicts, contradiction_confidence())),
{
    let ghost e = (source@, target@, RelationType::Contradicts, contradiction_confidence());
    let ghost vs = relation_views(rs@);
    let mut i: usize = 0;
    while i < rs.len()
        invariant
            i <= rs.len(),
            vs == relation_views(rs@),
            e == (source@, target@, RelationType::Contradicts, contradiction_confidence()),
            forall|k: int| 0 <= k < i ==> vs[k] != e,
        decreases rs.len() - i,
    {
        let r = &rs[i];
        assert(vs[i as int] == (r.source_id@, r.target_id@, r.rel_type, r.confidence));
        let same_source = r.source_id == *source;
        let same_target = r.target_id == *target;
        let same_kind = r.rel_type == RelationType::Contradicts;
        let same_conf = r.confidence == 7500;
        if same_source && same_target && same_kind && same_conf {
            assert(vs[i as int] == e);
            return true;
        }
        i += 1;
    }
    false
}

/// Builds edges from extracted decisions. Only contradictions are inferred:
/// when there are existing decisions, every frame that a decision (other than
/// a fact) supersedes gets a `Contradicts` edge to the decision's title, with
/// confidence 0.75. Each edge comes out once, in order of first appearance.
pub fn build_causal_edges(
    decisions: &[ExtractDecision],
    existing_decisions: &[(String, ExtractDecision)],
) -> (r: Vec<Relation>)
    ensures
        relation_views(r@) == causal_edges(decisions@, existing_decisions@.len() > 0),
{
    let mut relations: Vec<Relation> = Vec::new();
    let has_existing = existing_decisions.len() > 0;
    let mut i: usize = 0;
    assert(relation_views(relations@) =~= causal_edges(decisions@.take(0), has_existing));
    while i < decisions.len()
        invariant
            i <= decisions.len(),
            has_existing == (existing_decisions@.len() > 0),
            relation_views(relations@) == causal_edges(decisions@.take(i as int), has_existing),
        decreases decisions.len() - i,
    {
        let decision = &decisions[i];
        let ghost start = relation_views(relations@);
        let ghost edges = contradiction_edges(*decision);
        if has_existing && decision.decision_type != DecisionType::Fact {
            let mut c: usize = 0;
            assert(edges.take(0) =~= Seq::<RelationView>::empty());
            while c < decision.contradicts.len()
                invariant
                    c <= decision.contradicts.len(),
                    edges == contradiction_edges(*decision),
                    relation_views(relations@) == add_edges(start, edges.take(c as int)),
                decreases decision.contradicts.len() - c,
            {
                assert(edges.take(c + 1).drop_last() =~= edges.take(c as int));
                assert(edges.take(c + 1).last() == edges[c as int]);
                let present = has_contradiction(&relations, &decision.contradicts[c], &decision.title);
                if !present {
                    let ghost b2 = relations@;
                    relations.push(Relation {
                        source_id: decision.contradicts[c].clone(),
                        target_id: decision.title.clone(),
                        rel_type: RelationType::Contradicts,
                        confidence: 7500,
                    });
                    assert(relation_views(relations@) =~= relation_views(b2).push(edges[c as int]));
                }
                c += 1;
            }
            assert(edges.take(decision.contradicts.len() as int) =~= edges);
        }
        assert(decisions@.take(i + 1).drop_last() =~= decisions@.take(i as int));
        assert(decisions@.take(i + 1).last() == *decision);
        i += 1;
    }
    assert(decisions@.take(decisions.len() as int) =~= decisions@);
    relations
}

/// Adding edges keeps a list free of repeats and holds exactly the old edges
/// and the added ones.
proof fn lemma_add_edges(rs: Seq<RelationView>, es: Seq<RelationView>)
    ensures
        rs.no_duplicates() ==> add_edges(rs, es).no_duplicates(),
        forall|e: RelationView| #[trigger] add_edges(rs, es).contains(e) <==> (rs.contains(e) || es.contains(e)),
    decreases es.len(),
{
    if es.len() > 0 {
        let p = es.drop_last();
        let x = es.last();
        lemma_add_edges(rs, p);
        let a = add_edges(rs, p);
        let r = add_edges(rs, es);
        assert(es[es.len() - 1] == x);
        if !a.contains(x) {
            assert forall|i: int, j: int| 0 <= i < j < r.len() && a.no_duplicates() implies r[i] != r[j] by {
                if j == a.len() {
                    assert(r[i] == a[i]);
                } else {
                    assert(r[i] == a[i] && r[j] == a[j]);
                }
            }
        }
        assert forall|e: RelationView| #[trigger] r.contains(e) <==> (rs.contains(e) || es.contains(e)) by {
            if p.contains(e) {
                let k = choose|k: int| 0 <= k < p.len() && p[k] == e;
                assert(es[k] == p[k]);
            }
            if es.contains(e) && e != x {
                let k = choose|k: int| 0 <= k < es.len() && es[k] == e;
                assert(p[k] == es[k]);
            }
            if r.contains(e) && !a.contains(e) {
                let k = choose|k: int| 0 <= k < r.len() && r[k] == e;
                if k < a.len() {
                    assert(r[k] == a[k]);
                }
            }
            if a.contains(e) && !r.contains(e) {
                let k = choose|k: int| 0 <= k < a.len() && a[k] == e;
                assert(r[k] == a[k]);
            }
            if e == x && !a.contains(e) {
                assert(r[r.len() - 1] == x);
            }
        }
    }
}

/// The edges built from decisions are free of repeats, and are exactly the
/// contradiction edges of the decisions that are not facts (none when there is
/// no existing decision).
pub proof fn causal_edges_are_the_contradictions_once(ds: Seq<ExtractDecision>, has_existing: bool)
    ensures
        causal_edges(ds, has_existing).no_duplicates(),
        forall|e: RelationView| #[trigger] causal_edges(ds, has_existing).contains(e) <==> (has_existing
            && exists|j: int| 0 <= j < ds.len() && ds[j].decision_type != DecisionType::Fact
                && #[trigger] contradiction_edges(ds[j]).contains(e)),
    decreases ds.len(),
{
    if ds.len() > 0 {
        let p = ds.drop_last();
        let d = ds.last();
        causal_edges_are_the_contradictions_once(p, has_existing);
        let prev = causal_edges(p, has_existing);
        lemma_add_edges(prev, contradiction_edges(d));
        assert(ds[ds.len() - 1] == d);
        assert forall|e: RelationView| #[trigger] causal_edges(ds, has_existing).contains(e) <==> (has_existing
            && exists|j: int| 0 <= j < ds.len() && ds[j].decision_type != DecisionType::Fact
                && #[trigger] contradiction_edges(ds[j]).contains(e)) by {
            if exists|j: int| 0 <= j < ds.len() && ds[j].decision_type != DecisionType::Fact
                && #[trigger] contradiction_edges(ds[j]).contains(e) {
                let j = choose|j: int| 0 <= j < ds.len() && ds[j].decision_type != DecisionType::Fact
                    && #[trigger] contradiction_edges(ds[j]).contains(e);
                if j < p.len() {
                    assert(p[j] == ds[j]);
                }
            }
            if exists|j: int| 0 <= j < p.len() && p[j].decision_type != DecisionType::Fact
                && #[trigger] contradiction_edges(p[j]).contains(e) {
                let j = choose|j: int| 0 <= j < p.len() && p[j].decision_type != DecisionType::Fact
                    && #[trigger] contradiction_edges(p[j]).contains(e);
                assert(ds[j] == p[j]);
            }
        }
    }
}

/// Every edge built from decisions is a contradiction with confidence 0.75,
/// from a frame that a decision (not a fact) supersedes to that decision's
/// title.
pub proof fn causal_edges_are_contradictions(ds: Seq<ExtractDecision>, has_existing: bool)
    ensures
        forall|k: int| 0 <= k < causal_edges(ds, has_existing).len() ==> {
            let r = #[trigger] causal_edges(ds, has_existing)[k];
            &&& r.2 == RelationType::Contradicts
            &&& r.3 == contradiction_confidence()
            &&& exists|j: int| 0 <= j < ds.len() && ds[j].decision_type != DecisionType::Fact
                && ds[j].title@ == r.1 && string_views(ds[j].contradicts@).contains(r.0)
        },
{
    causal_edges_are_the_contradictions_once(ds, has_existing);
    let c = causal_edges(ds, has_existing);
    assert forall|k: int| 0 <= k < c.len() implies {
        let r = #[trigger] c[k];
        &&& r.2 == RelationType::Contradicts
        &&& r.3 == contradiction_confidence()
        &&& exists|j: int| 0 <= j < ds.len() && ds[j].decision_type != DecisionType::Fact
            && ds[j].title@ == r.1 && string_views(ds[j].contradicts@).contains(r.0)
    } by {
        let r = c[k];
        assert(c.contains(r));
        let j = choose|j: int| 0 <= j < ds.len() && ds[j].decision_type != DecisionType::Fact
            && #[trigger] contradiction_edges(ds[j]).contains(r);
        let es = contradiction_edges(ds[j]);
        let m = choose|m: int| 0 <= m < es.len() && es[m] == r;
        assert(string_views(ds[j].contradicts@)[m] == r.0);
    }
}

} // verus!
