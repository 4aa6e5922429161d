//! Causal graph expansion for WHY and ENTITY queries.
//!
//! Scores and edge weights are basis points (1/10000): 10000 stands for 1.0.

use vstd::prelude::*;
use vstd::hash_map::StringHashMap;
use crate::ranking::{has_item, scored_views, view_fn, sort_by_score_desc, sort_desc, lemma_sort_desc_contains, lemma_sort_desc_keeps, lemma_sort_desc_len, lemma_sort_desc_map};
use crate::retrieval::search::QueryIntent;
use crate::storage::frame::string_views;

verus! {

/// An identifier with a score.
pub type ScoredId = (Seq<char>, u64);

/// The score an anchor starts with: 1.0.
pub open spec fn full_score() -> u64 {
    10_000
}

/// Score carried over an edge: `parent * 0.7 * edge`, rounded down, saturating.
pub open spec fn transition(parent: u64, edge: u64) -> u64 {
    let t = (parent as int) * 7 * (edge as int) / 100_000;
    if t > u64::MAX as int {
        u64::MAX
    } else {
        t as u64
    }
}

/// The outgoing weighted edges of node `n`.
pub open spec fn edges_of(g: Map<Seq<char>, Vec<(String, u64)>>, n: Seq<char>) -> Seq<ScoredId> {
    if g.contains_key(n) {
        scored_views(g[n]@)
    } else {
        Seq::empty()
    }
}

/// The state of the beam search between two visits.
pub struct Beam {
    /// Non-anchor nodes found so far, with the score they were reached with.
    pub expanded: Seq<ScoredId>,
    /// Nodes visited so far.
    pub visited: Seq<Seq<char>>,
    /// Candidates for the next hop.
    pub next: Seq<ScoredId>,
    /// Whether the result limit was reached.
    pub done: bool,
}

/// Appends the edges that lead to unvisited nodes, with their transition scores.
pub open spec fn push_edges(next: Seq<ScoredId>, edges: Seq<ScoredId>, visited: Seq<Seq<char>>, score: u64) -> Seq<ScoredId>
    decreases edges.len(),
{
    if edges.len() == 0 {
        next
    } else {
        let prev = push_edges(next, edges.drop_last(), visited, score);
        let e = edges.last();
        if visited.contains(e.0) {
            prev
        } else {
            prev.push((e.0, transition(score, e.1)))
        }
    }
}

/// Visiting one frontier node.
pub open spec fn visit(
    b: Beam,
    node: ScoredId,
    anchors: Seq<Seq<char>>,
    g: Map<Seq<char>, Vec<(String, u64)>>,
    max_results: nat,
) -> Beam {
    if b.visited.contains(node.0) {
        b
    } else {
        let visited = b.visited.push(node.0);
        let is_anchor = anchors.contains(node.0);
        let expanded = if is_anchor { b.expanded } else { b.expanded.push(node) };
        if !is_anchor && expanded.len() >= max_results {
            Beam { expanded, visited, next: b.next, done: true }
        } else {
            Beam { expanded, visited, next: push_edges(b.next, edges_of(g, node.0), visited, node.1), done: false }
        }
    }
}

/// Visiting the first `n` nodes of a frontier, stopping once the limit is reached.
pub open spec fn visit_all(
    b: Beam,
    frontier: Seq<ScoredId>,
    n: nat,
    anchors: Seq<Seq<char>>,
    g: Map<Seq<char>, Vec<(String, u64)>>,
    max_results: nat,
) -> Beam
    decreases n,
{
    if n == 0 {
        b
    } else {
        let p = visit_all(b, frontier, (n - 1) as nat, anchors, g, max_results);
        if p.done {
            p
        } else {
            visit(p, frontier[n - 1], anchors, g, max_results)
        }
    }
}

/// The frontier of the next hop: the best 20 candidates, highest score first.
pub open spec fn next_frontier(next: Seq<ScoredId>) -> Seq<ScoredId> {
    let s = sort_desc(next);
    if s.len() > 20 {
        s.take(20)
    } else {
        s
    }
}

/// Anchors, each with the full score.
pub open spec fn anchor_frontier(anchors: Seq<Seq<char>>) -> Seq<ScoredId> {
    anchors.map_values(|a: Seq<char>| (a, full_score()))
}

/// The empty beam.
pub open spec fn empty_beam() -> Beam {
    Beam { expanded: Seq::empty(), visited: Seq::empty(), next: Seq::empty(), done: false }
}

/// Beam and frontier after `h` rounds of visits; the frontier of round `h` is
/// at most `h` edges away from the anchors.
pub open spec fn beam_after(
    anchors: Seq<Seq<char>>,
    g: Map<Seq<char>, Vec<(String, u64)>>,
    max_results: nat,
    h: nat,
) -> (Beam, Seq<ScoredId>)
    decreases h,
{
    if h == 0 {
        (empty_beam(), anchor_frontier(anchors))
    } else {
        let prev = beam_after(anchors, g, max_results, (h - 1) as nat);
        let b = prev.0;
        let f = prev.1;
        if b.done || f.len() == 0 {
            prev
        } else {
            let p = visit_all(Beam { next: Seq::empty(), ..b }, f, f.len(), anchors, g, max_results);
            (p, next_frontier(p.next))
        }
    }
}

/// The result of expanding `anchors` over graph `g`. For WHY and ENTITY, the
/// nodes found in `max_hops + 1` rounds of visits: the anchors are visited in
/// the first round, and nodes `max_hops` edges away in the last.
pub open spec fn causal_expansion(
    intent: QueryIntent,
    anchors: Seq<Seq<char>>,
    g: Map<Seq<char>, Vec<(String, u64)>>,
    max_hops: nat,
    max_results: nat,
) -> Seq<ScoredId> {
    if intent == QueryIntent::Why || intent == QueryIntent::Entity {
        beam_after(anchors, g, max_results, max_hops + 1).0.expanded
    } else {
        anchor_frontier(anchors)
    }
}

/// Once the limit is reached, later visits change nothing.
proof fn lemma_visit_all_done(
    b: Beam,
    frontier: Seq<ScoredId>,
    n: nat,
    m: nat,
    anchors: Seq<Seq<char>>,
    g: Map<Seq<char>, Vec<(String, u64)>>,
    max_results: nat,
)
    requires
        n <= m,
        visit_all(b, frontier, n, anchors, g, max_results).done,
    ensures
        visit_all(b, frontier, m, anchors, g, max_results) == visit_all(b, frontier, n, anchors, g, max_results),
    decreases m,
{
    if m > n {
        lemma_visit_all_done(b, frontier, n, (m - 1) as nat, anchors, g, max_results);
    }
}

/// Once the search stopped, or its frontier is empty, later hops change nothing.
proof fn lemma_beam_stable(
    anchors: Seq<Seq<char>>,
    g: Map<Seq<char>, Vec<(String, u64)>>,
    max_results: nat,
    h1: nat,
    h2: nat,
)
    requires
        h1 <= h2,
        beam_after(anchors, g, max_results, h1).0.done || beam_after(anchors, g, max_results, h1).1.len() == 0,
    ensures
        beam_after(anchors, g, max_results, h2) == beam_after(anchors, g, max_results, h1),
    decreases h2,
{
    if h2 > h1 {
        lemma_beam_stable(anchors, g, max_results, h1, (h2 - 1) as nat);
    }
}

/// The limit on reported nodes: `max_results`, but at least one node is
/// reported before the limit is checked.
pub open spec fn result_cap(max_results: nat) -> nat {
    if max_results == 0 {
        1
    } else {
        max_results
    }
}

/// Reported nodes are distinct, visited, never anchors, and within the cap.
pub open spec fn beam_inv(b: Beam, anchors: Seq<Seq<char>>, max_results: nat) -> bool {
    &&& forall|i: int| 0 <= i < b.expanded.len() ==> !anchors.contains(#[trigger] b.expanded[i].0)
    &&& forall|i: int| 0 <= i < b.expanded.len() ==> b.visited.contains(#[trigger] b.expanded[i].0)
    &&& forall|i: int, j: int| 0 <= i < j < b.expanded.len() ==> #[trigger] b.expanded[i].0 != #[trigger] b.expanded[j].0
    &&& b.expanded.len() <= result_cap(max_results)
    &&& !b.done ==> (b.expanded.len() == 0 || b.expanded.len() < max_results)
}

proof fn lemma_visit_inv(
    b: Beam,
    node: ScoredId,
    anchors: Seq<Seq<char>>,
    g: Map<Seq<char>, Vec<(String, u64)>>,
    max_results: nat,
)
    requires
        beam_inv(b, anchors, max_results),
        !b.done,
    ensures
        beam_inv(visit(b, node, anchors, g, max_results), anchors, max_results),
{
    let r = visit(b, node, anchors, g, max_results);
    if !b.visited.contains(node.0) {
        let visited = b.visited.push(node.0);
        assert forall|i: int| 0 <= i < r.expanded.len() implies r.visited.contains(#[trigger] r.expanded[i].0) by {
            if i < b.expanded.len() {
                assert(b.visited.contains(b.expanded[i].0));
                let k = choose|k: int| 0 <= k < b.visited.len() && b.visited[k] == b.expanded[i].0;
                assert(visited[k] == b.expanded[i].0);
            } else {
                assert(visited[b.visited.len() as int] == node.0);
            }
        }
        assert forall|i: int, j: int| 0 <= i < j < r.expanded.len() implies #[trigger] r.expanded[i].0 != #[trigger] r.expanded[j].0 by {
            if j == b.expanded.len() && !anchors.contains(node.0) {
                assert(b.visited.contains(b.expanded[i].0));
            }
        }
    }
}

proof fn lemma_visit_all_inv(
    b: Beam,
    frontier: Seq<ScoredId>,
    n: nat,
    anchors: Seq<Seq<char>>,
    g: Map<Seq<char>, Vec<(String, u64)>>,
    max_results: nat,
)
    requires
        beam_inv(b, anchors, max_results),
        !b.done,
        n <= frontier.len(),
    ensures
        beam_inv(visit_all(b, frontier, n, anchors, g, max_results), anchors, max_results),
    decreases n,
{
    if n > 0 {
        lemma_visit_all_inv(b, frontier, (n - 1) as nat, anchors, g, max_results);
        let p = visit_all(b, frontier, (n - 1) as nat, anchors, g, max_results);
        if !p.done {
            lemma_visit_inv(p, frontier[n - 1], anchors, g, max_results);
        }
    }
}

proof fn lemma_beam_after_inv(
    anchors: Seq<Seq<char>>,
    g: Map<Seq<char>, Vec<(String, u64)>>,
    max_results: nat,
    h: nat,
)
    ensures
        beam_inv(beam_after(anchors, g, max_results, h).0, anchors, max_results),
    decreases h,
{
    if h > 0 {
        lemma_beam_after_inv(anchors, g, max_results, (h - 1) as nat);
        let prev = beam_after(anchors, g, max_results, (h - 1) as nat);
        if !(prev.0.done || prev.1.len() == 0) {
            let b0 = Beam { next: Seq::empty(), ..prev.0 };
            lemma_visit_all_inv(b0, prev.1, prev.1.len(), anchors, g, max_results);
        }
    }
}

/// Graph expansion for WHY and ENTITY reports each node at most once, never
/// an anchor, and no more than `max_results` nodes (one, when the limit is 0).
pub proof fn causal_expansion_reports_new_distinct_nodes(
    intent: QueryIntent,
    anchors: Seq<Seq<char>>,
    g: Map<Seq<char>, Vec<(String, u64)>>,
    max_hops: nat,
    max_results: nat,
)
    requires
        intent == QueryIntent::Why || intent == QueryIntent::Entity,
    ensures
        ({
            let r = causal_expansion(intent, anchors, g, max_hops, max_results);
            &&& forall|i: int| 0 <= i < r.len() ==> !anchors.contains(#[trigger] r[i].0)
            &&& forall|i: int, j: int| 0 <= i < j < r.len() ==> #[trigger] r[i].0 != #[trigger] r[j].0
            &&& r.len() <= result_cap(max_results)
        }),
{
    lemma_beam_after_inv(anchors, g, max_results, max_hops + 1);
}

/// Graph expansion for WHEN and WHAT gives back the anchors, in order, each
/// with the full score.
pub proof fn causal_expansion_keeps_anchors_without_graph_intent(
    intent: QueryIntent,
    anchors: Seq<Seq<char>>,
    g: Map<Seq<char>, Vec<(String, u64)>>,
    max_hops: nat,
    max_results: nat,
)
    requires
        intent == QueryIntent::When || intent == QueryIntent::What,
    ensures
        ({
            let r = causal_expansion(intent, anchors, g, max_hops, max_results);
            &&& r.len() == anchors.len()
            &&& forall|i: int| 0 <= i < r.len() ==> #[trigger] r[i] == (anchors[i], full_score())
        }),
{
}

/// Every edge weight of the graph is at most 1.0.
pub open spec fn weights_at_most_one(g: Map<Seq<char>, Vec<(String, u64)>>) -> bool {
    forall|n: Seq<char>, i: int| g.contains_key(n) && 0 <= i < g[n]@.len() ==> #[trigger] g[n]@[i].1 <= full_score()
}

/// The score an edge can carry at most when weights are at most 1.0: 0.7.
pub open spec fn one_hop_cap() -> u64 {
    7000
}

/// A frontier entry is at most 1.0, and at most 0.7 unless it is an anchor.
pub open spec fn frontier_entry_ok(e: ScoredId, anchors: Seq<Seq<char>>) -> bool {
    e.1 <= full_score() && (anchors.contains(e.0) || e.1 <= one_hop_cap())
}

/// Reported scores and next-hop candidates are at most 0.7.
pub open spec fn beam_scores_ok(b: Beam) -> bool {
    &&& forall|i: int| 0 <= i < b.expanded.len() ==> #[trigger] b.expanded[i].1 <= one_hop_cap()
    &&& forall|i: int| 0 <= i < b.next.len() ==> #[trigger] b.next[i].1 <= one_hop_cap()
}

proof fn lemma_transition_cap(parent: u64, edge: u64)
    requires
        parent <= full_score(),
        edge <= full_score(),
    ensures
        transition(parent, edge) <= one_hop_cap(),
{
    assert((parent as int) * 7 * (edge as int) / 100_000 <= 7000) by (nonlinear_arith)
        requires
            parent <= 10_000,
            edge <= 10_000,
    ;
}

proof fn lemma_push_edges_cap(next: Seq<ScoredId>, edges: Seq<ScoredId>, visited: Seq<Seq<char>>, score: u64)
    requires
        score <= full_score(),
        forall|i: int| 0 <= i < next.len() ==> #[trigger] next[i].1 <= one_hop_cap(),
        forall|i: int| 0 <= i < edges.len() ==> #[trigger] edges[i].1 <= full_score(),
    ensures
        forall|i: int| 0 <= i < push_edges(next, edges, visited, score).len() ==>
            #[trigger] push_edges(next, edges, visited, score)[i].1 <= one_hop_cap(),
    decreases edges.len(),
{
    if edges.len() > 0 {
        let p = edges.drop_last();
        assert forall|i: int| 0 <= i < p.len() implies #[trigger] p[i].1 <= full_score() by {
            assert(p[i] == edges[i]);
        }
        lemma_push_edges_cap(next, p, visited, score);
        let e = edges.last();
        assert(e == edges[edges.len() - 1]);
        lemma_transition_cap(score, e.1);
        let prev = push_edges(next, p, visited, score);
        if !visited.contains(e.0) {
            let r = prev.push((e.0, transition(score, e.1)));
            assert forall|i: int| 0 <= i < r.len() implies #[trigger] r[i].1 <= one_hop_cap() by {
                if i < prev.len() {
                    assert(r[i] == prev[i]);
                }
            }
        }
    }
}

proof fn lemma_visit_cap(
    b: Beam,
    node: ScoredId,
    anchors: Seq<Seq<char>>,
    g: Map<Seq<char>, Vec<(String, u64)>>,
    max_results: nat,
)
    requires
        weights_at_most_one(g),
        beam_scores_ok(b),
        frontier_entry_ok(node, anchors),
    ensures
        beam_scores_ok(visit(b, node, anchors, g, max_results)),
{
    if !b.visited.contains(node.0) {
        let es = edges_of(g, node.0);
        assert forall|i: int| 0 <= i < es.len() implies #[trigger] es[i].1 <= full_score() by {
            assert(es[i].1 == g[node.0]@[i].1);
        }
        lemma_push_edges_cap(b.next, es, b.visited.push(node.0), node.1);
    }
}

proof fn lemma_visit_all_cap(
    b: Beam,
    frontier: Seq<ScoredId>,
    n: nat,
    anchors: Seq<Seq<char>>,
    g: Map<Seq<char>, Vec<(String, u64)>>,
    max_results: nat,
)
    requires
        weights_at_most_one(g),
        beam_scores_ok(b),
        n <= frontier.len(),
        forall|i: int| 0 <= i < frontier.len() ==> frontier_entry_ok(#[trigger] frontier[i], anchors),
    ensures
        beam_scores_ok(visit_all(b, frontier, n, anchors, g, max_results)),
    decreases n,
{
    if n > 0 {
        lemma_visit_all_cap(b, frontier, (n - 1) as nat, anchors, g, max_results);
        let p = visit_all(b, frontier, (n - 1) as nat, anchors, g, max_results);
        if !p.done {
            lemma_visit_cap(p, frontier[n - 1], anchors, g, max_results);
        }
    }
}

proof fn lemma_beam_after_cap(
    anchors: Seq<Seq<char>>,
    g: Map<Seq<char>, Vec<(String, u64)>>,
    max_results: nat,
    h: nat,
)
    requires
        weights_at_most_one(g),
    ensures
        beam_scores_ok(beam_after(anchors, g, max_results, h).0),
        forall|i: int| 0 <= i < beam_after(anchors, g, max_results, h).1.len() ==>
            frontier_entry_ok(#[trigger] beam_after(anchors, g, max_results, h).1[i], anchors),
    decreases h,
{
    if h == 0 {
        let f = anchor_frontier(anchors);
        assert forall|i: int| 0 <= i < f.len() implies frontier_entry_ok(#[trigger] f[i], anchors) by {
            assert(anchors[i] == f[i].0);
        }
    } else {
        lemma_beam_after_cap(anchors, g, max_results, (h - 1) as nat);
        let prev = beam_after(anchors, g, max_results, (h - 1) as nat);
        if !(prev.0.done || prev.1.len() == 0) {
            let b0 = Beam { next: Seq::empty(), ..prev.0 };
            lemma_visit_all_cap(b0, prev.1, prev.1.len(), anchors, g, max_results);
            let p = visit_all(b0, prev.1, prev.1.len(), anchors, g, max_results);
            lemma_sort_desc_contains(p.next);
            lemma_sort_desc_len(p.next);
            let nf = next_frontier(p.next);
            assert forall|i: int| 0 <= i < nf.len() implies frontier_entry_ok(#[trigger] nf[i], anchors) by {
                assert(nf[i] == sort_desc(p.next)[i]);
                assert(p.next.contains(sort_desc(p.next)[i]));
                let k = choose|k: int| 0 <= k < p.next.len() && p.next[k] == nf[i];
                assert(p.next[k].1 <= one_hop_cap());
            }
        }
    }
}

/// Scores decay along edges: when no edge weighs more than 1.0, no node is
/// reported with a score above 0.7 (the one-hop decay).
pub proof fn causal_expansion_scores_decay(
    intent: QueryIntent,
    anchors: Seq<Seq<char>>,
    g: Map<Seq<char>, Vec<(String, u64)>>,
    max_hops: nat,
    max_results: nat,
)
    requires
        intent == QueryIntent::Why || intent == QueryIntent::Entity,
        weights_at_most_one(g),
    ensures
        forall|i: int| 0 <= i < causal_expansion(intent, anchors, g, max_hops, max_results).len() ==>
            #[trigger] causal_expansion(intent, anchors, g, max_hops, max_results)[i].1 <= one_hop_cap(),
{
    lemma_beam_after_cap(anchors, g, max_results, max_hops + 1);
}

/// Whether graph `g` has an edge from `m` to `n` over which score `ps`
/// becomes `s`.
pub open spec fn edge_step(g: Map<Seq<char>, Vec<(String, u64)>>, m: Seq<char>, ps: u64, n: Seq<char>, s: u64) -> bool {
    g.contains_key(m) && exists|j: int| 0 <= j < g[m]@.len() && #[trigger] g[m]@[j].0@ == n
        && s == transition(ps, g[m]@[j].1)
}

/// Whether node `n` is reached with score `s` along a path of at most `h`
/// edges from an anchor: the path starts at an anchor with the full score, and
/// each edge carries the score on with `transition`.
pub open spec fn reached_with(g: Map<Seq<char>, Vec<(String, u64)>>, anchors: Seq<Seq<char>>, n: Seq<char>, s: u64, h: nat) -> bool
    decreases h,
{
    if h == 0 {
        anchors.contains(n) && s == full_score()
    } else {
        reached_with(g, anchors, n, s, (h - 1) as nat)
            || exists|m: Seq<char>, ps: u64| #[trigger] edge_step(g, m, ps, n, s)
                && reached_with(g, anchors, m, ps, (h - 1) as nat)
    }
}

proof fn lemma_reached_mono(g: Map<Seq<char>, Vec<(String, u64)>>, anchors: Seq<Seq<char>>, n: Seq<char>, s: u64, h1: nat, h2: nat)
    requires
        h1 <= h2,
        reached_with(g, anchors, n, s, h1),
    ensures
        reached_with(g, anchors, n, s, h2),
    decreases h2,
{
    if h2 > h1 {
        lemma_reached_mono(g, anchors, n, s, h1, (h2 - 1) as nat);
    }
}

/// Every entry of a scored sequence is reached with its score along a path of
/// at most `h` edges.
pub open spec fn all_reached(g: Map<Seq<char>, Vec<(String, u64)>>, anchors: Seq<Seq<char>>, s: Seq<ScoredId>, h: nat) -> bool {
    forall|i: int| 0 <= i < s.len() ==> reached_with(g, anchors, #[trigger] s[i].0, s[i].1, h)
}

proof fn lemma_push_edges_reached(
    next: Seq<ScoredId>,
    edges: Seq<ScoredId>,
    visited: Seq<Seq<char>>,
    score: u64,
    g: Map<Seq<char>, Vec<(String, u64)>>,
    anchors: Seq<Seq<char>>,
    h: nat,
)
    requires
        all_reached(g, anchors, next, h),
        forall|i: int| 0 <= i < edges.len() ==> reached_with(g, anchors, #[trigger] edges[i].0, transition(score, edges[i].1), h),
    ensures
        all_reached(g, anchors, push_edges(next, edges, visited, score), h),
    decreases edges.len(),
{
    if edges.len() > 0 {
        let p = edges.drop_last();
        assert forall|i: int| 0 <= i < p.len() implies reached_with(g, anchors, #[trigger] p[i].0, transition(score, p[i].1), h) by {
            assert(p[i] == edges[i]);
        }
        lemma_push_edges_reached(next, p, visited, score, g, anchors, h);
        let e = edges.last();
        assert(e == edges[edges.len() - 1]);
        let prev = push_edges(next, p, visited, score);
        if !visited.contains(e.0) {
            let r = prev.push((e.0, transition(score, e.1)));
            assert forall|i: int| 0 <= i < r.len() implies reached_with(g, anchors, #[trigger] r[i].0, r[i].1, h) by {
                if i < prev.len() {
                    assert(r[i] == prev[i]);
                }
            }
        }
    }
}

proof fn lemma_visit_reached(
    b: Beam,
    node: ScoredId,
    anchors: Seq<Seq<char>>,
    g: Map<Seq<char>, Vec<(String, u64)>>,
    max_results: nat,
    h: nat,
)
    requires
        all_reached(g, anchors, b.expanded, h),
        all_reached(g, anchors, b.next, h + 1),
        reached_with(g, anchors, node.0, node.1, h),
    ensures
        all_reached(g, anchors, visit(b, node, anchors, g, max_results).expanded, h),
        all_reached(g, anchors, visit(b, node, anchors, g, max_results).next, h + 1),
{
    if !b.visited.contains(node.0) {
        let r = visit(b, node, anchors, g, max_results);
        let es = edges_of(g, node.0);
        assert forall|i: int| 0 <= i < es.len() implies reached_with(g, anchors, #[trigger] es[i].0, transition(node.1, es[i].1), h + 1) by {
            assert(es[i] == (g[node.0]@[i].0@, g[node.0]@[i].1));
            assert(edge_step(g, node.0, node.1, es[i].0, transition(node.1, es[i].1)));
        }
        lemma_push_edges_reached(b.next, es, b.visited.push(node.0), node.1, g, anchors, h + 1);
        assert forall|i: int| 0 <= i < r.expanded.len() implies reached_with(g, anchors, #[trigger] r.expanded[i].0, r.expanded[i].1, h) by {
            if i < b.expanded.len() {
                assert(r.expanded[i] == b.expanded[i]);
            }
        }
    }
}

proof fn lemma_visit_all_reached(
    b: Beam,
    frontier: Seq<ScoredId>,
    n: nat,
    anchors: Seq<Seq<char>>,
    g: Map<Seq<char>, Vec<(String, u64)>>,
    max_results: nat,
    h: nat,
)
    requires
        n <= frontier.len(),
        all_reached(g, anchors, b.expanded, h),
        all_reached(g, anchors, b.next, h + 1),
        all_reached(g, anchors, frontier, h),
    ensures
        all_reached(g, anchors, visit_all(b, frontier, n, anchors, g, max_results).expanded, h),
        all_reached(g, anchors, visit_all(b, frontier, n, anchors, g, max_results).next, h + 1),
    decreases n,
{
    if n > 0 {
        lemma_visit_all_reached(b, frontier, (n - 1) as nat, anchors, g, max_results, h);
        let p = visit_all(b, frontier, (n - 1) as nat, anchors, g, max_results);
        if !p.done {
            lemma_visit_reached(p, frontier[n - 1], anchors, g, max_results, h);
        }
    }
}

proof fn lemma_beam_after_reached(
    anchors: Seq<Seq<char>>,
    g: Map<Seq<char>, Vec<(String, u64)>>,
    max_results: nat,
    h: nat,
)
    ensures
        h == 0 ==> beam_after(anchors, g, max_results, h).0.expanded.len() == 0,
        h > 0 ==> all_reached(g, anchors, beam_after(anchors, g, max_results, h).0.expanded, (h - 1) as nat),
        all_reached(g, anchors, beam_after(anchors, g, max_results, h).1, h),
    decreases h,
{
    if h == 0 {
        let f = anchor_frontier(anchors);
        assert forall|i: int| 0 <= i < f.len() implies reached_with(g, anchors, #[trigger] f[i].0, f[i].1, 0) by {
            assert(f[i].0 == anchors[i]);
        }
    } else {
        let hp = (h - 1) as nat;
        lemma_beam_after_reached(anchors, g, max_results, hp);
        let prev = beam_after(anchors, g, max_results, hp);
        assert forall|i: int| 0 <= i < prev.0.expanded.len() implies reached_with(g, anchors, #[trigger] prev.0.expanded[i].0, prev.0.expanded[i].1, hp) by {
            lemma_reached_mono(g, anchors, prev.0.expanded[i].0, prev.0.expanded[i].1, (hp - 1) as nat, hp);
        }
        if prev.0.done || prev.1.len() == 0 {
            assert forall|i: int| 0 <= i < prev.1.len() implies reached_with(g, anchors, #[trigger] prev.1[i].0, prev.1[i].1, h) by {
                lemma_reached_mono(g, anchors, prev.1[i].0, prev.1[i].1, hp, h);
            }
        } else {
            let b0 = Beam { next: Seq::empty(), ..prev.0 };
            lemma_visit_all_reached(b0, prev.1, prev.1.len(), anchors, g, max_results, hp);
            let p = visit_all(b0, prev.1, prev.1.len(), anchors, g, max_results);
            lemma_sort_desc_contains(p.next);
            lemma_sort_desc_len(p.next);
            let nf = next_frontier(p.next);
            assert forall|i: int| 0 <= i < nf.len() implies reached_with(g, anchors, #[trigger] nf[i].0, nf[i].1, h) by {
                assert(nf[i] == sort_desc(p.next)[i]);
                assert(p.next.contains(sort_desc(p.next)[i]));
                let k = choose|k: int| 0 <= k < p.next.len() && p.next[k] == nf[i];
                assert(reached_with(g, anchors, p.next[k].0, p.next[k].1, h));
            }
        }
    }
}

/// Scores follow paths: each reported node is reached from an anchor (score
/// 1.0) along a path of at most `max_hops` edges, and its score is the one
/// that each edge of that path carries on, `parent * 0.7 * weight` rounded
/// down. With no hop, nothing is reported.
pub proof fn causal_expansion_scores_follow_paths(
    intent: QueryIntent,
    anchors: Seq<Seq<char>>,
    g: Map<Seq<char>, Vec<(String, u64)>>,
    max_hops: nat,
    max_results: nat,
)
    requires
        intent == QueryIntent::Why || intent == QueryIntent::Entity,
    ensures
        ({
            let r = causal_expansion(intent, anchors, g, max_hops, max_results);
            &&& max_hops == 0 ==> r.len() == 0
            &&& forall|i: int| 0 <= i < r.len() ==> reached_with(g, anchors, #[trigger] r[i].0, r[i].1, max_hops)
        }),
{
    lemma_beam_after_reached(anchors, g, max_results, max_hops + 1);
    lemma_beam_after_inv(anchors, g, max_results, max_hops + 1);
    let r = causal_expansion(intent, anchors, g, max_hops, max_results);
    if max_hops == 0 && r.len() > 0 {
        assert(reached_with(g, anchors, r[0].0, r[0].1, 0));
        assert(!anchors.contains(r[0].0));
    }
}

/// The number of outgoing edges of the anchors, counted once per anchor entry.
pub open spec fn anchor_edge_count(anchors: Seq<Seq<char>>, g: Map<Seq<char>, Vec<(String, u64)>>) -> nat
    decreases anchors.len(),
{
    if anchors.len() == 0 {
        0
    } else {
        anchor_edge_count(anchors.drop_last(), g) + edges_of(g, anchors.last()).len()
    }
}

/// Pushing edges adds at most one candidate per edge, keeps the candidates
/// there, and adds every edge to an unvisited node.
proof fn lemma_push_edges_adds(next: Seq<ScoredId>, edges: Seq<ScoredId>, visited: Seq<Seq<char>>, score: u64)
    ensures
        push_edges(next, edges, visited, score).len() <= next.len() + edges.len(),
        forall|x: Seq<char>| has_item(next, x) ==> #[trigger] has_item(push_edges(next, edges, visited, score), x),
        forall|i: int| 0 <= i < edges.len() && !visited.contains(#[trigger] edges[i].0) ==>
            has_item(push_edges(next, edges, visited, score), edges[i].0),
    decreases edges.len(),
{
    if edges.len() > 0 {
        let p = edges.drop_last();
        let e = edges.last();
        lemma_push_edges_adds(next, p, visited, score);
        let prev = push_edges(next, p, visited, score);
        let r = push_edges(next, edges, visited, score);
        assert(edges[edges.len() - 1] == e);
        assert forall|x: Seq<char>| has_item(prev, x) implies has_item(r, x) by {
            let k = choose|k: int| 0 <= k < prev.len() && #[trigger] prev[k].0 == x;
            assert(r[k] == prev[k]);
        }
        assert forall|x: Seq<char>| has_item(next, x) implies #[trigger] has_item(r, x) by {
            assert(has_item(prev, x));
        }
        assert forall|i: int| 0 <= i < edges.len() && !visited.contains(#[trigger] edges[i].0) implies
            has_item(r, edges[i].0) by {
            if i < p.len() {
                assert(p[i] == edges[i]);
                assert(has_item(prev, p[i].0));
            } else {
                assert(r[r.len() - 1].0 == e.0);
            }
        }
    }
}

/// The first round, visiting the anchors: nothing is reported, only anchors
/// are visited, the candidates number at most the anchors' edges, and every
/// edge of a visited anchor to a node that is not an anchor gives a candidate.
proof fn lemma_anchor_round(
    anchors: Seq<Seq<char>>,
    g: Map<Seq<char>, Vec<(String, u64)>>,
    max_results: nat,
    m: nat,
)
    requires
        m <= anchors.len(),
    ensures
        ({
            let b = visit_all(empty_beam(), anchor_frontier(anchors), m, anchors, g, max_results);
            &&& b.expanded.len() == 0
            &&& !b.done
            &&& forall|x: Seq<char>| #[trigger] b.visited.contains(x) ==> anchors.contains(x)
            &&& forall|i: int| 0 <= i < m ==> b.visited.contains(#[trigger] anchors[i])
            &&& b.next.len() <= anchor_edge_count(anchors.take(m as int), g)
            &&& forall|x: Seq<char>, jj: int| #![trigger b.visited.contains(x), edges_of(g, x)[jj]]
                b.visited.contains(x) && 0 <= jj < edges_of(g, x).len()
                    && !anchors.contains(edges_of(g, x)[jj].0) ==> has_item(b.next, edges_of(g, x)[jj].0)
        }),
    decreases m,
{
    let f = anchor_frontier(anchors);
    if m == 0 {
        assert(anchors.take(0) =~= Seq::<Seq<char>>::empty());
    } else {
        lemma_anchor_round(anchors, g, max_results, (m - 1) as nat);
        let p = visit_all(empty_beam(), f, (m - 1) as nat, anchors, g, max_results);
        let node = f[m - 1];
        assert(node == (anchors[m - 1], full_score()));
        assert(anchors.contains(anchors[m - 1]));
        assert(anchors.take(m as int).drop_last() =~= anchors.take(m - 1));
        assert(anchors.take(m as int).last() == anchors[m - 1]);
        let b = visit_all(empty_beam(), f, m, anchors, g, max_results);
        assert(b == visit(p, node, anchors, g, max_results));
        if !p.visited.contains(node.0) {
            let visited = p.visited.push(node.0);
            let es = edges_of(g, node.0);
            lemma_push_edges_adds(p.next, es, visited, node.1);
            assert(b.visited == visited);
            assert(b.next == push_edges(p.next, es, visited, node.1));
            assert forall|x: Seq<char>| #[trigger] b.visited.contains(x) implies anchors.contains(x) by {
                if x != node.0 {
                    let k = choose|k: int| 0 <= k < visited.len() && visited[k] == x;
                    assert(p.visited[k] == x);
                    assert(p.visited.contains(x));
                } else {
                    assert(anchors[m - 1] == x);
                }
            }
            assert forall|i: int| 0 <= i < m implies b.visited.contains(#[trigger] anchors[i]) by {
                if i < m - 1 {
                    assert(p.visited.contains(anchors[i]));
                    let k = choose|k: int| 0 <= k < p.visited.len() && p.visited[k] == anchors[i];
                    assert(visited[k] == anchors[i]);
                } else {
                    assert(visited[visited.len() - 1] == anchors[i]);
                }
            }
            assert forall|x: Seq<char>, jj: int| #![trigger b.visited.contains(x), edges_of(g, x)[jj]]
                b.visited.contains(x) && 0 <= jj < edges_of(g, x).len()
                    && !anchors.contains(edges_of(g, x)[jj].0) implies has_item(b.next, edges_of(g, x)[jj].0) by {
                let y = edges_of(g, x)[jj].0;
                if x == node.0 {
                    if visited.contains(y) {
                        assert(b.visited.contains(y));
                    }
                    assert(!visited.contains(es[jj].0));
                } else {
                    let k = choose|k: int| 0 <= k < visited.len() && visited[k] == x;
                    assert(p.visited[k] == x);
                    assert(p.visited.contains(x));
                    assert(has_item(p.next, y));
                }
            }
        } else {
            assert forall|i: int| 0 <= i < m implies b.visited.contains(#[trigger] anchors[i]) by {
                if i < m - 1 {
                    assert(p.visited.contains(anchors[i]));
                }
            }
        }
    }
}

/// A round that visits a frontier whose entries number fewer than the room left
/// under `max_results` reports every node of the frontier that is not an
/// anchor, provided every visited non-anchor node was reported before.
proof fn lemma_full_round(
    b: Beam,
    f: Seq<ScoredId>,
    m: nat,
    anchors: Seq<Seq<char>>,
    g: Map<Seq<char>, Vec<(String, u64)>>,
    max_results: nat,
)
    requires
        m <= f.len(),
        !b.done,
        b.expanded.len() + f.len() < max_results,
        forall|x: Seq<char>| #[trigger] b.visited.contains(x) && !anchors.contains(x) ==> has_item(b.expanded, x),
    ensures
        ({
            let q = visit_all(b, f, m, anchors, g, max_results);
            &&& !q.done
            &&& q.expanded.len() <= b.expanded.len() + m
            &&& forall|x: Seq<char>| #[trigger] q.visited.contains(x) && !anchors.contains(x) ==> has_item(q.expanded, x)
            &&& forall|i: int| 0 <= i < m ==> q.visited.contains(#[trigger] f[i].0)
        }),
    decreases m,
{
    if m > 0 {
        lemma_full_round(b, f, (m - 1) as nat, anchors, g, max_results);
        let p = visit_all(b, f, (m - 1) as nat, anchors, g, max_results);
        let node = f[m - 1];
        let q = visit_all(b, f, m, anchors, g, max_results);
        assert(q == visit(p, node, anchors, g, max_results));
        if !p.visited.contains(node.0) {
            let visited = p.visited.push(node.0);
            assert(q.visited == visited);
            let is_anchor = anchors.contains(node.0);
            let expanded = if is_anchor { p.expanded } else { p.expanded.push(node) };
            assert(q.expanded == expanded);
            assert forall|x: Seq<char>| has_item(p.expanded, x) implies has_item(expanded, x) by {
                let k = choose|k: int| 0 <= k < p.expanded.len() && #[trigger] p.expanded[k].0 == x;
                assert(expanded[k] == p.expanded[k]);
            }
            if !is_anchor {
                assert(expanded[expanded.len() - 1].0 == node.0);
            }
            assert forall|x: Seq<char>| #[trigger] q.visited.contains(x) && !anchors.contains(x) implies has_item(q.expanded, x) by {
                if x != node.0 {
                    let k = choose|k: int| 0 <= k < visited.len() && visited[k] == x;
                    assert(p.visited[k] == x);
                    assert(p.visited.contains(x));
                }
            }
            assert forall|i: int| 0 <= i < m implies q.visited.contains(#[trigger] f[i].0) by {
                if i < m - 1 {
                    assert(p.visited.contains(f[i].0));
                    let k = choose|k: int| 0 <= k < p.visited.len() && p.visited[k] == f[i].0;
                    assert(visited[k] == f[i].0);
                } else {
                    assert(visited[visited.len() - 1] == f[i].0);
                }
            }
        }
    }
}

/// Visiting never takes back a report.
proof fn lemma_visit_all_keeps_reports(
    b: Beam,
    f: Seq<ScoredId>,
    m: nat,
    anchors: Seq<Seq<char>>,
    g: Map<Seq<char>, Vec<(String, u64)>>,
    max_results: nat,
)
    ensures
        forall|x: Seq<char>| has_item(b.expanded, x) ==>
            #[trigger] has_item(visit_all(b, f, m, anchors, g, max_results).expanded, x),
    decreases m,
{
    if m > 0 {
        lemma_visit_all_keeps_reports(b, f, (m - 1) as nat, anchors, g, max_results);
        let p = visit_all(b, f, (m - 1) as nat, anchors, g, max_results);
        let q = visit_all(b, f, m, anchors, g, max_results);
        assert forall|x: Seq<char>| has_item(b.expanded, x) implies #[trigger] has_item(q.expanded, x) by {
            assert(has_item(p.expanded, x));
            let k = choose|k: int| 0 <= k < p.expanded.len() && #[trigger] p.expanded[k].0 == x;
            assert(q.expanded[k] == p.expanded[k]);
        }
    }
}

/// Later rounds never take back a report.
proof fn lemma_beam_keeps_reports(
    anchors: Seq<Seq<char>>,
    g: Map<Seq<char>, Vec<(String, u64)>>,
    max_results: nat,
    h1: nat,
    h2: nat,
)
    requires
        h1 <= h2,
    ensures
        forall|x: Seq<char>| has_item(beam_after(anchors, g, max_results, h1).0.expanded, x) ==>
            #[trigger] has_item(beam_after(anchors, g, max_results, h2).0.expanded, x),
    decreases h2,
{
    if h2 > h1 {
        lemma_beam_keeps_reports(anchors, g, max_results, h1, (h2 - 1) as nat);
        let prev = beam_after(anchors, g, max_results, (h2 - 1) as nat);
        if !(prev.0.done || prev.1.len() == 0) {
            let b0 = Beam { next: Seq::empty(), ..prev.0 };
            lemma_visit_all_keeps_reports(b0, prev.1, prev.1.len(), anchors, g, max_results);
        }
    }
}

/// Within the beam width, graph expansion is complete one edge out: when the
/// anchors have at most 20 outgoing edges in all, fewer than `max_results`,
/// and `max_hops` is at least 1, every neighbour of an anchor that is not
/// itself an anchor is reported.
pub proof fn causal_expansion_reports_anchor_neighbours(
    intent: QueryIntent,
    anchors: Seq<Seq<char>>,
    g: Map<Seq<char>, Vec<(String, u64)>>,
    max_hops: nat,
    max_results: nat,
    a: Seq<char>,
    j: int,
)
    requires
        intent == QueryIntent::Why || intent == QueryIntent::Entity,
        max_hops >= 1,
        anchors.contains(a),
        g.contains_key(a),
        0 <= j < g[a]@.len(),
        !anchors.contains(g[a]@[j].0@),
        anchor_edge_count(anchors, g) <= 20,
        anchor_edge_count(anchors, g) < max_results,
    ensures
        exists|i: int| 0 <= i < causal_expansion(intent, anchors, g, max_hops, max_results).len()
            && #[trigger] causal_expansion(intent, anchors, g, max_hops, max_results)[i].0 == g[a]@[j].0@,
{
    let n = g[a]@[j].0@;
    let f = anchor_frontier(anchors);
    assert(empty_beam() == (Beam { next: Seq::empty(), ..empty_beam() }));
    lemma_anchor_round(anchors, g, max_results, anchors.len());
    assert(anchors.take(anchors.len() as int) =~= anchors);
    let p1 = visit_all(empty_beam(), f, f.len(), anchors, g, max_results);
    let ia = choose|ia: int| 0 <= ia < anchors.len() && anchors[ia] == a;
    assert(p1.visited.contains(anchors[ia]));
    let es = edges_of(g, a);
    assert(es[j] == (g[a]@[j].0@, g[a]@[j].1));
    assert(has_item(p1.next, es[j].0));
    assert(f.len() > 0);
    assert(beam_after(anchors, g, max_results, 0) == (empty_beam(), f));
    let f2 = next_frontier(p1.next);
    assert(beam_after(anchors, g, max_results, 1) == (p1, f2));
    lemma_sort_desc_len(p1.next);
    lemma_sort_desc_keeps(p1.next);
    assert(f2 == sort_desc(p1.next));
    let k1 = choose|k: int| 0 <= k < p1.next.len() && #[trigger] p1.next[k].0 == n;
    assert(p1.next.contains(p1.next[k1]));
    assert(f2.contains(p1.next[k1]));
    let k2 = choose|k: int| 0 <= k < f2.len() && f2[k] == p1.next[k1];
    let b1 = Beam { next: Seq::empty(), ..p1 };
    assert forall|x: Seq<char>| #[trigger] b1.visited.contains(x) && !anchors.contains(x) implies has_item(b1.expanded, x) by {
        assert(p1.visited.contains(x));
    }
    lemma_full_round(b1, f2, f2.len(), anchors, g, max_results);
    let p2 = visit_all(b1, f2, f2.len(), anchors, g, max_results);
    assert(p2.visited.contains(f2[k2].0));
    assert(has_item(p2.expanded, n));
    assert(beam_after(anchors, g, max_results, 2).0 == p2);
    lemma_beam_keeps_reports(anchors, g, max_results, 2, max_hops + 1);
    let r = beam_after(anchors, g, max_results, max_hops + 1).0.expanded;
    assert(has_item(r, n));
    assert(causal_expansion(intent, anchors, g, max_hops, max_results) == r);
    let i = choose|i: int| 0 <= i < r.len() && #[trigger] r[i].0 == n;
    assert(causal_expansion(intent, anchors, g, max_hops, max_results)[i].0 == n);
}

/// Whether `id` is among the strings of `v`.
fn contains_id(v: &[String], id: &String) -> (b: bool)
    ensures
        b == string_views(v@).contains(id@),
{
    let mut i: usize = 0;
    while i < v.len()
        invariant
            i <= v.len(),
            forall|k: int| 0 <= k < i ==> v@[k]@ != id@,
        decreases v.len() - i,
    {
        if v[i] == *id {
            assert(string_views(v@)[i as int] == id@);
            return true;
        }
        i += 1;
    }
    proof {
        if string_views(v@).contains(id@) {
            let k = choose|k: int| 0 <= k < string_views(v@).len() && string_views(v@)[k] == id@;
            assert(v@[k]@ == id@);
        }
    }
    false
}

/// Each anchor with the full score.
fn anchors_with_full_score(anchor_ids: &[String]) -> (r: Vec<(String, u64)>)
    ensures
        scored_views(r@) == anchor_frontier(string_views(anchor_ids@)),
{
    let mut r: Vec<(String, u64)> = Vec::new();
    let mut i: usize = 0;
    while i < anchor_ids.len()
        invariant
            i <= anchor_ids.len(),
            scored_views(r@) == anchor_frontier(string_views(anchor_ids@.take(i as int))),
        decreases anchor_ids.len() - i,
    {
        let ghost before = r@;
        r.push((anchor_ids[i].clone(), 10_000));
        assert(scored_views(r@) =~= scored_views(before).push((anchor_ids@[i as int]@, 10_000u64)));
        assert(string_views(anchor_ids@.take(i + 1)) =~= string_views(anchor_ids@.take(i as int)).push(anchor_ids@[i as int]@));
        assert(scored_views(r@) =~= anchor_frontier(string_views(anchor_ids@.take(i + 1))));
        i += 1;
    }
    assert(anchor_ids@.take(anchor_ids.len() as int) =~= anchor_ids@);
    r
}

/// Executable transition score.
fn transition_score(parent: u64, edge: u64) -> (t: u64)
    ensures
        t == transition(parent, edge),
{
    assert((parent as int) * (edge as int) <= u128::MAX as int) by (nonlinear_arith)
        requires
            parent <= u64::MAX,
            edge <= u64::MAX,
    ;
    let pe: u128 = (parent as u128) * (edge as u128);
    if pe > u128::MAX / 7 {
        assert((parent as int) * 7 * (edge as int) / 100_000 > u64::MAX as int) by (nonlinear_arith)
            requires
                (parent as int) * (edge as int) == pe as int,
                pe as int > u128::MAX as int / 7,
        ;
        u64::MAX
    } else {
        let t: u128 = pe * 7 / 100_000;
        assert(t as int == (parent as int) * 7 * (edge as int) / 100_000) by (nonlinear_arith)
            requires
                (parent as int) * (edge as int) == pe as int,
                t as int == (pe as int) * 7 / 100_000,
        ;
        if t > u64::MAX as u128 {
            u64::MAX
        } else {
            t as u64
        }
    }
}

/// Expands search results over the causal and semantic graph.
///
/// For WHY and ENTITY intents, a beam search starts from the anchors (score
/// 1.0) and reaches nodes up to `max_hops` edges away: each visited node that
/// is not an anchor is reported with the score it was reached with; each edge
/// to an unvisited node carries `parent * 0.7 * weight` to the next round,
/// whose frontier keeps the best 20 candidates. The search stops as soon as
/// `max_results` nodes were reported. For WHEN and WHAT, the anchors come back
/// with score 1.0.
pub fn expand_with_causal_graph(
    intent: QueryIntent,
    anchor_ids: &[String],
    neighbors: &StringHashMap<Vec<(String, u64)>>,
    max_hops: usize,
    max_results: usize,
) -> (r: Vec<(String, u64)>)
    ensures
        scored_views(r@) == causal_expansion(
            intent,
            string_views(anchor_ids@),
            neighbors@,
            max_hops as nat,
            max_results as nat,
        ),
{
    match intent {
        QueryIntent::Why | QueryIntent::Entity => {},
        _ => {
            return anchors_with_full_score(anchor_ids);
        },
    }
    let ghost anchors = string_views(anchor_ids@);
    let ghost g = neighbors@;
    let ghost mr = max_results as nat;
    let mut expanded: Vec<(String, u64)> = Vec::new();
    let mut visited: Vec<String> = Vec::new();
    let mut frontier: Vec<(String, u64)> = anchors_with_full_score(anchor_ids);
    assert(scored_views(expanded@) =~= Seq::<ScoredId>::empty());
    assert(string_views(visited@) =~= Seq::<Seq<char>>::empty());
    let mut hop: usize = 0;
    loop
        invariant
            hop <= max_hops,
            anchors == string_views(anchor_ids@),
            g == neighbors@,
            mr == max_results as nat,
            intent == QueryIntent::Why || intent == QueryIntent::Entity,
            !beam_after(anchors, g, mr, hop as nat).0.done,
            scored_views(expanded@) == beam_after(anchors, g, mr, hop as nat).0.expanded,
            string_views(visited@) == beam_after(anchors, g, mr, hop as nat).0.visited,
            scored_views(frontier@) == beam_after(anchors, g, mr, hop as nat).1,
        decreases max_hops - hop,
    {
        if frontier.len() == 0 {
            proof {
                lemma_beam_stable(anchors, g, mr, hop as nat, (max_hops + 1) as nat);
            }
            return expanded;
        }
        let ghost b = beam_after(anchors, g, mr, hop as nat).0;
        let ghost f = scored_views(frontier@);
        let ghost b0 = Beam { next: Seq::empty(), ..b };
        let mut next: Vec<(String, u64)> = Vec::new();
        assert(scored_views(next@) =~= Seq::<ScoredId>::empty());
        let mut i: usize = 0;
        while i < frontier.len()
            invariant
                hop <= max_hops,
                anchors == string_views(anchor_ids@),
                g == neighbors@,
                mr == max_results as nat,
                intent == QueryIntent::Why || intent == QueryIntent::Entity,
                frontier@.len() > 0,
                f == scored_views(frontier@),
                f == beam_after(anchors, g, mr, hop as nat).1,
                b == beam_after(anchors, g, mr, hop as nat).0,
                !b.done,
                b0 == (Beam { next: Seq::empty(), ..b }),
                i <= frontier.len(),
                !visit_all(b0, f, i as nat, anchors, g, mr).done,
                scored_views(expanded@) == visit_all(b0, f, i as nat, anchors, g, mr).expanded,
                string_views(visited@) == visit_all(b0, f, i as nat, anchors, g, mr).visited,
                scored_views(next@) == visit_all(b0, f, i as nat, anchors, g, mr).next,
            decreases frontier.len() - i,
        {
            let ghost p = visit_all(b0, f, i as nat, anchors, g, mr);
            let node_id = &frontier[i].0;
            let score = frontier[i].1;
            assert(f[i as int] == (node_id@, score));
            if !contains_id(visited.as_slice(), node_id) {
                visited.push(node_id.clone());
                assert(string_views(visited@) =~= p.visited.push(node_id@));
                let is_anchor = contains_id(anchor_ids, node_id);
                if !is_anchor {
                    expanded.push((node_id.clone(), score));
                    assert(scored_views(expanded@) =~= p.expanded.push((node_id@, score)));
                    if expanded.len() >= max_results {
                        proof {
                            let q = visit_all(b0, f, (i + 1) as nat, anchors, g, mr);
                            assert(q.done);
                            lemma_visit_all_done(b0, f, (i + 1) as nat, f.len(), anchors, g, mr);
                            assert(beam_after(anchors, g, mr, (hop + 1) as nat).0 == q);
                            lemma_beam_stable(anchors, g, mr, (hop + 1) as nat, (max_hops + 1) as nat);
                        }
                        return expanded;
                    }
                }
                let ghost visited_now = string_views(visited@);
                let ghost next_start = p.next;
                match neighbors.get(node_id.as_str()) {
                    Some(list) => {
                        let ghost es = scored_views(list@);
                        assert(es == edges_of(g, node_id@));
                        let mut j: usize = 0;
                        assert(es.take(0) =~= Seq::<ScoredId>::empty());
                        while j < list.len()
                            invariant
                                j <= list.len(),
                                es == scored_views(list@),
                                visited_now == string_views(visited@),
                                scored_views(next@) == push_edges(next_start, es.take(j as int), visited_now, score),
                            decreases list.len() - j,
                        {
                            let nid = &list[j].0;
                            let w = list[j].1;
                            assert(es.take(j + 1).drop_last() =~= es.take(j as int));
                            assert(es.take(j + 1).last() == (nid@, w));
                            if !contains_id(visited.as_slice(), nid) {
                                next.push((nid.clone(), transition_score(score, w)));
                                assert(scored_views(next@) =~= push_edges(next_start, es.take(j as int), visited_now, score).push((nid@, transition(score, w))));
                            }
                            j += 1;
                        }
                        assert(es.take(list.len() as int) =~= es);
                    },
                    None => {
                        assert(edges_of(g, node_id@) =~= Seq::<ScoredId>::empty());
                    },
                }
            }
            i += 1;
        }
        proof {
            assert(f.len() == frontier.len());
        }
        let ghost pn = visit_all(b0, f, f.len(), anchors, g, mr);
        let sorted = sort_by_score_desc(next);
        let mut cut = sorted;
        proof {
            lemma_sort_desc_map(next@, view_fn());
            lemma_sort_desc_len(next@);
        }
        if cut.len() > 20 {
            cut.truncate(20);
            assert(scored_views(cut@) =~= sort_desc(pn.next).take(20));
        }
        frontier = cut;
        assert(beam_after(anchors, g, mr, (hop + 1) as nat) == (pn, next_frontier(pn.next)));
        if hop == max_hops {
            return expanded;
        }
        hop += 1;
    }
}

} // verus!
