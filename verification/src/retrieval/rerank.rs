//! Reranking of search candidates.

use vstd::prelude::*;
use crate::retrieval::search::SearchHit;

verus! {

/// Re-ranks candidates for a query and keeps the best `top_k`. No
/// cross-encoder model is wired in, so the candidates keep their order: the
/// result is the first `top_k` of them (all, when there are fewer), each hit
/// unchanged, whatever the query and context size.
pub fn rerank_candidates(
    query: &str,
    candidates: Vec<SearchHit>,
    top_k: usize,
    context_chars: usize,
) -> (r: Vec<SearchHit>)
    ensures
        r.len() == (if candidates.len() < top_k { candidates.len() } else { top_k }),
        r@ == candidates@.take(r.len() as int),
{
    let mut kept = candidates;
    if kept.len() > top_k {
        kept.truncate(top_k);
    }
    assert(kept@ =~= candidates@.take(kept.len() as int));
    kept
}

} // verus!
