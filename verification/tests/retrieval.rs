use memos::retrieval::graph::expand_with_causal_graph;
use memos::retrieval::intent::{classify_intent, intent_description};
use memos::retrieval::rerank::rerank_candidates;
use memos::{QueryIntent, SearchHit, SearchRequest, StringHashMap, Timestamp};

fn bp(x: f32) -> u64 {
    (x * 10_000.0).round() as u64
}

fn now() -> Timestamp {
    let now = chrono::Utc::now();
    Timestamp { secs: now.timestamp(), nanos: now.timestamp_subsec_nanos() }
}

#[test]
fn test_graph_expansion_why() {
    let mut neighbors = StringHashMap::new();
    neighbors.insert("a".to_string(), vec![("b".to_string(), bp(0.9)), ("c".to_string(), bp(0.7))]);
    neighbors.insert("b".to_string(), vec![("d".to_string(), bp(0.8))]);

    let anchors = vec!["a".to_string()];
    let expanded = expand_with_causal_graph(QueryIntent::Why, &anchors, &neighbors, 2, 10);

    // Should find b, c, d
    let found: Vec<_> = expanded.iter().map(|(id, _)| id.clone()).collect();
    assert!(found.contains(&"b".to_string()) || found.contains(&"c".to_string()));
    assert_eq!(found, vec!["b".to_string(), "c".to_string(), "d".to_string()]);
}

#[test]
fn test_no_expansion_for_what() {
    let anchors = vec!["a".to_string()];
    let expanded = expand_with_causal_graph(QueryIntent::What, &anchors, &StringHashMap::new(), 3, 10);

    // WHAT intent returns anchor only
    assert_eq!(expanded.len(), 1);
    assert_eq!(expanded[0].0, "a");
}

#[test]
fn graph_expansion_scores_decay_per_hop() {
    let mut neighbors = StringHashMap::new();
    neighbors.insert("a".to_string(), vec![("b".to_string(), bp(0.9)), ("c".to_string(), bp(0.7))]);
    neighbors.insert("b".to_string(), vec![("d".to_string(), bp(0.8)), ("a".to_string(), bp(1.0))]);
    let anchors = vec!["a".to_string()];
    let one = expand_with_causal_graph(QueryIntent::Entity, &anchors, &neighbors, 1, 10);
    assert_eq!(one, vec![("b".to_string(), 6300), ("c".to_string(), 4900)]);
    let two = expand_with_causal_graph(QueryIntent::Entity, &anchors, &neighbors, 2, 10);
    assert_eq!(two, vec![("b".to_string(), 6300), ("c".to_string(), 4900), ("d".to_string(), 3528)]);
    let three = expand_with_causal_graph(QueryIntent::Why, &anchors, &neighbors, 3, 10);
    assert_eq!(three, two);
    let capped = expand_with_causal_graph(QueryIntent::Why, &anchors, &neighbors, 3, 1);
    assert_eq!(capped, vec![("b".to_string(), 6300)]);
    let zero = expand_with_causal_graph(QueryIntent::Why, &anchors, &neighbors, 3, 0);
    assert_eq!(zero.len(), 1);
    assert!(expand_with_causal_graph(QueryIntent::Why, &anchors, &neighbors, 0, 10).is_empty());
}

#[test]
fn graph_expansion_orders_next_hop_by_score() {
    let mut neighbors = StringHashMap::new();
    neighbors.insert("a".to_string(), vec![("low".to_string(), bp(0.1)), ("high".to_string(), bp(0.9))]);
    let anchors = vec!["a".to_string()];
    let r = expand_with_causal_graph(QueryIntent::Why, &anchors, &neighbors, 2, 10);
    assert_eq!(r, vec![("high".to_string(), 6300), ("low".to_string(), 700)]);
}

#[test]
fn graph_expansion_stays_within_reach() {
    let mut neighbors = StringHashMap::new();
    neighbors.insert("a".to_string(), vec![("b".to_string(), bp(0.9))]);
    neighbors.insert("b".to_string(), vec![("c".to_string(), bp(0.9))]);
    neighbors.insert("island".to_string(), vec![("d".to_string(), bp(1.0))]);
    let anchors = vec!["a".to_string()];
    let one = expand_with_causal_graph(QueryIntent::Why, &anchors, &neighbors, 1, 10);
    assert_eq!(one, vec![("b".to_string(), 6300)]);
    let two = expand_with_causal_graph(QueryIntent::Why, &anchors, &neighbors, 2, 10);
    assert_eq!(two, vec![("b".to_string(), 6300), ("c".to_string(), 3969)]);
    let many = expand_with_causal_graph(QueryIntent::Why, &anchors, &neighbors, 10, 10);
    let found: Vec<_> = many.iter().map(|(id, _)| id.as_str()).collect();
    assert_eq!(found, vec!["b", "c"]);
}

#[test]
fn when_intent_keeps_all_anchors() {
    let anchors = vec!["x".to_string(), "y".to_string()];
    let r = expand_with_causal_graph(QueryIntent::When, &anchors, &StringHashMap::new(), 3, 1);
    assert_eq!(r, vec![("x".to_string(), 10_000), ("y".to_string(), 10_000)]);
}

#[test]
fn test_why_intent() {
    let (intent, conf) = classify_intent("why did we decide on this approach");
    assert_eq!(intent, QueryIntent::Why);
    assert!(conf as f32 / 10_000.0 >= 0.9);
}

#[test]
fn test_when_intent() {
    let (intent, conf) = classify_intent("when was this discussed");
    assert_eq!(intent, QueryIntent::When);
    assert!(conf as f32 / 10_000.0 >= 0.9);
}

#[test]
fn test_entity_intent() {
    let (intent, conf) = classify_intent("who worked on the API integration");
    assert_eq!(intent, QueryIntent::Entity);
    assert!(conf as f32 / 10_000.0 >= 0.9);
}

#[test]
fn test_what_intent() {
    let (intent, _) = classify_intent("tell me about the project");
    assert_eq!(intent, QueryIntent::What);
}

#[test]
fn intent_patterns_ignore_case_and_keep_priority() {
    assert_eq!(classify_intent("WHY is this here"), (QueryIntent::Why, 9500));
    assert_eq!(classify_intent("What caused the outage last week"), (QueryIntent::Why, 9500));
    assert_eq!(classify_intent("anything from yesterday"), (QueryIntent::When, 9500));
    assert_eq!(classify_intent("which team owns it"), (QueryIntent::Entity, 9500));
    assert_eq!(classify_intent("summary please"), (QueryIntent::What, 5000));
}

#[test]
fn intent_hints_ignore_case() {
    assert_eq!(QueryIntent::from_hint("why"), QueryIntent::Why);
    assert_eq!(QueryIntent::from_hint("When"), QueryIntent::When);
    assert_eq!(QueryIntent::from_hint("ENTITY"), QueryIntent::Entity);
    assert_eq!(QueryIntent::from_hint("ent\u{131}ty"), QueryIntent::Entity);
    assert_eq!(QueryIntent::from_hint("what"), QueryIntent::What);
    assert_eq!(QueryIntent::from_hint("because"), QueryIntent::What);
}

#[test]
fn intent_descriptions() {
    assert_eq!(intent_description(QueryIntent::Why), "WHY (causal reasoning)");
    assert_eq!(intent_description(QueryIntent::When), "WHEN (temporal recall)");
    assert_eq!(intent_description(QueryIntent::Entity), "ENTITY (named entity lookup)");
    assert_eq!(intent_description(QueryIntent::What), "WHAT (general recall)");
}

#[test]
fn test_rerank_returns_candidates() {
    let hits = vec![
        SearchHit {
            frame_id: "1".to_string(),
            title: "Test 1".to_string(),
            snippet: "Test snippet".to_string(),
            memory_type: "decision".to_string(),
            score: bp(0.9) as u32,
            confidence: bp(0.85) as u32,
            tags: vec![],
            created_at: now(),
        },
        SearchHit {
            frame_id: "2".to_string(),
            title: "Test 2".to_string(),
            snippet: "Another snippet".to_string(),
            memory_type: "note".to_string(),
            score: bp(0.8) as u32,
            confidence: bp(0.70) as u32,
            tags: vec![],
            created_at: now(),
        },
    ];

    let reranked = rerank_candidates("test query", hits, 2, 4000);
    assert_eq!(reranked.len(), 2);
    assert_eq!(reranked[0].frame_id, "1");
    assert_eq!(reranked[1].frame_id, "2");
}

#[test]
fn rerank_keeps_top_k() {
    let hit = |id: &str| SearchHit {
        frame_id: id.to_string(),
        title: String::new(),
        snippet: String::new(),
        memory_type: "note".to_string(),
        score: 0,
        confidence: 5000,
        tags: vec![],
        created_at: now(),
    };
    let hits = vec![hit("1"), hit("2"), hit("3")];
    let kept = rerank_candidates("q", hits.clone(), 2, 4000);
    let ids: Vec<_> = kept.iter().map(|h| h.frame_id.as_str()).collect();
    assert_eq!(ids, vec!["1", "2"]);
    assert_eq!(rerank_candidates("q", hits.clone(), 5, 4000).len(), 3);
    assert!(rerank_candidates("q", hits, 0, 4000).is_empty());
}

#[test]
fn search_request_defaults() {
    let r = SearchRequest::default();
    assert_eq!(r.query, "");
    assert_eq!(r.top_k, 10);
    assert!(r.intent.is_none());
    assert!(r.expand_graph && r.rerank);
    assert_eq!(r.snippet_chars, 200);
    assert_eq!(QueryIntent::default(), QueryIntent::What);
}
