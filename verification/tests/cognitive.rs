use memos::cognitive::amem::{enrich_memory, extract_keywords, extract_tags};
use memos::cognitive::conflict::{contains_negation, contains_status, detect_conflicts};
use memos::cognitive::extract::{extract_decisions, DecisionType, ExtractDecision};
use memos::cognitive::feedback::{compute_feedback_signal, process_feedback, FeedbackRecord, FeedbackSignal};
use memos::cognitive::graph::{build_causal_edges, RelationType};
use memos::{MemoryFrame, MemoryType};

fn bp(x: f32) -> u32 {
    (x * 10_000.0).round() as u32
}

fn decision(title: &str, narrative: &str, kind: DecisionType, contradicts: Vec<&str>) -> ExtractDecision {
    ExtractDecision {
        decision_type: kind,
        title: title.to_string(),
        facts: vec![],
        narrative: narrative.to_string(),
        contradicts: contradicts.into_iter().map(String::from).collect(),
        confidence: bp(0.8),
    }
}

#[test]
fn test_extract_keywords() {
    let content = "Rust is a systems programming language focused on safety and performance. Memory safety without garbage collection.";
    let keywords = extract_keywords(content, 5);
    assert!(!keywords.is_empty());
}

#[test]
fn test_extract_tags() {
    let content = "We need to improve the API performance and add database caching";
    let tags = extract_tags(content, 5);
    assert!(tags.contains(&"api".to_string()) || tags.contains(&"database".to_string()));
}

#[test]
fn test_negation_detection() {
    assert!(contains_negation("We should NOT use this approach"));
    assert!(contains_negation("This is no longer valid"));
    assert!(!contains_negation("We should use this approach"));
}

#[test]
fn test_status_detection() {
    assert!(contains_status("Status: TODO"));
    assert!(contains_status("Was: A, Now: B"));
    assert!(!contains_status("No status change"));
}

#[test]
fn status_keywords_keep_their_case() {
    assert!(contains_status("the plan changed"));
    assert!(contains_status("WAS draft, NOW final"));
    assert!(!contains_status("Status Changed"));
    assert!(!contains_status("Updated: todo"));
}

#[test]
fn test_empty_transcript() {
    let result = extract_decisions("");
    assert!(result.is_empty());
}

#[test]
fn test_whitespace_transcript() {
    let result = extract_decisions("   \n\n  ");
    assert!(result.is_empty());
}

#[test]
fn test_feedback_record() {
    let record = FeedbackRecord::referenced("test-frame-1");
    assert_eq!(record.signal, FeedbackSignal::Referenced);
    assert_eq!(record.frame_id, "test-frame-1");
}

#[test]
fn test_compute_boost() {
    let signal = compute_feedback_signal(&MemoryFrame::new("test"), 5, 2);
    assert!(signal as f32 / 10_000.0 > 0.0);
}

#[test]
fn keywords_ranked_by_frequency_then_first_occurrence() {
    let content = "Alpha beta Gamma alpha gamma ALPHA delta, epsilon's";
    let keywords = extract_keywords(content, 10);
    assert_eq!(keywords, vec!["alpha", "gamma", "beta", "delta", "epsilon's"]);
}

#[test]
fn keywords_keep_the_most_frequent_words() {
    let content = "kappa zeta omega zeta omega zeta lambda";
    assert_eq!(extract_keywords(content, 2), vec!["zeta", "omega"]);
    assert_eq!(extract_keywords(content, 7), vec!["zeta", "omega", "kappa", "lambda"]);
}

#[test]
fn keywords_skip_short_words_and_cap_at_seven() {
    let content = "aaaa bbbb cccc dddd eeee ffff gggg hhhh iii jj k";
    let keywords = extract_keywords(content, 100);
    assert_eq!(keywords.len(), 7);
    assert!(!keywords.contains(&"iii".to_string()));
    assert_eq!(extract_keywords(content, 2), vec!["aaaa", "bbbb"]);
    assert!(extract_keywords(content, 0).is_empty());
}

#[test]
fn keywords_count_bytes_not_characters() {
    // "été" has three characters but five bytes in UTF-8
    assert_eq!(extract_keywords("été si", 7), vec!["été"]);
}

#[test]
fn keywords_split_at_punctuation_but_keep_hyphens() {
    let keywords = extract_keywords("well-known under_score plain.text", 7);
    assert_eq!(keywords, vec!["well-known", "under_score", "plain", "text"]);
}

#[test]
fn tags_in_list_order_and_capped() {
    let content = "integration bug in the database API with security DESIGN and architecture";
    assert_eq!(extract_tags(content, 5), vec!["architecture", "design", "api", "database", "security"]);
    assert_eq!(extract_tags(content, 2), vec!["architecture", "design"]);
}

#[test]
fn tags_fall_back_to_general() {
    assert_eq!(extract_tags("nothing relevant here", 5), vec!["general"]);
    assert_eq!(extract_tags("database", 0), vec!["general"]);
}

#[test]
fn enrich_sets_metadata_from_content() {
    let mut frame = MemoryFrame::new("Database performance matters. Database indexes help performance.");
    frame.memory_type = MemoryType::Decision;
    frame.confidence = 0;
    enrich_memory(&mut frame);
    assert_eq!(frame.keywords, vec!["database", "performance", "matters", "indexes", "help"]);
    assert_eq!(frame.tags, vec!["database", "performance"]);
    assert_eq!(
        frame.context_desc,
        "Database performance matters. Database indexes help performance...."
    );
    assert_eq!(frame.confidence, bp(0.85));
}

#[test]
fn enrich_uses_title_and_truncates_long_content() {
    let mut titled = MemoryFrame::new("some content");
    titled.title = "A title".to_string();
    enrich_memory(&mut titled);
    assert_eq!(titled.context_desc, "A title");

    let long: String = std::iter::repeat('x').take(150).collect();
    let mut untitled = MemoryFrame::new(&long);
    enrich_memory(&mut untitled);
    assert_eq!(untitled.context_desc.chars().count(), 103);
    assert!(untitled.context_desc.ends_with("x..."));
}

#[test]
fn feedback_moves_confidence_by_signal() {
    let frame = |id: &str, confidence: u32| {
        let mut f = MemoryFrame::new(id);
        f.frame_id = id.to_string();
        f.confidence = confidence;
        f
    };
    let mut a = frame("a", bp(0.5));
    a.access_count = 2;
    let records = vec![
        FeedbackRecord::referenced("a"),
        FeedbackRecord::referenced("a"),
        FeedbackRecord::surfaced("a"),
        FeedbackRecord::surfaced("b"),
        FeedbackRecord::ignored("c"),
        FeedbackRecord::ignored("lo"),
        FeedbackRecord::referenced("hi"),
    ];
    let mut frames = vec![a, frame("b", bp(0.5)), frame("c", bp(0.5)), frame("d", bp(0.5)), frame("lo", 100), frame("hi", 9900)];
    process_feedback(&records, &mut frames);
    assert_eq!(frames[0].confidence, bp(0.59));
    assert_eq!(frames[0].access_count, 4);
    assert!(frames[0].last_accessed.is_some());
    assert_eq!(frames[1].confidence, bp(0.49));
    assert_eq!(frames[1].access_count, 0);
    assert!(frames[1].last_accessed.is_some());
    assert_eq!(frames[2].confidence, bp(0.47));
    assert_eq!(frames[2].access_count, 0);
    assert!(frames[2].last_accessed.is_some());
    assert_eq!(frames[3].confidence, bp(0.5));
    assert!(frames[3].last_accessed.is_none());
    assert_eq!(frames[4].confidence, 0);
    assert_eq!(frames[5].confidence, 10_000);
    assert_eq!(frames[5].access_count, 1);
}

#[test]
fn feedback_signal_steps_and_caps() {
    let f = MemoryFrame::new("x");
    assert_eq!(compute_feedback_signal(&f, 0, 1), 500);
    assert_eq!(compute_feedback_signal(&f, 0, 9), 1500);
    assert_eq!(compute_feedback_signal(&f, 2, 0), 0);
    assert_eq!(compute_feedback_signal(&f, 3, 0), -100);
    assert_eq!(compute_feedback_signal(&f, 100, 0), -500);
}

#[test]
fn conflicts_between_opposed_decisions() {
    let mut prior = MemoryFrame::new("We will not use Redis. Status: TODO");
    prior.frame_id = "old-1".to_string();
    prior.title = "Cache choice".to_string();
    prior.memory_type = MemoryType::Decision;
    let mut note = MemoryFrame::new("We will not use Redis. Status: TODO");
    note.title = "A note".to_string();
    let mut same_title = MemoryFrame::new("We will not use Redis. Status: TODO");
    same_title.title = "Cache decision".to_string();
    same_title.memory_type = MemoryType::Decision;
    let new = decision("Cache decision", "We do not keep memcached", DecisionType::Decision, vec![]);
    let conflicts = detect_conflicts(&new, &[prior, note, same_title]);
    assert_eq!(conflicts.len(), 1);
    assert_eq!(conflicts[0].old_id, "old-1");
    assert_eq!(conflicts[0].new_id, "Cache decision");
    assert_eq!(conflicts[0].severity, bp(0.25));
    assert_eq!(
        conflicts[0].reason,
        "Decision 'Cache decision' appears to contradict prior decision 'Cache choice'"
    );
}

#[test]
fn no_conflict_when_both_mention_status() {
    let mut prior = MemoryFrame::new("ignored");
    prior.context_desc = "Not done: TODO".to_string();
    prior.memory_type = MemoryType::Decision;
    prior.title = "Old".to_string();
    let new = decision("New", "No longer TODO", DecisionType::Decision, vec![]);
    assert!(detect_conflicts(&new, &[prior]).is_empty());
}

#[test]
fn contradiction_edges_come_out_once() {
    let d1 = decision("use sqlite", "", DecisionType::Decision, vec!["f1", "f2", "f1"]);
    let d2 = decision("a fact", "", DecisionType::Fact, vec!["f3"]);
    let d3 = decision("use sqlite", "", DecisionType::Preference, vec!["f2", "f4"]);
    let existing = vec![
        ("e1".to_string(), decision("x", "", DecisionType::Decision, vec![])),
        ("e2".to_string(), decision("y", "", DecisionType::Decision, vec![])),
    ];
    let edges = build_causal_edges(&[d1, d2, d3], &existing);
    let pairs: Vec<_> = edges.iter().map(|e| (e.source_id.as_str(), e.target_id.as_str())).collect();
    assert_eq!(pairs, vec![("f1", "use sqlite"), ("f2", "use sqlite"), ("f4", "use sqlite")]);
    for e in &edges {
        assert_eq!(e.rel_type, RelationType::Contradicts);
        assert_eq!(e.confidence, bp(0.75));
    }
    assert!(build_causal_edges(&[decision("z", "", DecisionType::Decision, vec!["f"])], &[]).is_empty());
    assert_eq!(RelationType::Contradicts.as_str(), "contradicts");
}
