use memos::storage::frame::split_tag_list;
use memos::storage::relations::RelationType as StoredRelation;
use memos::storage::vault::{hit_from_frame, index_tags, lookup_query, prepare_frame, VaultStats};
use memos::{LifecycleState, MemoryFrame, MemoryType, PutOptions};

fn bp(x: f32) -> u32 {
    (x * 10_000.0).round() as u32
}

const ALL_TYPES: [MemoryType; 8] = [
    MemoryType::Decision,
    MemoryType::Hub,
    MemoryType::Antipattern,
    MemoryType::Research,
    MemoryType::Project,
    MemoryType::Handoff,
    MemoryType::Progress,
    MemoryType::Note,
];

#[test]
fn test_memory_type_defaults() {
    let frame = MemoryFrame::new("test content");
    assert_eq!(frame.memory_type, MemoryType::Note);
    assert_eq!(frame.confidence as f32 / 10_000.0, 0.50);
}

#[test]
fn fresh_frame_fields() {
    let frame = MemoryFrame::new("hello");
    assert_eq!(frame.content, "hello");
    assert_eq!(frame.fragment, "hello");
    assert_eq!(frame.created_at, frame.updated_at);
    assert_eq!(frame.lifecycle, LifecycleState::Active);
    assert_eq!(frame.metadata, "{}");
    assert_eq!(frame.frame_id.len(), 36);
    assert_ne!(MemoryFrame::new("hello").frame_id, frame.frame_id);
}

#[test]
fn memory_type_tables() {
    let baselines = [0.85, 0.80, 0.75, 0.70, 0.65, 0.60, 0.50, 0.50];
    let half_lives = [None, None, None, Some(90), Some(120), Some(30), Some(45), Some(60)];
    let names = ["decision", "hub", "antipattern", "research", "project", "handoff", "progress", "note"];
    for i in 0..8 {
        assert_eq!(ALL_TYPES[i].baseline_confidence(), bp(baselines[i]));
        assert_eq!(ALL_TYPES[i].half_life_days(), half_lives[i]);
        assert_eq!(ALL_TYPES[i].as_str(), names[i]);
    }
    assert_eq!(MemoryType::default(), MemoryType::Note);
}

#[test]
fn memory_type_names_round_trip() {
    for t in ALL_TYPES {
        assert_eq!(MemoryType::from_str(t.as_str()), t);
        assert_eq!(MemoryType::from_str(&t.as_str().to_uppercase()), t);
    }
    assert_eq!(MemoryType::from_str("unknown"), MemoryType::Note);
    assert_eq!(MemoryType::from_str(""), MemoryType::Note);
}

#[test]
fn relation_type_names_round_trip() {
    let all = [
        StoredRelation::Cause,
        StoredRelation::Effect,
        StoredRelation::Semantic,
        StoredRelation::Temporal,
        StoredRelation::Contradicts,
        StoredRelation::Supports,
    ];
    for r in all {
        assert_eq!(StoredRelation::from_str(r.as_str()), r);
    }
    assert_eq!(StoredRelation::from_str("CAUSE"), StoredRelation::Cause);
    assert_eq!(StoredRelation::from_str("other"), StoredRelation::Semantic);
}

#[test]
fn lifecycle_names() {
    assert_eq!(LifecycleState::Active.as_str(), "active");
    assert_eq!(LifecycleState::Archived.as_str(), "archived");
    assert_eq!(LifecycleState::Snoozed.as_str(), "snoozed");
    assert_eq!(LifecycleState::Forgotten.as_str(), "forgotten");
    assert_eq!(LifecycleState::default(), LifecycleState::Active);
}

#[test]
fn pinned_frames_get_the_full_boost() {
    let mut f = MemoryFrame::new("x");
    assert_eq!(f.pin_boost(), 0);
    f.pin_priority = bp(0.1) as i32;
    assert_eq!(f.pin_boost(), 3000);
    f.pin_priority = bp(0.9) as i32;
    assert_eq!(f.pin_boost(), 3000);
    f.pin_priority = -5;
    assert_eq!(f.pin_boost(), 0);
}

#[test]
fn put_options_builders() {
    let opts = PutOptions::default()
        .title("T")
        .memory_type("HANDOFF")
        .tags(vec!["x".to_string()])
        .uri("mem://1")
        .source_session("s1")
        .replaces(vec!["old".to_string()]);
    assert_eq!(opts.title.as_deref(), Some("T"));
    assert_eq!(opts.memory_type, Some(MemoryType::Handoff));
    assert_eq!(opts.tags, Some(vec!["x".to_string()]));
    assert_eq!(opts.uri.as_deref(), Some("mem://1"));
    assert_eq!(opts.source_session.as_deref(), Some("s1"));
    assert_eq!(opts.replaces, Some(vec!["old".to_string()]));
    assert!(opts.keywords.is_none() && opts.metadata.is_none());
}

#[test]
fn prepared_frame_takes_options() {
    let opts = PutOptions::default()
        .title("Use SQLite")
        .memory_type("decision")
        .tags(vec!["db".to_string()]);
    let frame = prepare_frame("chosen for simplicity".as_bytes(), opts);
    assert_eq!(frame.content, "chosen for simplicity");
    assert_eq!(frame.title, "Use SQLite");
    assert_eq!(frame.memory_type, MemoryType::Decision);
    assert_eq!(frame.confidence, bp(0.85));
    assert_eq!(frame.tags, vec!["db".to_string()]);
    let tags = index_tags(&frame);
    assert_eq!(tags, vec![("type".to_string(), "decision".to_string()), ("tag".to_string(), "db".to_string())]);
}

#[test]
fn prepared_frame_replaces_invalid_utf8() {
    let frame = prepare_frame(&[b'a', 0xff, b'b'], PutOptions::default());
    assert_eq!(frame.content, "a\u{fffd}b");
    assert_eq!(frame.memory_type, MemoryType::Note);
    assert_eq!(frame.title, "");
}

#[test]
fn prepared_frame_is_enriched() {
    let content = "Database performance tuning: the database index helped";
    let frame = prepare_frame(content.as_bytes(), PutOptions::default());
    assert_eq!(frame.keywords, vec!["database", "performance", "tuning", "index", "helped"]);
    assert_eq!(frame.tags, vec!["database", "performance"]);
    assert_eq!(frame.context_desc, format!("{}...", content));
    assert_eq!(frame.confidence, bp(0.5));
    assert_eq!(frame.metadata, "{}");
    let titled = prepare_frame(content.as_bytes(), PutOptions::default().title("Tuning"));
    assert_eq!(titled.context_desc, "Tuning");
}

#[test]
fn prepared_frame_stores_every_option() {
    let mut opts = PutOptions::default().title("T").uri("memos://x").source_session("s1").replaces(vec!["old".to_string()]);
    opts.keywords = Some(vec!["given".to_string()]);
    opts.context_desc = Some("ctx".to_string());
    opts.source_context = Some("chat".to_string());
    opts.metadata = Some("{\"k\":1}".to_string());
    let frame = prepare_frame("database api".as_bytes(), opts);
    assert_eq!(frame.keywords, vec!["given".to_string()]);
    assert_eq!(frame.tags, vec!["api", "database"]);
    assert_eq!(frame.context_desc, "ctx");
    assert_eq!(frame.source_context.as_deref(), Some("chat"));
    assert_eq!(frame.metadata, "{\"k\":1}");
    assert_eq!(frame.uri, "memos://x");
    assert_eq!(frame.source_session.as_deref(), Some("s1"));
    assert_eq!(frame.replaces, vec!["old".to_string()]);
}

#[test]
fn hits_and_lookup_queries() {
    let mut frame = MemoryFrame::new("body");
    frame.title = "t".to_string();
    frame.memory_type = MemoryType::Research;
    let id = frame.frame_id.clone();
    let hit = hit_from_frame(frame, "snip".to_string(), 1234);
    assert_eq!(hit.frame_id, id);
    assert_eq!(hit.memory_type, "research");
    assert_eq!(hit.score, 1234);
    assert_eq!(hit.snippet, "snip");
    assert_eq!(lookup_query("abc"), "frame_id:abc");
    let stats = VaultStats::default();
    assert_eq!(stats.total_memories + stats.active_count + stats.archived_count, 0);
    assert_eq!(stats.by_type.len(), 0);
}

#[test]
fn tag_lists_split_at_commas() {
    assert_eq!(split_tag_list("welding,copper"), vec!["welding", "copper"]);
    assert_eq!(split_tag_list(""), vec![""]);
    assert_eq!(split_tag_list("a,,b "), vec!["a", "", "b "]);
    assert_eq!(split_tag_list(",x,"), vec!["", "x", ""]);
}

#[test]
fn frame_ids_are_uuid_text() {
    let f = MemoryFrame::new("x");
    let id: Vec<char> = f.frame_id.chars().collect();
    assert_eq!(id.len(), 36);
    for (i, c) in id.iter().enumerate() {
        if [8, 13, 18, 23].contains(&i) {
            assert_eq!(*c, '-');
        } else {
            assert!(c.is_ascii_hexdigit() && !c.is_ascii_uppercase());
        }
    }
    assert_eq!(id[14], '4');
    assert!(f.created_at.secs >= 0 && f.created_at.nanos < 1_000_000_000);
    assert_ne!(MemoryFrame::new("x").frame_id, f.frame_id);
}
