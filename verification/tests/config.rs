use memos::config::Config;

#[test]
fn it_works() {
    assert_eq!(2 + 2, 4);
}

#[test]
fn default_config_values() {
    let c = Config::default();
    assert_eq!(c.vault.path, "memos.mv2");
    assert_eq!(c.vault.relations_db, "memos.db");
    assert_eq!(c.embedding.dimension, 384);
    assert_eq!(c.llm.local.no_think, Some(true));
    assert_eq!(c.reranker.local.url.as_deref(), Some("http://localhost:8090"));
    assert_eq!(c.retrieval.bm25.k1 as f32 / 10_000.0, 1.5);
    assert_eq!(c.retrieval.mmr.lambda as f32 / 10_000.0, 0.7);
    assert_eq!(c.retrieval.rrf.k, 60);
    assert_eq!(c.lifecycle.governance.max_memory, 350);
    assert_eq!(c.lifecycle.governance.per_type_limits.knowledge, Some(250));
    assert_eq!(c.lifecycle.consolidation.deduplication_window_minutes, 30);
}
