//! Configuration of the memory system.
//!
//! Real-valued settings (BM25 parameters, MMR weights) are held in basis
//! points (1/10000).

use vstd::prelude::*;

verus! {

#[derive(Debug, Clone)]
pub struct Config {
    pub vault: VaultConfig,
    pub embedding: EmbeddingConfig,
    pub llm: LlmConfig,
    pub reranker: RerankerConfig,
    pub retrieval: RetrievalConfig,
    pub lifecycle: LifecycleConfig,
}

#[derive(Debug, Clone)]
pub struct VaultConfig {
    pub path: String,
    pub relations_db: String,
}

#[derive(Debug, Clone)]
pub struct EmbeddingConfig {
    pub provider: String,
    pub model: String,
    pub dimension: usize,
    pub local: LocalConfig,
}

#[derive(Debug, Clone)]
pub struct LlmConfig {
    pub provider: String,
    pub model: String,
    pub local: LocalConfig,
}

#[derive(Debug, Clone)]
pub struct RerankerConfig {
    pub provider: String,
    pub model: String,
    pub local: LocalConfig,
}

#[derive(Debug, Clone)]
pub struct LocalConfig {
    pub url: Option<String>,
    pub no_think: Option<bool>,
}

#[derive(Debug, Clone)]
pub struct RetrievalConfig {
    pub bm25: Bm25Config,
    pub vector: VectorConfig,
    pub rrf: RrfConfig,
    pub rerank: RerankConfig,
    pub mmr: MmrConfig,
}

/// BM25 parameters, in basis points.
#[derive(Debug, Clone)]
pub struct Bm25Config {
    pub k1: u32,
    pub b: u32,
}

#[derive(Debug, Clone)]
pub struct VectorConfig {
    pub hnsw: HnswConfig,
}

#[derive(Debug, Clone)]
pub struct HnswConfig {
    pub m: usize,
    pub ef_construction: usize,
    pub ef_search: usize,
}

#[derive(Debug, Clone)]
pub struct RrfConfig {
    pub k: usize,
}

#[derive(Debug, Clone)]
pub struct RerankConfig {
    pub context_chars: usize,
    pub batch_size: usize,
}

/// MMR settings; weights in basis points.
#[derive(Debug, Clone)]
pub struct MmrConfig {
    pub enabled: bool,
    pub lambda: u32,
    pub diversity_threshold: u32,
}

#[derive(Debug, Clone)]
pub struct LifecycleConfig {
    pub reflect: ReflectConfig,
    pub decay: DecayConfig,
    pub governance: GovernanceConfig,
    pub consolidation: ConsolidationConfig,
}

#[derive(Debug, Clone)]
pub struct ReflectConfig {
    pub enabled: bool,
    pub interval_hours: u32,
}

#[derive(Debug, Clone)]
pub struct DecayConfig {
    pub enabled: bool,
}

#[derive(Debug, Clone)]
pub struct GovernanceConfig {
    pub max_memory: usize,
    pub per_type_limits: PerTypeLimits,
}

#[derive(Debug, Clone)]
pub struct PerTypeLimits {
    pub identity: Option<usize>,
    pub emotion: Option<usize>,
    pub knowledge: Option<usize>,
    pub event: Option<usize>,
}

#[derive(Debug, Clone)]
pub struct ConsolidationConfig {
    pub enabled: bool,
    pub deduplication_window_minutes: u32,
}

/// A local service endpoint holding `url` and `no_think`.
pub open spec fn local_is(l: LocalConfig, url: Seq<char>, no_think: Option<bool>) -> bool {
    &&& l.url is Some
    &&& l.url->0@ == url
    &&& l.no_think == no_think
}

/// The default configuration.
pub open spec fn is_default_config(c: Config) -> bool {
    &&& c.vault.path@ == "memos.mv2"@
    &&& c.vault.relations_db@ == "memos.db"@
    &&& c.embedding.provider@ == "local"@
    &&& c.embedding.model@ == "BAAI/bge-small-en-v1.5"@
    &&& c.embedding.dimension == 384
    &&& local_is(c.embedding.local, "http://localhost:8088"@, None)
    &&& c.llm.provider@ == "local"@
    &&& c.llm.model@ == "qwen3-1.7b-q4_k_m"@
    &&& local_is(c.llm.local, "http://localhost:8089"@, Some(true))
    &&& c.reranker.provider@ == "local"@
    &&& c.reranker.model@ == "cross-encoder/ms-marco-MiniLM-L-12-v2"@
    &&& local_is(c.reranker.local, "http://localhost:8090"@, None)
    &&& c.retrieval.bm25.k1 == 15000
    &&& c.retrieval.bm25.b == 7500
    &&& c.retrieval.vector.hnsw.m == 16
    &&& c.retrieval.vector.hnsw.ef_construction == 200
    &&& c.retrieval.vector.hnsw.ef_search == 100
    &&& c.retrieval.rrf.k == 60
    &&& c.retrieval.rerank.context_chars == 4000
    &&& c.retrieval.rerank.batch_size == 8
    &&& c.retrieval.mmr.enabled
    &&& c.retrieval.mmr.lambda == 7000
    &&& c.retrieval.mmr.diversity_threshold == 6000
    &&& c.lifecycle.reflect.enabled
    &&& c.lifecycle.reflect.interval_hours == 24
    &&& c.lifecycle.decay.enabled
    &&& c.lifecycle.governance.max_memory == 350
    &&& c.lifecycle.governance.per_type_limits.identity is None
    &&& c.lifecycle.governance.per_type_limits.emotion == Some(50usize)
    &&& c.lifecycle.governance.per_type_limits.knowledge == Some(250usize)
    &&& c.lifecycle.governance.per_type_limits.event == Some(50usize)
    &&& c.lifecycle.consolidation.enabled
    &&& c.lifecycle.consolidation.deduplication_window_minutes == 30
}

impl Default for Config {
    fn default() -> (c: Self)
        ensures
            is_default_config(c),
    {
        Config {
            vault: VaultConfig { path: "memos.mv2".to_owned(), relations_db: "memos.db".to_owned() },
            embedding: EmbeddingConfig {
                provider: "local".to_owned(),
                model: "BAAI/bge-small-en-v1.5".to_owned(),
                dimension: 384,
                local: LocalConfig { url: Some("http://localhost:8088".to_owned()), no_think: None },
            },
            llm: LlmConfig {
                provider: "local".to_owned(),
                model: "qwen3-1.7b-q4_k_m".to_owned(),
                local: LocalConfig { url: Some("http://localhost:8089".to_owned()), no_think: Some(true) },
            },
            reranker: RerankerConfig {
                provider: "local".to_owned(),
                model: "cross-encoder/ms-marco-MiniLM-L-12-v2".to_owned(),
                local: LocalConfig { url: Some("http://localhost:8090".to_owned()), no_think: None },
            },
            retrieval: RetrievalConfig {
                bm25: Bm25Config { k1: 15000, b: 7500 },
                vector: VectorConfig { hnsw: HnswConfig { m: 16, ef_construction: 200, ef_search: 100 } },
                rrf: RrfConfig { k: 60 },
                rerank: RerankConfig { context_chars: 4000, batch_size: 8 },
                mmr: MmrConfig { enabled: true, lambda: 7000, diversity_threshold: 6000 },
            },
            lifecycle: LifecycleConfig {
                reflect: ReflectConfig { enabled: true, interval_hours: 24 },
                decay: DecayConfig { enabled: true },
                governance: GovernanceConfig {
                    max_memory: 350,
                    per_type_limits: PerTypeLimits {
                        identity: None,
                        emotion: Some(50),
                        knowledge: Some(250),
                        event: Some(50),
                    },
                },
                consolidation: ConsolidationConfig { enabled: true, deduplication_window_minutes: 30 },
            },
        }
    }
}

} // verus!
