//! The computing parts of the vault: building the enriched frame that a put stores,
//! the index tags it is stored under, the hits a search reports and the query
//! that looks a frame up.

use vstd::prelude::*;
use vstd::hash_map::StringHashMap;
use crate::bindings::{from_utf8_lossy, is_clock_time, is_uuid_v4_text, utf8_lossy};
use crate::retrieval::search::SearchHit;
use crate::cognitive::amem::{context_for, enrich_memory, keywords_of, tags_of};
use crate::storage::frame::{string_views, LifecycleState, MemoryFrame, MemoryType, PutOptions};
use crate::text::concat;

verus! {

/// Vault statistics.
pub struct VaultStats {
    pub total_memories: usize,
    pub active_count: usize,
    pub archived_count: usize,
    /// Number of memories by type name.
    pub by_type: StringHashMap<usize>,
}

impl Default for VaultStats {
    fn default() -> (s: Self)
        ensures
            s.total_memories == 0,
            s.active_count == 0,
            s.archived_count == 0,
            s.by_type@ == Map::<Seq<char>, usize>::empty(),
    {
        VaultStats { total_memories: 0, active_count: 0, archived_count: 0, by_type: StringHashMap::new() }
    }
}

/// The text of an optional string, empty when absent.
pub open spec fn text_or_empty(s: Option<String>) -> Seq<char> {
    match s {
        Some(t) => t@,
        None => Seq::empty(),
    }
}

/// What a frame prepared for a put holds: the decoded content, enriched
/// (keywords, tags and context description drawn from it, the baseline
/// confidence of its type), with every option that is given stored in place of
/// what the frame would otherwise hold, and otherwise what a fresh frame holds.
pub open spec fn prepared_for_put(f: MemoryFrame, content: Seq<char>, opts: PutOptions) -> bool {
    &&& f.content@ == content
    &&& f.fragment@ == content
    &&& f.title@ == text_or_empty(opts.title)
    &&& f.memory_type == (match opts.memory_type {
        Some(t) => t,
        None => MemoryType::Note,
    })
    &&& f.confidence == f.memory_type.baseline()
    &&& (match opts.keywords {
        Some(k) => f.keywords == k,
        None => string_views(f.keywords@) == keywords_of(content, 7),
    })
    &&& (match opts.tags {
        Some(t) => f.tags == t,
        None => string_views(f.tags@) == tags_of(content, 5),
    })
    &&& (match opts.context_desc {
        Some(c) => f.context_desc == c,
        None => f.context_desc@ == context_for(f.title@, content),
    })
    &&& f.uri@ == text_or_empty(opts.uri)
    &&& f.source_session == opts.source_session
    &&& f.source_context == opts.source_context
    &&& f.observed_at == opts.observed_at
    &&& (match opts.replaces {
        Some(r) => f.replaces == r,
        None => f.replaces@.len() == 0,
    })
    &&& (match opts.metadata {
        Some(m) => f.metadata == m,
        None => f.metadata@ == "{}"@,
    })
    &&& is_uuid_v4_text(f.frame_id@)
    &&& is_clock_time(f.created_at)
    &&& f.created_at == f.updated_at
    &&& f.access_count == 0
    &&& f.last_accessed is None
    &&& f.decay_started is None
    &&& f.lifecycle == LifecycleState::Active
    &&& f.snooze_until is None
    &&& f.pin_priority == 0
    &&& f.replaced_by is None
    &&& f.vector@.len() == 0
}

/// Builds the frame that a put stores: a fresh frame holding the content
/// (decoded from UTF-8, invalid sequences replaced), with the title and type
/// given, enriched with keywords, tags, a context description and the
/// baseline confidence of its type, and then every other option given stored
/// in it, given keywords, tags and context description taking the place of
/// the extracted ones.
pub fn prepare_frame(content: &[u8], opts: PutOptions) -> (f: MemoryFrame)
    ensures
        prepared_for_put(f, utf8_lossy(content@), opts),
{
    let text = from_utf8_lossy(content);
    let mut frame = MemoryFrame::new(text.as_str());
    if let Some(title) = opts.title {
        frame.title = title;
    }
    if let Some(mtype) = opts.memory_type {
        frame.memory_type = mtype;
    }
    enrich_memory(&mut frame);
    if let Some(keywords) = opts.keywords {
        frame.keywords = keywords;
    }
    if let Some(tags) = opts.tags {
        frame.tags = tags;
    }
    if let Some(desc) = opts.context_desc {
        frame.context_desc = desc;
    }
    if let Some(uri) = opts.uri {
        frame.uri = uri;
    }
    if let Some(session) = opts.source_session {
        frame.source_session = Some(session);
    }
    if let Some(context) = opts.source_context {
        frame.source_context = Some(context);
    }
    if let Some(observed) = opts.observed_at {
        frame.observed_at = Some(observed);
    }
    if let Some(replaces) = opts.replaces {
        frame.replaces = replaces;
    }
    if let Some(metadata) = opts.metadata {
        frame.metadata = metadata;
    }
    frame
}

/// The index tags a frame is stored under, as (name, value) pairs.
pub open spec fn index_tag_views(f: MemoryFrame) -> Seq<(Seq<char>, Seq<char>)> {
    seq![("type"@, f.memory_type.name())] + f.tags@.map_values(|t: String| ("tag"@, t@))
}

/// Views of (name, value) pairs.
pub open spec fn pair_views(s: Seq<(String, String)>) -> Seq<(Seq<char>, Seq<char>)> {
    s.map_values(|p: (String, String)| (p.0@, p.1@))
}

/// The index tags a frame is stored under: its type name under `type`, then
/// each of its tags under `tag`.
pub fn index_tags(frame: &MemoryFrame) -> (r: Vec<(String, String)>)
    ensures
        pair_views(r@) == index_tag_views(*frame),
{
    let mut r: Vec<(String, String)> = Vec::new();
    r.push(("type".to_owned(), frame.memory_type.as_str().to_owned()));
    let ghost tv = frame.tags@.map_values(|t: String| ("tag"@, t@));
    let mut i: usize = 0;
    assert(pair_views(r@) =~= seq![("type"@, frame.memory_type.name())] + tv.take(0));
    while i < frame.tags.len()
        invariant
            i <= frame.tags.len(),
            tv == frame.tags@.map_values(|t: String| ("tag"@, t@)),
            pair_views(r@) == seq![("type"@, frame.memory_type.name())] + tv.take(i as int),
        decreases frame.tags.len() - i,
    {
        let ghost b = r@;
        r.push(("tag".to_owned(), frame.tags[i].clone()));
        assert(pair_views(r@) =~= pair_views(b).push(tv[i as int]));
        assert(tv.take(i + 1) =~= tv.take(i as int).push(tv[i as int]));
        i += 1;
    }
    assert(tv.take(frame.tags.len() as int) =~= tv);
    r
}

/// The hit a search reports for a stored frame.
pub fn hit_from_frame(frame: MemoryFrame, snippet: String, score: u32) -> (h: SearchHit)
    ensures
        h.frame_id == frame.frame_id,
        h.title == frame.title,
        h.snippet == snippet,
        h.memory_type@ == frame.memory_type.name(),
        h.score == score,
        h.confidence == frame.confidence,
        h.tags == frame.tags,
        h.created_at == frame.created_at,
{
    SearchHit {
        memory_type: frame.memory_type.as_str().to_owned(),
        frame_id: frame.frame_id,
        title: frame.title,
        snippet,
        score,
        confidence: frame.confidence,
        tags: frame.tags,
        created_at: frame.created_at,
    }
}

/// The search query that looks up a frame by identifier: `frame_id:` and the
/// identifier.
pub fn lookup_query(frame_id: &str) -> (q: String)
    ensures
        q@ == "frame_id:"@ + frame_id@,
{
    concat("frame_id:", frame_id)
}

} // verus!
