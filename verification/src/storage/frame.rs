//! Memory frame schema: the core record of a single memory.

use vstd::prelude::*;
use crate::bindings::{ascii_lower, is_clock_time, is_uuid_v4_text, random_frame_id, to_lowercase, unicode_lowercase, utc_now, Timestamp};
use crate::text::{chars_of, str_eq};
use crate::bindings::string_from_chars;
use vstd::utf8::is_ascii_chars;

verus! {

/// Memory content types, which differ in how they decay.
#[derive(Debug, Clone, Copy, PartialEq, Eq, Structural)]
pub enum MemoryType {
    /// Architectural or important decisions: never decay.
    Decision,
    /// Static reference knowledge: never decay.
    Hub,
    /// Negative patterns: never decay.
    Antipattern,
    /// Research findings: 90 day half-life.
    Research,
    /// Project context: 120 day half-life.
    Project,
    /// Session handoffs: 30 day half-life.
    Handoff,
    /// Work progress: 45 day half-life.
    Progress,
    /// General notes: 60 day half-life.
    Note,
}

impl Default for MemoryType {
    fn default() -> (r: Self)
        ensures
            r == MemoryType::Note,
    {
        MemoryType::Note
    }
}

impl MemoryType {
    /// The lowercase name of the type.
    pub open spec fn name(self) -> Seq<char> {
        match self {
            MemoryType::Decision => "decision"@,
            MemoryType::Hub => "hub"@,
            MemoryType::Antipattern => "antipattern"@,
            MemoryType::Research => "research"@,
            MemoryType::Project => "project"@,
            MemoryType::Handoff => "handoff"@,
            MemoryType::Progress => "progress"@,
            MemoryType::Note => "note"@,
        }
    }

    /// The type a lowercase name stands for; any other text stands for `Note`.
    pub open spec fn from_name(n: Seq<char>) -> MemoryType {
        if n == "decision"@ {
            MemoryType::Decision
        } else if n == "hub"@ {
            MemoryType::Hub
        } else if n == "antipattern"@ {
            MemoryType::Antipattern
        } else if n == "research"@ {
            MemoryType::Research
        } else if n == "project"@ {
            MemoryType::Project
        } else if n == "handoff"@ {
            MemoryType::Handoff
        } else if n == "progress"@ {
            MemoryType::Progress
        } else {
            MemoryType::Note
        }
    }

    /// Baseline confidence in basis points (1/10000).
    pub open spec fn baseline(self) -> u32 {
        match self {
            MemoryType::Decision => 8500,
            MemoryType::Hub => 8000,
            MemoryType::Antipattern => 7500,
            MemoryType::Research => 7000,
            MemoryType::Project => 6500,
            MemoryType::Handoff => 6000,
            MemoryType::Progress => 5000,
            MemoryType::Note => 5000,
        }
    }

    /// Half-life in days; `None` for types that never decay.
    pub open spec fn half_life(self) -> Option<i64> {
        match self {
            MemoryType::Decision => None,
            MemoryType::Hub => None,
            MemoryType::Antipattern => None,
            MemoryType::Research => Some(90),
            MemoryType::Project => Some(120),
            MemoryType::Handoff => Some(30),
            MemoryType::Progress => Some(45),
            MemoryType::Note => Some(60),
        }
    }

    /// Baseline confidence of the type, in basis points (0.85 is 8500).
    pub fn baseline_confidence(&self) -> (r: u32)
        ensures
            r == self.baseline(),
    {
        match self {
            MemoryType::Decision => 8500,
            MemoryType::Hub => 8000,
            MemoryType::Antipattern => 7500,
            MemoryType::Research => 7000,
            MemoryType::Project => 6500,
            MemoryType::Handoff => 6000,
            MemoryType::Progress => 5000,
            MemoryType::Note => 5000,
        }
    }

    /// Half-life in days, `None` for the types that never decay.
    pub fn half_life_days(&self) -> (r: Option<i64>)
        ensures
            r == self.half_life(),
            r is None <==> (*self == MemoryType::Decision || *self == MemoryType::Hub
                || *self == MemoryType::Antipattern),
    {
        match self {
            MemoryType::Decision => None,
            MemoryType::Hub => None,
            MemoryType::Antipattern => None,
            MemoryType::Research => Some(90),
            MemoryType::Project => Some(120),
            MemoryType::Handoff => Some(30),
            MemoryType::Progress => Some(45),
            MemoryType::Note => Some(60),
        }
    }

    /// The lowercase name of the type.
    pub fn as_str(&self) -> (s: &'static str)
        ensures
            s@ == self.name(),
    {
        match self {
            MemoryType::Decision => "decision",
            MemoryType::Hub => "hub",
            MemoryType::Antipattern => "antipattern",
            MemoryType::Research => "research",
            MemoryType::Project => "project",
            MemoryType::Handoff => "handoff",
            MemoryType::Progress => "progress",
            MemoryType::Note => "note",
        }
    }

    /// Parses a type name, ignoring case; unknown names give `Note`.
    pub fn from_str(s: &str) -> (r: Self)
        ensures
            r == MemoryType::from_name(unicode_lowercase(s@)),
            is_ascii_chars(s@) ==> r == MemoryType::from_name(ascii_lower(s@)),
    {
        let lower = to_lowercase(s);
        let l = lower.as_str();
        if str_eq(l, "decision") {
            MemoryType::Decision
        } else if str_eq(l, "hub") {
            MemoryType::Hub
        } else if str_eq(l, "antipattern") {
            MemoryType::Antipattern
        } else if str_eq(l, "research") {
            MemoryType::Research
        } else if str_eq(l, "project") {
            MemoryType::Project
        } else if str_eq(l, "handoff") {
            MemoryType::Handoff
        } else if str_eq(l, "progress") {
            MemoryType::Progress
        } else {
            MemoryType::Note
        }
    }
}

/// Reading back the name of a memory type gives the same type: every name
/// is ASCII lowercase text, and parsing it yields the type it names.
pub proof fn memory_type_name_round_trip(t: MemoryType)
    ensures
        is_ascii_chars(t.name()),
        MemoryType::from_name(ascii_lower(t.name())) == t,
{
    reveal_strlit("decision");
    reveal_strlit("hub");
    reveal_strlit("antipattern");
    reveal_strlit("research");
    reveal_strlit("project");
    reveal_strlit("handoff");
    reveal_strlit("progress");
    reveal_strlit("note");
    assert(ascii_lower(t.name()) =~= t.name());
    let d = "decision"@;
    let h = "hub"@;
    let a = "antipattern"@;
    let r = "research"@;
    let p = "project"@;
    let o = "handoff"@;
    let g = "progress"@;
    assert(d.len() == 8 && h.len() == 3 && a.len() == 11 && r.len() == 8);
    assert(p.len() == 7 && o.len() == 7 && g.len() == 8 && "note"@.len() == 4);
    assert(r[0] != d[0] && g[0] != d[0] && g[0] != r[0] && o[0] != p[0]);
    assert(d != r && d != g && r != g && p != o);
}

/// Memory lifecycle state.
#[derive(Debug, Clone, Copy, PartialEq, Eq, Structural)]
pub enum LifecycleState {
    Active,
    Archived,
    Snoozed,
    Forgotten,
}

impl Default for LifecycleState {
    fn default() -> (r: Self)
        ensures
            r == LifecycleState::Active,
    {
        LifecycleState::Active
    }
}

impl LifecycleState {
    /// The lowercase name of the state.
    pub open spec fn name(self) -> Seq<char> {
        match self {
            LifecycleState::Active => "active"@,
            LifecycleState::Archived => "archived"@,
            LifecycleState::Snoozed => "snoozed"@,
            LifecycleState::Forgotten => "forgotten"@,
        }
    }

    /// The lowercase name of the state.
    pub fn as_str(&self) -> (s: &'static str)
        ensures
            s@ == self.name(),
    {
        match self {
            LifecycleState::Active => "active",
            LifecycleState::Archived => "archived",
            LifecycleState::Snoozed => "snoozed",
            LifecycleState::Forgotten => "forgotten",
        }
    }
}

/// The sequence of character views of a vector of strings.
pub open spec fn string_views(v: Seq<String>) -> Seq<Seq<char>> {
    v.map_values(|s: String| s@)
}

/// The pieces of `s` between commas, empty pieces included, as `str::split`
/// with `','` gives them.
pub open spec fn comma_pieces(s: Seq<char>) -> Seq<Seq<char>>
    decreases s.len(),
{
    if s.len() == 0 {
        seq![Seq::<char>::empty()]
    } else {
        let p = comma_pieces(s.drop_last());
        let c = s.last();
        if c == ',' {
            p.push(Seq::<char>::empty())
        } else {
            p.drop_last().push(p.last().push(c))
        }
    }
}

/// The tags of a comma-separated list, as the command line takes them: the
/// pieces between commas, untrimmed, empty ones included.
pub fn split_tag_list(list: &str) -> (r: Vec<String>)
    ensures
        string_views(r@) == comma_pieces(list@),
{
    let cs = chars_of(list);
    let mut out: Vec<String> = Vec::new();
    let mut cur: Vec<char> = Vec::new();
    let mut i: usize = 0;
    assert(cs@.take(0) =~= Seq::<char>::empty());
    assert(string_views(out@).push(cur@) =~= seq![Seq::<char>::empty()]);
    while i < cs.len()
        invariant
            i <= cs.len(),
            cs@ == list@,
            comma_pieces(cs@.take(i as int)) == string_views(out@).push(cur@),
        decreases cs.len() - i,
    {
        let c = cs[i];
        assert(cs@.take(i + 1).drop_last() =~= cs@.take(i as int));
        assert(cs@.take(i + 1).last() == c);
        let ghost before = string_views(out@).push(cur@);
        if c == ',' {
            let piece = string_from_chars(cur.as_slice());
            out.push(piece);
            cur = Vec::new();
            assert(string_views(out@).push(cur@) =~= before.push(Seq::<char>::empty()));
        } else {
            cur.push(c);
            assert(string_views(out@).push(cur@) =~= before.drop_last().push(before.last().push(c)));
        }
        i += 1;
    }
    let last = string_from_chars(cur.as_slice());
    let ghost b = string_views(out@);
    out.push(last);
    assert(string_views(out@) =~= b.push(cur@));
    assert(cs@.take(cs.len() as int) =~= cs@);
    out
}

/// Boost of a pinned frame: 0.3 in basis points.
pub open spec fn pin_cap() -> i32 {
    3000
}

/// A memory frame, the stored record of one memory.
///
/// Confidence and pin priority are held in basis points (1/10000), times as
/// [`Timestamp`]s, the embedding as the bit patterns of its `f32` components,
/// and the metadata as JSON text.
#[derive(Debug, Clone)]
pub struct MemoryFrame {
    /// Unique frame identifier.
    pub frame_id: String,
    /// Memory type (determines decay behavior).
    pub memory_type: MemoryType,
    /// Short title or summary.
    pub title: String,
    /// Raw text content.
    pub content: String,
    /// Semantic chunk for embedding.
    pub fragment: String,
    /// Extracted keywords.
    pub keywords: Vec<String>,
    /// Extracted tags.
    pub tags: Vec<String>,
    /// Generated context description.
    pub context_desc: String,
    /// Stable URI for addressing.
    pub uri: String,
    pub source_session: Option<String>,
    pub source_context: Option<String>,
    pub observed_at: Option<Timestamp>,
    pub created_at: Timestamp,
    pub updated_at: Timestamp,
    /// Confidence in basis points.
    pub confidence: u32,
    pub access_count: u32,
    pub last_accessed: Option<Timestamp>,
    pub decay_started: Option<Timestamp>,
    pub lifecycle: LifecycleState,
    pub snooze_until: Option<Timestamp>,
    /// Pin priority in basis points.
    pub pin_priority: i32,
    pub replaces: Vec<String>,
    pub replaced_by: Option<String>,
    /// Embedding components, as `f32` bit patterns.
    pub vector: Vec<u32>,
    /// Additional metadata, as JSON text.
    pub metadata: String,
}

impl MemoryFrame {
    /// What a freshly made frame holds, apart from its identifier and times.
    pub open spec fn is_fresh(self, content: Seq<char>) -> bool {
        &&& self.memory_type == MemoryType::Note
        &&& self.title@ == Seq::<char>::empty()
        &&& self.content@ == content
        &&& self.fragment@ == content
        &&& self.keywords@.len() == 0
        &&& self.tags@.len() == 0
        &&& self.context_desc@ == Seq::<char>::empty()
        &&& self.uri@ == Seq::<char>::empty()
        &&& self.source_session is None
        &&& self.source_context is None
        &&& self.observed_at is None
        &&& self.created_at == self.updated_at
        &&& self.confidence == MemoryType::Note.baseline()
        &&& self.access_count == 0
        &&& self.last_accessed is None
        &&& self.decay_started is None
        &&& self.lifecycle == LifecycleState::Active
        &&& self.snooze_until is None
        &&& self.pin_priority == 0
        &&& self.replaces@.len() == 0
        &&& self.replaced_by is None
        &&& self.vector@.len() == 0
        &&& self.metadata@ == "{}"@
    }

    /// A new frame holding `content`, with a fresh random identifier (UUID
    /// text) and the current time as creation and update time.
    pub fn new(content: &str) -> (f: Self)
        ensures
            f.is_fresh(content@),
            is_uuid_v4_text(f.frame_id@),
            is_clock_time(f.created_at),
    {
        let now = utc_now();
        MemoryFrame {
            frame_id: random_frame_id(),
            memory_type: MemoryType::default(),
            title: String::new(),
            content: content.to_owned(),
            fragment: content.to_owned(),
            keywords: Vec::new(),
            tags: Vec::new(),
            context_desc: String::new(),
            uri: String::new(),
            source_session: None,
            source_context: None,
            observed_at: None,
            created_at: now,
            updated_at: now,
            confidence: MemoryType::default().baseline_confidence(),
            access_count: 0,
            last_accessed: None,
            decay_started: None,
            lifecycle: LifecycleState::default(),
            snooze_until: None,
            pin_priority: 0,
            replaces: Vec::new(),
            replaced_by: None,
            vector: Vec::new(),
            metadata: "{}".to_owned(),
        }
    }

    /// The pin boost: 0.3 for a pinned frame (positive pin priority), else 0
    /// (basis points).
    pub fn pin_boost(&self) -> (b: i32)
        ensures
            b == (if self.pin_priority > 0 { pin_cap() } else { 0 }),
    {
        if self.pin_priority > 0 {
            3000
        } else {
            0
        }
    }
}

/// Options for putting a memory.
#[derive(Debug, Clone)]
pub struct PutOptions {
    pub title: Option<String>,
    pub memory_type: Option<MemoryType>,
    pub tags: Option<Vec<String>>,
    pub keywords: Option<Vec<String>>,
    pub context_desc: Option<String>,
    pub uri: Option<String>,
    pub source_session: Option<String>,
    pub source_context: Option<String>,
    pub observed_at: Option<Timestamp>,
    pub replaces: Option<Vec<String>>,
    /// Metadata as JSON text.
    pub metadata: Option<String>,
}

impl PutOptions {
    /// No option set.
    pub open spec fn is_empty(self) -> bool {
        &&& self.title is None
        &&& self.memory_type is None
        &&& self.tags is None
        &&& self.keywords is None
        &&& self.context_desc is None
        &&& self.uri is None
        &&& self.source_session is None
        &&& self.source_context is None
        &&& self.observed_at is None
        &&& self.replaces is None
        &&& self.metadata is None
    }

    /// Sets the title.
    pub fn title(self, title: &str) -> (r: Self)
        ensures
            r.title is Some && r.title->0@ == title@,
            r == (PutOptions { title: r.title, ..self }),
    {
        PutOptions { title: Some(title.to_owned()), ..self }
    }

    /// Sets the memory type from its name, as `MemoryType::from_str` reads it.
    pub fn memory_type(self, mtype: &str) -> (r: Self)
        ensures
            r.memory_type == Some(MemoryType::from_name(unicode_lowercase(mtype@))),
            r == (PutOptions { memory_type: r.memory_type, ..self }),
    {
        PutOptions { memory_type: Some(MemoryType::from_str(mtype)), ..self }
    }

    /// Sets the tags.
    pub fn tags(self, tags: Vec<String>) -> (r: Self)
        ensures
            r.tags == Some(tags),
            r == (PutOptions { tags: r.tags, ..self }),
    {
        PutOptions { tags: Some(tags), ..self }
    }

    /// Sets the URI.
    pub fn uri(self, uri: &str) -> (r: Self)
        ensures
            r.uri is Some && r.uri->0@ == uri@,
            r == (PutOptions { uri: r.uri, ..self }),
    {
        PutOptions { uri: Some(uri.to_owned()), ..self }
    }

    /// Sets the source session.
    pub fn source_session(self, session: &str) -> (r: Self)
        ensures
            r.source_session is Some && r.source_session->0@ == session@,
            r == (PutOptions { source_session: r.source_session, ..self }),
    {
        PutOptions { source_session: Some(session.to_owned()), ..self }
    }

    /// Sets the identifiers of the frames this one replaces.
    pub fn replaces(self, ids: Vec<String>) -> (r: Self)
        ensures
            r.replaces == Some(ids),
            r == (PutOptions { replaces: r.replaces, ..self }),
    {
        PutOptions { replaces: Some(ids), ..self }
    }
}

impl Default for PutOptions {
    fn default() -> (r: Self)
        ensures
            r.is_empty(),
    {
        PutOptions {
            title: None,
            memory_type: None,
            tags: None,
            keywords: None,
            context_desc: None,
            uri: None,
            source_session: None,
            source_context: None,
            observed_at: None,
            replaces: None,
            metadata: None,
        }
    }
}

} // verus!
