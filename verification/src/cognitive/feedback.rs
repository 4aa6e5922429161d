//! Feedback loop: boost referenced memories, decay ignored ones.

use vstd::prelude::*;
use crate::bindings::{is_clock_time, utc_now, Timestamp};
use crate::storage::frame::MemoryFrame;

verus! {

/// Feedback signal type.
#[derive(Debug, Clone, Copy, PartialEq, Eq, Structural)]
pub enum FeedbackSignal {
    /// The agent used this memory.
    Referenced,
    /// Shown in context but not used.
    Surfaced,
    /// Shown several times but never used.
    Ignored,
}

/// A feedback record for one memory.
#[derive(Debug, Clone)]
pub struct FeedbackRecord {
    pub frame_id: String,
    pub signal: FeedbackSignal,
    pub timestamp: Timestamp,
}

impl FeedbackRecord {
    /// A `Referenced` record for the frame, stamped with the current time.
    pub fn referenced(frame_id: &str) -> (r: Self)
        ensures
            r.frame_id@ == frame_id@,
            r.signal == FeedbackSignal::Referenced,
            is_clock_time(r.timestamp),
    {
        FeedbackRecord { frame_id: frame_id.to_owned(), signal: FeedbackSignal::Referenced, timestamp: utc_now() }
    }

    /// A `Surfaced` record for the frame, stamped with the current time.
    pub fn surfaced(frame_id: &str) -> (r: Self)
        ensures
            r.frame_id@ == frame_id@,
            r.signal == FeedbackSignal::Surfaced,
            is_clock_time(r.timestamp),
    {
        FeedbackRecord { frame_id: frame_id.to_owned(), signal: FeedbackSignal::Surfaced, timestamp: utc_now() }
    }

    /// An `Ignored` record for the frame, stamped with the current time.
    pub fn ignored(frame_id: &str) -> (r: Self)
        ensures
            r.frame_id@ == frame_id@,
            r.signal == FeedbackSignal::Ignored,
            is_clock_time(r.timestamp),
    {
        FeedbackRecord { frame_id: frame_id.to_owned(), signal: FeedbackSignal::Ignored, timestamp: utc_now() }
    }
}

/// The number of records about the frame with identifier `id` that carry `signal`.
pub open spec fn signal_count(records: Seq<FeedbackRecord>, id: Seq<char>, signal: FeedbackSignal) -> nat
    decreases records.len(),
{
    if records.len() == 0 {
        0
    } else {
        signal_count(records.drop_last(), id, signal) + if records.last().frame_id@ == id
            && records.last().signal == signal {
            1nat
        } else {
            0nat
        }
    }
}

/// Confidence change, in basis points, for a frame with `referenced`,
/// `surfaced` and `ignored` records: +0.05, -0.01 and -0.03 for each.
pub open spec fn confidence_change(referenced: nat, surfaced: nat, ignored: nat) -> int {
    500 * referenced - 100 * surfaced - 300 * ignored
}

/// A confidence kept within 0.0 and 1.0 (basis points).
pub open spec fn clamp_confidence(c: int) -> u32 {
    if c < 0 {
        0
    } else if c > 10_000 {
        10_000
    } else {
        c as u32
    }
}

/// How feedback changes one frame. A frame with records gets its confidence
/// moved by +0.05 for each Referenced record, -0.01 for each Surfaced one and
/// -0.03 for each Ignored one, kept within 0.0 and 1.0; its access count rises
/// by the number of Referenced records, and it gets the current time as last
/// access. Nothing else changes, and frames without records stay as
/// they were.
pub open spec fn feedback_applied(before: MemoryFrame, after: MemoryFrame, records: Seq<FeedbackRecord>) -> bool {
    let id = before.frame_id@;
    let r = signal_count(records, id, FeedbackSignal::Referenced);
    let s = signal_count(records, id, FeedbackSignal::Surfaced);
    let i = signal_count(records, id, FeedbackSignal::Ignored);
    if r + s + i > 0 {
        &&& after.access_count == before.access_count + r
        &&& after.confidence == clamp_confidence(before.confidence + confidence_change(r, s, i))
        &&& after.last_accessed is Some
        &&& is_clock_time(after.last_accessed->0)
        &&& after == (MemoryFrame {
            access_count: after.access_count,
            confidence: after.confidence,
            last_accessed: after.last_accessed,
            ..before
        })
    } else {
        after == before
    }
}

/// Counts the records about one frame, by signal: (Referenced, Surfaced, Ignored).
fn count_signals(records: &[FeedbackRecord], id: &String) -> (c: (usize, usize, usize))
    ensures
        c.0 == signal_count(records@, id@, FeedbackSignal::Referenced),
        c.1 == signal_count(records@, id@, FeedbackSignal::Surfaced),
        c.2 == signal_count(records@, id@, FeedbackSignal::Ignored),
{
    let mut r: usize = 0;
    let mut s: usize = 0;
    let mut g: usize = 0;
    let mut i: usize = 0;
    while i < records.len()
        invariant
            i <= records.len(),
            r == signal_count(records@.take(i as int), id@, FeedbackSignal::Referenced),
            s == signal_count(records@.take(i as int), id@, FeedbackSignal::Surfaced),
            g == signal_count(records@.take(i as int), id@, FeedbackSignal::Ignored),
            r + s + g <= i,
        decreases records.len() - i,
    {
        assert(records@.take(i + 1).drop_last() =~= records@.take(i as int));
        assert(records@.take(i + 1).last() == records@[i as int]);
        if records[i].frame_id == *id {
            match records[i].signal {
                FeedbackSignal::Referenced => r += 1,
                FeedbackSignal::Surfaced => s += 1,
                FeedbackSignal::Ignored => g += 1,
            }
        }
        i += 1;
    }
    assert(records@.take(records.len() as int) =~= records@);
    (r, s, g)
}

/// The new confidence after feedback, kept within 0.0 and 1.0.
fn adjusted_confidence(confidence: u32, referenced: usize, surfaced: usize, ignored: usize) -> (c: u32)
    ensures
        c == clamp_confidence(confidence + confidence_change(referenced as nat, surfaced as nat, ignored as nat)),
{
    let v: i128 = confidence as i128 + 500 * (referenced as i128) - 100 * (surfaced as i128)
        - 300 * (ignored as i128);
    if v < 0 {
        0
    } else if v > 10_000 {
        10_000
    } else {
        v as u32
    }
}

/// Applies a session's feedback to frames. For each frame with records: +0.05
/// confidence and one more access for each Referenced record, -0.01 for each
/// Surfaced one, -0.03 for each Ignored one, confidence kept within 0.0 and
/// 1.0, and the current time as last access. Access
/// counts must stay within `u32`: the count update is plain addition, which
/// panics on overflow.
pub fn process_feedback(records: &[FeedbackRecord], frames: &mut Vec<MemoryFrame>)
    requires
        forall|i: int| 0 <= i < old(frames)@.len() ==>
            #[trigger] old(frames)@[i].access_count
                + signal_count(records@, old(frames)@[i].frame_id@, FeedbackSignal::Referenced) <= u32::MAX,
    ensures
        final(frames)@.len() == old(frames)@.len(),
        forall|i: int| 0 <= i < old(frames)@.len() ==>
            feedback_applied(#[trigger] old(frames)@[i], final(frames)@[i], records@),
{
    let ghost orig = frames@;
    let mut out: Vec<MemoryFrame> = Vec::new();
    let n = frames.len();
    let mut i: usize = 0;
    while i < n
        invariant
            n == orig.len(),
            i <= n,
            frames@ == orig.skip(i as int),
            out@.len() == i,
            forall|k: int| 0 <= k < orig.len() ==>
                #[trigger] orig[k].access_count
                    + signal_count(records@, orig[k].frame_id@, FeedbackSignal::Referenced) <= u32::MAX,
            forall|k: int| 0 <= k < i ==> feedback_applied(#[trigger] orig[k], out@[k], records@),
        decreases n - i,
    {
        let mut frame = frames.remove(0);
        assert(frame == orig[i as int]);
        let (r, s, g) = count_signals(records, &frame.frame_id);
        if r > 0 || s > 0 || g > 0 {
            frame.confidence = adjusted_confidence(frame.confidence, r, s, g);
            frame.last_accessed = Some(utc_now());
            frame.access_count = frame.access_count + r as u32;
        }
        out.push(frame);
        assert(frames@ =~= orig.skip(i + 1));
        i += 1;
    }
    *frames = out;
}

/// The feedback signal for counts of surfacings and references.
pub open spec fn feedback_signal(surfacing_count: nat, reference_count: nat) -> int {
    if reference_count > 0 {
        500 * (if reference_count < 3 { reference_count as int } else { 3 })
    } else if surfacing_count > 2 {
        -100 * (if surfacing_count - 2 < 5 { surfacing_count - 2 } else { 5 })
    } else {
        0
    }
}

/// The feedback signal steps: each reference up to three adds 0.05, so one,
/// two and three references give 0.05, 0.10 and 0.15 and more give 0.15;
/// without references, each surfacing beyond the second takes 0.01, down to
/// -0.05; otherwise the signal is 0. More references never lower it.
pub proof fn feedback_signal_steps(surfacing_count: nat, reference_count: nat)
    ensures
        1 <= reference_count <= 3 ==> feedback_signal(surfacing_count, reference_count) == 500 * reference_count,
        reference_count > 3 ==> feedback_signal(surfacing_count, reference_count) == 1500,
        reference_count == 0 && 2 < surfacing_count <= 7 ==>
            feedback_signal(surfacing_count, reference_count) == -100 * (surfacing_count - 2),
        reference_count == 0 && surfacing_count > 7 ==> feedback_signal(surfacing_count, reference_count) == -500,
        reference_count == 0 && surfacing_count <= 2 ==> feedback_signal(surfacing_count, reference_count) == 0,
        feedback_signal(surfacing_count, reference_count) <= feedback_signal(surfacing_count, reference_count + 1),
        reference_count < 3 ==> feedback_signal(surfacing_count, reference_count) < feedback_signal(
            surfacing_count,
            reference_count + 1,
        ),
{
}

/// Boost or decay for a memory from its feedback history, in basis points:
/// 0.05 per reference up to three, else -0.01 per surfacing beyond the second
/// up to five, else nothing.
pub fn compute_feedback_signal(frame: &MemoryFrame, surfacing_count: usize, reference_count: usize) -> (s: i32)
    ensures
        s == feedback_signal(surfacing_count as nat, reference_count as nat),
        -500 <= s <= 1500,
        s > 0 <==> reference_count > 0,
        s < 0 <==> (reference_count == 0 && surfacing_count > 2),
{
    if reference_count > 0 {
        let r: i32 = if reference_count < 3 { reference_count as i32 } else { 3 };
        assert(1 <= r <= 3);
        let s: i32 = 500 * r;
        s
    } else if surfacing_count > 2 {
        let d: i32 = if surfacing_count - 2 < 5 { (surfacing_count - 2) as i32 } else { 5 };
        assert(1 <= d <= 5);
        let s: i32 = 0 - 100 * d;
        s
    } else {
        0
    }
}

} // verus!
