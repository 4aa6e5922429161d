//! Adaptive memory evolution: keywords, tags and context of memory frames.

use vstd::prelude::*;
use vstd::utf8::encode_utf8;
use crate::bindings::{is_alphanumeric, string_from_chars, to_lowercase, unicode_alphanumeric, unicode_lowercase};
use crate::ranking::{distinct_items, has_item, lemma_sort_desc_contains, lemma_sort_desc_items, lemma_sort_desc_len, lemma_sort_desc_map, lemma_sort_desc_sorted, scored_views, sort_by_score_desc, sort_desc, view_fn};
use crate::storage::frame::{string_views, MemoryFrame, MemoryType};
use crate::text::{chars_of, occurs_in, str_contains, utf8_longer_than_3};

verus! {

/// The domain keywords that tags are drawn from, in order.
pub open spec fn domain_keywords() -> Seq<Seq<char>> {
    seq![
        "architecture"@, "design"@, "api"@, "database"@, "security"@,
        "performance"@, "testing"@, "deployment"@, "monitoring"@, "documentation"@,
        "bug"@, "feature"@, "refactor"@, "optimization"@, "integration"@,
    ]
}

/// The keywords of `kws` that occur in `text`, in order.
pub open spec fn occurring(kws: Seq<Seq<char>>, text: Seq<char>) -> Seq<Seq<char>>
    decreases kws.len(),
{
    if kws.len() == 0 {
        Seq::empty()
    } else {
        occurring(kws.drop_last(), text) + if occurs_in(kws.last(), text) {
            seq![kws.last()]
        } else {
            Seq::<Seq<char>>::empty()
        }
    }
}

/// At most the first `n` items of `s`.
pub open spec fn at_most<A>(s: Seq<A>, n: nat) -> Seq<A> {
    if s.len() > n {
        s.take(n as int)
    } else {
        s
    }
}

/// The smaller of two numbers.
pub open spec fn min_nat(a: nat, b: nat) -> nat {
    if a < b {
        a
    } else {
        b
    }
}

/// The tags of a content: the first `min(top_k, 5)` domain keywords that occur
/// in its lowercase form, or `general` when there is none.
pub open spec fn tags_of(content: Seq<char>, top_k: nat) -> Seq<Seq<char>> {
    let found = at_most(occurring(domain_keywords(), unicode_lowercase(content)), min_nat(top_k, 5));
    if found.len() == 0 {
        seq!["general"@]
    } else {
        found
    }
}

/// Extracts broad category tags from content: the domain keywords found in its
/// lowercase form, at most `min(top_k, 5)` of them, in the order of the
/// keyword list; `general` when none is found.
pub fn extract_tags(content: &str, top_k: usize) -> (r: Vec<String>)
    ensures
        string_views(r@) == tags_of(content@, top_k as nat),
{
    let kws: [&str; 15] = [
        "architecture", "design", "api", "database", "security",
        "performance", "testing", "deployment", "monitoring", "documentation",
        "bug", "feature", "refactor", "optimization", "integration",
    ];
    let ghost dk = domain_keywords();
    assert(kws@.map_values(|s: &str| s@) =~= dk);
    let lower_s = to_lowercase(content);
    let lower = lower_s.as_str();
    let limit: usize = if top_k < 5 { top_k } else { 5 };
    let mut found: Vec<String> = Vec::new();
    let mut i: usize = 0;
    assert(string_views(found@) =~= at_most(occurring(dk.take(0), lower@), limit as nat));
    while i < 15
        invariant
            i <= 15,
            kws@.map_values(|s: &str| s@) == dk,
            dk == domain_keywords(),
            lower@ == unicode_lowercase(content@),
            limit == min_nat(top_k as nat, 5),
            string_views(found@) == at_most(occurring(dk.take(i as int), lower@), limit as nat),
        decreases 15 - i,
    {
        let kw = kws[i];
        assert(kw@ == dk[i as int]);
        let ghost prev = occurring(dk.take(i as int), lower@);
        assert(dk.take(i + 1).drop_last() =~= dk.take(i as int));
        assert(dk.take(i + 1).last() == dk[i as int]);
        let hit = str_contains(lower, kw);
        let ghost next = occurring(dk.take(i + 1), lower@);
        assert(next == prev + if hit { seq![kw@] } else { Seq::<Seq<char>>::empty() });
        if hit && found.len() < limit {
            let ghost b = found@;
            found.push(kw.to_owned());
            assert(string_views(found@) =~= string_views(b).push(kw@));
            assert(at_most(next, limit as nat) =~= prev.push(kw@));
        } else if hit {
            assert(at_most(next, limit as nat) =~= at_most(prev, limit as nat));
        } else {
            assert(next =~= prev);
        }
        i += 1;
    }
    assert(dk.take(15) =~= dk);
    if found.len() == 0 {
        let mut g: Vec<String> = Vec::new();
        g.push("general".to_owned());
        assert(string_views(g@) =~= seq!["general"@]);
        g
    } else {
        found
    }
}

/// Characters that belong to words: alphanumeric ones, apostrophes, hyphens
/// and underscores.
pub open spec fn is_word_char(c: char) -> bool {
    unicode_alphanumeric(c) || c == '\'' || c == '-' || c == '_'
}

/// The pieces of `s` between separator characters, empty pieces included, as
/// `str::split` with a character predicate gives them.
pub open spec fn split_pieces(s: Seq<char>) -> Seq<Seq<char>>
    decreases s.len(),
{
    if s.len() == 0 {
        seq![Seq::<char>::empty()]
    } else {
        let p = split_pieces(s.drop_last());
        let c = s.last();
        if is_word_char(c) {
            p.drop_last().push(p.last().push(c))
        } else {
            p.push(Seq::<char>::empty())
        }
    }
}

/// The pieces longer than three bytes in UTF-8, lowercased.
pub open spec fn lowered_long_words(pieces: Seq<Seq<char>>) -> Seq<Seq<char>>
    decreases pieces.len(),
{
    if pieces.len() == 0 {
        Seq::empty()
    } else {
        let t = lowered_long_words(pieces.drop_last());
        let w = pieces.last();
        if encode_utf8(w).len() > 3 {
            t.push(unicode_lowercase(w))
        } else {
            t
        }
    }
}

/// Index of the entry for word `w` in a tally, or -1.
pub open spec fn find_word(t: Seq<(Seq<char>, u64)>, w: Seq<char>) -> int
    decreases t.len(),
{
    if t.len() == 0 {
        -1
    } else {
        let k = find_word(t.drop_last(), w);
        if k >= 0 {
            k
        } else if t.last().0 == w {
            t.len() - 1
        } else {
            -1
        }
    }
}

/// Counts one more occurrence of `w`: its entry goes up by one, or a new entry
/// with count 1 comes last.
pub open spec fn count_word(t: Seq<(Seq<char>, u64)>, w: Seq<char>) -> Seq<(Seq<char>, u64)> {
    let k = find_word(t, w);
    if k >= 0 {
        t.update(k, (w, (t[k].1 + 1) as u64))
    } else {
        t.push((w, 1u64))
    }
}

/// Distinct words with their number of occurrences, in order of first occurrence.
pub open spec fn tally(ws: Seq<Seq<char>>) -> Seq<(Seq<char>, u64)>
    decreases ws.len(),
{
    if ws.len() == 0 {
        Seq::empty()
    } else {
        count_word(tally(ws.drop_last()), ws.last())
    }
}

/// The words of a ranking.
pub open spec fn words_of(t: Seq<(Seq<char>, u64)>) -> Seq<Seq<char>> {
    t.map_values(|e: (Seq<char>, u64)| e.0)
}

/// Number of times `w` occurs in `ws`.
pub open spec fn occurrences(ws: Seq<Seq<char>>, w: Seq<char>) -> nat
    decreases ws.len(),
{
    if ws.len() == 0 {
        0
    } else {
        occurrences(ws.drop_last(), w) + if ws.last() == w { 1nat } else { 0nat }
    }
}

/// The words of a content that keywords are drawn from: its pieces longer
/// than three bytes, lowercased, in order.
pub open spec fn long_words(content: Seq<char>) -> Seq<Seq<char>> {
    lowered_long_words(split_pieces(content))
}

/// The keywords of a content: its words longer than three bytes, lowercased,
/// ranked by number of occurrences (ties in order of first occurrence), the
/// first `min(top_k, 7)` of them.
pub open spec fn keywords_of(content: Seq<char>, top_k: nat) -> Seq<Seq<char>> {
    words_of(at_most(sort_desc(tally(long_words(content))), min_nat(top_k, 7)))
}

/// `find_word` finds the first entry for the word.
proof fn lemma_find_word(t: Seq<(Seq<char>, u64)>, w: Seq<char>)
    ensures
        -1 <= find_word(t, w) < t.len(),
        find_word(t, w) == -1 <==> forall|j: int| 0 <= j < t.len() ==> t[j].0 != w,
        find_word(t, w) >= 0 ==> t[find_word(t, w)].0 == w,
        forall|j: int| 0 <= j < find_word(t, w) ==> t[j].0 != w,
    decreases t.len(),
{
    if t.len() > 0 {
        lemma_find_word(t.drop_last(), w);
        let k = find_word(t.drop_last(), w);
        if k < 0 {
            assert forall|j: int| 0 <= j < t.len() - 1 implies t[j].0 != w by {
                assert(t.drop_last()[j] == t[j]);
            }
        } else {
            assert(t.drop_last()[k] == t[k]);
            assert forall|j: int| 0 <= j < k implies t[j].0 != w by {
                assert(t.drop_last()[j] == t[j]);
            }
        }
    }
}

/// Tallying one more piece.
proof fn lemma_tally_push_piece(done: Seq<Seq<char>>, p: Seq<char>)
    ensures
        tally(lowered_long_words(done.push(p))) == (if encode_utf8(p).len() > 3 {
            count_word(tally(lowered_long_words(done)), unicode_lowercase(p))
        } else {
            tally(lowered_long_words(done))
        }),
{
    assert(done.push(p).drop_last() =~= done);
    let l = lowered_long_words(done);
    if encode_utf8(p).len() > 3 {
        assert(l.push(unicode_lowercase(p)).drop_last() =~= l);
    }
}

/// Adds one split piece to a tally kept in `entries`.
fn add_piece(entries: &mut Vec<(String, u64)>, piece: &Vec<char>, Ghost(bound): Ghost<nat>)
    requires
        forall|k: int| 0 <= k < old(entries)@.len() ==> old(entries)@[k].1 <= bound,
        piece@.len() > 0 ==> bound < u64::MAX,
    ensures
        scored_views(final(entries)@) == (if encode_utf8(piece@).len() > 3 {
            count_word(scored_views(old(entries)@), unicode_lowercase(piece@))
        } else {
            scored_views(old(entries)@)
        }),
        forall|k: int| 0 <= k < final(entries)@.len() ==> final(entries)@[k].1 <= bound + 1,
        piece@.len() == 0 ==> final(entries)@ == old(entries)@,
{
    if !utf8_longer_than_3(piece) {
        return;
    }
    proof {
        if piece@.len() == 0 {
            assert(encode_utf8(piece@) =~= Seq::<u8>::empty());
        }
    }
    assert(piece@.len() > 0);
    let word = string_from_chars(piece.as_slice());
    let lw = to_lowercase(word.as_str());
    let ghost t = scored_views(entries@);
    proof {
        lemma_find_word(t, lw@);
    }
    let mut k: usize = 0;
    while k < entries.len()
        invariant
            k <= entries.len(),
            t == scored_views(entries@),
            entries@ == old(entries)@,
            lw@ == unicode_lowercase(piece@),
            encode_utf8(piece@).len() > 3,
            piece@.len() > 0,
            forall|j: int| 0 <= j < k ==> t[j].0 != lw@,
            forall|j: int| 0 <= j < old(entries)@.len() ==> old(entries)@[j].1 <= bound,
            bound < u64::MAX,
        decreases entries.len() - k,
    {
        if entries[k].0 == lw {
            assert(t[k as int].0 == lw@);
            proof {
                lemma_find_word(t, lw@);
            }
            assert(find_word(t, lw@) == k);
            let (w, c) = entries.remove(k);
            entries.insert(k, (w, c + 1));
            assert(scored_views(entries@) =~= t.update(k as int, (lw@, (t[k as int].1 + 1) as u64)));
            return;
        }
        k += 1;
    }
    proof {
        lemma_find_word(t, lw@);
    }
    assert(find_word(t, lw@) == -1);
    let ghost b = entries@;
    entries.push((lw, 1));
    assert(scored_views(entries@) =~= t.push((unicode_lowercase(piece@), 1u64)));
}

/// Extracts keywords from content: the words (runs of alphanumeric characters,
/// apostrophes, hyphens and underscores) longer than three bytes, lowercased,
/// ranked by how often they occur, at most `min(top_k, 7)` of them. Words that
/// occur equally often keep the order of their first occurrence.
pub fn extract_keywords(content: &str, top_k: usize) -> (r: Vec<String>)
    ensures
        string_views(r@) == keywords_of(content@, top_k as nat),
{
    let cs = chars_of(content);
    let mut entries: Vec<(String, u64)> = Vec::new();
    let mut cur: Vec<char> = Vec::new();
    let ghost mut done: Seq<Seq<char>> = Seq::empty();
    let mut i: usize = 0;
    assert(cs@.take(0) =~= Seq::<char>::empty());
    assert(split_pieces(cs@.take(0)) =~= done.push(cur@));
    assert(scored_views(entries@) =~= tally(lowered_long_words(done)));
    while i < cs.len()
        invariant
            i <= cs.len(),
            cs@ == content@,
            split_pieces(cs@.take(i as int)) == done.push(cur@),
            scored_views(entries@) == tally(lowered_long_words(done)),
            done.len() + cur@.len() <= i,
            forall|k: int| 0 <= k < entries@.len() ==> entries@[k].1 <= done.len(),
        decreases cs.len() - i,
    {
        let c = cs[i];
        assert(cs@.take(i + 1).drop_last() =~= cs@.take(i as int));
        assert(cs@.take(i + 1).last() == c);
        let word_char = is_alphanumeric(c) || c == '\'' || c == '-' || c == '_';
        if word_char {
            cur.push(c);
            assert(split_pieces(cs@.take(i + 1)) =~= done.push(cur@));
        } else {
            add_piece(&mut entries, &cur, Ghost(done.len()));
            proof {
                lemma_tally_push_piece(done, cur@);
                assert(done.push(cur@).drop_last() =~= done);
                assert(done.push(cur@).last() == cur@);
                done = done.push(cur@);
            }
            cur = Vec::new();
            assert(split_pieces(cs@.take(i + 1)) =~= done.push(cur@));
        }
        i += 1;
    }
    add_piece(&mut entries, &cur, Ghost(done.len()));
    proof {
        lemma_tally_push_piece(done, cur@);
        assert(done.push(cur@).drop_last() =~= done);
        assert(done.push(cur@).last() == cur@);
        done = done.push(cur@);
        assert(cs@.take(cs.len() as int) =~= cs@);
    }
    let ghost tallied = scored_views(entries@);
    let ghost raw = entries@;
    let sorted = sort_by_score_desc(entries);
    proof {
        lemma_sort_desc_map(raw, view_fn());
        lemma_sort_desc_len(raw);
    }
    let limit: usize = if top_k < 7 { top_k } else { 7 };
    let n: usize = if sorted.len() < limit { sorted.len() } else { limit };
    let ghost ranked = sort_desc(tallied);
    assert(ranked == scored_views(sorted@));
    let mut r: Vec<String> = Vec::new();
    let mut j: usize = 0;
    while j < n
        invariant
            j <= n,
            n <= sorted.len(),
            ranked == scored_views(sorted@),
            string_views(r@) == words_of(ranked.take(j as int)),
        decreases n - j,
    {
        let ghost b = r@;
        r.push(sorted[j].0.clone());
        assert(words_of(ranked.take(j + 1)) =~= words_of(ranked.take(j as int)).push(ranked[j as int].0));
        assert(string_views(r@) =~= string_views(b).push(sorted@[j as int].0@));
        j += 1;
    }
    assert(at_most(ranked, min_nat(top_k as nat, 7)) =~= ranked.take(n as int));
    r
}

/// Every tag drawn from a list of keywords is one of them.
proof fn lemma_occurring_subset(kws: Seq<Seq<char>>, text: Seq<char>)
    ensures
        occurring(kws, text).len() <= kws.len(),
        forall|i: int| 0 <= i < occurring(kws, text).len() ==> kws.contains(#[trigger] occurring(kws, text)[i]),
    decreases kws.len(),
{
    if kws.len() > 0 {
        let p = kws.drop_last();
        lemma_occurring_subset(p, text);
        let o = occurring(kws, text);
        assert forall|i: int| 0 <= i < o.len() implies kws.contains(#[trigger] o[i]) by {
            let op = occurring(p, text);
            if i < op.len() {
                assert(o[i] == op[i]);
                let k = choose|k: int| 0 <= k < p.len() && p[k] == op[i];
                assert(kws[k] == p[k]);
            } else {
                assert(o[i] == kws.last());
                assert(kws[kws.len() - 1] == kws.last());
            }
        }
    }
}

/// Tags are never empty, are domain keywords or `general`, and number at most
/// `min(top_k, 5)` (one, when that is 0).
pub proof fn tags_are_known_and_few(content: Seq<char>, top_k: nat)
    ensures
        ({
            let t = tags_of(content, top_k);
            &&& 1 <= t.len()
            &&& t.len() <= (if min_nat(top_k, 5) == 0 { 1 } else { min_nat(top_k, 5) })
            &&& forall|i: int| 0 <= i < t.len() ==> domain_keywords().contains(#[trigger] t[i]) || t[i] == "general"@
        }),
{
    let o = occurring(domain_keywords(), unicode_lowercase(content));
    lemma_occurring_subset(domain_keywords(), unicode_lowercase(content));
    let found = at_most(o, min_nat(top_k, 5));
    assert forall|i: int| 0 <= i < found.len() implies domain_keywords().contains(#[trigger] found[i]) by {
        assert(found[i] == o[i]);
    }
}

/// The keywords found in a prefix of the list come first, in the same order.
proof fn lemma_occurring_prefix(kws: Seq<Seq<char>>, text: Seq<char>, m: int)
    requires
        0 <= m <= kws.len(),
    ensures
        occurring(kws.take(m), text).len() <= occurring(kws, text).len(),
        forall|i: int| 0 <= i < occurring(kws.take(m), text).len() ==>
            #[trigger] occurring(kws, text)[i] == occurring(kws.take(m), text)[i],
    decreases kws.len(),
{
    if m == kws.len() {
        assert(kws.take(m) =~= kws);
    } else {
        let p = kws.drop_last();
        assert(p.take(m) =~= kws.take(m));
        lemma_occurring_prefix(p, text, m);
        let op = occurring(p, text);
        let o = occurring(kws, text);
        assert forall|i: int| 0 <= i < occurring(kws.take(m), text).len() implies
            #[trigger] o[i] == occurring(kws.take(m), text)[i] by {
            assert(o[i] == op[i]);
        }
    }
}

/// Tags cover the domain keywords: each of `architecture`, `design`, `api`,
/// `database`, `security`, `performance`, `testing`, `deployment`,
/// `monitoring`, `documentation`, `bug`, `feature`, `refactor`,
/// `optimization` and `integration` that occurs in the lowercase content is a
/// tag, unless `min(top_k, 5)` keywords earlier in that list already occur.
pub proof fn tags_cover_domain_keywords(content: Seq<char>, top_k: nat, k: int)
    requires
        0 <= k < 15,
        ({
            let l = seq![
                "architecture"@, "design"@, "api"@, "database"@, "security"@,
                "performance"@, "testing"@, "deployment"@, "monitoring"@, "documentation"@,
                "bug"@, "feature"@, "refactor"@, "optimization"@, "integration"@,
            ];
            &&& occurs_in(l[k], unicode_lowercase(content))
            &&& occurring(l.take(k), unicode_lowercase(content)).len() < min_nat(top_k, 5)
        }),
    ensures
        ({
            let l = seq![
                "architecture"@, "design"@, "api"@, "database"@, "security"@,
                "performance"@, "testing"@, "deployment"@, "monitoring"@, "documentation"@,
                "bug"@, "feature"@, "refactor"@, "optimization"@, "integration"@,
            ];
            tags_of(content, top_k).contains(l[k])
        }),
{
    let l = domain_keywords();
    let t = unicode_lowercase(content);
    let n = min_nat(top_k, 5);
    let p = occurring(l.take(k), t);
    let q = occurring(l.take(k + 1), t);
    assert(l.take(k + 1).drop_last() =~= l.take(k));
    assert(l.take(k + 1).last() == l[k]);
    assert(q == p.push(l[k]));
    lemma_occurring_prefix(l, t, k + 1);
    let o = occurring(l, t);
    assert(o[p.len() as int] == q[p.len() as int]);
    let found = at_most(o, n);
    assert(found[p.len() as int] == l[k]);
    assert(found.len() > 0);
    assert(tags_of(content, top_k) == found);
}

/// Counting a word keeps the words of a tally distinct.
proof fn lemma_count_word_distinct(t: Seq<(Seq<char>, u64)>, w: Seq<char>)
    requires
        distinct_items(t),
    ensures
        distinct_items(count_word(t, w)),
{
    lemma_find_word(t, w);
    let r = count_word(t, w);
    let k = find_word(t, w);
    if k >= 0 {
        assert forall|i: int, j: int| 0 <= i < j < r.len() implies #[trigger] r[i].0 != #[trigger] r[j].0 by {
            assert(r[i].0 == t[i].0 && r[j].0 == t[j].0);
        }
    } else {
        assert forall|i: int, j: int| 0 <= i < j < r.len() implies #[trigger] r[i].0 != #[trigger] r[j].0 by {
            if j == t.len() {
                assert(r[i] == t[i]);
            } else {
                assert(r[i] == t[i] && r[j] == t[j]);
            }
        }
    }
}

/// The words of a tally are distinct.
proof fn lemma_tally_distinct(ws: Seq<Seq<char>>)
    ensures
        distinct_items(tally(ws)),
    decreases ws.len(),
{
    if ws.len() > 0 {
        lemma_tally_distinct(ws.drop_last());
        lemma_count_word_distinct(tally(ws.drop_last()), ws.last());
    }
}

/// Keywords are distinct and number at most `min(top_k, 7)`.
pub proof fn keywords_are_distinct_and_few(content: Seq<char>, top_k: nat)
    ensures
        ({
            let k = keywords_of(content, top_k);
            &&& k.len() <= min_nat(top_k, 7)
            &&& forall|i: int, j: int| 0 <= i < j < k.len() ==> #[trigger] k[i] != #[trigger] k[j]
        }),
{
    let t = tally(lowered_long_words(split_pieces(content)));
    lemma_tally_distinct(lowered_long_words(split_pieces(content)));
    lemma_sort_desc_items(t);
    let ranked = sort_desc(t);
    let cut = at_most(ranked, min_nat(top_k, 7));
    let k = keywords_of(content, top_k);
    assert forall|i: int, j: int| 0 <= i < j < k.len() implies #[trigger] k[i] != #[trigger] k[j] by {
        assert(k[i] == ranked[i].0 && k[j] == ranked[j].0);
    }
}

proof fn lemma_occurrences_bound(ws: Seq<Seq<char>>, w: Seq<char>)
    ensures
        occurrences(ws, w) <= ws.len(),
        occurrences(ws, w) > 0 ==> ws.contains(w),
    decreases ws.len(),
{
    if ws.len() > 0 {
        let p = ws.drop_last();
        lemma_occurrences_bound(p, w);
        if occurrences(p, w) > 0 {
            let j = choose|j: int| 0 <= j < p.len() && p[j] == w;
            assert(ws[j] == p[j]);
        }
        if ws.last() == w {
            assert(ws[ws.len() - 1] == w);
        }
    }
}

/// A content of `n` characters splits into at most `n + 1` pieces.
proof fn lemma_split_pieces_len(s: Seq<char>)
    ensures
        split_pieces(s).len() <= s.len() + 1,
        split_pieces(s).len() >= 1,
    decreases s.len(),
{
    if s.len() > 0 {
        lemma_split_pieces_len(s.drop_last());
    }
}

/// Each lowered long word is the lowercase form of a piece longer than three bytes.
proof fn lemma_lowered_from_pieces(pieces: Seq<Seq<char>>)
    ensures
        lowered_long_words(pieces).len() <= pieces.len(),
        forall|i: int| 0 <= i < lowered_long_words(pieces).len() ==> exists|j: int|
            0 <= j < pieces.len() && encode_utf8(#[trigger] pieces[j]).len() > 3
                && #[trigger] lowered_long_words(pieces)[i] == unicode_lowercase(pieces[j]),
    decreases pieces.len(),
{
    if pieces.len() > 0 {
        let p = pieces.drop_last();
        lemma_lowered_from_pieces(p);
        let l = lowered_long_words(pieces);
        let lp = lowered_long_words(p);
        assert forall|i: int| 0 <= i < l.len() implies exists|j: int|
            0 <= j < pieces.len() && encode_utf8(#[trigger] pieces[j]).len() > 3
                && #[trigger] l[i] == unicode_lowercase(pieces[j]) by {
            if i < lp.len() {
                assert(l[i] == lp[i]);
                let j = choose|j: int| 0 <= j < p.len() && encode_utf8(#[trigger] p[j]).len() > 3
                    && lp[i] == unicode_lowercase(p[j]);
                assert(pieces[j] == p[j]);
            } else {
                assert(pieces[pieces.len() - 1] == pieces.last());
            }
        }
    }
}

/// A tally counts each word by its number of occurrences, holds only words
/// that occur, and holds every word that occurs.
proof fn lemma_tally_counts(ws: Seq<Seq<char>>)
    requires
        ws.len() < u64::MAX,
    ensures
        forall|k: int| 0 <= k < tally(ws).len() ==> (#[trigger] tally(ws)[k]).1 == occurrences(ws, tally(ws)[k].0),
        forall|k: int| 0 <= k < tally(ws).len() ==> ws.contains((#[trigger] tally(ws)[k]).0),
        forall|w: Seq<char>| occurrences(ws, w) > 0 ==> has_item(tally(ws), w),
    decreases ws.len(),
{
    if ws.len() > 0 {
        let p = ws.drop_last();
        let w = ws.last();
        lemma_tally_counts(p);
        lemma_tally_distinct(p);
        let t = tally(p);
        lemma_find_word(t, w);
        let k = find_word(t, w);
        let r = tally(ws);
        assert(ws[ws.len() - 1] == w);
        assert forall|x: Seq<char>| p.contains(x) implies ws.contains(x) by {
            let j = choose|j: int| 0 <= j < p.len() && p[j] == x;
            assert(ws[j] == p[j]);
        }
        if k >= 0 {
            lemma_occurrences_bound(p, w);
            assert(t[k].1 + 1 < u64::MAX);
            assert forall|m: int| 0 <= m < r.len() implies (#[trigger] r[m]).1 == occurrences(ws, r[m].0)
                && ws.contains(r[m].0) by {
                if m != k {
                    assert(r[m] == t[m]);
                    assert(t[m].0 != t[k].0);
                    assert(p.contains(t[m].0));
                }
            }
            assert forall|x: Seq<char>| occurrences(ws, x) > 0 implies has_item(r, x) by {
                if x == w {
                    assert(r[k].0 == x);
                } else {
                    assert(has_item(t, x));
                    let m = choose|m: int| 0 <= m < t.len() && #[trigger] t[m].0 == x;
                    assert(r[m].0 == x);
                }
            }
        } else {
            assert(!has_item(t, w));
            assert forall|m: int| 0 <= m < r.len() implies (#[trigger] r[m]).1 == occurrences(ws, r[m].0)
                && ws.contains(r[m].0) by {
                if m < t.len() {
                    assert(r[m] == t[m]);
                    assert(p.contains(t[m].0));
                }
            }
            assert forall|x: Seq<char>| occurrences(ws, x) > 0 implies has_item(r, x) by {
                if x == w {
                    assert(r[r.len() - 1].0 == x);
                } else {
                    assert(has_item(t, x));
                    let m = choose|m: int| 0 <= m < t.len() && #[trigger] t[m].0 == x;
                    assert(r[m].0 == x);
                }
            }
        }
    }
}

/// Keywords are the most frequent words of the content: each is the lowercase
/// form of a word of the content longer than three bytes; a keyword occurs at
/// least as often as every keyword after it; and a long word left out occurs
/// no more often than any keyword, which happens only when all
/// `min(top_k, 7)` places are taken.
pub proof fn keywords_are_most_frequent_words(content: Seq<char>, top_k: nat)
    requires
        content.len() <= isize::MAX,
    ensures
        ({
            let k = keywords_of(content, top_k);
            let pieces = split_pieces(content);
            let ws = long_words(content);
            &&& forall|i: int| 0 <= i < k.len() ==> exists|j: int|
                0 <= j < pieces.len() && encode_utf8(#[trigger] pieces[j]).len() > 3
                    && #[trigger] k[i] == unicode_lowercase(pieces[j])
            &&& forall|i: int, j: int| #![trigger k[i], k[j]]
                0 <= i < j < k.len() ==> occurrences(ws, k[i]) >= occurrences(ws, k[j])
            &&& forall|w: Seq<char>| #![trigger ws.contains(w)]
                ws.contains(w) && !k.contains(w) ==> {
                    &&& k.len() == min_nat(top_k, 7)
                    &&& forall|i: int| 0 <= i < k.len() ==> occurrences(ws, #[trigger] k[i]) >= occurrences(ws, w)
                }
        }),
{
    let pieces = split_pieces(content);
    let ws = long_words(content);
    lemma_split_pieces_len(content);
    lemma_lowered_from_pieces(pieces);
    lemma_tally_counts(ws);
    let t = tally(ws);
    lemma_tally_distinct(ws);
    lemma_sort_desc_items(t);
    lemma_sort_desc_contains(t);
    lemma_sort_desc_sorted(t);
    lemma_sort_desc_len(t);
    let ranked = sort_desc(t);
    let n = min_nat(top_k, 7);
    let cut = at_most(ranked, n);
    let k = keywords_of(content, top_k);
    assert(k.len() == cut.len());
    assert forall|i: int| 0 <= i < k.len() implies k[i] == ranked[i].0 && t.contains(ranked[i])
        && ranked[i].1 == occurrences(ws, k[i]) && ws.contains(k[i]) by {
        assert(k[i] == cut[i].0);
        assert(cut[i] == ranked[i]);
        let m = choose|m: int| 0 <= m < t.len() && t[m] == ranked[i];
        assert(t[m].1 == occurrences(ws, t[m].0));
        assert(ws.contains(t[m].0));
    }
    assert forall|i: int| 0 <= i < k.len() implies exists|j: int|
        0 <= j < pieces.len() && encode_utf8(#[trigger] pieces[j]).len() > 3
            && #[trigger] k[i] == unicode_lowercase(pieces[j]) by {
        let m = choose|m: int| 0 <= m < ws.len() && ws[m] == k[i];
        assert(ws[m] == lowered_long_words(pieces)[m]);
    }
    assert forall|i: int, j: int| #![trigger k[i], k[j]]
        0 <= i < j < k.len() implies occurrences(ws, k[i]) >= occurrences(ws, k[j]) by {
        assert(ranked[i].1 >= ranked[j].1);
    }
    assert forall|w: Seq<char>| #![trigger ws.contains(w)]
        ws.contains(w) && !k.contains(w) implies k.len() == n
            && forall|i: int| 0 <= i < k.len() ==> occurrences(ws, #[trigger] k[i]) >= occurrences(ws, w) by {
        let q = choose|q: int| 0 <= q < ws.len() && ws[q] == w;
        assert(occurrences(ws, w) > 0) by {
            lemma_occurrence_at(ws, q);
        }
        assert(has_item(t, w));
        assert(has_item(ranked, w));
        let m = choose|m: int| 0 <= m < ranked.len() && #[trigger] ranked[m].0 == w;
        assert(t.contains(ranked[m])) by {
            lemma_sort_desc_contains(t);
        }
        let mt = choose|mt: int| 0 <= mt < t.len() && t[mt] == ranked[m];
        assert(ranked[m].1 == occurrences(ws, w));
        if m < k.len() {
            assert(k[m] == w);
            assert(false);
        }
        assert(ranked.len() > n);
        assert(cut.len() == n);
        assert forall|i: int| 0 <= i < k.len() implies occurrences(ws, #[trigger] k[i]) >= occurrences(ws, w) by {
            assert(ranked[i].1 >= ranked[m].1);
        }
    }
}

/// A tally holds exactly the words that occur.
proof fn lemma_tally_items(ws: Seq<Seq<char>>)
    ensures
        forall|w: Seq<char>| has_item(tally(ws), w) <==> ws.contains(w),
    decreases ws.len(),
{
    if ws.len() > 0 {
        let p = ws.drop_last();
        let x = ws.last();
        lemma_tally_items(p);
        let t = tally(p);
        let r = tally(ws);
        lemma_find_word(t, x);
        let k = find_word(t, x);
        assert(ws[ws.len() - 1] == x);
        assert forall|w: Seq<char>| has_item(r, w) <==> ws.contains(w) by {
            if p.contains(w) {
                let j = choose|j: int| 0 <= j < p.len() && p[j] == w;
                assert(ws[j] == p[j]);
            }
            if ws.contains(w) && w != x {
                let j = choose|j: int| 0 <= j < ws.len() && ws[j] == w;
                assert(p[j] == ws[j]);
            }
            if has_item(t, w) {
                let m = choose|m: int| 0 <= m < t.len() && #[trigger] t[m].0 == w;
                assert(r[m].0 == w);
            }
            if has_item(r, w) {
                let m = choose|m: int| 0 <= m < r.len() && #[trigger] r[m].0 == w;
                if m < t.len() {
                    assert(t[m].0 == w || (k >= 0 && m == k));
                }
            }
            if w == x {
                if k >= 0 {
                    assert(r[k].0 == x);
                } else {
                    assert(r[r.len() - 1].0 == x);
                }
            }
        }
    }
}

/// The number of keywords is `min(top_k, 7)`, or the number of distinct long
/// words of the content when there are fewer.
pub proof fn keywords_count(content: Seq<char>, top_k: nat)
    ensures
        keywords_of(content, top_k).len() == min_nat(min_nat(top_k, 7), long_words(content).to_set().len()),
{
    let ws = long_words(content);
    let t = tally(ws);
    lemma_tally_distinct(ws);
    lemma_tally_items(ws);
    lemma_sort_desc_len(t);
    let wt = words_of(t);
    assert forall|i: int, j: int| 0 <= i < j < wt.len() implies wt[i] != wt[j] by {
        assert(wt[i] == t[i].0 && wt[j] == t[j].0);
    }
    assert(wt.no_duplicates());
    assert forall|w: Seq<char>| wt.to_set().contains(w) <==> ws.to_set().contains(w) by {
        if wt.contains(w) {
            let m = choose|m: int| 0 <= m < wt.len() && wt[m] == w;
            assert(t[m].0 == w);
            assert(has_item(t, w));
        }
        if has_item(t, w) {
            let m = choose|m: int| 0 <= m < t.len() && #[trigger] t[m].0 == w;
            assert(wt[m] == w);
        }
    }
    assert(wt.to_set() =~= ws.to_set());
    wt.unique_seq_to_set();
}

/// A word at some position occurs at least once.
proof fn lemma_occurrence_at(ws: Seq<Seq<char>>, q: int)
    requires
        0 <= q < ws.len(),
    ensures
        occurrences(ws, ws[q]) > 0,
    decreases ws.len(),
{
    if q < ws.len() - 1 {
        let p = ws.drop_last();
        assert(p[q] == ws[q]);
        lemma_occurrence_at(p, q);
    }
}

/// The context description a frame gets: its title, or when it has none, the
/// first 100 characters of its content followed by `...`.
pub open spec fn context_for(title: Seq<char>, content: Seq<char>) -> Seq<char> {
    if title.len() == 0 {
        at_most(content, 100) + "..."@
    } else {
        title
    }
}

/// The first 100 characters of a text, followed by `...`.
fn summary_of(content: &str) -> (s: String)
    ensures
        s@ == at_most(content@, 100) + "..."@,
{
    let cs = chars_of(content);
    let n: usize = if cs.len() < 100 { cs.len() } else { 100 };
    let mut out: Vec<char> = Vec::new();
    let mut i: usize = 0;
    while i < n
        invariant
            i <= n,
            n <= cs.len(),
            cs@ == content@,
            out@ == cs@.take(i as int),
        decreases n - i,
    {
        out.push(cs[i]);
        assert(cs@.take(i + 1) =~= cs@.take(i as int).push(cs@[i as int]));
        i += 1;
    }
    out.push('.');
    out.push('.');
    out.push('.');
    proof {
        reveal_strlit("...");
        assert(at_most(content@, 100) =~= cs@.take(n as int));
        assert(out@ =~= at_most(content@, 100) + "..."@);
    }
    string_from_chars(out.as_slice())
}

/// `after` is `before` enriched: keywords and tags drawn from the content, the
/// context description, and the baseline confidence of the type; nothing else
/// changes.
pub open spec fn enriched(before: MemoryFrame, after: MemoryFrame) -> bool {
    &&& string_views(after.keywords@) == keywords_of(before.content@, 7)
    &&& string_views(after.tags@) == tags_of(before.content@, 5)
    &&& after.context_desc@ == context_for(before.title@, before.content@)
    &&& after.confidence == before.memory_type.baseline()
    &&& after == (MemoryFrame {
        keywords: after.keywords,
        tags: after.tags,
        context_desc: after.context_desc,
        confidence: after.confidence,
        ..before
    })
}

/// Enriching an enriched frame again gives the same metadata: keywords, tags,
/// context description and confidence (by their texts), and nothing else changes.
pub proof fn enrichment_is_idempotent(a: MemoryFrame, b: MemoryFrame, c: MemoryFrame)
    requires
        enriched(a, b),
        enriched(b, c),
    ensures
        string_views(c.keywords@) == string_views(b.keywords@),
        string_views(c.tags@) == string_views(b.tags@),
        c.context_desc@ == b.context_desc@,
        c.confidence == b.confidence,
        c == (MemoryFrame {
            keywords: c.keywords,
            tags: c.tags,
            context_desc: c.context_desc,
            ..b
        }),
{
}

/// Enriches a memory frame with adaptive-memory metadata: keywords (at most
/// 7), tags (at most 5), a context description, and the baseline confidence
/// of its type. Nothing else in the frame changes.
pub fn enrich_memory(frame: &mut MemoryFrame)
    ensures
        enriched(*old(frame), *final(frame)),
{
    let keywords = extract_keywords(frame.content.as_str(), 7);
    let tags = extract_tags(frame.content.as_str(), 5);
    let desc = if frame.title.as_str().is_empty() {
        summary_of(frame.content.as_str())
    } else {
        frame.title.clone()
    };
    frame.keywords = keywords;
    frame.tags = tags;
    frame.context_desc = desc;
    frame.confidence = frame.memory_type.baseline_confidence();
}

} // verus!
