//! Stable ranking of scored items, highest score first.

use vstd::prelude::*;

verus! {

/// Inserts `x` into `s` after every item whose score is at least `x`'s.
pub open spec fn insert_desc<A>(s: Seq<(A, u64)>, x: (A, u64)) -> Seq<(A, u64)>
    decreases s.len(),
{
    if s.len() == 0 {
        seq![x]
    } else if s[0].1 < x.1 {
        seq![x] + s
    } else {
        seq![s[0]] + insert_desc(s.drop_first(), x)
    }
}

/// Stable sort by score, highest first: items of equal score keep their order.
pub open spec fn sort_desc<A>(s: Seq<(A, u64)>) -> Seq<(A, u64)>
    decreases s.len(),
{
    if s.len() == 0 {
        s
    } else {
        insert_desc(sort_desc(s.drop_last()), s.last())
    }
}

/// Applies `f` to the item of each scored pair, keeping the score.
pub open spec fn map_items<A, B>(s: Seq<(A, u64)>, f: spec_fn(A) -> B) -> Seq<(B, u64)> {
    s.map_values(|p: (A, u64)| (f(p.0), p.1))
}

/// Inserting at the first position whose score is below `x`'s is `insert_desc`.
pub proof fn lemma_insert_desc_at<A>(s: Seq<(A, u64)>, x: (A, u64), j: int)
    requires
        0 <= j <= s.len(),
        forall|k: int| 0 <= k < j ==> s[k].1 >= x.1,
        j < s.len() ==> s[j].1 < x.1,
    ensures
        insert_desc(s, x) == s.take(j).push(x) + s.skip(j),
    decreases j,
{
    if j == 0 {
        if s.len() == 0 {
            assert(s.take(0).push(x) + s.skip(0) =~= seq![x]);
        } else {
            assert(s.take(0).push(x) + s.skip(0) =~= seq![x] + s);
        }
    } else {
        let t = s.drop_first();
        assert forall|k: int| 0 <= k < j - 1 implies t[k].1 >= x.1 by {
            assert(t[k] == s[k + 1]);
        }
        lemma_insert_desc_at(t, x, j - 1);
        assert(s.take(j).push(x) + s.skip(j) =~= seq![s[0]] + (t.take(j - 1).push(x) + t.skip(j - 1)));
    }
}

/// Views of the strings of scored pairs.
pub open spec fn view_fn() -> spec_fn(String) -> Seq<char> {
    |s: String| s@
}

/// The scored pairs with their identifiers taken by view.
pub open spec fn scored_views(s: Seq<(String, u64)>) -> Seq<(Seq<char>, u64)> {
    map_items(s, view_fn())
}

/// `insert_desc` keeps length and the multiset of items.
pub proof fn lemma_insert_desc_len<A>(s: Seq<(A, u64)>, x: (A, u64))
    ensures
        insert_desc(s, x).len() == s.len() + 1,
    decreases s.len(),
{
    if s.len() > 0 && !(s[0].1 < x.1) {
        lemma_insert_desc_len(s.drop_first(), x);
    }
}

/// Sorting keeps the length.
pub proof fn lemma_sort_desc_len<A>(s: Seq<(A, u64)>)
    ensures
        sort_desc(s).len() == s.len(),
    decreases s.len(),
{
    if s.len() > 0 {
        lemma_sort_desc_len(s.drop_last());
        lemma_insert_desc_len(sort_desc(s.drop_last()), s.last());
    }
}

/// Relabelling items commutes with insertion.
pub proof fn lemma_insert_desc_map<A, B>(s: Seq<(A, u64)>, x: (A, u64), f: spec_fn(A) -> B)
    ensures
        insert_desc(map_items(s, f), (f(x.0), x.1)) == map_items(insert_desc(s, x), f),
    decreases s.len(),
{
    if s.len() == 0 {
        assert(map_items(seq![x], f) =~= seq![(f(x.0), x.1)]);
    } else if s[0].1 < x.1 {
        assert(map_items(seq![x] + s, f) =~= seq![(f(x.0), x.1)] + map_items(s, f));
    } else {
        lemma_insert_desc_map(s.drop_first(), x, f);
        assert(map_items(s, f).drop_first() =~= map_items(s.drop_first(), f));
        assert(map_items(seq![s[0]] + insert_desc(s.drop_first(), x), f)
            =~= seq![(f(s[0].0), s[0].1)] + map_items(insert_desc(s.drop_first(), x), f));
    }
}

/// Relabelling items commutes with sorting.
pub proof fn lemma_sort_desc_map<A, B>(s: Seq<(A, u64)>, f: spec_fn(A) -> B)
    ensures
        sort_desc(map_items(s, f)) == map_items(sort_desc(s), f),
    decreases s.len(),
{
    if s.len() > 0 {
        lemma_sort_desc_map(s.drop_last(), f);
        assert(map_items(s, f).drop_last() =~= map_items(s.drop_last(), f));
        lemma_insert_desc_map(sort_desc(s.drop_last()), s.last(), f);
    }
}

/// Stable sort of scored items, highest score first.
pub(crate) fn sort_by_score_desc<A>(v: Vec<(A, u64)>) -> (r: Vec<(A, u64)>)
    ensures
        r@ == sort_desc(v@),
{
    let ghost orig = v@;
    let mut rest = v;
    let mut out: Vec<(A, u64)> = Vec::new();
    let n = rest.len();
    let mut i: usize = 0;
    assert(orig.take(0) =~= Seq::<(A, u64)>::empty());
    assert(rest@ =~= orig.skip(0));
    while i < n
        invariant
            n == orig.len(),
            i <= n,
            rest@ == orig.skip(i as int),
            out@ == sort_desc(orig.take(i as int)),
        decreases n - i,
    {
        let x = rest.remove(0);
        assert(x == orig[i as int]);
        let mut j: usize = 0;
        while j < out.len() && out[j].1 >= x.1
            invariant
                j <= out.len(),
                forall|k: int| 0 <= k < j ==> out@[k].1 >= x.1,
            decreases out.len() - j,
        {
            j += 1;
        }
        proof {
            lemma_insert_desc_at(out@, x, j as int);
        }
        let ghost before = out@;
        out.insert(j, x);
        assert(out@ =~= before.take(j as int).push(x) + before.skip(j as int));
        assert(orig.take(i + 1).drop_last() =~= orig.take(i as int));
        assert(orig.take(i + 1).last() == x);
        assert(rest@ =~= orig.skip(i + 1));
        i += 1;
    }
    assert(orig.take(n as int) =~= orig);
    out
}

} // verus!

verus! {

/// The items of scored pairs are pairwise distinct.
pub open spec fn distinct_items<A>(s: Seq<(A, u64)>) -> bool {
    forall|i: int, j: int| 0 <= i < j < s.len() ==> #[trigger] s[i].0 != #[trigger] s[j].0
}

/// `a` is the item of some pair of `s`.
pub open spec fn has_item<A>(s: Seq<(A, u64)>, a: A) -> bool {
    exists|i: int| 0 <= i < s.len() && #[trigger] s[i].0 == a
}

/// Insertion adds exactly the inserted item and keeps items distinct.
pub proof fn lemma_insert_desc_items<A>(s: Seq<(A, u64)>, x: (A, u64))
    requires
        distinct_items(s),
        !has_item(s, x.0),
    ensures
        distinct_items(insert_desc(s, x)),
        forall|a: A| has_item(insert_desc(s, x), a) <==> (has_item(s, a) || a == x.0),
    decreases s.len(),
{
    let r = insert_desc(s, x);
    if s.len() == 0 {
        assert(r =~= seq![x]);
        assert forall|a: A| has_item(r, a) <==> (has_item(s, a) || a == x.0) by {
            if a == x.0 {
                assert(r[0].0 == a);
            }
        }
    } else if s[0].1 < x.1 {
        assert forall|a: A| has_item(r, a) <==> (has_item(s, a) || a == x.0) by {
            if has_item(r, a) {
                let i = choose|i: int| 0 <= i < r.len() && r[i].0 == a;
                if i > 0 {
                    assert(s[i - 1].0 == a);
                }
            }
            if has_item(s, a) {
                let i = choose|i: int| 0 <= i < s.len() && s[i].0 == a;
                assert(r[i + 1].0 == a);
            }
            if a == x.0 {
                assert(r[0].0 == a);
            }
        }
        assert forall|i: int, j: int| 0 <= i < j < r.len() implies #[trigger] r[i].0 != #[trigger] r[j].0 by {
            if i == 0 {
                assert(r[j].0 == s[j - 1].0);
                if r[i].0 == r[j].0 {
                    assert(has_item(s, x.0));
                }
            } else {
                assert(r[i] == s[i - 1] && r[j] == s[j - 1]);
            }
        }
    } else {
        let t = s.drop_first();
        assert forall|i: int, j: int| 0 <= i < j < t.len() implies #[trigger] t[i].0 != #[trigger] t[j].0 by {
            assert(t[i] == s[i + 1] && t[j] == s[j + 1]);
        }
        if has_item(t, x.0) {
            let i = choose|i: int| 0 <= i < t.len() && t[i].0 == x.0;
            assert(s[i + 1].0 == x.0);
        }
        lemma_insert_desc_items(t, x);
        let rt = insert_desc(t, x);
        assert(r == seq![s[0]] + rt);
        assert forall|a: A| has_item(r, a) <==> (has_item(s, a) || a == x.0) by {
            if has_item(r, a) {
                let i = choose|i: int| 0 <= i < r.len() && r[i].0 == a;
                if i == 0 {
                    assert(s[0].0 == a);
                } else {
                    assert(rt[i - 1].0 == a);
                    assert(has_item(rt, a));
                    if has_item(t, a) {
                        let k = choose|k: int| 0 <= k < t.len() && t[k].0 == a;
                        assert(s[k + 1].0 == a);
                    }
                }
            }
            if has_item(s, a) {
                let i = choose|i: int| 0 <= i < s.len() && s[i].0 == a;
                if i == 0 {
                    assert(r[0].0 == a);
                } else {
                    assert(t[i - 1].0 == a);
                    assert(has_item(t, a));
                    assert(has_item(rt, a));
                    let k = choose|k: int| 0 <= k < rt.len() && rt[k].0 == a;
                    assert(r[k + 1].0 == a);
                }
            }
            if a == x.0 {
                assert(has_item(rt, a));
                let k = choose|k: int| 0 <= k < rt.len() && rt[k].0 == a;
                assert(r[k + 1].0 == a);
            }
        }
        assert forall|i: int, j: int| 0 <= i < j < r.len() implies #[trigger] r[i].0 != #[trigger] r[j].0 by {
            if i == 0 {
                assert(r[j] == rt[j - 1]);
                if r[i].0 == r[j].0 {
                    assert(has_item(rt, s[0].0));
                    assert(has_item(t, s[0].0) || s[0].0 == x.0);
                    if has_item(t, s[0].0) {
                        let k = choose|k: int| 0 <= k < t.len() && t[k].0 == s[0].0;
                        assert(s[k + 1].0 == s[0].0);
                    } else {
                        assert(has_item(s, x.0));
                    }
                }
            } else {
                assert(r[i] == rt[i - 1] && r[j] == rt[j - 1]);
            }
        }
    }
}

/// Sorting keeps the items, and keeps them distinct.
pub proof fn lemma_sort_desc_items<A>(s: Seq<(A, u64)>)
    requires
        distinct_items(s),
    ensures
        distinct_items(sort_desc(s)),
        forall|a: A| has_item(sort_desc(s), a) <==> has_item(s, a),
    decreases s.len(),
{
    if s.len() > 0 {
        let p = s.drop_last();
        assert forall|i: int, j: int| 0 <= i < j < p.len() implies #[trigger] p[i].0 != #[trigger] p[j].0 by {
            assert(p[i] == s[i] && p[j] == s[j]);
        }
        lemma_sort_desc_items(p);
        if has_item(sort_desc(p), s.last().0) {
            assert(has_item(p, s.last().0));
            let k = choose|k: int| 0 <= k < p.len() && p[k].0 == s.last().0;
            assert(s[k].0 == s[s.len() - 1].0);
        }
        lemma_insert_desc_items(sort_desc(p), s.last());
        assert forall|a: A| has_item(sort_desc(s), a) <==> has_item(s, a) by {
            if has_item(p, a) {
                let k = choose|k: int| 0 <= k < p.len() && p[k].0 == a;
                assert(s[k].0 == a);
            }
            if has_item(s, a) {
                let k = choose|k: int| 0 <= k < s.len() && s[k].0 == a;
                if k < s.len() - 1 {
                    assert(p[k].0 == a);
                }
            }
        }
    }
}

} // verus!

verus! {

/// Every item of an insertion result is the inserted one or was there before.
pub proof fn lemma_insert_desc_contains<A>(s: Seq<(A, u64)>, x: (A, u64))
    ensures
        forall|i: int| 0 <= i < insert_desc(s, x).len() ==>
            (s.contains(#[trigger] insert_desc(s, x)[i]) || insert_desc(s, x)[i] == x),
    decreases s.len(),
{
    lemma_insert_desc_len(s, x);
    let r = insert_desc(s, x);
    if s.len() == 0 {
    } else if s[0].1 < x.1 {
        assert forall|i: int| 0 <= i < r.len() implies (s.contains(#[trigger] r[i]) || r[i] == x) by {
            if i > 0 {
                assert(r[i] == s[i - 1]);
            }
        }
    } else {
        let t = s.drop_first();
        lemma_insert_desc_contains(t, x);
        let rt = insert_desc(t, x);
        assert forall|i: int| 0 <= i < r.len() implies (s.contains(#[trigger] r[i]) || r[i] == x) by {
            if i == 0 {
                assert(r[0] == s[0]);
            } else {
                assert(r[i] == rt[i - 1]);
                if t.contains(rt[i - 1]) {
                    let k = choose|k: int| 0 <= k < t.len() && t[k] == rt[i - 1];
                    assert(s[k + 1] == t[k]);
                }
            }
        }
    }
}

/// Every item of a sorted sequence was in the sequence.
pub proof fn lemma_sort_desc_contains<A>(s: Seq<(A, u64)>)
    ensures
        forall|i: int| 0 <= i < sort_desc(s).len() ==> s.contains(#[trigger] sort_desc(s)[i]),
    decreases s.len(),
{
    if s.len() > 0 {
        let p = s.drop_last();
        lemma_sort_desc_contains(p);
        lemma_insert_desc_contains(sort_desc(p), s.last());
        let r = sort_desc(s);
        assert forall|i: int| 0 <= i < r.len() implies s.contains(#[trigger] r[i]) by {
            if r[i] == s.last() {
                assert(s[s.len() - 1] == s.last());
            } else {
                assert(sort_desc(p).contains(r[i]));
                let k = choose|k: int| 0 <= k < sort_desc(p).len() && sort_desc(p)[k] == r[i];
                assert(p.contains(sort_desc(p)[k]));
                let m = choose|m: int| 0 <= m < p.len() && p[m] == r[i];
                assert(s[m] == p[m]);
            }
        }
    }
}

} // verus!

verus! {

/// Scores never increase along the sequence.
pub open spec fn sorted_desc<A>(s: Seq<(A, u64)>) -> bool {
    forall|i: int, j: int| 0 <= i < j < s.len() ==> #[trigger] s[i].1 >= #[trigger] s[j].1
}

/// Insertion keeps scores non-increasing.
pub proof fn lemma_insert_desc_sorted<A>(s: Seq<(A, u64)>, x: (A, u64))
    requires
        sorted_desc(s),
    ensures
        sorted_desc(insert_desc(s, x)),
    decreases s.len(),
{
    lemma_insert_desc_len(s, x);
    let r = insert_desc(s, x);
    if s.len() == 0 {
    } else if s[0].1 < x.1 {
        assert forall|i: int, j: int| 0 <= i < j < r.len() implies #[trigger] r[i].1 >= #[trigger] r[j].1 by {
            assert(r[j] == s[j - 1]);
            if i == 0 {
                if j > 1 {
                    assert(s[0].1 >= s[j - 1].1);
                }
            } else {
                assert(r[i] == s[i - 1]);
            }
        }
    } else {
        let t = s.drop_first();
        assert forall|i: int, j: int| 0 <= i < j < t.len() implies #[trigger] t[i].1 >= #[trigger] t[j].1 by {
            assert(t[i] == s[i + 1] && t[j] == s[j + 1]);
        }
        lemma_insert_desc_sorted(t, x);
        lemma_insert_desc_contains(t, x);
        let rt = insert_desc(t, x);
        assert forall|i: int, j: int| 0 <= i < j < r.len() implies #[trigger] r[i].1 >= #[trigger] r[j].1 by {
            assert(r[j] == rt[j - 1]);
            if i == 0 {
                assert(r[0] == s[0]);
                if t.contains(rt[j - 1]) {
                    let k = choose|k: int| 0 <= k < t.len() && t[k] == rt[j - 1];
                    assert(t[k] == s[k + 1]);
                    assert(s[0].1 >= s[k + 1].1);
                }
            } else {
                assert(r[i] == rt[i - 1]);
            }
        }
    }
}

/// Sorting leaves scores non-increasing.
pub proof fn lemma_sort_desc_sorted<A>(s: Seq<(A, u64)>)
    ensures
        sorted_desc(sort_desc(s)),
    decreases s.len(),
{
    if s.len() > 0 {
        lemma_sort_desc_sorted(s.drop_last());
        lemma_insert_desc_sorted(sort_desc(s.drop_last()), s.last());
    }
}

} // verus!

verus! {

/// Insertion keeps every element and adds the inserted one.
pub proof fn lemma_insert_desc_keeps<A>(s: Seq<(A, u64)>, x: (A, u64))
    ensures
        insert_desc(s, x).contains(x),
        forall|y: (A, u64)| s.contains(y) ==> #[trigger] insert_desc(s, x).contains(y),
    decreases s.len(),
{
    lemma_insert_desc_len(s, x);
    let r = insert_desc(s, x);
    if s.len() == 0 {
        assert(r[0] == x);
    } else if s[0].1 < x.1 {
        assert(r[0] == x);
        assert forall|y: (A, u64)| s.contains(y) implies #[trigger] r.contains(y) by {
            let k = choose|k: int| 0 <= k < s.len() && s[k] == y;
            assert(r[k + 1] == s[k]);
        }
    } else {
        let t = s.drop_first();
        lemma_insert_desc_keeps(t, x);
        let rt = insert_desc(t, x);
        assert(r == seq![s[0]] + rt);
        let k0 = choose|k: int| 0 <= k < rt.len() && rt[k] == x;
        assert(r[k0 + 1] == rt[k0]);
        assert forall|y: (A, u64)| s.contains(y) implies #[trigger] r.contains(y) by {
            let k = choose|k: int| 0 <= k < s.len() && s[k] == y;
            if k == 0 {
                assert(r[0] == s[0]);
            } else {
                assert(0 <= k - 1 < t.len());
                assert(t[k - 1] == s[k]);
                assert(t.contains(y));
                assert(insert_desc(t, x).contains(y));
                let m = choose|m: int| 0 <= m < rt.len() && rt[m] == y;
                assert(r[m + 1] == rt[m]);
            }
        }
    }
}

/// Sorting keeps every element.
pub proof fn lemma_sort_desc_keeps<A>(s: Seq<(A, u64)>)
    ensures
        forall|y: (A, u64)| s.contains(y) ==> #[trigger] sort_desc(s).contains(y),
    decreases s.len(),
{
    if s.len() > 0 {
        let p = s.drop_last();
        lemma_sort_desc_keeps(p);
        lemma_insert_desc_keeps(sort_desc(p), s.last());
        assert forall|y: (A, u64)| s.contains(y) implies #[trigger] sort_desc(s).contains(y) by {
            let k = choose|k: int| 0 <= k < s.len() && s[k] == y;
            if k < s.len() - 1 {
                assert(p[k] == s[k]);
                assert(p.contains(y));
            }
        }
    }
}

} // verus!
