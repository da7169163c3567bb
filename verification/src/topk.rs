//! Bounded top-k selection over scored entries.
//!
//! Entries are ranked by their score under a chosen direction, ties going to
//! the entry that was stored first. The best `k` are kept in a binary heap of
//! at most `k` entries whose root is the worst entry kept so far, so that a
//! scan of `n` scores costs `O(n log k)` comparisons.

use crate::score::{
    is_nan, lemma_key_range, lemma_rank_key_is_numeric_order, rank_key, ranking_key, scaled_value,
};
use vstd::multiset::Multiset;
use vstd::prelude::*;

verus! {

/// A score together with the position of the embedding it belongs to.
#[derive(Clone, Copy, Debug)]
pub struct ScoreIndex {
    /// The bits of the score.
    pub score: u32,
    /// The position of the scored embedding in its collection.
    pub index: usize,
}

impl ScoreIndex {
    /// The key of this entry's score: smaller is better.
    pub open spec fn rank(self, lower_is_better: bool) -> int {
        rank_key(self.score, lower_is_better)
    }

    /// Whether this entry ranks strictly before `other`: by a better score,
    /// or by an equally good score and a smaller index.
    pub open spec fn before(self, other: ScoreIndex, lower_is_better: bool) -> bool {
        self.rank(lower_is_better) < other.rank(lower_is_better) || (self.rank(lower_is_better)
            == other.rank(lower_is_better) && self.index < other.index)
    }

    /// Decides `before`.
    pub fn precedes(&self, other: &ScoreIndex, lower_is_better: bool) -> (r: bool)
        ensures
            r == self.before(*other, lower_is_better),
    {
        let mine: i64 = ranking_key(self.score, lower_is_better);
        let theirs: i64 = ranking_key(other.score, lower_is_better);
        mine < theirs || (mine == theirs && self.index < other.index)
    }
}

/// The entry that stands for position `p` of `scores`.
pub open spec fn entry_at(scores: Seq<u32>, p: int) -> ScoreIndex {
    ScoreIndex { score: scores[p], index: p as usize }
}

/// Whether `e` is the entry of one of the first `upto` positions of `scores`.
pub open spec fn is_entry_of(e: ScoreIndex, scores: Seq<u32>, upto: int) -> bool {
    0 <= e.index < upto && e.score == scores[e.index as int]
}

/// Whether every node of the heap ranks no earlier than its children: the
/// root is then an entry that none of the others comes after.
spec fn heap_ordered(h: Seq<ScoreIndex>, lower_is_better: bool) -> bool {
    forall|c: int| 0 < c < h.len() ==> !(#[trigger] h[(c - 1) / 2]).before(h[c], lower_is_better)
}

/// The heap order everywhere but between node `hole` and its parent.
spec fn heap_ordered_but_above(h: Seq<ScoreIndex>, hole: int, lower_is_better: bool) -> bool {
    &&& forall|c: int|
        0 < c < h.len() && c != hole ==> !(#[trigger] h[(c - 1) / 2]).before(
            h[c],
            lower_is_better,
        )
    &&& forall|c: int|
        0 < hole && 0 < c < h.len() && (c - 1) / 2 == hole ==> !h[(hole - 1) / 2].before(
            #[trigger] h[c],
            lower_is_better,
        )
}

/// The heap order everywhere but between node `hole` and its children.
spec fn heap_ordered_but_below(h: Seq<ScoreIndex>, hole: int, lower_is_better: bool) -> bool {
    &&& forall|c: int|
        0 < c < h.len() && (c - 1) / 2 != hole ==> !(#[trigger] h[(c - 1) / 2]).before(
            h[c],
            lower_is_better,
        )
    &&& forall|c: int|
        0 < hole && 0 < c < h.len() && (c - 1) / 2 == hole ==> !h[(hole - 1) / 2].before(
            #[trigger] h[c],
            lower_is_better,
        )
}

/// Writing `a` at position `i` trades one occurrence of the old element for
/// one of `a`.
proof fn lemma_update_multiset(s: Seq<ScoreIndex>, i: int, a: ScoreIndex)
    requires
        0 <= i < s.len(),
    ensures
        s.update(i, a).to_multiset() == s.to_multiset().remove(s[i]).insert(a),
        s.to_multiset().count(s[i]) > 0,
{
    broadcast use vstd::seq_lib::group_to_multiset_ensures;
}

/// Exchanging two positions keeps the elements.
proof fn lemma_swap_multiset(s: Seq<ScoreIndex>, i: int, j: int)
    requires
        0 <= i < s.len(),
        0 <= j < s.len(),
    ensures
        s.update(i, s[j]).update(j, s[i]).to_multiset() == s.to_multiset(),
{
    broadcast use vstd::multiset::group_multiset_axioms;

    let s1 = s.update(i, s[j]);
    lemma_update_multiset(s, i, s[j]);
    lemma_update_multiset(s1, j, s[i]);
    lemma_update_multiset(s, j, s[i]);
}

/// In an ordered heap no entry comes after the root.
proof fn lemma_root_is_last(h: Seq<ScoreIndex>, lower_is_better: bool, j: int)
    requires
        heap_ordered(h, lower_is_better),
        0 <= j < h.len(),
    ensures
        !h[0].before(h[j], lower_is_better),
    decreases j,
{
    if j > 0 {
        let p = (j - 1) / 2;
        lemma_root_is_last(h, lower_is_better, p);
    }
}

/// Exchanges two positions of the vector.
fn swap_entries(v: &mut Vec<ScoreIndex>, i: usize, j: usize)
    requires
        i < old(v).len(),
        j < old(v).len(),
    ensures
        final(v)@ == old(v)@.update(i as int, old(v)@[j as int]).update(j as int, old(v)@[i as int]),
        final(v)@.to_multiset() == old(v)@.to_multiset(),
{
    let a = v[i];
    let b = v[j];
    v[i] = b;
    v[j] = a;
    proof {
        lemma_swap_multiset(old(v)@, i as int, j as int);
    }
}

/// Moves the last entry up until its parent no longer ranks before it.
fn sift_up(v: &mut Vec<ScoreIndex>, lower_is_better: bool)
    requires
        old(v).len() > 0,
        heap_ordered(old(v)@.drop_last(), lower_is_better),
    ensures
        heap_ordered(final(v)@, lower_is_better),
        final(v)@.to_multiset() == old(v)@.to_multiset(),
        final(v).len() == old(v).len(),
{
    let mut pos: usize = v.len() - 1;
    assert(heap_ordered_but_above(v@, pos as int, lower_is_better)) by {
        let h = v@;
        let d = v@.drop_last();
        assert forall|c: int| 0 < c < h.len() && c != pos implies !(#[trigger] h[(c - 1) / 2]).before(
            h[c],
            lower_is_better,
        ) by {
            assert(!d[(c - 1) / 2].before(d[c], lower_is_better));
        }
    }
    while pos > 0
        invariant
            pos < v.len(),
            v.len() == old(v).len(),
            heap_ordered_but_above(v@, pos as int, lower_is_better),
            v@.to_multiset() == old(v)@.to_multiset(),
        ensures
            heap_ordered(v@, lower_is_better),
        decreases pos,
    {
        let parent: usize = (pos - 1) / 2;
        let child_entry = v[pos];
        let parent_entry = v[parent];
        if !parent_entry.precedes(&child_entry, lower_is_better) {
            break;
        }
        let ghost before_swap = v@;
        swap_entries(v, pos, parent);
        pos = parent;
    }
}

/// Moves the root down until neither child ranks after it.
fn sift_down(v: &mut Vec<ScoreIndex>, lower_is_better: bool)
    requires
        heap_ordered_but_below(old(v)@, 0, lower_is_better),
    ensures
        heap_ordered(final(v)@, lower_is_better),
        final(v)@.to_multiset() == old(v)@.to_multiset(),
        final(v).len() == old(v).len(),
{
    let len: usize = v.len();
    let mut pos: usize = 0;
    loop
        invariant
            v.len() == len,
            len == old(v).len(),
            pos < len || len == 0,
            heap_ordered_but_below(v@, pos as int, lower_is_better),
            v@.to_multiset() == old(v)@.to_multiset(),
        ensures
            heap_ordered(v@, lower_is_better),
        decreases len - pos,
    {
        if pos >= len / 2 {
            // No child: 2 * pos + 1 >= len.
            break;
        }
        let left: usize = 2 * pos + 1;
        let right: usize = left + 1;
        let mut worst: usize = left;
        if right < len {
            let l = v[left];
            let r = v[right];
            if l.precedes(&r, lower_is_better) {
                worst = right;
            }
        }
        let here = v[pos];
        let below = v[worst];
        if !here.precedes(&below, lower_is_better) {
            assert(heap_ordered(v@, lower_is_better));
            break;
        }
        swap_entries(v, pos, worst);
        pos = worst;
    }
}

/// Adds an entry to the heap.
fn heap_push(v: &mut Vec<ScoreIndex>, e: ScoreIndex, lower_is_better: bool)
    requires
        heap_ordered(old(v)@, lower_is_better),
    ensures
        heap_ordered(final(v)@, lower_is_better),
        final(v)@.to_multiset() == old(v)@.to_multiset().insert(e),
        final(v).len() == old(v).len() + 1,
{
    v.push(e);
    proof {
        broadcast use vstd::seq_lib::group_to_multiset_ensures;
    }
    sift_up(v, lower_is_better);
}

/// Puts `e` in the place of the root, the entry that no other comes after.
fn heap_replace_root(v: &mut Vec<ScoreIndex>, e: ScoreIndex, lower_is_better: bool)
    requires
        old(v).len() > 0,
        heap_ordered(old(v)@, lower_is_better),
    ensures
        heap_ordered(final(v)@, lower_is_better),
        final(v)@.to_multiset() == old(v)@.to_multiset().remove(old(v)@[0]).insert(e),
        final(v).len() == old(v).len(),
{
    v[0] = e;
    proof {
        lemma_update_multiset(old(v)@, 0, e);
    }
    sift_down(v, lower_is_better);
}

/// Takes the root out of the heap: the entry that no other comes after.
fn heap_pop(v: &mut Vec<ScoreIndex>, lower_is_better: bool) -> (top: ScoreIndex)
    requires
        old(v).len() > 0,
        heap_ordered(old(v)@, lower_is_better),
    ensures
        top == old(v)@[0],
        heap_ordered(final(v)@, lower_is_better),
        final(v)@.to_multiset() == old(v)@.to_multiset().remove(top),
        final(v).len() == old(v).len() - 1,
{
    let n: usize = v.len();
    let last = v[n - 1];
    let top = v[0];
    v[0] = last;
    let ghost moved = v@;
    v.pop();
    proof {
        broadcast use vstd::seq_lib::group_to_multiset_ensures;
        broadcast use vstd::multiset::group_multiset_axioms;

        lemma_update_multiset(old(v)@, 0, last);
        assert(v@ =~= moved.remove(n - 1));
    }
    sift_down(v, lower_is_better);
    top
}

/// Whether `r` holds the best `k` entries of `scores`, best first: it has
/// `min(k, scores.len())` entries, each the entry of a position of `scores`,
/// in strictly ascending rank, and every entry left out ranks after all of
/// them.
pub open spec fn is_top_k(r: Seq<ScoreIndex>, scores: Seq<u32>, k: int, lower_is_better: bool) -> bool {
    &&& r.len() == if k <= scores.len() {
        k
    } else {
        scores.len() as int
    }
    &&& forall|i: int| 0 <= i < r.len() ==> is_entry_of(#[trigger] r[i], scores, scores.len() as int)
    &&& strictly_ranked(r, lower_is_better)
    &&& forall|p: int, i: int|
        0 <= p < scores.len() && 0 <= i < r.len() && !r.contains(entry_at(scores, p)) ==> (
        #[trigger] r[i]).before(#[trigger] entry_at(scores, p), lower_is_better)
}

/// A ranking with one more entry: `e` stands after the entries that rank
/// before it and before the others.
pub open spec fn inserted(s: Seq<ScoreIndex>, e: ScoreIndex, lower_is_better: bool) -> Seq<ScoreIndex>
    decreases s.len(),
{
    if s.len() == 0 {
        seq![e]
    } else if s.last().before(e, lower_is_better) {
        s.push(e)
    } else {
        inserted(s.drop_last(), e, lower_is_better).push(s.last())
    }
}

/// The entries of the first `upto` positions of `scores`, best first.
pub open spec fn ranking(scores: Seq<u32>, upto: int, lower_is_better: bool) -> Seq<ScoreIndex>
    decreases upto,
{
    if upto <= 0 {
        Seq::empty()
    } else {
        inserted(
            ranking(scores, upto - 1, lower_is_better),
            entry_at(scores, upto - 1),
            lower_is_better,
        )
    }
}

/// The best `k` entries of `scores`, best first: the first `k` of the
/// ranking of all, or all of it where it has no more than `k`.
pub open spec fn top_k(scores: Seq<u32>, k: int, lower_is_better: bool) -> Seq<ScoreIndex> {
    let all = ranking(scores, scores.len() as int, lower_is_better);
    if 0 <= k < all.len() {
        all.take(k)
    } else {
        all
    }
}

/// Whether the entries of `s` stand in strictly ascending rank.
pub open spec fn strictly_ranked(s: Seq<ScoreIndex>, lower_is_better: bool) -> bool {
    forall|i: int, j: int|
        0 <= i < j < s.len() ==> (#[trigger] s[i]).before(#[trigger] s[j], lower_is_better)
}

/// Inserting an entry that is strictly comparable with every entry of a
/// ranking gives a ranking again, of the old entries and the new one.
proof fn lemma_inserted(s: Seq<ScoreIndex>, e: ScoreIndex, lower_is_better: bool)
    requires
        strictly_ranked(s, lower_is_better),
        forall|i: int|
            0 <= i < s.len() ==> (#[trigger] s[i]).before(e, lower_is_better) || e.before(
                s[i],
                lower_is_better,
            ),
    ensures
        inserted(s, e, lower_is_better).len() == s.len() + 1,
        strictly_ranked(inserted(s, e, lower_is_better), lower_is_better),
        inserted(s, e, lower_is_better).contains(e),
        forall|i: int| 0 <= i < s.len() ==> inserted(s, e, lower_is_better).contains(#[trigger] s[i]),
        forall|i: int|
            0 <= i < inserted(s, e, lower_is_better).len() ==> (#[trigger] inserted(
                s,
                e,
                lower_is_better,
            )[i]) == e || s.contains(inserted(s, e, lower_is_better)[i]),
    decreases s.len(),
{
    let r = inserted(s, e, lower_is_better);
    if s.len() == 0 {
        assert(r[0] == e);
    } else if s.last().before(e, lower_is_better) {
        assert(r[s.len() as int] == e);
        assert forall|i: int| 0 <= i < s.len() implies r.contains(#[trigger] s[i]) by {
            assert(r[i] == s[i]);
        }
    } else {
        let shorter = s.drop_last();
        let last = s.last();
        let inner = inserted(shorter, e, lower_is_better);
        lemma_inserted(shorter, e, lower_is_better);
        assert(e.before(last, lower_is_better)) by {
            assert(s[s.len() - 1].before(e, lower_is_better) || e.before(
                s[s.len() - 1],
                lower_is_better,
            ));
        }
        assert(r.contains(e)) by {
            let j = choose|j: int| 0 <= j < inner.len() && inner[j] == e;
            assert(r[j] == e);
        }
        assert forall|i: int| 0 <= i < s.len() implies r.contains(#[trigger] s[i]) by {
            if i < shorter.len() {
                let j = choose|j: int| 0 <= j < inner.len() && inner[j] == shorter[i];
                assert(r[j] == s[i]);
            } else {
                assert(r[inner.len() as int] == s[i]);
            }
        }
    }
}

/// The ranking of the first `upto` positions holds each of their entries
/// once, in strictly ascending rank.
pub proof fn lemma_ranking(scores: Seq<u32>, upto: int, lower_is_better: bool)
    requires
        0 <= upto <= scores.len() <= usize::MAX,
    ensures
        ranking(scores, upto, lower_is_better).len() == upto,
        strictly_ranked(ranking(scores, upto, lower_is_better), lower_is_better),
        forall|i: int|
            0 <= i < upto ==> is_entry_of(
                #[trigger] ranking(scores, upto, lower_is_better)[i],
                scores,
                upto,
            ),
        forall|p: int|
            0 <= p < upto ==> ranking(scores, upto, lower_is_better).contains(
                #[trigger] entry_at(scores, p),
            ),
    decreases upto,
{
    if upto > 0 {
        let earlier = ranking(scores, upto - 1, lower_is_better);
        let e = entry_at(scores, upto - 1);
        lemma_ranking(scores, upto - 1, lower_is_better);
        lemma_inserted(earlier, e, lower_is_better);
    }
}

/// `top_k` is the selection that `is_top_k` describes.
pub proof fn lemma_top_k(scores: Seq<u32>, k: int, lower_is_better: bool)
    requires
        0 <= k,
        scores.len() <= usize::MAX,
    ensures
        is_top_k(top_k(scores, k, lower_is_better), scores, k, lower_is_better),
{
    let all = ranking(scores, scores.len() as int, lower_is_better);
    let r = top_k(scores, k, lower_is_better);
    lemma_ranking(scores, scores.len() as int, lower_is_better);
    assert forall|i: int| 0 <= i < r.len() implies r[i] == all[i] by {}
}

/// Whether the entries `m` are the best `min(k, upto)` of the first `upto`
/// positions of `scores`.
spec fn keeps_best(
    m: Multiset<ScoreIndex>,
    scores: Seq<u32>,
    upto: int,
    k: int,
    lower_is_better: bool,
) -> bool {
    &&& m.len() == if k <= upto {
        k
    } else {
        upto
    }
    &&& forall|e: ScoreIndex| #[trigger] m.count(e) > 0 ==> is_entry_of(e, scores, upto)
    &&& forall|e: ScoreIndex| #[trigger] m.count(e) <= 1
    &&& forall|p: int, e: ScoreIndex|
        0 <= p < upto && m.count(#[trigger] entry_at(scores, p)) == 0 && #[trigger] m.count(e) > 0
            ==> e.before(entry_at(scores, p), lower_is_better)
    &&& upto <= k ==> forall|p: int| 0 <= p < upto ==> m.count(#[trigger] entry_at(scores, p)) > 0
}

/// Two entries of the same scores are equal or strictly ordered.
proof fn lemma_entries_comparable(
    a: ScoreIndex,
    b: ScoreIndex,
    scores: Seq<u32>,
    lower_is_better: bool,
)
    requires
        is_entry_of(a, scores, scores.len() as int),
        is_entry_of(b, scores, scores.len() as int),
    ensures
        a == b || a.before(b, lower_is_better) || b.before(a, lower_is_better),
        a.index == b.index ==> a == b,
{
}

/// The entries of `v`, last first.
fn reversed(v: &Vec<ScoreIndex>) -> (r: Vec<ScoreIndex>)
    ensures
        r.len() == v.len(),
        forall|a: int| 0 <= a < r.len() ==> #[trigger] r@[a] == v@[v.len() - 1 - a],
{
    let mut r: Vec<ScoreIndex> = Vec::new();
    let mut left: usize = v.len();
    while left > 0
        invariant
            left <= v.len(),
            r.len() == v.len() - left,
            forall|a: int| 0 <= a < r.len() ==> #[trigger] r@[a] == v@[v.len() - 1 - a],
        decreases left,
    {
        left -= 1;
        r.push(v[left]);
    }
    r
}

/// In an ordered heap of entries of `scores`, every entry but the root
/// ranks before the root.
proof fn lemma_root_is_worst(h: Seq<ScoreIndex>, scores: Seq<u32>, lower_is_better: bool)
    requires
        heap_ordered(h, lower_is_better),
        forall|j: int| 0 <= j < h.len() ==> is_entry_of(#[trigger] h[j], scores, scores.len() as int),
    ensures
        forall|j: int|
            0 <= j < h.len() ==> (#[trigger] h[j]) == h[0] || h[j].before(h[0], lower_is_better),
{
    assert forall|j: int| 0 <= j < h.len() implies (#[trigger] h[j]) == h[0] || h[j].before(
        h[0],
        lower_is_better,
    ) by {
        lemma_root_is_last(h, lower_is_better, j);
        lemma_entries_comparable(h[j], h[0], scores, lower_is_better);
    }
}

/// Offers the entry of position `i` to a heap that keeps the best of the
/// positions before `i`: the entry is added while the heap holds fewer
/// than `k`, and takes the place of the root where it ranks before it.
fn offer(heap: &mut Vec<ScoreIndex>, scores: &Vec<u32>, i: usize, k: usize, lower_is_better: bool)
    requires
        i < scores.len(),
        heap_ordered(old(heap)@, lower_is_better),
        keeps_best(old(heap)@.to_multiset(), scores@, i as int, k as int, lower_is_better),
    ensures
        heap_ordered(final(heap)@, lower_is_better),
        keeps_best(final(heap)@.to_multiset(), scores@, i + 1, k as int, lower_is_better),
{
    broadcast use vstd::seq_lib::group_to_multiset_ensures;
    broadcast use vstd::multiset::group_multiset_axioms;

    let candidate = ScoreIndex { score: scores[i], index: i };
    let ghost h = heap@;
    let ghost m = heap@.to_multiset();
    proof {
        assert(m.count(candidate) == 0);
        assert forall|j: int| 0 <= j < h.len() implies is_entry_of(
            #[trigger] h[j],
            scores@,
            scores@.len() as int,
        ) by {
            assert(m.count(h[j]) > 0);
        }
    }
    if heap.len() < k {
        heap_push(heap, candidate, lower_is_better);
    } else if k > 0 {
        let worst = heap[0];
        proof {
            lemma_root_is_worst(h, scores@, lower_is_better);
            lemma_entries_comparable(candidate, worst, scores@, lower_is_better);
        }
        if candidate.precedes(&worst, lower_is_better) {
            heap_replace_root(heap, candidate, lower_is_better);
            proof {
                let changed = heap@.to_multiset();
                assert(changed.count(worst) == 0);
            }
        }
    }
}

/// Empties an ordered heap of entries of `scores`, none of them twice, into
/// a vector: the worst entry first, each later one ranking before all that
/// stand before it.
fn into_worst_first(heap: Vec<ScoreIndex>, Ghost(scores): Ghost<Seq<u32>>, lower_is_better: bool) -> (r:
    Vec<ScoreIndex>)
    requires
        heap_ordered(heap@, lower_is_better),
        forall|e: ScoreIndex| #[trigger] heap@.to_multiset().count(e) <= 1,
        forall|e: ScoreIndex|
            #[trigger] heap@.to_multiset().count(e) > 0 ==> is_entry_of(
                e,
                scores,
                scores.len() as int,
            ),
    ensures
        r@.to_multiset() == heap@.to_multiset(),
        forall|a: int, b: int|
            0 <= a < b < r.len() ==> (#[trigger] r@[b]).before(#[trigger] r@[a], lower_is_better),
{
    let ghost all = heap@.to_multiset();
    let mut heap = heap;
    let mut worst_first: Vec<ScoreIndex> = Vec::new();
    proof {
        broadcast use vstd::seq_lib::group_to_multiset_ensures;
        broadcast use vstd::multiset::group_multiset_axioms;
    }
    while heap.len() > 0
        invariant
            heap_ordered(heap@, lower_is_better),
            heap@.to_multiset().add(worst_first@.to_multiset()) == all,
            forall|e: ScoreIndex| #[trigger] all.count(e) <= 1,
            forall|e: ScoreIndex|
                #[trigger] all.count(e) > 0 ==> is_entry_of(e, scores, scores.len() as int),
            forall|a: int, b: int|
                0 <= a < b < worst_first.len() ==> (#[trigger] worst_first@[b]).before(
                    #[trigger] worst_first@[a],
                    lower_is_better,
                ),
            forall|e: ScoreIndex, a: int|
                #[trigger] heap@.to_multiset().count(e) > 0 && 0 <= a < worst_first.len() ==> e.before(
                    #[trigger] worst_first@[a],
                    lower_is_better,
                ),
        decreases heap.len(),
    {
        let ghost h = heap@;
        let top = heap_pop(&mut heap, lower_is_better);
        worst_first.push(top);
        proof {
            broadcast use vstd::seq_lib::group_to_multiset_ensures;
            broadcast use vstd::multiset::group_multiset_axioms;

            assert(all.count(top) <= 1);
            assert forall|j: int| 0 <= j < h.len() implies is_entry_of(
                #[trigger] h[j],
                scores,
                scores.len() as int,
            ) by {
                assert(all.count(h[j]) > 0);
            }
            lemma_root_is_worst(h, scores, lower_is_better);
        }
    }
    worst_first
}

/// Selects the best `k` of the scored positions `0..scores.len()`, best
/// first. A score ranks before another when it is lower (`lower_is_better`)
/// or higher (otherwise); a not-a-number ranks after every number; among
/// equally ranked scores the smaller position comes first.
pub fn select_top_k(scores: &Vec<u32>, k: usize, lower_is_better: bool) -> (r: Vec<ScoreIndex>)
    ensures
        is_top_k(r@, scores@, k as int, lower_is_better),
        r@ == top_k(scores@, k as int, lower_is_better),
{
    let n: usize = scores.len();
    let mut heap: Vec<ScoreIndex> = Vec::new();
    let mut i: usize = 0;
    proof {
        broadcast use vstd::seq_lib::group_to_multiset_ensures;
        broadcast use vstd::multiset::group_multiset_axioms;
    }
    while i < n
        invariant
            n == scores.len(),
            i <= n,
            heap_ordered(heap@, lower_is_better),
            keeps_best(heap@.to_multiset(), scores@, i as int, k as int, lower_is_better),
        decreases n - i,
    {
        offer(&mut heap, scores, i, k, lower_is_better);
        i += 1;
    }
    let ghost kept = heap@.to_multiset();
    let worst_first = into_worst_first(heap, Ghost(scores@), lower_is_better);
    let best_first = reversed(&worst_first);
    proof {
        broadcast use vstd::seq_lib::group_to_multiset_ensures;
        broadcast use vstd::multiset::group_multiset_axioms;

        let r = best_first@;
        let out = worst_first@;
        assert forall|i: int| 0 <= i < r.len() implies is_entry_of(
            #[trigger] r[i],
            scores@,
            scores@.len() as int,
        ) by {
            assert(kept.count(r[i]) > 0);
        }
        assert forall|p: int, i: int|
            0 <= p < scores@.len() && 0 <= i < r.len() && !r.contains(
                entry_at(scores@, p),
            ) implies (#[trigger] r[i]).before(#[trigger] entry_at(scores@, p), lower_is_better) by {
            let left_out = entry_at(scores@, p);
            if kept.count(left_out) > 0 {
                let j = choose|j: int| 0 <= j < out.len() && out[j] == left_out;
                assert(r[out.len() - 1 - j] == left_out);
            }
            assert(kept.count(r[i]) > 0);
        }
        lemma_top_k(scores@, k as int, lower_is_better);
        lemma_top_k_is_unique(
            r,
            top_k(scores@, k as int, lower_is_better),
            scores@,
            k as int,
            lower_is_better,
        );
    }
    best_first
}

/// Two selections that agree on their first `i` entries cannot differ at
/// entry `i` with the first one ranking strictly before the second.
proof fn lemma_earlier_entry_is_selected(
    r1: Seq<ScoreIndex>,
    r2: Seq<ScoreIndex>,
    scores: Seq<u32>,
    k: int,
    lower_is_better: bool,
    i: int,
)
    requires
        is_top_k(r1, scores, k, lower_is_better),
        is_top_k(r2, scores, k, lower_is_better),
        0 <= i < r1.len(),
        forall|t: int| 0 <= t < i ==> r1[t] == r2[t],
    ensures
        !r1[i].before(r2[i], lower_is_better),
{
    let a = r1[i];
    if a.before(r2[i], lower_is_better) {
        assert(a == entry_at(scores, a.index as int));
    }
}

/// Two selections of the best `k` of the same scores hold the same entry at
/// every position.
proof fn lemma_top_k_agree_at(
    r1: Seq<ScoreIndex>,
    r2: Seq<ScoreIndex>,
    scores: Seq<u32>,
    k: int,
    lower_is_better: bool,
    i: int,
)
    requires
        is_top_k(r1, scores, k, lower_is_better),
        is_top_k(r2, scores, k, lower_is_better),
        0 <= i < r1.len(),
    ensures
        r1[i] == r2[i],
    decreases i,
{
    assert forall|t: int| 0 <= t < i implies r1[t] == r2[t] by {
        lemma_top_k_agree_at(r1, r2, scores, k, lower_is_better, t);
    }
    lemma_earlier_entry_is_selected(r1, r2, scores, k, lower_is_better, i);
    lemma_earlier_entry_is_selected(r2, r1, scores, k, lower_is_better, i);
    lemma_entries_comparable(r1[i], r2[i], scores, lower_is_better);
}

/// The best `k` of given scores are one sequence and no other: whatever
/// meets `is_top_k` for the same scores, `k` and direction is the same
/// selection, entry for entry.
pub proof fn lemma_top_k_is_unique(
    r1: Seq<ScoreIndex>,
    r2: Seq<ScoreIndex>,
    scores: Seq<u32>,
    k: int,
    lower_is_better: bool,
)
    requires
        is_top_k(r1, scores, k, lower_is_better),
        is_top_k(r2, scores, k, lower_is_better),
    ensures
        r1 == r2,
{
    assert forall|i: int| 0 <= i < r1.len() implies r1[i] == r2[i] by {
        lemma_top_k_agree_at(r1, r2, scores, k, lower_is_better, i);
    }
}

/// Whether score `a` is at least as good as score `b`: a not-a-number is
/// as good as a not-a-number only, and of two numbers the one that is no
/// higher (`lower_is_better`) or no lower (otherwise) than the other.
pub open spec fn no_worse(a: u32, b: u32, lower_is_better: bool) -> bool {
    if is_nan(a) {
        is_nan(b)
    } else if is_nan(b) {
        true
    } else if lower_is_better {
        scaled_value(a) <= scaled_value(b)
    } else {
        scaled_value(a) >= scaled_value(b)
    }
}

/// An entry that ranks before another has a score that is no worse.
proof fn lemma_before_is_no_worse(a: ScoreIndex, b: ScoreIndex, lower_is_better: bool)
    requires
        a.before(b, lower_is_better),
    ensures
        no_worse(a.score, b.score, lower_is_better),
{
    lemma_key_range(a.score, lower_is_better);
    lemma_key_range(b.score, lower_is_better);
    if !is_nan(a.score) && !is_nan(b.score) {
        lemma_rank_key_is_numeric_order(a.score, b.score, lower_is_better);
        lemma_rank_key_is_numeric_order(b.score, a.score, lower_is_better);
    }
}

/// The selection is ordered by the numbers that the scores encode: of two
/// selected entries the earlier has a score that is no worse.
pub proof fn lemma_top_k_orders_scores(
    scores: Seq<u32>,
    k: int,
    lower_is_better: bool,
    i: int,
    j: int,
)
    requires
        0 <= k,
        scores.len() <= usize::MAX,
        0 <= i < j < top_k(scores, k, lower_is_better).len(),
    ensures
        no_worse(
            top_k(scores, k, lower_is_better)[i].score,
            top_k(scores, k, lower_is_better)[j].score,
            lower_is_better,
        ),
{
    let r = top_k(scores, k, lower_is_better);
    lemma_top_k(scores, k, lower_is_better);
    lemma_before_is_no_worse(r[i], r[j], lower_is_better);
}

/// Nothing that the selection leaves out beats what it holds: the score of
/// every selected entry is no worse than the score of any position that is
/// not selected.
pub proof fn lemma_top_k_keeps_the_best(
    scores: Seq<u32>,
    k: int,
    lower_is_better: bool,
    i: int,
    p: int,
)
    requires
        0 <= k,
        scores.len() <= usize::MAX,
        0 <= i < top_k(scores, k, lower_is_better).len(),
        0 <= p < scores.len(),
        !top_k(scores, k, lower_is_better).contains(entry_at(scores, p)),
    ensures
        no_worse(top_k(scores, k, lower_is_better)[i].score, scores[p], lower_is_better),
{
    let r = top_k(scores, k, lower_is_better);
    lemma_top_k(scores, k, lower_is_better);
    lemma_before_is_no_worse(r[i], entry_at(scores, p), lower_is_better);
}

} // verus!
