//! Neighbourhood planning: which chunks to fetch around the hits of a search.

use std::collections::HashMap;
use vstd::prelude::*;

verus! {

/// The order in which hit offsets are processed.
pub open spec fn by_offset() -> spec_fn(usize, usize) -> bool {
    |a: usize, b: usize| a <= b
}

/// The hit offsets in ascending order.
pub open spec fn ascending(offsets: Seq<usize>) -> Seq<usize> {
    offsets.sort_by(by_offset())
}

/// Every offset is smaller than the one that follows it.
pub open spec fn strictly_ascending(s: Seq<usize>) -> bool {
    forall|i: int, j: int| 0 <= i < j < s.len() ==> s[i] < s[j]
}

proof fn lemma_by_offset_is_total()
    ensures
        vstd::relations::total_ordering(by_offset()),
{
    let leq = by_offset();
    assert(vstd::relations::reflexive(leq));
    assert(vstd::relations::antisymmetric(leq));
    assert(vstd::relations::transitive(leq));
    assert(vstd::relations::strongly_connected(leq));
}

/// Swapping two entries keeps the entries themselves.
proof fn lemma_swap_keeps_entries(s: Seq<usize>, a: int, b: int)
    requires
        0 <= a < s.len(),
        0 <= b < s.len(),
    ensures
        s.update(a, s[b]).update(b, s[a]).to_multiset() == s.to_multiset(),
{
    broadcast use vstd::seq_lib::to_multiset_update;
    broadcast use vstd::multiset::group_multiset_axioms;
    let t = s.update(a, s[b]);
    assert(t.to_multiset() == s.to_multiset().insert(s[b]).remove(s[a]));
    assert(t.update(b, s[a]).to_multiset() == t.to_multiset().insert(s[a]).remove(t[b]));
    s.to_multiset_ensures();
    assert(s.to_multiset().count(s[a]) > 0);
    assert(s.to_multiset().count(s[b]) > 0);
    assert(t.update(b, s[a]).to_multiset() =~= s.to_multiset());
}

/// Sorts the hit offsets in place, smallest first.
pub fn sort_offsets(offsets: &mut Vec<usize>)
    ensures
        final(offsets)@ == ascending(old(offsets)@),
{
    let n = offsets.len();
    let mut i: usize = 1;
    while i < n
        invariant
            offsets.len() == n,
            1 <= i,
            offsets@.to_multiset() == old(offsets)@.to_multiset(),
            forall|a: int, b: int| 0 <= a < b < i && b < n ==> offsets@[a] <= offsets@[b],
        decreases n - i,
    {
        let mut j: usize = i;
        while j > 0 && offsets[j - 1] > offsets[j]
            invariant
                offsets.len() == n,
                j <= i < n,
                offsets@.to_multiset() == old(offsets)@.to_multiset(),
                forall|a: int, b: int|
                    0 <= a < b <= i && a != j && b != j ==> offsets@[a] <= offsets@[b],
                forall|b: int| j < b <= i ==> offsets@[j as int] <= offsets@[b],
            decreases j,
        {
            let ghost before = offsets@;
            let lower = offsets[j - 1];
            let upper = offsets[j];
            offsets.set(j - 1, upper);
            offsets.set(j, lower);
            proof {
                lemma_swap_keeps_entries(before, j - 1, j as int);
                assert(offsets@ =~= before.update(j - 1, before[j as int]).update(
                    j as int,
                    before[j - 1],
                ));
            }
            j = j - 1;
        }
        i = i + 1;
    }
    proof {
        let leq = by_offset();
        lemma_by_offset_is_total();
        old(offsets)@.lemma_sort_by_ensures(leq);
        assert(vstd::relations::sorted_by(offsets@, leq));
        vstd::seq_lib::lemma_sorted_unique(offsets@, old(offsets)@.sort_by(leq), leq);
    }
}

/// The hits of one document: at least one, no offset twice, all inside a
/// document of `total` chunks.
pub open spec fn valid_hits(offsets: Seq<usize>, total: int) -> bool {
    &&& offsets.len() > 0
    &&& offsets.no_duplicates()
    &&& forall|i: int| 0 <= i < offsets.len() ==> offsets[i] < total
}

/// Splits the share of one hit between the chunks before it and the chunks
/// after it: half each where both sides have room, everything where the two
/// sides together are too short, and otherwise the short side whole and the
/// rest of the share on the other side.
pub open spec fn split_share(share: int, room_left: int, room_right: int) -> (int, int) {
    let half = share / 2;
    if room_left >= half && room_right >= half {
        (half, half)
    } else if room_left + room_right < share {
        (room_left, room_right)
    } else if room_left < room_right {
        (room_left, share - room_left)
    } else {
        (share - room_right, room_right)
    }
}

/// Free chunks after hit `i`: up to the next hit, or to the end of the document.
pub open spec fn room_right(hits: Seq<usize>, total: int, i: int) -> int {
    if i == hits.len() - 1 {
        total - hits[i] - 1
    } else {
        hits[i + 1] - hits[i] - 1
    }
}

/// The window of hit `i` as (chunks before, chunks after). Hits are served
/// in ascending order, and what an earlier hit took after itself is no
/// longer free before the next one.
pub open spec fn window(hits: Seq<usize>, share: int, total: int, i: int) -> (int, int)
    decreases i,
{
    if i < 0 || i >= hits.len() {
        (0, 0)
    } else {
        let room_left = if i == 0 {
            hits[i] as int
        } else {
            hits[i] - (hits[i - 1] + 1 + window(hits, share, total, i - 1).1)
        };
        split_share(share, room_left, room_right(hits, total, i))
    }
}

/// Offset `k` is an extra chunk of hit `i`: inside its window, and not the hit.
pub open spec fn covers(hits: Seq<usize>, share: int, total: int, i: int, k: int) -> bool {
    &&& 0 <= i < hits.len()
    &&& hits[i] - window(hits, share, total, i).0 <= k
    &&& k <= hits[i] + window(hits, share, total, i).1
    &&& k != hits[i]
}

/// Offset `k` is an extra chunk of some hit.
pub open spec fn covered(hits: Seq<usize>, share: int, total: int, k: int) -> bool {
    exists|i: int| covers(hits, share, total, i, k)
}

/// The hit whose window holds `k`.
pub open spec fn anchor_of(hits: Seq<usize>, share: int, total: int, k: int) -> usize {
    hits[choose|i: int| covers(hits, share, total, i, k)]
}

/// The expansion of ascending `hits` by `budget` extra chunks in a document
/// of `total` chunks: every extra offset, mapped to the hit it extends. Each
/// hit gets the same share of the budget; what is left over is not handed out.
pub open spec fn expansion_plan(hits: Seq<usize>, budget: int, total: int) -> Map<usize, usize> {
    let share = budget / (hits.len() as int);
    Map::new(
        |k: usize| covered(hits, share, total, k as int),
        |k: usize| anchor_of(hits, share, total, k as int),
    )
}

/// What the sorted hits keep of the hits as they came.
pub proof fn lemma_ascending_hits(offsets: Seq<usize>, total: int)
    requires
        valid_hits(offsets, total),
    ensures
        valid_hits(ascending(offsets), total),
        strictly_ascending(ascending(offsets)),
        ascending(offsets).len() == offsets.len(),
        forall|x: usize| ascending(offsets).contains(x) <==> offsets.contains(x),
{
    broadcast use vstd::multiset::group_multiset_axioms;
    let leq = by_offset();
    let s = ascending(offsets);
    lemma_by_offset_is_total();
    offsets.lemma_sort_by_ensures(leq);
    offsets.to_multiset_ensures();
    s.to_multiset_ensures();
    offsets.lemma_multiset_has_no_duplicates();
    s.lemma_multiset_has_no_duplicates_conv();
    assert forall|x: usize| s.contains(x) <==> offsets.contains(x) by {
        assert(s.contains(x) <==> s.to_multiset().count(x) > 0);
        assert(offsets.contains(x) <==> offsets.to_multiset().count(x) > 0);
    }
    assert forall|i: int| 0 <= i < s.len() implies s[i] < total by {
        assert(s.contains(s[i]));
        assert(offsets.contains(s[i]));
    }
    assert forall|i: int, j: int| 0 <= i < j < s.len() implies s[i] < s[j] by {
        assert(leq(s[i], s[j]));
    }
}

/// Hits that ascend already are served in the order in which they came.
pub proof fn lemma_ascending_keeps_sorted(offsets: Seq<usize>)
    requires
        strictly_ascending(offsets),
    ensures
        ascending(offsets) == offsets,
{
    let leq = by_offset();
    lemma_by_offset_is_total();
    offsets.lemma_sort_by_ensures(leq);
    assert(vstd::relations::sorted_by(offsets, leq));
    vstd::seq_lib::lemma_sorted_unique(offsets, offsets.sort_by(leq), leq);
}

/// A list that ascends and holds the hits, each as often as it came, is the
/// list of the hits in ascending order.
pub proof fn lemma_ascending_is(offsets: Seq<usize>, sorted: Seq<usize>)
    requires
        forall|i: int, j: int| 0 <= i <= j < sorted.len() ==> sorted[i] <= sorted[j],
        sorted.to_multiset() == offsets.to_multiset(),
    ensures
        ascending(offsets) == sorted,
{
    let leq = by_offset();
    lemma_by_offset_is_total();
    offsets.lemma_sort_by_ensures(leq);
    assert(vstd::relations::sorted_by(sorted, leq));
    vstd::seq_lib::lemma_sorted_unique(sorted, offsets.sort_by(leq), leq);
}

/// Windows stay inside the document, inside the share, and clear of the
/// neighbouring hits and of the window before.
pub proof fn lemma_window_bounds(hits: Seq<usize>, share: int, total: int, i: int)
    requires
        strictly_ascending(hits),
        forall|j: int| 0 <= j < hits.len() ==> hits[j] < total,
        0 <= share,
        0 <= i < hits.len(),
    ensures
        0 <= window(hits, share, total, i).0,
        0 <= window(hits, share, total, i).1,
        window(hits, share, total, i).0 + window(hits, share, total, i).1 <= share,
        i == 0 ==> 0 <= hits[i] - window(hits, share, total, i).0,
        i > 0 ==> hits[i - 1] + window(hits, share, total, i - 1).1 < hits[i] - window(
            hits,
            share,
            total,
            i,
        ).0,
        window(hits, share, total, i).1 <= room_right(hits, total, i),
        hits[i] + window(hits, share, total, i).1 < total,
    decreases i,
{
    if i > 0 {
        lemma_window_bounds(hits, share, total, i - 1);
    }
}

/// The windows of two different hits do not meet: the earlier one ends
/// before the later hit's window begins.
pub proof fn lemma_windows_apart(hits: Seq<usize>, share: int, total: int, i: int, j: int)
    requires
        strictly_ascending(hits),
        forall|j: int| 0 <= j < hits.len() ==> hits[j] < total,
        0 <= share,
        0 <= i < j < hits.len(),
    ensures
        hits[i] + window(hits, share, total, i).1 < hits[j] - window(hits, share, total, j).0,
{
    lemma_window_bounds(hits, share, total, i);
    lemma_window_bounds(hits, share, total, j);
    if i + 1 < j {
        lemma_window_bounds(hits, share, total, j - 1);
    }
}

/// Later offsets belong to later hits, or to the same.
pub proof fn lemma_anchors_ascend(
    hits: Seq<usize>,
    share: int,
    total: int,
    i: int,
    k: int,
    j: int,
    l: int,
)
    requires
        strictly_ascending(hits),
        forall|j: int| 0 <= j < hits.len() ==> hits[j] < total,
        0 <= share,
        covers(hits, share, total, i, k),
        covers(hits, share, total, j, l),
        k <= l,
    ensures
        i <= j,
{
    if j < i {
        lemma_windows_apart(hits, share, total, j, i);
    }
}

/// An extra offset belongs to one hit only, is no hit itself, and lies in
/// the document.
pub proof fn lemma_covers_one(hits: Seq<usize>, share: int, total: int, i: int, k: int)
    requires
        strictly_ascending(hits),
        forall|j: int| 0 <= j < hits.len() ==> hits[j] < total,
        0 <= share,
        covers(hits, share, total, i, k),
    ensures
        0 <= k < total,
        forall|j: int| 0 <= j < hits.len() ==> hits[j] != k,
        forall|j: int| covers(hits, share, total, j, k) ==> j == i,
        covered(hits, share, total, k),
        anchor_of(hits, share, total, k) == hits[i],
{
    lemma_window_bounds(hits, share, total, i);
    if i > 0 {
        lemma_window_bounds(hits, share, total, i - 1);
    }
    assert forall|j: int| 0 <= j < hits.len() implies hits[j] != k by {
        if j < i {
            lemma_windows_apart(hits, share, total, j, i);
            lemma_window_bounds(hits, share, total, j);
        } else if j > i {
            lemma_windows_apart(hits, share, total, i, j);
            lemma_window_bounds(hits, share, total, j);
        }
    }
    assert forall|j: int| covers(hits, share, total, j, k) implies j == i by {
        if j < i {
            lemma_windows_apart(hits, share, total, j, i);
        } else if j > i {
            lemma_windows_apart(hits, share, total, i, j);
        }
    }
}

/// The offsets below `cursor`.
pub open spec fn below(cursor: int) -> Set<usize> {
    Set::new(|k: usize| k < cursor)
}

/// No window reaches past the window of a later hit.
proof fn lemma_covered_before(hits: Seq<usize>, share: int, total: int, j: int, i: int, k: int)
    requires
        strictly_ascending(hits),
        forall|j: int| 0 <= j < hits.len() ==> hits[j] < total,
        0 <= share,
        0 <= j <= i < hits.len(),
        covers(hits, share, total, j, k),
    ensures
        k <= hits[i] + window(hits, share, total, i).1,
{
    lemma_window_bounds(hits, share, total, i);
    if j < i {
        lemma_windows_apart(hits, share, total, j, i);
    }
}

fn split(share: usize, room_left: usize, room_right: usize) -> (r: (usize, usize))
    requires
        room_left + room_right <= usize::MAX,
    ensures
        (r.0 as int, r.1 as int) == split_share(share as int, room_left as int, room_right as int),
{
    let half = share / 2;
    if room_left >= half && room_right >= half {
        (half, half)
    } else if room_left + room_right < share {
        (room_left, room_right)
    } else if room_left < room_right {
        (room_left, share - room_left)
    } else {
        (share - room_right, room_right)
    }
}

/// Plans the expansion of a search result: which chunks to fetch around the
/// hits `offsets` of one document of `total_chunks_count` chunks, so that
/// about `chunks_to_grow` chunks are added, and which hit each of them extends.
///
/// An empty document has an empty plan. Otherwise the hits are served in
/// ascending order and the result is exactly `expansion_plan`. The extra
/// offsets lie in the document, none is a hit, each maps to a hit, and there
/// are no more of them than the budget or than the chunks that are no hits.
pub fn target_document_tokens_offsets(
    offsets: Vec<usize>,
    chunks_to_grow: usize,
    total_chunks_count: usize,
) -> (plan: HashMap<usize, usize>)
    requires
        total_chunks_count > 0 ==> valid_hits(offsets@, total_chunks_count as int),
    ensures
        total_chunks_count == 0 ==> plan@ == Map::<usize, usize>::empty(),
        total_chunks_count > 0 ==> plan@ == expansion_plan(
            ascending(offsets@),
            chunks_to_grow as int,
            total_chunks_count as int,
        ),
        forall|k: usize| #[trigger]
            plan@.contains_key(k) ==> k < total_chunks_count && !offsets@.contains(k)
                && offsets@.contains(plan@[k]),
        plan@.dom().finite(),
        plan@.len() <= chunks_to_grow,
        total_chunks_count > 0 ==> plan@.len() + offsets@.len() <= total_chunks_count,
{
    broadcast use vstd::std_specs::hash::group_hash_axioms;

    let mut plan: HashMap<usize, usize> = HashMap::new();
    if total_chunks_count == 0 {
        return plan;
    }
    let ghost total = total_chunks_count as int;
    let mut hits = offsets;
    sort_offsets(&mut hits);
    proof {
        lemma_ascending_hits(offsets@, total);
    }
    let n = hits.len();
    let share = chunks_to_grow / n;
    let ghost full = expansion_plan(hits@, chunks_to_grow as int, total);
    let ghost mut cursor: int = 0;
    let ghost mut quota: int = 0;
    proof {
        assert(n * share <= chunks_to_grow) by (nonlinear_arith)
            requires
                n > 0,
                share == chunks_to_grow / n,
        ;
        assert(plan@ =~= full.restrict(below(cursor)));
    }
    let mut taken_right: usize = 0;
    let mut i: usize = 0;
    while i < n
        invariant
            n == hits.len(),
            n > 0,
            total == total_chunks_count,
            strictly_ascending(hits@),
            forall|j: int| 0 <= j < hits.len() ==> hits@[j] < total,
            share as int == chunks_to_grow as int / n as int,
            n * share <= chunks_to_grow,
            full == expansion_plan(hits@, chunks_to_grow as int, total),
            i <= n,
            i > 0 ==> taken_right == window(hits@, share as int, total, i - 1).1,
            i == 0 ==> cursor == 0,
            i > 0 ==> cursor == hits@[i - 1] + taken_right + 1,
            plan@ =~= full.restrict(below(cursor)),
            plan@.dom().finite(),
            quota == i * share,
            plan@.len() <= quota,
            plan@.len() + i <= cursor,
            forall|k: usize| #[trigger]
                plan@.contains_key(k) ==> k < total && hits@.contains(plan@[k]) && !hits@.contains(
                    k,
                ),
        decreases n - i,
    {
        proof {
            lemma_window_bounds(hits@, share as int, total, i as int);
            if i > 0 {
                lemma_window_bounds(hits@, share as int, total, i - 1);
            }
        }
        let free_right = if i == n - 1 {
            total_chunks_count - hits[i] - 1
        } else {
            hits[i + 1] - hits[i] - 1
        };
        let free_left = if i == 0 {
            hits[i]
        } else {
            hits[i] - (hits[i - 1] + 1 + taken_right)
        };
        let (left, right) = split(share, free_left, free_right);
        let low = hits[i] - left;
        let high = hits[i] + right;
        let ghost base = plan@.len();
        proof {
            assert((left as int, right as int) == window(hits@, share as int, total, i as int));
            assert forall|k: usize| cursor <= k < low implies !covered(
                hits@,
                share as int,
                total,
                k as int,
            ) by {
                if covered(hits@, share as int, total, k as int) {
                    let j = choose|j: int| covers(hits@, share as int, total, j, k as int);
                    if j < i {
                        lemma_covered_before(hits@, share as int, total, j, i - 1, k as int);
                    } else if j > i {
                        lemma_windows_apart(hits@, share as int, total, i as int, j);
                    }
                }
            }
            assert(full.restrict(below(cursor)) =~= full.restrict(below(low as int)));
        }
        let mut k = low;
        while k <= high
            invariant
                n == hits.len(),
                i < n,
                total == total_chunks_count,
                strictly_ascending(hits@),
                forall|j: int| 0 <= j < hits.len() ==> hits@[j] < total,
                full == expansion_plan(hits@, chunks_to_grow as int, total),
                share as int == chunks_to_grow as int / n as int,
                (left as int, right as int) == window(hits@, share as int, total, i as int),
                low == hits@[i as int] - left,
                high == hits@[i as int] + right,
                high < total,
                low <= k <= high + 1,
                plan@ =~= full.restrict(below(k as int)),
                plan@.dom().finite(),
                plan@.len() == base + (k - low) - (if k > hits@[i as int] { 1int } else { 0int }),
                forall|x: usize| #[trigger]
                    plan@.contains_key(x) ==> x < total && hits@.contains(plan@[x])
                        && !hits@.contains(x),
            decreases high + 1 - k,
        {
            let ghost before = plan@;
            if k != hits[i] {
                plan.insert(k, hits[i]);
                proof {
                    lemma_covers_one(hits@, share as int, total, i as int, k as int);
                    assert(full.contains_key(k));
                    assert(full[k] == hits@[i as int]);
                    assert(!before.contains_key(k));
                    assert(plan@ =~= full.restrict(below(k + 1)));
                    assert(!hits@.contains(k));
                }
            } else {
                proof {
                    if covered(hits@, share as int, total, k as int) {
                        let j = choose|j: int| covers(hits@, share as int, total, j, k as int);
                        lemma_covers_one(hits@, share as int, total, j, k as int);
                    }
                    assert(plan@ =~= full.restrict(below(k + 1)));
                }
            }
            k = k + 1;
        }
        proof {
            cursor = high + 1;
            assert((i + 1) * share == i * share + share) by (nonlinear_arith);
            quota = quota + share;
        }
        taken_right = right;
        i = i + 1;
    }
    proof {
        lemma_window_bounds(hits@, share as int, total, n - 1);
        assert forall|k: usize| covered(hits@, share as int, total, k as int) implies k
            < cursor by {
            let j = choose|j: int| covers(hits@, share as int, total, j, k as int);
            lemma_covered_before(hits@, share as int, total, j, n - 1, k as int);
        }
        assert(plan@ =~= full);
    }
    plan
}

} // verus!
