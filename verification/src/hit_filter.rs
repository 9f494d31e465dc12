//! Ball hit candidates that are one touch: the same player hitting the
//! ball again within a few frames keeps only the closest contact.
use vstd::prelude::*;
use crate::row_order::{is_stable_order, placed_before, stable_order, KeyView, RowSortKey};
use crate::text::str_eq;

verus! {

/// Hits of one player this many frames apart or less are one touch.
pub const SAME_TOUCH_FRAMES: i32 = 10;

/// What the filter reads of a hit candidate: its frame, its player, and
/// the rank of its collision distance among all candidates' distances
/// (equal distances share a rank; a smaller rank is a closer contact).
#[derive(Clone, Debug)]
pub struct HitKey {
    pub frame_number: i32,
    pub player_name: String,
    pub distance_rank: u32,
}

/// The key hits are sorted by: frame, then player name.
pub open spec fn hit_sort_key(h: HitKey) -> KeyView {
    (h.frame_number, 0i32, h.player_name@, Seq::<char>::empty())
}

/// The sort keys of a list of hits.
pub open spec fn hit_keys(hits: Seq<HitKey>) -> Seq<KeyView> {
    hits.map_values(|h: HitKey| hit_sort_key(h))
}

/// The hits in the order `order` lists them.
pub open spec fn in_order(hits: Seq<HitKey>, order: Seq<usize>) -> Seq<HitKey> {
    order.map_values(|i: usize| hits[i as int])
}

/// Sorted hit `e` belongs to the touch that starts at sorted hit `start`:
/// same player, at most the touch window later.
pub open spec fn same_touch(s: Seq<HitKey>, start: int, e: int) -> bool {
    s[e].player_name@ == s[start].player_name@ && s[e].frame_number - s[start].frame_number <= SAME_TOUCH_FRAMES
}

/// Where the touch starting at `start` ends, looking on from `e`.
pub open spec fn touch_end(s: Seq<HitKey>, start: int, e: int) -> int
    decreases s.len() - e,
{
    if 0 <= e < s.len() && same_touch(s, start, e) {
        touch_end(s, start, e + 1)
    } else {
        e
    }
}

/// The first hit with the closest contact among sorted hits `start..e`.
pub open spec fn best_upto(s: Seq<HitKey>, start: int, e: int) -> int
    decreases e - start,
{
    if e <= start + 1 {
        start
    } else {
        let b = best_upto(s, start, e - 1);
        if s[e - 1].distance_rank < s[b].distance_rank {
            e - 1
        } else {
            b
        }
    }
}

/// The sorted positions of the hits kept from sorted position `idx` on: one
/// per touch, its closest contact.
pub open spec fn touch_picks(s: Seq<HitKey>, idx: int) -> Seq<int>
    decreases s.len() - idx,
{
    if idx < 0 || idx >= s.len() {
        Seq::empty()
    } else {
        let end = touch_end(s, idx, idx + 1);
        if end <= idx || end > s.len() {
            Seq::empty()
        } else {
            seq![best_upto(s, idx, end)] + touch_picks(s, end)
        }
    }
}

/// The hits kept, as positions in the input: sort the hits stably by frame
/// and player, split them into touches, and keep each touch's closest
/// contact.
pub open spec fn kept_hits(hits: Seq<HitKey>, order: Seq<usize>) -> Seq<usize> {
    touch_picks(in_order(hits, order), 0).map_values(|p: int| order[p])
}

proof fn lemma_touch_end_after(s: Seq<HitKey>, start: int, e: int)
    ensures
        touch_end(s, start, e) >= e,
        e <= s.len() ==> touch_end(s, start, e) <= s.len(),
    decreases s.len() - e,
{
    if 0 <= e < s.len() && same_touch(s, start, e) {
        lemma_touch_end_after(s, start, e + 1);
    }
}

proof fn lemma_best_in_range(s: Seq<HitKey>, start: int, e: int)
    requires
        start < e,
    ensures
        start <= best_upto(s, start, e) < e,
    decreases e - start,
{
    if e > start + 1 {
        lemma_best_in_range(s, start, e - 1);
    }
}

/// Which hit candidates are kept, as positions in the input, in the order
/// they come out: a stable sort by frame and player, then one hit per touch
/// (a run of one player's hits within the touch window of its first), the
/// touch's first closest contact.
pub fn filter_duplicate_hits(hits: &[HitKey]) -> (res: Vec<usize>)
    ensures
        exists|order: Seq<usize>| is_stable_order(hit_keys(hits@), order) && res@ == kept_hits(hits@, order),
{
    let n = hits.len();
    let mut keys: Vec<RowSortKey> = Vec::new();
    let mut j: usize = 0;
    while j < n
        invariant
            n == hits@.len(),
            j <= n,
            keys@.len() == j,
            forall|k: int| 0 <= k < j ==> (#[trigger] keys@[k])@ == hit_sort_key(hits@[k]),
        decreases n - j,
    {
        let key = RowSortKey {
            first: hits[j].frame_number,
            second: 0,
            first_text: hits[j].player_name.clone(),
            second_text: String::new(),
        };
        assert(key@ =~= hit_sort_key(hits@[j as int]));
        keys.push(key);
        j = j + 1;
    }
    let order = stable_order(keys.as_slice());
    assert(keys@.map_values(|k: RowSortKey| k@) =~= hit_keys(hits@));
    let ghost s = in_order(hits@, order@);
    assert(s.len() == n);
    let ghost all = touch_picks(s, 0).map_values(|p: int| order@[p]);
    let mut out: Vec<usize> = Vec::new();
    let mut idx: usize = 0;
    assert(out@ + touch_picks(s, 0).map_values(|p: int| order@[p]) =~= all);
    while idx < n
        invariant
            n == hits@.len(),
            order@.len() == n,
            forall|p: int| 0 <= p < n ==> order@[p] < n,
            s == in_order(hits@, order@),
            idx <= n,
            out@ + touch_picks(s, idx as int).map_values(|p: int| order@[p]) == all,
        decreases n - idx,
    {
        let first = order[idx];
        let mut end: usize = idx + 1;
        proof {
            lemma_touch_end_after(s, idx as int, idx + 1);
        }
        while end < n && str_eq(hits[order[end]].player_name.as_str(), hits[first].player_name.as_str())
            && (hits[order[end]].frame_number as i64) - (hits[first].frame_number as i64) <= 10
            invariant
                n == hits@.len(),
                order@.len() == n,
                forall|p: int| 0 <= p < n ==> order@[p] < n,
                s == in_order(hits@, order@),
                idx < end <= n,
                first == order@[idx as int],
                touch_end(s, idx as int, idx + 1) == touch_end(s, idx as int, end as int),
            decreases n - end,
        {
            assert(same_touch(s, idx as int, end as int));
            end += 1;
        }
        assert(touch_end(s, idx as int, end as int) == end);
        let mut best: usize = idx;
        let mut k: usize = idx + 1;
        while k < end
            invariant
                n == hits@.len(),
                order@.len() == n,
                forall|p: int| 0 <= p < n ==> order@[p] < n,
                s == in_order(hits@, order@),
                idx < k <= end <= n,
                best == best_upto(s, idx as int, k as int),
                idx <= best < k,
            decreases end - k,
        {
            if hits[order[k]].distance_rank < hits[order[best]].distance_rank {
                best = k;
            }
            k += 1;
        }
        let ghost before = out@;
        out.push(order[best]);
        proof {
            let rest = touch_picks(s, end as int);
            assert(touch_picks(s, idx as int) == seq![best as int] + rest);
            assert((seq![best as int] + rest).map_values(|p: int| order@[p]) =~= seq![order@[best as int]]
                + rest.map_values(|p: int| order@[p]));
            assert(out@ + rest.map_values(|p: int| order@[p]) =~= before + touch_picks(s, idx as int).map_values(
                |p: int| order@[p],
            ));
        }
        idx = end;
    }
    assert(touch_picks(s, n as int) =~= Seq::<int>::empty());
    assert(out@ =~= all);
    assert(is_stable_order(hit_keys(hits@), order@) && out@ == kept_hits(hits@, order@));
    out
}

proof fn lemma_touch_picks_increasing(s: Seq<HitKey>, idx: int)
    ensures
        forall|a: int| 0 <= a < touch_picks(s, idx).len() ==> idx <= #[trigger] touch_picks(s, idx)[a] < s.len(),
        forall|a: int, b: int|
            0 <= a < b < touch_picks(s, idx).len() ==> #[trigger] touch_picks(s, idx)[a] < #[trigger] touch_picks(
                s,
                idx,
            )[b],
    decreases s.len() - idx,
{
    if 0 <= idx < s.len() {
        let end = touch_end(s, idx, idx + 1);
        lemma_touch_end_after(s, idx, idx + 1);
        lemma_touch_picks_increasing(s, end);
        lemma_best_in_range(s, idx, end);
        let rest = touch_picks(s, end);
        let all = touch_picks(s, idx);
        assert(all == seq![best_upto(s, idx, end)] + rest);
        assert forall|a: int| 0 <= a < all.len() implies idx <= #[trigger] all[a] < s.len() by {
            if a > 0 {
                assert(all[a] == rest[a - 1]);
            }
        }
        assert forall|a: int, b: int| 0 <= a < b < all.len() implies #[trigger] all[a] < #[trigger] all[b] by {
            assert(all[b] == rest[b - 1]);
            if a > 0 {
                assert(all[a] == rest[a - 1]);
            }
        }
    }
}

/// The kept hits come out in frame order.
pub proof fn law_kept_hits_in_frame_order(hits: Seq<HitKey>, order: Seq<usize>, p: int, q: int)
    requires
        is_stable_order(hit_keys(hits), order),
        0 <= p < q < kept_hits(hits, order).len(),
    ensures
        hits[kept_hits(hits, order)[p] as int].frame_number <= hits[kept_hits(hits, order)[q] as int].frame_number,
{
    let s = in_order(hits, order);
    lemma_touch_picks_increasing(s, 0);
    let picks = touch_picks(s, 0);
    let a = picks[p];
    let b = picks[q];
    assert(a < b);
    assert(0 <= a && b < s.len());
    let keys = hit_keys(hits);
    assert(placed_before(keys, order[a] as int, order[b] as int));
    assert(keys[order[a] as int] == hit_sort_key(hits[order[a] as int]));
    assert(keys[order[b] as int] == hit_sort_key(hits[order[b] as int]));
}

} // verus!
