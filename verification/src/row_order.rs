//! The order in which play-by-play rows and official stat credits are kept:
//! a stable sort on a key of two integers and two texts, texts compared the
//! way `String` compares them.
use vstd::prelude::*;
use crate::events::event_sort_priority;

verus! {

/// Looking from position `i` on (the two texts agreeing before it), `a`
/// comes strictly before `b`: at the first differing position `a` has the
/// smaller character, or `a` ends first.
pub open spec fn text_before_from(a: Seq<char>, b: Seq<char>, i: nat) -> bool
    decreases a.len() - i,
{
    if i >= a.len() {
        i < b.len()
    } else if i >= b.len() {
        false
    } else if a[i as int] != b[i as int] {
        a[i as int] < b[i as int]
    } else {
        text_before_from(a, b, i + 1)
    }
}

/// `a` comes strictly before `b` in lexicographic character order.
pub open spec fn text_before(a: Seq<char>, b: Seq<char>) -> bool {
    text_before_from(a, b, 0)
}

proof fn lemma_text_irreflexive(a: Seq<char>, i: nat)
    ensures
        !text_before_from(a, a, i),
    decreases a.len() - i,
{
    if i < a.len() {
        lemma_text_irreflexive(a, i + 1);
    }
}

proof fn lemma_text_total(a: Seq<char>, b: Seq<char>, i: nat)
    requires
        i <= a.len(),
        i <= b.len(),
    ensures
        text_before_from(a, b, i) || text_before_from(b, a, i) || (a.len() == b.len() && forall|j: int|
            i <= j < a.len() ==> a[j] == b[j]),
    decreases a.len() - i,
{
    if i < a.len() && i < b.len() && a[i as int] == b[i as int] {
        lemma_text_total(a, b, i + 1);
    }
}

proof fn lemma_text_asymmetric(a: Seq<char>, b: Seq<char>, i: nat)
    ensures
        !(text_before_from(a, b, i) && text_before_from(b, a, i)),
    decreases a.len() - i,
{
    if i < a.len() && i < b.len() && a[i as int] == b[i as int] {
        lemma_text_asymmetric(a, b, i + 1);
    }
}

proof fn lemma_text_transitive(a: Seq<char>, b: Seq<char>, c: Seq<char>, i: nat)
    requires
        text_before_from(a, b, i),
        text_before_from(b, c, i),
    ensures
        text_before_from(a, c, i),
    decreases a.len() - i,
{
    if i < a.len() && i < b.len() && i < c.len() && a[i as int] == b[i as int] && b[i as int]
        == c[i as int] {
        lemma_text_transitive(a, b, c, i + 1);
    }
}

/// Whether `a` comes strictly before `b` in lexicographic character order.
pub fn text_before_exec(a: &str, b: &str) -> (res: bool)
    ensures
        res == text_before(a@, b@),
{
    let n = a.unicode_len();
    let m = b.unicode_len();
    let mut i: usize = 0;
    while i < n && i < m
        invariant
            n == a@.len(),
            m == b@.len(),
            i <= n,
            i <= m,
            text_before_from(a@, b@, 0) == text_before_from(a@, b@, i as nat),
        decreases n - i,
    {
        let ca = a.get_char(i);
        let cb = b.get_char(i);
        if ca != cb {
            return ca < cb;
        }
        i = i + 1;
    }
    i >= n && i < m
}

/// A sort key: two integers, then two texts, compared in that order.
#[derive(Clone, Debug)]
pub struct RowSortKey {
    pub first: i32,
    pub second: i32,
    pub first_text: String,
    pub second_text: String,
}

/// What a key compares: its two integers and its two texts.
pub type KeyView = (i32, i32, Seq<char>, Seq<char>);

impl View for RowSortKey {
    type V = KeyView;

    open spec fn view(&self) -> KeyView {
        (self.first, self.second, self.first_text@, self.second_text@)
    }
}

/// Key `a` is strictly smaller than key `b`.
pub open spec fn key_before(a: KeyView, b: KeyView) -> bool {
    ||| a.0 < b.0
    ||| a.0 == b.0 && a.1 < b.1
    ||| a.0 == b.0 && a.1 == b.1 && text_before(a.2, b.2)
    ||| a.0 == b.0 && a.1 == b.1 && a.2 == b.2
        && text_before(a.3, b.3)
}

/// Keys `a` and `b` are equal.
pub open spec fn key_same(a: KeyView, b: KeyView) -> bool {
    &&& a.0 == b.0
    &&& a.1 == b.1
    &&& a.2 == b.2
    &&& a.3 == b.3
}

/// In a stable sort of `keys`, entry `i` is placed before entry `j`: its key
/// is smaller, or the keys are equal and it came first.
pub open spec fn placed_before(keys: Seq<KeyView>, i: int, j: int) -> bool {
    key_before(keys[i], keys[j]) || (key_same(keys[i], keys[j]) && i < j)
}

/// Each entry of `order` is placed before every later one.
pub open spec fn increasing_order(keys: Seq<KeyView>, order: Seq<usize>) -> bool {
    forall|p: int, q: int|
        0 <= p < q < order.len() ==> placed_before(keys, #[trigger] order[p] as int, #[trigger] order[q] as int)
}

/// `order` lists every index of `keys` once, in stable key order.
pub open spec fn is_stable_order(keys: Seq<KeyView>, order: Seq<usize>) -> bool {
    &&& order.len() == keys.len()
    &&& forall|p: int| 0 <= p < order.len() ==> order[p] < keys.len()
    &&& forall|x: usize| x < keys.len() ==> #[trigger] order.contains(x)
    &&& increasing_order(keys, order)
}

proof fn lemma_key_total(a: KeyView, b: KeyView)
    ensures
        key_before(a, b) || key_before(b, a) || key_same(a, b),
{
    lemma_text_total(a.2, b.2, 0);
    lemma_text_total(a.3, b.3, 0);
    if a.2.len() == b.2.len() && forall|j: int|
        0 <= j < a.2.len() ==> a.2[j] == b.2[j] {
        assert(a.2 =~= b.2);
    }
    if a.3.len() == b.3.len() && forall|j: int|
        0 <= j < a.3.len() ==> a.3[j] == b.3[j] {
        assert(a.3 =~= b.3);
    }
}

proof fn lemma_key_transitive(a: KeyView, b: KeyView, c: KeyView)
    requires
        key_before(a, b),
        key_before(b, c),
    ensures
        key_before(a, c),
{
    if text_before(a.2, b.2) && text_before(b.2, c.2) {
        lemma_text_transitive(a.2, b.2, c.2, 0);
    }
    if text_before(a.3, b.3) && text_before(b.3, c.3) {
        lemma_text_transitive(a.3, b.3, c.3, 0);
    }
}

proof fn lemma_key_asymmetric(a: KeyView, b: KeyView)
    ensures
        !(key_before(a, b) && key_before(b, a)),
        key_same(a, b) ==> !key_before(a, b),
{
    lemma_text_asymmetric(a.2, b.2, 0);
    lemma_text_asymmetric(a.3, b.3, 0);
    lemma_text_irreflexive(a.2, 0);
    lemma_text_irreflexive(a.3, 0);
}

proof fn lemma_placed_asymmetric(keys: Seq<KeyView>, i: int, j: int)
    ensures
        !(placed_before(keys, i, j) && placed_before(keys, j, i)),
{
    lemma_key_asymmetric(keys[i], keys[j]);
    lemma_key_asymmetric(keys[j], keys[i]);
}

proof fn lemma_increasing_orders_equal(keys: Seq<KeyView>, o1: Seq<usize>, o2: Seq<usize>)
    requires
        o1.len() == o2.len(),
        forall|x: usize| o1.contains(x) <==> o2.contains(x),
        increasing_order(keys, o1),
        increasing_order(keys, o2),
    ensures
        o1 == o2,
    decreases o1.len(),
{
    if o1.len() > 0 {
        let a = o1[0];
        let b = o2[0];
        if a != b {
            assert(o1.contains(a));
            assert(o2.contains(a));
            let q = choose|q: int| 0 <= q < o2.len() && o2[q] == a;
            assert(placed_before(keys, o2[0] as int, o2[q] as int));
            assert(o1.contains(b));
            let p = choose|p: int| 0 <= p < o1.len() && o1[p] == b;
            assert(placed_before(keys, o1[0] as int, o1[p] as int));
            lemma_placed_asymmetric(keys, a as int, b as int);
        }
        let r1 = o1.drop_first();
        let r2 = o2.drop_first();
        assert forall|x: usize| r1.contains(x) <==> r2.contains(x) by {
            if r1.contains(x) {
                let p = choose|p: int| 0 <= p < r1.len() && r1[p] == x;
                assert(o1[p + 1] == x);
                assert(o1.contains(x));
                let q = choose|q: int| 0 <= q < o2.len() && o2[q] == x;
                if q == 0 {
                    assert(placed_before(keys, o1[0] as int, o1[p + 1] as int));
                    lemma_placed_asymmetric(keys, x as int, x as int);
                }
                assert(r2[q - 1] == x);
            }
            if r2.contains(x) {
                let q = choose|q: int| 0 <= q < r2.len() && r2[q] == x;
                assert(o2[q + 1] == x);
                assert(o2.contains(x));
                let p = choose|p: int| 0 <= p < o1.len() && o1[p] == x;
                if p == 0 {
                    assert(placed_before(keys, o2[0] as int, o2[q + 1] as int));
                    lemma_placed_asymmetric(keys, x as int, x as int);
                }
                assert(r1[p - 1] == x);
            }
        }
        assert forall|p: int, q: int| 0 <= p < q < r1.len() implies placed_before(
            keys,
            #[trigger] r1[p] as int,
            #[trigger] r1[q] as int,
        ) by {
            assert(placed_before(keys, o1[p + 1] as int, o1[q + 1] as int));
        }
        assert forall|p: int, q: int| 0 <= p < q < r2.len() implies placed_before(
            keys,
            #[trigger] r2[p] as int,
            #[trigger] r2[q] as int,
        ) by {
            assert(placed_before(keys, o2[p + 1] as int, o2[q + 1] as int));
        }
        lemma_increasing_orders_equal(keys, r1, r2);
        assert forall|i: int| 0 <= i < o1.len() implies o1[i] == o2[i] by {
            if i > 0 {
                assert(o1[i] == r1[i - 1]);
                assert(o2[i] == r2[i - 1]);
            }
        }
        assert(o1 =~= o2);
    }
}

/// A stable sort has one outcome: two orders that are both stable orders of
/// the same keys are the same order.
pub proof fn law_stable_order_unique(keys: Seq<KeyView>, o1: Seq<usize>, o2: Seq<usize>)
    requires
        is_stable_order(keys, o1),
        is_stable_order(keys, o2),
    ensures
        o1 == o2,
{
    assert forall|x: usize| o1.contains(x) <==> o2.contains(x) by {
        if o1.contains(x) {
            let p = choose|p: int| 0 <= p < o1.len() && o1[p] == x;
            assert(o1[p] < keys.len());
        }
        if o2.contains(x) {
            let p = choose|p: int| 0 <= p < o2.len() && o2[p] == x;
            assert(o2[p] < keys.len());
        }
    }
    lemma_increasing_orders_equal(keys, o1, o2);
}

/// Whether key `a` is strictly smaller than key `b`.
pub fn key_before_exec(a: &RowSortKey, b: &RowSortKey) -> (res: bool)
    ensures
        res == key_before(a@, b@),
{
    if a.first != b.first {
        return a.first < b.first;
    }
    if a.second != b.second {
        return a.second < b.second;
    }
    if text_before_exec(a.first_text.as_str(), b.first_text.as_str()) {
        return true;
    }
    if text_before_exec(b.first_text.as_str(), a.first_text.as_str()) {
        proof {
            lemma_text_asymmetric(a.first_text@, b.first_text@, 0);
        }
        return false;
    }
    proof {
        lemma_text_total(a.first_text@, b.first_text@, 0);
        assert(a.first_text@ =~= b.first_text@);
    }
    text_before_exec(a.second_text.as_str(), b.second_text.as_str())
}

/// The indexes of `keys` in stable sort order: by key, and entries with equal
/// keys in the order they were given.
pub fn stable_order(keys: &[RowSortKey]) -> (order: Vec<usize>)
    ensures
        is_stable_order(keys@.map_values(|k: RowSortKey| k@), order@),
{
    let ghost views = keys@.map_values(|k: RowSortKey| k@);
    let n = keys.len();
    let mut order: Vec<usize> = Vec::new();
    let mut i: usize = 0;
    while i < n
        invariant
            n == keys@.len(),
            views == keys@.map_values(|k: RowSortKey| k@),
            i <= n,
            order@.len() == i,
            forall|p: int| 0 <= p < order@.len() ==> order@[p] < i,
            forall|x: usize| x < i ==> #[trigger] order@.contains(x),
            forall|p: int, q: int|
                0 <= p < q < order@.len() ==> placed_before(
                    views,
                    #[trigger] order@[p] as int,
                    #[trigger] order@[q] as int,
                ),
        decreases n - i,
    {
        let mut pos: usize = order.len();
        while pos > 0 && key_before_exec(&keys[i], &keys[order[pos - 1]])
            invariant
                n == keys@.len(),
                views == keys@.map_values(|k: RowSortKey| k@),
                i < n,
                order@.len() == i,
                pos <= order@.len(),
                forall|p: int| 0 <= p < order@.len() ==> order@[p] < i,
                forall|q: int| pos <= q < order@.len() ==> key_before(views[i as int], views[#[trigger] order@[q] as int]),
            decreases pos,
        {
            pos = pos - 1;
        }
        let ghost old_order = order@;
        proof {
            assert forall|q: int| 0 <= q < pos implies !key_before(views[i as int], views[#[trigger] old_order[q] as int]) by {
                let last = old_order[pos - 1] as int;
                assert(!key_before(views[i as int], views[last]));
                if q < pos - 1 {
                    assert(placed_before(views, old_order[q] as int, old_order[pos - 1] as int));
                    if key_before(views[i as int], views[old_order[q] as int]) {
                        if key_before(views[old_order[q] as int], views[last]) {
                            lemma_key_transitive(views[i as int], views[old_order[q] as int], views[last]);
                        }
                    }
                }
            }
        }
        order.insert(pos, i);
        proof {
            let ki = views[i as int];
            assert(order@ == old_order.insert(pos as int, i));
            assert forall|p: int, q: int|
                0 <= p < q < order@.len() implies placed_before(
                    views,
                    #[trigger] order@[p] as int,
                    #[trigger] order@[q] as int,
                ) by {
                if p < pos && q < pos {
                    assert(placed_before(views, old_order[p] as int, old_order[q] as int));
                } else if p < pos && q == pos {
                    let kp = views[old_order[p] as int];
                    assert(!key_before(ki, views[old_order[p] as int]));
                    lemma_key_total(kp, ki);
                } else if p < pos && q > pos {
                    assert(placed_before(views, old_order[p] as int, old_order[q - 1] as int));
                } else if p == pos {
                    assert(key_before(ki, views[old_order[q - 1] as int]));
                } else {
                    assert(placed_before(views, old_order[p - 1] as int, old_order[q - 1] as int));
                }
            }
            assert forall|x: usize| x < i + 1 implies #[trigger] order@.contains(x) by {
                if x == i {
                    assert(order@[pos as int] == x);
                } else {
                    assert(old_order.contains(x));
                    let w = choose|p: int| 0 <= p < old_order.len() && old_order[p] == x;
                    if w < pos {
                        assert(order@[w] == x);
                    } else {
                        assert(order@[w + 1] == x);
                    }
                }
            }
        }
        i = i + 1;
    }
    order
}

/// What the order of a play-by-play row depends on.
#[derive(Clone, Debug)]
pub struct PbpRowKey {
    /// The row's `observed_frame_number` value, where it holds an integer.
    pub observed_frame_number: Option<i32>,
    /// The frame the row was recorded at.
    pub frame_number: Option<i32>,
    /// The row's `frame_number` value, where it holds an integer.
    pub value_frame_number: Option<i32>,
    /// The row's event type.
    pub event_type: String,
}

/// The frame a row is sorted by: its observed frame, else its recorded
/// frame, else its `frame_number` value.
pub open spec fn sort_frame_of(row: PbpRowKey) -> Option<i32> {
    if row.observed_frame_number is Some {
        row.observed_frame_number
    } else if row.frame_number is Some {
        row.frame_number
    } else {
        row.value_frame_number
    }
}

/// The frame a row is sorted by.
pub fn sort_frame_number(row: &PbpRowKey) -> (res: Option<i32>)
    ensures
        res == sort_frame_of(*row),
{
    match row.observed_frame_number {
        Some(f) => Some(f),
        None => match row.frame_number {
            Some(f) => Some(f),
            None => row.value_frame_number,
        },
    }
}

/// The key a play-by-play row is sorted by: its frame (rows without one
/// last), kickoffs first within a frame, then the event type's text.
pub open spec fn pbp_key(row: PbpRowKey) -> KeyView {
    (
        match sort_frame_of(row) {
            Some(f) => f,
            None => i32::MAX,
        },
        if row.event_type@ == "kickoff"@ {
            0i32
        } else {
            1i32
        },
        row.event_type@,
        Seq::<char>::empty(),
    )
}

/// The order in which play-by-play rows are written: a stable sort by
/// frame, kickoffs first within a frame, then by event type.
pub fn sort_pbp_order(rows: &[PbpRowKey]) -> (order: Vec<usize>)
    ensures
        is_stable_order(rows@.map_values(|r: PbpRowKey| pbp_key(r)), order@),
{
    let n = rows.len();
    let mut keys: Vec<RowSortKey> = Vec::new();
    let mut j: usize = 0;
    while j < n
        invariant
            n == rows@.len(),
            j <= n,
            keys@.len() == j,
            forall|k: int| 0 <= k < j ==> (#[trigger] keys@[k])@ == pbp_key(rows@[k]),
        decreases n - j,
    {
        let row = &rows[j];
        let frame: i32 = match sort_frame_number(row) {
            Some(f) => f,
            None => i32::MAX,
        };
        let key = RowSortKey {
            first: frame,
            second: event_sort_priority(row.event_type.as_str()),
            first_text: row.event_type.clone(),
            second_text: String::new(),
        };
        assert(key@ =~= pbp_key(rows@[j as int]));
        keys.push(key);
        j = j + 1;
    }
    let order = stable_order(keys.as_slice());
    assert(keys@.map_values(|k: RowSortKey| k@) =~= rows@.map_values(|r: PbpRowKey| pbp_key(r)));
    order
}

/// The key of a `(frame, event type)` row when rows are regrouped after
/// post-processing: its frame (rows without one last), then its type.
pub open spec fn frame_type_key(row: (Option<i32>, String)) -> KeyView {
    (
        match row.0 {
            Some(f) => f,
            None => i32::MAX,
        },
        0i32,
        row.1@,
        Seq::<char>::empty(),
    )
}

/// The order of `(frame, event type)` rows after a stable sort by frame
/// (rows without one last) and then by event type.
pub fn frame_type_order(rows: &[(Option<i32>, String)]) -> (order: Vec<usize>)
    ensures
        is_stable_order(rows@.map_values(|r: (Option<i32>, String)| frame_type_key(r)), order@),
{
    let n = rows.len();
    let mut keys: Vec<RowSortKey> = Vec::new();
    let mut j: usize = 0;
    while j < n
        invariant
            n == rows@.len(),
            j <= n,
            keys@.len() == j,
            forall|k: int| 0 <= k < j ==> (#[trigger] keys@[k])@ == frame_type_key(rows@[k]),
        decreases n - j,
    {
        let frame: i32 = match rows[j].0 {
            Some(f) => f,
            None => i32::MAX,
        };
        let key = RowSortKey {
            first: frame,
            second: 0,
            first_text: rows[j].1.clone(),
            second_text: String::new(),
        };
        assert(key@ =~= frame_type_key(rows@[j as int]));
        keys.push(key);
        j = j + 1;
    }
    let order = stable_order(keys.as_slice());
    assert(keys@.map_values(|k: RowSortKey| k@) =~= rows@.map_values(
        |r: (Option<i32>, String)| frame_type_key(r),
    ));
    order
}

/// Play-by-play rows come out in frame order, rows without a frame last,
/// and within a frame kickoffs come before every other event.
pub proof fn law_pbp_rows_in_frame_order(rows: Seq<PbpRowKey>, order: Seq<usize>, p: int, q: int)
    requires
        is_stable_order(rows.map_values(|r: PbpRowKey| pbp_key(r)), order),
        0 <= p < q < order.len(),
    ensures
        pbp_key(rows[order[p] as int]).0 <= pbp_key(rows[order[q] as int]).0,
        pbp_key(rows[order[p] as int]).0 == pbp_key(rows[order[q] as int]).0
            && rows[order[q] as int].event_type@ == "kickoff"@ ==> rows[order[p] as int].event_type@
            == "kickoff"@,
{
    let keys = rows.map_values(|r: PbpRowKey| pbp_key(r));
    assert(placed_before(keys, order[p] as int, order[q] as int));
    assert(keys[order[p] as int] == pbp_key(rows[order[p] as int]));
    assert(keys[order[q] as int] == pbp_key(rows[order[q] as int]));
}

} // verus!
