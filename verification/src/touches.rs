//! Ball-touch indexes and the touch windows that rule out a whiff.
use vstd::prelude::*;
use vstd::hash_map::StringHashMap;
use crate::sorting::{first_above, first_at_least, insert_sorted, sorted};
use crate::text::str_eq;

verus! {

broadcast use vstd::seq_lib::group_to_multiset_ensures;

/// A whiff is ruled out by any touch within this many frames.
pub const WHIFF_ANY_TOUCH_EXCLUSION_FRAMES: i32 = 1;

/// A whiff is ruled out by the same player's touch within this many frames.
pub const WHIFF_TOUCH_EXCLUSION_FRAMES: i32 = 10;

/// A whiff is ruled out when the same player makes the next touch within
/// this many frames.
pub const WHIFF_DIRECT_TOUCH_WINDOW_FRAMES: i32 = 90;

/// A whiff stands only when another player touches the ball within this
/// many frames after it.
pub const WHIFF_NEXT_TOUCH_FRAMES: i32 = 120;

/// Some frame of `frames` lies in `[frame_number - window, frame_number + window]`.
pub open spec fn has_frame_within(frames: Seq<i32>, frame_number: int, window: int) -> bool {
    exists|j: int|
        0 <= j < frames.len() && frame_number - window <= #[trigger] frames[j] <= frame_number
            + window
}

/// Whether a sorted list of frames has one within `window_frames` of
/// `frame_number`.
pub fn frame_near(frames: &[i32], frame_number: i32, window_frames: i32) -> (res: bool)
    requires
        sorted(frames@),
        i32::MIN <= frame_number - window_frames <= i32::MAX,
        i32::MIN <= frame_number + window_frames <= i32::MAX,
    ensures
        res == has_frame_within(frames@, frame_number as int, window_frames as int),
{
    if frames.len() == 0 {
        return false;
    }
    let lower = frame_number - window_frames;
    let upper = frame_number + window_frames;
    let idx = first_at_least(frames, lower);
    if idx < frames.len() && frames[idx] <= upper {
        return true;
    }
    proof {
        assert forall|j: int| 0 <= j < frames@.len() implies !(lower <= #[trigger] frames@[j]
            <= upper) by {
            if j >= idx {
                assert(frames@[j] >= frames@[idx as int]);
            }
        }
    }
    false
}

/// The frames of the touches of one player, in list order.
pub open spec fn player_frames(touches: Seq<(i32, String)>, name: Seq<char>) -> Seq<i32>
    decreases touches.len(),
{
    if touches.len() == 0 {
        Seq::empty()
    } else if touches.last().1@ == name {
        player_frames(touches.drop_last(), name).push(touches.last().0)
    } else {
        player_frames(touches.drop_last(), name)
    }
}

/// The frames of all touches, in list order.
pub open spec fn touch_frames(touches: Seq<(i32, String)>) -> Seq<i32> {
    touches.map_values(|t: (i32, String)| t.0)
}

/// The touch index: all touch frames sorted, and each player's touch frames
/// sorted under the player's name.
pub open spec fn indexes_touches(
    touches: Seq<(i32, String)>,
    all: Seq<i32>,
    by_player: Map<Seq<char>, Vec<i32>>,
) -> bool {
    &&& sorted(all)
    &&& all.to_multiset() == touch_frames(touches).to_multiset()
    &&& forall|name: Seq<char>| #[trigger]
        by_player.contains_key(name) <==> player_frames(touches, name).len() > 0
    &&& forall|name: Seq<char>| #[trigger]
        by_player.contains_key(name) ==> sorted(by_player[name]@) && by_player[name]@.to_multiset()
            == player_frames(touches, name).to_multiset()
}

fn copy_frames(v: &Vec<i32>) -> (res: Vec<i32>)
    ensures
        res@ == v@,
{
    let mut out: Vec<i32> = Vec::new();
    let mut i: usize = 0;
    while i < v.len()
        invariant
            i <= v@.len(),
            out@ == v@.subrange(0, i as int),
        decreases v@.len() - i,
    {
        out.push(v[i]);
        assert(out@ =~= v@.subrange(0, i + 1));
        i = i + 1;
    }
    assert(v@.subrange(0, v@.len() as int) =~= v@);
    out
}

/// Builds the touch index from `(frame, player name)` pairs of ball touches.
pub fn touch_frame_indexes(touches: &[(i32, String)]) -> (res: (Vec<i32>, StringHashMap<Vec<i32>>))
    ensures
        indexes_touches(touches@, res.0@, res.1@),
{
    let mut all: Vec<i32> = Vec::new();
    let mut by_player: StringHashMap<Vec<i32>> = StringHashMap::new();
    let mut i: usize = 0;
    proof {
        let empty = touches@.subrange(0, 0);
        assert(touch_frames(empty) =~= Seq::<i32>::empty());
        assert(all@ =~= Seq::<i32>::empty());
        assert(all@.to_multiset() =~= touch_frames(empty).to_multiset());
        assert forall|n: Seq<char>| #[trigger]
            by_player@.contains_key(n) <==> player_frames(empty, n).len() > 0 by {
            assert(empty.len() == 0);
        }
    }
    while i < touches.len()
        invariant
            i <= touches@.len(),
            indexes_touches(touches@.subrange(0, i as int), all@, by_player@),
        decreases touches@.len() - i,
    {
        let ghost prefix = touches@.subrange(0, i as int);
        let ghost next = touches@.subrange(0, i + 1);
        assert(next.drop_last() =~= prefix);
        assert(next.last() == touches@[i as int]);
        let frame = touches[i].0;
        let name = &touches[i].1;
        insert_sorted(&mut all, frame);
        assert(touch_frames(next) =~= touch_frames(prefix).push(frame));
        let mut frames = match by_player.get(name.as_str()) {
            Some(v) => copy_frames(v),
            None => Vec::new(),
        };
        let ghost old_map = by_player@;
        proof {
            if !old_map.contains_key(name@) {
                assert(player_frames(prefix, name@).len() == 0);
                assert(player_frames(prefix, name@) =~= Seq::<i32>::empty());
            }
        }
        insert_sorted(&mut frames, frame);
        by_player.insert(name.clone(), frames);
        proof {
            assert forall|n: Seq<char>| #[trigger]
                by_player@.contains_key(n) <==> player_frames(next, n).len() > 0 by {
                if n != name@ {
                    assert(player_frames(next, n) == player_frames(prefix, n));
                }
            }
            assert forall|n: Seq<char>| #[trigger] by_player@.contains_key(n) implies sorted(
                by_player@[n]@,
            ) && by_player@[n]@.to_multiset() == player_frames(next, n).to_multiset() by {
                if n != name@ {
                    assert(player_frames(next, n) == player_frames(prefix, n));
                }
            }
        }
        i = i + 1;
    }
    assert(touches@.subrange(0, touches@.len() as int) =~= touches@);
    (all, by_player)
}

/// Whether a touch rules out a whiff at `frame_number`: any touch within one
/// frame, or a touch by the same player within ten frames.
pub fn whiff_has_near_touch_from_indexes(
    all_touch_frames: &[i32],
    player_touch_frames: &StringHashMap<Vec<i32>>,
    frame_number: i32,
    player_name: &str,
) -> (res: bool)
    requires
        sorted(all_touch_frames@),
        forall|name: Seq<char>| #[trigger]
            player_touch_frames@.contains_key(name) ==> sorted(player_touch_frames@[name]@),
        i32::MIN + WHIFF_TOUCH_EXCLUSION_FRAMES <= frame_number,
        frame_number <= i32::MAX - WHIFF_TOUCH_EXCLUSION_FRAMES,
    ensures
        res == (has_frame_within(
            all_touch_frames@,
            frame_number as int,
            WHIFF_ANY_TOUCH_EXCLUSION_FRAMES as int,
        ) || (player_touch_frames@.contains_key(player_name@) && has_frame_within(
            player_touch_frames@[player_name@]@,
            frame_number as int,
            WHIFF_TOUCH_EXCLUSION_FRAMES as int,
        ))),
{
    if frame_near(all_touch_frames, frame_number, WHIFF_ANY_TOUCH_EXCLUSION_FRAMES) {
        return true;
    }
    match player_touch_frames.get(player_name) {
        Some(frames) => frame_near(frames.as_slice(), frame_number, WHIFF_TOUCH_EXCLUSION_FRAMES),
        None => false,
    }
}

/// Whether the next touch after `frame_number` comes within the direct-touch
/// window and is by `player_name`. The touches are sorted by frame.
pub fn next_direct_touch_by_player(
    touch_events: &[(i32, &str)],
    frame_number: i32,
    player_name: &str,
) -> (res: bool)
    requires
        forall|i: int, j: int|
            0 <= i <= j < touch_events@.len() ==> touch_events@[i].0 <= touch_events@[j].0,
    ensures
        res == exists|j: int|
            0 <= j < touch_events@.len() && #[trigger] touch_events@[j].0 > frame_number && (
            forall|k: int| 0 <= k < j ==> touch_events@[k].0 <= frame_number)
                && touch_events@[j].0 - frame_number <= WHIFF_DIRECT_TOUCH_WINDOW_FRAMES
                && touch_events@[j].1@ == player_name@,
{
    let mut lo: usize = 0;
    let mut hi: usize = touch_events.len();
    while lo < hi
        invariant
            lo <= hi <= touch_events@.len(),
            forall|i: int, j: int|
                0 <= i <= j < touch_events@.len() ==> touch_events@[i].0 <= touch_events@[j].0,
            forall|k: int| 0 <= k < lo ==> touch_events@[k].0 <= frame_number,
            forall|k: int| hi <= k < touch_events@.len() ==> touch_events@[k].0 > frame_number,
        decreases hi - lo,
    {
        let mid = lo + (hi - lo) / 2;
        if touch_events[mid].0 <= frame_number {
            lo = mid + 1;
        } else {
            hi = mid;
        }
    }
    if lo >= touch_events.len() {
        return false;
    }
    let (touch_frame, touch_player) = touch_events[lo];
    assert(touch_events@[lo as int].0 > frame_number);
    let res = (touch_frame as i64) - (frame_number as i64) <= WHIFF_DIRECT_TOUCH_WINDOW_FRAMES as i64 && str_eq(
        touch_player,
        player_name,
    );
    proof {
        if !res {
            assert forall|j: int|
                0 <= j < touch_events@.len() && #[trigger] touch_events@[j].0 > frame_number && (
                forall|k: int| 0 <= k < j ==> touch_events@[k].0 <= frame_number) implies j
                == lo by {
                if j < lo {
                } else if j > lo {
                    assert(touch_events@[lo as int].0 <= frame_number);
                }
            }
        }
    }
    res
}

/// Another player than `player_name` touches the ball after `frame_number`
/// and within the next-touch window.
pub open spec fn other_player_touches_after(touches: Seq<(i32, &str)>, frame_number: i32, player_name: Seq<char>) -> bool {
    exists|j: int|
        0 <= j < touches.len() && #[trigger] touches[j].1@ != player_name && frame_number < touches[j].0
            <= frame_number + WHIFF_NEXT_TOUCH_FRAMES
}

/// Whether another player touches the ball within 120 frames after a whiff
/// at `frame_number` by `player_name`; a whiff without such a touch is
/// dropped.
pub fn whiff_followed_by_other_touch(touches: &[(i32, &str)], frame_number: i32, player_name: &str) -> (res: bool)
    ensures
        res == other_player_touches_after(touches@, frame_number, player_name@),
{
    let mut j: usize = 0;
    while j < touches.len()
        invariant
            j <= touches@.len(),
            forall|k: int|
                0 <= k < j ==> !(#[trigger] touches@[k].1@ != player_name@ && frame_number < touches@[k].0
                    <= frame_number + WHIFF_NEXT_TOUCH_FRAMES),
        decreases touches.len() - j,
    {
        let (f, who) = touches[j];
        if !str_eq(who, player_name) && frame_number < f && (f as i64) <= (frame_number as i64) + 120 {
            assert(touches@[j as int].1@ != player_name@);
            return true;
        }
        j += 1;
    }
    false
}

} // verus!
