//! Kickoff detection and the stints of play between a kickoff and the goal
//! or kickoff that ends it.
use vstd::prelude::*;
use std::collections::HashMap;
use crate::text::str_eq;
use crate::sorting::{distinct_sorted, strictly_increasing};

verus! {

broadcast use vstd::std_specs::hash::group_hash_axioms;

/// What the kickoff and stint logic reads of one frame.
#[derive(Clone, Copy, Debug, PartialEq, Eq, Structural)]
pub struct FrameFlags {
    pub frame_number: i32,
    /// Whether the ball rests at the kickoff spot; `None` when the frame has
    /// no ball state.
    pub ball_centered: Option<bool>,
    /// Whether some car with a position is moving or has boost, throttle or
    /// steering input.
    pub car_moving: bool,
}

/// A kickoff start is only counted this many frames after the previous one.
pub const KICKOFF_MIN_GAP_FRAMES: i32 = 300;

/// The kickoff detector's state after some frames.
pub struct KickoffScan {
    pub in_reset: bool,
    pub last_start: int,
    pub starts: Seq<i32>,
}

/// The kickoff detector after the first `n` frames: a kickoff starts on a
/// frame where the ball becomes centered, more than 300 frames after the
/// previous start; frames without a ball are skipped.
pub open spec fn kickoff_scan(frames: Seq<FrameFlags>, n: int) -> KickoffScan
    decreases n,
{
    if n <= 0 {
        KickoffScan { in_reset: false, last_start: -10_000, starts: Seq::empty() }
    } else {
        let s = kickoff_scan(frames, n - 1);
        let f = frames[n - 1];
        match f.ball_centered {
            None => s,
            Some(centered) => if centered && !s.in_reset && f.frame_number - s.last_start
                > KICKOFF_MIN_GAP_FRAMES {
                KickoffScan {
                    in_reset: centered,
                    last_start: f.frame_number as int,
                    starts: s.starts.push(f.frame_number),
                }
            } else {
                KickoffScan { in_reset: centered, ..s }
            },
        }
    }
}

/// Kickoff starts increase, each more than 300 frames after the one before.
pub open spec fn spaced(s: Seq<i32>) -> bool {
    forall|i: int, j: int| 0 <= i < j < s.len() ==> s[j] - s[i] > KICKOFF_MIN_GAP_FRAMES
}

proof fn lemma_scan_spaced(frames: Seq<FrameFlags>, n: int)
    requires
        0 <= n <= frames.len(),
    ensures
        spaced(kickoff_scan(frames, n).starts),
        kickoff_scan(frames, n).starts.len() > 0 ==> kickoff_scan(frames, n).last_start
            == kickoff_scan(frames, n).starts.last(),
    decreases n,
{
    if n > 0 {
        lemma_scan_spaced(frames, n - 1);
    }
}

/// The frames on which kickoffs start.
pub fn kickoff_start_frames_from_resets(frames: &[FrameFlags]) -> (res: Vec<i32>)
    ensures
        res@ == kickoff_scan(frames@, frames@.len() as int).starts,
        spaced(res@),
{
    let mut starts: Vec<i32> = Vec::new();
    let mut in_center_reset = false;
    let mut last_start: i64 = -10_000;
    let mut i: usize = 0;
    while i < frames.len()
        invariant
            i <= frames@.len(),
            ({
                let s = kickoff_scan(frames@, i as int);
                &&& s.in_reset == in_center_reset
                &&& s.last_start == last_start
                &&& s.starts == starts@
            }),
            i32::MIN <= last_start <= i32::MAX,
        decreases frames@.len() - i,
    {
        let f = frames[i];
        match f.ball_centered {
            None => {},
            Some(centered) => {
                if centered && !in_center_reset && f.frame_number as i64 - last_start > 300 {
                    starts.push(f.frame_number);
                    last_start = f.frame_number as i64;
                }
                in_center_reset = centered;
            },
        }
        i = i + 1;
    }
    proof {
        lemma_scan_spaced(frames@, frames@.len() as int);
    }
    starts
}

/// The first frame at or after index `i` in `[start, next_start)` with a
/// moving car.
pub open spec fn first_moving_from(frames: Seq<FrameFlags>, start: i32, next_start: i32, i: int) -> Option<i32>
    decreases frames.len() - i,
{
    if i < 0 || i >= frames.len() {
        None
    } else if start <= frames[i].frame_number < next_start && frames[i].car_moving {
        Some(frames[i].frame_number)
    } else {
        first_moving_from(frames, start, next_start, i + 1)
    }
}

/// The first frame of a kickoff window where some car moves: the moment the
/// kickoff countdown ends.
pub fn unfreeze_frame(frames: &[FrameFlags], start_frame: i32, next_start_frame: i32) -> (res: Option<i32>)
    ensures
        res == first_moving_from(frames@, start_frame, next_start_frame, 0),
{
    let mut i: usize = 0;
    while i < frames.len()
        invariant
            i <= frames@.len(),
            first_moving_from(frames@, start_frame, next_start_frame, i as int)
                == first_moving_from(frames@, start_frame, next_start_frame, 0),
        decreases frames@.len() - i,
    {
        let f = frames[i];
        if start_frame <= f.frame_number && f.frame_number < next_start_frame && f.car_moving {
            return Some(f.frame_number);
        }
        i = i + 1;
    }
    None
}

/// The earliest goal frame in `[lo, hi)` among the first `n` goals.
pub open spec fn earliest_goal(goals: Seq<i32>, lo: i32, hi: i32, n: int) -> Option<i32>
    decreases n,
{
    if n <= 0 {
        None
    } else {
        let rest = earliest_goal(goals, lo, hi, n - 1);
        let g = goals[n - 1];
        if lo <= g < hi {
            match rest {
                Some(m) => if g < m {
                    Some(g)
                } else {
                    Some(m)
                },
                None => Some(g),
            }
        } else {
            rest
        }
    }
}

fn earliest_goal_in(goal_frames: &[i32], lo: i32, hi: i32) -> (res: Option<i32>)
    ensures
        res == earliest_goal(goal_frames@, lo, hi, goal_frames@.len() as int),
{
    let mut best: Option<i32> = None;
    let mut i: usize = 0;
    while i < goal_frames.len()
        invariant
            i <= goal_frames@.len(),
            best == earliest_goal(goal_frames@, lo, hi, i as int),
        decreases goal_frames@.len() - i,
    {
        let g = goal_frames[i];
        if lo <= g && g < hi {
            best = match best {
                Some(m) => if g < m {
                    Some(g)
                } else {
                    Some(m)
                },
                None => Some(g),
            };
        }
        i = i + 1;
    }
    best
}

/// A stint of play: from the end of a kickoff countdown to the goal that
/// ends it, or to the frame before the next kickoff.
#[derive(Clone, Copy, Debug, PartialEq, Eq, Structural)]
pub struct StintWindow {
    pub number: i32,
    pub start_frame: i32,
    pub end_frame: i32,
}

/// The stints of a replay, numbered from 1 in order of play.
#[derive(Clone, Debug)]
pub struct EventModel {
    pub stints: Vec<StintWindow>,
}

/// The start of the kickoff after kickoff `k`, or `i32::MAX` for the last.
pub open spec fn next_start_of(starts: Seq<i32>, k: int) -> i32 {
    if k + 1 < starts.len() {
        starts[k + 1]
    } else {
        i32::MAX
    }
}

/// The stints opened by the first `k` kickoffs.
pub open spec fn stints_upto(starts: Seq<i32>, frames: Seq<FrameFlags>, goals: Seq<i32>, k: int) -> Seq<StintWindow>
    decreases k,
{
    if k <= 0 {
        Seq::empty()
    } else {
        let before = stints_upto(starts, frames, goals, k - 1);
        let next_start = next_start_of(starts, k - 1);
        let start = match first_moving_from(frames, starts[k - 1], next_start, 0) {
            Some(f) => f,
            None => starts[k - 1],
        };
        let end = match earliest_goal(goals, start, next_start, goals.len() as int) {
            Some(g) => g,
            None => if next_start == i32::MIN {
                i32::MIN
            } else {
                (next_start - 1) as i32
            },
        };
        if end >= start {
            before.push(StintWindow { number: (before.len() + 1) as i32, start_frame: start, end_frame: end })
        } else {
            before
        }
    }
}

proof fn lemma_spaced_growth(s: Seq<i32>, i: int)
    requires
        spaced(s),
        0 <= i < s.len(),
    ensures
        s[i] >= s[0] + 301 * i,
    decreases i,
{
    if i > 0 {
        lemma_spaced_growth(s, i - 1);
        assert(s[i] - s[i - 1] > KICKOFF_MIN_GAP_FRAMES);
    }
}

proof fn lemma_stints_count(starts: Seq<i32>, frames: Seq<FrameFlags>, goals: Seq<i32>, k: int)
    requires
        0 <= k <= starts.len(),
    ensures
        stints_upto(starts, frames, goals, k).len() <= k,
    decreases k,
{
    if k > 0 {
        lemma_stints_count(starts, frames, goals, k - 1);
    }
}

impl EventModel {
    /// Splits a replay into stints: one per kickoff, from the frame where a
    /// car first moves (or the kickoff frame) to the first goal before the
    /// next kickoff (or the frame before it).
    pub fn from_frames(frames: &[FrameFlags], goal_frames: &[i32]) -> (res: EventModel)
        ensures
            res.stints@ == stints_upto(
                kickoff_scan(frames@, frames@.len() as int).starts,
                frames@,
                goal_frames@,
                kickoff_scan(frames@, frames@.len() as int).starts.len() as int,
            ),
    {
        let kickoff_starts = kickoff_start_frames_from_resets(frames);
        let ghost starts = kickoff_starts@;
        let mut stints: Vec<StintWindow> = Vec::new();
        let mut idx: usize = 0;
        while idx < kickoff_starts.len()
            invariant
                starts == kickoff_starts@,
                spaced(starts),
                idx <= starts.len(),
                stints@ == stints_upto(starts, frames@, goal_frames@, idx as int),
            decreases starts.len() - idx,
        {
            proof {
                lemma_stints_count(starts, frames@, goal_frames@, idx as int);
                lemma_spaced_growth(starts, idx as int);
            }
            let next_start = if idx + 1 < kickoff_starts.len() {
                kickoff_starts[idx + 1]
            } else {
                i32::MAX
            };
            let start_frame = match unfreeze_frame(frames, kickoff_starts[idx], next_start) {
                Some(f) => f,
                None => kickoff_starts[idx],
            };
            let end_frame = match earliest_goal_in(goal_frames, start_frame, next_start) {
                Some(g) => g,
                None => if next_start == i32::MIN {
                    i32::MIN
                } else {
                    next_start - 1
                },
            };
            if end_frame >= start_frame {
                let number = stints.len() as i32 + 1;
                stints.push(StintWindow { number, start_frame, end_frame });
            }
            idx = idx + 1;
        }
        EventModel { stints }
    }
}


/// The number of the first stint at or after index `i` whose window holds
/// `frame`.
pub open spec fn stint_from(stints: Seq<StintWindow>, frame: i32, i: int) -> Option<i32>
    decreases stints.len() - i,
{
    if i < 0 || i >= stints.len() {
        None
    } else if stints[i].start_frame <= frame <= stints[i].end_frame {
        Some(stints[i].number)
    } else {
        stint_from(stints, frame, i + 1)
    }
}

/// The number of the first stint whose window holds `frame`.
pub open spec fn stint_of(stints: Seq<StintWindow>, frame: i32) -> Option<i32> {
    stint_from(stints, frame, 0)
}

/// The earliest kickoff frame of each stint among the first `n` rows, keyed
/// by stint number. Rows are `(event type, frame)`.
pub open spec fn kickoff_table(stints: Seq<StintWindow>, rows: Seq<(String, Option<i32>)>, n: int) -> Map<i32, i32>
    decreases n,
{
    if n <= 0 {
        Map::empty()
    } else {
        let t = kickoff_table(stints, rows, n - 1);
        let r = rows[n - 1];
        if r.0@ == "kickoff"@ && r.1 is Some && stint_of(stints, r.1.unwrap()) is Some {
            let s = stint_of(stints, r.1.unwrap()).unwrap();
            let f = r.1.unwrap();
            if t.contains_key(s) && t[s] <= f {
                t
            } else {
                t.insert(s, f)
            }
        } else {
            t
        }
    }
}

/// Event types that stay whatever stint they fall in.
pub open spec fn stint_independent(t: Seq<char>) -> bool {
    t == "demo"@ || t == "game-join"@ || t == "game-leave"@ || t == "respawn"@
}

/// What becomes of a row: `None` when it is dropped, else `Some` of the
/// stint number it is tagged with. A row stays when its type is
/// stint-independent, or when it falls in a stint that has a kickoff and it
/// is that kickoff or comes no earlier than the stint's first kickoff.
pub open spec fn row_fate(stints: Seq<StintWindow>, table: Map<i32, i32>, r: (String, Option<i32>)) -> Option<Option<i32>> {
    let kept = stint_independent(r.0@) || match r.1 {
        None => false,
        Some(f) => match stint_of(stints, f) {
            None => false,
            Some(s) => table.contains_key(s) && (r.0@ == "kickoff"@ || f >= table[s]),
        },
    };
    if !kept {
        None
    } else {
        Some(
            match r.1 {
                Some(f) => stint_of(stints, f),
                None => None,
            },
        )
    }
}

impl EventModel {
    /// The number of the first stint whose window holds `frame_number`.
    pub fn stint_number_for_frame(&self, frame_number: i32) -> (res: Option<i32>)
        ensures
            res == stint_of(self.stints@, frame_number),
    {
        let mut i: usize = 0;
        while i < self.stints.len()
            invariant
                i <= self.stints@.len(),
                stint_from(self.stints@, frame_number, i as int) == stint_of(self.stints@, frame_number),
            decreases self.stints@.len() - i,
        {
            let stint = self.stints[i];
            if frame_number >= stint.start_frame && frame_number <= stint.end_frame {
                return Some(stint.number);
            }
            i = i + 1;
        }
        None
    }

    /// The earliest kickoff frame of each stint, keyed by stint number.
    pub fn kickoff_frame_by_stint(&self, rows: &[(String, Option<i32>)]) -> (res: HashMap<i32, i32>)
        ensures
            res@ == kickoff_table(self.stints@, rows@, rows@.len() as int),
    {
        let mut output: HashMap<i32, i32> = HashMap::new();
        let mut i: usize = 0;
        while i < rows.len()
            invariant
                i <= rows@.len(),
                output@ == kickoff_table(self.stints@, rows@, i as int),
            decreases rows@.len() - i,
        {
            if str_eq(rows[i].0.as_str(), "kickoff") {
                if let Some(frame) = rows[i].1 {
                    if let Some(stint_number) = self.stint_number_for_frame(frame) {
                        let existing: Option<i32> = match output.get(&stint_number) {
                            Some(e) => Some(*e),
                            None => None,
                        };
                        match existing {
                            Some(e) => if frame < e {
                                output.insert(stint_number, frame);
                            },
                            None => {
                                output.insert(stint_number, frame);
                            },
                        }
                    }
                }
            }
            i = i + 1;
        }
        output
    }

    /// Decides, for each `(event type, frame)` row, whether it stays and
    /// which stint number it is tagged with; see `row_fate`.
    pub fn finalize_rows(&self, rows: &[(String, Option<i32>)]) -> (res: Vec<Option<Option<i32>>>)
        ensures
            res@.len() == rows@.len(),
            forall|i: int|
                0 <= i < rows@.len() ==> #[trigger] res@[i] == row_fate(
                    self.stints@,
                    kickoff_table(self.stints@, rows@, rows@.len() as int),
                    rows@[i],
                ),
    {
        let table = self.kickoff_frame_by_stint(rows);
        let mut out: Vec<Option<Option<i32>>> = Vec::new();
        let mut i: usize = 0;
        while i < rows.len()
            invariant
                i <= rows@.len(),
                table@ == kickoff_table(self.stints@, rows@, rows@.len() as int),
                out@.len() == i,
                forall|j: int|
                    0 <= j < i ==> #[trigger] out@[j] == row_fate(self.stints@, table@, rows@[j]),
            decreases rows@.len() - i,
        {
            let event_type = rows[i].0.as_str();
            let frame = rows[i].1;
            let stint = match frame {
                Some(f) => self.stint_number_for_frame(f),
                None => None,
            };
            let independent = str_eq(event_type, "demo") || str_eq(event_type, "game-join")
                || str_eq(event_type, "game-leave") || str_eq(event_type, "respawn");
            let kept = if independent {
                true
            } else {
                match (frame, stint) {
                    (Some(f), Some(s)) => match table.get(&s) {
                        Some(k) => str_eq(event_type, "kickoff") || f >= *k,
                        None => false,
                    },
                    _ => false,
                }
            };
            if kept {
                out.push(Some(stint));
            } else {
                out.push(None);
            }
            i = i + 1;
        }
        out
    }
}


/// A kickoff touch must come within this many frames of the kickoff start.
pub const POST_GOAL_KICKOFF_WINDOW_FRAMES: i32 = 600;

/// Frame `f` is within the kickoff window opening at `start`.
pub open spec fn in_kickoff_window(f: i32, start: i32) -> bool {
    f >= start && f - start <= POST_GOAL_KICKOFF_WINDOW_FRAMES
}

/// Among the first `n` touches, the index of the earliest one in the
/// window opening at `start`; the first such index when frames tie.
pub open spec fn first_touch_upto(frames: Seq<i32>, start: i32, n: int) -> Option<int>
    decreases n,
{
    if n <= 0 {
        None
    } else {
        let b = first_touch_upto(frames, start, n - 1);
        if in_kickoff_window(frames[n - 1], start) && (b is None || frames[n - 1] < frames[b.unwrap()]) {
            Some(n - 1)
        } else {
            b
        }
    }
}

/// The touches picked as kickoffs for the first `n` window starts: each
/// start picks its earliest touch, unless a touch on that frame was already
/// picked.
pub open spec fn kickoff_picks(frames: Seq<i32>, starts: Seq<i32>, n: int) -> Seq<int>
    decreases n,
{
    if n <= 0 {
        Seq::empty()
    } else {
        let before = kickoff_picks(frames, starts, n - 1);
        match first_touch_upto(frames, starts[n - 1], frames.len() as int) {
            Some(idx) => if exists|j: int| 0 <= j < before.len() && frames[#[trigger] before[j]] == frames[idx] {
                before
            } else {
                before.push(idx)
            },
            None => before,
        }
    }
}

/// The frame after a goal, held at `i32::MAX`.
pub open spec fn after_goal(g: i32) -> i32 {
    if g == i32::MAX {
        g
    } else {
        (g + 1) as i32
    }
}

/// The frames where a kickoff window opens: frame 0, each kickoff start,
/// and the frame after each goal.
pub open spec fn opens_kickoff_window(kickoff_starts: Seq<i32>, goal_frames: Seq<i32>, v: i32) -> bool {
    v == 0 || kickoff_starts.contains(v) || exists|j: int|
        0 <= j < goal_frames.len() && v == after_goal(#[trigger] goal_frames[j])
}

fn first_touch_in_window(frames: &[i32], start: i32) -> (res: Option<usize>)
    ensures
        match first_touch_upto(frames@, start, frames@.len() as int) {
            Some(i) => res is Some && res.unwrap() as int == i && i < frames@.len(),
            None => res is None,
        },
{
    let mut best: Option<usize> = None;
    let mut i: usize = 0;
    while i < frames.len()
        invariant
            i <= frames@.len(),
            match first_touch_upto(frames@, start, i as int) {
                Some(k) => best is Some && best.unwrap() as int == k && k < i,
                None => best is None,
            },
        decreases frames@.len() - i,
    {
        let f = frames[i];
        let in_window = f >= start && (f as i64) - (start as i64) <= 600;
        if in_window {
            match best {
                Some(b) => if f < frames[b] {
                    best = Some(i);
                },
                None => best = Some(i),
            }
        }
        i = i + 1;
    }
    best
}

/// The indices of the touches that are kickoffs, given the frame of each
/// touch, the kickoff starts and the goal frames.
pub fn kickoff_touch_event_indices(event_frames: &[i32], kickoff_starts: &[i32], goal_frames: &[i32]) -> (res: Vec<usize>)
    ensures
        exists|starts: Seq<i32>|
            {
                &&& strictly_increasing(starts)
                &&& forall|v: i32| #[trigger] starts.contains(v) <==> opens_kickoff_window(kickoff_starts@, goal_frames@, v)
                &&& res@.len() == kickoff_picks(event_frames@, starts, starts.len() as int).len()
                &&& forall|k: int|
                    0 <= k < res@.len() ==> #[trigger] res@[k] as int == kickoff_picks(
                        event_frames@,
                        starts,
                        starts.len() as int,
                    )[k]
            },
{
    let mut raw: Vec<i32> = Vec::new();
    raw.push(0);
    let mut i: usize = 0;
    while i < kickoff_starts.len()
        invariant
            i <= kickoff_starts@.len(),
            raw@ == seq![0i32] + kickoff_starts@.subrange(0, i as int),
        decreases kickoff_starts@.len() - i,
    {
        raw.push(kickoff_starts[i]);
        assert(raw@ =~= seq![0i32] + kickoff_starts@.subrange(0, i + 1));
        i = i + 1;
    }
    let ghost base = raw@;
    assert(base =~= seq![0i32] + kickoff_starts@);
    let mut j: usize = 0;
    while j < goal_frames.len()
        invariant
            j <= goal_frames@.len(),
            base == seq![0i32] + kickoff_starts@,
            raw@.len() == base.len() + j,
            forall|k: int| 0 <= k < base.len() ==> raw@[k] == base[k],
            forall|k: int| 0 <= k < j ==> raw@[base.len() + k] == after_goal(#[trigger] goal_frames@[k]),
        decreases goal_frames@.len() - j,
    {
        let g = goal_frames[j];
        let next = if g == i32::MAX {
            g
        } else {
            g + 1
        };
        raw.push(next);
        j = j + 1;
    }
    proof {
        assert forall|v: i32| raw@.contains(v) <==> opens_kickoff_window(kickoff_starts@, goal_frames@, v) by {
            if raw@.contains(v) {
                let k = choose|k: int| 0 <= k < raw@.len() && raw@[k] == v;
                if k >= base.len() {
                    assert(v == after_goal(goal_frames@[k - base.len()]));
                } else if k > 0 {
                    assert(raw@[k] == base[k]);
                    assert(base[k] == kickoff_starts@[k - 1]);
                } else {
                    assert(raw@[0] == base[0]);
                    assert(base[0] == 0);
                }
            }
            if v == 0 {
                assert(raw@[0] == base[0]);
                assert(base[0] == 0);
            }
            if kickoff_starts@.contains(v) {
                let k = choose|k: int| 0 <= k < kickoff_starts@.len() && kickoff_starts@[k] == v;
                assert(raw@[k + 1] == base[k + 1]);
                assert(base[k + 1] == kickoff_starts@[k]);
            }
            if exists|m: int| 0 <= m < goal_frames@.len() && v == after_goal(#[trigger] goal_frames@[m]) {
                let m = choose|m: int| 0 <= m < goal_frames@.len() && v == after_goal(#[trigger] goal_frames@[m]);
                assert(raw@[base.len() + m] == v);
            }
        }
    }
    let starts = distinct_sorted(raw.as_slice());
    let mut picks: Vec<usize> = Vec::new();
    let mut n: usize = 0;
    while n < starts.len()
        invariant
            n <= starts@.len(),
            picks@.len() == kickoff_picks(event_frames@, starts@, n as int).len(),
            forall|k: int|
                0 <= k < picks@.len() ==> #[trigger] picks@[k] as int == kickoff_picks(
                    event_frames@,
                    starts@,
                    n as int,
                )[k],
            forall|k: int| 0 <= k < picks@.len() ==> #[trigger] picks@[k] < event_frames@.len(),
        decreases starts@.len() - n,
    {
        let ghost before = kickoff_picks(event_frames@, starts@, n as int);
        match first_touch_in_window(event_frames, starts[n]) {
            Some(idx) => {
                let mut used = false;
                let mut k: usize = 0;
                while k < picks.len() && !used
                    invariant
                        k <= picks@.len(),
                        idx < event_frames@.len(),
                        picks@.len() == before.len(),
                        forall|m: int| 0 <= m < picks@.len() ==> #[trigger] picks@[m] as int == before[m],
                        forall|m: int| 0 <= m < picks@.len() ==> #[trigger] picks@[m] < event_frames@.len(),
                        !used ==> forall|m: int|
                            0 <= m < k ==> event_frames@[#[trigger] before[m]] != event_frames@[idx as int],
                        used ==> exists|m: int|
                            0 <= m < before.len() && event_frames@[#[trigger] before[m]] == event_frames@[idx as int],
                    decreases picks@.len() - k,
                {
                    if event_frames[picks[k]] == event_frames[idx] {
                        used = true;
                        assert(event_frames@[before[k as int]] == event_frames@[idx as int]);
                    }
                    k = k + 1;
                }
                if !used {
                    picks.push(idx);
                }
                proof {
                    let after = kickoff_picks(event_frames@, starts@, n + 1);
                    if used {
                        assert(after == before);
                    } else {
                        assert(after == before.push(idx as int));
                    }
                }
            },
            None => {},
        }
        n = n + 1;
    }
    picks
}


/// Stints are numbered 1, 2, ... in order, each window is non-empty, and
/// every window ends before the next one starts.
pub open spec fn stints_ordered(s: Seq<StintWindow>) -> bool {
    &&& forall|i: int| 0 <= i < s.len() ==> (#[trigger] s[i]).number == i + 1 && s[i].start_frame <= s[i].end_frame
    &&& forall|i: int, j: int| 0 <= i < j < s.len() ==> (#[trigger] s[i]).end_frame < (#[trigger] s[j]).start_frame
}

proof fn lemma_first_moving_in_window(frames: Seq<FrameFlags>, start: i32, next_start: i32, i: int)
    ensures
        first_moving_from(frames, start, next_start, i) matches Some(f) ==> start <= f < next_start,
    decreases frames.len() - i,
{
    if 0 <= i < frames.len() {
        lemma_first_moving_in_window(frames, start, next_start, i + 1);
    }
}

proof fn lemma_earliest_goal_in_window(goals: Seq<i32>, lo: i32, hi: i32, n: int)
    ensures
        earliest_goal(goals, lo, hi, n) matches Some(g) ==> lo <= g < hi,
    decreases n,
{
    if n > 0 {
        lemma_earliest_goal_in_window(goals, lo, hi, n - 1);
    }
}

proof fn lemma_stints_upto_ordered(starts: Seq<i32>, frames: Seq<FrameFlags>, goals: Seq<i32>, k: int)
    requires
        spaced(starts),
        0 <= k <= starts.len(),
    ensures
        stints_ordered(stints_upto(starts, frames, goals, k)),
        k >= 1 ==> forall|i: int|
            0 <= i < stints_upto(starts, frames, goals, k).len() ==> (#[trigger] stints_upto(
                starts,
                frames,
                goals,
                k,
            )[i]).end_frame < next_start_of(starts, k - 1),
    decreases k,
{
    if k > 0 {
        lemma_stints_upto_ordered(starts, frames, goals, k - 1);
        let before = stints_upto(starts, frames, goals, k - 1);
        let next_start = next_start_of(starts, k - 1);
        lemma_first_moving_in_window(frames, starts[k - 1], next_start, 0);
        let start = match first_moving_from(frames, starts[k - 1], next_start, 0) {
            Some(f) => f,
            None => starts[k - 1],
        };
        lemma_earliest_goal_in_window(goals, start, next_start, goals.len() as int);
        lemma_stints_count(starts, frames, goals, k - 1);
        lemma_spaced_growth(starts, k - 1);
        if k < starts.len() {
            assert(starts[k] - starts[k - 1] > KICKOFF_MIN_GAP_FRAMES);
        }
        assert(next_start >= starts[k - 1]);
        assert(start >= starts[k - 1]);
        if k >= 2 {
            assert(next_start_of(starts, k - 2) == starts[k - 1]);
        }
        let after = stints_upto(starts, frames, goals, k);
        assert forall|i: int| 0 <= i < after.len() implies (#[trigger] after[i]).end_frame < next_start by {
            if i < before.len() {
                assert(after[i] == before[i]);
            }
        }
        assert forall|i: int| 0 <= i < after.len() implies (#[trigger] after[i]).number == i + 1
            && after[i].start_frame <= after[i].end_frame by {
            if i < before.len() {
                assert(after[i] == before[i]);
            }
        }
        assert forall|i: int, j: int| 0 <= i < j < after.len() implies (#[trigger] after[i]).end_frame < (
        #[trigger] after[j]).start_frame by {
            if j < before.len() {
                assert(after[i] == before[i] && after[j] == before[j]);
            } else {
                assert(after[i] == before[i]);
                assert(before[i].end_frame < starts[k - 1]);
            }
        }
    }
}

/// The stints of a replay are numbered 1, 2, ... in order of play, and
/// their windows are non-empty and disjoint.
pub proof fn law_stints_ordered(frames: Seq<FrameFlags>, goal_frames: Seq<i32>)
    ensures
        stints_ordered(
            stints_upto(
                kickoff_scan(frames, frames.len() as int).starts,
                frames,
                goal_frames,
                kickoff_scan(frames, frames.len() as int).starts.len() as int,
            ),
        ),
{
    lemma_scan_spaced(frames, frames.len() as int);
    let starts = kickoff_scan(frames, frames.len() as int).starts;
    lemma_stints_upto_ordered(starts, frames, goal_frames, starts.len() as int);
}

/// In ordered stints, a frame inside stint `i`'s window is given stint
/// number `i + 1`.
pub proof fn law_stint_of_containing(stints: Seq<StintWindow>, frame: i32, i: int)
    requires
        stints_ordered(stints),
        0 <= i < stints.len(),
        stints[i].start_frame <= frame <= stints[i].end_frame,
    ensures
        stint_of(stints, frame) == Some((i + 1) as i32),
{
    lemma_stint_from_skips(stints, frame, i, 0);
}

proof fn lemma_stint_from_skips(stints: Seq<StintWindow>, frame: i32, i: int, m: int)
    requires
        stints_ordered(stints),
        0 <= m <= i < stints.len(),
        stints[i].start_frame <= frame <= stints[i].end_frame,
    ensures
        stint_from(stints, frame, m) == Some((i + 1) as i32),
    decreases i - m,
{
    if m < i {
        assert(stints[m].end_frame < stints[i].start_frame);
        lemma_stint_from_skips(stints, frame, i, m + 1);
    }
}

/// The touches picked as kickoffs are on pairwise different frames.
pub proof fn law_kickoff_picks_distinct_frames(frames: Seq<i32>, starts: Seq<i32>, n: int)
    ensures
        forall|a: int, b: int|
            0 <= a < b < kickoff_picks(frames, starts, n).len() ==> frames[#[trigger] kickoff_picks(
                frames,
                starts,
                n,
            )[a]] != frames[#[trigger] kickoff_picks(frames, starts, n)[b]],
    decreases n,
{
    if n > 0 {
        law_kickoff_picks_distinct_frames(frames, starts, n - 1);
        let before = kickoff_picks(frames, starts, n - 1);
        let after = kickoff_picks(frames, starts, n);
        assert forall|a: int, b: int| 0 <= a < b < after.len() implies frames[#[trigger] after[a]]
            != frames[#[trigger] after[b]] by {
            if b < before.len() {
                assert(after[a] == before[a] && after[b] == before[b]);
            } else {
                assert(after[a] == before[a]);
            }
        }
    }
}

} // verus!
