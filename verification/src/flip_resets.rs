//! Flip resets: a car in the air regains its dodge by touching something.
use vstd::prelude::*;

verus! {

/// What a car touched to regain its dodge.
#[derive(Clone, Copy, Debug, PartialEq, Eq, Structural)]
pub enum ResetOrigin {
    Ball,
    Opponent,
    Teammate,
}

/// The name of a reset origin.
pub open spec fn origin_text(o: ResetOrigin) -> Seq<char> {
    match o {
        ResetOrigin::Ball => "ball"@,
        ResetOrigin::Opponent => "opponent"@,
        ResetOrigin::Teammate => "teammate"@,
    }
}

/// The name of a reset origin.
pub fn origin_name(o: ResetOrigin) -> (res: &'static str)
    ensures
        res@ == origin_text(o),
{
    match o {
        ResetOrigin::Ball => "ball",
        ResetOrigin::Opponent => "opponent",
        ResetOrigin::Teammate => "teammate",
    }
}

/// A player's dodge counters in one frame, with what the car's position
/// shows.
#[derive(Clone, Copy, Debug, PartialEq, Eq, Structural)]
pub struct ResetSample {
    pub dodge_air_count: Option<i32>,
    pub double_jump_air_count: Option<i32>,
    pub refreshed_counter: Option<i32>,
    /// The car has a position at least 120 uu up.
    pub high_enough: bool,
    /// What the car touched close enough to get a reset, if anything.
    pub contact: Option<ResetOrigin>,
}

/// The counters of every player slot in one frame.
#[derive(Clone, Debug)]
pub struct ResetFrame {
    pub frame_number: i32,
    /// One entry per player slot; `None` when the player has no car state.
    pub players: Vec<Option<ResetSample>>,
}

/// A detected flip reset.
#[derive(Clone, Debug)]
pub struct FlipResetEvent {
    pub frame_number: i32,
    pub player_name: String,
    pub reset_origin: &'static str,
}

/// A flip reset is counted only more than this many frames after the
/// player's previous one.
pub const FLIP_RESET_FRAME_WINDOW: i32 = 30;

/// What the detector remembers of one player between frames.
pub struct ResetTrack {
    pub prev_dodge: Option<i32>,
    pub prev_double_jump: Option<i32>,
    pub prev_refreshed: Option<i32>,
    pub last_reset: int,
}

/// The detector's memory before the first frame.
pub open spec fn initial_reset_track() -> ResetTrack {
    ResetTrack { prev_dodge: None, prev_double_jump: None, prev_refreshed: None, last_reset: -10_000 }
}

/// The readings of player `p` in a frame; a missing slot reads as `None`.
pub open spec fn reset_sample_at(frame: ResetFrame, p: int) -> Option<ResetSample> {
    if 0 <= p < frame.players@.len() {
        frame.players@[p]
    } else {
        None
    }
}

/// An air counter dropped from positive to zero.
pub open spec fn counter_reset(current: Option<i32>, previous: Option<i32>) -> bool {
    current is Some && previous is Some && previous.unwrap() > 0 && current.unwrap() == 0
}

/// The dodge was regained: an air counter reset, or the refresh counter
/// rose.
pub open spec fn refreshed(t: ResetTrack, s: ResetSample) -> bool {
    ||| counter_reset(s.dodge_air_count, t.prev_dodge)
    ||| counter_reset(s.double_jump_air_count, t.prev_double_jump)
    ||| (s.refreshed_counter is Some && t.prev_refreshed is Some && s.refreshed_counter.unwrap()
        > t.prev_refreshed.unwrap())
}

/// The origin of a flip reset of a player in a frame, if one is counted:
/// the dodge was regained high enough, more than 30 frames after the
/// player's last reset, with a qualifying contact.
pub open spec fn reset_in_frame(t: ResetTrack, frame_number: i32, sample: Option<ResetSample>) -> Option<ResetOrigin> {
    match sample {
        None => None,
        Some(s) => if refreshed(t, s) && s.high_enough && frame_number - t.last_reset > FLIP_RESET_FRAME_WINDOW {
            s.contact
        } else {
            None
        },
    }
}

/// A counter remembered after a frame: the new reading, or the old one
/// when the frame has none.
pub open spec fn keep_reading(current: Option<i32>, previous: Option<i32>) -> Option<i32> {
    if current is Some {
        current
    } else {
        previous
    }
}

/// What the detector remembers after a frame.
pub open spec fn reset_step(t: ResetTrack, frame_number: i32, sample: Option<ResetSample>) -> ResetTrack {
    match sample {
        None => ResetTrack { prev_dodge: None, prev_double_jump: None, prev_refreshed: None, ..t },
        Some(s) => ResetTrack {
            prev_dodge: keep_reading(s.dodge_air_count, t.prev_dodge),
            prev_double_jump: keep_reading(s.double_jump_air_count, t.prev_double_jump),
            prev_refreshed: keep_reading(s.refreshed_counter, t.prev_refreshed),
            last_reset: if reset_in_frame(t, frame_number, sample) is Some {
                frame_number as int
            } else {
                t.last_reset
            },
        },
    }
}

/// What the detector remembers of player `p` after the first `n` frames.
pub open spec fn reset_track_after(frames: Seq<ResetFrame>, p: int, n: int) -> ResetTrack
    decreases n,
{
    if n <= 0 {
        initial_reset_track()
    } else {
        reset_step(
            reset_track_after(frames, p, n - 1),
            frames[n - 1].frame_number,
            reset_sample_at(frames[n - 1], p),
        )
    }
}

/// A flip reset as `(frame number, player slot, origin)`.
pub type ResetView = (i32, int, ResetOrigin);

/// The flip reset of player `p` in frame `n`, if any.
pub open spec fn reset_of(frames: Seq<ResetFrame>, p: int, n: int) -> Option<ResetView> {
    match reset_in_frame(reset_track_after(frames, p, n), frames[n].frame_number, reset_sample_at(frames[n], p)) {
        Some(o) => Some((frames[n].frame_number, p, o)),
        None => None,
    }
}

/// The flip resets of players `0..q` in frame `n`, in slot order.
pub open spec fn resets_in_frame(frames: Seq<ResetFrame>, n: int, q: int) -> Seq<ResetView>
    decreases q,
{
    if q <= 0 {
        Seq::empty()
    } else {
        let before = resets_in_frame(frames, n, q - 1);
        match reset_of(frames, q - 1, n) {
            Some(e) => before.push(e),
            None => before,
        }
    }
}

/// The flip resets of the first `n` frames, frame by frame and slot by
/// slot.
pub open spec fn resets_before(frames: Seq<ResetFrame>, players: int, n: int) -> Seq<ResetView>
    decreases n,
{
    if n <= 0 {
        Seq::empty()
    } else {
        resets_before(frames, players, n - 1) + resets_in_frame(frames, n - 1, players)
    }
}

/// An event list reports the flip resets `v` for the players named `names`.
pub open spec fn reports_resets(events: Seq<FlipResetEvent>, v: Seq<ResetView>, names: Seq<String>) -> bool {
    &&& events.len() == v.len()
    &&& forall|i: int|
        0 <= i < v.len() ==> {
            &&& #[trigger] events[i].frame_number == v[i].0
            &&& events[i].player_name@ == names[v[i].1]@
            &&& events[i].reset_origin@ == origin_text(v[i].2)
        }
}

fn keep_value(current: Option<i32>, previous: Option<i32>) -> (res: Option<i32>)
    ensures
        res == keep_reading(current, previous),
{
    if current.is_some() {
        current
    } else {
        previous
    }
}

/// Detects flip resets, frame by frame and, within a frame, player by
/// player; `player_names` names the player slots.
pub fn flip_reset_events(frames: &[ResetFrame], player_names: &[String]) -> (res: Vec<FlipResetEvent>)
    ensures
        reports_resets(res@, resets_before(frames@, player_names@.len() as int, frames@.len() as int), player_names@),
{
    let n_players = player_names.len();
    let mut prev_dodge: Vec<Option<i32>> = Vec::new();
    let mut prev_double_jump: Vec<Option<i32>> = Vec::new();
    let mut prev_refreshed: Vec<Option<i32>> = Vec::new();
    let mut last_reset: Vec<i64> = Vec::new();
    let mut k: usize = 0;
    while k < n_players
        invariant
            k <= n_players,
            n_players == player_names@.len(),
            prev_dodge@.len() == k,
            prev_double_jump@.len() == k,
            prev_refreshed@.len() == k,
            last_reset@.len() == k,
            forall|p: int| 0 <= p < k ==> #[trigger] prev_dodge@[p] is None,
            forall|p: int| 0 <= p < k ==> #[trigger] prev_double_jump@[p] is None,
            forall|p: int| 0 <= p < k ==> #[trigger] prev_refreshed@[p] is None,
            forall|p: int| 0 <= p < k ==> #[trigger] last_reset@[p] == -10_000,
        decreases n_players - k,
    {
        prev_dodge.push(None);
        prev_double_jump.push(None);
        prev_refreshed.push(None);
        last_reset.push(-10_000);
        k = k + 1;
    }
    let mut events: Vec<FlipResetEvent> = Vec::new();
    let mut n: usize = 0;
    while n < frames.len()
        invariant
            n <= frames@.len(),
            n_players == player_names@.len(),
            prev_dodge@.len() == n_players,
            prev_double_jump@.len() == n_players,
            prev_refreshed@.len() == n_players,
            last_reset@.len() == n_players,
            forall|q: int| 0 <= q < n_players ==> -10_000 <= #[trigger] last_reset@[q] <= i32::MAX,
            forall|p: int|
                0 <= p < n_players ==> {
                    let t = #[trigger] reset_track_after(frames@, p, n as int);
                    &&& prev_dodge@[p] == t.prev_dodge
                    &&& prev_double_jump@[p] == t.prev_double_jump
                    &&& prev_refreshed@[p] == t.prev_refreshed
                    &&& last_reset@[p] == t.last_reset
                },
            reports_resets(events@, resets_before(frames@, n_players as int, n as int), player_names@),
        decreases frames@.len() - n,
    {
        let frame = &frames[n];
        let frame_number = frame.frame_number;
        let ghost done = resets_before(frames@, n_players as int, n as int);
        let mut p: usize = 0;
        while p < n_players
            invariant
                n < frames@.len(),
                frame == frames@[n as int],
                frame_number == frame.frame_number,
                p <= n_players,
                n_players == player_names@.len(),
                prev_dodge@.len() == n_players,
                prev_double_jump@.len() == n_players,
                prev_refreshed@.len() == n_players,
                last_reset@.len() == n_players,
                forall|q: int| 0 <= q < n_players ==> -10_000 <= #[trigger] last_reset@[q] <= i32::MAX,
                done == resets_before(frames@, n_players as int, n as int),
                forall|q: int|
                    p <= q < n_players ==> {
                        let t = #[trigger] reset_track_after(frames@, q, n as int);
                        &&& prev_dodge@[q] == t.prev_dodge
                        &&& prev_double_jump@[q] == t.prev_double_jump
                        &&& prev_refreshed@[q] == t.prev_refreshed
                        &&& last_reset@[q] == t.last_reset
                    },
                forall|q: int|
                    0 <= q < p ==> {
                        let t = #[trigger] reset_track_after(frames@, q, n + 1);
                        &&& prev_dodge@[q] == t.prev_dodge
                        &&& prev_double_jump@[q] == t.prev_double_jump
                        &&& prev_refreshed@[q] == t.prev_refreshed
                        &&& last_reset@[q] == t.last_reset
                    },
                reports_resets(events@, done + resets_in_frame(frames@, n as int, p as int), player_names@),
            decreases n_players - p,
        {
            let ghost t = reset_track_after(frames@, p as int, n as int);
            let ghost sample = reset_sample_at(frames@[n as int], p as int);
            let slot = if p < frame.players.len() {
                frame.players[p]
            } else {
                None
            };
            assert(slot == sample);
            match slot {
                None => {
                    prev_dodge.set(p, None);
                    prev_double_jump.set(p, None);
                    prev_refreshed.set(p, None);
                },
                Some(state) => {
                    let dodge_reset = match (state.dodge_air_count, prev_dodge[p]) {
                        (Some(current), Some(previous)) => previous > 0 && current == 0,
                        _ => false,
                    };
                    let double_jump_reset = match (state.double_jump_air_count, prev_double_jump[p]) {
                        (Some(current), Some(previous)) => previous > 0 && current == 0,
                        _ => false,
                    };
                    let counter_rose = match (state.refreshed_counter, prev_refreshed[p]) {
                        (Some(current), Some(previous)) => current > previous,
                        _ => false,
                    };
                    if (dodge_reset || double_jump_reset || counter_rose) && state.high_enough && (
                    frame_number as i64) - last_reset[p] > 30 {
                        match state.contact {
                            Some(origin) => {
                                events.push(
                                    FlipResetEvent {
                                        frame_number,
                                        player_name: player_names[p].clone(),
                                        reset_origin: origin_name(origin),
                                    },
                                );
                                last_reset.set(p, frame_number as i64);
                            },
                            None => {},
                        }
                    }
                    let d = keep_value(state.dodge_air_count, prev_dodge[p]);
                    prev_dodge.set(p, d);
                    let dj = keep_value(state.double_jump_air_count, prev_double_jump[p]);
                    prev_double_jump.set(p, dj);
                    let r = keep_value(state.refreshed_counter, prev_refreshed[p]);
                    prev_refreshed.set(p, r);
                },
            }
            proof {
                assert(reset_track_after(frames@, p as int, n + 1) == reset_step(t, frame_number, sample));
                let prefix = done + resets_in_frame(frames@, n as int, p as int);
                assert(done + resets_in_frame(frames@, n as int, p + 1) =~= match reset_of(
                    frames@,
                    p as int,
                    n as int,
                ) {
                    Some(e) => prefix.push(e),
                    None => prefix,
                });
            }
            p = p + 1;
        }
        assert(resets_before(frames@, n_players as int, n + 1) == done + resets_in_frame(
            frames@,
            n as int,
            n_players as int,
        ));
        n = n + 1;
    }
    events
}

} // verus!
