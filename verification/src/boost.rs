//! Boost amounts and the detection of boost pickups.
use vstd::prelude::*;

verus! {

/// The boost percentage (0 to 100) for a raw boost amount (0 to 255): the
/// integer nearest to `100 * raw / 255`, which is never halfway between two
/// integers.
pub open spec fn units_of(raw: int) -> int {
    (200 * raw + 255) / 510
}

/// The raw boost amount for a percentage: `255 * scaled / 100` rounded half
/// away from zero, then held to the range of a `u8`.
pub open spec fn raw_of(scaled: int) -> int {
    if scaled <= 0 {
        0
    } else if (255 * scaled + 50) / 100 > 255 {
        255
    } else {
        (255 * scaled + 50) / 100
    }
}

/// Converts a raw boost amount to a percentage, rounding to the nearest.
pub fn boost_units(raw_boost: i32) -> (res: i32)
    ensures
        res == units_of(raw_boost as int),
        -127 <= 255 * res - 100 * raw_boost <= 127,
{
    let raw = raw_boost as i64;
    if raw >= 0 {
        let q = (200 * raw + 255) / 510;
        q as i32
    } else {
        let q = (200 * (-raw) + 255) / 510;
        assert(units_of(raw_boost as int) == -q);
        (-q) as i32
    }
}


/// Converts a boost percentage back to a raw amount.
pub fn raw_boost_units(scaled_boost: i32) -> (res: u8)
    ensures
        res == raw_of(scaled_boost as int),
{
    if scaled_boost <= 0 {
        return 0;
    }
    let q = (scaled_boost as i64 * 255 + 50) / 100;
    if q > 255 {
        255
    } else {
        q as u8
    }
}

/// The boost a pickup granted, judged from the percentage before and after
/// it: 33 for a kickoff reset to 33 from at most 5, 100 for a big pad, 12 for
/// a small pad, and 0 when nothing was picked up.
pub open spec fn pickup_amount(prior_boost: Option<i32>, current_boost: i32, grant: Option<i32>) -> int {
    match prior_boost {
        None => 0,
        Some(prior_raw) => {
            let prior = units_of(prior_raw as int);
            let current = units_of(current_boost as int);
            let delta = current - prior;
            if delta <= 0 && grant is None {
                0
            } else if current == 33 && prior <= 5 {
                33
            } else if delta > 15 || (current >= 95 && delta > 12) {
                100
            } else if delta > 0 {
                12
            } else {
                0
            }
        },
    }
}

/// The boost a pickup granted; see `pickup_amount`.
pub fn boost_pickup_amount(prior_boost: Option<i32>, current_boost: i32, grant: Option<i32>) -> (res: i32)
    ensures
        res == pickup_amount(prior_boost, current_boost, grant),
{
    let prior_raw = match prior_boost {
        Some(value) => value,
        None => return 0,
    };
    let prior = boost_units(prior_raw);
    let current = boost_units(current_boost);
    let delta = current - prior;
    if delta <= 0 && grant.is_none() {
        return 0;
    }
    if current == 33 && prior <= 5 {
        return 33;
    }
    if delta > 15 || (current >= 95 && delta > 12) {
        return 100;
    }
    if delta > 0 {
        return 12;
    }
    0
}

/// The kind of a pickup: `reset` for a kickoff reset to 33, `big` for 100,
/// `small` otherwise.
pub open spec fn pickup_type_name(prior_boost: Option<i32>, current_boost: i32, amount: i32) -> Seq<char> {
    let prior = match prior_boost {
        Some(v) => v,
        None => 0,
    };
    if amount == 33 || (units_of(current_boost as int) == 33 && units_of(prior as int) <= 5) {
        "reset"@
    } else if amount == 100 {
        "big"@
    } else {
        "small"@
    }
}

/// The kind of a pickup; see `pickup_type_name`.
pub fn boost_pickup_type(prior_boost: Option<i32>, current_boost: i32, amount: i32) -> (res: &'static str)
    ensures
        res@ == pickup_type_name(prior_boost, current_boost, amount),
{
    let prior = match prior_boost {
        Some(v) => v,
        None => 0,
    };
    if amount == 33 || (boost_units(current_boost) == 33 && boost_units(prior) <= 5) {
        "reset"
    } else if amount == 100 {
        "big"
    } else {
        "small"
    }
}


/// A player's boost readings in one frame.
#[derive(Clone, Copy, Debug, PartialEq, Eq, Structural)]
pub struct BoostSample {
    /// The raw boost amount, when the frame carries one.
    pub boost: Option<u8>,
    /// The boost-pad grant counter, when the frame carries one.
    pub boost_collect: Option<u8>,
}

/// The boost readings of every player slot in one frame.
#[derive(Clone, Debug)]
pub struct BoostFrame {
    pub frame_number: i32,
    /// One entry per player slot; `None` when the player has no car state.
    pub players: Vec<Option<BoostSample>>,
}

/// A detected boost pickup.
#[derive(Clone, Debug)]
pub struct BoostPickupEvent {
    pub frame_number: i32,
    pub player_name: String,
    pub amount: i32,
    pub pickup_type: &'static str,
}

/// What the detector remembers of one player between frames.
pub struct BoostTrack {
    pub prev_boost: Option<i32>,
    pub prev_grant: Option<i32>,
    pub last_pickup: int,
}

/// Pickups closer than this many frames to the previous one are ignored.
pub const BOOST_PICKUP_MIN_GAP_FRAMES: i32 = 2;

/// The detector's memory before the first frame.
pub open spec fn initial_track() -> BoostTrack {
    BoostTrack { prev_boost: None, prev_grant: None, last_pickup: -10_000 }
}

/// The readings of player `p` in a frame; a missing slot reads as `None`.
pub open spec fn sample_at(frame: BoostFrame, p: int) -> Option<BoostSample> {
    if 0 <= p < frame.players@.len() {
        frame.players@[p]
    } else {
        None
    }
}

/// A raw reading as an `i32`.
pub open spec fn widen(v: Option<u8>) -> Option<i32> {
    match v {
        Some(b) => Some(b as i32),
        None => None,
    }
}

/// The amount picked up by a player in a frame, given what the detector
/// remembers: a pickup needs the percentage to rise or the grant counter to
/// change, more than two frames since the player's last pickup, and a
/// positive amount.
pub open spec fn pickup_in_frame(t: BoostTrack, frame_number: i32, sample: Option<BoostSample>) -> Option<int> {
    match sample {
        None => None,
        Some(smp) => match smp.boost {
            None => None,
            Some(b) => {
                let current = b as i32;
                let grant = widen(smp.boost_collect);
                let grant_changed = grant is Some && t.prev_grant is Some && grant != t.prev_grant;
                let increased = match t.prev_boost {
                    Some(prior) => units_of(current as int) > units_of(prior as int),
                    None => false,
                };
                let amount = pickup_amount(t.prev_boost, current, grant);
                if (increased || grant_changed) && frame_number - t.last_pickup
                    > BOOST_PICKUP_MIN_GAP_FRAMES && amount > 0 {
                    Some(amount)
                } else {
                    None
                }
            },
        },
    }
}

/// What the detector remembers after a frame.
pub open spec fn track_step(t: BoostTrack, frame_number: i32, sample: Option<BoostSample>) -> BoostTrack {
    match sample {
        None => BoostTrack { prev_boost: None, prev_grant: None, ..t },
        Some(smp) => match smp.boost {
            None => t,
            Some(b) => BoostTrack {
                prev_boost: Some(b as i32),
                prev_grant: widen(smp.boost_collect),
                last_pickup: if pickup_in_frame(t, frame_number, sample) is Some {
                    frame_number as int
                } else {
                    t.last_pickup
                },
            },
        },
    }
}

/// What the detector remembers of player `p` after the first `n` frames.
pub open spec fn track_after(frames: Seq<BoostFrame>, p: int, n: int) -> BoostTrack
    decreases n,
{
    if n <= 0 {
        initial_track()
    } else {
        track_step(
            track_after(frames, p, n - 1),
            frames[n - 1].frame_number,
            sample_at(frames[n - 1], p),
        )
    }
}

/// A pickup as `(frame number, player slot, amount, kind)`.
pub type PickupView = (i32, int, int, Seq<char>);

/// The pickup of player `p` in frame `n`, if any.
pub open spec fn pickup_of(frames: Seq<BoostFrame>, p: int, n: int) -> Option<PickupView> {
    let t = track_after(frames, p, n);
    let sample = sample_at(frames[n], p);
    match pickup_in_frame(t, frames[n].frame_number, sample) {
        Some(amount) => Some(
            (
                frames[n].frame_number,
                p,
                amount,
                pickup_type_name(t.prev_boost, sample.unwrap().boost.unwrap() as i32, amount as i32),
            ),
        ),
        None => None,
    }
}

/// The pickups of players `0..q` in frame `n`, in slot order.
pub open spec fn pickups_in_frame(frames: Seq<BoostFrame>, n: int, q: int) -> Seq<PickupView>
    decreases q,
{
    if q <= 0 {
        Seq::empty()
    } else {
        let before = pickups_in_frame(frames, n, q - 1);
        match pickup_of(frames, q - 1, n) {
            Some(e) => before.push(e),
            None => before,
        }
    }
}

/// The pickups of the first `n` frames, frame by frame and slot by slot.
pub open spec fn pickups_before(frames: Seq<BoostFrame>, players: int, n: int) -> Seq<PickupView>
    decreases n,
{
    if n <= 0 {
        Seq::empty()
    } else {
        pickups_before(frames, players, n - 1) + pickups_in_frame(frames, n - 1, players)
    }
}

/// An event list reports the pickups `v` for the players named `names`.
pub open spec fn reports_pickups(events: Seq<BoostPickupEvent>, v: Seq<PickupView>, names: Seq<String>) -> bool {
    &&& events.len() == v.len()
    &&& forall|i: int|
        0 <= i < v.len() ==> {
            &&& #[trigger] events[i].frame_number == v[i].0
            &&& events[i].player_name@ == names[v[i].1]@
            &&& events[i].amount == v[i].2
            &&& events[i].pickup_type@ == v[i].3
        }
}

/// Detects boost pickups, frame by frame and, within a frame, player by
/// player; `player_names` names the player slots.
pub fn boost_pickup_events(frames: &[BoostFrame], player_names: &[String]) -> (res: Vec<BoostPickupEvent>)
    ensures
        reports_pickups(res@, pickups_before(frames@, player_names@.len() as int, frames@.len() as int), player_names@),
{
    let n_players = player_names.len();
    let mut prev_boost: Vec<Option<i32>> = Vec::new();
    let mut prev_grant: Vec<Option<i32>> = Vec::new();
    let mut last_pickup: Vec<i64> = Vec::new();
    let mut k: usize = 0;
    while k < n_players
        invariant
            k <= n_players,
            n_players == player_names@.len(),
            prev_boost@.len() == k,
            prev_grant@.len() == k,
            last_pickup@.len() == k,
            forall|p: int| 0 <= p < k ==> #[trigger] prev_boost@[p] is None,
            forall|p: int| 0 <= p < k ==> #[trigger] prev_grant@[p] is None,
            forall|p: int| 0 <= p < k ==> #[trigger] last_pickup@[p] == -10_000,
        decreases n_players - k,
    {
        prev_boost.push(None);
        prev_grant.push(None);
        last_pickup.push(-10_000);
        k = k + 1;
    }
    let mut events: Vec<BoostPickupEvent> = Vec::new();
    let mut n: usize = 0;
    while n < frames.len()
        invariant
            n <= frames@.len(),
            n_players == player_names@.len(),
            prev_boost@.len() == n_players,
            prev_grant@.len() == n_players,
            last_pickup@.len() == n_players,
            forall|q: int| 0 <= q < n_players ==> i32::MIN <= #[trigger] last_pickup@[q] <= i32::MAX,
            forall|p: int| 0 <= p < n_players ==> {
                let t = #[trigger] track_after(frames@, p, n as int);
                &&& prev_boost@[p] == t.prev_boost
                &&& prev_grant@[p] == t.prev_grant
                &&& last_pickup@[p] == t.last_pickup
            },
            reports_pickups(events@, pickups_before(frames@, n_players as int, n as int), player_names@),
        decreases frames@.len() - n,
    {
        let frame = &frames[n];
        let frame_number = frame.frame_number;
        let ghost done = pickups_before(frames@, n_players as int, n as int);
        let mut p: usize = 0;
        while p < n_players
            invariant
                n < frames@.len(),
                frame == frames@[n as int],
                frame_number == frame.frame_number,
                p <= n_players,
                n_players == player_names@.len(),
                prev_boost@.len() == n_players,
                prev_grant@.len() == n_players,
                last_pickup@.len() == n_players,
                forall|q: int| 0 <= q < n_players ==> i32::MIN <= #[trigger] last_pickup@[q] <= i32::MAX,
                done == pickups_before(frames@, n_players as int, n as int),
                forall|q: int| p <= q < n_players ==> {
                    let t = #[trigger] track_after(frames@, q, n as int);
                    &&& prev_boost@[q] == t.prev_boost
                    &&& prev_grant@[q] == t.prev_grant
                    &&& last_pickup@[q] == t.last_pickup
                },
                forall|q: int| 0 <= q < p ==> {
                    let t = #[trigger] track_after(frames@, q, n + 1);
                    &&& prev_boost@[q] == t.prev_boost
                    &&& prev_grant@[q] == t.prev_grant
                    &&& last_pickup@[q] == t.last_pickup
                },
                reports_pickups(events@, done + pickups_in_frame(frames@, n as int, p as int), player_names@),
            decreases n_players - p,
        {
            let ghost t = track_after(frames@, p as int, n as int);
            let ghost sample = sample_at(frames@[n as int], p as int);
            let slot = if p < frame.players.len() {
                frame.players[p]
            } else {
                None
            };
            assert(slot == sample);
            let ghost before_events = events@;
            match slot {
                None => {
                    prev_boost.set(p, None);
                    prev_grant.set(p, None);
                },
                Some(state) => match state.boost {
                    None => {},
                    Some(b) => {
                        let current_boost = b as i32;
                        let prior_boost = prev_boost[p];
                        let grant: Option<i32> = match state.boost_collect {
                            Some(g) => Some(g as i32),
                            None => None,
                        };
                        let grant_changed = grant.is_some() && prev_grant[p].is_some()
                            && grant != prev_grant[p];
                        let boost_increased = match prior_boost {
                            Some(prior) => boost_units(current_boost) > boost_units(prior),
                            None => false,
                        };
                        if (boost_increased || grant_changed) && frame_number as i64
                            - last_pickup[p] > 2 {
                            let amount = boost_pickup_amount(prior_boost, current_boost, grant);
                            if amount > 0 {
                                events.push(
                                    BoostPickupEvent {
                                        frame_number,
                                        player_name: player_names[p].clone(),
                                        amount,
                                        pickup_type: boost_pickup_type(
                                            prior_boost,
                                            current_boost,
                                            amount,
                                        ),
                                    },
                                );
                                last_pickup.set(p, frame_number as i64);
                            }
                        }
                        prev_boost.set(p, Some(current_boost));
                        prev_grant.set(p, grant);
                    },
                },
            }
            proof {
                assert(track_after(frames@, p as int, n + 1) == track_step(t, frame_number, sample));
                let prefix = done + pickups_in_frame(frames@, n as int, p as int);
                assert(done + pickups_in_frame(frames@, n as int, p + 1) =~= match pickup_of(
                    frames@,
                    p as int,
                    n as int,
                ) {
                    Some(e) => prefix.push(e),
                    None => prefix,
                });
            }
            p = p + 1;
        }
        assert(pickups_before(frames@, n_players as int, n + 1) == done + pickups_in_frame(
            frames@,
            n as int,
            n_players as int,
        ));
        n = n + 1;
    }
    events
}


/// Converting a percentage from 0 to 100 to a raw amount and back gives the
/// percentage again.
pub proof fn law_boost_round_trip(scaled: int)
    requires
        0 <= scaled <= 100,
    ensures
        units_of(raw_of(scaled)) == scaled,
{
    if scaled > 0 {
        let r = (255 * scaled + 50) / 100;
        assert(100 * r <= 255 * scaled + 50 < 100 * r + 100);
        assert(r <= 255);
        assert(raw_of(scaled) == r);
        assert(510 * scaled <= 200 * r + 255 < 510 * scaled + 510);
    }
}

/// Every detected pickup has a positive amount of 12, 33 or 100, and its
/// kind is `reset`, `big` or `small`.
pub proof fn law_pickup_amounts(frames: Seq<BoostFrame>, players: int, n: int)
    requires
        0 <= n <= frames.len(),
        0 <= players,
    ensures
        forall|k: int|
            0 <= k < pickups_before(frames, players, n).len() ==> {
                let e = #[trigger] pickups_before(frames, players, n)[k];
                &&& e.2 == 12 || e.2 == 33 || e.2 == 100
                &&& e.3 == "reset"@ || e.3 == "big"@ || e.3 == "small"@
            },
    decreases n,
{
    if n > 0 {
        law_pickup_amounts(frames, players, n - 1);
        lemma_frame_pickup_amounts(frames, n - 1, players);
        let a = pickups_before(frames, players, n - 1);
        let b = pickups_in_frame(frames, n - 1, players);
        assert forall|k: int| 0 <= k < (a + b).len() implies {
            let e = #[trigger] (a + b)[k];
            &&& e.2 == 12 || e.2 == 33 || e.2 == 100
            &&& e.3 == "reset"@ || e.3 == "big"@ || e.3 == "small"@
        } by {
            if k >= a.len() {
                assert((a + b)[k] == b[k - a.len()]);
            }
        }
    }
}

proof fn lemma_frame_pickup_amounts(frames: Seq<BoostFrame>, n: int, q: int)
    requires
        0 <= n < frames.len(),
        0 <= q,
    ensures
        forall|k: int|
            0 <= k < pickups_in_frame(frames, n, q).len() ==> {
                let e = #[trigger] pickups_in_frame(frames, n, q)[k];
                &&& e.2 == 12 || e.2 == 33 || e.2 == 100
                &&& e.3 == "reset"@ || e.3 == "big"@ || e.3 == "small"@
            },
    decreases q,
{
    if q > 0 {
        lemma_frame_pickup_amounts(frames, n, q - 1);
        let before = pickups_in_frame(frames, n, q - 1);
        let t = track_after(frames, q - 1, n);
        let sample = sample_at(frames[n], q - 1);
        match pickup_in_frame(t, frames[n].frame_number, sample) {
            Some(amount) => {
                let smp = sample.unwrap();
                let current = smp.boost.unwrap() as i32;
                assert(amount == pickup_amount(t.prev_boost, current, widen(smp.boost_collect)));
                assert(amount == 12 || amount == 33 || amount == 100);
                let e = pickup_of(frames, q - 1, n).unwrap();
                assert(pickups_in_frame(frames, n, q) == before.push(e));
            },
            None => {
                assert(pickups_in_frame(frames, n, q) == before);
            },
        }
    }
}

/// How a pickup is judged from the boost percentages `p` before and `c`
/// after it (each the nearest percentage of the raw amount): without a
/// reading before there is no pickup, nor without a gain or a grant; a
/// reset to 33 from at most 5 gives 33; any other gain of more than 15
/// points, or of more than 12 that ends at 95 or more, is a big pad of 100,
/// and every smaller gain a small pad of 12. A big pad is of kind `big`, a
/// small one of kind `small`.
pub proof fn law_pickup_amount_by_gain(prior: i32, current: i32, grant: Option<i32>)
    ensures
        pickup_amount(None, current, grant) == 0,
        ({
            let p = units_of(prior as int);
            let c = units_of(current as int);
            let reset = c == 33 && p <= 5;
            let amount = pickup_amount(Some(prior), current, grant);
            &&& c <= p && grant is None ==> amount == 0
            &&& p < c && reset ==> amount == 33
            &&& p < c && !reset && c - p > 15 ==> amount == 100
            &&& p < c && !reset && c >= 95 && c - p > 12 ==> amount == 100
            &&& p < c && !reset && c - p <= 12 ==> amount == 12
            &&& p < c && !reset && c < 95 && c - p <= 15 ==> amount == 12
            &&& !reset ==> pickup_type_name(Some(prior), current, 100i32) == "big"@
            &&& !reset ==> pickup_type_name(Some(prior), current, 12i32) == "small"@
        }),
{
}

/// The boost state of one player in one frame.
#[derive(Clone, Copy, Debug, PartialEq, Eq, Structural)]
pub struct BoostSlot {
    pub boost: Option<u8>,
    pub boost_collect: Option<u8>,
    pub boost_updated_frame: Option<i32>,
}

/// One frame's boost states, by player slot (`None` where the slot has no
/// car state).
#[derive(Clone, Debug)]
pub struct SlotFrame {
    pub frame_number: i32,
    pub players: Vec<Option<BoostSlot>>,
}

impl View for SlotFrame {
    type V = (i32, Seq<Option<BoostSlot>>);

    open spec fn view(&self) -> (i32, Seq<Option<BoostSlot>>) {
        (self.frame_number, self.players@)
    }
}

/// The slot's boost was updated after the kickoff started at `start`.
pub open spec fn updated_after(slot: Option<BoostSlot>, start: i32) -> bool {
    slot matches Some(s) && s.boost_updated_frame matches Some(f) && f > start
}

/// A slot while its player's boost is being held at the kickoff amount: a
/// car state not updated since the kickoff start gets 33% boost (in raw
/// units), no collected boost, and the kickoff start as its update frame.
pub open spec fn reset_slot(slot: Option<BoostSlot>, start: i32, active: bool) -> Option<BoostSlot> {
    if active && slot is Some && !updated_after(slot, start) {
        Some(
            BoostSlot {
                boost: Some(raw_of(33) as u8),
                boost_collect: None,
                boost_updated_frame: Some(start),
            },
        )
    } else {
        slot
    }
}

/// One frame's slots after the reset, given which slots are still held.
pub open spec fn step_players(players: Seq<Option<BoostSlot>>, resetting: Seq<bool>, start: i32) -> Seq<
    Option<BoostSlot>,
> {
    Seq::new(players.len(), |i: int| reset_slot(players[i], start, i < resetting.len() && resetting[i]))
}

/// Which slots are still held after a frame: a slot stops being held once
/// its boost was updated after the kickoff start.
pub open spec fn step_resetting(players: Seq<Option<BoostSlot>>, resetting: Seq<bool>, start: i32) -> Seq<bool> {
    Seq::new(
        resetting.len(),
        |i: int| resetting[i] && !(i < players.len() && updated_after(players[i], start)),
    )
}

/// The first `n` frames after one kickoff's reset, with the held slots after
/// them; frames in `start..next` are reset, in order.
pub open spec fn reset_pass(
    frames: Seq<(i32, Seq<Option<BoostSlot>>)>,
    start: i32,
    next: i32,
    resetting: Seq<bool>,
    n: nat,
) -> (Seq<(i32, Seq<Option<BoostSlot>>)>, Seq<bool>)
    decreases n,
{
    if n == 0 {
        (Seq::empty(), resetting)
    } else {
        let prev = reset_pass(frames, start, next, resetting, (n - 1) as nat);
        let f = frames[n - 1];
        if start <= f.0 < next {
            (prev.0.push((f.0, step_players(f.1, prev.1, start))), step_resetting(f.1, prev.1, start))
        } else {
            (prev.0.push(f), prev.1)
        }
    }
}

/// The number of slots of the first frame from `i` on at or after `start`,
/// or 0 when there is none.
pub open spec fn slot_count_from(frames: Seq<(i32, Seq<Option<BoostSlot>>)>, start: i32, i: nat) -> nat
    decreases frames.len() - i,
{
    if i >= frames.len() {
        0
    } else if frames[i as int].0 >= start {
        frames[i as int].1.len()
    } else {
        slot_count_from(frames, start, i + 1)
    }
}

/// Where the kickoff after kickoff `k` starts, or the largest frame number
/// after the last one.
pub open spec fn next_kickoff(starts: Seq<i32>, k: int) -> i32 {
    if k + 1 < starts.len() {
        starts[k + 1]
    } else {
        i32::MAX
    }
}

/// The frames after the resets of the first `k` kickoffs.
pub open spec fn after_kickoff_resets(frames: Seq<(i32, Seq<Option<BoostSlot>>)>, starts: Seq<i32>, k: nat) -> Seq<
    (i32, Seq<Option<BoostSlot>>),
>
    decreases k,
{
    if k == 0 {
        frames
    } else {
        let before = after_kickoff_resets(frames, starts, (k - 1) as nat);
        let start = starts[k - 1];
        reset_pass(
            before,
            start,
            next_kickoff(starts, k - 1),
            Seq::new(slot_count_from(before, start, 0), |i: int| true),
            before.len(),
        ).0
    }
}

fn reset_players(players: &Vec<Option<BoostSlot>>, resetting: &mut Vec<bool>, start: i32) -> (res: Vec<
    Option<BoostSlot>,
>)
    ensures
        res@ == step_players(players@, old(resetting)@, start),
        final(resetting)@ == step_resetting(players@, old(resetting)@, start),
{
    let ghost held = resetting@;
    let kickoff_boost = raw_boost_units(33);
    let mut res: Vec<Option<BoostSlot>> = Vec::new();
    let mut idx: usize = 0;
    while idx < players.len()
        invariant
            idx <= players@.len(),
            resetting@.len() == held.len(),
            kickoff_boost == raw_of(33),
            res@ =~= step_players(players@, held, start).take(idx as int),
            forall|i: int|
                0 <= i < held.len() ==> #[trigger] resetting@[i] == if i < idx {
                    step_resetting(players@, held, start)[i]
                } else {
                    held[i]
                },
        decreases players@.len() - idx,
    {
        let active = idx < resetting.len() && resetting[idx];
        let slot = players[idx];
        let mut out = slot;
        if active {
            match slot {
                Some(state) => {
                    let newer = match state.boost_updated_frame {
                        Some(f) => f > start,
                        None => false,
                    };
                    if newer {
                        resetting.set(idx, false);
                    } else {
                        out = Some(
                            BoostSlot {
                                boost: Some(kickoff_boost),
                                boost_collect: None,
                                boost_updated_frame: Some(start),
                            },
                        );
                    }
                },
                None => {},
            }
        }
        res.push(out);
        idx = idx + 1;
    }
    assert(step_players(players@, held, start).take(players@.len() as int) =~= step_players(
        players@,
        held,
        start,
    ));
    assert(resetting@ =~= step_resetting(players@, held, start));
    res
}

fn copy_slots(players: &Vec<Option<BoostSlot>>) -> (res: Vec<Option<BoostSlot>>)
    ensures
        res@ == players@,
{
    let mut res: Vec<Option<BoostSlot>> = Vec::new();
    let mut i: usize = 0;
    while i < players.len()
        invariant
            i <= players@.len(),
            res@ =~= players@.take(i as int),
        decreases players@.len() - i,
    {
        res.push(players[i]);
        i = i + 1;
    }
    assert(players@.take(players@.len() as int) =~= players@);
    res
}

fn reset_window(frames: &Vec<SlotFrame>, start: i32, next: i32, resetting: Vec<bool>) -> (res: Vec<SlotFrame>)
    ensures
        res@.map_values(|f: SlotFrame| f@) == reset_pass(
            frames@.map_values(|f: SlotFrame| f@),
            start,
            next,
            resetting@,
            frames@.len(),
        ).0,
{
    let ghost views = frames@.map_values(|f: SlotFrame| f@);
    let ghost held0 = resetting@;
    let mut held = resetting;
    let mut res: Vec<SlotFrame> = Vec::new();
    let mut j: usize = 0;
    while j < frames.len()
        invariant
            j <= frames@.len(),
            views == frames@.map_values(|f: SlotFrame| f@),
            res@.map_values(|f: SlotFrame| f@) == reset_pass(views, start, next, held0, j as nat).0,
            held@ == reset_pass(views, start, next, held0, j as nat).1,
        decreases frames@.len() - j,
    {
        let frame = &frames[j];
        let players = if start <= frame.frame_number && frame.frame_number < next {
            reset_players(&frame.players, &mut held, start)
        } else {
            copy_slots(&frame.players)
        };
        res.push(SlotFrame { frame_number: frame.frame_number, players });
        assert(res@.map_values(|f: SlotFrame| f@) =~= reset_pass(views, start, next, held0, (j + 1) as nat).0);
        j = j + 1;
    }
    res
}

/// Holds each player's boost at the kickoff amount from each kickoff start
/// (`kickoff_starts`, in order) until the next: in every frame of that span,
/// a slot whose boost was not updated after the kickoff start gets 33%
/// boost, until its boost is first seen updated after the start. Only the
/// slots of the first frame at or after the start are held.
pub fn apply_kickoff_boost_resets(frames: &mut Vec<SlotFrame>, kickoff_starts: &[i32])
    ensures
        final(frames)@.map_values(|f: SlotFrame| f@) == after_kickoff_resets(
            old(frames)@.map_values(|f: SlotFrame| f@),
            kickoff_starts@,
            kickoff_starts@.len(),
        ),
{
    let ghost initial = frames@.map_values(|f: SlotFrame| f@);
    let mut k: usize = 0;
    while k < kickoff_starts.len()
        invariant
            k <= kickoff_starts@.len(),
            frames@.map_values(|f: SlotFrame| f@) == after_kickoff_resets(initial, kickoff_starts@, k as nat),
        decreases kickoff_starts@.len() - k,
    {
        let start = kickoff_starts[k];
        let next = if k + 1 < kickoff_starts.len() {
            kickoff_starts[k + 1]
        } else {
            i32::MAX
        };
        let ghost views = frames@.map_values(|f: SlotFrame| f@);
        let mut i: usize = 0;
        while i < frames.len() && frames[i].frame_number < start
            invariant
                i <= frames@.len(),
                views == frames@.map_values(|f: SlotFrame| f@),
                slot_count_from(views, start, 0) == slot_count_from(views, start, i as nat),
            decreases frames@.len() - i,
        {
            i = i + 1;
        }
        let count: usize = if i < frames.len() {
            frames[i].players.len()
        } else {
            0
        };
        assert(count == slot_count_from(views, start, 0));
        let mut held: Vec<bool> = Vec::new();
        while held.len() < count
            invariant
                held.len() <= count,
                forall|t: int| 0 <= t < held@.len() ==> held@[t],
            decreases count - held.len(),
        {
            held.push(true);
        }
        assert(held@ =~= Seq::new(slot_count_from(views, start, 0), |t: int| true));
        let updated = reset_window(frames, start, next, held);
        *frames = updated;
        k = k + 1;
    }
}

} // verus!
