//! Game presence: who joins, leaves and respawns when.
use vstd::prelude::*;
use crate::text::str_eq;

verus! {

/// A demolished car respawns this many frames after the demo.
pub const DEMO_RESPAWN_FRAMES: i32 = 90;

/// A demo repeats an earlier one when it comes within this many frames of
/// it, for the same pair of players or the same victim.
pub const DEMO_EVENT_COOLDOWN_FRAMES: i32 = 150;

/// A presence event as `(frame, player name, event type)`.
pub type PresenceEvent = (i32, String, String);

/// The key of a presence event.
pub open spec fn presence_key(e: PresenceEvent) -> (i32, Seq<char>, Seq<char>) {
    (e.0, e.1@, e.2@)
}

/// Whether a presence row is written: it names a player, and no earlier
/// event has the same frame, player and type.
pub open spec fn presence_written(events: Seq<PresenceEvent>, i: int) -> bool {
    events[i].1@.len() > 0 && forall|j: int|
        0 <= j < i ==> presence_key(#[trigger] events[j]) != presence_key(events[i])
}

/// Marks which presence events are written as rows.
pub fn game_presence_rows(events: &[PresenceEvent]) -> (res: Vec<bool>)
    ensures
        res@.len() == events@.len(),
        forall|i: int| 0 <= i < events@.len() ==> #[trigger] res@[i] == presence_written(events@, i),
{
    let mut out: Vec<bool> = Vec::new();
    let mut i: usize = 0;
    while i < events.len()
        invariant
            i <= events@.len(),
            out@.len() == i,
            forall|k: int| 0 <= k < i ==> #[trigger] out@[k] == presence_written(events@, k),
        decreases events@.len() - i,
    {
        let mut written = events[i].1.unicode_len() > 0;
        let mut j: usize = 0;
        while j < i && written
            invariant
                i < events@.len(),
                j <= i,
                written ==> events@[i as int].1@.len() > 0,
                written ==> forall|k: int|
                    0 <= k < j ==> presence_key(#[trigger] events@[k]) != presence_key(events@[i as int]),
                !written ==> !presence_written(events@, i as int),
            decreases i - j,
        {
            if events[j].0 == events[i].0 && str_eq(events[j].1.as_str(), events[i].1.as_str())
                && str_eq(events[j].2.as_str(), events[i].2.as_str()) {
                written = false;
                assert(presence_key(events@[j as int]) == presence_key(events@[i as int]));
            }
            j = j + 1;
        }
        out.push(written);
        i = i + 1;
    }
    out
}

/// The first frame, in list order, at or after `target`; `target` itself
/// when there is none.
pub open spec fn first_frame_from(frames: Seq<i32>, target: int, i: int) -> int
    decreases frames.len() - i,
{
    if i < 0 || i >= frames.len() {
        target
    } else if frames[i] >= target {
        frames[i] as int
    } else {
        first_frame_from(frames, target, i + 1)
    }
}

/// Some existing presence event is a respawn of `name` at `frame`.
pub open spec fn has_respawn(events: Seq<PresenceEvent>, frame: int, name: Seq<char>) -> bool {
    exists|j: int|
        0 <= j < events.len() && (#[trigger] events[j]).0 == frame && events[j].1@ == name
            && events[j].2@ == "respawn"@
}

/// The respawns added for the first `n` demos `(frame, victim)`: each
/// victim respawns at the first frame at least 90 frames after the demo,
/// unless that respawn is already known.
pub open spec fn respawns_upto(
    events: Seq<PresenceEvent>,
    demos: Seq<(i32, String)>,
    frames: Seq<i32>,
    n: int,
) -> Seq<(int, Seq<char>)>
    decreases n,
{
    if n <= 0 {
        Seq::empty()
    } else {
        let before = respawns_upto(events, demos, frames, n - 1);
        let d = demos[n - 1];
        let f = first_frame_from(frames, d.0 + DEMO_RESPAWN_FRAMES, 0);
        if d.1@.len() > 0 && !has_respawn(events, f, d.1@) && !before.contains((f, d.1@)) {
            before.push((f, d.1@))
        } else {
            before
        }
    }
}

fn respawn_frame(frames: &[i32], target: i32) -> (res: i32)
    ensures
        res == first_frame_from(frames@, target as int, 0),
{
    let mut i: usize = 0;
    while i < frames.len()
        invariant
            i <= frames@.len(),
            first_frame_from(frames@, target as int, i as int) == first_frame_from(frames@, target as int, 0),
        decreases frames@.len() - i,
    {
        if frames[i] >= target {
            return frames[i];
        }
        i = i + 1;
    }
    target
}

/// The respawn events that demos add, as `(frame, player name)`.
pub fn demo_respawn_events(
    events: &[PresenceEvent],
    demos: &[(i32, String)],
    frame_numbers: &[i32],
) -> (res: Vec<(i32, String)>)
    requires
        forall|k: int| 0 <= k < demos@.len() ==> (#[trigger] demos@[k]).0 <= i32::MAX - DEMO_RESPAWN_FRAMES,
    ensures
        res@.len() == respawns_upto(events@, demos@, frame_numbers@, demos@.len() as int).len(),
        forall|k: int|
            0 <= k < res@.len() ==> ((#[trigger] res@[k]).0 as int, res@[k].1@) == respawns_upto(
                events@,
                demos@,
                frame_numbers@,
                demos@.len() as int,
            )[k],
{
    let mut out: Vec<(i32, String)> = Vec::new();
    let mut n: usize = 0;
    while n < demos.len()
        invariant
            n <= demos@.len(),
            forall|k: int| 0 <= k < demos@.len() ==> (#[trigger] demos@[k]).0 <= i32::MAX - DEMO_RESPAWN_FRAMES,
            out@.len() == respawns_upto(events@, demos@, frame_numbers@, n as int).len(),
            forall|k: int|
                0 <= k < out@.len() ==> ((#[trigger] out@[k]).0 as int, out@[k].1@) == respawns_upto(
                    events@,
                    demos@,
                    frame_numbers@,
                    n as int,
                )[k],
        decreases demos@.len() - n,
    {
        let ghost before = respawns_upto(events@, demos@, frame_numbers@, n as int);
        let victim = &demos[n].1;
        if victim.unicode_len() > 0 {
            let target = demos[n].0 + DEMO_RESPAWN_FRAMES;
            let frame = respawn_frame(frame_numbers, target);
            let mut known = false;
            let mut j: usize = 0;
            while j < events.len() && !known
                invariant
                    j <= events@.len(),
                    !known ==> forall|k: int|
                        0 <= k < j ==> !((#[trigger] events@[k]).0 == frame && events@[k].1@ == victim@
                            && events@[k].2@ == "respawn"@),
                    known ==> has_respawn(events@, frame as int, victim@),
                decreases events@.len() - j,
            {
                if events[j].0 == frame && str_eq(events[j].1.as_str(), victim.as_str()) && str_eq(
                    events[j].2.as_str(),
                    "respawn",
                ) {
                    known = true;
                }
                j = j + 1;
            }
            assert(!known ==> !has_respawn(events@, frame as int, victim@));
            let mut k: usize = 0;
            while k < out.len() && !known
                invariant
                    k <= out@.len(),
                    !known ==> !has_respawn(events@, frame as int, victim@),
                    out@.len() == before.len(),
                    forall|m: int| 0 <= m < out@.len() ==> ((#[trigger] out@[m]).0 as int, out@[m].1@) == before[m],
                    !known ==> forall|m: int|
                        0 <= m < k ==> before[m] != (frame as int, victim@),
                    known ==> has_respawn(events@, frame as int, victim@) || before.contains(
                        (frame as int, victim@),
                    ),
                decreases out@.len() - k,
            {
                if out[k].0 == frame && str_eq(out[k].1.as_str(), victim.as_str()) {
                    known = true;
                    assert(before[k as int] == (frame as int, victim@));
                }
                k = k + 1;
            }
            if !known {
                out.push((frame, victim.clone()));
            }
            proof {
                let after = respawns_upto(events@, demos@, frame_numbers@, n + 1);
                if !known {
                    assert(!before.contains((frame as int, victim@)));
                    assert(after == before.push((frame as int, victim@)));
                } else {
                    assert(after == before);
                }
            }
        }
        n = n + 1;
    }
    out
}


/// Which player slots have car state in one frame.
#[derive(Clone, Debug)]
pub struct PresenceFrame {
    pub frame_number: i32,
    pub has_car: Vec<bool>,
}

/// Some presence event is an explicit join of `name` at or before frame
/// `f`.
pub open spec fn joined_explicitly(events: Seq<PresenceEvent>, name: Seq<char>, f: i32) -> bool {
    exists|j: int|
        0 <= j < events.len() && (#[trigger] events[j]).2@ == "game-join"@ && events[j].1@ == name
            && events[j].0 <= f
}

/// Player slot `p` has car state in a frame.
pub open spec fn has_car_at(frame: PresenceFrame, p: int) -> bool {
    0 <= p < frame.has_car@.len() && frame.has_car@[p]
}

/// The first frame, from index `i` on, where slot `p` has car state.
pub open spec fn first_car_frame(frames: Seq<PresenceFrame>, p: int, i: int) -> Option<i32>
    decreases frames.len() - i,
{
    if i < 0 || i >= frames.len() {
        None
    } else if has_car_at(frames[i], p) {
        Some(frames[i].frame_number)
    } else {
        first_car_frame(frames, p, i + 1)
    }
}

/// Some inferred join names `name`.
pub open spec fn joined_by_inference(joins: Seq<(i32, Seq<char>)>, name: Seq<char>) -> bool {
    exists|j: int| 0 <= j < joins.len() && (#[trigger] joins[j]).1 == name
}

/// The joins inferred for the first `n` players: a player with car state
/// joins at the first frame where it has car state, unless an explicit join
/// of its name comes at or before that frame or it already has an inferred
/// join under its name.
pub open spec fn inferred_joins_upto(
    events: Seq<PresenceEvent>,
    names: Seq<String>,
    frames: Seq<PresenceFrame>,
    n: int,
) -> Seq<(i32, Seq<char>)>
    decreases n,
{
    if n <= 0 {
        Seq::empty()
    } else {
        let before = inferred_joins_upto(events, names, frames, n - 1);
        let name = names[n - 1]@;
        match first_car_frame(frames, n - 1, 0) {
            Some(f) => if joined_explicitly(events, name, f) || joined_by_inference(before, name) {
                before
            } else {
                before.push((f, name))
            },
            None => before,
        }
    }
}

/// The joins inferred for players that have car state before their first
/// explicit join, as `(frame, player name)`, at the first frame with car
/// state.
pub fn inferred_initial_game_joins(
    events: &[PresenceEvent],
    player_names: &[String],
    frames: &[PresenceFrame],
) -> (res: Vec<(i32, String)>)
    ensures
        res@.len() == inferred_joins_upto(events@, player_names@, frames@, player_names@.len() as int).len(),
        forall|k: int|
            0 <= k < res@.len() ==> ((#[trigger] res@[k]).0, res@[k].1@) == inferred_joins_upto(
                events@,
                player_names@,
                frames@,
                player_names@.len() as int,
            )[k],
{
    let mut out: Vec<(i32, String)> = Vec::new();
    let mut p: usize = 0;
    while p < player_names.len()
        invariant
            p <= player_names@.len(),
            out@.len() == inferred_joins_upto(events@, player_names@, frames@, p as int).len(),
            forall|k: int|
                0 <= k < out@.len() ==> ((#[trigger] out@[k]).0, out@[k].1@) == inferred_joins_upto(
                    events@,
                    player_names@,
                    frames@,
                    p as int,
                )[k],
        decreases player_names@.len() - p,
    {
        let ghost before = inferred_joins_upto(events@, player_names@, frames@, p as int);
        let name = &player_names[p];
        let mut i: usize = 0;
        let mut found: Option<i32> = None;
        while i < frames.len() && found.is_none()
            invariant
                i <= frames@.len(),
                p < player_names@.len(),
                found is None ==> first_car_frame(frames@, p as int, i as int) == first_car_frame(
                    frames@,
                    p as int,
                    0,
                ),
                found is Some ==> found == first_car_frame(frames@, p as int, 0),
            decreases frames@.len() - i,
        {
            if p < frames[i].has_car.len() && frames[i].has_car[p] {
                found = Some(frames[i].frame_number);
            }
            i = i + 1;
        }
        let mut joined = false;
        if let Some(f) = found {
            let mut j: usize = 0;
            while j < events.len() && !joined
                invariant
                    j <= events@.len(),
                    !joined ==> forall|k: int|
                        0 <= k < j ==> !((#[trigger] events@[k]).2@ == "game-join"@ && events@[k].1@ == name@
                            && events@[k].0 <= f),
                    joined ==> joined_explicitly(events@, name@, f),
                decreases events@.len() - j,
            {
                if str_eq(events[j].2.as_str(), "game-join") && str_eq(events[j].1.as_str(), name.as_str())
                    && events[j].0 <= f {
                    joined = true;
                }
                j = j + 1;
            }
            assert(!joined ==> !joined_explicitly(events@, name@, f));
            let mut k: usize = 0;
            while k < out.len() && !joined
                invariant
                    k <= out@.len(),
                    out@.len() == before.len(),
                    forall|m: int| 0 <= m < out@.len() ==> ((#[trigger] out@[m]).0, out@[m].1@) == before[m],
                    !joined ==> !joined_explicitly(events@, name@, f),
                    !joined ==> forall|m: int| 0 <= m < k ==> (#[trigger] before[m]).1 != name@,
                    joined ==> joined_explicitly(events@, name@, f) || joined_by_inference(before, name@),
                decreases out@.len() - k,
            {
                if str_eq(out[k].1.as_str(), name.as_str()) {
                    joined = true;
                    assert(before[k as int].1 == name@);
                }
                k = k + 1;
            }
            if !joined {
                out.push((f, name.clone()));
            }
        }
        proof {
            let after = inferred_joins_upto(events@, player_names@, frames@, p + 1);
            if joined {
                assert(after == before);
            }
        }
        p = p + 1;
    }
    out
}

/// A demolition seen in the replay as `(attacker, victim, frame)`.
pub type DemoCandidate = (String, String, i32);

/// The frame of the last recorded demo among the first `n` candidates with
/// the same attacker and victim as candidate `i`.
pub open spec fn last_pair_frame(c: Seq<DemoCandidate>, kept: Seq<bool>, i: int, n: nat) -> Option<i32>
    decreases n,
{
    if n == 0 {
        None
    } else if kept[n - 1] && c[n - 1].0@ == c[i].0@ && c[n - 1].1@ == c[i].1@ {
        Some(c[n - 1].2)
    } else {
        last_pair_frame(c, kept, i, (n - 1) as nat)
    }
}

/// The frame of the last recorded demo among the first `n` candidates with
/// the same victim as candidate `i`.
pub open spec fn last_victim_frame(c: Seq<DemoCandidate>, kept: Seq<bool>, i: int, n: nat) -> Option<i32>
    decreases n,
{
    if n == 0 {
        None
    } else if kept[n - 1] && c[n - 1].1@ == c[i].1@ {
        Some(c[n - 1].2)
    } else {
        last_victim_frame(c, kept, i, (n - 1) as nat)
    }
}

/// Both players of candidate `i` are named, and they differ.
pub open spec fn demo_named(c: Seq<DemoCandidate>, i: int) -> bool {
    c[i].0@.len() > 0 && c[i].1@.len() > 0 && c[i].0@ != c[i].1@
}

/// A frame within the cooldown after an earlier recorded frame.
pub open spec fn within_cooldown(prior: Option<i32>, frame: i32) -> bool {
    prior matches Some(p) && frame - p <= DEMO_EVENT_COOLDOWN_FRAMES
}

/// Whether candidate `i` is recorded, given which earlier ones were: its
/// players are named and differ, and it is not within the cooldown of the
/// last recorded demo of the same pair or of the same victim.
pub open spec fn demo_recorded(c: Seq<DemoCandidate>, kept: Seq<bool>, i: int) -> bool {
    &&& demo_named(c, i)
    &&& !within_cooldown(last_pair_frame(c, kept, i, i as nat), c[i].2)
    &&& !within_cooldown(last_victim_frame(c, kept, i, i as nat), c[i].2)
}

/// Which of the first `n` candidates are recorded.
pub open spec fn recorded_demos(c: Seq<DemoCandidate>, n: nat) -> Seq<bool>
    decreases n,
{
    if n == 0 {
        Seq::empty()
    } else {
        let prev = recorded_demos(c, (n - 1) as nat);
        prev.push(demo_recorded(c, prev, n - 1))
    }
}

/// The differences with the recorded frames that each candidate is checked
/// against fit in an `i32`.
pub open spec fn demo_differences_fit(c: Seq<DemoCandidate>) -> bool {
    forall|i: int|
        0 <= i < c.len() && demo_named(c, i) ==> {
            let kept = #[trigger] recorded_demos(c, i as nat);
            &&& last_pair_frame(c, kept, i, i as nat) matches Some(p) ==> i32::MIN <= c[i].2 - p <= i32::MAX
            &&& last_victim_frame(c, kept, i, i as nat) matches Some(p) ==> i32::MIN <= c[i].2 - p
                <= i32::MAX
        }
}

proof fn lemma_recorded_len(c: Seq<DemoCandidate>, n: nat)
    ensures
        recorded_demos(c, n).len() == n,
    decreases n,
{
    if n > 0 {
        lemma_recorded_len(c, (n - 1) as nat);
    }
}

/// Which demolitions become demo events, taken in order: see
/// `demo_recorded`.
pub fn record_demo_events(candidates: &[DemoCandidate]) -> (res: Vec<bool>)
    requires
        demo_differences_fit(candidates@),
    ensures
        res@ == recorded_demos(candidates@, candidates@.len()),
{
    let ghost c = candidates@;
    let mut kept: Vec<bool> = Vec::new();
    let mut i: usize = 0;
    while i < candidates.len()
        invariant
            c == candidates@,
            i <= c.len(),
            demo_differences_fit(c),
            kept@ == recorded_demos(c, i as nat),
        decreases c.len() - i,
    {
        proof {
            lemma_recorded_len(c, i as nat);
        }
        let attacker = candidates[i].0.as_str();
        let victim = candidates[i].1.as_str();
        let frame = candidates[i].2;
        let named = attacker.unicode_len() > 0 && victim.unicode_len() > 0 && !str_eq(attacker, victim);
        let mut record = false;
        if named {
            let mut pair_frame: Option<i32> = None;
            let mut victim_frame: Option<i32> = None;
            let mut j: usize = i;
            while j > 0
                invariant
                    c == candidates@,
                    i < c.len(),
                    j <= i,
                    kept@.len() == i,
                    attacker@ == c[i as int].0@,
                    victim@ == c[i as int].1@,
                    pair_frame is None ==> last_pair_frame(c, kept@, i as int, i as nat) == last_pair_frame(
                        c,
                        kept@,
                        i as int,
                        j as nat,
                    ),
                    pair_frame is Some ==> pair_frame == last_pair_frame(c, kept@, i as int, i as nat),
                    victim_frame is None ==> last_victim_frame(c, kept@, i as int, i as nat) == last_victim_frame(
                        c,
                        kept@,
                        i as int,
                        j as nat,
                    ),
                    victim_frame is Some ==> victim_frame == last_victim_frame(c, kept@, i as int, i as nat),
                decreases j,
            {
                let k = j - 1;
                if kept[k] {
                    let same_victim = str_eq(candidates[k].1.as_str(), victim);
                    if pair_frame.is_none() && same_victim && str_eq(candidates[k].0.as_str(), attacker) {
                        pair_frame = Some(candidates[k].2);
                    }
                    if victim_frame.is_none() && same_victim {
                        victim_frame = Some(candidates[k].2);
                    }
                }
                j = k;
            }
            assert(kept@ == recorded_demos(c, i as nat));
            let duplicate_pair = match pair_frame {
                Some(p) => frame - p <= DEMO_EVENT_COOLDOWN_FRAMES,
                None => false,
            };
            let duplicate_victim = match victim_frame {
                Some(p) => frame - p <= DEMO_EVENT_COOLDOWN_FRAMES,
                None => false,
            };
            record = !duplicate_pair && !duplicate_victim;
        }
        kept.push(record);
        i = i + 1;
    }
    kept
}

proof fn lemma_recorded_prefix(c: Seq<DemoCandidate>, n: nat, m: nat)
    requires
        n <= m,
    ensures
        recorded_demos(c, m).subrange(0, n as int) == recorded_demos(c, n),
    decreases m,
{
    lemma_recorded_len(c, m);
    lemma_recorded_len(c, n);
    if n < m {
        lemma_recorded_prefix(c, n, (m - 1) as nat);
        lemma_recorded_len(c, (m - 1) as nat);
        assert(recorded_demos(c, m).subrange(0, n as int) =~= recorded_demos(c, (m - 1) as nat).subrange(
            0,
            n as int,
        ));
    } else {
        assert(recorded_demos(c, m).subrange(0, n as int) =~= recorded_demos(c, m));
    }
}

proof fn lemma_last_victim_at_least(c: Seq<DemoCandidate>, kept: Seq<bool>, target: int, n: nat, i: int)
    requires
        0 <= i < n <= kept.len(),
        n <= c.len(),
        kept[i],
        c[i].1@ == c[target].1@,
        forall|a: int, b: int| 0 <= a <= b < c.len() ==> c[a].2 <= c[b].2,
    ensures
        last_victim_frame(c, kept, target, n) matches Some(p) && p >= c[i].2,
    decreases n,
{
    if !(kept[n - 1] && c[n - 1].1@ == c[target].1@) {
        lemma_last_victim_at_least(c, kept, target, (n - 1) as nat, i);
    }
}

/// With frames in order, two recorded demos of the same victim are more
/// than the cooldown apart.
pub proof fn law_demo_victims_spaced(c: Seq<DemoCandidate>, i: int, j: int)
    requires
        0 <= i < j < c.len(),
        forall|a: int, b: int| 0 <= a <= b < c.len() ==> c[a].2 <= c[b].2,
        recorded_demos(c, c.len())[i],
        recorded_demos(c, c.len())[j],
        c[i].1@ == c[j].1@,
    ensures
        c[j].2 - c[i].2 > DEMO_EVENT_COOLDOWN_FRAMES,
{
    let all = recorded_demos(c, c.len());
    lemma_recorded_len(c, c.len());
    lemma_recorded_len(c, (j + 1) as nat);
    lemma_recorded_prefix(c, (j + 1) as nat, c.len());
    lemma_recorded_prefix(c, j as nat, c.len());
    lemma_recorded_len(c, j as nat);
    let kept = recorded_demos(c, j as nat);
    assert(all.subrange(0, (j + 1) as int)[j] == all[j]);
    assert(recorded_demos(c, (j + 1) as nat)[j] == all[j]);
    assert(all.subrange(0, j as int)[i] == all[i]);
    assert(kept[i] == all[i]);
    assert(demo_recorded(c, kept, j));
    lemma_last_victim_at_least(c, kept, j, j as nat, i);
}

} // verus!
