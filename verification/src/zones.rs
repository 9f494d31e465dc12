//! Frame-by-frame zone events: ball retrievals, and entries into and exits
//! from the field's thirds.
use vstd::prelude::*;
use crate::events::{team_name, team_text, zone_cause, zone_event_cause, ContactRow};
use crate::text::str_eq;
use vstd::string::StringExecFns;

verus! {

/// What the zone scan reads of one frame.
#[derive(Clone, Copy, Debug, PartialEq, Eq, Structural)]
pub struct ZoneFrame {
    pub frame_number: i32,
    /// The third the ball is in (1: orange's, -1: blue's, 0: the middle);
    /// `None` when the frame has no ball position.
    pub zone: Option<i32>,
    /// The player (an index into the players) in possession of the ball.
    pub possessor: Option<usize>,
}

/// A zone event found by the scan.
#[derive(Clone, Debug)]
pub struct ZoneEvent {
    pub event_type: &'static str,
    pub frame_number: i32,
    pub team: i32,
    pub player_name: String,
    pub controlled: bool,
}

/// A zone event as `(type, frame, team, player, controlled)`.
pub type ZoneEventView = (Seq<char>, i32, i32, Seq<char>, bool);

/// A ball retrieval is recorded only this many frames or more after the
/// previous one.
pub const RETRIEVAL_MIN_GAP_FRAMES: i32 = 90;

/// A zone entry or exit is not recorded again for the same type and team
/// within this many frames.
pub const ZONE_CHANGE_COOLDOWN_FRAMES: i32 = 60;

/// Some kickoff comes before frame `f`.
pub open spec fn has_prior_kickoff(kickoffs: Seq<i32>, f: i32) -> bool {
    exists|j: int| 0 <= j < kickoffs.len() && #[trigger] kickoffs[j] < f
}

/// Frame `f` lies after a goal and before the next kickoff after it.
pub open spec fn after_goal_before_kickoff(kickoffs: Seq<i32>, goals: Seq<i32>, f: i32) -> bool {
    exists|j: int|
        0 <= j < goals.len() && f > #[trigger] goals[j] && forall|k: int|
            0 <= k < kickoffs.len() && kickoffs[k] > goals[j] ==> f < #[trigger] kickoffs[k]
}

/// Frames where zones are not scanned: before the first kickoff, kickoff
/// frames, and from a goal to the next kickoff.
pub open spec fn dead_frame(kickoffs: Seq<i32>, goals: Seq<i32>, f: i32) -> bool {
    !has_prior_kickoff(kickoffs, f) || kickoffs.contains(f) || after_goal_before_kickoff(kickoffs, goals, f)
}

/// The zone event a change of third makes, as `(type, team)`: entering
/// orange's third is an entry for blue (team 0), entering blue's third one
/// for orange; leaving blue's third is an exit for blue, leaving orange's
/// one for orange.
pub open spec fn zone_change(previous: i32, zone: i32) -> Option<(Seq<char>, i32)> {
    if zone == previous {
        None
    } else if zone == 1 && previous != 1 {
        Some(("entry"@, 0i32))
    } else if zone == -1 && previous != -1 {
        Some(("entry"@, 1i32))
    } else if previous == -1 && zone != -1 {
        Some(("exit"@, 0i32))
    } else if previous == 1 && zone != 1 {
        Some(("exit"@, 1i32))
    } else {
        None
    }
}

/// Between the thirds (-1 blue's, 0 the middle, 1 orange's), every change
/// of third makes exactly one zone event and staying makes none: moving
/// into a team's third is an entry of the other team, and moving from a
/// team's third into the middle is an exit of that team.
pub proof fn law_zone_changes(previous: i32, zone: i32)
    requires
        -1 <= previous <= 1,
        -1 <= zone <= 1,
    ensures
        previous == zone <==> zone_change(previous, zone) is None,
        zone == 1 && previous != 1 ==> zone_change(previous, zone) == Some(("entry"@, 0i32)),
        zone == -1 && previous != -1 ==> zone_change(previous, zone) == Some(("entry"@, 1i32)),
        previous == -1 && zone == 0 ==> zone_change(previous, zone) == Some(("exit"@, 0i32)),
        previous == 1 && zone == 0 ==> zone_change(previous, zone) == Some(("exit"@, 1i32)),
{
}

/// The frame of the last recorded zone change `(frame, type, team)` among
/// the first `n` with this type and team.
pub open spec fn last_zone_frame(list: Seq<(i32, Seq<char>, i32)>, t: Seq<char>, team: i32, n: int) -> Option<i32>
    decreases n,
{
    if n <= 0 {
        None
    } else if list[n - 1].1 == t && list[n - 1].2 == team {
        Some(list[n - 1].0)
    } else {
        last_zone_frame(list, t, team, n - 1)
    }
}

/// The scan's state: the previous third and possessor, the last
/// retrieval's frame, the zone changes recorded so far (those found from
/// touches first), and the events found.
pub struct ZoneScan {
    pub previous_zone: i32,
    pub previous_possessor: Option<usize>,
    pub last_retrieval: int,
    pub changes: Seq<(i32, Seq<char>, i32)>,
    pub events: Seq<ZoneEventView>,
}

/// The scan after one more frame. Frames without a ball are skipped; dead
/// frames reset the possessor. Otherwise a possessor appearing after a
/// frame without one is a retrieval (more than 90 frames after the last);
/// and a change of third is an entry or exit, unless the same one was
/// recorded within 60 frames, credited as `zone_cause` says.
pub open spec fn zone_step(
    s: ZoneScan,
    fr: ZoneFrame,
    players: Seq<(String, i32)>,
    kickoffs: Seq<i32>,
    goals: Seq<i32>,
    contacts: Seq<ContactRow>,
) -> ZoneScan {
    match fr.zone {
        None => s,
        Some(zone) => if dead_frame(kickoffs, goals, fr.frame_number) {
            ZoneScan { previous_zone: zone, previous_possessor: None, ..s }
        } else {
            let retrieval = s.previous_possessor is None && fr.possessor is Some && fr.frame_number
                - s.last_retrieval > RETRIEVAL_MIN_GAP_FRAMES;
            let events1 = if retrieval {
                let idx = fr.possessor.unwrap() as int;
                s.events.push(("retrieval"@, fr.frame_number, players[idx].1, players[idx].0@, true))
            } else {
                s.events
            };
            let last_retrieval = if retrieval {
                fr.frame_number as int
            } else {
                s.last_retrieval
            };
            let next = ZoneScan {
                previous_zone: zone,
                previous_possessor: fr.possessor,
                last_retrieval,
                changes: s.changes,
                events: events1,
            };
            match zone_change(s.previous_zone, zone) {
                Some((t, team)) => {
                    let recent = match last_zone_frame(s.changes, t, team, s.changes.len() as int) {
                        Some(p) => fr.frame_number - p <= ZONE_CHANGE_COOLDOWN_FRAMES,
                        None => false,
                    };
                    if recent {
                        next
                    } else {
                        match zone_cause(contacts, fr.frame_number, team, fr.possessor, players) {
                            Some((name, controlled)) => ZoneScan {
                                changes: s.changes.push((fr.frame_number, t, team)),
                                events: events1.push((t, fr.frame_number, team, name, controlled)),
                                ..next
                            },
                            None => next,
                        }
                    }
                },
                None => next,
            }
        },
    }
}

/// The scan after the first `n` frames, starting from the zone changes
/// already recorded from touches.
pub open spec fn zone_scan(
    frames: Seq<ZoneFrame>,
    players: Seq<(String, i32)>,
    kickoffs: Seq<i32>,
    goals: Seq<i32>,
    contacts: Seq<ContactRow>,
    prior: Seq<(i32, Seq<char>, i32)>,
    n: int,
) -> ZoneScan
    decreases n,
{
    if n <= 0 {
        ZoneScan {
            previous_zone: 0,
            previous_possessor: None,
            last_retrieval: -10_000,
            changes: prior,
            events: Seq::empty(),
        }
    } else {
        zone_step(
            zone_scan(frames, players, kickoffs, goals, contacts, prior, n - 1),
            frames[n - 1],
            players,
            kickoffs,
            goals,
            contacts,
        )
    }
}

fn has_prior_kickoff_exec(kickoffs: &[i32], f: i32) -> (res: bool)
    ensures
        res == has_prior_kickoff(kickoffs@, f),
{
    let mut j: usize = 0;
    while j < kickoffs.len()
        invariant
            j <= kickoffs@.len(),
            forall|t: int| 0 <= t < j ==> !(kickoffs@[t] < f),
        decreases kickoffs@.len() - j,
    {
        if kickoffs[j] < f {
            return true;
        }
        j = j + 1;
    }
    false
}

fn contains_frame(frames: &[i32], f: i32) -> (res: bool)
    ensures
        res == frames@.contains(f),
{
    let mut j: usize = 0;
    while j < frames.len()
        invariant
            j <= frames@.len(),
            forall|t: int| 0 <= t < j ==> frames@[t] != f,
        decreases frames@.len() - j,
    {
        if frames[j] == f {
            assert(frames@[j as int] == f);
            return true;
        }
        j = j + 1;
    }
    false
}

fn before_next_kickoff(kickoffs: &[i32], g: i32, f: i32) -> (res: bool)
    ensures
        res == forall|k: int| 0 <= k < kickoffs@.len() && kickoffs@[k] > g ==> f < #[trigger] kickoffs@[k],
{
    let mut k: usize = 0;
    while k < kickoffs.len()
        invariant
            k <= kickoffs@.len(),
            forall|t: int| 0 <= t < k && kickoffs@[t] > g ==> f < #[trigger] kickoffs@[t],
        decreases kickoffs@.len() - k,
    {
        if kickoffs[k] > g && !(f < kickoffs[k]) {
            return false;
        }
        k = k + 1;
    }
    true
}

fn after_goal_before_kickoff_exec(kickoffs: &[i32], goals: &[i32], f: i32) -> (res: bool)
    ensures
        res == after_goal_before_kickoff(kickoffs@, goals@, f),
{
    let mut j: usize = 0;
    while j < goals.len()
        invariant
            j <= goals@.len(),
            forall|t: int|
                0 <= t < j ==> !(f > #[trigger] goals@[t] && forall|k: int|
                    0 <= k < kickoffs@.len() && kickoffs@[k] > goals@[t] ==> f < #[trigger] kickoffs@[k]),
        decreases goals@.len() - j,
    {
        if f > goals[j] && before_next_kickoff(kickoffs, goals[j], f) {
            return true;
        }
        j = j + 1;
    }
    false
}

/// Whether zones are not scanned on frame `f`; see `dead_frame`.
pub fn is_dead_frame(kickoffs: &[i32], goals: &[i32], f: i32) -> (res: bool)
    ensures
        res == dead_frame(kickoffs@, goals@, f),
{
    !has_prior_kickoff_exec(kickoffs, f) || contains_frame(kickoffs, f) || after_goal_before_kickoff_exec(
        kickoffs,
        goals,
        f,
    )
}

fn zone_change_exec(previous: i32, zone: i32) -> (res: Option<(&'static str, i32)>)
    ensures
        match res {
            Some((t, team)) => zone_change(previous, zone) == Some((t@, team)),
            None => zone_change(previous, zone) is None,
        },
{
    if zone == previous {
        None
    } else if zone == 1 && previous != 1 {
        Some(("entry", 0))
    } else if zone == -1 && previous != -1 {
        Some(("entry", 1))
    } else if previous == -1 && zone != -1 {
        Some(("exit", 0))
    } else if previous == 1 && zone != 1 {
        Some(("exit", 1))
    } else {
        None
    }
}

/// What the scan keeps of a recorded zone change.
pub open spec fn change_view(c: (i32, String, i32)) -> (i32, Seq<char>, i32) {
    (c.0, c.1@, c.2)
}

fn last_zone(list: &Vec<(i32, String, i32)>, t: &str, team: i32) -> (res: Option<i32>)
    ensures
        res == last_zone_frame(
            list@.map_values(|c: (i32, String, i32)| change_view(c)),
            t@,
            team,
            list@.len() as int,
        ),
{
    let ghost v = list@.map_values(|c: (i32, String, i32)| change_view(c));
    let mut n: usize = list.len();
    while n > 0
        invariant
            v == list@.map_values(|c: (i32, String, i32)| change_view(c)),
            n <= list@.len(),
            last_zone_frame(v, t@, team, list@.len() as int) == last_zone_frame(v, t@, team, n as int),
        decreases n,
    {
        if list[n - 1].2 == team && str_eq(list[n - 1].1.as_str(), t) {
            return Some(list[n - 1].0);
        }
        n = n - 1;
    }
    None
}

/// What the scan reports of a zone event.
pub open spec fn event_view(e: ZoneEvent) -> ZoneEventView {
    (e.event_type@, e.frame_number, e.team, e.player_name@, e.controlled)
}

/// Scans frames for retrievals and zone entries and exits, given the
/// players as `(name, team)`, the kickoff and goal frames, the ball
/// contact rows, and the zone changes already recorded from touches as
/// `(frame, type, team)`; see `zone_step`.
pub fn zone_frame_events(
    frames: &[ZoneFrame],
    players: &[(String, i32)],
    kickoffs: &[i32],
    goals: &[i32],
    contacts: &[ContactRow],
    prior: &[(i32, String, i32)],
) -> (res: Vec<ZoneEvent>)
    requires
        forall|i: int|
            0 <= i < frames@.len() && (#[trigger] frames@[i]).possessor is Some ==> frames@[i].possessor.unwrap()
                < players@.len(),
    ensures
        res@.map_values(|e: ZoneEvent| event_view(e)) == zone_scan(
            frames@,
            players@,
            kickoffs@,
            goals@,
            contacts@,
            prior@.map_values(|c: (i32, String, i32)| change_view(c)),
            frames@.len() as int,
        ).events,
{
    let ghost pv = prior@.map_values(|c: (i32, String, i32)| change_view(c));
    let mut changes: Vec<(i32, String, i32)> = Vec::new();
    let mut j: usize = 0;
    while j < prior.len()
        invariant
            j <= prior@.len(),
            changes@.map_values(|c: (i32, String, i32)| change_view(c)) =~= pv.take(j as int),
            pv == prior@.map_values(|c: (i32, String, i32)| change_view(c)),
        decreases prior@.len() - j,
    {
        let ghost old_changes = changes@;
        changes.push((prior[j].0, prior[j].1.clone(), prior[j].2));
        proof {
            assert(changes@ == old_changes.push((prior@[j as int].0, prior@[j as int].1, prior@[j as int].2)));
            let f = |c: (i32, String, i32)| change_view(c);
            assert(old_changes.map_values(f) =~= pv.take(j as int));
            assert forall|k: int| 0 <= k < j + 1 implies changes@.map_values(f)[k] == pv.take(j + 1)[k] by {
                if k < j {
                    assert(old_changes.map_values(f)[k] == pv.take(j as int)[k]);
                    assert(changes@[k] == old_changes[k]);
                }
            }
            assert(changes@.map_values(f) =~= pv.take(j + 1));
        }
        j = j + 1;
    }
    assert(pv.take(prior@.len() as int) =~= pv);
    let mut res: Vec<ZoneEvent> = Vec::new();
    let mut previous_zone: i32 = 0;
    let mut previous_possessor: Option<usize> = None;
    let mut last_retrieval: i64 = -10_000;
    let mut i: usize = 0;
    while i < frames.len()
        invariant
            i <= frames@.len(),
            pv == prior@.map_values(|c: (i32, String, i32)| change_view(c)),
            forall|t: int|
                0 <= t < frames@.len() && (#[trigger] frames@[t]).possessor is Some
                    ==> frames@[t].possessor.unwrap() < players@.len(),
            ({
                let sc = zone_scan(frames@, players@, kickoffs@, goals@, contacts@, pv, i as int);
                &&& sc.previous_zone == previous_zone
                &&& sc.previous_possessor == previous_possessor
                &&& sc.last_retrieval == last_retrieval as int
                &&& sc.changes == changes@.map_values(|c: (i32, String, i32)| change_view(c))
                &&& sc.events == res@.map_values(|e: ZoneEvent| event_view(e))
            }),
            -10_000 <= last_retrieval <= i32::MAX,
        decreases frames@.len() - i,
    {
        let fr = frames[i];
        let ghost before = res@;
        let ghost changes_before = changes@;
        match fr.zone {
            None => {},
            Some(zone) => {
                if is_dead_frame(kickoffs, goals, fr.frame_number) {
                    previous_zone = zone;
                    previous_possessor = None;
                } else {
                    let mut retrieval = false;
                    if previous_possessor.is_none() {
                        match fr.possessor {
                            Some(idx) => {
                                if (fr.frame_number as i64) - last_retrieval > 90 {
                                    retrieval = true;
                                    res.push(
                                        ZoneEvent {
                                            event_type: "retrieval",
                                            frame_number: fr.frame_number,
                                            team: players[idx].1,
                                            player_name: players[idx].0.clone(),
                                            controlled: true,
                                        },
                                    );
                                    last_retrieval = fr.frame_number as i64;
                                }
                            },
                            None => {},
                        }
                    }
                    proof {
                        assert(res@.map_values(|e: ZoneEvent| event_view(e)) =~= if retrieval {
                            before.map_values(|e: ZoneEvent| event_view(e)).push(
                                (
                                    "retrieval"@,
                                    fr.frame_number,
                                    players@[fr.possessor.unwrap() as int].1,
                                    players@[fr.possessor.unwrap() as int].0@,
                                    true,
                                ),
                            )
                        } else {
                            before.map_values(|e: ZoneEvent| event_view(e))
                        });
                    }
                    let ghost mid = res@;
                    match zone_change_exec(previous_zone, zone) {
                        Some((t, team)) => {
                            let recent = match last_zone(&changes, t, team) {
                                Some(p) => (fr.frame_number as i64) - (p as i64) <= 60,
                                None => false,
                            };
                            if !recent {
                                match zone_event_cause(contacts, fr.frame_number, team, fr.possessor, players) {
                                    Some((name, controlled)) => {
                                        res.push(
                                            ZoneEvent {
                                                event_type: t,
                                                frame_number: fr.frame_number,
                                                team,
                                                player_name: name,
                                                controlled,
                                            },
                                        );
                                        changes.push((fr.frame_number, String::from_str(t), team));
                                        proof {
                                            assert(res@.map_values(|e: ZoneEvent| event_view(e)) =~= mid.map_values(
                                                |e: ZoneEvent| event_view(e),
                                            ).push((t@, fr.frame_number, team, name@, controlled)));
                                            assert(changes@.map_values(|c: (i32, String, i32)| change_view(c))
                                                =~= changes_before.map_values(
                                                |c: (i32, String, i32)| change_view(c),
                                            ).push((fr.frame_number, t@, team)));
                                        }
                                    },
                                    None => {},
                                }
                            }
                        },
                        None => {},
                    }
                    previous_zone = zone;
                    previous_possessor = fr.possessor;
                }
            },
        }
        i = i + 1;
    }
    res
}

/// Among the first `n` players, the first one in reach of the ball with the
/// smallest distance rank.
pub open spec fn nearest_in_reach(ranks: Seq<Option<u32>>, n: int) -> Option<int>
    decreases n,
{
    if n <= 0 {
        None
    } else {
        let earlier = nearest_in_reach(ranks, n - 1);
        match ranks[n - 1] {
            Some(r) => match earlier {
                Some(b) => if r < ranks[b]->0 {
                    Some(n - 1)
                } else {
                    earlier
                },
                None => Some(n - 1),
            },
            None => earlier,
        }
    }
}

proof fn lemma_nearest_in_reach(ranks: Seq<Option<u32>>, n: int)
    ensures
        nearest_in_reach(ranks, n) matches Some(b) ==> 0 <= b < n && ranks[b] is Some,
    decreases n,
{
    if n > 0 {
        lemma_nearest_in_reach(ranks, n - 1);
    }
}

/// The player holding the ball, from each player's distance rank where it
/// is in reach of the ball (none where it is out of reach or its position
/// is unknown): the first player with the smallest rank.
pub fn closest_possessor_within(ranks: &[Option<u32>]) -> (res: Option<usize>)
    ensures
        match res {
            Some(b) => nearest_in_reach(ranks@, ranks@.len() as int) == Some(b as int),
            None => nearest_in_reach(ranks@, ranks@.len() as int) is None,
        },
{
    let mut best: Option<usize> = None;
    let mut i: usize = 0;
    while i < ranks.len()
        invariant
            i <= ranks@.len(),
            match best {
                Some(b) => nearest_in_reach(ranks@, i as int) == Some(b as int),
                None => nearest_in_reach(ranks@, i as int) is None,
            },
        decreases ranks.len() - i,
    {
        proof {
            lemma_nearest_in_reach(ranks@, i as int);
        }
        match ranks[i] {
            Some(r) => match best {
                Some(b) => {
                    let current = ranks[b];
                    match current {
                        Some(c) => {
                            if r < c {
                                best = Some(i);
                            }
                        },
                        None => {},
                    }
                },
                None => {
                    best = Some(i);
                },
            },
            None => {},
        }
        i += 1;
    }
    best
}

/// Some row `(event type, frame, event team)` already records a zone event
/// of this type for this team at this frame.
pub open spec fn zone_row_exists(rows: Seq<(String, Option<i32>, String)>, t: Seq<char>, team: i32, frame: i32) -> bool {
    exists|k: int|
        0 <= k < rows.len() && #[trigger] rows[k].0@ == t && rows[k].1 == Some(frame) && rows[k].2@ == team_text(team)
}

/// Whether some row `(event type, frame, event team)` already records a
/// zone event of this type for this team at this frame.
pub fn zone_event_exists(rows: &[(String, Option<i32>, String)], event_type: &str, team: i32, frame_number: i32) -> (res:
    bool)
    ensures
        res == zone_row_exists(rows@, event_type@, team, frame_number),
{
    let label = team_name(team);
    let mut k: usize = 0;
    while k < rows.len()
        invariant
            k <= rows@.len(),
            label@ == team_text(team),
            forall|j: int|
                0 <= j < k ==> !(#[trigger] rows@[j].0@ == event_type@ && rows@[j].1 == Some(frame_number) && rows@[j].2@
                    == team_text(team)),
        decreases rows.len() - k,
    {
        if str_eq(rows[k].0.as_str(), event_type) && rows[k].1 == Some(frame_number) && str_eq(
            rows[k].2.as_str(),
            label,
        ) {
            return true;
        }
        k += 1;
    }
    false
}

} // verus!
