//! Classification of ball hits into touches, passes, shots, goals, saves,
//! clears, kickoffs and misses, given what the ball's path shows of each
//! hit.
use vstd::prelude::*;
use crate::text::str_eq;
use crate::sorting::strictly_increasing;
use crate::stints::{kickoff_picks, kickoff_touch_event_indices, opens_kickoff_window};

verus! {

/// A ball hit, with what its ball path shows.
#[derive(Clone, Debug)]
pub struct BallHit {
    pub frame_number: i32,
    pub player_name: String,
    pub goal_number: i32,
    /// The ball heads into the opponent goal from this hit.
    pub on_target: bool,
    /// The ball heads at the opponent goal from this hit and misses it.
    pub missed_target: bool,
    /// The hit clears the ball out of the team's defensive third.
    pub clears: bool,
    /// The teammate a failed pass from this hit was aimed at, if any.
    pub pass_target: Option<String>,
}

/// A goal is credited to a hit of its scorer at most this many frames
/// before it.
pub const GOAL_TOUCH_WINDOW_FRAMES: i32 = 120;

/// A pass between the same passer and receiver within this many frames of
/// the previous one is not counted again.
pub const PASS_DUPLICATE_WINDOW_FRAMES: i32 = 20;

/// Hit `j` can be the scoring hit of goal `g`: by the scorer, at or before
/// the goal frame and at most 120 frames before it.
pub open spec fn scores(hits: Seq<BallHit>, g: (i32, String), j: int) -> bool {
    &&& hits[j].frame_number <= g.0
    &&& g.0 - hits[j].frame_number <= GOAL_TOUCH_WINDOW_FRAMES
    &&& hits[j].player_name@ == g.1@
}

/// The last of the first `n` hits that can be the scoring hit of goal `g`.
pub open spec fn goal_pick(hits: Seq<BallHit>, g: (i32, String), n: int) -> Option<int>
    decreases n,
{
    if n <= 0 {
        None
    } else if scores(hits, g, n - 1) {
        Some(n - 1)
    } else {
        goal_pick(hits, g, n - 1)
    }
}

/// Hit `i` is the scoring hit of one of the goals.
pub open spec fn is_goal_hit(hits: Seq<BallHit>, goals: Seq<(i32, String)>, i: int) -> bool {
    exists|k: int| 0 <= k < goals.len() && goal_pick(hits, #[trigger] goals[k], hits.len() as int) == Some(i)
}

fn find_goal_hit(hits: &[BallHit], goal: &(i32, String)) -> (res: Option<usize>)
    ensures
        match res {
            Some(j) => goal_pick(hits@, *goal, hits@.len() as int) == Some(j as int) && j < hits@.len(),
            None => goal_pick(hits@, *goal, hits@.len() as int) is None,
        },
{
    let mut n: usize = hits.len();
    while n > 0
        invariant
            n <= hits@.len(),
            goal_pick(hits@, *goal, hits@.len() as int) == goal_pick(hits@, *goal, n as int),
        decreases n,
    {
        let h = &hits[n - 1];
        let close = h.frame_number <= goal.0 && (goal.0 as i64) - (h.frame_number as i64) <= 120;
        if close && str_eq(h.player_name.as_str(), goal.1.as_str()) {
            return Some(n - 1);
        }
        n = n - 1;
    }
    None
}

/// Which hits score the goals `(frame, scorer)`: for each goal, the last
/// hit of its scorer within 120 frames before it.
pub fn goal_hits(hits: &[BallHit], goals: &[(i32, String)]) -> (res: Vec<bool>)
    ensures
        res@.len() == hits@.len(),
        forall|i: int| 0 <= i < hits@.len() ==> #[trigger] res@[i] == is_goal_hit(hits@, goals@, i),
{
    let mut flags: Vec<bool> = Vec::new();
    let mut i: usize = 0;
    while i < hits.len()
        invariant
            i <= hits@.len(),
            flags@.len() == i,
            forall|t: int| 0 <= t < i ==> !flags@[t],
        decreases hits@.len() - i,
    {
        flags.push(false);
        i = i + 1;
    }
    let mut k: usize = 0;
    while k < goals.len()
        invariant
            k <= goals@.len(),
            flags@.len() == hits@.len(),
            forall|t: int|
                0 <= t < hits@.len() ==> #[trigger] flags@[t] == exists|q: int|
                    0 <= q < k && goal_pick(hits@, #[trigger] goals@[q], hits@.len() as int) == Some(t),
        decreases goals@.len() - k,
    {
        match find_goal_hit(hits, &goals[k]) {
            Some(j) => {
                flags.set(j, true);
            },
            None => {},
        }
        proof {
            assert forall|t: int| 0 <= t < hits@.len() implies #[trigger] flags@[t] == exists|q: int|
                0 <= q < k + 1 && goal_pick(hits@, #[trigger] goals@[q], hits@.len() as int) == Some(t) by {
                if goal_pick(hits@, goals@[k as int], hits@.len() as int) == Some(t) {
                    assert(0 <= k < k + 1);
                }
            }
        }
        k = k + 1;
    }
    flags
}

/// The team of the first player from index `k` on with this name.
pub open spec fn team_from(players: Seq<(String, i32)>, name: Seq<char>, k: int) -> Option<i32>
    decreases players.len() - k,
{
    if k < 0 || k >= players.len() {
        None
    } else if players[k].0@ == name {
        Some(players[k].1)
    } else {
        team_from(players, name, k + 1)
    }
}

/// The team of the first player, given as `(name, team)`, with this name.
pub open spec fn team_of(players: Seq<(String, i32)>, name: Seq<char>) -> Option<i32> {
    team_from(players, name, 0)
}

fn find_team(players: &[(String, i32)], name: &str) -> (res: Option<i32>)
    ensures
        res == team_of(players@, name@),
{
    let mut k: usize = 0;
    while k < players.len()
        invariant
            k <= players@.len(),
            team_of(players@, name@) == team_from(players@, name@, k as int),
        decreases players@.len() - k,
    {
        if str_eq(players[k].0.as_str(), name) {
            return Some(players[k].1);
        }
        k = k + 1;
    }
    None
}

/// Hit `i` is followed by a hit of the same goal number.
pub open spec fn has_next(hits: Seq<BallHit>, i: int) -> bool {
    i + 1 < hits.len() && hits[i + 1].goal_number == hits[i].goal_number
}

/// Hit `i` and the next are by different players of the same team (two
/// players of no known team count as one team).
pub open spec fn same_team_pair(hits: Seq<BallHit>, players: Seq<(String, i32)>, i: int) -> bool {
    &&& team_of(players, hits[i].player_name@) == team_of(players, hits[i + 1].player_name@)
    &&& hits[i].player_name@ != hits[i + 1].player_name@
}

/// The frame of the last counted pass among the first `n` hits from the
/// same passer to the same receiver as the pair at `i`.
pub open spec fn last_pass_frame(hits: Seq<BallHit>, passes: Seq<bool>, i: int, n: int) -> Option<i32>
    decreases n,
{
    if n <= 0 {
        None
    } else if passes[n - 1] && hits[n - 1].player_name@ == hits[i].player_name@ && hits[n].player_name@
        == hits[i + 1].player_name@ {
        Some(hits[n - 1].frame_number)
    } else {
        last_pass_frame(hits, passes, i, n - 1)
    }
}

/// After the first `n` hits: which were counted as passes, and the last
/// passing hit that a later shot credits with an assist. A hit is a pass
/// when the next hit of the same goal number is by a teammate, unless the
/// same passer and receiver made a counted pass at most 20 frames before;
/// a hit followed by an opponent's hit clears the assist candidate.
pub open spec fn pass_state(hits: Seq<BallHit>, players: Seq<(String, i32)>, n: int) -> (Seq<bool>, Option<int>)
    decreases n,
{
    if n <= 0 {
        (Seq::empty(), None)
    } else {
        let st = pass_state(hits, players, n - 1);
        let i = n - 1;
        if has_next(hits, i) {
            if same_team_pair(hits, players, i) {
                let dup = match last_pass_frame(hits, st.0, i, i) {
                    Some(f) => hits[i].frame_number - f <= PASS_DUPLICATE_WINDOW_FRAMES,
                    None => false,
                };
                if dup {
                    (st.0.push(false), st.1)
                } else {
                    (st.0.push(true), Some(i))
                }
            } else if hits[i].player_name@ != hits[i + 1].player_name@ {
                (st.0.push(false), None)
            } else {
                (st.0.push(false), st.1)
            }
        } else {
            (st.0.push(false), st.1)
        }
    }
}

/// Hit `i` is counted as a pass.
pub open spec fn is_pass(hits: Seq<BallHit>, players: Seq<(String, i32)>, i: int) -> bool {
    pass_state(hits, players, i + 1).0[i]
}

/// The assist candidate once hit `i` is processed.
pub open spec fn passer_after(hits: Seq<BallHit>, players: Seq<(String, i32)>, i: int) -> Option<int> {
    pass_state(hits, players, i + 1).1
}

proof fn lemma_pass_state_shape(hits: Seq<BallHit>, players: Seq<(String, i32)>, n: int)
    requires
        0 <= n,
    ensures
        pass_state(hits, players, n).0.len() == n,
        pass_state(hits, players, n).1 matches Some(j) ==> 0 <= j < n && pass_state(hits, players, n).0[j],
        forall|t: int| 0 <= t < n ==> #[trigger] pass_state(hits, players, n).0[t] ==> has_next(hits, t),
    decreases n,
{
    if n > 0 {
        lemma_pass_state_shape(hits, players, n - 1);
    }
}

/// Marks the passes among the hits, and gives for each hit the assist
/// candidate once it is processed; see `pass_state`.
pub fn pass_flags(hits: &[BallHit], players: &[(String, i32)]) -> (res: (Vec<bool>, Vec<Option<usize>>))
    ensures
        res.0@ == pass_state(hits@, players@, hits@.len() as int).0,
        res.1@.len() == hits@.len(),
        forall|i: int| 0 <= i < hits@.len() ==> #[trigger] res.0@[i] == is_pass(hits@, players@, i),
        forall|i: int|
            0 <= i < hits@.len() ==> match #[trigger] res.1@[i] {
                Some(j) => passer_after(hits@, players@, i) == Some(j as int),
                None => passer_after(hits@, players@, i) is None,
            },
{
    let ghost h = hits@;
    let ghost pl = players@;
    let mut passes: Vec<bool> = Vec::new();
    let mut after: Vec<Option<usize>> = Vec::new();
    let mut last: Option<usize> = None;
    let mut i: usize = 0;
    while i < hits.len()
        invariant
            h == hits@,
            pl == players@,
            i <= h.len(),
            passes@ == pass_state(h, pl, i as int).0,
            match last {
                Some(j) => pass_state(h, pl, i as int).1 == Some(j as int),
                None => pass_state(h, pl, i as int).1 is None,
            },
            after@.len() == i,
            forall|t: int| 0 <= t < i ==> #[trigger] passes@[t] == is_pass(h, pl, t),
            forall|t: int|
                0 <= t < i ==> match #[trigger] after@[t] {
                    Some(j) => passer_after(h, pl, t) == Some(j as int),
                    None => passer_after(h, pl, t) is None,
                },
        decreases h.len() - i,
    {
        proof {
            lemma_pass_state_shape(h, pl, i as int);
        }
        let mut counted = false;
        if i + 1 < hits.len() && hits[i + 1].goal_number == hits[i].goal_number {
            let name = hits[i].player_name.as_str();
            let next_name = hits[i + 1].player_name.as_str();
            let same_name = str_eq(name, next_name);
            if !same_name && find_team(players, name) == find_team(players, next_name) {
                let mut prior: Option<i32> = None;
                let mut n: usize = i;
                while n > 0
                    invariant
                        h == hits@,
                        i + 1 < h.len(),
                        n <= i,
                        passes@.len() == i,
                        name@ == h[i as int].player_name@,
                        next_name@ == h[i + 1].player_name@,
                        prior is None ==> last_pass_frame(h, passes@, i as int, i as int) == last_pass_frame(
                            h,
                            passes@,
                            i as int,
                            n as int,
                        ),
                        prior is Some ==> prior == last_pass_frame(h, passes@, i as int, i as int),
                    decreases n,
                {
                    if prior.is_none() && passes[n - 1] && str_eq(hits[n - 1].player_name.as_str(), name)
                        && str_eq(hits[n].player_name.as_str(), next_name) {
                        prior = Some(hits[n - 1].frame_number);
                    }
                    n = n - 1;
                }
                let dup = match prior {
                    Some(f) => (hits[i].frame_number as i64) - (f as i64) <= 20,
                    None => false,
                };
                if !dup {
                    counted = true;
                    last = Some(i);
                }
            } else if !same_name {
                last = None;
            }
        }
        passes.push(counted);
        after.push(last);
        proof {
            assert(passes@ =~= pass_state(h, pl, i + 1).0);
        }
        i = i + 1;
    }
    (passes, after)
}

/// Hit `i` is a shot: its ball heads into the goal, or it scores.
pub open spec fn is_shot_hit(hits: Seq<BallHit>, goals: Seq<(i32, String)>, i: int) -> bool {
    hits[i].on_target || is_goal_hit(hits, goals, i)
}

/// Hit `i` is a shot at the goal that misses it.
pub open spec fn is_missed_shot_hit(hits: Seq<BallHit>, goals: Seq<(i32, String)>, i: int) -> bool {
    !is_shot_hit(hits, goals, i) && hits[i].missed_target
}

/// Hit `i` is a failed pass: not a pass, shot or missed shot, and aimed at
/// a teammate.
pub open spec fn is_missed_pass_hit(hits: Seq<BallHit>, players: Seq<(String, i32)>, goals: Seq<(i32, String)>, i: int) -> bool {
    &&& !is_pass(hits, players, i)
    &&& !is_shot_hit(hits, goals, i)
    &&& !is_missed_shot_hit(hits, goals, i)
    &&& hits[i].pass_target is Some
}

/// The second player of hit `i`: for a shot after a pass, the passer; for a
/// pass, the receiver; for a failed pass, its target; else nobody.
pub open spec fn second_player(hits: Seq<BallHit>, players: Seq<(String, i32)>, goals: Seq<(i32, String)>, i: int) -> Seq<char> {
    if is_shot_hit(hits, goals, i) && passer_after(hits, players, i) is Some {
        hits[passer_after(hits, players, i).unwrap()].player_name@
    } else if is_pass(hits, players, i) {
        hits[i + 1].player_name@
    } else if is_missed_pass_hit(hits, players, goals, i) {
        hits[i].pass_target.unwrap()@
    } else {
        Seq::empty()
    }
}

/// Hit `j` is the pass that set up a later shot.
pub open spec fn is_assist_hit(hits: Seq<BallHit>, players: Seq<(String, i32)>, goals: Seq<(i32, String)>, j: int) -> bool {
    exists|i: int|
        0 <= i < hits.len() && is_shot_hit(hits, goals, i) && #[trigger] passer_after(hits, players, i) == Some(j)
}

/// Hit `i` answers the previous hit, a shot that did not score, by the
/// other team.
pub open spec fn is_save_hit(hits: Seq<BallHit>, players: Seq<(String, i32)>, goals: Seq<(i32, String)>, i: int) -> bool {
    &&& i > 0
    &&& is_shot_hit(hits, goals, i - 1)
    &&& !is_goal_hit(hits, goals, i - 1)
    &&& team_of(players, hits[i - 1].player_name@) != team_of(players, hits[i].player_name@)
}

/// The frame of the previous hit of the same goal number.
pub open spec fn previous_hit_frame(hits: Seq<BallHit>, i: int) -> Option<i32> {
    if i > 0 && hits[i - 1].goal_number == hits[i].goal_number {
        Some(hits[i - 1].frame_number)
    } else {
        None
    }
}

/// The frame of the next hit of the same goal number.
pub open spec fn next_hit_frame(hits: Seq<BallHit>, i: int) -> Option<i32> {
    if has_next(hits, i) {
        Some(hits[i + 1].frame_number)
    } else {
        None
    }
}

/// The player of the last of the first `n` hits on frame `f`.
pub open spec fn last_player_at(hits: Seq<BallHit>, f: i32, n: int) -> Option<Seq<char>>
    decreases n,
{
    if n <= 0 {
        None
    } else if hits[n - 1].frame_number == f {
        Some(hits[n - 1].player_name@)
    } else {
        last_player_at(hits, f, n - 1)
    }
}

/// The event type of hit `i`, given the kickoff touches: kickoff, goal,
/// shot (shots and saves), missed shot, missed pass, exit (clears), pass,
/// or touch, in that order of precedence.
pub open spec fn hit_type(
    hits: Seq<BallHit>,
    players: Seq<(String, i32)>,
    goals: Seq<(i32, String)>,
    picks: Seq<int>,
    i: int,
) -> Seq<char> {
    if picks.contains(i) {
        "kickoff"@
    } else if is_goal_hit(hits, goals, i) {
        "goal"@
    } else if is_shot_hit(hits, goals, i) || is_save_hit(hits, players, goals, i) {
        "shot"@
    } else if is_missed_shot_hit(hits, goals, i) {
        "missed-shot"@
    } else if is_missed_pass_hit(hits, players, goals, i) {
        "missed-pass"@
    } else if hits[i].clears {
        "exit"@
    } else if is_pass(hits, players, i) {
        "pass"@
    } else {
        "touch"@
    }
}

/// A classified ball hit.
#[derive(Clone, Debug)]
pub struct BallEventClass {
    pub event_type: &'static str,
    pub player_name: String,
    pub player_2_name: String,
    pub player_3_name: String,
    pub previous_hit_frame_number: Option<i32>,
    pub next_hit_frame_number: Option<i32>,
    pub goal: bool,
    pub shot: bool,
    pub missed_shot: bool,
    pub missed_pass: bool,
    pub pass: bool,
    pub clear: bool,
    pub save: bool,
    pub assist: bool,
}

/// `c` is the classification of hit `i`. A save names the shooter (the
/// player of the last hit on the previous hit's frame) as first player and
/// the saving player as third.
pub open spec fn classifies(
    c: BallEventClass,
    hits: Seq<BallHit>,
    players: Seq<(String, i32)>,
    goals: Seq<(i32, String)>,
    picks: Seq<int>,
    i: int,
) -> bool {
    let save = is_save_hit(hits, players, goals, i);
    &&& c.event_type@ == hit_type(hits, players, goals, picks, i)
    &&& c.goal == is_goal_hit(hits, goals, i)
    &&& c.shot == is_shot_hit(hits, goals, i)
    &&& c.missed_shot == is_missed_shot_hit(hits, goals, i)
    &&& c.missed_pass == is_missed_pass_hit(hits, players, goals, i)
    &&& c.pass == is_pass(hits, players, i)
    &&& c.clear == hits[i].clears
    &&& c.save == save
    &&& c.assist == is_assist_hit(hits, players, goals, i)
    &&& c.previous_hit_frame_number == previous_hit_frame(hits, i)
    &&& c.next_hit_frame_number == next_hit_frame(hits, i)
    &&& c.player_2_name@ == second_player(hits, players, goals, i)
    &&& c.player_3_name@ == if save {
        hits[i].player_name@
    } else {
        Seq::empty()
    }
    &&& c.player_name@ == if save && previous_hit_frame(hits, i) is Some {
        last_player_at(hits, previous_hit_frame(hits, i).unwrap(), hits.len() as int).unwrap()
    } else {
        hits[i].player_name@
    }
}

fn hit_type_text(kickoff: bool, goal: bool, shot: bool, save: bool, missed_shot: bool, missed_pass: bool, clear: bool, pass: bool) -> (res: &'static str)
    ensures
        res@ == if kickoff {
            "kickoff"@
        } else if goal {
            "goal"@
        } else if shot || save {
            "shot"@
        } else if missed_shot {
            "missed-shot"@
        } else if missed_pass {
            "missed-pass"@
        } else if clear {
            "exit"@
        } else if pass {
            "pass"@
        } else {
            "touch"@
        },
{
    if kickoff {
        "kickoff"
    } else if goal {
        "goal"
    } else if shot || save {
        "shot"
    } else if missed_shot {
        "missed-shot"
    } else if missed_pass {
        "missed-pass"
    } else if clear {
        "exit"
    } else if pass {
        "pass"
    } else {
        "touch"
    }
}

fn last_player_on_frame(hits: &[BallHit], f: i32) -> (res: Option<String>)
    ensures
        match res {
            Some(name) => last_player_at(hits@, f, hits@.len() as int) == Some(name@),
            None => last_player_at(hits@, f, hits@.len() as int) is None,
        },
{
    let mut n: usize = hits.len();
    while n > 0
        invariant
            n <= hits@.len(),
            last_player_at(hits@, f, hits@.len() as int) == last_player_at(hits@, f, n as int),
        decreases n,
    {
        if hits[n - 1].frame_number == f {
            return Some(hits[n - 1].player_name.clone());
        }
        n = n - 1;
    }
    None
}

fn contains_index(picks: &Vec<usize>, i: usize) -> (res: bool)
    ensures
        res == exists|k: int| 0 <= k < picks@.len() && picks@[k] == i,
{
    let mut k: usize = 0;
    while k < picks.len()
        invariant
            k <= picks@.len(),
            forall|t: int| 0 <= t < k ==> picks@[t] != i,
        decreases picks@.len() - k,
    {
        if picks[k] == i {
            return true;
        }
        k = k + 1;
    }
    false
}

/// Classifies ball hits, in order, given the players as `(name, team)`,
/// the goals as `(frame, scorer)` and the kickoff starts; see `classifies`.
pub fn classify_ball_events(
    hits: &[BallHit],
    players: &[(String, i32)],
    goals: &[(i32, String)],
    kickoff_starts: &[i32],
) -> (res: Vec<BallEventClass>)
    ensures
        res@.len() == hits@.len(),
        exists|starts: Seq<i32>|
            {
                &&& strictly_increasing(starts)
                &&& forall|v: i32|
                    #[trigger] starts.contains(v) <==> opens_kickoff_window(
                        kickoff_starts@,
                        goals@.map_values(|g: (i32, String)| g.0),
                        v,
                    )
                &&& forall|i: int|
                    0 <= i < hits@.len() ==> classifies(
                        #[trigger] res@[i],
                        hits@,
                        players@,
                        goals@,
                        kickoff_picks(
                            hits@.map_values(|h: BallHit| h.frame_number),
                            starts,
                            starts.len() as int,
                        ),
                        i,
                    )
            },
{
    let ghost h = hits@;
    let ghost pl = players@;
    let ghost gl = goals@;
    let n = hits.len();
    let goal_flags = goal_hits(hits, goals);
    let (passes, after) = pass_flags(hits, players);
    // Shot flags and the assists they credit.
    let mut shots: Vec<bool> = Vec::new();
    let mut assists: Vec<bool> = Vec::new();
    let mut i: usize = 0;
    while i < n
        invariant
            n == h.len(),
            i <= n,
            assists@.len() == i,
            forall|t: int| 0 <= t < i ==> !assists@[t],
        decreases n - i,
    {
        assists.push(false);
        i = i + 1;
    }
    i = 0;
    while i < n
        invariant
            n == h.len(),
            h == hits@,
            pl == players@,
            gl == goals@,
            goal_flags@.len() == n,
            forall|t: int| 0 <= t < n ==> #[trigger] goal_flags@[t] == is_goal_hit(h, gl, t),
            after@.len() == n,
            forall|t: int|
                0 <= t < n ==> match #[trigger] after@[t] {
                    Some(j) => passer_after(h, pl, t) == Some(j as int),
                    None => passer_after(h, pl, t) is None,
                },
            i <= n,
            shots@.len() == i,
            forall|t: int| 0 <= t < i ==> #[trigger] shots@[t] == is_shot_hit(h, gl, t),
            assists@.len() == n,
            forall|j: int|
                0 <= j < n ==> #[trigger] assists@[j] == exists|t: int|
                    0 <= t < i && is_shot_hit(h, gl, t) && #[trigger] passer_after(h, pl, t) == Some(j),
        decreases n - i,
    {
        let shot = hits[i].on_target || goal_flags[i];
        shots.push(shot);
        proof {
            lemma_pass_state_shape(h, pl, i + 1);
        }
        if shot {
            match after[i] {
                Some(j) => {
                    assists.set(j, true);
                },
                None => {},
            }
        }
        proof {
            assert forall|j: int| 0 <= j < n implies #[trigger] assists@[j] == exists|t: int|
                0 <= t < i + 1 && is_shot_hit(h, gl, t) && #[trigger] passer_after(h, pl, t) == Some(j) by {
                if is_shot_hit(h, gl, i as int) && passer_after(h, pl, i as int) == Some(j) {
                    assert(0 <= i < i + 1);
                }
            }
        }
        i = i + 1;
    }
    // Kickoff touches.
    let mut frames: Vec<i32> = Vec::new();
    i = 0;
    while i < n
        invariant
            n == h.len(),
            h == hits@,
            i <= n,
            frames@ =~= h.map_values(|x: BallHit| x.frame_number).take(i as int),
        decreases n - i,
    {
        frames.push(hits[i].frame_number);
        i = i + 1;
    }
    assert(frames@ =~= h.map_values(|x: BallHit| x.frame_number));
    let mut goal_frames: Vec<i32> = Vec::new();
    let mut g: usize = 0;
    while g < goals.len()
        invariant
            gl == goals@,
            g <= gl.len(),
            goal_frames@ =~= gl.map_values(|x: (i32, String)| x.0).take(g as int),
        decreases gl.len() - g,
    {
        goal_frames.push(goals[g].0);
        g = g + 1;
    }
    assert(goal_frames@ =~= gl.map_values(|x: (i32, String)| x.0));
    let picks = kickoff_touch_event_indices(frames.as_slice(), kickoff_starts, goal_frames.as_slice());
    let ghost starts = choose|starts: Seq<i32>|
        {
            &&& strictly_increasing(starts)
            &&& forall|v: i32| #[trigger] starts.contains(v) <==> opens_kickoff_window(kickoff_starts@, goal_frames@, v)
            &&& picks@.len() == kickoff_picks(frames@, starts, starts.len() as int).len()
            &&& forall|k: int|
                0 <= k < picks@.len() ==> #[trigger] picks@[k] as int == kickoff_picks(
                    frames@,
                    starts,
                    starts.len() as int,
                )[k]
        };
    let ghost pk = kickoff_picks(frames@, starts, starts.len() as int);
    proof {
        lemma_pass_state_shape(h, pl, n as int);
    }
    let mut res: Vec<BallEventClass> = Vec::new();
    i = 0;
    while i < n
        invariant
            n == h.len(),
            h == hits@,
            pl == players@,
            gl == goals@,
            i <= n,
            goal_flags@.len() == n,
            forall|t: int| 0 <= t < n ==> #[trigger] goal_flags@[t] == is_goal_hit(h, gl, t),
            passes@.len() == n,
            forall|t: int| 0 <= t < n ==> #[trigger] passes@[t] == is_pass(h, pl, t),
            after@.len() == n,
            forall|t: int|
                0 <= t < n ==> match #[trigger] after@[t] {
                    Some(j) => passer_after(h, pl, t) == Some(j as int),
                    None => passer_after(h, pl, t) is None,
                },
            shots@.len() == n,
            forall|t: int| 0 <= t < n ==> #[trigger] shots@[t] == is_shot_hit(h, gl, t),
            assists@.len() == n,
            forall|j: int|
                0 <= j < n ==> #[trigger] assists@[j] == exists|t: int|
                    0 <= t < n && is_shot_hit(h, gl, t) && #[trigger] passer_after(h, pl, t) == Some(j),
            picks@.len() == pk.len(),
            forall|k: int| 0 <= k < picks@.len() ==> #[trigger] picks@[k] as int == pk[k],
            res@.len() == i,
            forall|t: int| 0 <= t < i ==> classifies(#[trigger] res@[t], h, pl, gl, pk, t),
        decreases n - i,
    {
        proof {
            lemma_pass_state_shape(h, pl, i + 1);
        }
        let hit = &hits[i];
        let kickoff = contains_index(&picks, i);
        proof {
            if kickoff {
                let k = choose|k: int| 0 <= k < picks@.len() && picks@[k] == i;
                assert(pk[k] == i);
            }
            if pk.contains(i as int) {
                let k = choose|k: int| 0 <= k < pk.len() && pk[k] == i;
                assert(picks@[k] as int == pk[k]);
            }
        }
        let goal = goal_flags[i];
        let shot = shots[i];
        let missed_shot = !shot && hit.missed_target;
        let pass = passes[i];
        let missed_pass = !pass && !shot && !missed_shot && hit.pass_target.is_some();
        let save = i > 0 && shots[i - 1] && !goal_flags[i - 1] && find_team(
            players,
            hits[i - 1].player_name.as_str(),
        ) != find_team(players, hit.player_name.as_str());
        let previous = if i > 0 && hits[i - 1].goal_number == hit.goal_number {
            Some(hits[i - 1].frame_number)
        } else {
            None
        };
        let next = if i + 1 < n && hits[i + 1].goal_number == hit.goal_number {
            Some(hits[i + 1].frame_number)
        } else {
            None
        };
        let second = if shot && after[i].is_some() {
            match after[i] {
                Some(j) => hits[j].player_name.clone(),
                None => String::new(),
            }
        } else if pass {
            hits[i + 1].player_name.clone()
        } else if missed_pass {
            match &hit.pass_target {
                Some(t) => t.clone(),
                None => String::new(),
            }
        } else {
            String::new()
        };
        let third = if save {
            hit.player_name.clone()
        } else {
            String::new()
        };
        let first = if save && previous.is_some() {
            let f = match previous {
                Some(f) => f,
                None => 0,
            };
            proof {
                assert(last_player_at(h, f, i as int) == Some(h[i - 1].player_name@));
                assert(last_player_at(h, f, h.len() as int) is Some) by {
                    lemma_last_player_found(h, f, h.len() as int, i - 1);
                }
            }
            match last_player_on_frame(hits, f) {
                Some(name) => name,
                None => hit.player_name.clone(),
            }
        } else {
            hit.player_name.clone()
        };
        let event_type = hit_type_text(kickoff, goal, shot, save, missed_shot, missed_pass, hit.clears, pass);
        let c = BallEventClass {
            event_type,
            player_name: first,
            player_2_name: second,
            player_3_name: third,
            previous_hit_frame_number: previous,
            next_hit_frame_number: next,
            goal,
            shot,
            missed_shot,
            missed_pass,
            pass,
            clear: hit.clears,
            save,
            assist: assists[i],
        };
        assert(classifies(c, h, pl, gl, pk, i as int));
        res.push(c);
        i = i + 1;
    }
    res
}

proof fn lemma_last_player_found(hits: Seq<BallHit>, f: i32, n: int, j: int)
    requires
        0 <= j < n,
        hits[j].frame_number == f,
    ensures
        last_player_at(hits, f, n) is Some,
    decreases n,
{
    if hits[n - 1].frame_number != f {
        lemma_last_player_found(hits, f, n - 1, j);
    }
}

} // verus!
