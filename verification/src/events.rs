//! Event types, team and playlist names, goal numbering, and the row
//! filters that drop dead-time and duplicate events.
use vstd::prelude::*;
use crate::text::{lowercase_eq, lowercase_is, str_eq};
use std::collections::HashMap;

verus! {

broadcast use vstd::std_specs::hash::group_hash_axioms;

/// Event types that count as a ball contact.
pub open spec fn is_ball_contact(t: Seq<char>) -> bool {
    ||| t == "touch"@
    ||| t == "turnover"@
    ||| t == "pass"@
    ||| t == "shot"@
    ||| t == "missed-shot"@
    ||| t == "missed-pass"@
    ||| t == "goal"@
    ||| t == "kickoff"@
    ||| t == "challenge"@
}

/// Whether an event type is a ball contact.
pub fn ball_contact_event(event_type: &str) -> (res: bool)
    ensures
        res == is_ball_contact(event_type@),
{
    str_eq(event_type, "touch") || str_eq(event_type, "turnover") || str_eq(event_type, "pass")
        || str_eq(event_type, "shot") || str_eq(event_type, "missed-shot") || str_eq(
        event_type,
        "missed-pass",
    ) || str_eq(event_type, "goal") || str_eq(event_type, "kickoff") || str_eq(
        event_type,
        "challenge",
    )
}

/// Event types that dribble and flick detection looks at: the ball
/// contacts and bumps.
pub open spec fn is_microstat_contact(t: Seq<char>) -> bool {
    is_ball_contact(t) || t == "bump"@
}

/// Whether an event type is looked at by dribble and flick detection.
pub fn microstat_contact_event(event_type: &str) -> (res: bool)
    ensures
        res == is_microstat_contact(event_type@),
{
    ball_contact_event(event_type) || str_eq(event_type, "bump")
}

/// Within a frame, kickoffs sort before every other event.
pub fn event_sort_priority(event_type: &str) -> (res: i32)
    ensures
        res == if event_type@ == "kickoff"@ {
            0i32
        } else {
            1i32
        },
{
    if str_eq(event_type, "kickoff") {
        0
    } else {
        1
    }
}

/// The name of a team: team 1 is orange, every other number blue.
pub open spec fn team_text(team: i32) -> Seq<char> {
    if team == 1 {
        "orange"@
    } else {
        "blue"@
    }
}

/// The name of a team number.
pub fn team_name(team: i32) -> (res: &'static str)
    ensures
        res@ == team_text(team),
{
    if team == 1 {
        "orange"
    } else {
        "blue"
    }
}

/// The name of a playlist number.
pub open spec fn playlist_text(value: i32) -> Seq<char> {
    if value == 1 {
        "DUEL"@
    } else if value == 2 {
        "DOUBLES"@
    } else if value == 3 {
        "STANDARD"@
    } else if value == 4 {
        "CHAOS"@
    } else if value == 6 {
        "CUSTOM_LOBBY"@
    } else if value == 10 {
        "RANKED_DUEL"@
    } else if value == 11 {
        "RANKED_DOUBLES"@
    } else if value == 13 {
        "RANKED_STANDARD"@
    } else {
        "UNKNOWN"@
    }
}

/// The name of a playlist number.
pub fn playlist_name(value: i32) -> (res: &'static str)
    ensures
        res@ == playlist_text(value),
{
    match value {
        1 => "DUEL",
        2 => "DOUBLES",
        3 => "STANDARD",
        4 => "CHAOS",
        6 => "CUSTOM_LOBBY",
        10 => "RANKED_DUEL",
        11 => "RANKED_DOUBLES",
        13 => "RANKED_STANDARD",
        _ => "UNKNOWN",
    }
}

/// The name of a car body; empty for bodies without a known name.
pub open spec fn car_text(car_id: i32) -> Seq<char> {
    if car_id == 23 {
        "Octane"@
    } else if car_id == 403 {
        "Dominus"@
    } else if car_id == 4284 {
        "Fennec"@
    } else {
        ""@
    }
}

/// The name of a car body.
pub fn car_name(car_id: i32) -> (res: &'static str)
    ensures
        res@ == car_text(car_id),
{
    match car_id {
        23 => "Octane",
        403 => "Dominus",
        4284 => "Fennec",
        _ => "",
    }
}

/// How many of the first `n` goal frames are at or after `frame`.
pub open spec fn goals_at_or_after(goal_frames: Seq<(i32, String)>, frame: i32, n: int) -> nat
    decreases n,
{
    if n <= 0 {
        0
    } else {
        goals_at_or_after(goal_frames, frame, n - 1) + if frame <= goal_frames[n - 1].0 {
            1nat
        } else {
            0nat
        }
    }
}

proof fn lemma_goals_bounded(goal_frames: Seq<(i32, String)>, frame: i32, n: int)
    requires
        0 <= n <= goal_frames.len(),
    ensures
        goals_at_or_after(goal_frames, frame, n) <= n,
    decreases n,
{
    if n > 0 {
        lemma_goals_bounded(goal_frames, frame, n - 1);
    }
}

/// The goal number of a frame: the number of goals scored at or after it,
/// or 0 when that count does not fit in an `i32`.
pub fn goal_number_for_frame(frame_number: i32, goal_frames: &[(i32, String)]) -> (res: i32)
    ensures
        res == if goals_at_or_after(goal_frames@, frame_number, goal_frames@.len() as int)
            <= i32::MAX {
            goals_at_or_after(goal_frames@, frame_number, goal_frames@.len() as int) as i32
        } else {
            0i32
        },
{
    let mut count: usize = 0;
    let mut i: usize = 0;
    while i < goal_frames.len()
        invariant
            i <= goal_frames@.len(),
            count == goals_at_or_after(goal_frames@, frame_number, i as int),
        decreases goal_frames@.len() - i,
    {
        proof {
            lemma_goals_bounded(goal_frames@, frame_number, i as int);
        }
        if frame_number <= goal_frames[i].0 {
            count = count + 1;
        }
        i = i + 1;
    }
    if count <= i32::MAX as usize {
        count as i32
    } else {
        0
    }
}

/// How many of the first `n` players are on `team`.
pub open spec fn team_count(teams: Seq<i32>, team: i32, n: int) -> nat
    decreases n,
{
    if n <= 0 {
        0
    } else {
        team_count(teams, team, n - 1) + if teams[n - 1] == team {
            1nat
        } else {
            0nat
        }
    }
}

proof fn lemma_team_count_bounded(teams: Seq<i32>, team: i32, n: int)
    requires
        0 <= n <= teams.len(),
    ensures
        team_count(teams, team, n) <= n,
    decreases n,
{
    if n > 0 {
        lemma_team_count_bounded(teams, team, n - 1);
    }
}

/// The size of the larger of teams 0 and 1, given each player's team
/// number; `None` when no player is on team 0 or 1.
pub open spec fn larger_team_size(teams: Seq<i32>) -> Option<i32> {
    let blue = team_count(teams, 0, teams.len() as int);
    let orange = team_count(teams, 1, teams.len() as int);
    let size = if blue >= orange {
        blue
    } else {
        orange
    };
    if size > 0 {
        Some(size as i32)
    } else {
        None
    }
}

/// The size of the larger team, given each player's team number.
pub fn actual_team_size(teams: &[i32]) -> (res: Option<i32>)
    ensures
        res == larger_team_size(teams@),
{
    let mut blue: usize = 0;
    let mut orange: usize = 0;
    let mut i: usize = 0;
    while i < teams.len()
        invariant
            i <= teams@.len(),
            blue == team_count(teams@, 0, i as int),
            orange == team_count(teams@, 1, i as int),
        decreases teams@.len() - i,
    {
        proof {
            lemma_team_count_bounded(teams@, 0, i as int);
            lemma_team_count_bounded(teams@, 1, i as int);
        }
        if teams[i] == 0 {
            blue = blue + 1;
        }
        if teams[i] == 1 {
            orange = orange + 1;
        }
        i = i + 1;
    }
    let size = if blue >= orange {
        blue
    } else {
        orange
    };
    if size > 0 {
        Some(size as i32)
    } else {
        None
    }
}


/// Goal `g` cuts off frame `f`: `f` comes after `g` and before every
/// kickoff row that comes after `g`. Rows are `(event type, frame)`.
pub open spec fn cut_off_by(rows: Seq<(String, Option<i32>)>, f: i32, g: i32) -> bool {
    &&& f > g
    &&& forall|j: int|
        0 <= j < rows.len() && (#[trigger] rows[j]).0@ == "kickoff"@ && rows[j].1 is Some
            && rows[j].1.unwrap() > g ==> f < rows[j].1.unwrap()
}

/// Frame `f` lies between a goal (from the replay header or a goal row) and
/// the next kickoff.
pub open spec fn in_dead_time(rows: Seq<(String, Option<i32>)>, goal_frames: Seq<i32>, f: i32) -> bool {
    ||| exists|j: int| 0 <= j < goal_frames.len() && cut_off_by(rows, f, #[trigger] goal_frames[j])
    ||| exists|j: int|
        0 <= j < rows.len() && (#[trigger] rows[j]).0@ == "goal"@ && rows[j].1 is Some
            && cut_off_by(rows, f, rows[j].1.unwrap())
}

/// Whether a row survives the goal-to-kickoff filter: rows without a frame,
/// goals and kickoffs always do; other rows do unless they fall in dead
/// time.
pub open spec fn survives_dead_time(rows: Seq<(String, Option<i32>)>, goal_frames: Seq<i32>, i: int) -> bool {
    match rows[i].1 {
        None => true,
        Some(f) => rows[i].0@ == "goal"@ || rows[i].0@ == "kickoff"@ || !in_dead_time(
            rows,
            goal_frames,
            f,
        ),
    }
}

fn cut_off(rows: &[(String, Option<i32>)], f: i32, g: i32) -> (res: bool)
    ensures
        res == cut_off_by(rows@, f, g),
{
    if f <= g {
        return false;
    }
    let mut j: usize = 0;
    while j < rows.len()
        invariant
            j <= rows@.len(),
            f > g,
            forall|k: int|
                0 <= k < j && (#[trigger] rows@[k]).0@ == "kickoff"@ && rows@[k].1 is Some
                    && rows@[k].1.unwrap() > g ==> f < rows@[k].1.unwrap(),
        decreases rows@.len() - j,
    {
        if str_eq(rows[j].0.as_str(), "kickoff") {
            if let Some(k) = rows[j].1 {
                if k > g && f >= k {
                    return false;
                }
            }
        }
        j = j + 1;
    }
    true
}

fn dead_time(rows: &[(String, Option<i32>)], goal_frames: &[i32], f: i32) -> (res: bool)
    ensures
        res == in_dead_time(rows@, goal_frames@, f),
{
    let mut j: usize = 0;
    while j < goal_frames.len()
        invariant
            j <= goal_frames@.len(),
            forall|k: int| 0 <= k < j ==> !cut_off_by(rows@, f, #[trigger] goal_frames@[k]),
        decreases goal_frames@.len() - j,
    {
        if cut_off(rows, f, goal_frames[j]) {
            return true;
        }
        j = j + 1;
    }
    let mut j: usize = 0;
    while j < rows.len()
        invariant
            j <= rows@.len(),
            forall|k: int| 0 <= k < goal_frames@.len() ==> !cut_off_by(rows@, f, #[trigger] goal_frames@[k]),
            forall|k: int|
                0 <= k < j && (#[trigger] rows@[k]).0@ == "goal"@ && rows@[k].1 is Some
                    ==> !cut_off_by(rows@, f, rows@[k].1.unwrap()),
        decreases rows@.len() - j,
    {
        if str_eq(rows[j].0.as_str(), "goal") {
            if let Some(g) = rows[j].1 {
                if cut_off(rows, f, g) {
                    return true;
                }
            }
        }
        j = j + 1;
    }
    false
}

/// Marks which `(event type, frame)` rows survive the goal-to-kickoff
/// filter, which drops play between a goal and the next kickoff.
pub fn filter_goal_to_kickoff_rows(rows: &[(String, Option<i32>)], goal_frames: &[i32]) -> (res: Vec<bool>)
    ensures
        res@.len() == rows@.len(),
        forall|i: int| 0 <= i < rows@.len() ==> #[trigger] res@[i] == survives_dead_time(rows@, goal_frames@, i),
{
    let mut keep: Vec<bool> = Vec::new();
    let mut i: usize = 0;
    while i < rows.len()
        invariant
            i <= rows@.len(),
            keep@.len() == i,
            forall|k: int| 0 <= k < i ==> #[trigger] keep@[k] == survives_dead_time(rows@, goal_frames@, k),
        decreases rows@.len() - i,
    {
        let kept = match rows[i].1 {
            None => true,
            Some(f) => str_eq(rows[i].0.as_str(), "goal") || str_eq(rows[i].0.as_str(), "kickoff")
                || !dead_time(rows, goal_frames, f),
        };
        keep.push(kept);
        i = i + 1;
    }
    keep
}

/// The three-frame bucket of a missed event: its frame (or -1 when it has
/// none) divided by 3, rounding toward zero.
pub open spec fn frame_bucket(frame: Option<i32>) -> int {
    let f = match frame {
        Some(v) => v as int,
        None => -1,
    };
    if f >= 0 {
        f / 3
    } else {
        -((-f) / 3)
    }
}

fn bucket_of(frame: Option<i32>) -> (res: i64)
    ensures
        res == frame_bucket(frame),
{
    let f: i64 = match frame {
        Some(v) => v as i64,
        None => -1,
    };
    if f >= 0 {
        f / 3
    } else {
        -((-f) / 3)
    }
}

/// Two rows are the same missed event: same type, same player, same
/// three-frame bucket.
pub open spec fn same_missed_key(a: (String, String, Option<i32>), b: (String, String, Option<i32>)) -> bool {
    a.0@ == b.0@ && a.1@ == b.1@ && frame_bucket(a.2) == frame_bucket(b.2)
}

/// Missed shots and missed passes.
pub open spec fn is_missed_event(t: Seq<char>) -> bool {
    t == "missed-shot"@ || t == "missed-pass"@
}

/// Whether row `i` stays when repeated missed events collapse: it is not a
/// missed event, or no earlier row is the same missed event.
pub open spec fn missed_kept(rows: Seq<(String, String, Option<i32>)>, i: int) -> bool {
    !is_missed_event(rows[i].0@) || forall|j: int| 0 <= j < i ==> !same_missed_key(#[trigger] rows[j], rows[i])
}

/// Marks which `(event type, player id, frame)` rows stay when repeated
/// missed shots and missed passes collapse: the first row of each key stays.
pub fn collapse_duplicate_missed_events(rows: &[(String, String, Option<i32>)]) -> (res: Vec<bool>)
    ensures
        res@.len() == rows@.len(),
        forall|i: int|
            0 <= i < rows@.len() ==> #[trigger] res@[i] == missed_kept(rows@, i),
{
    let mut keep: Vec<bool> = Vec::new();
    let mut i: usize = 0;
    while i < rows.len()
        invariant
            i <= rows@.len(),
            keep@.len() == i,
            forall|k: int|
                0 <= k < i ==> #[trigger] keep@[k] == (!is_missed_event(rows@[k].0@) || forall|j: int|
                    0 <= j < k ==> !same_missed_key(#[trigger] rows@[j], rows@[k])),
        decreases rows@.len() - i,
    {
        let t = rows[i].0.as_str();
        let missed = str_eq(t, "missed-shot") || str_eq(t, "missed-pass");
        let mut kept = true;
        if missed {
            let bucket = bucket_of(rows[i].2);
            let mut j: usize = 0;
            while j < i && kept
                invariant
                    i < rows@.len(),
                    j <= i,
                    bucket == frame_bucket(rows@[i as int].2),
                    kept ==> forall|k: int| 0 <= k < j ==> !same_missed_key(#[trigger] rows@[k], rows@[i as int]),
                    !kept ==> j > 0 && same_missed_key(rows@[j - 1], rows@[i as int]),
                decreases i - j,
            {
                if str_eq(rows[j].0.as_str(), rows[i].0.as_str()) && str_eq(
                    rows[j].1.as_str(),
                    rows[i].1.as_str(),
                ) && bucket_of(rows[j].2) == bucket {
                    kept = false;
                }
                j = j + 1;
            }
        }
        keep.push(kept);
        i = i + 1;
    }
    keep
}

/// The index of the last row before `idx` that is not a boost pickup.
pub fn previous_non_boost_event_idx(event_types: &[String], idx: usize) -> (res: Option<usize>)
    requires
        idx <= event_types@.len(),
    ensures
        match res {
            Some(j) => j < idx && event_types@[j as int]@ != "boost-pickup"@ && forall|k: int|
                j < k < idx ==> (#[trigger] event_types@[k])@ == "boost-pickup"@,
            None => forall|k: int| 0 <= k < idx ==> (#[trigger] event_types@[k])@ == "boost-pickup"@,
        },
{
    let mut j: usize = idx;
    while j > 0
        invariant
            j <= idx <= event_types@.len(),
            forall|k: int| j <= k < idx ==> (#[trigger] event_types@[k])@ == "boost-pickup"@,
        decreases j,
    {
        if !str_eq(event_types[j - 1].as_str(), "boost-pickup") {
            return Some(j - 1);
        }
        j = j - 1;
    }
    None
}


/// A later frame never has a higher goal number than an earlier one.
pub proof fn law_goal_number_monotone(goal_frames: Seq<(i32, String)>, earlier: i32, later: i32, n: int)
    requires
        earlier <= later,
    ensures
        goals_at_or_after(goal_frames, earlier, n) >= goals_at_or_after(goal_frames, later, n),
    decreases n,
{
    if n > 0 {
        law_goal_number_monotone(goal_frames, earlier, later, n - 1);
    }
}

/// After collapsing, no two kept missed events share a type, a player and a
/// three-frame bucket.
pub proof fn law_collapsed_missed_distinct(rows: Seq<(String, String, Option<i32>)>, i: int, j: int)
    requires
        0 <= i < j < rows.len(),
        is_missed_event(rows[i].0@),
        is_missed_event(rows[j].0@),
        missed_kept(rows, i),
        missed_kept(rows, j),
    ensures
        !same_missed_key(rows[i], rows[j]),
{
    assert(!same_missed_key(rows[i], rows[j]));
}

/// The last non-empty team name given for `team` (0: the blue name of each
/// row, 1: the orange name) among the first `n` rows.
pub open spec fn last_team_name(rows: Seq<(String, String)>, team: i32, n: nat) -> Option<Seq<char>>
    decreases n,
{
    if n == 0 {
        None
    } else {
        let name = if team == 0 {
            rows[n - 1].0@
        } else {
            rows[n - 1].1@
        };
        if name.len() > 0 {
            Some(name)
        } else {
            last_team_name(rows, team, (n - 1) as nat)
        }
    }
}

/// The name the rows give a team number: teams 0 and 1 take their last
/// non-empty name from the rows; a team that a player is on and that has no
/// such name gets the empty name; other numbers get none.
pub open spec fn team_label(rows: Seq<(String, String)>, teams: Seq<i32>, team: i32) -> Option<Seq<char>> {
    if (team == 0 || team == 1) && last_team_name(rows, team, rows.len()) is Some {
        last_team_name(rows, team, rows.len())
    } else if teams.contains(team) {
        Some(Seq::empty())
    } else {
        None
    }
}

/// The team names of a game: from each row's `(blue name, orange name)`,
/// the last non-empty one wins, and every player's team (`player_teams`)
/// has an entry, empty when no row names it.
pub fn team_names_from_context(rows: &[(String, String)], player_teams: &[i32]) -> (res: HashMap<i32, String>)
    ensures
        forall|t: i32| #[trigger] res@.contains_key(t) == team_label(rows@, player_teams@, t) is Some,
        forall|t: i32| #[trigger] res@.contains_key(t) ==> Some(res@[t]@) == team_label(rows@, player_teams@, t),
{
    let mut names: HashMap<i32, String> = HashMap::new();
    let mut j: usize = 0;
    while j < rows.len()
        invariant
            j <= rows@.len(),
            forall|t: i32|
                #[trigger] names@.contains_key(t) == ((t == 0 || t == 1) && last_team_name(rows@, t, j as nat) is Some),
            forall|t: i32| #[trigger] names@.contains_key(t) ==> Some(names@[t]@) == last_team_name(rows@, t, j as nat),
        decreases rows@.len() - j,
    {
        let blue = &rows[j].0;
        if blue.unicode_len() > 0 {
            names.insert(0, blue.clone());
        }
        let orange = &rows[j].1;
        if orange.unicode_len() > 0 {
            names.insert(1, orange.clone());
        }
        j = j + 1;
    }
    let mut k: usize = 0;
    while k < player_teams.len()
        invariant
            j == rows@.len(),
            k <= player_teams@.len(),
            forall|t: i32|
                #[trigger] names@.contains_key(t) == ((t == 0 || t == 1) && last_team_name(rows@, t, j as nat) is Some
                    || player_teams@.subrange(0, k as int).contains(t)),
            forall|t: i32|
                #[trigger] names@.contains_key(t) ==> Some(names@[t]@) == if (t == 0 || t == 1) && last_team_name(
                    rows@,
                    t,
                    j as nat,
                ) is Some {
                    last_team_name(rows@, t, j as nat)
                } else {
                    Some(Seq::<char>::empty())
                },
        decreases player_teams@.len() - k,
    {
        let team = player_teams[k];
        if !names.contains_key(&team) {
            names.insert(team, String::new());
        }
        proof {
            assert forall|t: i32| player_teams@.subrange(0, (k + 1) as int).contains(t) == (
            player_teams@.subrange(0, k as int).contains(t) || t == team) by {
                let s1 = player_teams@.subrange(0, (k + 1) as int);
                let s0 = player_teams@.subrange(0, k as int);
                if s1.contains(t) {
                    let w = choose|w: int| 0 <= w < s1.len() && s1[w] == t;
                    if w < k {
                        assert(s0[w] == t);
                    }
                }
                if s0.contains(t) {
                    let w = choose|w: int| 0 <= w < s0.len() && s0[w] == t;
                    assert(s1[w] == t);
                }
                if t == team {
                    assert(s1[k as int] == t);
                }
            }
        }
        k = k + 1;
    }
    assert(player_teams@.subrange(0, player_teams@.len() as int) =~= player_teams@);
    names
}

/// A text cell counts as true: `true`, `1` or `yes`, in any ASCII case.
pub open spec fn truthy_text(s: Seq<char>) -> bool {
    lowercase_is(s, "true"@) || lowercase_is(s, "1"@) || lowercase_is(s, "yes"@)
}

/// Whether a text cell counts as true.
pub fn truthy(s: &str) -> (res: bool)
    ensures
        res == truthy_text(s@),
{
    lowercase_eq(s, "true") || lowercase_eq(s, "1") || lowercase_eq(s, "yes")
}

/// What finding the cause of a zone event reads of a row.
#[derive(Clone, Debug)]
pub struct ContactRow {
    pub event_type: String,
    pub frame_number: Option<i32>,
    pub event_player_1_name: String,
    pub event_team: String,
}

/// Among the first `n` rows, the last ball contact at or before `frame`
/// that names its first player.
pub open spec fn last_contact_upto(rows: Seq<ContactRow>, frame: i32, n: nat) -> Option<int>
    decreases n,
{
    if n == 0 {
        None
    } else {
        let r = rows[n - 1];
        if is_ball_contact(r.event_type@) && r.frame_number is Some && r.frame_number.unwrap() <= frame
            && r.event_player_1_name@.len() > 0 {
            Some(n - 1)
        } else {
            last_contact_upto(rows, frame, (n - 1) as nat)
        }
    }
}

/// Who caused a zone event of `team` at `frame`, and whether it was under
/// control: the player in possession (`possessor`, an index into
/// `players` of `(name, team)`) when that player is on the team; with no
/// possessor, the first player of the last ball contact at or before the
/// frame, when that contact was the team's. `None` otherwise.
pub open spec fn zone_cause(rows: Seq<ContactRow>, frame: i32, team: i32, possessor: Option<usize>, players: Seq<(String, i32)>) -> Option<
    (Seq<char>, bool),
> {
    match possessor {
        Some(idx) => if idx < players.len() && players[idx as int].1 == team {
            Some((players[idx as int].0@, true))
        } else {
            None
        },
        None => match last_contact_upto(rows, frame, rows.len()) {
            Some(k) => if rows[k].event_team@ == team_text(team) {
                Some((rows[k].event_player_1_name@, false))
            } else {
                None
            },
            None => None,
        },
    }
}

proof fn lemma_last_contact_bounds(rows: Seq<ContactRow>, frame: i32, n: nat)
    requires
        n <= rows.len(),
    ensures
        last_contact_upto(rows, frame, n) matches Some(k) ==> 0 <= k < n,
    decreases n,
{
    if n > 0 {
        lemma_last_contact_bounds(rows, frame, (n - 1) as nat);
    }
}

/// The player a zone event is credited to; see `zone_cause`.
pub fn zone_event_cause(
    rows: &[ContactRow],
    frame_number: i32,
    team: i32,
    possessor: Option<usize>,
    players: &[(String, i32)],
) -> (res: Option<(String, bool)>)
    ensures
        match res {
            Some(r) => zone_cause(rows@, frame_number, team, possessor, players@) == Some((r.0@, r.1)),
            None => zone_cause(rows@, frame_number, team, possessor, players@) is None,
        },
{
    match possessor {
        Some(idx) => {
            if idx < players.len() && players[idx].1 == team {
                return Some((players[idx].0.clone(), true));
            }
            return None;
        },
        None => {},
    }
    let mut j: usize = rows.len();
    while j > 0
        invariant
            j <= rows@.len(),
            possessor is None,
            last_contact_upto(rows@, frame_number, rows@.len()) == last_contact_upto(rows@, frame_number, j as nat),
        decreases j,
    {
        let r = &rows[j - 1];
        let on_time = match r.frame_number {
            Some(f) => f <= frame_number,
            None => false,
        };
        if ball_contact_event(r.event_type.as_str()) && on_time && r.event_player_1_name.unicode_len() > 0 {
            proof {
                lemma_last_contact_bounds(rows@, frame_number, rows@.len());
            }
            if str_eq(r.event_team.as_str(), team_name(team)) {
                return Some((r.event_player_1_name.clone(), false));
            }
            return None;
        }
        j = j - 1;
    }
    None
}

} // verus!
