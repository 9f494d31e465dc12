//! The play-by-play rows as a whole: the rows of the replay's events and
//! official credits, the post-processing passes in their order
//! (challenges, duplicate challenges, turnovers, dribbles and flicks,
//! ordering, repeated misses, previous events, running score, default
//! columns), the stints of play, and the final ordering and numbering.
use vstd::prelude::*;
use crate::events::{
    previous_non_boost_event_idx, cut_off_by, filter_goal_to_kickoff_rows, in_dead_time, survives_dead_time, collapse_duplicate_missed_events, frame_bucket, is_missed_event, missed_kept, same_missed_key, team_text,
};
use crate::cooldown::{ordered_pair, pair_key};
use crate::post::{
    is_duplicate_challenge, is_touch_like, is_turnover, mark_turnovers, touch_like, revert_duplicate_challenges,
    running_scores, pair_views, challenge_views, ChallengeRow, microstat_events, microstat_additions, microstat_candidates,
    first_microstats, row_candidates, same_microstat, microstat_text, microstat_event_type, MicrostatRow, MicrostatKind, ChallengeView, CHALLENGE_EVENT_COOLDOWN_FRAMES,
    reverted_type, goals_before,
};
use crate::row_order::{
    key_before, key_same, placed_before, frame_type_order, frame_type_key, is_stable_order, law_stable_order_unique, pbp_key, sort_pbp_order, KeyView, PbpRowKey,
};
use crate::goal_rows::{ball_rows_kept, replaced_by_later_goal, BallRowMark, HeaderGoalRow};
use crate::presence::{game_presence_rows, presence_written, PresenceEvent};
use crate::text::str_eq;
use crate::stints::{kickoff_table, row_fate, EventModel, StintWindow};
use crate::official::{
    latest_mark, link_frame, linked_shot_row, linked_shot_upto, observed_frame_from_player_contact, stat_text,
    stat_type_name, OfficialStatEvent, ShotLinkRow, StatKind, collapse_duplicate_official_saves, group_total,
    same_official_save, save_fate, SaveRow,
};
use crate::player_values::{credited_name, official_stat_player_name, PlayerInfo};

verus! {

/// One of an event's players: name, id and team name.
#[derive(Clone, Debug)]
pub struct EventPlayer {
    pub name: String,
    pub id: String,
    pub team: String,
}

/// A player of the game as the rows need it: name, id and team number.
#[derive(Clone, Debug)]
pub struct PlayerSlot {
    pub name: String,
    pub id: String,
    pub team: i32,
}

/// A play-by-play row: what the passes read and write of it. Measurements
/// that need positions are decided by the caller and carried as flags: a
/// bump's `near_ball`, and a touch's `challenger`, the nearest opponent (as
/// a player index) within challenge reach of the ball and the toucher.
#[derive(Clone, Debug)]
pub struct PbpRow {
    pub frame_number: Option<i32>,
    pub observed_frame_number: Option<i32>,
    pub event_type: String,
    pub event_team: String,
    /// Whether the row was given an event team when it was made; rows
    /// without one take their first player's team.
    pub event_team_given: bool,
    pub player_1: EventPlayer,
    pub player_2: EventPlayer,
    pub has_car_contact: bool,
    pub near_ball: bool,
    /// The dribble and flick flags of a ball contact, which the caller
    /// decides from positions.
    pub air_dribble: bool,
    pub ground_dribble: bool,
    pub flick_shot: bool,
    pub challenger: Option<usize>,
    pub previous_event_type: String,
    /// Whether the previous event (not a boost pickup) is an entry or an
    /// exit; unset for a row with no previous event.
    pub previous_event_entry: Option<bool>,
    pub previous_event_exit: Option<bool>,
    pub blue_score: i32,
    pub orange_score: i32,
    pub event_number: i32,
    /// The official-credit and flag columns, unset until a pass sets them.
    pub marks: RowMarks,
    /// The frame an official credit was recorded at.
    pub recorded_frame_number: Option<i32>,
    /// For an official save, the frame of the shot it links to, if any.
    pub linked_shot_frame: Option<i32>,
    /// The stint of play the row falls in, once rows are finalized.
    pub stint_number: Option<i32>,
}

/// A row's official-credit columns (one flag and one count per kind) and
/// its `controlled`, `off_wall` and `off_ceiling` flags; `None` while unset.
#[derive(Clone, Copy, Debug)]
pub struct RowMarks {
    pub official_shot: Option<bool>,
    pub official_goal: Option<bool>,
    pub official_assist: Option<bool>,
    pub official_save: Option<bool>,
    pub official_demo: Option<bool>,
    pub official_shot_count: Option<i32>,
    pub official_goal_count: Option<i32>,
    pub official_assist_count: Option<i32>,
    pub official_save_count: Option<i32>,
    pub official_demo_count: Option<i32>,
    pub controlled: Option<bool>,
    pub off_wall: Option<bool>,
    pub off_ceiling: Option<bool>,
}

/// Marks with every column unset.
pub open spec fn unset_marks() -> RowMarks {
    RowMarks {
        official_shot: None,
        official_goal: None,
        official_assist: None,
        official_save: None,
        official_demo: None,
        official_shot_count: None,
        official_goal_count: None,
        official_assist_count: None,
        official_save_count: None,
        official_demo_count: None,
        controlled: None,
        off_wall: None,
        off_ceiling: None,
    }
}

impl RowMarks {
    /// Marks with every column unset.
    pub fn unset() -> (res: RowMarks)
        ensures
            res == unset_marks(),
    {
        RowMarks {
            official_shot: None,
            official_goal: None,
            official_assist: None,
            official_save: None,
            official_demo: None,
            official_shot_count: None,
            official_goal_count: None,
            official_assist_count: None,
            official_save_count: None,
            official_demo_count: None,
            controlled: None,
            off_wall: None,
            off_ceiling: None,
        }
    }
}

/// A flag column with its default, `false`, where unset.
pub open spec fn flag_or_false(f: Option<bool>) -> Option<bool> {
    match f {
        Some(v) => Some(v),
        None => Some(false),
    }
}

/// A count column with its default, `0`, where unset.
pub open spec fn count_or_zero(c: Option<i32>) -> Option<i32> {
    match c {
        Some(v) => Some(v),
        None => Some(0),
    }
}

/// Marks with each unset column given its default.
pub open spec fn marks_filled(m: RowMarks) -> RowMarks {
    RowMarks {
        official_shot: flag_or_false(m.official_shot),
        official_goal: flag_or_false(m.official_goal),
        official_assist: flag_or_false(m.official_assist),
        official_save: flag_or_false(m.official_save),
        official_demo: flag_or_false(m.official_demo),
        official_shot_count: count_or_zero(m.official_shot_count),
        official_goal_count: count_or_zero(m.official_goal_count),
        official_assist_count: count_or_zero(m.official_assist_count),
        official_save_count: count_or_zero(m.official_save_count),
        official_demo_count: count_or_zero(m.official_demo_count),
        controlled: flag_or_false(m.controlled),
        off_wall: flag_or_false(m.off_wall),
        off_ceiling: flag_or_false(m.off_ceiling),
    }
}

/// Every column of the marks is set.
pub open spec fn marks_set(m: RowMarks) -> bool {
    &&& m.official_shot is Some
    &&& m.official_goal is Some
    &&& m.official_assist is Some
    &&& m.official_save is Some
    &&& m.official_demo is Some
    &&& m.official_shot_count is Some
    &&& m.official_goal_count is Some
    &&& m.official_assist_count is Some
    &&& m.official_save_count is Some
    &&& m.official_demo_count is Some
    &&& m.controlled is Some
    &&& m.off_wall is Some
    &&& m.off_ceiling is Some
}

/// Marks with the official credits cleared (flags `false`, counts `0`), as
/// rows copied from another row have them.
pub open spec fn marks_cleared(m: RowMarks) -> RowMarks {
    RowMarks {
        official_shot: Some(false),
        official_goal: Some(false),
        official_assist: Some(false),
        official_save: Some(false),
        official_demo: Some(false),
        official_shot_count: Some(0),
        official_goal_count: Some(0),
        official_assist_count: Some(0),
        official_save_count: Some(0),
        official_demo_count: Some(0),
        ..m
    }
}

fn fill_marks(m: RowMarks) -> (res: RowMarks)
    ensures
        res == marks_filled(m),
{
    RowMarks {
        official_shot: Some(m.official_shot.unwrap_or(false)),
        official_goal: Some(m.official_goal.unwrap_or(false)),
        official_assist: Some(m.official_assist.unwrap_or(false)),
        official_save: Some(m.official_save.unwrap_or(false)),
        official_demo: Some(m.official_demo.unwrap_or(false)),
        official_shot_count: Some(m.official_shot_count.unwrap_or(0)),
        official_goal_count: Some(m.official_goal_count.unwrap_or(0)),
        official_assist_count: Some(m.official_assist_count.unwrap_or(0)),
        official_save_count: Some(m.official_save_count.unwrap_or(0)),
        official_demo_count: Some(m.official_demo_count.unwrap_or(0)),
        controlled: Some(m.controlled.unwrap_or(false)),
        off_wall: Some(m.off_wall.unwrap_or(false)),
        off_ceiling: Some(m.off_ceiling.unwrap_or(false)),
    }
}

fn clear_marks(m: RowMarks) -> (res: RowMarks)
    ensures
        res == marks_cleared(m),
{
    RowMarks {
        official_shot: Some(false),
        official_goal: Some(false),
        official_assist: Some(false),
        official_save: Some(false),
        official_demo: Some(false),
        official_shot_count: Some(0),
        official_goal_count: Some(0),
        official_assist_count: Some(0),
        official_save_count: Some(0),
        official_demo_count: Some(0),
        ..m
    }
}

/// An event player with texts as character sequences.
pub struct EventPlayerView {
    pub name: Seq<char>,
    pub id: Seq<char>,
    pub team: Seq<char>,
}

impl View for EventPlayer {
    type V = EventPlayerView;

    open spec fn view(&self) -> EventPlayerView {
        EventPlayerView { name: self.name@, id: self.id@, team: self.team@ }
    }
}

/// A play-by-play row with texts as character sequences.
pub struct PbpRowView {
    pub frame_number: Option<i32>,
    pub observed_frame_number: Option<i32>,
    pub event_type: Seq<char>,
    pub event_team: Seq<char>,
    pub event_team_given: bool,
    pub player_1: EventPlayerView,
    pub player_2: EventPlayerView,
    pub has_car_contact: bool,
    pub near_ball: bool,
    pub air_dribble: bool,
    pub ground_dribble: bool,
    pub flick_shot: bool,
    pub challenger: Option<usize>,
    pub previous_event_type: Seq<char>,
    pub previous_event_entry: Option<bool>,
    pub previous_event_exit: Option<bool>,
    pub blue_score: i32,
    pub orange_score: i32,
    pub event_number: i32,
    pub marks: RowMarks,
    pub recorded_frame_number: Option<i32>,
    pub linked_shot_frame: Option<i32>,
    pub stint_number: Option<i32>,
}

impl View for PbpRow {
    type V = PbpRowView;

    open spec fn view(&self) -> PbpRowView {
        PbpRowView {
            frame_number: self.frame_number,
            observed_frame_number: self.observed_frame_number,
            event_type: self.event_type@,
            event_team: self.event_team@,
            event_team_given: self.event_team_given,
            player_1: self.player_1@,
            player_2: self.player_2@,
            has_car_contact: self.has_car_contact,
            near_ball: self.near_ball,
            air_dribble: self.air_dribble,
            ground_dribble: self.ground_dribble,
            flick_shot: self.flick_shot,
            challenger: self.challenger,
            previous_event_type: self.previous_event_type@,
            previous_event_entry: self.previous_event_entry,
            previous_event_exit: self.previous_event_exit,
            blue_score: self.blue_score,
            orange_score: self.orange_score,
            event_number: self.event_number,
            marks: self.marks,
            recorded_frame_number: self.recorded_frame_number,
            linked_shot_frame: self.linked_shot_frame,
            stint_number: self.stint_number,
        }
    }
}

/// A player slot with texts as character sequences.
pub struct PlayerSlotView {
    pub name: Seq<char>,
    pub id: Seq<char>,
    pub team: i32,
}

impl View for PlayerSlot {
    type V = PlayerSlotView;

    open spec fn view(&self) -> PlayerSlotView {
        PlayerSlotView { name: self.name@, id: self.id@, team: self.team }
    }
}

/// The views of a list of rows.
pub open spec fn row_views(rows: Seq<PbpRow>) -> Seq<PbpRowView> {
    rows.map_values(|r: PbpRow| r@)
}

/// The views of a list of players.
pub open spec fn slot_views(players: Seq<PlayerSlot>) -> Seq<PlayerSlotView> {
    players.map_values(|p: PlayerSlot| p@)
}

/// A row with its event type replaced.
pub open spec fn with_type(r: PbpRowView, t: Seq<char>) -> PbpRowView {
    PbpRowView { event_type: t, ..r }
}

/// A row with its two event players exchanged.
pub open spec fn swapped(r: PbpRowView) -> PbpRowView {
    PbpRowView { player_1: r.player_2, player_2: r.player_1, ..r }
}

/// A row made a challenge, credited to its first player's team.
pub open spec fn as_challenge(r: PbpRowView) -> PbpRowView {
    PbpRowView { event_type: "challenge"@, event_team: r.player_1.team, ..r }
}

fn copy_player(p: &EventPlayer) -> (res: EventPlayer)
    ensures
        res@ == p@,
{
    EventPlayer { name: p.name.clone(), id: p.id.clone(), team: p.team.clone() }
}

/// A copy of a row.
pub fn copy_row(r: &PbpRow) -> (res: PbpRow)
    ensures
        res@ == r@,
{
    PbpRow {
        frame_number: r.frame_number,
        observed_frame_number: r.observed_frame_number,
        event_type: r.event_type.clone(),
        event_team: r.event_team.clone(),
        event_team_given: r.event_team_given,
        player_1: copy_player(&r.player_1),
        player_2: copy_player(&r.player_2),
        has_car_contact: r.has_car_contact,
        near_ball: r.near_ball,
        air_dribble: r.air_dribble,
        ground_dribble: r.ground_dribble,
        flick_shot: r.flick_shot,
        challenger: r.challenger,
        previous_event_type: r.previous_event_type.clone(),
        previous_event_entry: r.previous_event_entry,
        previous_event_exit: r.previous_event_exit,
        blue_score: r.blue_score,
        orange_score: r.orange_score,
        event_number: r.event_number,
        marks: r.marks,
        recorded_frame_number: r.recorded_frame_number,
        linked_shot_frame: r.linked_shot_frame,
        stint_number: r.stint_number,
    }
}

// ---- the event team of rows that lack one

/// A row that was given no event team takes its first player's team.
pub open spec fn team_filled(r: PbpRowView) -> PbpRowView {
    if !r.event_team_given {
        PbpRowView { event_team: r.player_1.team, event_team_given: true, ..r }
    } else {
        r
    }
}

/// The rows with missing event teams filled in.
pub open spec fn fill_teams(vs: Seq<PbpRowView>) -> Seq<PbpRowView> {
    Seq::new(vs.len(), |i: int| team_filled(vs[i]))
}

fn fill_event_teams(rows: &mut Vec<PbpRow>)
    ensures
        final(rows)@.len() == old(rows)@.len(),
        row_views(final(rows)@) == fill_teams(row_views(old(rows)@)),
{
    let ghost start = row_views(rows@);
    let mut i: usize = 0;
    while i < rows.len()
        invariant
            i <= rows@.len(),
            rows@.len() == start.len(),
            start == row_views(old(rows)@),
            forall|k: int| 0 <= k < i ==> #[trigger] rows@[k]@ == team_filled(start[k]),
            forall|k: int| i <= k < rows@.len() ==> #[trigger] rows@[k]@ == start[k],
        decreases rows.len() - i,
    {
        assert(rows@[i as int]@ == start[i as int]);
        if !rows[i].event_team_given {
            let mut r = copy_row(&rows[i]);
            r.event_team = rows[i].player_1.team.clone();
            r.event_team_given = true;
            rows.set(i, r);
        }
        i += 1;
    }
    assert(row_views(rows@) =~= fill_teams(start));
}

// ---- which team wins the ball after a row

/// The team of the first touch-like row from row `j` on, if any.
pub open spec fn winner_from(vs: Seq<PbpRowView>, j: int) -> Option<Seq<char>>
    decreases vs.len() - j,
{
    if j < 0 || j >= vs.len() {
        None
    } else if is_touch_like(vs[j].event_type) {
        Some(vs[j].event_team)
    } else {
        winner_from(vs, j + 1)
    }
}

fn winning_team(rows: &Vec<PbpRow>, j: usize) -> (res: Option<&String>)
    requires
        j <= rows@.len(),
    ensures
        match res {
            Some(t) => winner_from(row_views(rows@), j as int) == Some(t@),
            None => winner_from(row_views(rows@), j as int) is None,
        },
{
    let ghost v = row_views(rows@);
    let mut k: usize = j;
    while k < rows.len()
        invariant
            j <= k <= rows@.len(),
            v == row_views(rows@),
            winner_from(v, j as int) == winner_from(v, k as int),
        decreases rows.len() - k,
    {
        assert(v[k as int] == rows@[k as int]@);
        if touch_like(rows[k].event_type.as_str()) {
            return Some(&rows[k].event_team);
        }
        k += 1;
    }
    None
}

// ---- bumps near the ball between opponents become challenges

/// A bump between players of different teams, with a car within challenge
/// reach of the ball, becomes a challenge; its winner (the team of the next
/// touch-like row) comes first.
pub open spec fn bump_promoted(vs: Seq<PbpRowView>, i: int) -> PbpRowView {
    let r = vs[i];
    if r.event_type == "bump"@ && r.player_1.team.len() > 0 && r.player_2.team.len() > 0 && r.player_1.team
        != r.player_2.team && r.near_ball {
        let r2 = if winner_from(vs, i + 1) == Some(r.player_2.team) {
            swapped(r)
        } else {
            r
        };
        as_challenge(r2)
    } else {
        r
    }
}

/// The rows after bump promotion.
pub open spec fn promote_bumps_spec(vs: Seq<PbpRowView>) -> Seq<PbpRowView> {
    Seq::new(vs.len(), |i: int| bump_promoted(vs, i))
}

fn make_challenge(r: &PbpRow, swap: bool) -> (res: PbpRow)
    ensures
        res@ == as_challenge(
            if swap {
                swapped(r@)
            } else {
                r@
            },
        ),
{
    let mut out = copy_row(r);
    if swap {
        out.player_1 = copy_player(&r.player_2);
        out.player_2 = copy_player(&r.player_1);
    }
    out.event_type = String::from_str("challenge");
    out.event_team = out.player_1.team.clone();
    out
}

fn promote_bumps(rows: &mut Vec<PbpRow>)
    ensures
        final(rows)@.len() == old(rows)@.len(),
        row_views(final(rows)@) == promote_bumps_spec(row_views(old(rows)@)),
{
    let ghost start = row_views(rows@);
    let mut i: usize = 0;
    while i < rows.len()
        invariant
            i <= rows@.len(),
            rows@.len() == start.len(),
            start == row_views(old(rows)@),
            forall|k: int| 0 <= k < i ==> #[trigger] rows@[k]@ == bump_promoted(start, k),
            forall|k: int| i <= k < rows@.len() ==> #[trigger] rows@[k]@ == start[k],
        decreases rows.len() - i,
    {
        assert(rows@[i as int]@ == start[i as int]);
        let r = &rows[i];
        if str_eq(r.event_type.as_str(), "bump") && r.player_1.team.unicode_len() > 0
            && r.player_2.team.unicode_len() > 0 && !str_eq(r.player_1.team.as_str(), r.player_2.team.as_str())
            && r.near_ball {
            proof {
                assert(row_views(rows@).subrange(i + 1, rows@.len() as int) =~= start.subrange(
                    i + 1,
                    start.len() as int,
                ));
                lemma_winner_same_suffix(row_views(rows@), start, i + 1);
            }
            let swap = match winning_team(rows, i + 1) {
                Some(t) => str_eq(t.as_str(), rows[i].player_2.team.as_str()),
                None => false,
            };
            let promoted = make_challenge(&rows[i], swap);
            rows.set(i, promoted);
        }
        i += 1;
    }
    assert(row_views(rows@) =~= promote_bumps_spec(start));
}

proof fn lemma_winner_same_suffix(a: Seq<PbpRowView>, b: Seq<PbpRowView>, j: int)
    requires
        a.len() == b.len(),
        0 <= j,
        forall|k: int| j <= k < a.len() ==> a[k] == b[k],
    ensures
        winner_from(a, j) == winner_from(b, j),
    decreases a.len() - j,
{
    if j < a.len() {
        lemma_winner_same_suffix(a, b, j + 1);
    }
}

// ---- touches contested by a nearby opponent become challenges

/// A player slot as an event player.
pub open spec fn slot_player(p: PlayerSlotView) -> EventPlayerView {
    EventPlayerView { name: p.name, id: p.id, team: team_text(p.team) }
}

/// The position of the first player named `name`, from position `k` on.
pub open spec fn first_slot_from(players: Seq<PlayerSlotView>, name: Seq<char>, k: int) -> Option<int>
    decreases players.len() - k,
{
    if k < 0 || k >= players.len() {
        None
    } else if players[k].name == name {
        Some(k)
    } else {
        first_slot_from(players, name, k + 1)
    }
}

/// A recorded touch challenge: the pair's names, smaller first, and its
/// frame.
pub type PairRecord = (Seq<char>, Seq<char>, int);

/// The frame of the last of the first `m` records of the pair `key`.
pub open spec fn latest_pair(records: Seq<PairRecord>, key: (Seq<char>, Seq<char>), m: int) -> Option<int>
    decreases m,
{
    if m <= 0 {
        None
    } else if records[m - 1].0 == key.0 && records[m - 1].1 == key.1 {
        Some(records[m - 1].2)
    } else {
        latest_pair(records, key, m - 1)
    }
}

/// The frame a row's challenge is timed by; rows without a frame count as
/// last.
pub open spec fn row_frame(r: PbpRowView) -> int {
    match r.frame_number {
        Some(f) => f as int,
        None => i32::MAX as int,
    }
}

/// What a touch at row `i` becomes, given the touch challenges recorded so
/// far: a touch by a player with a team, with an opponent within challenge
/// reach, becomes a challenge unless the same pair had one within the
/// challenge cooldown. The challenger becomes the second player, and the
/// winner (the team of the next touch-like row) comes first.
pub open spec fn touch_challenge(
    vs: Seq<PbpRowView>,
    players: Seq<PlayerSlotView>,
    records: Seq<PairRecord>,
    i: int,
) -> Option<(PbpRowView, PairRecord)> {
    let r = vs[i];
    if r.event_type == "touch"@ && r.player_1.team.len() > 0 && r.challenger is Some && (r.challenger->0 as int)
        < players.len() && team_text(players[r.challenger->0 as int].team) != r.player_1.team {
        let c = players[r.challenger->0 as int];
        let key = ordered_pair(r.player_1.name, c.name);
        let frame = row_frame(r);
        if latest_pair(records, key, records.len() as int) matches Some(p) && frame - p
            <= CHALLENGE_EVENT_COOLDOWN_FRAMES {
            None
        } else {
            match first_slot_from(players, c.name, 0) {
                Some(k) => {
                    let r1 = PbpRowView { player_2: slot_player(players[k]), ..r };
                    let r2 = if winner_from(vs, i + 1) == Some(team_text(c.team)) {
                        swapped(r1)
                    } else {
                        r1
                    };
                    Some((as_challenge(r2), (key.0, key.1, frame)))
                },
                None => None,
            }
        }
    } else {
        None
    }
}

/// The rows and records after the touch challenges of the first `n` rows.
pub open spec fn touch_promotions(vs: Seq<PbpRowView>, players: Seq<PlayerSlotView>, n: int) -> (
    Seq<PbpRowView>,
    Seq<PairRecord>,
)
    decreases n,
{
    if n <= 0 {
        (vs, Seq::empty())
    } else {
        let prev = touch_promotions(vs, players, n - 1);
        match touch_challenge(prev.0, players, prev.1, n - 1) {
            Some(step) => (prev.0.update(n - 1, step.0), prev.1.push(step.1)),
            None => prev,
        }
    }
}

/// The rows after touch promotion.
pub open spec fn promote_touches_spec(vs: Seq<PbpRowView>, players: Seq<PlayerSlotView>) -> Seq<PbpRowView> {
    touch_promotions(vs, players, vs.len() as int).0
}

proof fn lemma_touch_promotions_shape(vs: Seq<PbpRowView>, players: Seq<PlayerSlotView>, n: int)
    requires
        0 <= n <= vs.len(),
    ensures
        touch_promotions(vs, players, n).0.len() == vs.len(),
        forall|k: int| n <= k < vs.len() ==> #[trigger] touch_promotions(vs, players, n).0[k] == vs[k],
    decreases n,
{
    if n > 0 {
        lemma_touch_promotions_shape(vs, players, n - 1);
    }
}

fn first_slot(players: &[PlayerSlot], name: &str) -> (res: Option<usize>)
    ensures
        match res {
            Some(k) => k < players@.len() && first_slot_from(slot_views(players@), name@, 0) == Some(k as int),
            None => first_slot_from(slot_views(players@), name@, 0) is None,
        },
{
    let ghost v = slot_views(players@);
    let mut k: usize = 0;
    while k < players.len()
        invariant
            k <= players@.len(),
            v == slot_views(players@),
            first_slot_from(v, name@, 0) == first_slot_from(v, name@, k as int),
        decreases players.len() - k,
    {
        assert(v[k as int] == players@[k as int]@);
        if str_eq(players[k].name.as_str(), name) {
            return Some(k);
        }
        k += 1;
    }
    None
}

fn latest_record(records: &Vec<(String, String, i64)>, a: &String, b: &String) -> (res: Option<i64>)
    ensures
        latest_pair(record_views(records@), (a@, b@), records@.len() as int) == match res {
            Some(p) => Some(p as int),
            None => None,
        },
{
    let ghost v = record_views(records@);
    let mut k: usize = records.len();
    while k > 0
        invariant
            k <= records@.len(),
            v == record_views(records@),
            latest_pair(v, (a@, b@), records@.len() as int) == latest_pair(v, (a@, b@), k as int),
        decreases k,
    {
        assert(v[k - 1] == (records@[k - 1].0@, records@[k - 1].1@, records@[k - 1].2 as int));
        if str_eq(records[k - 1].0.as_str(), a.as_str()) && str_eq(records[k - 1].1.as_str(), b.as_str()) {
            return Some(records[k - 1].2);
        }
        k -= 1;
    }
    None
}

/// The views of recorded touch challenges.
pub open spec fn record_views(records: Seq<(String, String, i64)>) -> Seq<PairRecord> {
    records.map_values(|r: (String, String, i64)| (r.0@, r.1@, r.2 as int))
}

fn slot_event_player(p: &PlayerSlot) -> (res: EventPlayer)
    ensures
        res@ == slot_player(p@),
{
    EventPlayer { name: p.name.clone(), id: p.id.clone(), team: String::from_str(crate::events::team_name(p.team)) }
}

fn promote_touches(rows: &mut Vec<PbpRow>, players: &[PlayerSlot])
    ensures
        final(rows)@.len() == old(rows)@.len(),
        row_views(final(rows)@) == promote_touches_spec(row_views(old(rows)@), slot_views(players@)),
{
    let ghost start = row_views(rows@);
    let ghost pv = slot_views(players@);
    let mut records: Vec<(String, String, i64)> = Vec::new();
    let mut i: usize = 0;
    proof {
        lemma_touch_promotions_shape(start, pv, 0);
    }
    while i < rows.len()
        invariant
            i <= rows@.len(),
            rows@.len() == start.len(),
            start == row_views(old(rows)@),
            pv == slot_views(players@),
            row_views(rows@) == touch_promotions(start, pv, i as int).0,
            record_views(records@) == touch_promotions(start, pv, i as int).1,
            forall|k: int| 0 <= k < records@.len() ==> i32::MIN <= (#[trigger] records@[k]).2 <= i32::MAX,
        decreases rows.len() - i,
    {
        let ghost cur = row_views(rows@);
        let ghost recs = record_views(records@);
        proof {
            lemma_touch_promotions_shape(start, pv, i as int);
            lemma_touch_promotions_shape(start, pv, i + 1);
        }
        assert(cur[i as int] == rows@[i as int]@);
        let r = &rows[i];
        let mut done = false;
        if str_eq(r.event_type.as_str(), "touch") && r.player_1.team.unicode_len() > 0 {
            match r.challenger {
                Some(c) => {
                    if c < players.len() {
                        assert(pv[c as int] == players@[c as int]@);
                        let cteam = crate::events::team_name(players[c].team);
                        if !str_eq(cteam, r.player_1.team.as_str()) {
                            let key = pair_key(&r.player_1.name, &players[c].name);
                            let frame: i64 = match r.frame_number {
                                Some(f) => f as i64,
                                None => i32::MAX as i64,
                            };
                            let prior = latest_record(&records, &key.0, &key.1);
                            let recent = match prior {
                                Some(p) => (frame as i128) - (p as i128) <= 30,
                                None => false,
                            };
                            if !recent {
                                match first_slot(players, players[c].name.as_str()) {
                                    Some(k) => {
                                        let mut r1 = copy_row(&rows[i]);
                                        r1.player_2 = slot_event_player(&players[k]);
                                        proof {
                                            lemma_winner_same_suffix(row_views(rows@), cur, i + 1);
                                        }
                                        let swap = match winning_team(rows, i + 1) {
                                            Some(t) => str_eq(t.as_str(), cteam),
                                            None => false,
                                        };
                                        let promoted = make_challenge(&r1, swap);
                                        rows.set(i, promoted);
                                        let ghost before = records@;
                                        records.push((key.0, key.1, frame));
                                        assert(record_views(records@) =~= recs.push(
                                            (key.0@, key.1@, frame as int),
                                        ));
                                        assert(row_views(rows@) =~= cur.update(i as int, rows@[i as int]@));
                                        done = true;
                                    },
                                    None => {},
                                }
                            }
                        }
                    }
                },
                None => {},
            }
        }
        proof {
            if !done {
                assert(touch_challenge(cur, pv, recs, i as int) is None);
            }
        }
        i += 1;
    }
    proof {
        lemma_touch_promotions_shape(start, pv, start.len() as int);
    }
}

// ---- duplicate challenges revert

/// What duplicate-challenge detection reads of a row.
pub open spec fn challenge_view_of(r: PbpRowView) -> ChallengeView {
    ChallengeView {
        event_type: r.event_type,
        player_1_name: r.player_1.name,
        player_2_name: r.player_2.name,
        frame_number: r.frame_number,
        has_car_contact: r.has_car_contact,
    }
}

/// What duplicate-challenge detection reads of each row.
pub open spec fn challenge_rows_of(vs: Seq<PbpRowView>) -> Seq<ChallengeView> {
    vs.map_values(|r: PbpRowView| challenge_view_of(r))
}

/// A challenge between a pair that had one within the challenge cooldown
/// reverts to a bump (after a car contact) or a touch, credited to its first
/// player's team.
pub open spec fn revert_duplicates_spec(vs: Seq<PbpRowView>) -> Seq<PbpRowView> {
    Seq::new(
        vs.len(),
        |i: int|
            if is_duplicate_challenge(challenge_rows_of(vs), i) {
                PbpRowView {
                    event_type: reverted_type(challenge_view_of(vs[i])),
                    event_team: vs[i].player_1.team,
                    ..vs[i]
                }
            } else {
                vs[i]
            },
    )
}

fn revert_duplicates(rows: &mut Vec<PbpRow>)
    ensures
        final(rows)@.len() == old(rows)@.len(),
        row_views(final(rows)@) == revert_duplicates_spec(row_views(old(rows)@)),
{
    let ghost start = row_views(rows@);
    let mut crs: Vec<ChallengeRow> = Vec::new();
    let mut j: usize = 0;
    while j < rows.len()
        invariant
            j <= rows@.len(),
            crs@.len() == j,
            start == row_views(rows@),
            forall|k: int| 0 <= k < j ==> (#[trigger] crs@[k])@ == challenge_view_of(start[k]),
        decreases rows.len() - j,
    {
        let r = &rows[j];
        crs.push(
            ChallengeRow {
                event_type: r.event_type.clone(),
                player_1_name: r.player_1.name.clone(),
                player_2_name: r.player_2.name.clone(),
                frame_number: r.frame_number,
                has_car_contact: r.has_car_contact,
            },
        );
        j += 1;
    }
    assert(challenge_views(crs@) =~= challenge_rows_of(start));
    let marks = revert_duplicate_challenges(crs.as_slice());
    let mut i: usize = 0;
    while i < rows.len()
        invariant
            i <= rows@.len(),
            rows@.len() == start.len(),
            marks@.len() == start.len(),
            crs@.len() == start.len(),
            challenge_views(crs@) == challenge_rows_of(start),
            forall|k: int| 0 <= k < crs@.len() ==> (#[trigger] crs@[k])@ == challenge_view_of(start[k]),
            forall|k: int|
                0 <= k < crs@.len() ==> match #[trigger] marks@[k] {
                    Some(t) => is_duplicate_challenge(challenge_views(crs@), k) && t@ == reverted_type(crs@[k]@),
                    None => !is_duplicate_challenge(challenge_views(crs@), k),
                },
            forall|k: int| 0 <= k < i ==> #[trigger] rows@[k]@ == revert_duplicates_spec(start)[k],
            forall|k: int| i <= k < rows@.len() ==> #[trigger] rows@[k]@ == start[k],
        decreases rows.len() - i,
    {
        assert(rows@[i as int]@ == start[i as int]);
        let m = marks[i];
        match m {
            Some(t) => {
                let mut r = copy_row(&rows[i]);
                r.event_type = String::from_str(t);
                r.event_team = rows[i].player_1.team.clone();
                rows.set(i, r);
            },
            None => {},
        }
        i += 1;
    }
    assert(row_views(rows@) =~= revert_duplicates_spec(start));
}

// ---- touches that lose the ball become turnovers

/// The `(event type, event team)` of each row.
pub open spec fn type_team_pairs(vs: Seq<PbpRowView>) -> Seq<(Seq<char>, Seq<char>)> {
    vs.map_values(|r: PbpRowView| (r.event_type, r.event_team))
}

/// Touches whose team loses the ball next become turnovers.
pub open spec fn turnovers_spec(vs: Seq<PbpRowView>) -> Seq<PbpRowView> {
    Seq::new(
        vs.len(),
        |i: int|
            if is_turnover(type_team_pairs(vs), i) {
                with_type(vs[i], "turnover"@)
            } else {
                vs[i]
            },
    )
}

fn type_team_list(rows: &Vec<PbpRow>) -> (res: Vec<(String, String)>)
    ensures
        res@.len() == rows@.len(),
        pair_views(res@) == type_team_pairs(row_views(rows@)),
{
    let mut out: Vec<(String, String)> = Vec::new();
    let mut j: usize = 0;
    while j < rows.len()
        invariant
            j <= rows@.len(),
            out@.len() == j,
            forall|k: int|
                0 <= k < j ==> (#[trigger] out@[k]).0@ == rows@[k].event_type@ && out@[k].1@
                    == rows@[k].event_team@,
        decreases rows.len() - j,
    {
        out.push((rows[j].event_type.clone(), rows[j].event_team.clone()));
        j += 1;
    }
    assert(pair_views(out@) =~= type_team_pairs(row_views(rows@)));
    out
}

fn mark_turnover_rows(rows: &mut Vec<PbpRow>)
    ensures
        final(rows)@.len() == old(rows)@.len(),
        row_views(final(rows)@) == turnovers_spec(row_views(old(rows)@)),
{
    let ghost start = row_views(rows@);
    let pairs = type_team_list(rows);
    let marks = mark_turnovers(pairs.as_slice());
    let mut i: usize = 0;
    while i < rows.len()
        invariant
            i <= rows@.len(),
            rows@.len() == start.len(),
            marks@.len() == start.len(),
            pair_views(pairs@) == type_team_pairs(start),
            forall|k: int| 0 <= k < start.len() ==> #[trigger] marks@[k] == is_turnover(pair_views(pairs@), k),
            forall|k: int| 0 <= k < i ==> #[trigger] rows@[k]@ == turnovers_spec(start)[k],
            forall|k: int| i <= k < rows@.len() ==> #[trigger] rows@[k]@ == start[k],
        decreases rows.len() - i,
    {
        assert(rows@[i as int]@ == start[i as int]);
        if marks[i] {
            let mut r = copy_row(&rows[i]);
            r.event_type = String::from_str("turnover");
            rows.set(i, r);
        }
        i += 1;
    }
    assert(row_views(rows@) =~= turnovers_spec(start));
}

// ---- dribble and flick events

/// `ms` reads as the rows `vs` do: same flags, first player ids and frames.
pub open spec fn micro_matches(ms: Seq<MicrostatRow>, vs: Seq<PbpRowView>) -> bool {
    &&& ms.len() == vs.len()
    &&& forall|k: int|
        0 <= k < ms.len() ==> (#[trigger] ms[k]).air_dribble == vs[k].air_dribble && ms[k].ground_dribble
            == vs[k].ground_dribble && ms[k].flick_shot == vs[k].flick_shot && ms[k].player_id@ == vs[k].player_1.id
            && ms[k].frame_number == vs[k].frame_number
}

/// The dribble and flick rows the rows add: for each row in order, one for
/// each of its flags, once per player, frame and kind.
pub open spec fn microstat_rows_added(vs: Seq<PbpRowView>) -> Seq<PbpRowView> {
    let ms = choose|ms: Seq<MicrostatRow>| micro_matches(ms, vs);
    let adds = microstat_additions(ms);
    Seq::new(
        adds.len(),
        |k: int|
            PbpRowView {
                marks: marks_cleared(vs[adds[k].0].marks),
                ..with_type(vs[adds[k].0], microstat_text(adds[k].1))
            },
    )
}

/// The rows followed by the dribble and flick rows they add.
pub open spec fn with_microstats(vs: Seq<PbpRowView>) -> Seq<PbpRowView> {
    vs + microstat_rows_added(vs)
}

proof fn lemma_candidates_in_range(ms: Seq<MicrostatRow>, n: nat)
    requires
        n <= ms.len(),
    ensures
        forall|k: int|
            0 <= k < microstat_candidates(ms, n).len() ==> 0 <= (#[trigger] microstat_candidates(ms, n)[k]).0 < n,
    decreases n,
{
    if n > 0 {
        lemma_candidates_in_range(ms, (n - 1) as nat);
        let prev = microstat_candidates(ms, (n - 1) as nat);
        let rc = row_candidates(ms[n - 1], n - 1);
        assert forall|k: int| 0 <= k < rc.len() implies (#[trigger] rc[k]).0 == n - 1 by {}
        assert forall|k: int| 0 <= k < microstat_candidates(ms, n).len() implies 0 <= (
        #[trigger] microstat_candidates(ms, n)[k]).0 < n by {
            if k < prev.len() {
                assert(microstat_candidates(ms, n)[k] == prev[k]);
            } else {
                assert(microstat_candidates(ms, n)[k] == rc[k - prev.len()]);
            }
        }
    }
}

proof fn lemma_candidates_len(ms: Seq<MicrostatRow>, n: nat)
    requires
        n <= ms.len(),
    ensures
        microstat_candidates(ms, n).len() <= 3 * n,
    decreases n,
{
    if n > 0 {
        lemma_candidates_len(ms, (n - 1) as nat);
    }
}

proof fn lemma_first_len(ms: Seq<MicrostatRow>, cs: Seq<(int, MicrostatKind)>, n: nat)
    requires
        n <= cs.len(),
    ensures
        first_microstats(ms, cs, n).len() <= n,
    decreases n,
{
    if n > 0 {
        lemma_first_len(ms, cs, (n - 1) as nat);
    }
}

proof fn lemma_first_from(ms: Seq<MicrostatRow>, cs: Seq<(int, MicrostatKind)>, n: nat)
    requires
        n <= cs.len(),
    ensures
        forall|k: int|
            0 <= k < first_microstats(ms, cs, n).len() ==> exists|j: int|
                0 <= j < n && cs[j] == #[trigger] first_microstats(ms, cs, n)[k],
    decreases n,
{
    if n > 0 {
        lemma_first_from(ms, cs, (n - 1) as nat);
        let prev = first_microstats(ms, cs, (n - 1) as nat);
        assert forall|k: int| 0 <= k < first_microstats(ms, cs, n).len() implies exists|j: int|
            0 <= j < n && cs[j] == #[trigger] first_microstats(ms, cs, n)[k] by {
            if k < prev.len() {
                assert(first_microstats(ms, cs, n)[k] == prev[k]);
                let j = choose|j: int| 0 <= j < n - 1 && cs[j] == #[trigger] prev[k];
                assert(cs[j] == first_microstats(ms, cs, n)[k]);
            } else {
                assert(first_microstats(ms, cs, n)[k] == cs[n - 1]);
            }
        }
    }
}

proof fn lemma_additions_in_range(ms: Seq<MicrostatRow>)
    ensures
        forall|k: int|
            0 <= k < microstat_additions(ms).len() ==> 0 <= (#[trigger] microstat_additions(ms)[k]).0 < ms.len(),
{
    let cs = microstat_candidates(ms, ms.len());
    lemma_candidates_in_range(ms, ms.len());
    lemma_first_from(ms, cs, cs.len());
    assert forall|k: int| 0 <= k < microstat_additions(ms).len() implies 0 <= (
    #[trigger] microstat_additions(ms)[k]).0 < ms.len() by {
        let j = choose|j: int| 0 <= j < cs.len() && cs[j] == #[trigger] first_microstats(ms, cs, cs.len())[k];
        assert(cs[j].0 < ms.len());
    }
}

proof fn lemma_candidates_same(a: Seq<MicrostatRow>, b: Seq<MicrostatRow>, n: nat)
    requires
        n <= a.len(),
        a.len() == b.len(),
        forall|k: int|
            0 <= k < a.len() ==> (#[trigger] a[k]).air_dribble == b[k].air_dribble && a[k].ground_dribble
                == b[k].ground_dribble && a[k].flick_shot == b[k].flick_shot,
    ensures
        microstat_candidates(a, n) == microstat_candidates(b, n),
    decreases n,
{
    if n > 0 {
        lemma_candidates_same(a, b, (n - 1) as nat);
        assert(a[n - 1].air_dribble == b[n - 1].air_dribble);
        assert(row_candidates(a[n - 1], n - 1) == row_candidates(b[n - 1], n - 1));
    }
}

proof fn lemma_first_same(a: Seq<MicrostatRow>, b: Seq<MicrostatRow>, cs: Seq<(int, MicrostatKind)>, n: nat)
    requires
        n <= cs.len(),
        forall|i: int, j: int|
            0 <= i < cs.len() && 0 <= j < cs.len() ==> #[trigger] same_microstat(a, cs[i], cs[j]) == same_microstat(
                b,
                cs[i],
                cs[j],
            ),
    ensures
        first_microstats(a, cs, n) == first_microstats(b, cs, n),
    decreases n,
{
    if n > 0 {
        lemma_first_same(a, b, cs, (n - 1) as nat);
        assert((forall|j: int| 0 <= j < n - 1 ==> !same_microstat(a, #[trigger] cs[j], cs[n - 1])) == (forall|j: int|
            0 <= j < n - 1 ==> !same_microstat(b, #[trigger] cs[j], cs[n - 1])));
    }
}

proof fn lemma_additions_same(a: Seq<MicrostatRow>, b: Seq<MicrostatRow>, vs: Seq<PbpRowView>)
    requires
        micro_matches(a, vs),
        micro_matches(b, vs),
    ensures
        microstat_additions(a) == microstat_additions(b),
{
    assert forall|k: int| 0 <= k < a.len() implies (#[trigger] a[k]).air_dribble == b[k].air_dribble && a[k].ground_dribble
        == b[k].ground_dribble && a[k].flick_shot == b[k].flick_shot by {
        assert(a[k].air_dribble == vs[k].air_dribble);
        assert(b[k].air_dribble == vs[k].air_dribble);
    }
    lemma_candidates_same(a, b, a.len());
    let cs = microstat_candidates(a, a.len());
    lemma_candidates_in_range(a, a.len());
    assert forall|i: int, j: int| 0 <= i < cs.len() && 0 <= j < cs.len() implies #[trigger] same_microstat(
        a,
        cs[i],
        cs[j],
    ) == same_microstat(b, cs[i], cs[j]) by {
        let x = cs[i];
        let y = cs[j];
        assert(0 <= x.0 < a.len() && 0 <= y.0 < a.len());
        assert(a[x.0].player_id@ == vs[x.0].player_1.id && b[x.0].player_id@ == vs[x.0].player_1.id);
        assert(a[y.0].player_id@ == vs[y.0].player_1.id && b[y.0].player_id@ == vs[y.0].player_1.id);
        assert(a[x.0].frame_number == b[x.0].frame_number);
        assert(a[y.0].frame_number == b[y.0].frame_number);
    }
    lemma_first_same(a, b, cs, cs.len());
}

fn add_microstat_rows(rows: &mut Vec<PbpRow>)
    ensures
        final(rows)@.len() <= 4 * old(rows)@.len(),
        row_views(final(rows)@) == with_microstats(row_views(old(rows)@)),
{
    let ghost vs = row_views(rows@);
    let mut ms: Vec<MicrostatRow> = Vec::new();
    let mut j: usize = 0;
    while j < rows.len()
        invariant
            j <= rows@.len(),
            vs == row_views(rows@),
            ms@.len() == j,
            forall|k: int|
                0 <= k < j ==> (#[trigger] ms@[k]).air_dribble == vs[k].air_dribble && ms@[k].ground_dribble
                    == vs[k].ground_dribble && ms@[k].flick_shot == vs[k].flick_shot && ms@[k].player_id@
                    == vs[k].player_1.id && ms@[k].frame_number == vs[k].frame_number,
        decreases rows.len() - j,
    {
        assert(vs[j as int] == rows@[j as int]@);
        let r = &rows[j];
        ms.push(
            MicrostatRow {
                air_dribble: r.air_dribble,
                ground_dribble: r.ground_dribble,
                flick_shot: r.flick_shot,
                player_id: r.player_1.id.clone(),
                frame_number: r.frame_number,
            },
        );
        j += 1;
    }
    assert(micro_matches(ms@, vs));
    let adds = microstat_events(ms.as_slice());
    proof {
        let chosen = choose|m: Seq<MicrostatRow>| micro_matches(m, vs);
        lemma_additions_same(ms@, chosen, vs);
        lemma_additions_in_range(ms@);
        lemma_candidates_len(ms@, ms@.len());
        let cs = microstat_candidates(ms@, ms@.len());
        lemma_first_len(ms@, cs, cs.len());
        assert(microstat_additions(ms@).len() <= 3 * ms@.len());
    }
    let ghost added = microstat_rows_added(vs);
    let mut extra: Vec<PbpRow> = Vec::new();
    let mut k: usize = 0;
    while k < adds.len()
        invariant
            k <= adds@.len(),
            vs == row_views(rows@),
            adds@.len() == microstat_additions(ms@).len(),
            forall|q: int| 0 <= q < adds@.len() ==> ((#[trigger] adds@[q]).0 as int, adds@[q].1) == microstat_additions(ms@)[q],
            forall|q: int| 0 <= q < microstat_additions(ms@).len() ==> 0 <= (#[trigger] microstat_additions(ms@)[q]).0 < ms@.len(),
            ms@.len() == rows@.len(),
            added == Seq::new(
                microstat_additions(ms@).len(),
                |q: int|
                    PbpRowView {
                        marks: marks_cleared(vs[microstat_additions(ms@)[q].0].marks),
                        ..with_type(vs[microstat_additions(ms@)[q].0], microstat_text(microstat_additions(ms@)[q].1))
                    },
            ),
            extra@.len() == k,
            forall|q: int| 0 <= q < k ==> (#[trigger] extra@[q])@ == added[q],
        decreases adds.len() - k,
    {
        let (idx, kind) = adds[k];
        assert(microstat_additions(ms@)[k as int].0 == idx as int);
        let mut r = copy_row(&rows[idx]);
        r.event_type = String::from_str(microstat_event_type(kind));
        r.marks = clear_marks(r.marks);
        extra.push(r);
        k += 1;
    }
    assert(row_views(extra@) =~= added);
    let ghost before_len = rows@.len();
    extend_rows(rows, &extra);
    assert(row_views(rows@).len() == before_len + extra@.len());
}

// ---- regrouping by frame and event type

/// The keys rows are regrouped by: frame (rows without one last), then
/// event type.
pub open spec fn frame_type_keys(vs: Seq<PbpRowView>) -> Seq<KeyView> {
    vs.map_values(
        |r: PbpRowView|
            (
                match r.frame_number {
                    Some(f) => f,
                    None => i32::MAX,
                },
                0i32,
                r.event_type,
                Seq::<char>::empty(),
            ),
    )
}

/// The rows after a stable sort by frame (rows without one last) and event
/// type.
pub open spec fn regrouped(vs: Seq<PbpRowView>) -> Seq<PbpRowView> {
    let order = choose|o: Seq<usize>| is_stable_order(frame_type_keys(vs), o);
    Seq::new(vs.len(), |p: int| vs[order[p] as int])
}

fn regroup(rows: &mut Vec<PbpRow>)
    ensures
        final(rows)@.len() == old(rows)@.len(),
        row_views(final(rows)@) == regrouped(row_views(old(rows)@)),
{
    let ghost start = row_views(rows@);
    let mut keys: Vec<(Option<i32>, String)> = Vec::new();
    let mut j: usize = 0;
    while j < rows.len()
        invariant
            j <= rows@.len(),
            keys@.len() == j,
            start == row_views(rows@),
            forall|k: int|
                0 <= k < j ==> (#[trigger] keys@[k]).0 == rows@[k].frame_number && keys@[k].1@
                    == rows@[k].event_type@,
        decreases rows.len() - j,
    {
        keys.push((rows[j].frame_number, rows[j].event_type.clone()));
        j += 1;
    }
    let order = frame_type_order(keys.as_slice());
    assert(keys@.map_values(|r: (Option<i32>, String)| frame_type_key(r)) =~= frame_type_keys(start));
    proof {
        let chosen = choose|o: Seq<usize>| is_stable_order(frame_type_keys(start), o);
        law_stable_order_unique(frame_type_keys(start), order@, chosen);
    }
    let mut out: Vec<PbpRow> = Vec::new();
    let mut p: usize = 0;
    while p < order.len()
        invariant
            p <= order@.len(),
            order@.len() == start.len(),
            start == row_views(rows@),
            out@.len() == p,
            forall|q: int| 0 <= q < order@.len() ==> order@[q] < start.len(),
            forall|q: int| 0 <= q < p ==> (#[trigger] out@[q])@ == start[order@[q] as int],
        decreases order.len() - p,
    {
        let k = order[p];
        out.push(copy_row(&rows[k]));
        p += 1;
    }
    assert(row_views(out@) =~= regrouped(start));
    *rows = out;
}

// ---- repeated missed shots and passes

/// Rows `a` and `b` are misses of the same type, by the same player id, in
/// the same group of three frames.
pub open spec fn same_miss(a: PbpRowView, b: PbpRowView) -> bool {
    is_missed_event(a.event_type) && a.event_type == b.event_type && a.player_1.id == b.player_1.id && frame_bucket(
        a.frame_number,
    ) == frame_bucket(b.frame_number)
}

/// Row `i` repeats an earlier miss.
pub open spec fn repeated_miss(vs: Seq<PbpRowView>, i: int) -> bool {
    exists|j: int| 0 <= j < i && #[trigger] same_miss(vs[j], vs[i])
}

/// The first `n` rows without the misses that repeat an earlier one.
pub open spec fn collapsed_upto(vs: Seq<PbpRowView>, n: int) -> Seq<PbpRowView>
    decreases n,
{
    if n <= 0 {
        Seq::empty()
    } else if repeated_miss(vs, n - 1) {
        collapsed_upto(vs, n - 1)
    } else {
        collapsed_upto(vs, n - 1).push(vs[n - 1])
    }
}

/// The rows without repeated misses.
pub open spec fn collapse_misses_spec(vs: Seq<PbpRowView>) -> Seq<PbpRowView> {
    collapsed_upto(vs, vs.len() as int)
}

fn collapse_misses(rows: &mut Vec<PbpRow>)
    ensures
        final(rows)@.len() <= old(rows)@.len(),
        row_views(final(rows)@) == collapse_misses_spec(row_views(old(rows)@)),
{
    let ghost vs = row_views(rows@);
    let mut keys: Vec<(String, String, Option<i32>)> = Vec::new();
    let mut j: usize = 0;
    while j < rows.len()
        invariant
            j <= rows@.len(),
            vs == row_views(rows@),
            keys@.len() == j,
            forall|k: int|
                0 <= k < j ==> (#[trigger] keys@[k]).0@ == vs[k].event_type && keys@[k].1@ == vs[k].player_1.id
                    && keys@[k].2 == vs[k].frame_number,
        decreases rows.len() - j,
    {
        assert(vs[j as int] == rows@[j as int]@);
        keys.push((rows[j].event_type.clone(), rows[j].player_1.id.clone(), rows[j].frame_number));
        j += 1;
    }
    let keep = collapse_duplicate_missed_events(keys.as_slice());
    let mut out: Vec<PbpRow> = Vec::new();
    let mut i: usize = 0;
    while i < rows.len()
        invariant
            i <= rows@.len(),
            vs == row_views(rows@),
            keys@.len() == rows@.len(),
            keep@.len() == rows@.len(),
            forall|k: int|
                0 <= k < keys@.len() ==> (#[trigger] keys@[k]).0@ == vs[k].event_type && keys@[k].1@ == vs[k].player_1.id
                    && keys@[k].2 == vs[k].frame_number,
            forall|k: int| 0 <= k < keys@.len() ==> #[trigger] keep@[k] == missed_kept(keys@, k),
            out@.len() <= i,
            row_views(out@) == collapsed_upto(vs, i as int),
        decreases rows.len() - i,
    {
        proof {
            assert(keys@[i as int].0@ == vs[i as int].event_type);
            if missed_kept(keys@, i as int) {
                if repeated_miss(vs, i as int) {
                    let w = choose|w: int| 0 <= w < i && #[trigger] same_miss(vs[w], vs[i as int]);
                    assert(keys@[w].0@ == vs[w].event_type);
                    assert(same_missed_key(keys@[w], keys@[i as int]));
                }
            } else {
                let w = choose|w: int| 0 <= w < i && same_missed_key(#[trigger] keys@[w], keys@[i as int]);
                assert(keys@[w].0@ == vs[w].event_type);
                assert(same_miss(vs[w], vs[i as int]));
            }
        }
        if keep[i] {
            let ghost before = out@;
            out.push(copy_row(&rows[i]));
            assert(vs[i as int] == rows@[i as int]@);
            assert(row_views(out@) =~= row_views(before).push(vs[i as int]));
        }
        i += 1;
    }
    *rows = out;
}

// ---- the type of the previous event

/// The position of the last row before row `i` that is not a boost pickup.
pub open spec fn previous_non_boost(vs: Seq<PbpRowView>, i: int) -> Option<int>
    decreases i,
{
    if i <= 0 {
        None
    } else if vs[i - 1].event_type != "boost-pickup"@ {
        Some(i - 1)
    } else {
        previous_non_boost(vs, i - 1)
    }
}

/// Each row records the type of the last earlier event that is not a
/// boost pickup, and whether that event is an entry or an exit.
pub open spec fn with_previous_types(vs: Seq<PbpRowView>) -> Seq<PbpRowView> {
    Seq::new(
        vs.len(),
        |i: int|
            match previous_non_boost(vs, i) {
                Some(j) => PbpRowView {
                    previous_event_type: vs[j].event_type,
                    previous_event_entry: Some(vs[j].event_type == "entry"@),
                    previous_event_exit: Some(vs[j].event_type == "exit"@),
                    ..vs[i]
                },
                None => vs[i],
            },
    )
}

proof fn lemma_previous_found(vs: Seq<PbpRowView>, i: int, j: int)
    requires
        0 <= j < i <= vs.len(),
        vs[j].event_type != "boost-pickup"@,
        forall|k: int| j < k < i ==> (#[trigger] vs[k]).event_type == "boost-pickup"@,
    ensures
        previous_non_boost(vs, i) == Some(j),
    decreases i,
{
    if i - 1 > j {
        assert(vs[i - 1].event_type == "boost-pickup"@);
        lemma_previous_found(vs, i - 1, j);
    }
}

proof fn lemma_previous_none(vs: Seq<PbpRowView>, i: int)
    requires
        0 <= i <= vs.len(),
        forall|k: int| 0 <= k < i ==> (#[trigger] vs[k]).event_type == "boost-pickup"@,
    ensures
        previous_non_boost(vs, i) is None,
    decreases i,
{
    if i > 0 {
        assert(vs[i - 1].event_type == "boost-pickup"@);
        lemma_previous_none(vs, i - 1);
    }
}

fn set_previous_types(rows: &mut Vec<PbpRow>)
    ensures
        final(rows)@.len() == old(rows)@.len(),
        row_views(final(rows)@) == with_previous_types(row_views(old(rows)@)),
{
    let ghost start = row_views(rows@);
    let mut types: Vec<String> = Vec::new();
    let mut j: usize = 0;
    while j < rows.len()
        invariant
            j <= rows@.len(),
            start == row_views(rows@),
            types@.len() == j,
            forall|k: int| 0 <= k < j ==> (#[trigger] types@[k])@ == start[k].event_type,
        decreases rows.len() - j,
    {
        assert(start[j as int] == rows@[j as int]@);
        types.push(rows[j].event_type.clone());
        j += 1;
    }
    let mut i: usize = 0;
    while i < rows.len()
        invariant
            i <= rows@.len(),
            rows@.len() == start.len(),
            types@.len() == start.len(),
            forall|k: int| 0 <= k < types@.len() ==> (#[trigger] types@[k])@ == start[k].event_type,
            forall|k: int| 0 <= k < i ==> #[trigger] rows@[k]@ == with_previous_types(start)[k],
            forall|k: int| i <= k < rows@.len() ==> #[trigger] rows@[k]@ == start[k],
        decreases rows.len() - i,
    {
        assert(rows@[i as int]@ == start[i as int]);
        match previous_non_boost_event_idx(types.as_slice(), i) {
            Some(p) => {
                proof {
                    assert forall|k: int| p < k < i implies (#[trigger] start[k]).event_type == "boost-pickup"@ by {
                        assert(types@[k]@ == start[k].event_type);
                    }
                    lemma_previous_found(start, i as int, p as int);
                }
                let mut r = copy_row(&rows[i]);
                r.previous_event_type = types[p].clone();
                r.previous_event_entry = Some(str_eq(types[p].as_str(), "entry"));
                r.previous_event_exit = Some(str_eq(types[p].as_str(), "exit"));
                rows.set(i, r);
            },
            None => {
                proof {
                    assert forall|k: int| 0 <= k < i implies (#[trigger] start[k]).event_type == "boost-pickup"@ by {
                        assert(types@[k]@ == start[k].event_type);
                    }
                    lemma_previous_none(start, i as int);
                }
            },
        }
        i += 1;
    }
    assert(row_views(rows@) =~= with_previous_types(start));
}

// ---- the running score

/// Each row records the score before it: goals by orange, and goals by
/// every other team for blue.
pub open spec fn with_scores(vs: Seq<PbpRowView>) -> Seq<PbpRowView> {
    Seq::new(
        vs.len(),
        |i: int|
            PbpRowView {
                blue_score: goals_before(type_team_pairs(vs), i, false) as i32,
                orange_score: goals_before(type_team_pairs(vs), i, true) as i32,
                ..vs[i]
            },
    )
}

fn set_scores(rows: &mut Vec<PbpRow>)
    ensures
        final(rows)@.len() == old(rows)@.len(),
        row_views(final(rows)@) == with_scores(row_views(old(rows)@)),
{
    let ghost start = row_views(rows@);
    let pairs = type_team_list(rows);
    let scores = running_scores(pairs.as_slice());
    let mut i: usize = 0;
    while i < rows.len()
        invariant
            i <= rows@.len(),
            rows@.len() == start.len(),
            scores@.len() == start.len(),
            pair_views(pairs@) == type_team_pairs(start),
            forall|k: int|
                0 <= k < start.len() ==> #[trigger] scores@[k] == (
                    goals_before(pair_views(pairs@), k, false) as i32,
                    goals_before(pair_views(pairs@), k, true) as i32,
                ),
            forall|k: int| 0 <= k < i ==> #[trigger] rows@[k]@ == with_scores(start)[k],
            forall|k: int| i <= k < rows@.len() ==> #[trigger] rows@[k]@ == start[k],
        decreases rows.len() - i,
    {
        assert(rows@[i as int]@ == start[i as int]);
        let mut r = copy_row(&rows[i]);
        r.blue_score = scores[i].0;
        r.orange_score = scores[i].1;
        rows.set(i, r);
        i += 1;
    }
    assert(row_views(rows@) =~= with_scores(start));
}

// ---- default columns

/// Each row's unset official-credit and flag columns given their defaults.
pub open spec fn fill_marks_spec(vs: Seq<PbpRowView>) -> Seq<PbpRowView> {
    Seq::new(vs.len(), |i: int| PbpRowView { marks: marks_filled(vs[i].marks), ..vs[i] })
}

fn fill_row_marks(rows: &mut Vec<PbpRow>)
    ensures
        final(rows)@.len() == old(rows)@.len(),
        row_views(final(rows)@) == fill_marks_spec(row_views(old(rows)@)),
{
    let ghost start = row_views(rows@);
    let mut i: usize = 0;
    while i < rows.len()
        invariant
            i <= rows@.len(),
            rows@.len() == start.len(),
            forall|k: int| 0 <= k < i ==> #[trigger] rows@[k]@ == fill_marks_spec(start)[k],
            forall|k: int| i <= k < rows@.len() ==> #[trigger] rows@[k]@ == start[k],
        decreases rows.len() - i,
    {
        assert(rows@[i as int]@ == start[i as int]);
        let mut r = copy_row(&rows[i]);
        r.marks = fill_marks(r.marks);
        rows.set(i, r);
        i += 1;
    }
    assert(row_views(rows@) =~= fill_marks_spec(start));
}

// ---- the passes together

/// The rows after post-processing: missing event teams filled, contested
/// bumps and touches made challenges, duplicate challenges reverted, lost
/// touches made turnovers, dribble and flick rows added, rows regrouped by
/// frame and type, repeated misses dropped, each row given the previous
/// event's type and the score before it, and every unset official-credit
/// and flag column given its default (`false`, `0`).
pub open spec fn post_processed(vs: Seq<PbpRowView>, players: Seq<PlayerSlotView>) -> Seq<PbpRowView> {
    fill_marks_spec(with_scores(
        with_previous_types(
            collapse_misses_spec(
                regrouped(
                    with_microstats(
                        turnovers_spec(
                            revert_duplicates_spec(promote_touches_spec(promote_bumps_spec(fill_teams(vs)), players)),
                        ),
                    ),
                ),
            ),
        ),
    ))
}

/// Post-processes play-by-play rows in place.
pub fn post_process_pbp_rows(rows: &mut Vec<PbpRow>, players: &[PlayerSlot])
    ensures
        final(rows)@.len() <= 4 * old(rows)@.len(),
        row_views(final(rows)@) == post_processed(row_views(old(rows)@), slot_views(players@)),
        forall|i: int| 0 <= i < final(rows)@.len() ==> marks_set(#[trigger] final(rows)@[i].marks),
{
    let ghost start = row_views(rows@);
    fill_event_teams(rows);
    promote_bumps(rows);
    promote_touches(rows, players);
    revert_duplicates(rows);
    mark_turnover_rows(rows);
    add_microstat_rows(rows);
    regroup(rows);
    collapse_misses(rows);
    set_previous_types(rows);
    set_scores(rows);
    let ghost scored = row_views(rows@);
    fill_row_marks(rows);
    proof {
        assert forall|i: int| 0 <= i < rows@.len() implies marks_set(#[trigger] rows@[i].marks) by {
            assert(row_views(rows@)[i] == rows@[i]@);
            assert(row_views(rows@)[i] == fill_marks_spec(scored)[i]);
        }
    }
}

// ---- building the rows

/// A classified ball event, as its row reads it. The caller, which knows
/// the positions, names the nearest opponent within challenge reach.
#[derive(Clone, Debug)]
pub struct BallEventSource {
    pub frame_number: i32,
    pub event_type: String,
    /// Whether the ball went in.
    pub goal: bool,
    pub player_1: String,
    pub player_2: String,
    pub challenger: Option<usize>,
    pub air_dribble: bool,
    pub ground_dribble: bool,
    pub flick_shot: bool,
}

/// A demolition or car contact, as its row reads it. The caller, which
/// knows the positions, says whether a car was within challenge reach of
/// the ball.
#[derive(Clone, Debug)]
pub struct DemoSource {
    pub frame_number: i32,
    pub event_type: String,
    pub player_1: String,
    pub player_2: String,
    pub near_ball: bool,
}

/// The event player named `name`, with id and team when a player of that
/// name exists.
pub open spec fn event_player_for(players: Seq<PlayerSlotView>, name: Seq<char>) -> EventPlayerView {
    match first_slot_from(players, name, 0) {
        Some(k) => slot_player(players[k]),
        None => EventPlayerView { name: name, id: Seq::empty(), team: Seq::empty() },
    }
}

/// An event player that is left out when its name is empty.
pub open spec fn optional_event_player(players: Seq<PlayerSlotView>, name: Seq<char>) -> EventPlayerView {
    if name.len() == 0 {
        EventPlayerView { name: Seq::empty(), id: Seq::empty(), team: Seq::empty() }
    } else {
        event_player_for(players, name)
    }
}

/// A new row at `frame`, of type `t`.
pub open spec fn new_row(
    frame: Option<i32>,
    t: Seq<char>,
    team: Seq<char>,
    given: bool,
    p1: EventPlayerView,
    p2: EventPlayerView,
) -> PbpRowView {
    PbpRowView {
        frame_number: frame,
        observed_frame_number: frame,
        event_type: t,
        event_team: team,
        event_team_given: given,
        player_1: p1,
        player_2: p2,
        has_car_contact: false,
        near_ball: false,
        air_dribble: false,
        ground_dribble: false,
        flick_shot: false,
        challenger: None,
        previous_event_type: Seq::empty(),
        previous_event_entry: None,
        previous_event_exit: None,
        blue_score: 0,
        orange_score: 0,
        event_number: 0,
        marks: unset_marks(),
        recorded_frame_number: None,
        linked_shot_frame: None,
        stint_number: None,
    }
}

/// The team text of a header goal's team number, empty when it has none.
pub open spec fn header_team(team: Option<i32>) -> Seq<char> {
    match team {
        Some(t) => team_text(t),
        None => Seq::empty(),
    }
}

/// The row of a header goal.
pub open spec fn header_row(players: Seq<PlayerSlotView>, g: HeaderGoalRow) -> PbpRowView {
    new_row(
        g.frame_number,
        "goal"@,
        header_team(g.team),
        true,
        event_player_for(players, g.scorer@),
        event_player_for(players, g.assister@),
    )
}

/// The row of a ball event: its team is its first player's.
pub open spec fn ball_row(players: Seq<PlayerSlotView>, b: BallEventSource) -> PbpRowView {
    let p1 = event_player_for(players, b.player_1@);
    PbpRowView {
        challenger: b.challenger,
        air_dribble: b.air_dribble,
        ground_dribble: b.ground_dribble,
        flick_shot: b.flick_shot,
        ..new_row(
            Some(b.frame_number),
            b.event_type@,
            p1.team,
            first_slot_from(players, b.player_1@, 0) is Some,
            p1,
            optional_event_player(players, b.player_2@),
        )
    }
}

/// The row of a demolition or car contact.
pub open spec fn demo_row(players: Seq<PlayerSlotView>, d: DemoSource) -> PbpRowView {
    let p1 = event_player_for(players, d.player_1@);
    PbpRowView {
        has_car_contact: true,
        near_ball: d.near_ball,
        marks: RowMarks { official_demo: Some(true), official_demo_count: Some(1), ..unset_marks() },
        ..new_row(
            Some(d.frame_number),
            d.event_type@,
            p1.team,
            first_slot_from(players, d.player_1@, 0) is Some,
            p1,
            event_player_for(players, d.player_2@),
        )
    }
}

/// What goal replacement reads of a ball event.
pub open spec fn ball_mark(b: BallEventSource) -> BallRowMark {
    BallRowMark { frame_number: b.frame_number, goal: b.goal, goal_typed: b.event_type@ == "goal"@ }
}

/// What goal replacement reads of each ball event.
pub open spec fn ball_marks(balls: Seq<BallEventSource>) -> Seq<BallRowMark> {
    balls.map_values(|b: BallEventSource| ball_mark(b))
}

/// The rows of the first `n` ball events, without the goal rows that a
/// later goal replaces.
pub open spec fn ball_rows_upto(players: Seq<PlayerSlotView>, balls: Seq<BallEventSource>, n: int) -> Seq<
    PbpRowView,
>
    decreases n,
{
    if n <= 0 {
        Seq::empty()
    } else {
        let prev = ball_rows_upto(players, balls, n - 1);
        if replaced_by_later_goal(ball_marks(balls), n - 1) {
            prev
        } else {
            prev.push(ball_row(players, balls[n - 1]))
        }
    }
}

/// The row of a presence event: its team is its player's.
pub open spec fn presence_row(players: Seq<PlayerSlotView>, e: PresenceEvent) -> PbpRowView {
    let p1 = event_player_for(players, e.1@);
    new_row(
        Some(e.0),
        e.2@,
        p1.team,
        first_slot_from(players, e.1@, 0) is Some,
        p1,
        EventPlayerView { name: Seq::empty(), id: Seq::empty(), team: Seq::empty() },
    )
}

/// The rows of the first `n` presence events that are written: those that
/// name a player, once per frame, player and type.
pub open spec fn presence_rows_upto(players: Seq<PlayerSlotView>, events: Seq<PresenceEvent>, n: int) -> Seq<
    PbpRowView,
>
    decreases n,
{
    if n <= 0 {
        Seq::empty()
    } else if presence_written(events, n - 1) {
        presence_rows_upto(players, events, n - 1).push(presence_row(players, events[n - 1]))
    } else {
        presence_rows_upto(players, events, n - 1)
    }
}

/// The rows before any pass: header goals, ball events, demolitions and
/// contacts, game joins and leaves, then the rows the caller derived from
/// positions.
pub open spec fn initial_rows(
    players: Seq<PlayerSlotView>,
    goals: Seq<HeaderGoalRow>,
    balls: Seq<BallEventSource>,
    demos: Seq<DemoSource>,
    presence: Seq<PresenceEvent>,
    derived: Seq<PbpRowView>,
) -> Seq<PbpRowView> {
    goals.map_values(|g: HeaderGoalRow| header_row(players, g)) + ball_rows_upto(players, balls, balls.len() as int)
        + demos.map_values(|d: DemoSource| demo_row(players, d)) + presence_rows_upto(
        players,
        presence,
        presence.len() as int,
    ) + derived
}

/// A goal frame the rows are cut at: a header goal frame or the frame of a
/// goal row.
pub open spec fn is_cutoff(vs: Seq<PbpRowView>, goal_frames: Seq<i32>, g: i32) -> bool {
    goal_frames.contains(g) || exists|j: int|
        0 <= j < vs.len() && #[trigger] vs[j].event_type == "goal"@ && vs[j].frame_number == Some(g)
}

/// A row frame lies after frame `g` and at or before frame `f`.
pub open spec fn frame_within(frame: Option<i32>, g: i32, f: i32) -> bool {
    match frame {
        Some(k) => g < k <= f,
        None => false,
    }
}

/// Some kickoff row lies after frame `g` and at or before frame `f`.
pub open spec fn kickoff_within(vs: Seq<PbpRowView>, g: i32, f: i32) -> bool {
    exists|j: int|
        0 <= j < vs.len() && #[trigger] vs[j].event_type == "kickoff"@ && frame_within(vs[j].frame_number, g, f)
}

/// A row, other than a goal or kickoff, that lies after a goal and before
/// the kickoff that follows it.
pub open spec fn between_goal_and_kickoff(vs: Seq<PbpRowView>, goal_frames: Seq<i32>, r: PbpRowView) -> bool {
    &&& r.frame_number is Some
    &&& r.event_type != "goal"@
    &&& r.event_type != "kickoff"@
    &&& exists|g: i32|
        #![trigger is_cutoff(vs, goal_frames, g)]
        is_cutoff(vs, goal_frames, g) && g < r.frame_number->0 && !kickoff_within(vs, g, r.frame_number->0)
}

/// The first `n` rows without those between a goal and its kickoff.
pub open spec fn live_rows_upto(vs: Seq<PbpRowView>, goal_frames: Seq<i32>, n: int) -> Seq<PbpRowView>
    decreases n,
{
    if n <= 0 {
        Seq::empty()
    } else {
        let prev = live_rows_upto(vs, goal_frames, n - 1);
        if between_goal_and_kickoff(vs, goal_frames, vs[n - 1]) {
            prev
        } else {
            prev.push(vs[n - 1])
        }
    }
}

/// The key a row is ordered by: its observed frame, else its frame (rows
/// with neither last), kickoffs first within a frame, then its event type.
pub open spec fn row_pbp_key(r: PbpRowView) -> KeyView {
    (
        match (if r.observed_frame_number is Some {
            r.observed_frame_number
        } else {
            r.frame_number
        }) {
            Some(f) => f,
            None => i32::MAX,
        },
        if r.event_type == "kickoff"@ {
            0i32
        } else {
            1i32
        },
        r.event_type,
        Seq::<char>::empty(),
    )
}

/// The keys rows are ordered by.
pub open spec fn pbp_keys(vs: Seq<PbpRowView>) -> Seq<KeyView> {
    vs.map_values(|r: PbpRowView| row_pbp_key(r))
}

/// Rows come in order of their keys: each key is at most the next.
pub open spec fn keys_ordered(vs: Seq<PbpRowView>) -> bool {
    forall|p: int, q: int|
        0 <= p < q < vs.len() ==> key_before(row_pbp_key(#[trigger] vs[p]), row_pbp_key(#[trigger] vs[q])) || key_same(
            row_pbp_key(vs[p]),
            row_pbp_key(vs[q]),
        )
}

/// The rows after a stable sort by their keys.
pub open spec fn pbp_sorted(vs: Seq<PbpRowView>) -> Seq<PbpRowView> {
    let order = choose|o: Seq<usize>| is_stable_order(pbp_keys(vs), o);
    Seq::new(vs.len(), |p: int| vs[order[p] as int])
}

/// Each row numbered from 1, and given its frame as observed frame when it
/// has none.
pub open spec fn numbered(vs: Seq<PbpRowView>) -> Seq<PbpRowView> {
    Seq::new(
        vs.len(),
        |i: int|
            PbpRowView {
                event_number: (i + 1) as i32,
                observed_frame_number: if vs[i].observed_frame_number is Some {
                    vs[i].observed_frame_number
                } else {
                    vs[i].frame_number
                },
                ..vs[i]
            },
    )
}

/// The play-by-play rows: the initial rows without those between a goal
/// and its kickoff, ordered, post-processed, ordered again and numbered.
pub open spec fn built_rows(
    infos: Seq<PlayerInfo>,
    contacts: Seq<Vec<(i32, bool)>>,
    goals: Seq<HeaderGoalRow>,
    balls: Seq<BallEventSource>,
    demos: Seq<DemoSource>,
    presence: Seq<PresenceEvent>,
    stats: Seq<OfficialStatEvent>,
    derived: Seq<PbpRowView>,
    goal_frames: Seq<i32>,
    rotation_events: bool,
    rotation: Seq<PbpRowView>,
    stints: Seq<StintWindow>,
) -> Seq<PbpRowView> {
    let players = info_slots(infos);
    let credits = official_rows_upto(infos, contacts, stats, stats.len() as int);
    let initial = initial_rows(players, goals, balls, demos, presence, credits + derived);
    let live = live_rows_upto(initial, goal_frames, initial.len() as int);
    let processed = post_processed(pbp_sorted(saves_collapsed(pbp_sorted(live))), players);
    let with_rotation = if rotation_events {
        processed + rotation
    } else {
        processed
    };
    let ordered = pbp_sorted(finalized(pbp_sorted(with_rotation), stints));
    numbered(if rotation_events {
        ordered
    } else {
        rows_without_rotation(ordered, ordered.len() as int)
    })
}

/// A rotation event type: a fill, a cut or a stall.
pub open spec fn is_rotation_type(t: Seq<char>) -> bool {
    t == "rotation-fill"@ || t == "rotation-cut"@ || t == "rotation-stall"@
}

/// The first `n` rows, without those of a rotation type.
pub open spec fn rows_without_rotation(vs: Seq<PbpRowView>, n: int) -> Seq<PbpRowView>
    decreases n,
{
    if n <= 0 {
        Seq::empty()
    } else if is_rotation_type(vs[n - 1].event_type) {
        rows_without_rotation(vs, n - 1)
    } else {
        rows_without_rotation(vs, n - 1).push(vs[n - 1])
    }
}

fn rotation_type(t: &str) -> (res: bool)
    ensures
        res == is_rotation_type(t@),
{
    str_eq(t, "rotation-fill") || str_eq(t, "rotation-cut") || str_eq(t, "rotation-stall")
}

fn drop_rotation_rows(rows: &mut Vec<PbpRow>)
    ensures
        row_views(final(rows)@) == rows_without_rotation(row_views(old(rows)@), old(rows)@.len() as int),
        keys_ordered(row_views(old(rows)@)) ==> keys_ordered(row_views(final(rows)@)),
        forall|i: int| 0 <= i < final(rows)@.len() ==> !is_rotation_type(#[trigger] final(rows)@[i].event_type@),
{
    let ghost start = row_views(rows@);
    let mut out: Vec<PbpRow> = Vec::new();
    let ghost mut from: Seq<int> = Seq::empty();
    let mut i: usize = 0;
    while i < rows.len()
        invariant
            i <= rows@.len(),
            start == row_views(rows@),
            row_views(out@) == rows_without_rotation(start, i as int),
            from.len() == out@.len(),
            forall|k: int| 0 <= k < from.len() ==> 0 <= #[trigger] from[k] < i && start[from[k]] == out@[k]@,
            forall|k: int, m: int| 0 <= k < m < from.len() ==> #[trigger] from[k] < #[trigger] from[m],
            forall|k: int| 0 <= k < out@.len() ==> !is_rotation_type(#[trigger] out@[k].event_type@),
        decreases rows.len() - i,
    {
        assert(start[i as int] == rows@[i as int]@);
        if !rotation_type(rows[i].event_type.as_str()) {
            out.push(copy_row(&rows[i]));
            proof {
                from = from.push(i as int);
            }
        }
        assert(row_views(out@) =~= rows_without_rotation(start, i + 1));
        i += 1;
    }
    proof {
        if keys_ordered(start) {
            let fin = row_views(out@);
            assert forall|p: int, q: int| 0 <= p < q < fin.len() implies key_before(
                row_pbp_key(#[trigger] fin[p]),
                row_pbp_key(#[trigger] fin[q]),
            ) || key_same(row_pbp_key(fin[p]), row_pbp_key(fin[q])) by {
                assert(from[p] < from[q]);
                assert(fin[p] == start[from[p]]);
                assert(fin[q] == start[from[q]]);
            }
        }
    }
    *rows = out;
}


fn event_player_named(players: &[PlayerSlot], name: &String) -> (res: (EventPlayer, bool))
    ensures
        res.0@ == event_player_for(slot_views(players@), name@),
        res.1 == first_slot_from(slot_views(players@), name@, 0) is Some,
{
    match first_slot(players, name.as_str()) {
        Some(k) => {
            assert(slot_views(players@)[k as int] == players@[k as int]@);
            (slot_event_player(&players[k]), true)
        },
        None => (EventPlayer { name: name.clone(), id: String::new(), team: String::new() }, false),
    }
}

fn empty_player() -> (res: EventPlayer)
    ensures
        res@ == (EventPlayerView { name: Seq::empty(), id: Seq::empty(), team: Seq::empty() }),
{
    EventPlayer { name: String::new(), id: String::new(), team: String::new() }
}

fn make_row(frame: Option<i32>, t: String, team: String, given: bool, p1: EventPlayer, p2: EventPlayer) -> (res: PbpRow)
    ensures
        res@ == new_row(frame, t@, team@, given, p1@, p2@),
{
    PbpRow {
        frame_number: frame,
        observed_frame_number: frame,
        event_type: t,
        event_team: team,
        event_team_given: given,
        player_1: p1,
        player_2: p2,
        has_car_contact: false,
        near_ball: false,
        air_dribble: false,
        ground_dribble: false,
        flick_shot: false,
        challenger: None,
        previous_event_type: String::new(),
        previous_event_entry: None,
        previous_event_exit: None,
        blue_score: 0,
        orange_score: 0,
        event_number: 0,
        marks: RowMarks::unset(),
        recorded_frame_number: None,
        linked_shot_frame: None,
        stint_number: None,
    }
}

fn header_team_text(team: Option<i32>) -> (res: String)
    ensures
        res@ == header_team(team),
{
    match team {
        Some(t) => String::from_str(crate::events::team_name(t)),
        None => String::new(),
    }
}

fn extend_rows(out: &mut Vec<PbpRow>, more: &Vec<PbpRow>)
    ensures
        row_views(final(out)@) == row_views(old(out)@) + row_views(more@),
{
    let ghost start = out@;
    let mut i: usize = 0;
    while i < more.len()
        invariant
            i <= more@.len(),
            out@.len() == start.len() + i,
            forall|k: int| 0 <= k < start.len() ==> #[trigger] out@[k] == start[k],
            forall|k: int| 0 <= k < i ==> (#[trigger] out@[start.len() + k])@ == more@[k]@,
        decreases more.len() - i,
    {
        out.push(copy_row(&more[i]));
        i += 1;
    }
    assert(row_views(out@) =~= row_views(start) + row_views(more@)) by {
        assert forall|k: int| 0 <= k < out@.len() implies #[trigger] row_views(out@)[k] == (row_views(start)
            + row_views(more@))[k] by {
            if k >= start.len() {
                assert(out@[start.len() + (k - start.len())] == out@[k]);
            }
        }
    }
}

fn initial_pbp_rows(
    players: &[PlayerSlot],
    header_goals: &[HeaderGoalRow],
    ball_events: &[BallEventSource],
    demo_events: &[DemoSource],
    presence_events: &[PresenceEvent],
    derived_rows: &[PbpRow],
) -> (res: Vec<PbpRow>)
    ensures
        row_views(res@) == initial_rows(
            slot_views(players@),
            header_goals@,
            ball_events@,
            demo_events@,
            presence_events@,
            row_views(derived_rows@),
        ),
{
    let ghost pv = slot_views(players@);
    let mut goals: Vec<PbpRow> = Vec::new();
    let mut i: usize = 0;
    while i < header_goals.len()
        invariant
            i <= header_goals@.len(),
            pv == slot_views(players@),
            goals@.len() == i,
            forall|k: int| 0 <= k < i ==> (#[trigger] goals@[k])@ == header_row(pv, header_goals@[k]),
        decreases header_goals.len() - i,
    {
        let g = &header_goals[i];
        let (p1, _) = event_player_named(players, &g.scorer);
        let (p2, _) = event_player_named(players, &g.assister);
        goals.push(make_row(g.frame_number, String::from_str("goal"), header_team_text(g.team), true, p1, p2));
        i += 1;
    }
    assert(row_views(goals@) =~= header_goals@.map_values(|g: HeaderGoalRow| header_row(pv, g)));
    let mut marks: Vec<BallRowMark> = Vec::new();
    let mut j: usize = 0;
    while j < ball_events.len()
        invariant
            j <= ball_events@.len(),
            marks@.len() == j,
            forall|k: int| 0 <= k < j ==> #[trigger] marks@[k] == ball_mark(ball_events@[k]),
        decreases ball_events.len() - j,
    {
        let b = &ball_events[j];
        marks.push(
            BallRowMark {
                frame_number: b.frame_number,
                goal: b.goal,
                goal_typed: str_eq(b.event_type.as_str(), "goal"),
            },
        );
        j += 1;
    }
    assert(marks@ =~= ball_marks(ball_events@));
    let kept = ball_rows_kept(marks.as_slice());
    let mut balls: Vec<PbpRow> = Vec::new();
    let mut j: usize = 0;
    while j < ball_events.len()
        invariant
            j <= ball_events@.len(),
            pv == slot_views(players@),
            kept@.len() == ball_events@.len(),
            marks@ == ball_marks(ball_events@),
            forall|k: int|
                0 <= k < ball_events@.len() ==> #[trigger] kept@[k] == !replaced_by_later_goal(marks@, k),
            row_views(balls@) == ball_rows_upto(pv, ball_events@, j as int),
        decreases ball_events.len() - j,
    {
        if kept[j] {
            let b = &ball_events[j];
            let (p1, found) = event_player_named(players, &b.player_1);
            let p2 = if b.player_2.unicode_len() == 0 {
                empty_player()
            } else {
                event_player_named(players, &b.player_2).0
            };
            let team = p1.team.clone();
            let mut r = make_row(Some(b.frame_number), b.event_type.clone(), team, found, p1, p2);
            r.challenger = b.challenger;
            r.air_dribble = b.air_dribble;
            r.ground_dribble = b.ground_dribble;
            r.flick_shot = b.flick_shot;
            let ghost before = balls@;
            balls.push(r);
            assert(row_views(balls@) =~= row_views(before).push(r@));
            assert(row_views(balls@) =~= ball_rows_upto(pv, ball_events@, j as int).push(
                ball_row(pv, ball_events@[j as int]),
            ));
        }
        j += 1;
    }
    let mut demos: Vec<PbpRow> = Vec::new();
    let mut k: usize = 0;
    while k < demo_events.len()
        invariant
            k <= demo_events@.len(),
            pv == slot_views(players@),
            demos@.len() == k,
            forall|q: int| 0 <= q < k ==> (#[trigger] demos@[q])@ == demo_row(pv, demo_events@[q]),
        decreases demo_events.len() - k,
    {
        let d = &demo_events[k];
        let (p1, found) = event_player_named(players, &d.player_1);
        let (p2, _) = event_player_named(players, &d.player_2);
        let team = p1.team.clone();
        let mut r = make_row(Some(d.frame_number), d.event_type.clone(), team, found, p1, p2);
        r.has_car_contact = true;
        r.near_ball = d.near_ball;
        r.marks.official_demo = Some(true);
        r.marks.official_demo_count = Some(1);
        demos.push(r);
        k += 1;
    }
    assert(row_views(demos@) =~= demo_events@.map_values(|d: DemoSource| demo_row(pv, d)));
    let written = game_presence_rows(presence_events);
    let mut joins: Vec<PbpRow> = Vec::new();
    let mut e: usize = 0;
    while e < presence_events.len()
        invariant
            e <= presence_events@.len(),
            pv == slot_views(players@),
            written@.len() == presence_events@.len(),
            forall|q: int| 0 <= q < presence_events@.len() ==> #[trigger] written@[q] == presence_written(presence_events@, q),
            row_views(joins@) == presence_rows_upto(pv, presence_events@, e as int),
        decreases presence_events.len() - e,
    {
        if written[e] {
            let ev = &presence_events[e];
            let (p1, found) = event_player_named(players, &ev.1);
            let team = p1.team.clone();
            let r = make_row(Some(ev.0), ev.2.clone(), team, found, p1, empty_player());
            let ghost before = joins@;
            joins.push(r);
            assert(row_views(joins@) =~= row_views(before).push(presence_row(pv, presence_events@[e as int])));
        }
        e += 1;
    }
    let mut derived: Vec<PbpRow> = Vec::new();
    let mut m: usize = 0;
    while m < derived_rows.len()
        invariant
            m <= derived_rows@.len(),
            derived@.len() == m,
            forall|q: int| 0 <= q < m ==> (#[trigger] derived@[q])@ == derived_rows@[q]@,
        decreases derived_rows.len() - m,
    {
        derived.push(copy_row(&derived_rows[m]));
        m += 1;
    }
    assert(row_views(derived@) =~= row_views(derived_rows@));
    let mut out = goals;
    extend_rows(&mut out, &balls);
    extend_rows(&mut out, &demos);
    extend_rows(&mut out, &joins);
    extend_rows(&mut out, &derived);
    out
}

proof fn lemma_cut_off_same(keys: Seq<(String, Option<i32>)>, vs: Seq<PbpRowView>, f: i32, g: i32)
    requires
        keys.len() == vs.len(),
        forall|k: int|
            0 <= k < keys.len() ==> (#[trigger] keys[k]).0@ == vs[k].event_type && keys[k].1 == vs[k].frame_number,
    ensures
        cut_off_by(keys, f, g) == (g < f && !kickoff_within(vs, g, f)),
{
    if g < f {
        if kickoff_within(vs, g, f) {
            let j = choose|j: int|
                0 <= j < vs.len() && #[trigger] vs[j].event_type == "kickoff"@ && frame_within(vs[j].frame_number, g, f);
            assert(keys[j].0@ == vs[j].event_type);
        } else {
            assert forall|j: int|
                0 <= j < keys.len() && (#[trigger] keys[j]).0@ == "kickoff"@ && keys[j].1 is Some && keys[j].1.unwrap()
                    > g implies f < keys[j].1.unwrap() by {
                assert(!(vs[j].event_type == "kickoff"@ && frame_within(vs[j].frame_number, g, f)));
            }
        }
    }
}

proof fn lemma_dead_time_same(keys: Seq<(String, Option<i32>)>, vs: Seq<PbpRowView>, goal_frames: Seq<i32>, i: int)
    requires
        keys.len() == vs.len(),
        0 <= i < vs.len(),
        forall|k: int|
            0 <= k < keys.len() ==> (#[trigger] keys[k]).0@ == vs[k].event_type && keys[k].1 == vs[k].frame_number,
    ensures
        survives_dead_time(keys, goal_frames, i) == !between_goal_and_kickoff(vs, goal_frames, vs[i]),
{
    assert(keys[i].0@ == vs[i].event_type);
    match vs[i].frame_number {
        None => {},
        Some(f) => {
            if in_dead_time(keys, goal_frames, f) {
                if exists|j: int| 0 <= j < goal_frames.len() && cut_off_by(keys, f, #[trigger] goal_frames[j]) {
                    let j = choose|j: int| 0 <= j < goal_frames.len() && cut_off_by(keys, f, #[trigger] goal_frames[j]);
                    let g = goal_frames[j];
                    lemma_cut_off_same(keys, vs, f, g);
                    assert(goal_frames.contains(g));
                    assert(is_cutoff(vs, goal_frames, g));
                } else {
                    let j = choose|j: int|
                        0 <= j < keys.len() && (#[trigger] keys[j]).0@ == "goal"@ && keys[j].1 is Some && cut_off_by(
                            keys,
                            f,
                            keys[j].1.unwrap(),
                        );
                    let g = keys[j].1.unwrap();
                    lemma_cut_off_same(keys, vs, f, g);
                    assert(vs[j].event_type == "goal"@ && vs[j].frame_number == Some(g));
                    assert(is_cutoff(vs, goal_frames, g));
                }
            }
            if between_goal_and_kickoff(vs, goal_frames, vs[i]) {
                let g = choose|g: i32|
                    #![trigger is_cutoff(vs, goal_frames, g)]
                    is_cutoff(vs, goal_frames, g) && g < f && !kickoff_within(vs, g, f);
                lemma_cut_off_same(keys, vs, f, g);
                if goal_frames.contains(g) {
                    let j = choose|j: int| 0 <= j < goal_frames.len() && goal_frames[j] == g;
                    assert(cut_off_by(keys, f, goal_frames[j]));
                } else {
                    let j = choose|j: int|
                        0 <= j < vs.len() && #[trigger] vs[j].event_type == "goal"@ && vs[j].frame_number == Some(g);
                    assert(keys[j].0@ == "goal"@ && keys[j].1 == Some(g));
                }
                assert(in_dead_time(keys, goal_frames, f));
            }
        },
    }
}

fn drop_dead_time(rows: &Vec<PbpRow>, goal_frames: &[i32]) -> (res: Vec<PbpRow>)
    ensures
        row_views(res@) == live_rows_upto(row_views(rows@), goal_frames@, rows@.len() as int),
{
    let ghost vs = row_views(rows@);
    let mut keys: Vec<(String, Option<i32>)> = Vec::new();
    let mut j: usize = 0;
    while j < rows.len()
        invariant
            j <= rows@.len(),
            vs == row_views(rows@),
            keys@.len() == j,
            forall|k: int| 0 <= k < j ==> (#[trigger] keys@[k]).0@ == vs[k].event_type && keys@[k].1 == vs[k].frame_number,
        decreases rows.len() - j,
    {
        assert(vs[j as int] == rows@[j as int]@);
        keys.push((rows[j].event_type.clone(), rows[j].frame_number));
        j += 1;
    }
    let survives = filter_goal_to_kickoff_rows(keys.as_slice(), goal_frames);
    let mut out: Vec<PbpRow> = Vec::new();
    let mut i: usize = 0;
    while i < rows.len()
        invariant
            i <= rows@.len(),
            vs == row_views(rows@),
            keys@.len() == rows@.len(),
            survives@.len() == rows@.len(),
            forall|k: int|
                0 <= k < keys@.len() ==> (#[trigger] keys@[k]).0@ == vs[k].event_type && keys@[k].1 == vs[k].frame_number,
            forall|k: int| 0 <= k < keys@.len() ==> #[trigger] survives@[k] == survives_dead_time(keys@, goal_frames@, k),
            row_views(out@) == live_rows_upto(vs, goal_frames@, i as int),
        decreases rows.len() - i,
    {
        proof {
            lemma_dead_time_same(keys@, vs, goal_frames@, i as int);
        }
        if survives[i] {
            let ghost before = out@;
            out.push(copy_row(&rows[i]));
            assert(vs[i as int] == rows@[i as int]@);
            assert(row_views(out@) =~= row_views(before).push(vs[i as int]));
        }
        i += 1;
    }
    out
}

fn sort_rows_by_key(rows: &mut Vec<PbpRow>)
    ensures
        final(rows)@.len() == old(rows)@.len(),
        keys_ordered(row_views(final(rows)@)),
        row_views(final(rows)@) == pbp_sorted(row_views(old(rows)@)),
{
    let ghost start = row_views(rows@);
    let mut keys: Vec<PbpRowKey> = Vec::new();
    let mut j: usize = 0;
    while j < rows.len()
        invariant
            j <= rows@.len(),
            keys@.len() == j,
            start == row_views(rows@),
            forall|k: int| 0 <= k < j ==> pbp_key(#[trigger] keys@[k]) == row_pbp_key(start[k]),
        decreases rows.len() - j,
    {
        assert(start[j as int] == rows@[j as int]@);
        keys.push(
            PbpRowKey {
                observed_frame_number: rows[j].observed_frame_number,
                frame_number: rows[j].frame_number,
                value_frame_number: None,
                event_type: rows[j].event_type.clone(),
            },
        );
        j += 1;
    }
    let order = sort_pbp_order(keys.as_slice());
    assert(keys@.map_values(|r: PbpRowKey| pbp_key(r)) =~= pbp_keys(start));
    proof {
        let chosen = choose|o: Seq<usize>| is_stable_order(pbp_keys(start), o);
        law_stable_order_unique(pbp_keys(start), order@, chosen);
    }
    let mut out: Vec<PbpRow> = Vec::new();
    let mut p: usize = 0;
    while p < order.len()
        invariant
            p <= order@.len(),
            order@.len() == start.len(),
            start == row_views(rows@),
            out@.len() == p,
            forall|q: int| 0 <= q < order@.len() ==> order@[q] < start.len(),
            forall|q: int| 0 <= q < p ==> (#[trigger] out@[q])@ == start[order@[q] as int],
        decreases order.len() - p,
    {
        let k = order[p];
        out.push(copy_row(&rows[k]));
        p += 1;
    }
    assert(row_views(out@) =~= pbp_sorted(start));
    proof {
        let ks = pbp_keys(start);
        let outv = row_views(out@);
        assert forall|p: int, q: int| 0 <= p < q < outv.len() implies key_before(
            row_pbp_key(#[trigger] outv[p]),
            row_pbp_key(#[trigger] outv[q]),
        ) || key_same(row_pbp_key(outv[p]), row_pbp_key(outv[q])) by {
            assert(placed_before(ks, order@[p] as int, order@[q] as int));
            assert(outv[p] == start[order@[p] as int]);
            assert(outv[q] == start[order@[q] as int]);
        }
    }
    *rows = out;
}

fn number_rows(rows: &mut Vec<PbpRow>)
    ensures
        final(rows)@.len() == old(rows)@.len(),
        row_views(final(rows)@) == numbered(row_views(old(rows)@)),
        keys_ordered(row_views(old(rows)@)) ==> keys_ordered(row_views(final(rows)@)),
{
    let ghost start = row_views(rows@);
    let mut i: usize = 0;
    while i < rows.len()
        invariant
            i <= rows@.len(),
            rows@.len() == start.len(),
            forall|k: int| 0 <= k < i ==> #[trigger] rows@[k]@ == numbered(start)[k],
            forall|k: int| i <= k < rows@.len() ==> #[trigger] rows@[k]@ == start[k],
        decreases rows.len() - i,
    {
        assert(rows@[i as int]@ == start[i as int]);
        let mut r = copy_row(&rows[i]);
        if r.observed_frame_number.is_none() {
            r.observed_frame_number = rows[i].frame_number;
        }
        r.event_number = (i + 1) as i32;
        rows.set(i, r);
        i += 1;
    }
    assert(row_views(rows@) =~= numbered(start));
    proof {
        let fin = row_views(rows@);
        assert forall|k: int| 0 <= k < fin.len() implies #[trigger] row_pbp_key(fin[k]) == row_pbp_key(start[k]) by {
            assert(fin[k] == numbered(start)[k]);
        }
    }
}

// ---- official credits

/// The name, id and team of each player.
pub open spec fn info_slots(players: Seq<PlayerInfo>) -> Seq<PlayerSlotView> {
    players.map_values(|p: PlayerInfo| PlayerSlotView { name: p.name@, id: p.id@, team: p.team })
}

/// The players as slots: name, id and team.
pub fn player_slots(players: &[PlayerInfo]) -> (res: Vec<PlayerSlot>)
    ensures
        slot_views(res@) == info_slots(players@),
{
    let mut out: Vec<PlayerSlot> = Vec::new();
    let mut i: usize = 0;
    while i < players.len()
        invariant
            i <= players@.len(),
            out@.len() == i,
            forall|k: int|
                0 <= k < i ==> (#[trigger] out@[k]).name@ == players@[k].name@ && out@[k].id@ == players@[k].id@
                    && out@[k].team == players@[k].team,
        decreases players.len() - i,
    {
        out.push(PlayerSlot { name: players[i].name.clone(), id: players[i].id.clone(), team: players[i].team });
        i += 1;
    }
    assert(slot_views(out@) =~= info_slots(players@));
    out
}

/// The contact snapshots `(frame, touching)` of the player at position
/// `idx`, none when there is no such player or no list for it.
pub open spec fn contact_snaps(contacts: Seq<Vec<(i32, bool)>>, idx: Option<int>) -> Seq<(i32, bool)> {
    match idx {
        Some(k) => if 0 <= k < contacts.len() {
            contacts[k]@
        } else {
            Seq::empty()
        },
        None => Seq::empty(),
    }
}

/// Where an official credit was seen: for a known player, the last
/// snapshot at or before the recorded frame (and not before `min_frame`)
/// where the player touched the ball; else the recorded frame.
pub open spec fn observed_for(snaps: Seq<(i32, bool)>, known: bool, recorded: i32, min_frame: Option<i32>) -> i32 {
    if known {
        match latest_mark(snaps, recorded, min_frame, snaps.len() as int) {
            Some(f) => f,
            None => recorded,
        }
    } else {
        recorded
    }
}

/// `links` reads as the rows `vs` do for save linking.
pub open spec fn shot_links_match(links: Seq<ShotLinkRow>, vs: Seq<PbpRowView>) -> bool {
    &&& links.len() == vs.len()
    &&& forall|k: int|
        0 <= k < links.len() ==> (#[trigger] links[k]).official_shot == (vs[k].marks.official_shot == Some(true))
            && links[k].event_player_1_team@ == vs[k].player_1.team && links[k].recorded_frame_number
            == vs[k].recorded_frame_number
}

/// The row a save of `save_team` recorded at `recorded` links to: the
/// official shot by the other team recorded last, within 360 frames before.
pub open spec fn linked_shot_in(vs: Seq<PbpRowView>, save_team: Option<i32>, recorded: i32) -> Option<int> {
    let links = choose|l: Seq<ShotLinkRow>| shot_links_match(l, vs);
    linked_shot_upto(links, save_team, recorded, links.len())
}

/// The columns of an official credit's row: its kind's flag and a count of
/// one.
pub open spec fn credit_marks(kind: StatKind) -> RowMarks {
    match kind {
        StatKind::Shot => RowMarks { official_shot: Some(true), official_shot_count: Some(1), ..unset_marks() },
        StatKind::Goal => RowMarks { official_goal: Some(true), official_goal_count: Some(1), ..unset_marks() },
        StatKind::Assist => RowMarks { official_assist: Some(true), official_assist_count: Some(1), ..unset_marks() },
        StatKind::Save => RowMarks { official_save: Some(true), official_save_count: Some(1), ..unset_marks() },
    }
}

/// An event player with no name.
pub open spec fn no_player() -> EventPlayerView {
    EventPlayerView { name: Seq::empty(), id: Seq::empty(), team: Seq::empty() }
}

/// The row of an official credit, after the credit rows `prev`: at the
/// recorded frame, seen where the credited player last touched the ball; a
/// save links to the shot it answers, whose shooter becomes its second
/// player, and is seen no earlier than that shot.
pub open spec fn official_row(
    prev: Seq<PbpRowView>,
    infos: Seq<PlayerInfo>,
    contacts: Seq<Vec<(i32, bool)>>,
    stat: OfficialStatEvent,
) -> PbpRowView {
    let slots = info_slots(infos);
    let name = credited_name(stat, infos);
    let idx = first_slot_from(slots, name, 0);
    let p1 = event_player_for(slots, name);
    let save = stat.stat_type == StatKind::Save;
    let link = if save {
        linked_shot_in(
            prev,
            match idx {
                Some(k) => Some(slots[k].team),
                None => None,
            },
            stat.frame_number,
        )
    } else {
        None
    };
    let min_frame = if save {
        Some(
            match link {
                Some(b) => match row_frame_of(prev[b]) {
                    Some(f) => f,
                    None => i32::MIN,
                },
                None => i32::MIN,
            },
        )
    } else {
        None
    };
    let p2 = match link {
        Some(b) => event_player_for(slots, prev[b].player_1.name),
        None => no_player(),
    };
    PbpRowView {
        observed_frame_number: Some(observed_for(contact_snaps(contacts, idx), idx is Some, stat.frame_number, min_frame)),
        recorded_frame_number: Some(stat.frame_number),
        linked_shot_frame: match link {
            Some(b) => row_frame_of(prev[b]),
            None => None,
        },
        marks: credit_marks(stat.stat_type),
        ..new_row(Some(stat.frame_number), stat_text(stat.stat_type), p1.team, idx is Some, p1, p2)
    }
}

/// The rows of the first `n` official credits, in order.
pub open spec fn official_rows_upto(
    infos: Seq<PlayerInfo>,
    contacts: Seq<Vec<(i32, bool)>>,
    stats: Seq<OfficialStatEvent>,
    n: int,
) -> Seq<PbpRowView>
    decreases n,
{
    if n <= 0 {
        Seq::empty()
    } else {
        let prev = official_rows_upto(infos, contacts, stats, n - 1);
        prev.push(official_row(prev, infos, contacts, stats[n - 1]))
    }
}

proof fn lemma_linked_same(a: Seq<ShotLinkRow>, b: Seq<ShotLinkRow>, vs: Seq<PbpRowView>, team: Option<i32>, recorded: i32, n: nat)
    requires
        n <= a.len(),
        shot_links_match(a, vs),
        shot_links_match(b, vs),
    ensures
        linked_shot_upto(a, team, recorded, n) == linked_shot_upto(b, team, recorded, n),
    decreases n,
{
    if n > 0 {
        lemma_linked_same(a, b, vs, team, recorded, (n - 1) as nat);
        crate::official::lemma_linked_shot_is_candidate(a, team, recorded, (n - 1) as nat);
        assert(a[n - 1].official_shot == b[n - 1].official_shot);
        assert(link_frame(a[n - 1], team, recorded) == link_frame(b[n - 1], team, recorded));
        let best = linked_shot_upto(a, team, recorded, (n - 1) as nat);
        match best {
            Some(k) => {
                assert(a[k].official_shot == b[k].official_shot);
                assert(link_frame(a[k], team, recorded) == link_frame(b[k], team, recorded));
            },
            None => {},
        }
    }
}

fn credit_marks_of(kind: StatKind) -> (res: RowMarks)
    ensures
        res == credit_marks(kind),
{
    let mut m = RowMarks::unset();
    match kind {
        StatKind::Shot => {
            m.official_shot = Some(true);
            m.official_shot_count = Some(1);
        },
        StatKind::Goal => {
            m.official_goal = Some(true);
            m.official_goal_count = Some(1);
        },
        StatKind::Assist => {
            m.official_assist = Some(true);
            m.official_assist_count = Some(1);
        },
        StatKind::Save => {
            m.official_save = Some(true);
            m.official_save_count = Some(1);
        },
    }
    m
}

fn shot_links(rows: &Vec<PbpRow>) -> (res: Vec<ShotLinkRow>)
    ensures
        shot_links_match(res@, row_views(rows@)),
{
    let ghost vs = row_views(rows@);
    let mut out: Vec<ShotLinkRow> = Vec::new();
    let mut i: usize = 0;
    while i < rows.len()
        invariant
            i <= rows@.len(),
            vs == row_views(rows@),
            out@.len() == i,
            forall|k: int|
                0 <= k < i ==> (#[trigger] out@[k]).official_shot == (vs[k].marks.official_shot == Some(true))
                    && out@[k].event_player_1_team@ == vs[k].player_1.team && out@[k].recorded_frame_number
                    == vs[k].recorded_frame_number,
        decreases rows.len() - i,
    {
        assert(vs[i as int] == rows@[i as int]@);
        let shot = match rows[i].marks.official_shot {
            Some(v) => v,
            None => false,
        };
        out.push(
            ShotLinkRow {
                official_shot: shot,
                event_player_1_team: rows[i].player_1.team.clone(),
                recorded_frame_number: rows[i].recorded_frame_number,
            },
        );
        i += 1;
    }
    out
}

/// The rows of the official credits, in order; see `official_row`.
/// `contacts` holds, for each player in `players`' order, the snapshots
/// `(frame, touching the ball)` the caller measured.
pub fn official_stat_rows(
    players: &[PlayerInfo],
    contacts: &[Vec<(i32, bool)>],
    stats: &[OfficialStatEvent],
) -> (res: Vec<PbpRow>)
    ensures
        row_views(res@) == official_rows_upto(players@, contacts@, stats@, stats@.len() as int),
{
    let slots = player_slots(players);
    let ghost sv = info_slots(players@);
    let mut out: Vec<PbpRow> = Vec::new();
    let mut i: usize = 0;
    while i < stats.len()
        invariant
            i <= stats@.len(),
            slot_views(slots@) == sv,
            sv == info_slots(players@),
            row_views(out@) == official_rows_upto(players@, contacts@, stats@, i as int),
        decreases stats.len() - i,
    {
        let stat = &stats[i];
        let ghost prev = row_views(out@);
        let name = official_stat_player_name(stat, players);
        let idx = first_slot(slots.as_slice(), name.as_str());
        let (p1, found) = event_player_named(slots.as_slice(), &name);
        let snaps: &[(i32, bool)] = match idx {
            Some(k) => if k < contacts.len() {
                contacts[k].as_slice()
            } else {
                &[]
            },
            None => &[],
        };
        assert(snaps@ == contact_snaps(contacts@, match idx {
            Some(k) => Some(k as int),
            None => None,
        }));
        let save = match stat.stat_type {
            StatKind::Save => true,
            _ => false,
        };
        let mut p2 = empty_player();
        let mut min_frame: Option<i32> = None;
        let mut linked: Option<i32> = None;
        if save {
            let team = match idx {
                Some(k) => Some(slots[k].team),
                None => None,
            };
            let links = shot_links(&out);
            let link = linked_shot_row(links.as_slice(), team, stat.frame_number);
            proof {
                let chosen = choose|l: Seq<ShotLinkRow>| shot_links_match(l, prev);
                lemma_linked_same(links@, chosen, prev, team, stat.frame_number, links@.len());
                if let Some(k) = idx {
                    assert(sv[k as int] == slots@[k as int]@);
                }
            }
            let mut m: i32 = i32::MIN;
            match link {
                Some(b) => {
                    proof {
                        crate::official::lemma_linked_shot_is_candidate(links@, team, stat.frame_number, links@.len());
                    }
                    assert(prev[b as int] == out@[b as int]@);
                    linked = match out[b].observed_frame_number {
                        Some(f) => Some(f),
                        None => out[b].frame_number,
                    };
                    m = match linked {
                        Some(f) => f,
                        None => i32::MIN,
                    };
                    p2 = event_player_named(slots.as_slice(), &out[b].player_1.name).0;
                },
                None => {},
            }
            min_frame = Some(m);
        }
        let observed = observed_frame_from_player_contact(snaps, idx.is_some(), stat.frame_number, min_frame);
        let mut r = make_row(
            Some(stat.frame_number),
            String::from_str(stat_type_name(stat.stat_type)),
            p1.team.clone(),
            found,
            p1,
            p2,
        );
        r.observed_frame_number = Some(observed);
        r.recorded_frame_number = Some(stat.frame_number);
        r.linked_shot_frame = linked;
        r.marks = credit_marks_of(stat.stat_type);
        let ghost before = out@;
        out.push(r);
        assert(row_views(out@) =~= row_views(before).push(official_row(prev, players@, contacts@, *stat)));
        i += 1;
    }
    out
}

// ---- repeated official saves

/// `saves` reads as the rows `vs` do for collapsing repeated saves.
pub open spec fn save_rows_match(saves: Seq<SaveRow>, vs: Seq<PbpRowView>) -> bool {
    &&& saves.len() == vs.len()
    &&& forall|k: int|
        0 <= k < saves.len() ==> (#[trigger] saves[k]).official_save == (vs[k].event_type == "save"@
            && vs[k].marks.official_save == Some(true)) && saves[k].frame_number == vs[k].frame_number
            && saves[k].recorded_frame_number == vs[k].recorded_frame_number && saves[k].event_player_1_name@
            == vs[k].player_1.name && saves[k].event_player_2_name@ == vs[k].player_2.name
            && saves[k].linked_shot_observed_frame_number == vs[k].linked_shot_frame
            && saves[k].official_save_count == vs[k].marks.official_save_count
}

/// The first `n` rows after repeated official saves fold into the first
/// row recording each save.
pub open spec fn saves_collapsed_upto(vs: Seq<PbpRowView>, saves: Seq<SaveRow>, n: int) -> Seq<PbpRowView>
    decreases n,
{
    if n <= 0 {
        Seq::empty()
    } else {
        let prev = saves_collapsed_upto(vs, saves, n - 1);
        match save_fate(saves, n - 1) {
            None => prev,
            Some(None) => prev.push(vs[n - 1]),
            Some(Some(total)) => prev.push(
                PbpRowView { marks: RowMarks { official_save_count: Some(total), ..vs[n - 1].marks }, ..vs[n - 1] },
            ),
        }
    }
}

/// The rows after repeated official saves (same frame, recorded frame,
/// players and linked shot) fold into the first one, whose count becomes
/// the group's total.
pub open spec fn saves_collapsed(vs: Seq<PbpRowView>) -> Seq<PbpRowView> {
    let saves = choose|r: Seq<SaveRow>| save_rows_match(r, vs);
    saves_collapsed_upto(vs, saves, vs.len() as int)
}

proof fn lemma_group_total_same(a: Seq<SaveRow>, b: Seq<SaveRow>, vs: Seq<PbpRowView>, i: int, n: nat)
    requires
        n <= a.len(),
        0 <= i < a.len(),
        save_rows_match(a, vs),
        save_rows_match(b, vs),
    ensures
        group_total(a, i, n) == group_total(b, i, n),
    decreases n,
{
    if n > 0 {
        lemma_group_total_same(a, b, vs, i, (n - 1) as nat);
        assert(a[n - 1].official_save == b[n - 1].official_save);
        assert(a[i].official_save == b[i].official_save);
    }
}

proof fn lemma_save_fate_same(a: Seq<SaveRow>, b: Seq<SaveRow>, vs: Seq<PbpRowView>, i: int)
    requires
        0 <= i < a.len(),
        save_rows_match(a, vs),
        save_rows_match(b, vs),
    ensures
        save_fate(a, i) == save_fate(b, i),
{
    assert forall|j: int| 0 <= j < a.len() implies #[trigger] same_official_save(a, i, j) == same_official_save(b, i, j) by {
        assert(a[j].official_save == b[j].official_save);
        assert(a[i].official_save == b[i].official_save);
    }
    assert(a[i].official_save == b[i].official_save);
    lemma_group_total_same(a, b, vs, i, a.len());
    if exists|j: int| 0 <= j < i && #[trigger] same_official_save(a, i, j) {
        let j = choose|j: int| 0 <= j < i && #[trigger] same_official_save(a, i, j);
        assert(same_official_save(b, i, j));
    }
    if exists|j: int| 0 <= j < i && #[trigger] same_official_save(b, i, j) {
        let j = choose|j: int| 0 <= j < i && #[trigger] same_official_save(b, i, j);
        assert(same_official_save(a, i, j));
    }
    if exists|j: int| i < j < a.len() && #[trigger] same_official_save(a, i, j) {
        let j = choose|j: int| i < j < a.len() && #[trigger] same_official_save(a, i, j);
        assert(same_official_save(b, i, j));
    }
    if exists|j: int| i < j < b.len() && #[trigger] same_official_save(b, i, j) {
        let j = choose|j: int| i < j < b.len() && #[trigger] same_official_save(b, i, j);
        assert(same_official_save(a, i, j));
    }
}

fn collapse_saves(rows: &mut Vec<PbpRow>)
    ensures
        final(rows)@.len() <= old(rows)@.len(),
        row_views(final(rows)@) == saves_collapsed(row_views(old(rows)@)),
{
    let ghost vs = row_views(rows@);
    let mut saves: Vec<SaveRow> = Vec::new();
    let mut j: usize = 0;
    while j < rows.len()
        invariant
            j <= rows@.len(),
            vs == row_views(rows@),
            saves@.len() == j,
            forall|k: int|
                0 <= k < j ==> (#[trigger] saves@[k]).official_save == (vs[k].event_type == "save"@
                    && vs[k].marks.official_save == Some(true)) && saves@[k].frame_number == vs[k].frame_number
                    && saves@[k].recorded_frame_number == vs[k].recorded_frame_number
                    && saves@[k].event_player_1_name@ == vs[k].player_1.name && saves@[k].event_player_2_name@
                    == vs[k].player_2.name && saves@[k].linked_shot_observed_frame_number == vs[k].linked_shot_frame
                    && saves@[k].official_save_count == vs[k].marks.official_save_count,
        decreases rows.len() - j,
    {
        assert(vs[j as int] == rows@[j as int]@);
        let r = &rows[j];
        let flagged = match r.marks.official_save {
            Some(v) => v,
            None => false,
        };
        saves.push(
            SaveRow {
                official_save: str_eq(r.event_type.as_str(), "save") && flagged,
                frame_number: r.frame_number,
                recorded_frame_number: r.recorded_frame_number,
                event_player_1_name: r.player_1.name.clone(),
                event_player_2_name: r.player_2.name.clone(),
                linked_shot_observed_frame_number: r.linked_shot_frame,
                official_save_count: r.marks.official_save_count,
            },
        );
        j += 1;
    }
    let fates = collapse_duplicate_official_saves(saves.as_slice());
    let ghost chosen = choose|r: Seq<SaveRow>| save_rows_match(r, vs);
    proof {
        assert(save_rows_match(saves@, vs));
    }
    let mut out: Vec<PbpRow> = Vec::new();
    let mut i: usize = 0;
    while i < rows.len()
        invariant
            i <= rows@.len(),
            vs == row_views(rows@),
            saves@.len() == rows@.len(),
            fates@.len() == rows@.len(),
            save_rows_match(saves@, vs),
            save_rows_match(chosen, vs),
            forall|k: int| 0 <= k < saves@.len() ==> #[trigger] fates@[k] == save_fate(saves@, k),
            out@.len() <= i,
            row_views(out@) == saves_collapsed_upto(vs, chosen, i as int),
        decreases rows.len() - i,
    {
        proof {
            lemma_save_fate_same(saves@, chosen, vs, i as int);
        }
        assert(vs[i as int] == rows@[i as int]@);
        match fates[i] {
            None => {},
            Some(total) => {
                let mut r = copy_row(&rows[i]);
                match total {
                    Some(t) => {
                        r.marks.official_save_count = Some(t);
                    },
                    None => {},
                }
                let ghost before = out@;
                out.push(r);
                assert(row_views(out@) =~= saves_collapsed_upto(vs, chosen, i + 1));
            },
        }
        i += 1;
    }
    *rows = out;
}

// ---- stints

/// The frame a row is placed in a stint by: its observed frame, else its
/// frame.
pub open spec fn row_frame_of(r: PbpRowView) -> Option<i32> {
    if r.observed_frame_number is Some {
        r.observed_frame_number
    } else {
        r.frame_number
    }
}

/// `keys` reads as the rows `vs` do for stints: event type and frame.
pub open spec fn stint_keys_match(keys: Seq<(String, Option<i32>)>, vs: Seq<PbpRowView>) -> bool {
    &&& keys.len() == vs.len()
    &&& forall|k: int|
        0 <= k < keys.len() ==> (#[trigger] keys[k]).0@ == vs[k].event_type && keys[k].1 == row_frame_of(vs[k])
}

/// Row `r` tagged with the stint the finalization gives it, where it gives
/// one.
pub open spec fn with_stint(r: PbpRowView, stint: Option<i32>) -> PbpRowView {
    match stint {
        Some(n) => PbpRowView { stint_number: Some(n), ..r },
        None => r,
    }
}

/// The first `n` rows that stay after finalization, tagged with their
/// stints.
pub open spec fn finalized_upto(
    vs: Seq<PbpRowView>,
    stints: Seq<StintWindow>,
    keys: Seq<(String, Option<i32>)>,
    n: int,
) -> Seq<PbpRowView>
    decreases n,
{
    if n <= 0 {
        Seq::empty()
    } else {
        let prev = finalized_upto(vs, stints, keys, n - 1);
        match row_fate(stints, kickoff_table(stints, keys, keys.len() as int), keys[n - 1]) {
            Some(stint) => prev.push(with_stint(vs[n - 1], stint)),
            None => prev,
        }
    }
}

/// The rows after finalization: a row stays when it is a demo, join, leave
/// or respawn, or when it falls in a stint with a kickoff and is that
/// kickoff or comes no earlier than the stint's first kickoff; rows that
/// fall in a stint are tagged with it.
pub open spec fn finalized(vs: Seq<PbpRowView>, stints: Seq<StintWindow>) -> Seq<PbpRowView> {
    let keys = choose|k: Seq<(String, Option<i32>)>| stint_keys_match(k, vs);
    finalized_upto(vs, stints, keys, vs.len() as int)
}

proof fn lemma_kickoff_table_same(
    stints: Seq<StintWindow>,
    a: Seq<(String, Option<i32>)>,
    b: Seq<(String, Option<i32>)>,
    n: int,
)
    requires
        0 <= n <= a.len(),
        a.len() == b.len(),
        forall|k: int| 0 <= k < a.len() ==> (#[trigger] a[k]).0@ == b[k].0@ && a[k].1 == b[k].1,
    ensures
        kickoff_table(stints, a, n) == kickoff_table(stints, b, n),
    decreases n,
{
    if n > 0 {
        lemma_kickoff_table_same(stints, a, b, n - 1);
        assert(a[n - 1].0@ == b[n - 1].0@);
    }
}

proof fn lemma_finalized_same(
    vs: Seq<PbpRowView>,
    stints: Seq<StintWindow>,
    a: Seq<(String, Option<i32>)>,
    b: Seq<(String, Option<i32>)>,
    n: int,
)
    requires
        0 <= n <= vs.len(),
        stint_keys_match(a, vs),
        stint_keys_match(b, vs),
    ensures
        finalized_upto(vs, stints, a, n) == finalized_upto(vs, stints, b, n),
    decreases n,
{
    assert forall|k: int| 0 <= k < a.len() implies (#[trigger] a[k]).0@ == b[k].0@ && a[k].1 == b[k].1 by {
        assert(a[k].0@ == vs[k].event_type && b[k].0@ == vs[k].event_type);
    }
    lemma_kickoff_table_same(stints, a, b, a.len() as int);
    if n > 0 {
        lemma_finalized_same(vs, stints, a, b, n - 1);
        assert(a[n - 1].0@ == b[n - 1].0@);
    }
}

fn finalize_stints(rows: &mut Vec<PbpRow>, model: &EventModel)
    ensures
        final(rows)@.len() <= old(rows)@.len(),
        row_views(final(rows)@) == finalized(row_views(old(rows)@), model.stints@),
{
    let ghost vs = row_views(rows@);
    let mut keys: Vec<(String, Option<i32>)> = Vec::new();
    let mut j: usize = 0;
    while j < rows.len()
        invariant
            j <= rows@.len(),
            vs == row_views(rows@),
            keys@.len() == j,
            forall|k: int| 0 <= k < j ==> (#[trigger] keys@[k]).0@ == vs[k].event_type && keys@[k].1 == row_frame_of(vs[k]),
        decreases rows.len() - j,
    {
        assert(vs[j as int] == rows@[j as int]@);
        let frame = match rows[j].observed_frame_number {
            Some(f) => Some(f),
            None => rows[j].frame_number,
        };
        keys.push((rows[j].event_type.clone(), frame));
        j += 1;
    }
    let fates = model.finalize_rows(keys.as_slice());
    proof {
        let chosen = choose|k: Seq<(String, Option<i32>)>| stint_keys_match(k, vs);
        assert(stint_keys_match(keys@, vs));
        lemma_finalized_same(vs, model.stints@, keys@, chosen, vs.len() as int);
    }
    let mut out: Vec<PbpRow> = Vec::new();
    let mut i: usize = 0;
    while i < rows.len()
        invariant
            i <= rows@.len(),
            vs == row_views(rows@),
            keys@.len() == rows@.len(),
            fates@.len() == rows@.len(),
            forall|k: int|
                0 <= k < keys@.len() ==> #[trigger] fates@[k] == row_fate(
                    model.stints@,
                    kickoff_table(model.stints@, keys@, keys@.len() as int),
                    keys@[k],
                ),
            out@.len() <= i,
            row_views(out@) == finalized_upto(vs, model.stints@, keys@, i as int),
        decreases rows.len() - i,
    {
        match fates[i] {
            Some(stint) => {
                let mut r = copy_row(&rows[i]);
                match stint {
                    Some(n) => {
                        r.stint_number = Some(n);
                    },
                    None => {},
                }
                let ghost before = out@;
                out.push(r);
                assert(vs[i as int] == rows@[i as int]@);
                assert(row_views(out@) =~= row_views(before).push(with_stint(vs[i as int], stint)));
            },
            None => {},
        }
        i += 1;
    }
    *rows = out;
}

/// Builds the play-by-play rows: header goals (those the network stream
/// did not show), ball events (without goal rows a later goal replaces),
/// demolitions and contacts, game joins and leaves (once each), the rows of
/// the official credits, and the rows the caller derived from positions;
/// then drops the rows between a goal and its kickoff, orders them, folds
/// repeated official saves into one, orders them, post-processes them, adds the rotation rows when rotation events are
/// on, orders them, keeps the rows the stints keep (tagging their stint),
/// orders them again and numbers them from 1.
pub fn build_pbp_rows(
    players: &[PlayerInfo],
    contacts: &[Vec<(i32, bool)>],
    header_goals: &[HeaderGoalRow],
    ball_events: &[BallEventSource],
    demo_events: &[DemoSource],
    presence_events: &[PresenceEvent],
    official_stats: &[OfficialStatEvent],
    derived_rows: &[PbpRow],
    goal_frames: &[i32],
    rotation_events: bool,
    rotation_rows: &[PbpRow],
    model: &EventModel,
) -> (rows: Vec<PbpRow>)
    ensures
        row_views(rows@) == built_rows(
            players@,
            contacts@,
            header_goals@,
            ball_events@,
            demo_events@,
            presence_events@,
            official_stats@,
            row_views(derived_rows@),
            goal_frames@,
            rotation_events,
            row_views(rotation_rows@),
            model.stints@,
        ),
        forall|i: int| 0 <= i < rows@.len() ==> #[trigger] rows@[i].event_number == (i + 1) as i32,
        rows@.len() <= i32::MAX ==> forall|i: int| 0 <= i < rows@.len() ==> #[trigger] rows@[i].event_number == i + 1,
        keys_ordered(row_views(rows@)),
        !rotation_events ==> forall|i: int| 0 <= i < rows@.len() ==> !is_rotation_type(#[trigger] rows@[i].event_type@),
{
    let slots = player_slots(players);
    let mut extra = official_stat_rows(players, contacts, official_stats);
    let mut derived: Vec<PbpRow> = Vec::new();
    let mut j: usize = 0;
    while j < derived_rows.len()
        invariant
            j <= derived_rows@.len(),
            derived@.len() == j,
            forall|q: int| 0 <= q < j ==> (#[trigger] derived@[q])@ == derived_rows@[q]@,
        decreases derived_rows.len() - j,
    {
        derived.push(copy_row(&derived_rows[j]));
        j += 1;
    }
    assert(row_views(derived@) =~= row_views(derived_rows@));
    extend_rows(&mut extra, &derived);
    let initial = initial_pbp_rows(slots.as_slice(), header_goals, ball_events, demo_events, presence_events, extra.as_slice());
    let mut rows = drop_dead_time(&initial, goal_frames);
    sort_rows_by_key(&mut rows);
    collapse_saves(&mut rows);
    sort_rows_by_key(&mut rows);
    post_process_pbp_rows(&mut rows, slots.as_slice());
    if rotation_events {
        let mut rotation: Vec<PbpRow> = Vec::new();
        let mut k: usize = 0;
        while k < rotation_rows.len()
            invariant
                k <= rotation_rows@.len(),
                rotation@.len() == k,
                forall|q: int| 0 <= q < k ==> (#[trigger] rotation@[q])@ == rotation_rows@[q]@,
            decreases rotation_rows.len() - k,
        {
            rotation.push(copy_row(&rotation_rows[k]));
            k += 1;
        }
        assert(row_views(rotation@) =~= row_views(rotation_rows@));
        extend_rows(&mut rows, &rotation);
    }
    sort_rows_by_key(&mut rows);
    finalize_stints(&mut rows, model);
    sort_rows_by_key(&mut rows);
    if !rotation_events {
        drop_rotation_rows(&mut rows);
    }
    let ghost before_numbering = row_views(rows@);
    number_rows(&mut rows);
    proof {
        assert forall|i: int| 0 <= i < rows@.len() implies #[trigger] rows@[i].event_number == (i + 1) as i32 by {
            assert(row_views(rows@)[i] == rows@[i]@);
            assert(row_views(rows@)[i] == numbered(before_numbering)[i]);
        }
        if !rotation_events {
            assert forall|i: int| 0 <= i < rows@.len() implies !is_rotation_type(#[trigger] rows@[i].event_type@) by {
                assert(row_views(rows@)[i] == rows@[i]@);
                assert(row_views(rows@)[i] == numbered(before_numbering)[i]);
                assert(before_numbering[i].event_type == rows@[i].event_type@);
            }
        }
    }
    rows
}

} // verus!
