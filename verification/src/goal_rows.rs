use vstd::prelude::*;
use crate::header::{
    header_array, header_array_named, int_named, prop_i32, prop_string, scalar_int, scalar_named, text_or_empty,
    HeaderScalar, HeaderValue,
};
use crate::official::{OfficialStatEvent, StatKind};

verus! {

/// How far apart, in frames, two goals may be and still count as the same
/// goal.
pub const SAME_GOAL_FRAMES: i32 = 120;

/// What the goal rows read of a classified ball event: its frame, whether
/// it scored, and whether its event type is `goal`.
#[derive(Clone, Copy, Debug)]
pub struct BallRowMark {
    pub frame_number: i32,
    pub goal: bool,
    pub goal_typed: bool,
}

/// A play-by-play goal row taken from the replay header, for a goal that
/// the network stream did not show.
#[derive(Clone, Debug)]
pub struct HeaderGoalRow {
    /// The goal's position in the header's list, counting from 1.
    pub goal_number: usize,
    pub frame_number: Option<i32>,
    pub team: Option<i32>,
    pub scorer: String,
    pub assister: String,
}

/// Two frames lie within the same-goal window of each other.
pub open spec fn near(a: i32, b: i32) -> bool {
    -SAME_GOAL_FRAMES <= a - b <= SAME_GOAL_FRAMES
}

/// The frame of a header goal entry: `frame`, else `Frame`, else `Time`.
pub open spec fn entry_frame(goal: Seq<(String, HeaderScalar)>) -> Option<i32> {
    match int_named(goal, "frame"@) {
        Some(f) => Some(f),
        None => match int_named(goal, "Frame"@) {
            Some(f) => Some(f),
            None => int_named(goal, "Time"@),
        },
    }
}

/// Some ball event that scored lies within the same-goal window of `f`.
pub open spec fn near_ball_goal(ball: Seq<BallRowMark>, f: i32) -> bool {
    exists|j: int| 0 <= j < ball.len() && #[trigger] ball[j].goal && near(ball[j].frame_number, f)
}

/// A header goal becomes a row unless the ball events show a goal near its
/// frame.
pub open spec fn header_goal_kept(goal: Seq<(String, HeaderScalar)>, ball: Seq<BallRowMark>) -> bool {
    match entry_frame(goal) {
        Some(f) => !near_ball_goal(ball, f),
        None => true,
    }
}

/// The positions, among the first `n` header goals, of those that become
/// rows.
pub open spec fn kept_goal_positions(goals: Seq<Vec<(String, HeaderScalar)>>, ball: Seq<BallRowMark>, n: nat) -> Seq<int>
    decreases n,
{
    if n == 0 {
        Seq::empty()
    } else {
        let earlier = kept_goal_positions(goals, ball, (n - 1) as nat);
        if header_goal_kept(goals[n - 1]@, ball) {
            earlier.push(n - 1)
        } else {
            earlier
        }
    }
}

/// The header goals that become rows: none when official goal stats were
/// recorded or the header lists no goals, else those of its `Goals` array
/// that no scoring ball event lies near.
pub open spec fn header_goal_positions(
    official_goal_recorded: bool,
    header: Seq<(String, HeaderValue)>,
    ball: Seq<BallRowMark>,
) -> Seq<int> {
    if official_goal_recorded {
        Seq::empty()
    } else {
        match header_array_named(header, "Goals"@) {
            Some(a) => kept_goal_positions(a@, ball, a@.len()),
            None => Seq::empty(),
        }
    }
}

/// `row` is the goal row of header goal entry `goal`, the `idx`-th of the
/// list.
pub open spec fn describes_goal(row: HeaderGoalRow, goal: Seq<(String, HeaderScalar)>, idx: int) -> bool {
    &&& row.goal_number == idx + 1
    &&& row.frame_number == entry_frame(goal)
    &&& row.team == int_named(goal, "PlayerTeam"@)
    &&& row.scorer@ == text_or_empty(goal, "PlayerName"@)
    &&& row.assister@ == text_or_empty(goal, "AssistName"@)
}

fn near_exec(a: i32, b: i32) -> (res: bool)
    ensures
        res == near(a, b),
{
    let d: i64 = a as i64 - b as i64;
    -120 <= d && d <= 120
}

fn has_near_ball_goal(ball: &[BallRowMark], f: i32) -> (res: bool)
    ensures
        res == near_ball_goal(ball@, f),
{
    let mut j: usize = 0;
    while j < ball.len()
        invariant
            j <= ball@.len(),
            forall|k: int| 0 <= k < j ==> !(#[trigger] ball@[k].goal && near(ball@[k].frame_number, f)),
        decreases ball.len() - j,
    {
        if ball[j].goal && near_exec(ball[j].frame_number, f) {
            return true;
        }
        j += 1;
    }
    false
}

/// Whether the network stream recorded an official goal credit; header
/// goals are used only when it did not.
pub fn official_goal_recorded(stats: &[OfficialStatEvent]) -> (res: bool)
    ensures
        res == exists|i: int| 0 <= i < stats@.len() && #[trigger] stats@[i].stat_type == StatKind::Goal,
{
    let mut i: usize = 0;
    while i < stats.len()
        invariant
            i <= stats@.len(),
            forall|k: int| 0 <= k < i ==> #[trigger] stats@[k].stat_type != StatKind::Goal,
        decreases stats.len() - i,
    {
        if stats[i].stat_type == StatKind::Goal {
            return true;
        }
        i += 1;
    }
    false
}

/// The play-by-play goal rows taken from the replay header: when no
/// official goal stat was recorded, one row for each goal of the header's
/// `Goals` array, skipping those within the same-goal window of a scoring
/// ball event.
pub fn header_goal_rows(
    official_goal_recorded: bool,
    header: &[(String, HeaderValue)],
    ball: &[BallRowMark],
) -> (res: Vec<HeaderGoalRow>)
    ensures
        res@.len() == header_goal_positions(official_goal_recorded, header@, ball@).len(),
        forall|k: int| 0 <= k < res@.len() ==> {
            let idx = #[trigger] header_goal_positions(official_goal_recorded, header@, ball@)[k];
            let goals = header_array_named(header@, "Goals"@).unwrap()@;
            &&& 0 <= idx < goals.len()
            &&& describes_goal(res@[k], goals[idx]@, idx)
        },
{
    let mut rows: Vec<HeaderGoalRow> = Vec::new();
    if official_goal_recorded {
        return rows;
    }
    match header_array(header, "Goals") {
        Some(goals) => {
            let mut i: usize = 0;
            while i < goals.len()
                invariant
                    i <= goals@.len(),
                    header_array_named(header@, "Goals"@) == Some(*goals),
                    rows@.len() == kept_goal_positions(goals@, ball@, i as nat).len(),
                    forall|k: int| 0 <= k < rows@.len() ==> {
                        let idx = #[trigger] kept_goal_positions(goals@, ball@, i as nat)[k];
                        &&& 0 <= idx < i
                        &&& describes_goal(rows@[k], goals@[idx]@, idx)
                    },
                decreases goals@.len() - i,
            {
                let goal = goals[i].as_slice();
                let frame = match prop_i32(goal, "frame") {
                    Some(f) => Some(f),
                    None => match prop_i32(goal, "Frame") {
                        Some(f) => Some(f),
                        None => prop_i32(goal, "Time"),
                    },
                };
                let skip = match frame {
                    Some(f) => has_near_ball_goal(ball, f),
                    None => false,
                };
                if !skip {
                    let scorer = match prop_string(goal, "PlayerName") {
                        Some(t) => t,
                        None => String::new(),
                    };
                    let assister = match prop_string(goal, "AssistName") {
                        Some(t) => t,
                        None => String::new(),
                    };
                    rows.push(
                        HeaderGoalRow {
                            goal_number: i + 1,
                            frame_number: frame,
                            team: prop_i32(goal, "PlayerTeam"),
                            scorer,
                            assister,
                        },
                    );
                }
                i += 1;
            }
        },
        None => {},
    }
    rows
}

/// Ball event `i` is a goal-typed row that a later scoring ball event
/// within the same-goal window replaces.
pub open spec fn replaced_by_later_goal(ball: Seq<BallRowMark>, i: int) -> bool {
    ball[i].goal_typed && exists|j: int|
        i < j < ball.len() && #[trigger] ball[j].goal && near(ball[i].frame_number, ball[j].frame_number)
}

/// Which ball-event rows stay: every one but a goal-typed row that a later
/// scoring ball event within the same-goal window replaces.
pub fn ball_rows_kept(ball: &[BallRowMark]) -> (res: Vec<bool>)
    ensures
        res@.len() == ball@.len(),
        forall|i: int| 0 <= i < ball@.len() ==> #[trigger] res@[i] == !replaced_by_later_goal(ball@, i),
{
    let mut kept: Vec<bool> = Vec::new();
    let mut i: usize = 0;
    while i < ball.len()
        invariant
            i <= ball@.len(),
            kept@.len() == i,
            forall|k: int| 0 <= k < i ==> #[trigger] kept@[k] == !replaced_by_later_goal(ball@, k),
        decreases ball.len() - i,
    {
        let mut replaced = false;
        if ball[i].goal_typed {
            let mut j: usize = i + 1;
            while j < ball.len()
                invariant
                    i < ball@.len(),
                    i + 1 <= j <= ball@.len(),
                    ball@[i as int].goal_typed,
                    replaced ==> replaced_by_later_goal(ball@, i as int),
                    !replaced ==> forall|k: int| i < k < j ==> !(#[trigger] ball@[k].goal && near(
                        ball@[i as int].frame_number,
                        ball@[k].frame_number,
                    )),
                decreases ball.len() - j,
            {
                if !replaced && ball[j].goal && near_exec(ball[i].frame_number, ball[j].frame_number) {
                    replaced = true;
                    assert(i < j < ball@.len() && ball@[j as int].goal);
                }
                j += 1;
            }
        }
        kept.push(!replaced);
        i += 1;
    }
    kept
}

/// No header goal row lies within the same-goal window of a scoring ball
/// event, so the ball events' goal replacement never removes one.
pub proof fn law_header_goals_apart_from_ball_goals(
    official_goal_recorded: bool,
    header: Seq<(String, HeaderValue)>,
    ball: Seq<BallRowMark>,
    k: int,
    j: int,
)
    requires
        0 <= k < header_goal_positions(official_goal_recorded, header, ball).len(),
        0 <= j < ball.len(),
        ball[j].goal,
    ensures
        ({
            let idx = header_goal_positions(official_goal_recorded, header, ball)[k];
            let goals = header_array_named(header, "Goals"@).unwrap()@;
            entry_frame(goals[idx]@) matches Some(f) ==> !near(ball[j].frame_number, f)
        }),
{
    let goals = header_array_named(header, "Goals"@).unwrap()@;
    lemma_kept_goals_kept(goals, ball, goals.len());
}

proof fn lemma_kept_goals_kept(goals: Seq<Vec<(String, HeaderScalar)>>, ball: Seq<BallRowMark>, n: nat)
    ensures
        forall|k: int| 0 <= k < kept_goal_positions(goals, ball, n).len() ==> {
            let idx = #[trigger] kept_goal_positions(goals, ball, n)[k];
            &&& 0 <= idx < n
            &&& header_goal_kept(goals[idx]@, ball)
        },
    decreases n,
{
    if n > 0 {
        lemma_kept_goals_kept(goals, ball, (n - 1) as nat);
        let earlier = kept_goal_positions(goals, ball, (n - 1) as nat);
        let all = kept_goal_positions(goals, ball, n);
        assert forall|k: int| 0 <= k < all.len() implies {
            let idx = #[trigger] all[k];
            &&& 0 <= idx < n
            &&& header_goal_kept(goals[idx]@, ball)
        } by {
            if k < earlier.len() {
                assert(all[k] == earlier[k]);
            }
        }
    }
}

} // verus!
