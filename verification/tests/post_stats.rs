use analyzerl_boxcars::post::{
    mark_turnovers, microstat_event_type, microstat_events, revert_duplicate_challenges, running_scores,
    ChallengeRow, MicrostatKind, MicrostatRow,
};
use analyzerl_boxcars::stats::{event_kind, player_event_counts, EventCounts, EventKind};

fn s(text: &str) -> String {
    text.to_string()
}

#[test]
fn turnovers_need_next_touch_by_other_team() {
    let rows = vec![
        (s("touch"), s("blue")),
        (s("boost-pickup"), s("")),
        (s("touch"), s("orange")),
        (s("touch"), s("orange")),
        (s("goal"), s("orange")),
        (s("touch"), s("blue")),
        (s("challenge"), s("blue")),
        (s("touch"), s("orange")),
    ];
    assert_eq!(
        mark_turnovers(&rows),
        vec![true, false, false, false, false, false, false, false]
    );
}

#[test]
fn missed_shots_do_not_decide_possession_but_challenges_do() {
    let rows = vec![
        (s("touch"), s("blue")),
        (s("missed-shot"), s("orange")),
        (s("touch"), s("blue")),
        (s("challenge"), s("orange")),
        (s("touch"), s("orange")),
        (s("missed-pass"), s("blue")),
        (s("pass"), s("blue")),
    ];
    assert_eq!(mark_turnovers(&rows), vec![false, false, false, false, true, false, false]);
}

#[test]
fn turnover_needs_a_team() {
    let rows = vec![(s("touch"), s("")), (s("touch"), s("orange"))];
    assert_eq!(mark_turnovers(&rows), vec![false, false]);
}

fn challenge(event_type: &str, a: &str, b: &str, frame: Option<i32>, car: bool) -> ChallengeRow {
    ChallengeRow {
        event_type: s(event_type),
        player_1_name: s(a),
        player_2_name: s(b),
        frame_number: frame,
        has_car_contact: car,
    }
}

#[test]
fn duplicate_challenges_revert() {
    let rows = vec![
        challenge("challenge", "a", "b", Some(100), false),
        challenge("challenge", "b", "a", Some(120), false),
        challenge("challenge", "a", "b", Some(140), true),
        challenge("challenge", "a", "b", Some(160), true),
        challenge("challenge", "a", "c", Some(161), false),
        challenge("touch", "a", "b", Some(165), false),
        challenge("challenge", "a", "", Some(166), false),
    ];
    assert_eq!(
        revert_duplicate_challenges(&rows),
        vec![None, Some("touch"), None, Some("bump"), None, None, None]
    );
}

#[test]
fn running_score_before_each_row() {
    let rows = vec![
        (s("goal"), s("blue")),
        (s("touch"), s("")),
        (s("goal"), s("orange")),
        (s("goal"), s("")),
    ];
    assert_eq!(running_scores(&rows), vec![(0, 0), (1, 0), (1, 0), (1, 1)]);
}

#[test]
fn event_kinds() {
    assert_eq!(event_kind("goal"), EventKind::Goal);
    assert_eq!(event_kind("missed-pass"), EventKind::MissedPass);
    assert_eq!(event_kind("boost-pickup"), EventKind::Other);
}

#[test]
fn add_event_counts_goal_as_shot_and_assist() {
    let mut counts = EventCounts::zero();
    counts.add_event(EventKind::Goal, true, false);
    assert_eq!(counts.goals, 1);
    assert_eq!(counts.shots, 1);
    assert_eq!(counts.shot_attempts, 1);
    let mut assister = EventCounts::zero();
    assister.add_event(EventKind::Goal, false, true);
    assert_eq!(assister.assists, 1);
    assert_eq!(assister.goals, 0);
}

#[test]
fn player_counts_over_rows() {
    let rows = vec![
        (s("goal"), s("a"), s("b")),
        (s("pass"), s("a"), s("")),
        (s("turnover"), s("b"), s("")),
        (s("demo"), s("b"), s("a")),
        (s("bump"), s("a"), s("b")),
        (s("missed-shot"), s("a"), s("")),
        (s("save"), s("b"), s("")),
        (s("touch"), s("c"), s("")),
    ];
    let counts = player_event_counts(&[s("a"), s("b")], &rows);
    assert_eq!(counts.len(), 2);
    let a = &counts[0];
    assert_eq!(a.shots, 1);
    assert_eq!(a.goals, 1);
    assert_eq!(a.touches, 1);
    assert_eq!(a.passes, 1);
    assert_eq!(a.demos_taken, 1);
    assert_eq!(a.bumps, 1);
    assert_eq!(a.missed_shots, 1);
    assert_eq!(a.shot_attempts, 2);
    assert_eq!(a.assists, 0);
    let b = &counts[1];
    assert_eq!(b.assists, 1);
    assert_eq!(b.turnovers, 1);
    assert_eq!(b.touches, 1);
    assert_eq!(b.demos_applied, 1);
    assert_eq!(b.bumps_taken, 1);
    assert_eq!(b.saves, 1);
    assert_eq!(b.shots, 0);
}

fn micro(air: bool, ground: bool, flick: bool, player: &str, frame: Option<i32>) -> MicrostatRow {
    MicrostatRow {
        air_dribble: air,
        ground_dribble: ground,
        flick_shot: flick,
        player_id: player.to_string(),
        frame_number: frame,
    }
}

#[test]
fn dribble_and_flick_events_added_once() {
    let rows = vec![
        micro(false, true, true, "p1", Some(10)),
        micro(true, false, false, "p2", Some(10)),
        micro(false, true, false, "p1", Some(10)),
        micro(false, true, false, "p1", None),
        micro(false, true, false, "p1", Some(-1)),
        micro(false, false, false, "p3", Some(12)),
    ];
    assert_eq!(
        microstat_events(&rows),
        vec![
            (0, MicrostatKind::GroundDribble),
            (0, MicrostatKind::Flick),
            (1, MicrostatKind::AirDribble),
            (3, MicrostatKind::GroundDribble),
        ]
    );
    assert_eq!(microstat_event_type(MicrostatKind::AirDribble), "air-dribble");
    assert_eq!(microstat_event_type(MicrostatKind::GroundDribble), "ground-dribble");
    assert_eq!(microstat_event_type(MicrostatKind::Flick), "flick");
}
