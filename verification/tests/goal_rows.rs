use analyzerl_boxcars::goal_rows::{ball_rows_kept, header_goal_rows, official_goal_recorded, BallRowMark};
use analyzerl_boxcars::header::{HeaderScalar, HeaderValue};
use analyzerl_boxcars::official::{OfficialStatEvent, StatKind};

fn s(text: &str) -> String {
    text.to_string()
}

fn goal(frame: Option<(&str, i32)>, scorer: &str, team: i32) -> Vec<(String, HeaderScalar)> {
    let mut props = vec![
        (s("PlayerName"), HeaderScalar::Str(s(scorer))),
        (s("PlayerTeam"), HeaderScalar::Int(team)),
    ];
    if let Some((key, value)) = frame {
        props.push((s(key), HeaderScalar::Int(value)));
    }
    props
}

fn mark(frame_number: i32, goal: bool, goal_typed: bool) -> BallRowMark {
    BallRowMark { frame_number, goal, goal_typed }
}

fn header_with_goals() -> Vec<(String, HeaderValue)> {
    vec![(
        s("Goals"),
        HeaderValue::Array(vec![
            goal(Some(("frame", 100)), "Alpha", 0),
            goal(Some(("Frame", 500)), "Bravo", 1),
            goal(None, "Charlie", 1),
            goal(Some(("Time", 1000)), "Delta", 0),
        ]),
    )]
}

#[test]
fn header_goals_fill_in_goals_the_stream_missed() {
    let header = header_with_goals();
    let ball = vec![mark(220, true, true), mark(700, false, false), mark(1121, true, true)];
    let rows = header_goal_rows(false, &header, &ball);
    assert_eq!(rows.len(), 3);
    assert_eq!(rows[0].goal_number, 2);
    assert_eq!(rows[0].frame_number, Some(500));
    assert_eq!(rows[0].scorer, "Bravo");
    assert_eq!(rows[0].team, Some(1));
    assert_eq!(rows[0].assister, "");
    assert_eq!(rows[1].goal_number, 3);
    assert_eq!(rows[1].frame_number, None);
    assert_eq!(rows[2].goal_number, 4);
    assert_eq!(rows[2].frame_number, Some(1000));
}

#[test]
fn header_goals_unused_when_stats_recorded() {
    let header = header_with_goals();
    assert!(header_goal_rows(true, &header, &[]).is_empty());
    assert_eq!(header_goal_rows(false, &header, &[]).len(), 4);
    assert!(header_goal_rows(false, &[], &[]).is_empty());
}

#[test]
fn official_goal_credit_detected() {
    let credit = |kind| OfficialStatEvent {
        pri_actor_id: None,
        frame_number: 10,
        player_name: s("Alpha"),
        stat_type: kind,
        stat_number: 1,
    };
    assert!(!official_goal_recorded(&[credit(StatKind::Shot), credit(StatKind::Save)]));
    assert!(official_goal_recorded(&[credit(StatKind::Shot), credit(StatKind::Goal)]));
    assert!(!official_goal_recorded(&[]));
}

#[test]
fn later_goal_replaces_nearby_goal_rows() {
    let ball = vec![
        mark(100, true, true),
        mark(150, true, true),
        mark(160, false, false),
        mark(400, false, true),
        mark(520, true, false),
        mark(2000, true, true),
    ];
    assert_eq!(ball_rows_kept(&ball), vec![false, true, true, false, true, true]);
}
