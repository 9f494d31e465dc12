use analyzerl_boxcars::goal_rows::HeaderGoalRow;
use analyzerl_boxcars::pipeline::{
    build_pbp_rows, post_process_pbp_rows, BallEventSource, DemoSource, EventPlayer, PbpRow, PlayerSlot, RowMarks,
};
use analyzerl_boxcars::player_values::{CameraTexts, PlayerInfo};
use analyzerl_boxcars::official::{OfficialStatEvent, StatKind};
use analyzerl_boxcars::stats_rows::native_stats_rows;
use analyzerl_boxcars::stints::{EventModel, StintWindow};

fn s(text: &str) -> String {
    text.to_string()
}

fn player(name: &str, id: &str, team: &str) -> EventPlayer {
    EventPlayer { name: s(name), id: s(id), team: s(team) }
}

fn nobody() -> EventPlayer {
    player("", "", "")
}

fn row(frame: i32, event_type: &str, team: &str, p1: EventPlayer, p2: EventPlayer) -> PbpRow {
    PbpRow {
        frame_number: Some(frame),
        observed_frame_number: Some(frame),
        event_type: s(event_type),
        event_team: s(team),
        event_team_given: true,
        player_1: p1,
        player_2: p2,
        has_car_contact: false,
        near_ball: false,
        air_dribble: false,
        ground_dribble: false,
        flick_shot: false,
        challenger: None,
        previous_event_type: String::new(),
        previous_event_entry: None,
        previous_event_exit: None,
        blue_score: 0,
        orange_score: 0,
        event_number: 0,
        marks: RowMarks::unset(),
        recorded_frame_number: None,
        stint_number: None,
        linked_shot_frame: None,
    }
}

fn players() -> Vec<PlayerSlot> {
    vec![
        PlayerSlot { name: s("ann"), id: s("a1"), team: 0 },
        PlayerSlot { name: s("bob"), id: s("b1"), team: 1 },
    ]
}

fn types(rows: &[PbpRow]) -> Vec<String> {
    rows.iter().map(|r| r.event_type.clone()).collect()
}

#[test]
fn post_processing_marks_turnovers_and_scores() {
    let mut rows = vec![
        row(10, "touch", "blue", player("ann", "a1", "blue"), nobody()),
        row(20, "touch", "orange", player("bob", "b1", "orange"), nobody()),
        row(30, "goal", "orange", player("bob", "b1", "orange"), nobody()),
        row(40, "boost-pickup", "blue", player("ann", "a1", "blue"), nobody()),
        row(50, "kickoff", "", nobody(), nobody()),
    ];
    post_process_pbp_rows(&mut rows, &players());
    assert_eq!(types(&rows), vec![s("turnover"), s("touch"), s("goal"), s("boost-pickup"), s("kickoff")]);
    let scores: Vec<(i32, i32)> = rows.iter().map(|r| (r.blue_score, r.orange_score)).collect();
    assert_eq!(scores, vec![(0, 0), (0, 0), (0, 0), (0, 1), (0, 1)]);
    let previous: Vec<String> = rows.iter().map(|r| r.previous_event_type.clone()).collect();
    assert_eq!(previous, vec![s(""), s("turnover"), s("touch"), s("goal"), s("goal")]);
}

#[test]
fn rows_without_a_team_take_their_first_players() {
    let mut r = row(10, "touch", "", player("ann", "a1", "blue"), nobody());
    r.event_team_given = false;
    let mut rows = vec![r];
    post_process_pbp_rows(&mut rows, &players());
    assert_eq!(rows[0].event_team, s("blue"));
}

#[test]
fn contested_bump_becomes_challenge_won_by_next_toucher() {
    let mut bump = row(10, "bump", "blue", player("ann", "a1", "blue"), player("bob", "b1", "orange"));
    bump.near_ball = true;
    bump.has_car_contact = true;
    let mut rows = vec![bump, row(15, "touch", "orange", player("bob", "b1", "orange"), nobody())];
    post_process_pbp_rows(&mut rows, &players());
    assert_eq!(rows[0].event_type, s("challenge"));
    assert_eq!(rows[0].player_1.name, s("bob"));
    assert_eq!(rows[0].player_2.name, s("ann"));
    assert_eq!(rows[0].event_team, s("orange"));
}

#[test]
fn bump_far_from_the_ball_stays_a_bump() {
    let bump = row(10, "bump", "blue", player("ann", "a1", "blue"), player("bob", "b1", "orange"));
    let mut rows = vec![bump];
    post_process_pbp_rows(&mut rows, &players());
    assert_eq!(rows[0].event_type, s("bump"));
}

#[test]
fn touch_with_nearby_opponent_becomes_challenge_once_per_window() {
    let mut first = row(10, "touch", "blue", player("ann", "a1", "blue"), nobody());
    first.challenger = Some(1);
    let mut second = row(30, "touch", "blue", player("ann", "a1", "blue"), nobody());
    second.challenger = Some(1);
    let mut third = row(50, "touch", "blue", player("ann", "a1", "blue"), nobody());
    third.challenger = Some(1);
    let mut rows = vec![first, second, third];
    post_process_pbp_rows(&mut rows, &players());
    assert_eq!(types(&rows), vec![s("challenge"), s("touch"), s("challenge")]);
    assert_eq!(rows[0].player_2.name, s("bob"));
    assert_eq!(rows[0].player_2.id, s("b1"));
    assert_eq!(rows[0].event_team, s("blue"));
}

#[test]
fn repeated_challenge_of_a_pair_reverts() {
    let mut a = row(10, "challenge", "blue", player("ann", "a1", "blue"), player("bob", "b1", "orange"));
    a.has_car_contact = true;
    let mut b = row(25, "challenge", "orange", player("bob", "b1", "orange"), player("ann", "a1", "blue"));
    b.has_car_contact = true;
    let c = row(45, "challenge", "orange", player("bob", "b1", "orange"), player("ann", "a1", "blue"));
    let mut rows = vec![a, b, c];
    post_process_pbp_rows(&mut rows, &players());
    assert_eq!(types(&rows), vec![s("challenge"), s("bump"), s("challenge")]);
    assert_eq!(rows[1].event_team, s("orange"));
}

#[test]
fn rows_are_regrouped_by_frame_then_type() {
    let mut rows = vec![
        row(20, "touch", "blue", player("ann", "a1", "blue"), nobody()),
        row(10, "shot", "blue", player("ann", "a1", "blue"), nobody()),
        row(10, "pass", "blue", player("ann", "a1", "blue"), nobody()),
    ];
    rows[0].frame_number = None;
    post_process_pbp_rows(&mut rows, &players());
    assert_eq!(types(&rows), vec![s("pass"), s("shot"), s("touch")]);
}

fn ball(frame: i32, event_type: &str, goal: bool, p1: &str) -> BallEventSource {
    BallEventSource {
        frame_number: frame,
        event_type: s(event_type),
        goal,
        player_1: s(p1),
        player_2: String::new(),
        challenger: None,
        air_dribble: false,
        ground_dribble: false,
        flick_shot: false,
    }
}

#[test]
fn stats_rows_count_events_per_player_sorted_by_team_and_name() {
    let slots = vec![
        info("zed", "z1", 0, None),
        info("bob", "b1", 1, Some(camera())),
        info("ann", "a1", 0, None),
        info("zed", "z2", 0, None),
    ];
    let rows = vec![
        row(1, "goal", "blue", player("ann", "a1", "blue"), player("zed", "z2", "blue")),
        row(2, "pass", "orange", player("bob", "b1", "orange"), nobody()),
        row(3, "demo", "orange", player("bob", "b1", "orange"), player("ann", "a1", "blue")),
        row(4, "missed-shot", "blue", player("zed", "z2", "blue"), nobody()),
    ];
    let names = vec![(0, s("Blue Team")), (1, s("Orange Team"))];
    let stats = native_stats_rows("game-7", &slots, &names, &rows);
    let order: Vec<(String, String)> = stats.iter().map(|r| (r.team.clone(), r.player_name.clone())).collect();
    assert_eq!(order, vec![(s("blue"), s("ann")), (s("blue"), s("zed")), (s("orange"), s("bob"))]);
    assert_eq!(stats[0].counts.goals, 1);
    assert_eq!(stats[0].counts.shots, 1);
    assert_eq!(stats[0].counts.shot_attempts, 1);
    assert_eq!(stats[0].counts.demos_taken, 1);
    assert_eq!(stats[1].player_id, s("z2"));
    assert_eq!(stats[1].counts.assists, 1);
    assert_eq!(stats[1].counts.missed_shots, 1);
    assert_eq!(stats[1].counts.shot_attempts, 1);
    assert_eq!(stats[2].counts.passes, 1);
    assert_eq!(stats[2].counts.touches, 1);
    assert_eq!(stats[2].counts.demos_applied, 1);
    assert_eq!(stats[2].team_name, s("Orange Team"));
    for r in &stats {
        assert_eq!(r.columns.games_played, 1);
        assert_eq!(r.columns.teammate_bumps, 0);
        assert_eq!(r.columns.replay_id, s("game-7"));
        assert_eq!(r.columns.platform, s("Steam"));
        assert_eq!(r.columns.car_name, s("Octane"));
    }
    assert_eq!(stats[0].columns.camera_fov, s(""));
    assert_eq!(stats[2].columns.camera_fov, s("110"));
    assert_eq!(stats[2].columns.camera_swivel, s("4.7"));
    assert_eq!(stats[2].columns.camera_transition, s(""));
}

fn camera() -> CameraTexts {
    CameraTexts {
        fov: s("110"),
        height: s("100"),
        angle: s("-3"),
        distance: s("270"),
        stiffness: s("0.5"),
        swivel: s("4.7"),
        transition: None,
    }
}

fn info(name: &str, id: &str, team: i32, camera: Option<CameraTexts>) -> PlayerInfo {
    PlayerInfo {
        id: s(id),
        actor_id: s(""),
        network_id: s(""),
        name: s(name),
        team,
        slot: s(""),
        platform: s("Steam"),
        is_bot: s("false"),
        score: s("0"),
        title_id: s(""),
        first_frame_in_game: s("1"),
        time_in_game: s(""),
        car_id: s("23"),
        car_name: s("Octane"),
        decal_id: s(""),
        wheels_id: s(""),
        boost_id: s(""),
        antenna_id: s(""),
        topper_id: s(""),
        engine_audio_id: s(""),
        trail_id: s(""),
        goal_explosion_id: s(""),
        primary_paint_finish_id: s(""),
        accent_paint_finish_id: s(""),
        camera,
    }
}

#[test]
fn repeated_misses_in_a_frame_group_are_dropped() {
    let mut rows = vec![
        row(30, "missed-shot", "blue", player("ann", "a1", "blue"), nobody()),
        row(31, "missed-shot", "blue", player("ann", "a1", "blue"), nobody()),
        row(31, "missed-shot", "orange", player("bob", "b1", "orange"), nobody()),
        row(32, "missed-pass", "blue", player("ann", "a1", "blue"), nobody()),
        row(33, "missed-shot", "blue", player("ann", "a1", "blue"), nobody()),
    ];
    post_process_pbp_rows(&mut rows, &players());
    let kept: Vec<(Option<i32>, String, String)> =
        rows.iter().map(|r| (r.frame_number, r.event_type.clone(), r.player_1.id.clone())).collect();
    assert_eq!(
        kept,
        vec![
            (Some(30), s("missed-shot"), s("a1")),
            (Some(31), s("missed-shot"), s("b1")),
            (Some(32), s("missed-pass"), s("a1")),
            (Some(33), s("missed-shot"), s("a1")),
        ]
    );
}

#[test]
fn dribble_and_flick_flags_add_rows_once_per_player_and_frame() {
    let mut first = row(10, "touch", "blue", player("ann", "a1", "blue"), nobody());
    first.air_dribble = true;
    first.flick_shot = true;
    let mut second = row(10, "touch", "blue", player("ann", "a1", "blue"), nobody());
    second.air_dribble = true;
    let mut rows = vec![first, second];
    post_process_pbp_rows(&mut rows, &players());
    assert_eq!(types(&rows), vec![s("air-dribble"), s("flick"), s("touch"), s("touch")]);
    assert_eq!(rows[0].player_1.id, s("a1"));
}

#[test]
fn post_processing_gives_unset_columns_their_defaults() {
    let mut r = row(10, "touch", "blue", player("ann", "a1", "blue"), nobody());
    r.marks.official_shot = Some(true);
    r.marks.controlled = Some(true);
    let mut rows = vec![r];
    post_process_pbp_rows(&mut rows, &players());
    let m = rows[0].marks;
    assert_eq!(m.official_shot, Some(true));
    assert_eq!(m.controlled, Some(true));
    assert_eq!(m.official_goal, Some(false));
    assert_eq!(m.official_demo_count, Some(0));
    assert_eq!(m.off_wall, Some(false));
    assert_eq!(m.off_ceiling, Some(false));
}

fn infos() -> Vec<PlayerInfo> {
    let mut ann = info("ann", "a1", 0, None);
    ann.actor_id = s("7");
    vec![ann, info("bob", "b1", 1, None)]
}

fn model(stints: &[(i32, i32, i32)]) -> EventModel {
    EventModel {
        stints: stints
            .iter()
            .map(|&(number, start_frame, end_frame)| StintWindow { number, start_frame, end_frame })
            .collect(),
    }
}

fn build(
    goals: &[HeaderGoalRow],
    balls: &[BallEventSource],
    demos: &[DemoSource],
    presence: &[(i32, String, String)],
    goal_frames: &[i32],
    stints: &[(i32, i32, i32)],
) -> Vec<PbpRow> {
    build_pbp_rows(&infos(), &[], goals, balls, demos, presence, &[], &[], goal_frames, true, &[], &model(stints))
}

#[test]
fn built_rows_are_ordered_numbered_and_skip_play_after_goals() {
    let header_goals = vec![HeaderGoalRow {
        goal_number: 1,
        frame_number: Some(500),
        team: Some(1),
        scorer: s("bob"),
        assister: s("nobody"),
    }];
    let balls = vec![
        ball(50, "kickoff", false, "ann"),
        ball(100, "touch", false, "ann"),
        ball(90, "touch", false, "bob"),
        ball(520, "touch", false, "ann"),
        ball(600, "kickoff", false, "ann"),
        ball(650, "touch", false, "ghost"),
    ];
    let demos = vec![DemoSource {
        frame_number: 95,
        event_type: s("demo"),
        player_1: s("ann"),
        player_2: s("bob"),
        near_ball: false,
    }];
    let rows = build(&header_goals, &balls, &demos, &[], &[], &[(1, 0, 500), (2, 600, 2000)]);
    assert_eq!(
        types(&rows),
        vec![s("kickoff"), s("turnover"), s("demo"), s("touch"), s("goal"), s("kickoff"), s("touch")]
    );
    let frames: Vec<Option<i32>> = rows.iter().map(|r| r.frame_number).collect();
    assert_eq!(frames, vec![Some(50), Some(90), Some(95), Some(100), Some(500), Some(600), Some(650)]);
    let numbers: Vec<i32> = rows.iter().map(|r| r.event_number).collect();
    assert_eq!(numbers, vec![1, 2, 3, 4, 5, 6, 7]);
    let stints: Vec<Option<i32>> = rows.iter().map(|r| r.stint_number).collect();
    assert_eq!(stints, vec![Some(1), Some(1), Some(1), Some(1), Some(1), Some(2), Some(2)]);
    assert_eq!(rows[4].event_team, s("orange"));
    assert_eq!(rows[4].player_1.id, s("b1"));
    assert_eq!(rows[4].player_2.id, s(""));
    assert_eq!(rows[6].event_team, s(""));
    assert_eq!((rows[6].blue_score, rows[6].orange_score), (0, 1));
    assert!(rows[2].has_car_contact);
    assert_eq!(rows[2].player_2.team, s("orange"));
    assert_eq!(rows[2].marks.official_demo, Some(true));
    assert_eq!(rows[2].marks.official_demo_count, Some(1));
}

#[test]
fn rows_before_a_stints_kickoff_are_dropped() {
    let balls = vec![ball(20, "touch", false, "ann"), ball(50, "kickoff", false, "ann"), ball(60, "touch", false, "bob")];
    let rows = build(&[], &balls, &[], &[], &[], &[(1, 0, 1000)]);
    assert_eq!(types(&rows), vec![s("kickoff"), s("touch")]);
    let none = build(&[], &balls, &[], &[], &[], &[]);
    assert!(none.is_empty());
}

#[test]
fn later_scoring_ball_event_replaces_nearby_goal_row() {
    let balls = vec![ball(10, "kickoff", false, "ann"), ball(100, "goal", true, "ann"), ball(150, "goal", true, "ann")];
    let rows = build(&[], &balls, &[], &[], &[], &[(1, 0, 1000)]);
    assert_eq!(types(&rows), vec![s("kickoff"), s("goal")]);
    assert_eq!(rows[1].frame_number, Some(150));
}

#[test]
fn header_goal_frames_cut_play_until_the_kickoff() {
    let balls = vec![
        ball(90, "kickoff", false, "ann"),
        ball(100, "touch", false, "ann"),
        ball(120, "touch", false, "bob"),
        ball(130, "kickoff", false, "ann"),
    ];
    let rows = build(&[], &balls, &[], &[], &[110], &[(1, 0, 110), (2, 111, 1000)]);
    assert_eq!(types(&rows), vec![s("kickoff"), s("touch"), s("kickoff")]);
}

#[test]
fn presence_events_become_rows_once() {
    let presence = vec![
        (5, s("bob"), s("game-join")),
        (5, s("bob"), s("game-join")),
        (7, s(""), s("game-join")),
        (9, s("ann"), s("game-leave")),
    ];
    let rows = build(&[], &[], &[], &presence, &[], &[]);
    assert_eq!(types(&rows), vec![s("game-join"), s("game-leave")]);
    assert_eq!(rows[0].event_team, s("orange"));
    assert_eq!(rows[1].player_1.id, s("a1"));
    assert_eq!(rows[1].event_number, 2);
}

#[test]
fn rotation_rows_come_in_only_when_rotation_events_are_on() {
    let balls = vec![ball(10, "kickoff", false, "ann")];
    let rotation = vec![row(200, "rotation-fill", "blue", player("ann", "a1", "blue"), nobody())];
    let on = build_pbp_rows(&infos(), &[], &[], &balls, &[], &[], &[], &[], &[], true, &rotation, &model(&[(1, 0, 1000)]));
    assert_eq!(types(&on), vec![s("kickoff"), s("rotation-fill")]);
    let off = build_pbp_rows(&infos(), &[], &[], &balls, &[], &[], &[], &[], &[], false, &rotation, &model(&[(1, 0, 1000)]));
    assert_eq!(types(&off), vec![s("kickoff")]);
}

#[test]
fn official_credits_become_rows_and_saves_link_to_their_shot() {
    let balls = vec![ball(10, "kickoff", false, "ann")];
    let stats = vec![
        OfficialStatEvent { pri_actor_id: Some(7), frame_number: 300, player_name: s("someone"), stat_type: StatKind::Shot, stat_number: 1 },
        OfficialStatEvent { pri_actor_id: None, frame_number: 400, player_name: s("bob"), stat_type: StatKind::Save, stat_number: 1 },
    ];
    let contacts = vec![vec![(290, true), (310, true)], vec![(280, true), (350, true)]];
    let rows = build_pbp_rows(&infos(), &contacts, &[], &balls, &[], &[], &stats, &[], &[], true, &[], &model(&[(1, 0, 1000)]));
    assert_eq!(types(&rows), vec![s("kickoff"), s("shot"), s("save")]);
    assert_eq!(rows[1].player_1.name, s("ann"));
    assert_eq!(rows[1].observed_frame_number, Some(290));
    assert_eq!(rows[1].recorded_frame_number, Some(300));
    assert_eq!(rows[1].marks.official_shot, Some(true));
    assert_eq!(rows[1].marks.official_shot_count, Some(1));
    assert_eq!(rows[1].marks.official_save, Some(false));
    assert_eq!(rows[2].player_1.name, s("bob"));
    assert_eq!(rows[2].player_2.name, s("ann"));
    assert_eq!(rows[2].observed_frame_number, Some(350));
    assert_eq!(rows[2].marks.official_save, Some(true));
    assert_eq!(rows[2].event_team, s("orange"));
}

#[test]
fn repeated_official_saves_fold_into_one_row() {
    let balls = vec![ball(10, "kickoff", false, "ann")];
    let stats = vec![
        OfficialStatEvent { pri_actor_id: None, frame_number: 400, player_name: s("bob"), stat_type: StatKind::Save, stat_number: 1 },
        OfficialStatEvent { pri_actor_id: None, frame_number: 400, player_name: s("bob"), stat_type: StatKind::Save, stat_number: 2 },
    ];
    let rows = build_pbp_rows(&infos(), &[], &[], &balls, &[], &[], &stats, &[], &[], true, &[], &model(&[(1, 0, 1000)]));
    assert_eq!(types(&rows), vec![s("kickoff"), s("save")]);
    assert_eq!(rows[1].marks.official_save_count, Some(2));
}

#[test]
fn derived_rotation_rows_stay_out_when_rotation_events_are_off() {
    let balls = vec![ball(10, "kickoff", false, "ann")];
    let derived = vec![
        row(150, "rotation-cut", "blue", player("ann", "a1", "blue"), nobody()),
        row(160, "rotation-stall", "blue", player("ann", "a1", "blue"), nobody()),
    ];
    let off = build_pbp_rows(&infos(), &[], &[], &balls, &[], &[], &[], &derived, &[], false, &[], &model(&[(1, 0, 1000)]));
    assert_eq!(types(&off), vec![s("kickoff")]);
    assert_eq!(off[0].event_number, 1);
    let on = build_pbp_rows(&infos(), &[], &[], &balls, &[], &[], &[], &derived, &[], true, &[], &model(&[(1, 0, 1000)]));
    assert_eq!(types(&on), vec![s("kickoff"), s("rotation-cut"), s("rotation-stall")]);
}

#[test]
fn previous_entry_and_exit_flags_follow_the_previous_event() {
    let mut rows = vec![
        row(10, "entry", "blue", player("ann", "a1", "blue"), nobody()),
        row(20, "touch", "blue", player("ann", "a1", "blue"), nobody()),
        row(30, "exit", "blue", player("ann", "a1", "blue"), nobody()),
        row(40, "boost-pickup", "blue", player("ann", "a1", "blue"), nobody()),
        row(50, "touch", "blue", player("ann", "a1", "blue"), nobody()),
    ];
    post_process_pbp_rows(&mut rows, &players());
    let flags: Vec<(String, Option<bool>, Option<bool>)> = rows
        .iter()
        .filter(|r| r.event_type == "touch")
        .map(|r| (r.previous_event_type.clone(), r.previous_event_entry, r.previous_event_exit))
        .collect();
    assert_eq!(flags, vec![(s("entry"), Some(true), Some(false)), (s("exit"), Some(false), Some(true))]);
    let first = rows.iter().find(|r| r.event_type == "entry").unwrap();
    assert_eq!((first.previous_event_entry, first.previous_event_exit), (None, None));
}
