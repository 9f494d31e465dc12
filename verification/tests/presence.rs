use analyzerl_boxcars::presence::{
    demo_respawn_events, game_presence_rows, inferred_initial_game_joins, record_demo_events,
    PresenceFrame,
};

fn s(text: &str) -> String {
    text.to_string()
}

#[test]
fn presence_rows_skip_unnamed_and_repeated() {
    let events = vec![
        (10, s("a"), s("game-join")),
        (10, s("a"), s("game-join")),
        (10, s(""), s("game-join")),
        (10, s("a"), s("respawn")),
        (11, s("a"), s("game-join")),
    ];
    assert_eq!(game_presence_rows(&events), vec![true, false, false, true, true]);
}

#[test]
fn respawns_come_at_first_frame_after_delay() {
    let demos = vec![(100, s("v")), (105, s("")), (100, s("v")), (300, s("w"))];
    let frames = vec![150, 190, 195, 200];
    assert_eq!(
        demo_respawn_events(&[], &demos, &frames),
        vec![(190, s("v")), (390, s("w"))]
    );
}

#[test]
fn known_respawns_are_not_repeated() {
    let demos = vec![(100, s("v")), (300, s("w"))];
    let frames = vec![150, 190];
    let events = vec![(390, s("w"), s("respawn"))];
    assert_eq!(demo_respawn_events(&events, &demos, &frames), vec![(190, s("v"))]);
}

fn presence_frame(frame_number: i32, has_car: &[bool]) -> PresenceFrame {
    PresenceFrame { frame_number, has_car: has_car.to_vec() }
}

#[test]
fn initial_joins_inferred_from_first_car_state() {
    let events = vec![(5, s("b"), s("game-join"))];
    let frames = vec![
        presence_frame(1, &[false, true, false]),
        presence_frame(2, &[true, true, false]),
        presence_frame(3, &[true, false, false]),
    ];
    assert_eq!(
        inferred_initial_game_joins(&events, &[s("a"), s("b"), s("c")], &frames),
        vec![(2, s("a")), (1, s("b"))]
    );
}

#[test]
fn explicit_join_before_car_state_needs_no_inference() {
    let events = vec![(1, s("a"), s("game-join")), (9, s("b"), s("game-leave"))];
    let frames = vec![presence_frame(1, &[true, false]), presence_frame(4, &[true, true])];
    assert_eq!(inferred_initial_game_joins(&events, &[s("a"), s("b")], &frames), vec![(4, s("b"))]);
}

#[test]
fn initial_join_once_per_name() {
    let frames = vec![presence_frame(4, &[true, true])];
    assert_eq!(
        inferred_initial_game_joins(&[], &[s("a"), s("a")], &frames),
        vec![(4, s("a"))]
    );
}

#[test]
fn demo_events_respect_cooldowns() {
    let candidates = vec![
        (s("x"), s("y"), 100),
        (s("x"), s("y"), 200),
        (s("x"), s("y"), 260),
        (s("z"), s("y"), 300),
        (s("x"), s("x"), 500),
        (s(""), s("y"), 600),
        (s("z"), s("w"), 610),
    ];
    assert_eq!(
        record_demo_events(&candidates),
        vec![true, false, true, false, false, false, true]
    );
}

#[test]
fn recorded_demos_of_a_victim_are_spaced() {
    let candidates: Vec<(String, String, i32)> = (0..40)
        .map(|k| (if k % 2 == 0 { s("x") } else { s("z") }, s("y"), k * 37))
        .collect();
    let kept = record_demo_events(&candidates);
    let frames: Vec<i32> = candidates
        .iter()
        .zip(kept.iter())
        .filter(|(_, k)| **k)
        .map(|(c, _)| c.2)
        .collect();
    assert!(frames.len() > 1);
    for pair in frames.windows(2) {
        assert!(pair[1] - pair[0] > 150);
    }
}
