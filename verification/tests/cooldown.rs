use analyzerl_boxcars::cooldown::{
    bump_contacts, double_commit_events, pair_key, pressure_events, whiff_events, zone_events,
    PressureKind,
};

fn s(text: &str) -> String {
    text.to_string()
}

#[test]
fn bumps_respect_pair_cooldown_and_demos() {
    let contacts = vec![
        (10, s("a"), s("b")),
        (20, s("b"), s("a")),
        (25, s("a"), s("b")),
        (26, s("a"), s("c")),
        (100, s("a"), s("b")),
        (140, s("a"), s("b")),
    ];
    let demos = vec![(130, s("b"), s("a"))];
    assert_eq!(
        bump_contacts(&contacts, &demos),
        vec![true, false, true, true, false, false]
    );
}

#[test]
fn pressure_cooldowns_per_kind() {
    let events = vec![
        (0, PressureKind::Press, s("d"), s("c")),
        (60, PressureKind::Press, s("d"), s("c")),
        (61, PressureKind::Press, s("d"), s("c")),
        (61, PressureKind::Shadow, s("d"), s("c")),
        (100, PressureKind::Shadow, s("d"), s("c")),
        (152, PressureKind::Shadow, s("d"), s("c")),
    ];
    assert_eq!(pressure_events(&events), vec![true, false, true, true, false, true]);
}

#[test]
fn double_commits_per_unordered_pair() {
    let events = vec![(0, s("x"), s("y")), (45, s("y"), s("x")), (46, s("y"), s("x"))];
    assert_eq!(double_commit_events(&events), vec![true, false, true]);
}

#[test]
fn whiff_cooldown_per_player() {
    let events = vec![
        (0, s("p"), true),
        (100, s("p"), true),
        (150, s("p"), true),
        (151, s("p"), false),
        (151, s("q"), true),
        (160, s("p"), true),
    ];
    assert_eq!(whiff_events(&events), vec![true, false, false, false, true, true]);
}

#[test]
fn zone_cooldown_per_type_and_team() {
    let events = vec![
        (0, s("entry"), 0, true),
        (60, s("entry"), 0, true),
        (61, s("entry"), 0, false),
        (62, s("entry"), 0, true),
        (62, s("entry"), 1, true),
        (62, s("exit"), 0, true),
    ];
    assert_eq!(zone_events(&events), vec![true, false, false, true, true, true]);
}

#[test]
fn pair_keys_put_smaller_name_first() {
    assert_eq!(pair_key(&s("b"), &s("a")), (s("a"), s("b")));
    assert_eq!(pair_key(&s("a"), &s("b")), (s("a"), s("b")));
    assert_eq!(pair_key(&s("a"), &s("a")), (s("a"), s("a")));
}

#[test]
fn recorded_events_are_spaced() {
    let events: Vec<(i32, String, bool)> = (0..60).map(|k| (k * 13, s("p"), true)).collect();
    let kept = whiff_events(&events);
    let frames: Vec<i32> = events
        .iter()
        .zip(kept.iter())
        .filter(|(_, k)| **k)
        .map(|(e, _)| e.0)
        .collect();
    for pair in frames.windows(2) {
        assert!(pair[1] - pair[0] > 150);
    }
}
