use analyzerl_boxcars::events::ContactRow;
use analyzerl_boxcars::zones::{closest_possessor_within, is_dead_frame, zone_event_exists, zone_frame_events, ZoneFrame};

fn s(text: &str) -> String {
    text.to_string()
}

fn frame(frame_number: i32, zone: Option<i32>, possessor: Option<usize>) -> ZoneFrame {
    ZoneFrame { frame_number, zone, possessor }
}

fn frames() -> Vec<ZoneFrame> {
    vec![
        frame(5, Some(0), None),
        frame(10, Some(0), Some(0)),
        frame(20, Some(1), Some(0)),
        frame(30, None, None),
        frame(40, Some(0), None),
        frame(50, Some(1), Some(0)),
        frame(90, Some(1), None),
        frame(110, Some(-1), Some(1)),
        frame(210, Some(0), Some(0)),
    ]
}

fn contacts() -> Vec<ContactRow> {
    vec![ContactRow {
        event_type: s("touch"),
        frame_number: Some(15),
        event_player_1_name: s("a"),
        event_team: s("blue"),
    }]
}

fn summary(events: &[analyzerl_boxcars::zones::ZoneEvent]) -> Vec<(&'static str, i32, i32, String, bool)> {
    events
        .iter()
        .map(|e| (e.event_type, e.frame_number, e.team, e.player_name.clone(), e.controlled))
        .collect()
}

#[test]
fn dead_frames() {
    assert!(is_dead_frame(&[10], &[200], 5));
    assert!(is_dead_frame(&[10], &[200], 10));
    assert!(!is_dead_frame(&[10], &[200], 20));
    assert!(is_dead_frame(&[10], &[200], 210));
    assert!(!is_dead_frame(&[10, 300], &[200], 310));
    assert!(is_dead_frame(&[10, 300], &[200], 250));
}

#[test]
fn zone_scan_finds_retrievals_entries_and_cooldowns() {
    let players = vec![(s("a"), 0), (s("b"), 1)];
    let events = zone_frame_events(&frames(), &players, &[10], &[200], &contacts(), &[]);
    assert_eq!(
        summary(&events),
        vec![
            ("retrieval", 20, 0, s("a"), true),
            ("entry", 20, 0, s("a"), true),
            ("entry", 110, 1, s("b"), true),
        ]
    );
}

#[test]
fn zone_scan_respects_touch_zone_changes() {
    let players = vec![(s("a"), 0), (s("b"), 1)];
    let prior = vec![(15, s("entry"), 0)];
    let events = zone_frame_events(&frames(), &players, &[10], &[200], &contacts(), &prior);
    assert_eq!(
        summary(&events),
        vec![
            ("retrieval", 20, 0, s("a"), true),
            ("entry", 110, 1, s("b"), true),
        ]
    );
}

#[test]
fn possessor_is_first_closest_in_reach() {
    assert_eq!(closest_possessor_within(&[None, Some(4), Some(2), Some(2), None]), Some(2));
    assert_eq!(closest_possessor_within(&[Some(0)]), Some(0));
    assert_eq!(closest_possessor_within(&[None, None]), None);
    assert_eq!(closest_possessor_within(&[]), None);
}

#[test]
fn zone_rows_found_by_type_team_and_frame() {
    let rows = vec![
        ("entry".to_string(), Some(100), "blue".to_string()),
        ("exit".to_string(), Some(120), "orange".to_string()),
        ("entry".to_string(), None, "orange".to_string()),
    ];
    assert!(zone_event_exists(&rows, "entry", 0, 100));
    assert!(zone_event_exists(&rows, "exit", 1, 120));
    assert!(!zone_event_exists(&rows, "exit", 0, 120));
    assert!(!zone_event_exists(&rows, "entry", 1, 100));
    assert!(!zone_event_exists(&rows, "entry", 1, 0));
}

#[test]
fn retrievals_need_more_than_ninety_frames() {
    let players = vec![(s("a"), 0), (s("b"), 1)];
    let frames = vec![
        frame(20, Some(0), None),
        frame(30, Some(0), Some(0)),
        frame(40, Some(0), None),
        frame(120, Some(0), Some(1)),
        frame(121, Some(0), None),
        frame(121, Some(0), None),
        frame(125, Some(0), Some(0)),
    ];
    let events = zone_frame_events(&frames, &players, &[10], &[], &[], &[]);
    assert_eq!(
        summary(&events),
        vec![("retrieval", 30, 0, s("a"), true), ("retrieval", 125, 0, s("a"), true)]
    );
}
