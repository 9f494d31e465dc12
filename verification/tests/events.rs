use analyzerl_boxcars::events::{
    actual_team_size, ball_contact_event, car_name, collapse_duplicate_missed_events,
    event_sort_priority, filter_goal_to_kickoff_rows, goal_number_for_frame,
    microstat_contact_event, playlist_name, previous_non_boost_event_idx, team_name,
    team_names_from_context, truthy, zone_event_cause, ContactRow,
};

fn s(text: &str) -> String {
    text.to_string()
}

#[test]
fn ball_contacts() {
    for t in ["touch", "turnover", "pass", "shot", "missed-shot", "missed-pass", "goal", "kickoff", "challenge"] {
        assert!(ball_contact_event(t));
    }
    assert!(!ball_contact_event("bump"));
    assert!(!ball_contact_event("save"));
}

#[test]
fn microstat_contacts_include_bumps() {
    assert!(microstat_contact_event("bump"));
    assert!(microstat_contact_event("pass"));
    assert!(!microstat_contact_event("demo"));
}

#[test]
fn kickoff_sorts_first() {
    assert_eq!(event_sort_priority("kickoff"), 0);
    assert_eq!(event_sort_priority("goal"), 1);
}

#[test]
fn team_names() {
    assert_eq!(team_name(0), "blue");
    assert_eq!(team_name(1), "orange");
    assert_eq!(team_name(7), "blue");
}

#[test]
fn playlist_names() {
    assert_eq!(playlist_name(1), "DUEL");
    assert_eq!(playlist_name(2), "DOUBLES");
    assert_eq!(playlist_name(3), "STANDARD");
    assert_eq!(playlist_name(4), "CHAOS");
    assert_eq!(playlist_name(6), "CUSTOM_LOBBY");
    assert_eq!(playlist_name(10), "RANKED_DUEL");
    assert_eq!(playlist_name(11), "RANKED_DOUBLES");
    assert_eq!(playlist_name(13), "RANKED_STANDARD");
    assert_eq!(playlist_name(5), "UNKNOWN");
}

#[test]
fn car_names() {
    assert_eq!(car_name(23), "Octane");
    assert_eq!(car_name(403), "Dominus");
    assert_eq!(car_name(4284), "Fennec");
    assert_eq!(car_name(1), "");
}

#[test]
fn goal_numbers_count_goals_at_or_after() {
    let goals = vec![(100, s("a")), (200, s("b")), (300, s("c"))];
    assert_eq!(goal_number_for_frame(50, &goals), 3);
    assert_eq!(goal_number_for_frame(100, &goals), 3);
    assert_eq!(goal_number_for_frame(101, &goals), 2);
    assert_eq!(goal_number_for_frame(301, &goals), 0);
}

#[test]
fn goal_numbers_never_increase_with_frame() {
    let goals = vec![(100, s("a")), (50, s("b")), (300, s("c"))];
    let mut last = i32::MAX;
    for frame in 0..400 {
        let n = goal_number_for_frame(frame, &goals);
        assert!(n <= last);
        last = n;
    }
}

#[test]
fn team_size_is_larger_team() {
    assert_eq!(actual_team_size(&[0, 0, 1]), Some(2));
    assert_eq!(actual_team_size(&[0, 1, 1, 1, 2]), Some(3));
    assert_eq!(actual_team_size(&[2, 5]), None);
    assert_eq!(actual_team_size(&[]), None);
}

#[test]
fn dead_time_rows_are_dropped() {
    let rows = vec![
        (s("shot"), Some(90)),
        (s("goal"), Some(100)),
        (s("touch"), Some(110)),
        (s("kickoff"), Some(200)),
        (s("touch"), Some(210)),
        (s("save"), None),
        (s("touch"), Some(310)),
    ];
    let keep = filter_goal_to_kickoff_rows(&rows, &[300]);
    assert_eq!(keep, vec![true, true, false, true, true, true, false]);
}

#[test]
fn missed_events_collapse_by_bucket() {
    let rows = vec![
        (s("missed-shot"), s("p1"), Some(9)),
        (s("missed-shot"), s("p1"), Some(11)),
        (s("missed-shot"), s("p1"), Some(12)),
        (s("missed-pass"), s("p1"), Some(10)),
        (s("shot"), s("p1"), Some(10)),
        (s("shot"), s("p1"), Some(10)),
        (s("missed-shot"), s("p2"), None),
        (s("missed-shot"), s("p2"), None),
    ];
    let keep = collapse_duplicate_missed_events(&rows);
    assert_eq!(keep, vec![true, false, true, true, true, true, true, false]);
}

#[test]
fn previous_non_boost_event() {
    let types = vec![s("touch"), s("boost-pickup"), s("shot"), s("boost-pickup"), s("boost-pickup")];
    assert_eq!(previous_non_boost_event_idx(&types, 5), Some(2));
    assert_eq!(previous_non_boost_event_idx(&types, 2), Some(0));
    assert_eq!(previous_non_boost_event_idx(&types, 0), None);
    assert_eq!(previous_non_boost_event_idx(&[s("boost-pickup")], 1), None);
}

#[test]
fn team_names_take_last_nonempty_name() {
    let rows = vec![(s("Blue FC"), s("")), (s(""), s("Orange FC")), (s("Blues"), s(""))];
    let names = team_names_from_context(&rows, &[0, 1, 2]);
    assert_eq!(names.len(), 3);
    assert_eq!(names.get(&0), Some(&s("Blues")));
    assert_eq!(names.get(&1), Some(&s("Orange FC")));
    assert_eq!(names.get(&2), Some(&s("")));
}

#[test]
fn team_names_default_to_empty_for_player_teams() {
    let names = team_names_from_context(&[], &[0, 1]);
    assert_eq!(names.get(&0), Some(&s("")));
    assert_eq!(names.get(&1), Some(&s("")));
    assert_eq!(names.get(&3), None);
}

#[test]
fn truthy_text_cells() {
    assert!(truthy("true"));
    assert!(truthy("TRUE"));
    assert!(truthy("Yes"));
    assert!(truthy("1"));
    assert!(!truthy("0"));
    assert!(!truthy("false"));
    assert!(!truthy(""));
}

fn contact(event_type: &str, frame: Option<i32>, player: &str, team: &str) -> ContactRow {
    ContactRow {
        event_type: s(event_type),
        frame_number: frame,
        event_player_1_name: s(player),
        event_team: s(team),
    }
}

#[test]
fn zone_cause_from_possessor() {
    let players = vec![(s("p0"), 0), (s("p1"), 1)];
    assert_eq!(zone_event_cause(&[], 10, 1, Some(1), &players), Some((s("p1"), true)));
    assert_eq!(zone_event_cause(&[], 10, 1, Some(0), &players), None);
    assert_eq!(zone_event_cause(&[], 10, 1, Some(5), &players), None);
}

#[test]
fn zone_cause_from_last_contact() {
    let rows = vec![
        contact("touch", Some(10), "a", "blue"),
        contact("bump", Some(12), "b", "orange"),
        contact("pass", Some(15), "", "orange"),
        contact("shot", Some(30), "c", "orange"),
    ];
    assert_eq!(zone_event_cause(&rows, 20, 0, None, &[]), Some((s("a"), false)));
    assert_eq!(zone_event_cause(&rows, 20, 1, None, &[]), None);
    assert_eq!(zone_event_cause(&rows, 40, 1, None, &[]), Some((s("c"), false)));
    assert_eq!(zone_event_cause(&rows, 5, 0, None, &[]), None);
}
