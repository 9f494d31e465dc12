use analyzerl_boxcars::header::{
    audit_goal_mismatches, header_actual_team_size, header_final_score, header_goal_frames, header_i32, header_player_id,
    header_player_stats, header_string, header_team_size, i32_text, pbp_players,
    replay_matches_guid, u64_text, AuditRow, HeaderScalar, HeaderValue,
};

fn s(text: &str) -> String {
    text.to_string()
}

fn scalar(name: &str, value: HeaderScalar) -> (String, HeaderValue) {
    (s(name), HeaderValue::Scalar(value))
}

fn prop(name: &str, value: HeaderScalar) -> (String, HeaderScalar) {
    (s(name), value)
}

#[test]
fn integer_texts() {
    assert_eq!(i32_text(0), "0");
    assert_eq!(i32_text(-42), "-42");
    assert_eq!(i32_text(i32::MIN), "-2147483648");
    assert_eq!(i32_text(i32::MAX), "2147483647");
    assert_eq!(u64_text(u64::MAX), "18446744073709551615");
    assert_eq!(u64_text(10), "10");
}

#[test]
fn header_scalars_read_as_text() {
    let header = vec![
        scalar("Id", HeaderScalar::Str(s("ABC"))),
        scalar("Id", HeaderScalar::Str(s("second"))),
        scalar("TeamSize", HeaderScalar::Int(-42)),
        scalar("Big", HeaderScalar::QWord(12345678901)),
        scalar("Small", HeaderScalar::QWord(7)),
        scalar("Rate", HeaderScalar::Float { text: s("1.5"), truncated: 1 }),
        scalar("Flag", HeaderScalar::Bool(true)),
        scalar("Byte", HeaderScalar::Byte(Some(s("x")))),
        scalar("NoByte", HeaderScalar::Byte(None)),
        scalar("MapName", HeaderScalar::Name(s("stadium"))),
        scalar("Struct", HeaderScalar::Other),
        (s("Goals"), HeaderValue::Array(vec![])),
    ];
    assert_eq!(header_string(&header, "Id"), Some(s("ABC")));
    assert_eq!(header_string(&header, "TeamSize"), Some(s("-42")));
    assert_eq!(header_string(&header, "Big"), Some(s("12345678901")));
    assert_eq!(header_string(&header, "Rate"), Some(s("1.5")));
    assert_eq!(header_string(&header, "Flag"), Some(s("true")));
    assert_eq!(header_string(&header, "Byte"), Some(s("x")));
    assert_eq!(header_string(&header, "NoByte"), None);
    assert_eq!(header_string(&header, "MapName"), Some(s("stadium")));
    assert_eq!(header_string(&header, "Struct"), None);
    assert_eq!(header_string(&header, "Goals"), None);
    assert_eq!(header_string(&header, "Missing"), None);
    assert_eq!(header_i32(&header, "TeamSize"), Some(-42));
    assert_eq!(header_i32(&header, "Big"), None);
    assert_eq!(header_i32(&header, "Small"), Some(7));
    assert_eq!(header_i32(&header, "Rate"), Some(1));
    assert_eq!(header_i32(&header, "Id"), None);
}

#[test]
fn goal_frames_from_header() {
    let header = vec![(
        s("Goals"),
        HeaderValue::Array(vec![
            vec![prop("frame", HeaderScalar::Int(100)), prop("PlayerName", HeaderScalar::Str(s("a")))],
            vec![prop("Time", HeaderScalar::Int(200))],
            vec![prop("PlayerName", HeaderScalar::Str(s("c")))],
            vec![prop("Frame", HeaderScalar::Int(300)), prop("frame", HeaderScalar::Int(301))],
        ]),
    )];
    assert_eq!(
        header_goal_frames(&header),
        vec![(100, s("a")), (200, s("")), (301, s(""))]
    );
    assert_eq!(header_goal_frames(&[]), Vec::<(i32, String)>::new());
}

fn stats_header() -> Vec<(String, HeaderValue)> {
    vec![(
        s("PlayerStats"),
        HeaderValue::Array(vec![
            vec![
                prop("Name", HeaderScalar::Str(s("Bob"))),
                prop("Team", HeaderScalar::Int(0)),
                prop("OnlineID", HeaderScalar::Str(s("123"))),
                prop("Goals", HeaderScalar::Int(2)),
            ],
            vec![
                prop("Name", HeaderScalar::Str(s("alice"))),
                prop("Team", HeaderScalar::Int(0)),
                prop("OnlineID", HeaderScalar::Str(s("0"))),
                prop("Score", HeaderScalar::Int(50)),
            ],
            vec![
                prop("Name", HeaderScalar::Str(s("Carl"))),
                prop("Team", HeaderScalar::Int(1)),
                prop("bBot", HeaderScalar::Bool(true)),
                prop("Goals", HeaderScalar::Int(1)),
                prop("Platform", HeaderScalar::Byte(Some(s("OnlinePlatform_Steam")))),
            ],
            vec![prop("Name", HeaderScalar::Str(s("Zed"))), prop("Team", HeaderScalar::Int(2))],
            vec![
                prop("PlayerName", HeaderScalar::Str(s("dave"))),
                prop("PlayerTeam", HeaderScalar::Int(1)),
                prop("Goals", HeaderScalar::Int(3)),
            ],
        ]),
    )]
}

#[test]
fn final_score_from_header() {
    assert_eq!(header_final_score(&stats_header()), (2, 4));
    assert_eq!(header_final_score(&[]), (0, 0));
}

#[test]
fn player_stats_rows_from_header() {
    let rows = header_player_stats(&stats_header());
    assert_eq!(rows.len(), 5);
    assert_eq!(rows[0].player_name, "Bob");
    assert_eq!(rows[0].player_team, Some(0));
    assert_eq!(rows[0].online_id, "123");
    assert_eq!(rows[0].goals, Some(2));
    assert_eq!(rows[1].score, Some(50));
    assert_eq!(rows[2].b_bot, Some(true));
    assert_eq!(rows[2].platform, "OnlinePlatform_Steam");
    assert_eq!(rows[4].player_name, "dave");
    assert_eq!(rows[4].player_team, Some(1));
    assert_eq!(rows[4].b_bot, None);
}

#[test]
fn players_sorted_by_team_and_lowercased_name() {
    let players = pbp_players(&stats_header());
    let summary: Vec<(String, String, i32, String)> = players
        .iter()
        .map(|p| (p.name.clone(), p.slot.clone(), p.team, p.id.clone()))
        .collect();
    assert_eq!(
        summary,
        vec![
            (s("alice"), s("blue_player_1"), 0, s("0:1:alice")),
            (s("Bob"), s("blue_player_2"), 0, s("123")),
            (s("Carl"), s("orange_player_1"), 1, s("1:2:Carl")),
            (s("dave"), s("orange_player_2"), 1, s("1:4:dave")),
        ]
    );
    assert_eq!(players[0].score, "50");
    assert_eq!(players[1].score, "");
    assert_eq!(players[2].is_bot, "true");
    assert_eq!(players[3].is_bot, "");
    assert_eq!(players[1].network_id, "123");
}

#[test]
fn player_id_falls_back_to_team_index_name() {
    let player = vec![prop("Team", HeaderScalar::Int(1))];
    assert_eq!(header_player_id(&player, 3), "1:3:player_3");
    let named = vec![prop("OnlineID", HeaderScalar::QWord(765))];
    assert_eq!(header_player_id(&named, 0), "765");
}

#[test]
fn team_size_from_players_or_header() {
    assert_eq!(header_actual_team_size(&stats_header()), Some(2));
    assert_eq!(header_team_size(&stats_header()), Some(2));
    let only_size = vec![scalar("TeamSize", HeaderScalar::Int(3))];
    assert_eq!(header_actual_team_size(&only_size), None);
    assert_eq!(header_team_size(&only_size), Some(3));
}

#[test]
fn guid_match_ignores_ascii_case() {
    let header = vec![scalar("Id", HeaderScalar::Str(s("AbC-1")))];
    assert!(replay_matches_guid(&header, "abc-1"));
    assert!(!replay_matches_guid(&header, "abd-1"));
    assert!(replay_matches_guid(&[], ""));
}

fn audit_row(name: &str, goal: bool, count: Option<i32>) -> AuditRow {
    AuditRow { player_1_name: s(name), official_goal: goal, official_goal_count: count }
}

#[test]
fn goal_audit_reports_mismatches() {
    let rows = vec![
        audit_row("alice", true, None),
        audit_row("alice", true, Some(2)),
        audit_row("bob", false, None),
        audit_row("bob", true, None),
    ];
    let header = vec![(
        s("PlayerStats"),
        HeaderValue::Array(vec![
            vec![prop("Name", HeaderScalar::Str(s("alice"))), prop("Goals", HeaderScalar::Int(3))],
            vec![prop("Name", HeaderScalar::Str(s("bob"))), prop("Goals", HeaderScalar::Int(2))],
            vec![prop("Name", HeaderScalar::Str(s("carl"))), prop("Goals", HeaderScalar::Int(0))],
            vec![prop("Name", HeaderScalar::Str(s(""))), prop("Goals", HeaderScalar::Int(5))],
            vec![prop("Name", HeaderScalar::Str(s("dave")))],
        ]),
    )];
    assert_eq!(audit_goal_mismatches(&rows, &header, false), vec![(s("bob"), 2, 1)]);
    assert_eq!(audit_goal_mismatches(&rows, &header, true), Vec::<(String, i32, i32)>::new());
}
