use analyzerl_boxcars::official::{OfficialStatEvent, StatKind};
use analyzerl_boxcars::player_values::{
    event_player_values, network_id, official_stat_player_name, pbp_player_static_values, platform_name,
    CameraTexts, Platform, PlayerInfo,
};

fn s(text: &str) -> String {
    text.to_string()
}

fn player(name: &str, slot: &str, team: i32, camera: Option<CameraTexts>) -> PlayerInfo {
    PlayerInfo {
        id: format!("{name}-id"),
        actor_id: s("7"),
        network_id: s("net"),
        name: s(name),
        team,
        slot: s(slot),
        platform: s("Steam"),
        is_bot: s("false"),
        score: s("120"),
        title_id: s("0"),
        first_frame_in_game: s("1"),
        time_in_game: s("300"),
        car_id: s("23"),
        car_name: s("Octane"),
        decal_id: s("1"),
        wheels_id: s("2"),
        boost_id: s("3"),
        antenna_id: s("4"),
        topper_id: s("5"),
        engine_audio_id: s("6"),
        trail_id: s("7"),
        goal_explosion_id: s("8"),
        primary_paint_finish_id: s("9"),
        accent_paint_finish_id: s("10"),
        camera,
    }
}

fn camera(transition: Option<&str>) -> CameraTexts {
    CameraTexts {
        fov: s("110"),
        height: s("100"),
        angle: s("-3"),
        distance: s("270"),
        stiffness: s("0.5"),
        swivel: s("5"),
        transition: transition.map(s),
    }
}

#[test]
fn static_values_per_player() {
    let players = vec![
        player("Alpha", "blue_player_1", 0, None),
        player("Bravo", "orange_player_1", 1, Some(camera(None))),
    ];
    let values = pbp_player_static_values(&players);
    assert_eq!(values.len(), 20 + 27);
    assert_eq!(values[0], (s("blue_player_1_id"), s("Alpha-id")));
    assert_eq!(values[3], (s("blue_player_1_name"), s("Alpha")));
    assert_eq!(values[19], (s("blue_player_1_accent_paint_finish_id"), s("10")));
    assert_eq!(values[20], (s("orange_player_1_id"), s("Bravo-id")));
    assert_eq!(values[40], (s("orange_player_1_camera_fov"), s("110")));
    assert_eq!(values[46], (s("orange_player_1_camera_transition"), s("")));
    let with_transition = pbp_player_static_values(&[player("C", "blue_player_2", 0, Some(camera(Some("1.2"))))]);
    assert_eq!(with_transition[26], (s("blue_player_2_camera_transition"), s("1.2")));
}

#[test]
fn event_players_named_by_first_match() {
    let players = vec![
        player("Alpha", "blue_player_1", 0, None),
        player("Bravo", "orange_player_1", 1, None),
        player("Bravo", "orange_player_2", 0, None),
    ];
    assert_eq!(
        event_player_values(&players, 2, "Bravo"),
        vec![
            (s("event_player_2_name"), s("Bravo")),
            (s("event_player_2_id"), s("Bravo-id")),
            (s("event_player_2_actor_id"), s("7")),
            (s("event_player_2_team"), s("orange")),
        ]
    );
    assert_eq!(
        event_player_values(&players, 1, "Ghost"),
        vec![(s("event_player_1_name"), s("Ghost"))]
    );
    assert_eq!(event_player_values(&players, 3, "Alpha")[3], (s("event_player_3_team"), s("blue")));
}

#[test]
fn official_stats_credit_players_by_actor() {
    let mut alpha = player("Alpha", "blue_player_1", 0, None);
    alpha.actor_id = s("+12");
    let mut bravo = player("Bravo", "orange_player_1", 1, None);
    bravo.actor_id = s("x");
    let players = vec![bravo, alpha];
    let stat = |actor: Option<i32>| OfficialStatEvent {
        pri_actor_id: actor,
        frame_number: 100,
        player_name: s("Recorded"),
        stat_type: StatKind::Goal,
        stat_number: 1,
    };
    assert_eq!(official_stat_player_name(&stat(Some(12)), &players), "Alpha");
    assert_eq!(official_stat_player_name(&stat(Some(13)), &players), "Recorded");
    assert_eq!(official_stat_player_name(&stat(None), &players), "Recorded");
}

#[test]
fn network_ids_name_their_platform() {
    assert_eq!(network_id(Platform::Steam, "76561198000000000"), "steam:76561198000000000");
    assert_eq!(network_id(Platform::Epic, "abc"), "epic:abc");
    assert_eq!(network_id(Platform::PlayStation, "Name"), "playstation:Name");
    assert_eq!(platform_name(Platform::SplitScreen), "splitscreen");
    assert_eq!(platform_name(Platform::QQ), "qq");
}
