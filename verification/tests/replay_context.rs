use analyzerl_boxcars::official::StatKind;
use analyzerl_boxcars::replay_context::{replay_context, ActorUpdate};

fn s(text: &str) -> String {
    text.to_string()
}

fn header_players() -> Vec<(String, i32)> {
    vec![(s("ann"), 0), (s("bob"), 1)]
}

#[test]
fn names_teams_and_presence_follow_the_stream() {
    let updates = vec![
        (0, ActorUpdate::CarOwner { car: 50, pri: 7 }),
        (1, ActorUpdate::PlayerName { pri: 7, name: s("ann") }),
        (2, ActorUpdate::Team { pri: 7, team_actor: 3, active: true }),
        (3, ActorUpdate::ComponentVehicle { component: 60, car: 50, active: true }),
        (4, ActorUpdate::Team { pri: 7, team_actor: 3, active: true }),
        (9, ActorUpdate::Team { pri: 7, team_actor: 3, active: false }),
        (10, ActorUpdate::Playlist(1)),
        (11, ActorUpdate::ServerName(s("EU"))),
        (12, ActorUpdate::SecondsRemaining(299)),
        (13, ActorUpdate::HitTeam(1)),
    ];
    let ctx = replay_context(&header_players(), s("header"), &updates, true);
    assert_eq!(ctx.roster.pri_name.get(&7), Some(&s("ann")));
    assert_eq!(ctx.roster.car_player_name.get(&50), Some(&s("ann")));
    assert_eq!(ctx.roster.component_player_name(60), Some(s("ann")));
    assert_eq!(ctx.roster.team_actor_number.get(&3), Some(&0));
    assert_eq!(
        ctx.presence_events,
        vec![(2, s("ann"), s("game-join")), (9, s("ann"), s("game-leave"))]
    );
    assert_eq!(ctx.playlist, s("DUEL"));
    assert_eq!(ctx.server_name, s("EU"));
    assert_eq!(ctx.seconds_remaining, Some(299));
    assert_eq!(ctx.hit_team, Some(1));
}

#[test]
fn playlist_stays_the_headers_without_an_update() {
    let ctx = replay_context(&header_players(), s("header"), &[], false);
    assert_eq!(ctx.playlist, s("header"));
    assert!(ctx.presence_events.is_empty());
}

#[test]
fn match_stats_credit_named_players_and_wait_for_unnamed_ones() {
    let updates = vec![
        (5, ActorUpdate::PlayerName { pri: 7, name: s("ann") }),
        (6, ActorUpdate::MatchStat { pri: 7, kind: StatKind::Shot, value: 2 }),
        (7, ActorUpdate::MatchStat { pri: 7, kind: StatKind::Shot, value: 2 }),
        (8, ActorUpdate::MatchStat { pri: 8, kind: StatKind::Goal, value: 1 }),
        (9, ActorUpdate::PlayerName { pri: 8, name: s("bob") }),
    ];
    let ctx = replay_context(&header_players(), s(""), &updates, true);
    let credits: Vec<(String, i32, i32)> = ctx
        .official_stats
        .iter()
        .map(|e| (e.player_name.clone(), e.frame_number, e.stat_number))
        .collect();
    assert_eq!(credits, vec![(s("ann"), 6, 1), (s("ann"), 6, 2), (s("bob"), 8, 1)]);
    assert!(ctx.pending_official_stats.is_empty());
}

#[test]
fn credits_of_a_never_named_actor_stay_pending() {
    let updates = vec![(8, ActorUpdate::MatchStat { pri: 8, kind: StatKind::Save, value: 1 })];
    let ctx = replay_context(&header_players(), s(""), &updates, true);
    assert!(ctx.official_stats.is_empty());
    assert_eq!(ctx.pending_official_stats.len(), 1);
}

#[test]
fn controls_reach_the_player_through_car_and_component() {
    let updates = vec![
        (0, ActorUpdate::PlayerName { pri: 7, name: s("bob") }),
        (0, ActorUpdate::CarOwner { car: 50, pri: 7 }),
        (0, ActorUpdate::NewActor { actor: 61, object: Some(s("Archetypes.CarComponents.CarComponent_Dodge")) }),
        (0, ActorUpdate::NewActor { actor: 62, object: Some(s("Archetypes.CarComponents.CarComponent_Boost")) }),
        (0, ActorUpdate::NewActor { actor: 90, object: Some(s("Archetypes.Ball.Ball_Default")) }),
        (1, ActorUpdate::ComponentVehicle { component: 61, car: 50, active: true }),
        (1, ActorUpdate::ComponentVehicle { component: 62, car: 50, active: true }),
        (2, ActorUpdate::Throttle { car: 50, value: 255 }),
        (3, ActorUpdate::BoostAmount { component: 62, amount: 85 }),
        (4, ActorUpdate::ComponentActive { component: 62, value: 1 }),
        (5, ActorUpdate::AirActivateCount { component: 61, count: 0 }),
        (6, ActorUpdate::ComponentActive { component: 61, value: 1 }),
        (7, ActorUpdate::Steer { car: 99, value: 3 }),
    ];
    let ctx = replay_context(&header_players(), s(""), &updates, false);
    assert!(ctx.controls[0].is_none());
    let bob = ctx.controls[1].expect("bob has controls");
    assert_eq!(bob.throttle, Some(255));
    assert_eq!(bob.boost, Some(85));
    assert_eq!(bob.boost_updated_frame, Some(3));
    assert!(!bob.boost_active);
    assert_eq!(bob.dodge_air_activate_count, Some(0));
    assert!(bob.flip_available);
    assert!(bob.dodge_active);
    assert!(bob.flipped);
    assert_eq!(bob.steer, None);
    assert!(ctx.ball_actors.contains(&90));
    assert!(!ctx.ball_actors.contains(&61));
}

#[test]
fn leaving_the_game_clears_a_players_controls() {
    let updates = vec![
        (0, ActorUpdate::PlayerName { pri: 7, name: s("ann") }),
        (0, ActorUpdate::CarOwner { car: 50, pri: 7 }),
        (1, ActorUpdate::Team { pri: 7, team_actor: 3, active: true }),
        (2, ActorUpdate::Handbrake { car: 50, on: true }),
        (3, ActorUpdate::Team { pri: 7, team_actor: 3, active: false }),
    ];
    let ctx = replay_context(&header_players(), s(""), &updates, false);
    assert!(ctx.controls[0].is_none());
}

#[test]
fn demolitions_need_both_names() {
    let updates = vec![
        (0, ActorUpdate::PlayerName { pri: 7, name: s("ann") }),
        (0, ActorUpdate::PlayerName { pri: 8, name: s("bob") }),
        (0, ActorUpdate::CarOwner { car: 51, pri: 8 }),
        (40, ActorUpdate::Demolish { attacker_pri: Some(7), attacker_car: None, victim_car: Some(51) }),
        (41, ActorUpdate::Demolish { attacker_pri: Some(7), attacker_car: None, victim_car: Some(99) }),
    ];
    let ctx = replay_context(&header_players(), s(""), &updates, true);
    assert_eq!(ctx.demolitions, vec![(s("ann"), s("bob"), 40)]);
}

#[test]
fn team_names_follow_the_team_actors_number() {
    let updates = vec![
        (0, ActorUpdate::PlayerName { pri: 8, name: s("bob") }),
        (0, ActorUpdate::PlayerName { pri: 7, name: s("ann") }),
        (1, ActorUpdate::TeamName { team_actor: 4, name: s("Too Early") }),
        (2, ActorUpdate::Team { pri: 8, team_actor: 4, active: true }),
        (3, ActorUpdate::TeamName { team_actor: 4, name: s("Oranges") }),
        (4, ActorUpdate::Team { pri: 7, team_actor: 3, active: true }),
        (5, ActorUpdate::TeamName { team_actor: 3, name: s("Blues") }),
    ];
    let ctx = replay_context(&header_players(), s(""), &updates, false);
    assert_eq!(ctx.orange_team_name, s("Oranges"));
    assert_eq!(ctx.blue_team_name, s("Blues"));
}

#[test]
fn a_walk_that_is_not_full_records_no_demolitions() {
    let updates = vec![
        (0, ActorUpdate::PlayerName { pri: 7, name: s("ann") }),
        (0, ActorUpdate::PlayerName { pri: 8, name: s("bob") }),
        (0, ActorUpdate::CarOwner { car: 51, pri: 8 }),
        (40, ActorUpdate::Demolish { attacker_pri: Some(7), attacker_car: None, victim_car: Some(51) }),
    ];
    let ctx = replay_context(&header_players(), s(""), &updates, false);
    assert!(ctx.demolitions.is_empty());
}

#[test]
fn a_balls_state_gives_no_player_controls() {
    let updates = vec![
        (0, ActorUpdate::PlayerName { pri: 7, name: s("bob") }),
        (0, ActorUpdate::NewActor { actor: 90, object: Some(s("Archetypes.Ball.Ball_Default")) }),
        (0, ActorUpdate::CarOwner { car: 90, pri: 7 }),
        (1, ActorUpdate::CarState { car: 90 }),
        (2, ActorUpdate::GameServerNumber(-17)),
    ];
    let ball = replay_context(&header_players(), s(""), &updates, false);
    assert!(ball.controls[1].is_none());
    assert_eq!(ball.game_server_id, s("-17"));
    let car = replay_context(
        &header_players(),
        s(""),
        &[(0, ActorUpdate::PlayerName { pri: 7, name: s("bob") }), (0, ActorUpdate::CarOwner { car: 50, pri: 7 }), (1, ActorUpdate::CarState { car: 50 })],
        false,
    );
    assert!(car.controls[1].is_some());
}
