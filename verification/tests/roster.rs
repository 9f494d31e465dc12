use analyzerl_boxcars::roster::Roster;

fn s(text: &str) -> String {
    text.to_string()
}

fn roster() -> Roster {
    Roster::new(&[(s("Alpha"), 0), (s("Bravo"), 1), (s("Alpha"), 1)])
}

#[test]
fn cars_take_their_players_names() {
    let mut r = roster();
    r.set_car_owner(20, 5);
    r.set_car_owner(21, 5);
    r.set_car_owner(22, 6);
    assert_eq!(r.player_name_for_car(20), None);
    r.set_player_name(5, s("Alpha"));
    assert_eq!(r.player_name_for_car(20), Some(s("Alpha")));
    assert_eq!(r.player_name_for_car(21), Some(s("Alpha")));
    assert_eq!(r.player_name_for_car(22), None);
    assert_eq!(r.car_player_name.get(&21), Some(&s("Alpha")));
    assert_eq!(r.car_player_name.get(&22), None);
    r.set_car_owner(23, 5);
    assert_eq!(r.car_player_name.get(&23), Some(&s("Alpha")));
}

#[test]
fn components_reach_their_players() {
    let mut r = roster();
    r.set_player_name(5, s("Bravo"));
    r.set_car_owner(20, 5);
    r.set_component_vehicle(40, 20, false);
    assert_eq!(r.component_player_name(40), None);
    r.set_component_vehicle(40, 20, true);
    assert_eq!(r.component_player_name(40), Some(s("Bravo")));
}

#[test]
fn team_updates_report_joins_and_leaves() {
    let mut r = roster();
    assert_eq!(r.set_team(5, 100, true, 3), None);
    r.set_player_name(5, s("Alpha"));
    assert_eq!(r.set_team(5, 100, true, 10), Some((10, s("Alpha"), s("game-join"))));
    assert_eq!(r.set_team(5, 100, true, 11), None);
    assert_eq!(r.set_team(5, 100, false, 50), Some((50, s("Alpha"), s("game-leave"))));
    assert_eq!(r.set_team(5, 100, false, 51), None);
    assert_eq!(r.set_team(5, 101, true, 60), Some((60, s("Alpha"), s("game-join"))));
}

#[test]
fn team_numbers_follow_header_teams() {
    let mut r = roster();
    r.set_player_name(5, s("Alpha"));
    r.set_player_name(6, s("Bravo"));
    r.set_player_name(7, s("Nobody"));
    r.set_team(5, 100, true, 1);
    assert_eq!(r.team_number(100), Some(1));
    r.set_team(7, 200, true, 1);
    assert_eq!(r.team_number(200), None);
    r.pri_team_actor.insert(6, 300);
    assert_eq!(r.team_actor_number.get(&300), None);
    assert_eq!(r.infer_team_number(300), Some(1));
    assert_eq!(r.team_number(300), Some(1));
    assert_eq!(r.infer_team_number(999), None);
}

#[test]
fn demolitions_name_both_players() {
    let mut r = roster();
    r.set_player_name(5, s("Alpha"));
    r.set_player_name(6, s("Bravo"));
    r.set_car_owner(20, 5);
    r.set_car_owner(21, 6);
    assert_eq!(r.demolish_names(Some(5), Some(99), Some(21)), Some((s("Alpha"), s("Bravo"))));
    assert_eq!(r.demolish_names(Some(77), Some(20), Some(21)), Some((s("Alpha"), s("Bravo"))));
    assert_eq!(r.demolish_names(None, None, Some(21)), None);
    r.set_car_owner(21, 8);
    assert_eq!(r.demolish_names(Some(5), None, Some(21)), Some((s("Alpha"), s("Bravo"))));
    assert_eq!(r.demolish_names(Some(5), None, Some(30)), None);
}

#[test]
fn attribute_updates_find_their_players() {
    let mut r = roster();
    r.set_player_name(5, s("Alpha"));
    r.set_player_name(6, s("Bravo"));
    r.set_car_owner(20, 5);
    r.set_component_vehicle(40, 20, true);
    assert_eq!(r.actor_player_name(40), Some(s("Alpha")));
    assert_eq!(r.actor_player_name(20), Some(s("Alpha")));
    assert_eq!(r.actor_player_name(6), Some(s("Bravo")));
    assert_eq!(r.actor_player_name(99), None);
}
