use analyzerl_boxcars::inspect::{
    flip_inspection_prints, flip_inspection_shows, inspect_flip_args, InspectArgsError, InspectFlipArgs,
};

fn args(list: &[&str]) -> Vec<String> {
    list.iter().map(|a| a.to_string()).collect()
}

#[test]
fn inspection_arguments() {
    assert_eq!(
        inspect_flip_args(&args(&["--replay", "a.replay", "--start", "10", "--end", "20", "--player", "Bob"])),
        Ok(InspectFlipArgs {
            replay: "a.replay".to_string(),
            start_frame: 10,
            end_frame: 20,
            player: Some("Bob".to_string()),
        })
    );
    assert_eq!(
        inspect_flip_args(&args(&["--replay", "a", "--replay", "b"])),
        Ok(InspectFlipArgs { replay: "b".to_string(), start_frame: 0, end_frame: usize::MAX, player: None })
    );
}

#[test]
fn inspection_argument_errors() {
    assert_eq!(inspect_flip_args(&args(&["--start", "3"])), Err(InspectArgsError::MissingReplay));
    assert_eq!(inspect_flip_args(&args(&["--replay"])), Err(InspectArgsError::MissingValue));
    assert_eq!(
        inspect_flip_args(&args(&["--replay", "a", "--start", "x"])),
        Err(InspectArgsError::InvalidNumber)
    );
    assert_eq!(
        inspect_flip_args(&args(&["--replay", "a", "--frame-step", "2"])),
        Err(InspectArgsError::UnknownFlag("--frame-step".to_string()))
    );
    assert_eq!(inspect_flip_args(&args(&["--end", "-1", "--replay", "a"])), Err(InspectArgsError::InvalidNumber));
}

#[test]
fn inspection_picks_flip_updates() {
    assert!(flip_inspection_shows("TAGame.Car_TA:DodgesRefreshedCounter", "", "int"));
    assert!(flip_inspection_shows("TAGame.CarComponent_TA:ReplicatedActive", "Archetypes.CarComponents.CarComponent_Boost", "byte"));
    assert!(flip_inspection_shows("TAGame.RBActor_TA:ReplicatedRBState", "CarComponent_Dodge", "rigid_body"));
    assert!(!flip_inspection_shows("TAGame.Vehicle_TA:ReplicatedThrottle", "Archetypes.Car.Car_Default", "byte"));
    assert!(!flip_inspection_shows("TAGame.PRI_TA:MatchGoals", "", "int"));
}

#[test]
fn inspection_prints_inside_the_window_for_the_asked_player() {
    let filtered = InspectFlipArgs { replay: "r".to_string(), start_frame: 10, end_frame: 20, player: Some("Ann".to_string()) };
    let name = "TAGame.CarComponent_Dodge_TA:DodgeTorque";
    assert!(flip_inspection_prints(&filtered, 10, name, "", "location", "ann"));
    assert!(flip_inspection_prints(&filtered, 20, name, "", "location", "ANN"));
    assert!(!flip_inspection_prints(&filtered, 9, name, "", "location", "ann"));
    assert!(!flip_inspection_prints(&filtered, 21, name, "", "location", "ann"));
    assert!(!flip_inspection_prints(&filtered, 15, name, "", "location", "bob"));
    assert!(!flip_inspection_prints(&filtered, 15, "TAGame.Ball_TA:HitTeamNum", "", "byte", "ann"));
    let everyone = InspectFlipArgs { player: None, ..filtered };
    assert!(flip_inspection_prints(&everyone, 15, name, "", "location", ""));
}
