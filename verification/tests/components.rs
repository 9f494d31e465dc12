use analyzerl_boxcars::components::{
    air_activate_slot, component_activity, flip_inspect_name, is_ball_object, AirActivateSlot,
    ComponentActivity,
};

#[test]
fn component_activity_by_name() {
    assert_eq!(
        component_activity("Archetypes.CarComponents.CarComponent_Boost", true),
        ComponentActivity { boost_active: true, jump: None, double_jump: None, dodge: None }
    );
    assert_eq!(
        component_activity("Archetypes.CarComponents.CarComponent_Boost", false),
        ComponentActivity { boost_active: false, jump: None, double_jump: None, dodge: None }
    );
    assert_eq!(
        component_activity("Archetypes.CarComponents.CarComponent_Jump", true),
        ComponentActivity { boost_active: false, jump: Some(true), double_jump: None, dodge: None }
    );
    assert_eq!(
        component_activity("Archetypes.CarComponents.CarComponent_DoubleJump", false),
        ComponentActivity { boost_active: false, jump: None, double_jump: Some(false), dodge: None }
    );
    assert_eq!(
        component_activity("Archetypes.CarComponents.CarComponent_Dodge", true),
        ComponentActivity { boost_active: false, jump: None, double_jump: None, dodge: Some(true) }
    );
}

#[test]
fn air_activate_counters_by_name() {
    assert_eq!(air_activate_slot("CarComponent_Dodge"), AirActivateSlot::Dodge);
    assert_eq!(air_activate_slot("CarComponent_DoubleJump"), AirActivateSlot::DoubleJump);
    assert_eq!(air_activate_slot("CarComponent_Jump"), AirActivateSlot::Jump);
    assert_eq!(air_activate_slot("CarComponent_Boost"), AirActivateSlot::Other);
}

#[test]
fn object_and_attribute_names() {
    assert!(is_ball_object("Archetypes.Ball.Ball_Default"));
    assert!(!is_ball_object("Archetypes.Car.Car_Default"));
    assert!(flip_inspect_name("TAGame.Car_TA:DodgesRefreshedCounter"));
    assert!(flip_inspect_name("TAGame.CarComponent_TA:ReplicatedActive"));
    assert!(flip_inspect_name("TAGame.CarComponent_FlipCar_TA:bFlipRight"));
    assert!(!flip_inspect_name("TAGame.Vehicle_TA:ReplicatedThrottle"));
    assert!(!flip_inspect_name(""));
}
