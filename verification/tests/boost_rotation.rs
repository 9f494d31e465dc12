use analyzerl_boxcars::boost::{
    apply_kickoff_boost_resets, boost_pickup_amount, boost_pickup_events, boost_pickup_type,
    boost_units, raw_boost_units, BoostFrame, BoostSample, BoostSlot, SlotFrame,
};
use analyzerl_boxcars::rotation::{
    current_rotation_number, rotation_cut, rotation_filled, rotation_roles, rotation_step, RolePlayer,
    RotationEventKind, RotationRun,
};
use std::collections::HashMap;

#[test]
fn boost_units_rounds_to_nearest_percent() {
    assert_eq!(boost_units(84), 33);
    assert_eq!(boost_units(255), 100);
    assert_eq!(boost_units(0), 0);
    assert_eq!(boost_units(128), 50);
    assert_eq!(boost_units(-10), -4);
}

#[test]
fn raw_boost_units_rounds_and_saturates() {
    assert_eq!(raw_boost_units(33), 84);
    assert_eq!(raw_boost_units(10), 26);
    assert_eq!(raw_boost_units(100), 255);
    assert_eq!(raw_boost_units(200), 255);
    assert_eq!(raw_boost_units(-5), 0);
}

#[test]
fn boost_round_trip_on_percentages() {
    for scaled in 0..=100 {
        assert_eq!(boost_units(raw_boost_units(scaled) as i32), scaled);
    }
}

#[test]
fn pickup_amount_without_prior_is_zero() {
    assert_eq!(boost_pickup_amount(None, 255, Some(1)), 0);
}

#[test]
fn pickup_amount_kickoff_reset() {
    assert_eq!(boost_pickup_amount(Some(10), 84, None), 33);
}

#[test]
fn pickup_amount_big_and_small_pads() {
    assert_eq!(boost_pickup_amount(Some(128), 255, None), 100);
    assert_eq!(boost_pickup_amount(Some(128), 161, None), 12);
    assert_eq!(boost_pickup_amount(Some(242), 255, None), 12);
}

#[test]
fn pickup_amount_no_gain() {
    assert_eq!(boost_pickup_amount(Some(100), 100, None), 0);
    assert_eq!(boost_pickup_amount(Some(100), 100, Some(1)), 0);
    assert_eq!(boost_pickup_amount(Some(100), 50, None), 0);
}

#[test]
fn pickup_types() {
    assert_eq!(boost_pickup_type(Some(10), 84, 33), "reset");
    assert_eq!(boost_pickup_type(Some(128), 255, 100), "big");
    assert_eq!(boost_pickup_type(Some(128), 161, 12), "small");
    assert_eq!(boost_pickup_type(None, 84, 12), "reset");
}

#[test]
fn pickup_events_from_frames() {
    let sample = |boost: u8| Some(BoostSample { boost: Some(boost), boost_collect: None });
    let frames = vec![
        BoostFrame { frame_number: 1, players: vec![sample(128)] },
        BoostFrame { frame_number: 2, players: vec![sample(255)] },
        BoostFrame { frame_number: 3, players: vec![sample(200)] },
    ];
    let events = boost_pickup_events(&frames, &["alice".to_string()]);
    assert_eq!(events.len(), 1);
    assert_eq!(events[0].frame_number, 2);
    assert_eq!(events[0].player_name, "alice");
    assert_eq!(events[0].amount, 100);
    assert_eq!(events[0].pickup_type, "big");
}

fn slot(boost: u8, updated: Option<i32>) -> Option<BoostSlot> {
    Some(BoostSlot { boost: Some(boost), boost_collect: Some(1), boost_updated_frame: updated })
}

#[test]
fn kickoff_resets_hold_boost_until_update() {
    let mut frames = vec![
        SlotFrame { frame_number: 5, players: vec![slot(10, None), slot(10, None)] },
        SlotFrame { frame_number: 100, players: vec![slot(10, None), None] },
        SlotFrame { frame_number: 101, players: vec![slot(200, Some(101)), slot(10, Some(50))] },
        SlotFrame { frame_number: 102, players: vec![slot(220, Some(101)), slot(10, Some(50))] },
    ];
    apply_kickoff_boost_resets(&mut frames, &[100]);
    let reset = Some(BoostSlot { boost: Some(84), boost_collect: None, boost_updated_frame: Some(100) });
    // Before the kickoff nothing changes.
    assert_eq!(frames[0].players[0], slot(10, None));
    assert_eq!(frames[1].players[0], reset);
    assert_eq!(frames[1].players[1], None);
    // Player 0 was updated after the start and stops being held.
    assert_eq!(frames[2].players[0], slot(200, Some(101)));
    assert_eq!(frames[3].players[0], slot(220, Some(101)));
    // Player 1 was last updated before the start and stays held.
    assert_eq!(frames[2].players[1], reset);
    assert_eq!(frames[3].players[1], reset);
}

#[test]
fn kickoff_resets_without_starts_change_nothing() {
    let mut frames = vec![SlotFrame { frame_number: 5, players: vec![slot(10, None)] }];
    apply_kickoff_boost_resets(&mut frames, &[]);
    assert_eq!(frames[0].players[0], slot(10, None));
}

#[test]
fn rotation_fill_cases() {
    assert!(rotation_filled(2, 1, 3));
    assert!(rotation_filled(1, 3, 3));
    assert!(!rotation_filled(3, 1, 3));
    assert!(!rotation_filled(1, 2, 3));
}

#[test]
fn rotation_cut_cases() {
    assert!(rotation_cut(3, 1, 3));
    assert!(rotation_cut(1, 2, 3));
    assert!(!rotation_cut(1, 3, 3));
    assert!(!rotation_cut(2, 1, 3));
}

#[test]
fn fill_and_cut_never_both() {
    for team_size in 1..=4 {
        for previous in -1..=5 {
            for role in -1..=5 {
                assert!(!(rotation_filled(previous, role, team_size) && rotation_cut(previous, role, team_size)));
            }
        }
    }
}

#[test]
fn rotation_numbers_count_first_man_changes() {
    let mut numbers = HashMap::new();
    assert_eq!(current_rotation_number(&mut numbers, 0, 2, 3), 1);
    assert_eq!(current_rotation_number(&mut numbers, 0, 2, 3), 1);
    assert_eq!(current_rotation_number(&mut numbers, 0, 1, 2), 2);
    assert_eq!(current_rotation_number(&mut numbers, 0, 3, 1), 3);
    assert_eq!(current_rotation_number(&mut numbers, 1, 3, 2), 1);
    assert_eq!(numbers.get(&0), Some(&3));
    assert_eq!(numbers.get(&1), Some(&1));
}

fn role_player(team: i32, rank: Option<u32>) -> RolePlayer {
    RolePlayer { team, distance_rank: rank }
}

#[test]
fn roles_count_closer_teammates() {
    let players = vec![
        role_player(0, Some(3)),
        role_player(0, Some(1)),
        role_player(1, Some(0)),
        role_player(0, None),
        role_player(0, Some(3)),
        role_player(0, Some(7)),
    ];
    assert_eq!(rotation_roles(&players), vec![Some(2), Some(1), Some(1), None, Some(2), Some(4)]);
}

#[test]
fn rotation_steps_report_fills_cuts_and_one_stall() {
    let start = RotationRun { role: None, stalled_emitted: false };
    let first = rotation_step(start, 2, Some(3), false, false);
    assert_eq!(first.run, RotationRun { role: Some(2), stalled_emitted: false });
    assert_eq!(first.event, None);
    assert!(first.restart_clock);
    let fill = rotation_step(first.run, 1, Some(3), true, true);
    assert_eq!(fill.event, Some(RotationEventKind::Fill));
    assert!(fill.restart_clock);
    let quick = rotation_step(RotationRun { role: Some(3), stalled_emitted: false }, 1, Some(3), false, false);
    assert_eq!(quick.event, None);
    let cut = rotation_step(RotationRun { role: Some(3), stalled_emitted: false }, 1, Some(3), true, false);
    assert_eq!(cut.event, Some(RotationEventKind::Cut));
    let waiting = rotation_step(fill.run, 1, Some(3), true, false);
    assert_eq!(waiting.event, None);
    assert!(!waiting.restart_clock);
    let stall = rotation_step(fill.run, 1, Some(3), true, true);
    assert_eq!(stall.event, Some(RotationEventKind::Stall));
    assert_eq!(stall.run, RotationRun { role: Some(1), stalled_emitted: true });
    let again = rotation_step(stall.run, 1, Some(3), true, true);
    assert_eq!(again.event, None);
    let drop_back = rotation_step(stall.run, 3, Some(3), true, true);
    assert_eq!(drop_back.event, Some(RotationEventKind::Fill));
}

#[test]
fn rotation_steps_report_nothing_without_a_team_size_above_one() {
    let run = RotationRun { role: Some(1), stalled_emitted: false };
    let solo = rotation_step(run, 1, Some(1), true, true);
    assert_eq!(solo.event, None);
    assert_eq!(solo.run, run);
    let unknown = rotation_step(RotationRun { role: Some(2), stalled_emitted: false }, 1, None, true, true);
    assert_eq!(unknown.event, None);
}
