use analyzerl_boxcars::touches::{
    frame_near, next_direct_touch_by_player, touch_frame_indexes, whiff_followed_by_other_touch,
    whiff_has_near_touch_from_indexes,
};

#[test]
fn frame_near_finds_frame_inside_window() {
    assert!(frame_near(&[10, 20, 30], 25, 5));
    assert!(frame_near(&[10, 20, 30], 10, 0));
}

#[test]
fn frame_near_misses_frames_outside_window() {
    assert!(!frame_near(&[10, 20, 30], 25, 4));
    assert!(!frame_near(&[10, 20, 30], 40, 9));
}

#[test]
fn frame_near_empty_is_false() {
    assert!(!frame_near(&[], 0, 100));
}

fn touches() -> Vec<(i32, String)> {
    vec![(10, "a".to_string()), (30, "b".to_string()), (12, "a".to_string())]
}

#[test]
fn touch_frame_indexes_sorts_all_frames() {
    let (all, _) = touch_frame_indexes(&touches());
    assert_eq!(all, vec![10, 12, 30]);
}

#[test]
fn whiff_near_any_touch() {
    let (all, by_player) = touch_frame_indexes(&touches());
    assert!(whiff_has_near_touch_from_indexes(&all, &by_player, 11, "c"));
}

#[test]
fn whiff_near_own_touch_within_ten_frames() {
    let (all, by_player) = touch_frame_indexes(&touches());
    assert!(whiff_has_near_touch_from_indexes(&all, &by_player, 20, "a"));
    assert!(whiff_has_near_touch_from_indexes(&all, &by_player, 20, "b"));
}

#[test]
fn whiff_without_near_touch() {
    let (all, by_player) = touch_frame_indexes(&touches());
    assert!(!whiff_has_near_touch_from_indexes(&all, &by_player, 41, "b"));
    assert!(!whiff_has_near_touch_from_indexes(&all, &by_player, 50, "a"));
    assert!(!whiff_has_near_touch_from_indexes(&all, &by_player, 20, "nobody"));
}

#[test]
fn next_direct_touch_same_player_in_window() {
    let events = vec![(10, "a"), (50, "b"), (200, "a")];
    assert!(next_direct_touch_by_player(&events, 10, "b"));
}

#[test]
fn next_direct_touch_other_player() {
    let events = vec![(10, "a"), (50, "b"), (200, "a")];
    assert!(!next_direct_touch_by_player(&events, 10, "a"));
}

#[test]
fn next_direct_touch_too_late() {
    let events = vec![(10, "a"), (50, "b"), (200, "a")];
    assert!(!next_direct_touch_by_player(&events, 60, "a"));
    assert!(next_direct_touch_by_player(&events, 110, "a"));
}

#[test]
fn next_direct_touch_none_after() {
    let events = vec![(10, "a"), (50, "b"), (200, "a")];
    assert!(!next_direct_touch_by_player(&events, 200, "a"));
}

#[test]
fn whiff_needs_another_players_touch_within_120_frames() {
    let touches = vec![(100, "ann"), (150, "ann"), (220, "bob")];
    assert!(whiff_followed_by_other_touch(&touches, 100, "ann"));
    assert!(!whiff_followed_by_other_touch(&touches, 99, "ann"));
    assert!(!whiff_followed_by_other_touch(&touches, 220, "ann"));
    assert!(whiff_followed_by_other_touch(&touches, 120, "bob"));
    assert!(!whiff_followed_by_other_touch(&touches, 200, "bob"));
}
