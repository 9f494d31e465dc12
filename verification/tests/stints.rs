use analyzerl_boxcars::stints::{
    kickoff_start_frames_from_resets, kickoff_touch_event_indices, unfreeze_frame, EventModel,
    FrameFlags,
};

fn frame(frame_number: i32, ball_centered: Option<bool>, car_moving: bool) -> FrameFlags {
    FrameFlags { frame_number, ball_centered, car_moving }
}

fn replay_frames() -> Vec<FrameFlags> {
    vec![
        frame(0, Some(true), false),
        frame(1, Some(true), false),
        frame(2, Some(false), false),
        frame(50, Some(false), true),
        frame(100, Some(true), false),
        frame(400, None, false),
        frame(401, Some(false), false),
        frame(500, Some(true), false),
        frame(520, Some(false), true),
    ]
}

#[test]
fn kickoff_starts_need_fresh_center_and_gap() {
    assert_eq!(kickoff_start_frames_from_resets(&replay_frames()), vec![0, 500]);
}

#[test]
fn kickoff_starts_empty_without_ball() {
    let frames = vec![frame(0, None, true), frame(10, None, false)];
    assert_eq!(kickoff_start_frames_from_resets(&frames), Vec::<i32>::new());
}

#[test]
fn kickoff_start_held_reset_counts_once() {
    let frames = vec![frame(0, Some(true), false), frame(400, Some(true), false)];
    assert_eq!(kickoff_start_frames_from_resets(&frames), vec![0]);
}

#[test]
fn unfreeze_frame_is_first_moving_frame_in_window() {
    let frames = replay_frames();
    assert_eq!(unfreeze_frame(&frames, 0, 500), Some(50));
    assert_eq!(unfreeze_frame(&frames, 500, i32::MAX), Some(520));
    assert_eq!(unfreeze_frame(&frames, 100, 500), None);
}

#[test]
fn stints_run_from_unfreeze_to_goal_or_next_kickoff() {
    let model = EventModel::from_frames(&replay_frames(), &[300]);
    assert_eq!(model.stints.len(), 2);
    assert_eq!(model.stints[0].number, 1);
    assert_eq!(model.stints[0].start_frame, 50);
    assert_eq!(model.stints[0].end_frame, 300);
    assert_eq!(model.stints[1].number, 2);
    assert_eq!(model.stints[1].start_frame, 520);
    assert_eq!(model.stints[1].end_frame, i32::MAX - 1);
}

#[test]
fn stint_ends_before_next_kickoff_without_goal() {
    let model = EventModel::from_frames(&replay_frames(), &[]);
    assert_eq!(model.stints[0].end_frame, 499);
}

#[test]
fn stint_number_for_frame_looks_up_window() {
    let model = EventModel::from_frames(&replay_frames(), &[300]);
    assert_eq!(model.stint_number_for_frame(60), Some(1));
    assert_eq!(model.stint_number_for_frame(300), Some(1));
    assert_eq!(model.stint_number_for_frame(400), None);
    assert_eq!(model.stint_number_for_frame(600), Some(2));
    assert_eq!(model.stint_number_for_frame(10), None);
}

fn rows() -> Vec<(String, Option<i32>)> {
    vec![
        ("kickoff".to_string(), Some(55)),
        ("shot".to_string(), Some(51)),
        ("kickoff".to_string(), Some(52)),
        ("shot".to_string(), Some(60)),
        ("demo".to_string(), Some(400)),
        ("goal".to_string(), Some(400)),
        ("shot".to_string(), None),
        ("respawn".to_string(), None),
        ("kickoff".to_string(), Some(525)),
        ("kickoff".to_string(), Some(10)),
        ("demo".to_string(), Some(60)),
    ]
}

#[test]
fn kickoff_frame_by_stint_keeps_earliest() {
    let model = EventModel::from_frames(&replay_frames(), &[300]);
    let kickoffs = model.kickoff_frame_by_stint(&rows());
    assert_eq!(kickoffs.len(), 2);
    assert_eq!(kickoffs.get(&1), Some(&52));
    assert_eq!(kickoffs.get(&2), Some(&525));
}

#[test]
fn finalize_rows_drops_rows_outside_kickoff_stints() {
    let model = EventModel::from_frames(&replay_frames(), &[300]);
    let fates = model.finalize_rows(&rows());
    assert_eq!(
        fates,
        vec![
            Some(Some(1)),
            None,
            Some(Some(1)),
            Some(Some(1)),
            Some(None),
            None,
            None,
            Some(None),
            Some(Some(2)),
            None,
            Some(Some(1)),
        ]
    );
}

#[test]
fn kickoff_touches_pick_earliest_touch_per_window() {
    let picked = kickoff_touch_event_indices(&[5, 3, 700, 1000, 1000], &[650], &[998]);
    assert_eq!(picked, vec![1, 2, 3]);
}

#[test]
fn kickoff_touches_never_pick_a_frame_twice() {
    let picked = kickoff_touch_event_indices(&[5], &[1], &[]);
    assert_eq!(picked, vec![0]);
}

#[test]
fn kickoff_touches_outside_window_are_ignored() {
    let picked = kickoff_touch_event_indices(&[601, 700], &[], &[]);
    assert_eq!(picked, Vec::<usize>::new());
}
