use analyzerl_boxcars::clock::{frame_seconds_elapsed, Elapsed};

#[test]
fn regulation_then_overtime() {
    let clocks = vec![None, Some(300), Some(10), Some(0), Some(0), None, Some(2), Some(3)];
    assert_eq!(
        frame_seconds_elapsed(&clocks),
        vec![
            Elapsed::FrameTime,
            Elapsed::Clock(0),
            Elapsed::Clock(290),
            Elapsed::Clock(300),
            Elapsed::Clock(300),
            Elapsed::FrameTime,
            Elapsed::Clock(302),
            Elapsed::Clock(303),
        ]
    );
}

#[test]
fn negative_clock_is_overtime() {
    assert_eq!(
        frame_seconds_elapsed(&[Some(5), Some(-3)]),
        vec![Elapsed::Clock(295), Elapsed::Clock(303)]
    );
}

#[test]
fn clock_counting_up_before_zero_is_regulation() {
    assert_eq!(
        frame_seconds_elapsed(&[Some(4), Some(5), Some(i32::MIN)]),
        vec![Elapsed::Clock(296), Elapsed::Clock(295), Elapsed::Clock(300 + 2147483648)]
    );
}
