use analyzerl_boxcars::flip_resets::{flip_reset_events, ResetFrame, ResetOrigin, ResetSample};

fn s(text: &str) -> String {
    text.to_string()
}

fn sample(
    dodge: Option<i32>,
    refreshed: Option<i32>,
    high_enough: bool,
    contact: Option<ResetOrigin>,
) -> Option<ResetSample> {
    Some(ResetSample {
        dodge_air_count: dodge,
        double_jump_air_count: None,
        refreshed_counter: refreshed,
        high_enough,
        contact,
    })
}

#[test]
fn flip_resets_need_reset_height_contact_and_gap() {
    let frames = vec![
        ResetFrame {
            frame_number: 100,
            players: vec![sample(Some(1), Some(0), true, Some(ResetOrigin::Ball)), None],
        },
        ResetFrame {
            frame_number: 101,
            players: vec![
                sample(Some(0), None, true, Some(ResetOrigin::Ball)),
                sample(Some(2), Some(5), true, Some(ResetOrigin::Teammate)),
            ],
        },
        ResetFrame {
            frame_number: 110,
            players: vec![
                sample(Some(1), None, true, None),
                sample(None, Some(6), true, Some(ResetOrigin::Teammate)),
            ],
        },
        ResetFrame {
            frame_number: 120,
            players: vec![
                sample(Some(0), None, true, Some(ResetOrigin::Ball)),
                sample(None, Some(7), false, Some(ResetOrigin::Ball)),
            ],
        },
        ResetFrame {
            frame_number: 140,
            players: vec![sample(None, Some(1), true, Some(ResetOrigin::Opponent))],
        },
    ];
    let events = flip_reset_events(&frames, &[s("a"), s("b")]);
    let summary: Vec<(i32, String, &str)> = events
        .iter()
        .map(|e| (e.frame_number, e.player_name.clone(), e.reset_origin))
        .collect();
    assert_eq!(
        summary,
        vec![(101, s("a"), "ball"), (110, s("b"), "teammate"), (140, s("a"), "opponent")]
    );
}

#[test]
fn missing_car_state_forgets_counters() {
    let frames = vec![
        ResetFrame { frame_number: 1, players: vec![sample(Some(1), None, true, Some(ResetOrigin::Ball))] },
        ResetFrame { frame_number: 2, players: vec![None] },
        ResetFrame { frame_number: 3, players: vec![sample(Some(0), None, true, Some(ResetOrigin::Ball))] },
    ];
    assert!(flip_reset_events(&frames, &[s("a")]).is_empty());
}
