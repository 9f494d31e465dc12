use analyzerl_boxcars::ball_events::{classify_ball_events, goal_hits, pass_flags, BallHit};

fn s(text: &str) -> String {
    text.to_string()
}

fn hit(frame: i32, name: &str, goal_number: i32) -> BallHit {
    BallHit {
        frame_number: frame,
        player_name: s(name),
        goal_number,
        on_target: false,
        missed_target: false,
        clears: false,
        pass_target: None,
    }
}

fn players() -> Vec<(String, i32)> {
    vec![(s("a"), 0), (s("b"), 0), (s("c"), 1)]
}

fn game() -> Vec<BallHit> {
    vec![
        hit(10, "a", 0),
        BallHit { on_target: true, ..hit(20, "b", 0) },
        BallHit { clears: true, ..hit(30, "c", 1) },
        BallHit { missed_target: true, ..hit(40, "c", 1) },
        BallHit { pass_target: Some(s("b")), ..hit(50, "a", 1) },
        BallHit { on_target: true, ..hit(60, "c", 2) },
        hit(70, "a", 2),
    ]
}

#[test]
fn goals_credit_last_scorer_hit_in_window() {
    let hits = vec![hit(10, "b", 0), hit(20, "b", 0), hit(200, "b", 0), hit(30, "a", 0)];
    assert_eq!(goal_hits(&hits, &[(25, s("b"))]), vec![false, true, false, false]);
    assert_eq!(goal_hits(&hits, &[(400, s("b"))]), vec![false, false, false, false]);
}

#[test]
fn repeated_pass_pairs_within_window_count_once() {
    let hits = vec![hit(10, "a", 0), hit(15, "b", 0), hit(25, "a", 0), hit(30, "b", 0)];
    let (passes, after) = pass_flags(&hits, &players());
    assert_eq!(passes, vec![true, true, false, false]);
    assert_eq!(after, vec![Some(0), Some(1), Some(1), Some(1)]);
}

#[test]
fn classify_full_sequence() {
    let classes = classify_ball_events(&game(), &players(), &[(25, s("b"))], &[28]);
    let types: Vec<&str> = classes.iter().map(|c| c.event_type).collect();
    assert_eq!(
        types,
        vec!["kickoff", "goal", "kickoff", "missed-shot", "missed-pass", "shot", "shot"]
    );
    assert!(classes[0].pass);
    assert!(classes[0].assist);
    assert_eq!(classes[0].player_2_name, "b");
    assert_eq!(classes[0].next_hit_frame_number, Some(20));
    assert_eq!(classes[0].previous_hit_frame_number, None);
    assert!(classes[1].goal && classes[1].shot);
    assert_eq!(classes[1].player_2_name, "a");
    assert_eq!(classes[1].previous_hit_frame_number, Some(10));
    assert_eq!(classes[1].next_hit_frame_number, None);
    assert!(classes[2].clear);
    assert_eq!(classes[2].previous_hit_frame_number, None);
    assert!(classes[3].missed_shot);
    assert!(classes[4].missed_pass);
    assert_eq!(classes[4].player_2_name, "b");
    assert!(classes[5].shot);
    assert_eq!(classes[5].player_2_name, "");
    assert!(classes[6].save);
    assert_eq!(classes[6].player_name, "c");
    assert_eq!(classes[6].player_3_name, "a");
    assert!(!classes[1].assist);
}

#[test]
fn classify_passes_and_touches() {
    let hits = vec![hit(10, "a", 0), hit(15, "b", 0), hit(25, "a", 0), hit(30, "b", 0)];
    let classes = classify_ball_events(&hits, &players(), &[], &[]);
    let types: Vec<&str> = classes.iter().map(|c| c.event_type).collect();
    assert_eq!(types, vec!["kickoff", "pass", "touch", "touch"]);
    assert_eq!(classes[1].player_2_name, "a");
}
