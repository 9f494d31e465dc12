use analyzerl_boxcars::hit_filter::{filter_duplicate_hits, HitKey};

fn hit(frame_number: i32, name: &str, distance_rank: u32) -> HitKey {
    HitKey { frame_number, player_name: name.to_string(), distance_rank }
}

#[test]
fn one_hit_per_touch() {
    let hits = vec![hit(100, "B", 3), hit(100, "A", 2), hit(105, "A", 1), hit(112, "A", 0), hit(100, "A", 2)];
    assert_eq!(filter_duplicate_hits(&hits), vec![1, 0, 3]);
}

#[test]
fn touch_window_counts_from_its_first_hit() {
    let hits = vec![hit(0, "A", 5), hit(10, "A", 4), hit(11, "A", 0), hit(21, "A", 1)];
    assert_eq!(filter_duplicate_hits(&hits), vec![1, 2]);
}

#[test]
fn no_hits_no_touches() {
    assert!(filter_duplicate_hits(&[]).is_empty());
}
