use analyzerl_boxcars::row_order::{
    frame_type_order, sort_frame_number, sort_pbp_order, stable_order, text_before_exec, PbpRowKey,
    RowSortKey,
};

fn s(text: &str) -> String {
    text.to_string()
}

#[test]
fn text_order_is_lexicographic() {
    assert!(text_before_exec("ab", "abc"));
    assert!(text_before_exec("abc", "abd"));
    assert!(!text_before_exec("b", "a"));
    assert!(!text_before_exec("same", "same"));
    assert!(text_before_exec("", "a"));
    assert!(text_before_exec("Z", "a"));
}

fn row(observed: Option<i32>, frame: Option<i32>, value: Option<i32>, event_type: &str) -> PbpRowKey {
    PbpRowKey {
        observed_frame_number: observed,
        frame_number: frame,
        value_frame_number: value,
        event_type: s(event_type),
    }
}

#[test]
fn sort_frame_prefers_observed_frame() {
    assert_eq!(sort_frame_number(&row(Some(5), Some(20), Some(30), "shot")), Some(5));
    assert_eq!(sort_frame_number(&row(None, Some(20), Some(30), "shot")), Some(20));
    assert_eq!(sort_frame_number(&row(None, None, Some(30), "shot")), Some(30));
    assert_eq!(sort_frame_number(&row(None, None, None, "shot")), None);
}

#[test]
fn pbp_rows_sort_by_frame_kickoff_first_then_type() {
    let rows = vec![
        row(None, Some(10), None, "touch"),
        row(Some(5), Some(20), None, "shot"),
        row(None, None, Some(10), "kickoff"),
        row(None, None, None, "demo"),
        row(None, Some(10), None, "touch"),
        row(None, Some(10), None, "goal"),
    ];
    assert_eq!(sort_pbp_order(&rows), vec![1, 2, 5, 0, 4, 3]);
}

#[test]
fn stable_order_keeps_equal_keys_in_place() {
    let key = |first: i32, text: &str| RowSortKey {
        first,
        second: 0,
        first_text: s(text),
        second_text: s(""),
    };
    let keys = vec![key(2, "b"), key(1, "z"), key(2, "a"), key(2, "b"), key(1, "z")];
    assert_eq!(stable_order(&keys), vec![1, 4, 2, 0, 3]);
    assert_eq!(stable_order(&[]), Vec::<usize>::new());
}

#[test]
fn frame_type_order_sorts_by_frame_then_type() {
    let rows = vec![
        (Some(10), s("touch")),
        (None, s("demo")),
        (Some(10), s("boost-pickup")),
        (Some(5), s("touch")),
        (Some(10), s("boost-pickup")),
    ];
    assert_eq!(frame_type_order(&rows), vec![3, 2, 4, 0, 1]);
}
