use analyzerl_boxcars::columns::{
    column_index, column_kind, column_kinds, export_column_indexes_from_cells, filled_cell_count,
    frame_columns, parse_flag_cell, parse_int_cell, pbp_columns, pbp_export_column_indexes_from_cells, project_cells, ColumnKind,
    ExportCell, export_cell_has_value,
};

fn text(s: &str) -> Option<ExportCell> {
    Some(ExportCell::Text(s.to_string()))
}

#[test]
fn column_kinds_follow_names() {
    assert_eq!(column_kind("game_id"), ColumnKind::Utf8);
    assert_eq!(column_kind("event_player_1_name"), ColumnKind::Utf8);
    assert_eq!(column_kind("blue_player_1_boost"), ColumnKind::Int32);
    assert_eq!(column_kind("official_goal"), ColumnKind::Boolean);
    assert_eq!(column_kind("official_goal_count"), ColumnKind::Int32);
    assert_eq!(column_kind("blue_player_1_boost_active"), ColumnKind::Boolean);
    assert_eq!(column_kind("frame_has_event"), ColumnKind::Boolean);
    assert_eq!(column_kind("frame_event_count"), ColumnKind::Int32);
    assert_eq!(column_kind("ball_pos_x"), ColumnKind::Float32);
    assert_eq!(column_kind("off_pass"), ColumnKind::Boolean);
    assert_eq!(column_kind("blue_player_2_decal_id"), ColumnKind::Int32);
    assert_eq!(column_kind("blue_player_2_network_id"), ColumnKind::Utf8);
    assert_eq!(column_kind("stint_number"), ColumnKind::Float32);
}

#[test]
fn pbp_columns_layout() {
    let columns = pbp_columns();
    assert_eq!(columns.len(), 130 + 8 * (61 + 7));
    assert_eq!(columns[0], "game_id");
    assert_eq!(columns[129], "ball_angle_change_from_last_event");
    assert_eq!(columns[130], "blue_player_1_id");
    assert_eq!(columns[130 + 60], "blue_player_1_distance_from_last_event");
    assert_eq!(columns[130 + 61], "blue_player_1_distance_to_blue_player_2");
    assert_eq!(columns[columns.len() - 1], "orange_player_4_distance_to_orange_player_3");
    assert!(!columns.iter().any(|c| c == "blue_player_1_distance_to_blue_player_1"));
    let kinds = column_kinds(&columns);
    assert_eq!(kinds.len(), columns.len());
    assert_eq!(kinds[0], ColumnKind::Utf8);
}

#[test]
fn frame_columns_append_event_columns() {
    let pbp = pbp_columns();
    let frames = frame_columns();
    assert_eq!(frames.len(), pbp.len() + 2);
    assert_eq!(&frames[..pbp.len()], &pbp[..]);
    assert_eq!(frames[pbp.len()], "frame_has_event");
    assert_eq!(frames[pbp.len() + 1], "frame_event_count");
}

#[test]
fn column_index_finds_positions() {
    let columns = vec!["a".to_string(), "b".to_string(), "a".to_string()];
    let index = column_index(&columns);
    assert_eq!(index.get("a"), Some(&2));
    assert_eq!(index.get("b"), Some(&1));
    assert_eq!(index.get("c"), None);
}

#[test]
fn export_keeps_columns_with_values() {
    let rows = vec![
        vec![text("  "), Some(ExportCell::Int(3)), None],
        vec![text("NaN"), None, Some(ExportCell::Number { finite: false })],
    ];
    assert_eq!(export_column_indexes_from_cells(&rows, &[], 3), vec![1]);
    let defaults = vec![None, None, Some(ExportCell::Number { finite: true })];
    assert_eq!(export_column_indexes_from_cells(&rows, &defaults, 3), vec![1, 2]);
    assert_eq!(pbp_export_column_indexes_from_cells(&rows, 3), vec![1]);
}

#[test]
fn export_trims_text_before_judging() {
    let rows = vec![vec![text(" x "), text(" nan "), Some(ExportCell::Flag(false))]];
    assert_eq!(pbp_export_column_indexes_from_cells(&rows, 3), vec![0, 2]);
}

#[test]
fn export_without_rows_keeps_every_column() {
    let rows: Vec<Vec<Option<ExportCell>>> = Vec::new();
    assert_eq!(export_column_indexes_from_cells(&rows, &[], 4), vec![0, 1, 2, 3]);
}

#[test]
fn export_without_values_falls_back_to_pbp_columns() {
    let rows = vec![vec![None, text(""), None]];
    let kept = export_column_indexes_from_cells(&rows, &[], 3);
    assert_eq!(kept.len(), pbp_columns().len());
    assert_eq!(kept[0], 0);
    assert_eq!(kept[kept.len() - 1], pbp_columns().len() - 1);
}

#[test]
fn filled_and_projected_cells() {
    let row = vec![None, Some(ExportCell::Int(1)), None, Some(ExportCell::Flag(true))];
    let defaults = vec![Some(ExportCell::Int(7)), None, None];
    assert_eq!(filled_cell_count(&row, &defaults), 3);
    let projected = project_cells(&row, &[3, 1, 9, 0]);
    assert_eq!(projected.len(), 4);
    assert!(matches!(projected[0], Some(ExportCell::Flag(true))));
    assert!(matches!(projected[1], Some(ExportCell::Int(1))));
    assert!(projected[2].is_none());
    assert!(projected[3].is_none());
}

#[test]
fn cell_texts_parse_by_kind() {
    assert_eq!(parse_flag_cell("TRUE"), Some(true));
    assert_eq!(parse_flag_cell("y"), Some(true));
    assert_eq!(parse_flag_cell("No"), Some(false));
    assert_eq!(parse_flag_cell("0"), Some(false));
    assert_eq!(parse_flag_cell("maybe"), None);
    assert_eq!(parse_int_cell("42"), Some(42));
    assert_eq!(parse_int_cell("+7"), Some(7));
    assert_eq!(parse_int_cell("-2147483648"), Some(i32::MIN));
    assert_eq!(parse_int_cell("2147483648"), None);
    assert_eq!(parse_int_cell("-"), None);
    assert_eq!(parse_int_cell("1.5"), None);
    assert_eq!(parse_int_cell(""), None);
}

#[test]
fn text_cells_count_when_something_is_left_after_trimming() {
    assert!(export_cell_has_value(Some(&ExportCell::Text(" 5\t".to_string()))));
    assert!(!export_cell_has_value(Some(&ExportCell::Text(" \u{a0}\u{3000}\n".to_string()))));
    assert!(!export_cell_has_value(Some(&ExportCell::Text("  NaN ".to_string()))));
    assert!(export_cell_has_value(Some(&ExportCell::Text("\u{2003}nano\u{2003}".to_string()))));
}
