use vstd::prelude::*;
use vstd::hash_map::StringHashMap;
use crate::text::{has_prefix, has_suffix, starts_with, ends_with, str_eq, ascii_case_equal, eq_ignore_ascii_case, lowercase_is,
    lowercase_eq, parsed_i32, parse_i32};

verus! {

/// The storage type of an export column.
#[derive(Clone, Copy, Debug, PartialEq, Eq, Structural)]
pub enum ColumnKind {
    Utf8,
    Int32,
    Float32,
    Boolean,
}

/// Columns whose values are text: identifiers, names, teams, types and a
/// few named event columns.
pub open spec fn is_utf8_column(c: Seq<char>) -> bool {
    c == "game_id"@
        || has_suffix(c, "_id"@)
        || has_suffix(c, "_name"@)
        || has_suffix(c, "_team"@)
        || has_suffix(c, "_type"@)
        || has_suffix(c, "_platform"@)
        || has_suffix(c, "_car_name"@)
        || c == "event_type"@
        || c == "event_team"@
        || c == "previous_event_type"@
        || c == "kickoff_type"@
        || c == "boost_pickup_type"@
        || c == "reset_origin"@
        || c == "blue_team_name"@
        || c == "orange_team_name"@
}

/// The named columns that hold flags, beside those picked by prefix or
/// suffix.
pub open spec fn is_named_flag_column(c: Seq<char>) -> bool {
    c == "off_pass"@
        || c == "off_fake"@
        || c == "off_whiff"@
        || c == "off_rotation_cut"@
        || c == "aerialing"@
        || c == "air_dribble"@
        || c == "ground_dribble"@
        || c == "flick_shot"@
        || c == "rebound"@
        || c == "double_tap"@
        || c == "flip-reset"@
        || c == "previous_event_entry"@
        || c == "previous_event_exit"@
}

/// Columns whose values are flags.
pub open spec fn is_boolean_column(c: Seq<char>) -> bool {
    c == "controlled"@
        || c == "frame_has_event"@
        || (has_prefix(c, "official_"@) && !has_suffix(c, "_count"@))
        || has_prefix(c, "off_"@)
        || has_suffix(c, "_active"@)
        || has_suffix(c, "_cam"@)
        || has_suffix(c, "_handbrake"@)
        || has_suffix(c, "_jumped"@)
        || has_suffix(c, "_flipped"@)
        || has_suffix(c, "_supersonic"@)
        || has_suffix(c, "_is_bot"@)
        || has_suffix(c, "_pro_player"@)
        || has_suffix(c, "_demolished"@)
        || has_suffix(c, "_projected_inside_net"@)
        || has_suffix(c, "_on_field"@)
        || has_suffix(c, "_powersliding"@)
        || has_suffix(c, "_boosting"@)
        || has_suffix(c, "_flipping"@)
        || has_suffix(c, "_intercept_possible"@)
        || has_suffix(c, "_intercept_requires_aerial"@)
        || is_named_flag_column(c)
}

/// The named columns that hold whole numbers, beside those picked by
/// suffix.
pub open spec fn is_named_int_column(c: Seq<char>) -> bool {
    c == "team_size"@
        || c == "event_number"@
        || c == "frame_number"@
        || c == "observed_frame_number"@
        || c == "recorded_frame_number"@
        || c == "blue_score"@
        || c == "orange_score"@
        || c == "goal_number"@
        || c == "boost_pickup_amount"@
        || c == "frame_event_count"@
        || (has_prefix(c, "official_"@) && has_suffix(c, "_count"@))
}

/// The suffixes that mark a column of whole numbers.
pub open spec fn has_int_suffix(c: Seq<char>) -> bool {
    has_suffix(c, "_frame_number"@)
        || has_suffix(c, "_raw"@)
        || has_suffix(c, "_boost"@)
        || has_suffix(c, "_collect"@)
        || has_suffix(c, "_throttle"@)
        || has_suffix(c, "_steer"@)
        || has_suffix(c, "_rotation_role"@)
        || has_suffix(c, "_title_id"@)
        || has_suffix(c, "_score"@)
        || has_suffix(c, "_decal_id"@)
        || has_suffix(c, "_wheels_id"@)
        || has_suffix(c, "_antenna_id"@)
        || has_suffix(c, "_topper_id"@)
        || has_suffix(c, "_engine_audio_id"@)
        || has_suffix(c, "_trail_id"@)
        || has_suffix(c, "_goal_explosion_id"@)
        || has_suffix(c, "_primary_paint_finish_id"@)
        || has_suffix(c, "_accent_paint_finish_id"@)
        || has_suffix(c, "_first_frame_in_game"@)
        || has_suffix(c, "_time_in_game"@)
        || has_suffix(c, "_air_activate_count"@)
        || has_suffix(c, "_dodges_refreshed_counter"@)
}

/// Columns whose values are whole numbers.
pub open spec fn is_int_column(c: Seq<char>) -> bool {
    is_named_int_column(c) || has_int_suffix(c)
}

/// The kind of a column: flags first, then whole numbers, then text, and
/// every other column holds decimals.
pub open spec fn kind_of_column(c: Seq<char>) -> ColumnKind {
    if is_boolean_column(c) {
        ColumnKind::Boolean
    } else if is_int_column(c) {
        ColumnKind::Int32
    } else if is_utf8_column(c) {
        ColumnKind::Utf8
    } else {
        ColumnKind::Float32
    }
}

/// Whether a column holds text.
pub fn utf8_column(column: &str) -> (res: bool)
    ensures
        res == is_utf8_column(column@),
{
    str_eq(column, "game_id")
        || ends_with(column, "_id")
        || ends_with(column, "_name")
        || ends_with(column, "_team")
        || ends_with(column, "_type")
        || ends_with(column, "_platform")
        || ends_with(column, "_car_name")
        || str_eq(column, "event_type")
        || str_eq(column, "event_team")
        || str_eq(column, "previous_event_type")
        || str_eq(column, "kickoff_type")
        || str_eq(column, "boost_pickup_type")
        || str_eq(column, "reset_origin")
        || str_eq(column, "blue_team_name")
        || str_eq(column, "orange_team_name")
}

fn named_flag_column(column: &str) -> (res: bool)
    ensures
        res == is_named_flag_column(column@),
{
    str_eq(column, "off_pass")
        || str_eq(column, "off_fake")
        || str_eq(column, "off_whiff")
        || str_eq(column, "off_rotation_cut")
        || str_eq(column, "aerialing")
        || str_eq(column, "air_dribble")
        || str_eq(column, "ground_dribble")
        || str_eq(column, "flick_shot")
        || str_eq(column, "rebound")
        || str_eq(column, "double_tap")
        || str_eq(column, "flip-reset")
        || str_eq(column, "previous_event_entry")
        || str_eq(column, "previous_event_exit")
}

/// Whether a column holds flags.
pub fn boolean_column(column: &str) -> (res: bool)
    ensures
        res == is_boolean_column(column@),
{
    str_eq(column, "controlled")
        || str_eq(column, "frame_has_event")
        || (starts_with(column, "official_") && !ends_with(column, "_count"))
        || starts_with(column, "off_")
        || ends_with(column, "_active")
        || ends_with(column, "_cam")
        || ends_with(column, "_handbrake")
        || ends_with(column, "_jumped")
        || ends_with(column, "_flipped")
        || ends_with(column, "_supersonic")
        || ends_with(column, "_is_bot")
        || ends_with(column, "_pro_player")
        || ends_with(column, "_demolished")
        || ends_with(column, "_projected_inside_net")
        || ends_with(column, "_on_field")
        || ends_with(column, "_powersliding")
        || ends_with(column, "_boosting")
        || ends_with(column, "_flipping")
        || ends_with(column, "_intercept_possible")
        || ends_with(column, "_intercept_requires_aerial")
        || named_flag_column(column)
}

fn named_int_column(column: &str) -> (res: bool)
    ensures
        res == is_named_int_column(column@),
{
    str_eq(column, "team_size")
        || str_eq(column, "event_number")
        || str_eq(column, "frame_number")
        || str_eq(column, "observed_frame_number")
        || str_eq(column, "recorded_frame_number")
        || str_eq(column, "blue_score")
        || str_eq(column, "orange_score")
        || str_eq(column, "goal_number")
        || str_eq(column, "boost_pickup_amount")
        || str_eq(column, "frame_event_count")
        || (starts_with(column, "official_") && ends_with(column, "_count"))
}

fn int_suffix(column: &str) -> (res: bool)
    ensures
        res == has_int_suffix(column@),
{
    ends_with(column, "_frame_number")
        || ends_with(column, "_raw")
        || ends_with(column, "_boost")
        || ends_with(column, "_collect")
        || ends_with(column, "_throttle")
        || ends_with(column, "_steer")
        || ends_with(column, "_rotation_role")
        || ends_with(column, "_title_id")
        || ends_with(column, "_score")
        || ends_with(column, "_decal_id")
        || ends_with(column, "_wheels_id")
        || ends_with(column, "_antenna_id")
        || ends_with(column, "_topper_id")
        || ends_with(column, "_engine_audio_id")
        || ends_with(column, "_trail_id")
        || ends_with(column, "_goal_explosion_id")
        || ends_with(column, "_primary_paint_finish_id")
        || ends_with(column, "_accent_paint_finish_id")
        || ends_with(column, "_first_frame_in_game")
        || ends_with(column, "_time_in_game")
        || ends_with(column, "_air_activate_count")
        || ends_with(column, "_dodges_refreshed_counter")
}

/// Whether a column holds whole numbers.
pub fn int_column(column: &str) -> (res: bool)
    ensures
        res == is_int_column(column@),
{
    named_int_column(column) || int_suffix(column)
}

/// The storage type of a column, by its name.
pub fn column_kind(column: &str) -> (res: ColumnKind)
    ensures
        res == kind_of_column(column@),
{
    if boolean_column(column) {
        ColumnKind::Boolean
    } else if int_column(column) {
        ColumnKind::Int32
    } else if utf8_column(column) {
        ColumnKind::Utf8
    } else {
        ColumnKind::Float32
    }
}

/// The fixed columns of a play-by-play row, in export order.
pub open spec fn base_pbp_column_names() -> Seq<Seq<char>> {
    seq![
        "game_id"@,
        "team_size"@,
        "blue_team_name"@,
        "orange_team_name"@,
        "event_number"@,
        "event_type"@,
        "frame_number"@,
        "observed_frame_number"@,
        "recorded_frame_number"@,
        "stint_number"@,
        "rotation_number"@,
        "seconds_elapsed"@,
        "event_team"@,
        "blue_score"@,
        "orange_score"@,
        "controlled"@,
        "official_shot"@,
        "official_goal"@,
        "official_assist"@,
        "official_save"@,
        "official_demo"@,
        "official_shot_count"@,
        "official_goal_count"@,
        "official_assist_count"@,
        "official_save_count"@,
        "official_demo_count"@,
        "boost_pickup_amount"@,
        "boost_pickup_type"@,
        "reset_origin"@,
        "event_length"@,
        "event_duration"@,
        "off_demo"@,
        "off_kickoff"@,
        "off_challenge_win"@,
        "off_bump"@,
        "off_controlled_entry"@,
        "off_controlled_exit"@,
        "off_retrieval"@,
        "off_uncontrolled_entry"@,
        "off_uncontrolled_exit"@,
        "off_air_dribble"@,
        "off_ground_dribble"@,
        "off_flick"@,
        "off_pass"@,
        "off_fake"@,
        "off_whiff"@,
        "off_rotation_cut"@,
        "aerialing"@,
        "air_dribble"@,
        "ground_dribble"@,
        "flick_shot"@,
        "rebound"@,
        "double_tap"@,
        "flip_reset"@,
        "off_flip_reset"@,
        "off_double_tap"@,
        "off_wall"@,
        "off_ceiling"@,
        "previous_event_entry"@,
        "previous_event_exit"@,
        "ball_contact_x"@,
        "ball_contact_y"@,
        "ball_contact_z"@,
        "history_seconds_since_kickoff"@,
        "history_weighted_event_count"@,
        "history_weighted_touch_count"@,
        "history_weighted_turnover_count"@,
        "history_weighted_pass_count"@,
        "history_weighted_shot_count"@,
        "history_weighted_goal_count"@,
        "history_weighted_save_count"@,
        "history_weighted_clear_count"@,
        "history_weighted_kickoff_count"@,
        "history_weighted_demo_count"@,
        "history_weighted_bump_count"@,
        "history_weighted_challenge_count"@,
        "history_weighted_entry_count"@,
        "history_weighted_exit_count"@,
        "history_weighted_retrieval_count"@,
        "event_player_1_id"@,
        "event_player_1_actor_id"@,
        "event_player_1_name"@,
        "event_player_1_team"@,
        "event_player_2_id"@,
        "event_player_2_actor_id"@,
        "event_player_2_name"@,
        "event_player_2_team"@,
        "event_player_3_id"@,
        "event_player_3_actor_id"@,
        "event_player_3_name"@,
        "event_player_3_team"@,
        "linked_shot_observed_frame_number"@,
        "linked_shot_recorded_frame_number"@,
        "collision_distance"@,
        "distance"@,
        "distance_to_goal"@,
        "previous_hit_frame_number"@,
        "next_hit_frame_number"@,
        "goal_number"@,
        "kickoff_start_frame_number"@,
        "kickoff_touch_time"@,
        "kickoff_type"@,
        "car_contact_distance"@,
        "relative_speed"@,
        "event_player_1_speed"@,
        "event_player_2_speed"@,
        "event_player_1_demolished"@,
        "event_player_2_demolished"@,
        "event_ball_pos_x"@,
        "event_ball_pos_y"@,
        "event_ball_pos_z"@,
        "ball_pos_x"@,
        "ball_pos_y"@,
        "ball_pos_z"@,
        "ball_vel_x"@,
        "ball_vel_y"@,
        "ball_vel_z"@,
        "ball_ang_vel_x"@,
        "ball_ang_vel_y"@,
        "ball_ang_vel_z"@,
        "previous_event_type"@,
        "seconds_from_last_event"@,
        "ball_distance_from_last_event"@,
        "ball_angle_from_last_event"@,
        "ball_speed_from_last_event"@,
        "ball_vel_x_change_from_last_event"@,
        "ball_vel_y_change_from_last_event"@,
        "ball_vel_z_change_from_last_event"@,
        "ball_speed_change_from_last_event"@,
        "ball_angle_change_from_last_event"@,
    ]
}

/// The per-player fields, each exported once for every player slot.
pub open spec fn player_field_names() -> Seq<Seq<char>> {
    seq![
        "id"@,
        "actor_id"@,
        "network_id"@,
        "name"@,
        "platform"@,
        "is_bot"@,
        "score"@,
        "time_in_game"@,
        "mmr"@,
        "car_id"@,
        "car_name"@,
        "decal_id"@,
        "wheels_id"@,
        "boost_id"@,
        "antenna_id"@,
        "topper_id"@,
        "engine_audio_id"@,
        "trail_id"@,
        "goal_explosion_id"@,
        "primary_paint_finish_id"@,
        "accent_paint_finish_id"@,
        "camera_fov"@,
        "camera_height"@,
        "camera_angle"@,
        "camera_distance"@,
        "camera_stiffness"@,
        "camera_swivel"@,
        "camera_transition"@,
        "pos_x"@,
        "pos_y"@,
        "pos_z"@,
        "vel_x"@,
        "vel_y"@,
        "vel_z"@,
        "ang_vel_x"@,
        "ang_vel_y"@,
        "ang_vel_z"@,
        "rot_x"@,
        "rot_y"@,
        "rot_z"@,
        "boost"@,
        "boost_active"@,
        "boost_collect"@,
        "throttle"@,
        "steer"@,
        "handbrake"@,
        "ball_cam"@,
        "dodge_active"@,
        "jump_active"@,
        "double_jump_active"@,
        "jumped"@,
        "flipped"@,
        "supersonic"@,
        "distance_to_ball"@,
        "angle_to_ball"@,
        "rotation_role"@,
        "distance_to_own_net"@,
        "angle_to_own_net"@,
        "distance_to_opp_net"@,
        "angle_to_opp_net"@,
        "distance_from_last_event"@,
    ]
}

/// The player slots, blue first, in export order.
pub open spec fn player_slot_names() -> Seq<Seq<char>> {
    seq![
        "blue_player_1"@,
        "blue_player_2"@,
        "blue_player_3"@,
        "blue_player_4"@,
        "orange_player_1"@,
        "orange_player_2"@,
        "orange_player_3"@,
        "orange_player_4"@,
    ]
}

/// The views of a list of strings.
pub open spec fn texts(v: Seq<String>) -> Seq<Seq<char>> {
    v.map_values(|c: String| c@)
}

/// The views of a list of string slices.
pub open spec fn str_texts(v: Seq<&str>) -> Seq<Seq<char>> {
    v.map_values(|c: &str| c@)
}

/// The columns `slot_field` for each field, in the fields' order.
pub open spec fn slot_field_columns(slot: Seq<char>, fields: Seq<Seq<char>>) -> Seq<Seq<char>> {
    fields.map_values(|f: Seq<char>| slot + "_"@ + f)
}

/// The columns `slot_distance_to_target` for each target other than the
/// slot itself, in the targets' order.
pub open spec fn distance_columns(slot: Seq<char>, targets: Seq<Seq<char>>) -> Seq<Seq<char>>
    decreases targets.len(),
{
    if targets.len() == 0 {
        Seq::empty()
    } else {
        let earlier = distance_columns(slot, targets.drop_last());
        if targets.last() != slot {
            earlier.push(slot + "_distance_to_"@ + targets.last())
        } else {
            earlier
        }
    }
}

/// The player columns of the first `n` slots: for each slot its field
/// columns, then its distance columns.
pub open spec fn player_columns(slots: Seq<Seq<char>>, fields: Seq<Seq<char>>, n: nat) -> Seq<Seq<char>>
    decreases n,
{
    if n == 0 {
        Seq::empty()
    } else {
        player_columns(slots, fields, (n - 1) as nat) + slot_field_columns(slots[n - 1], fields)
            + distance_columns(slots[n - 1], slots)
    }
}

/// Every play-by-play column, in export order: the fixed columns, then the
/// columns of each player slot.
pub open spec fn pbp_column_names() -> Seq<Seq<char>> {
    base_pbp_column_names() + player_columns(player_slot_names(), player_field_names(), 8)
}

fn base_pbp_columns() -> (res: Vec<&'static str>)
    ensures
        str_texts(res@) == base_pbp_column_names(),
{
    let v: Vec<&'static str> = vec![
        "game_id",
        "team_size",
        "blue_team_name",
        "orange_team_name",
        "event_number",
        "event_type",
        "frame_number",
        "observed_frame_number",
        "recorded_frame_number",
        "stint_number",
        "rotation_number",
        "seconds_elapsed",
        "event_team",
        "blue_score",
        "orange_score",
        "controlled",
        "official_shot",
        "official_goal",
        "official_assist",
        "official_save",
        "official_demo",
        "official_shot_count",
        "official_goal_count",
        "official_assist_count",
        "official_save_count",
        "official_demo_count",
        "boost_pickup_amount",
        "boost_pickup_type",
        "reset_origin",
        "event_length",
        "event_duration",
        "off_demo",
        "off_kickoff",
        "off_challenge_win",
        "off_bump",
        "off_controlled_entry",
        "off_controlled_exit",
        "off_retrieval",
        "off_uncontrolled_entry",
        "off_uncontrolled_exit",
        "off_air_dribble",
        "off_ground_dribble",
        "off_flick",
        "off_pass",
        "off_fake",
        "off_whiff",
        "off_rotation_cut",
        "aerialing",
        "air_dribble",
        "ground_dribble",
        "flick_shot",
        "rebound",
        "double_tap",
        "flip_reset",
        "off_flip_reset",
        "off_double_tap",
        "off_wall",
        "off_ceiling",
        "previous_event_entry",
        "previous_event_exit",
        "ball_contact_x",
        "ball_contact_y",
        "ball_contact_z",
        "history_seconds_since_kickoff",
        "history_weighted_event_count",
        "history_weighted_touch_count",
        "history_weighted_turnover_count",
        "history_weighted_pass_count",
        "history_weighted_shot_count",
        "history_weighted_goal_count",
        "history_weighted_save_count",
        "history_weighted_clear_count",
        "history_weighted_kickoff_count",
        "history_weighted_demo_count",
        "history_weighted_bump_count",
        "history_weighted_challenge_count",
        "history_weighted_entry_count",
        "history_weighted_exit_count",
        "history_weighted_retrieval_count",
        "event_player_1_id",
        "event_player_1_actor_id",
        "event_player_1_name",
        "event_player_1_team",
        "event_player_2_id",
        "event_player_2_actor_id",
        "event_player_2_name",
        "event_player_2_team",
        "event_player_3_id",
        "event_player_3_actor_id",
        "event_player_3_name",
        "event_player_3_team",
        "linked_shot_observed_frame_number",
        "linked_shot_recorded_frame_number",
        "collision_distance",
        "distance",
        "distance_to_goal",
        "previous_hit_frame_number",
        "next_hit_frame_number",
        "goal_number",
        "kickoff_start_frame_number",
        "kickoff_touch_time",
        "kickoff_type",
        "car_contact_distance",
        "relative_speed",
        "event_player_1_speed",
        "event_player_2_speed",
        "event_player_1_demolished",
        "event_player_2_demolished",
        "event_ball_pos_x",
        "event_ball_pos_y",
        "event_ball_pos_z",
        "ball_pos_x",
        "ball_pos_y",
        "ball_pos_z",
        "ball_vel_x",
        "ball_vel_y",
        "ball_vel_z",
        "ball_ang_vel_x",
        "ball_ang_vel_y",
        "ball_ang_vel_z",
        "previous_event_type",
        "seconds_from_last_event",
        "ball_distance_from_last_event",
        "ball_angle_from_last_event",
        "ball_speed_from_last_event",
        "ball_vel_x_change_from_last_event",
        "ball_vel_y_change_from_last_event",
        "ball_vel_z_change_from_last_event",
        "ball_speed_change_from_last_event",
        "ball_angle_change_from_last_event",
    ];
    assert(str_texts(v@) =~= base_pbp_column_names());
    v
}

fn player_fields() -> (res: Vec<&'static str>)
    ensures
        str_texts(res@) == player_field_names(),
{
    let v: Vec<&'static str> = vec![
        "id",
        "actor_id",
        "network_id",
        "name",
        "platform",
        "is_bot",
        "score",
        "time_in_game",
        "mmr",
        "car_id",
        "car_name",
        "decal_id",
        "wheels_id",
        "boost_id",
        "antenna_id",
        "topper_id",
        "engine_audio_id",
        "trail_id",
        "goal_explosion_id",
        "primary_paint_finish_id",
        "accent_paint_finish_id",
        "camera_fov",
        "camera_height",
        "camera_angle",
        "camera_distance",
        "camera_stiffness",
        "camera_swivel",
        "camera_transition",
        "pos_x",
        "pos_y",
        "pos_z",
        "vel_x",
        "vel_y",
        "vel_z",
        "ang_vel_x",
        "ang_vel_y",
        "ang_vel_z",
        "rot_x",
        "rot_y",
        "rot_z",
        "boost",
        "boost_active",
        "boost_collect",
        "throttle",
        "steer",
        "handbrake",
        "ball_cam",
        "dodge_active",
        "jump_active",
        "double_jump_active",
        "jumped",
        "flipped",
        "supersonic",
        "distance_to_ball",
        "angle_to_ball",
        "rotation_role",
        "distance_to_own_net",
        "angle_to_own_net",
        "distance_to_opp_net",
        "angle_to_opp_net",
        "distance_from_last_event",
    ];
    assert(str_texts(v@) =~= player_field_names());
    v
}

fn player_slots() -> (res: Vec<&'static str>)
    ensures
        str_texts(res@) == player_slot_names(),
{
    let v: Vec<&'static str> = vec![
        "blue_player_1",
        "blue_player_2",
        "blue_player_3",
        "blue_player_4",
        "orange_player_1",
        "orange_player_2",
        "orange_player_3",
        "orange_player_4",
    ];
    assert(str_texts(v@) =~= player_slot_names());
    v
}

/// `head`, then `sep`, then `tail`, as one string.
fn joined(head: &str, sep: &str, tail: &str) -> (res: String)
    ensures
        res@ == head@ + sep@ + tail@,
{
    let mut s = String::from_str(head);
    s.append(sep);
    s.append(tail);
    s
}

/// Every play-by-play column, in export order: the fixed columns, then for
/// each player slot its per-player fields and its distances to the other
/// slots.
pub fn pbp_columns() -> (res: Vec<String>)
    ensures
        texts(res@) == pbp_column_names(),
{
    let base = base_pbp_columns();
    let fields = player_fields();
    let slots = player_slots();
    let ghost slot_names = player_slot_names();
    let ghost field_names = player_field_names();
    let mut columns: Vec<String> = Vec::new();
    let mut i: usize = 0;
    while i < base.len()
        invariant
            i <= base@.len(),
            texts(columns@) == str_texts(base@.subrange(0, i as int)),
        decreases base.len() - i,
    {
        let ghost before = columns@;
        columns.push(String::from_str(base[i]));
        proof {
            assert(texts(columns@) =~= texts(before).push(base@[i as int]@));
            assert(str_texts(base@.subrange(0, i + 1)) =~= str_texts(base@.subrange(0, i as int)).push(
                base@[i as int]@,
            ));
        }
        i += 1;
    }
    assert(base@.subrange(0, base@.len() as int) =~= base@);
    assert(slots@.len() == 8) by {
        assert(str_texts(slots@).len() == slots@.len());
    }
    assert(str_texts(fields@).len() == fields@.len());
    let mut a: usize = 0;
    while a < slots.len()
        invariant
            a <= slots@.len(),
            slots@.len() == 8,
            str_texts(slots@) == slot_names,
            str_texts(fields@) == field_names,
            slot_names == player_slot_names(),
            field_names == player_field_names(),
            fields@.len() == field_names.len(),
            texts(columns@) == base_pbp_column_names() + player_columns(slot_names, field_names, a as nat),
        decreases slots.len() - a,
    {
        let slot = slots[a];
        assert(slot@ == slot_names[a as int]) by {
            assert(str_texts(slots@)[a as int] == slots@[a as int]@);
        }
        let ghost prefix = texts(columns@);
        let mut f: usize = 0;
        while f < fields.len()
            invariant
                f <= fields@.len(),
                fields@.len() == field_names.len(),
                str_texts(fields@) == field_names,
                texts(columns@) == prefix + slot_field_columns(slot@, field_names.subrange(0, f as int)),
            decreases fields.len() - f,
        {
            let ghost before = columns@;
            let field = fields[f];
            assert(field@ == field_names[f as int]) by {
                assert(str_texts(fields@)[f as int] == fields@[f as int]@);
            }
            columns.push(joined(slot, "_", field));
            proof {
                assert(texts(columns@) =~= texts(before).push(slot@ + "_"@ + field@));
                assert(slot_field_columns(slot@, field_names.subrange(0, f + 1)) =~= slot_field_columns(
                    slot@,
                    field_names.subrange(0, f as int),
                ).push(slot@ + "_"@ + field@));
            }
            f += 1;
        }
        assert(field_names.subrange(0, field_names.len() as int) =~= field_names);
        let ghost middle = texts(columns@);
        assert(distance_columns(slot@, slot_names.subrange(0, 0)) =~= Seq::<Seq<char>>::empty());
        let mut b: usize = 0;
        while b < slots.len()
            invariant
                b <= slots@.len(),
                slots@.len() == 8,
                str_texts(slots@) == slot_names,
                slot@ == slot_names[a as int],
                0 <= a < 8,
                texts(columns@) == middle + distance_columns(slot@, slot_names.subrange(0, b as int)),
            decreases slots.len() - b,
        {
            let ghost before = columns@;
            let target = slots[b];
            assert(target@ == slot_names[b as int]) by {
                assert(str_texts(slots@)[b as int] == slots@[b as int]@);
            }
            let ghost upto = slot_names.subrange(0, b + 1);
            assert(upto.drop_last() =~= slot_names.subrange(0, b as int));
            assert(upto.last() == target@);
            if !str_eq(target, slot) {
                columns.push(joined(slot, "_distance_to_", target));
                assert(texts(columns@) =~= texts(before).push(slot@ + "_distance_to_"@ + target@));
            }
            b += 1;
        }
        assert(slot_names.subrange(0, 8) =~= slot_names);
        assert(texts(columns@) =~= base_pbp_column_names() + player_columns(slot_names, field_names, (a + 1) as nat));
        a += 1;
    }
    columns
}

/// `cols` with `c` added at the end, unless it is there already.
pub open spec fn with_column(cols: Seq<Seq<char>>, c: Seq<char>) -> Seq<Seq<char>> {
    if cols.contains(c) {
        cols
    } else {
        cols.push(c)
    }
}

/// The columns of a per-frame row: the play-by-play columns, then the two
/// frame-event columns where they are not among them.
pub open spec fn frame_column_names() -> Seq<Seq<char>> {
    with_column(with_column(pbp_column_names(), "frame_has_event"@), "frame_event_count"@)
}

fn has_column(columns: &Vec<String>, column: &str) -> (res: bool)
    ensures
        res == texts(columns@).contains(column@),
{
    let mut i: usize = 0;
    while i < columns.len()
        invariant
            i <= columns@.len(),
            forall|j: int| 0 <= j < i ==> columns@[j]@ != column@,
        decreases columns.len() - i,
    {
        if str_eq(columns[i].as_str(), column) {
            assert(texts(columns@)[i as int] == column@);
            return true;
        }
        i += 1;
    }
    proof {
        if texts(columns@).contains(column@) {
            let k = choose|k: int| 0 <= k < texts(columns@).len() && texts(columns@)[k] == column@;
            assert(texts(columns@)[k] == columns@[k]@);
        }
    }
    false
}

fn add_column(columns: &mut Vec<String>, column: &str)
    ensures
        texts(final(columns)@) == with_column(texts(old(columns)@), column@),
{
    if !has_column(columns, column) {
        let ghost before = columns@;
        columns.push(String::from_str(column));
        assert(texts(columns@) =~= texts(before).push(column@));
    }
}

/// The columns of a per-frame row: the play-by-play columns, followed by
/// `frame_has_event` and `frame_event_count` unless already present.
pub fn frame_columns() -> (res: Vec<String>)
    ensures
        texts(res@) == frame_column_names(),
{
    let mut columns = pbp_columns();
    add_column(&mut columns, "frame_has_event");
    add_column(&mut columns, "frame_event_count");
    columns
}

/// The position of each column name: every name in `columns` is a key,
/// and maps to the last position that holds it.
pub fn column_index(columns: &[String]) -> (res: StringHashMap<usize>)
    ensures
        forall|i: int| 0 <= i < columns@.len() ==> #[trigger] res@.contains_key(columns@[i]@),
        forall|k: Seq<char>| #[trigger] res@.contains_key(k) ==> {
            &&& res@[k] < columns@.len()
            &&& columns@[res@[k] as int]@ == k
            &&& forall|j: int| res@[k] < j < columns@.len() ==> columns@[j]@ != k
        },
{
    let mut index: StringHashMap<usize> = StringHashMap::new();
    let mut i: usize = 0;
    while i < columns.len()
        invariant
            i <= columns@.len(),
            forall|j: int| 0 <= j < i ==> #[trigger] index@.contains_key(columns@[j]@),
            forall|k: Seq<char>| #[trigger] index@.contains_key(k) ==> {
                &&& index@[k] < i
                &&& columns@[index@[k] as int]@ == k
                &&& forall|j: int| index@[k] < j < i ==> columns@[j]@ != k
            },
        decreases columns.len() - i,
    {
        index.insert(columns[i].clone(), i);
        i += 1;
    }
    index
}

/// The kind of each column, in order.
pub fn column_kinds(columns: &[String]) -> (res: Vec<ColumnKind>)
    ensures
        res@.len() == columns@.len(),
        forall|i: int| 0 <= i < columns@.len() ==> #[trigger] res@[i] == kind_of_column(columns@[i]@),
{
    let mut kinds: Vec<ColumnKind> = Vec::new();
    let mut i: usize = 0;
    while i < columns.len()
        invariant
            i <= columns@.len(),
            kinds@.len() == i,
            forall|j: int| 0 <= j < i ==> #[trigger] kinds@[j] == kind_of_column(columns@[j]@),
        decreases columns.len() - i,
    {
        kinds.push(column_kind(columns[i].as_str()));
        i += 1;
    }
    kinds
}

/// A cell as the export reads it: text, a whole number, a flag, or a
/// decimal, of which the export only reads whether it is finite.
#[derive(Clone, Debug)]
pub enum ExportCell {
    Text(String),
    Int(i32),
    Flag(bool),
    Number { finite: bool },
}

/// Unicode's `White_Space` property, which `str::trim` removes: tab to
/// carriage return, space, next line, no-break space, Ogham space mark, the
/// en quad to hair space block, line and paragraph separators, narrow
/// no-break space, medium mathematical space and ideographic space.
pub open spec fn is_white_space(c: char) -> bool {
    let v = c as u32;
    ||| 0x9 <= v <= 0xd
    ||| v == 0x20
    ||| v == 0x85
    ||| v == 0xa0
    ||| v == 0x1680
    ||| 0x2000 <= v <= 0x200a
    ||| v == 0x2028
    ||| v == 0x2029
    ||| v == 0x202f
    ||| v == 0x205f
    ||| v == 0x3000
}

/// The position of the first character from `i` on that is not white
/// space (the length when there is none).
pub open spec fn first_kept(s: Seq<char>, i: int) -> int
    decreases s.len() - i,
{
    if i < 0 || i >= s.len() {
        s.len() as int
    } else if is_white_space(s[i]) {
        first_kept(s, i + 1)
    } else {
        i
    }
}

/// The position just after the last character before `j` that is not
/// white space (0 when there is none).
pub open spec fn end_kept(s: Seq<char>, j: int) -> int
    decreases j,
{
    if j <= 0 || j > s.len() {
        0
    } else if is_white_space(s[j - 1]) {
        end_kept(s, j - 1)
    } else {
        j
    }
}

/// A text without its leading and trailing white space.
pub open spec fn trimmed_text(s: Seq<char>) -> Seq<char> {
    let a = first_kept(s, 0);
    if a >= s.len() {
        Seq::empty()
    } else {
        s.subrange(a, end_kept(s, s.len() as int))
    }
}

/// Calls `str::trim` from std, which removes leading and trailing white
/// space as Unicode's `White_Space` property defines it. Trusted: the
/// result is the text between the first and the last character that is
/// not such white space.
#[verifier::external_body]
pub(crate) fn trim<'a>(s: &'a str) -> (res: &'a str)
    ensures
        res@ == trimmed_text(s@),
{
    s.trim()
}

/// Whether a cell counts as holding a value for the export: a text that is
/// neither blank nor `nan` in any case, any whole number or flag, or a
/// finite decimal.
pub open spec fn cell_has_value(cell: Option<ExportCell>) -> bool {
    match cell {
        Some(ExportCell::Text(v)) => trimmed_text(v@).len() > 0 && !ascii_case_equal(trimmed_text(v@), "nan"@),
        Some(ExportCell::Int(_)) => true,
        Some(ExportCell::Flag(_)) => true,
        Some(ExportCell::Number { finite }) => finite,
        None => false,
    }
}

/// The cell of a row at `idx`, or where the row has none there, the cell of
/// the defaults.
pub open spec fn cell_or_default(row: Seq<Option<ExportCell>>, defaults: Seq<Option<ExportCell>>, idx: int) -> Option<ExportCell> {
    if 0 <= idx < row.len() && row[idx] is Some {
        row[idx]
    } else if 0 <= idx < defaults.len() {
        defaults[idx]
    } else {
        None
    }
}

/// A copy of a cell.
pub fn copy_cell(cell: &ExportCell) -> (res: ExportCell)
    ensures
        res == *cell,
{
    match cell {
        ExportCell::Text(v) => ExportCell::Text(v.clone()),
        ExportCell::Int(v) => ExportCell::Int(*v),
        ExportCell::Flag(v) => ExportCell::Flag(*v),
        ExportCell::Number { finite } => ExportCell::Number { finite: *finite },
    }
}

/// The cell of `row` at `idx`, falling back on the static defaults.
pub fn cell_at<'a>(row: &'a [Option<ExportCell>], static_defaults: &'a [Option<ExportCell>], idx: usize) -> (res: Option<&'a ExportCell>)
    ensures
        res is Some <==> cell_or_default(row@, static_defaults@, idx as int) is Some,
        res is Some ==> *res.unwrap() == cell_or_default(row@, static_defaults@, idx as int).unwrap(),
{
    if idx < row.len() {
        match &row[idx] {
            Some(cell) => {
                return Some(cell);
            },
            None => {},
        }
    }
    if idx < static_defaults.len() {
        match &static_defaults[idx] {
            Some(cell) => Some(cell),
            None => None,
        }
    } else {
        None
    }
}

/// Whether a cell counts as holding a value for the export.
pub fn export_cell_has_value(cell: Option<&ExportCell>) -> (res: bool)
    ensures
        res == cell_has_value(match cell {
            Some(c) => Some(*c),
            None => None,
        }),
{
    match cell {
        Some(ExportCell::Text(value)) => {
            let value = trim(value.as_str());
            value.unicode_len() > 0 && !eq_ignore_ascii_case(value, "nan")
        },
        Some(ExportCell::Int(_)) => true,
        Some(ExportCell::Flag(_)) => true,
        Some(ExportCell::Number { finite }) => *finite,
        None => false,
    }
}

/// The number of positions of `row` at which it, or the defaults, hold a
/// cell.
pub open spec fn filled_count(row: Seq<Option<ExportCell>>, defaults: Seq<Option<ExportCell>>, n: int) -> nat
    decreases n,
{
    if n <= 0 {
        0
    } else {
        filled_count(row, defaults, n - 1) + if cell_or_default(row, defaults, n - 1) is Some {
            1nat
        } else {
            0nat
        }
    }
}

/// How many cells of a row are filled, counting the static defaults where
/// the row has none.
pub fn filled_cell_count(row: &[Option<ExportCell>], static_defaults: &[Option<ExportCell>]) -> (res: usize)
    ensures
        res == filled_count(row@, static_defaults@, row@.len() as int),
{
    let mut count: usize = 0;
    let mut i: usize = 0;
    while i < row.len()
        invariant
            i <= row@.len(),
            count == filled_count(row@, static_defaults@, i as int),
            count <= i,
        decreases row.len() - i,
    {
        if cell_at(row, static_defaults, i).is_some() {
            count += 1;
        }
        i += 1;
    }
    count
}

/// The cells of `row` at the given positions, in their order; a position
/// past the row's end gives an empty cell.
pub fn project_cells(row: &[Option<ExportCell>], indexes: &[usize]) -> (res: Vec<Option<ExportCell>>)
    ensures
        res@.len() == indexes@.len(),
        forall|k: int| 0 <= k < indexes@.len() ==> #[trigger] res@[k] == if (indexes@[k] as int) < row@.len() {
            row@[indexes@[k] as int]
        } else {
            None
        },
{
    let mut out: Vec<Option<ExportCell>> = Vec::new();
    let mut k: usize = 0;
    while k < indexes.len()
        invariant
            k <= indexes@.len(),
            out@.len() == k,
            forall|j: int| 0 <= j < k ==> #[trigger] out@[j] == if (indexes@[j] as int) < row@.len() {
                row@[indexes@[j] as int]
            } else {
                None
            },
        decreases indexes.len() - k,
    {
        let idx = indexes[k];
        let cell = if idx < row.len() {
            match &row[idx] {
                Some(c) => Some(copy_cell(c)),
                None => None,
            }
        } else {
            None
        };
        out.push(cell);
        k += 1;
    }
    out
}

/// The positions at which `flags` is set, in increasing order.
pub open spec fn true_positions(flags: Seq<bool>) -> Seq<usize>
    decreases flags.len(),
{
    if flags.len() == 0 {
        Seq::empty()
    } else {
        let earlier = true_positions(flags.drop_last());
        if flags.last() {
            earlier.push((flags.len() - 1) as usize)
        } else {
            earlier
        }
    }
}

/// The positions `0..n`, in order.
pub open spec fn positions_upto(n: nat) -> Seq<usize> {
    Seq::new(n, |i: int| i as usize)
}

/// The columns kept for export: those whose flag is set, or every
/// play-by-play column when no flag is.
pub open spec fn kept_columns(flags: Seq<bool>) -> Seq<usize> {
    if true_positions(flags).len() == 0 {
        positions_upto(pbp_column_names().len())
    } else {
        true_positions(flags)
    }
}

/// The set positions of a flag list are exactly its set flags, each once,
/// in increasing order.
pub proof fn lemma_true_positions(flags: Seq<bool>)
    requires
        flags.len() <= usize::MAX,
    ensures
        forall|k: int| 0 <= k < true_positions(flags).len() ==> {
            &&& (#[trigger] true_positions(flags)[k] as int) < flags.len()
            &&& flags[true_positions(flags)[k] as int]
        },
        forall|i: int| 0 <= i < flags.len() && #[trigger] flags[i] ==> true_positions(flags).contains(i as usize),
        forall|k: int, l: int|
            0 <= k < l < true_positions(flags).len() ==> #[trigger] true_positions(flags)[k] < #[trigger] true_positions(flags)[l],
    decreases flags.len(),
{
    if flags.len() > 0 {
        let d = flags.drop_last();
        lemma_true_positions(d);
        let e = true_positions(d);
        assert forall|i: int| 0 <= i < flags.len() && #[trigger] flags[i] implies true_positions(flags).contains(i as usize) by {
            if i < flags.len() - 1 {
                assert(d[i]);
                let k = choose|k: int| 0 <= k < e.len() && e[k] == i as usize;
                assert(true_positions(flags)[k] == i as usize);
            } else {
                let t = true_positions(flags);
                assert(t[t.len() - 1] == i as usize);
            }
        }
    }
}

/// Sets the flag of each column at which `row` holds a value; flags past
/// the row's end, and cells past the flags' end, are left alone.
pub fn mark_export_column_values(row: &[Option<ExportCell>], has_value: &mut Vec<bool>)
    ensures
        final(has_value)@.len() == old(has_value)@.len(),
        forall|i: int| 0 <= i < old(has_value)@.len() ==> #[trigger] final(has_value)@[i] == (old(has_value)@[i] || (i
            < row@.len() && cell_has_value(row@[i]))),
{
    let ghost start = has_value@;
    let mut idx: usize = 0;
    while idx < row.len()
        invariant
            idx <= row@.len(),
            has_value@.len() == start.len(),
            forall|i: int| 0 <= i < start.len() ==> #[trigger] has_value@[i] == (start[i] || (i < idx && cell_has_value(row@[i]))),
        decreases row.len() - idx,
    {
        if idx < has_value.len() {
            let cell: Option<&ExportCell> = match &row[idx] {
                Some(c) => Some(c),
                None => None,
            };
            if export_cell_has_value(cell) {
                has_value.set(idx, true);
            }
        }
        idx += 1;
    }
}

/// The positions of the set flags, or every play-by-play column when no
/// flag is set.
pub fn non_empty_export_indexes(has_value: Vec<bool>) -> (res: Vec<usize>)
    ensures
        res@ == kept_columns(has_value@),
{
    let mut indexes: Vec<usize> = Vec::new();
    let mut i: usize = 0;
    while i < has_value.len()
        invariant
            i <= has_value@.len(),
            indexes@ == true_positions(has_value@.subrange(0, i as int)),
        decreases has_value.len() - i,
    {
        let ghost upto = has_value@.subrange(0, i + 1);
        assert(upto.drop_last() =~= has_value@.subrange(0, i as int));
        if has_value[i] {
            indexes.push(i);
        }
        i += 1;
    }
    assert(has_value@.subrange(0, has_value@.len() as int) =~= has_value@);
    if indexes.len() == 0 {
        let columns = pbp_columns();
        assert(texts(columns@).len() == columns@.len());
        all_positions(columns.len())
    } else {
        indexes
    }
}

/// Some row among the first `upto` has a value at column `idx`, counting
/// the static defaults.
pub open spec fn column_seen(rows: Seq<Vec<Option<ExportCell>>>, defaults: Seq<Option<ExportCell>>, idx: int, upto: int) -> bool {
    exists|r: int| 0 <= r < upto && #[trigger] cell_has_value(cell_or_default(rows[r]@, defaults, idx))
}

/// For each of the first `column_count` columns, whether some row has a
/// value there, counting the static defaults.
pub open spec fn column_flags(rows: Seq<Vec<Option<ExportCell>>>, defaults: Seq<Option<ExportCell>>, column_count: nat) -> Seq<bool> {
    Seq::new(column_count, |idx: int| column_seen(rows, defaults, idx, rows.len() as int))
}

/// The columns that an export of `rows` keeps: all of them for no rows,
/// else those with a value in some row, or every play-by-play column when
/// none has one.
pub open spec fn export_columns(rows: Seq<Vec<Option<ExportCell>>>, defaults: Seq<Option<ExportCell>>, column_count: nat) -> Seq<usize> {
    if rows.len() == 0 {
        positions_upto(column_count)
    } else {
        kept_columns(column_flags(rows, defaults, column_count))
    }
}

proof fn lemma_seen_step(rows: Seq<Vec<Option<ExportCell>>>, defaults: Seq<Option<ExportCell>>, idx: int, r: int)
    requires
        0 <= r,
    ensures
        column_seen(rows, defaults, idx, r + 1) == (column_seen(rows, defaults, idx, r) || cell_has_value(
            cell_or_default(rows[r]@, defaults, idx),
        )),
{
    if column_seen(rows, defaults, idx, r + 1) {
        let w = choose|w: int| 0 <= w < r + 1 && #[trigger] cell_has_value(cell_or_default(rows[w]@, defaults, idx));
        if w < r {
            assert(column_seen(rows, defaults, idx, r));
        }
    }
    if column_seen(rows, defaults, idx, r) {
        let w = choose|w: int| 0 <= w < r && #[trigger] cell_has_value(cell_or_default(rows[w]@, defaults, idx));
        assert(column_seen(rows, defaults, idx, r + 1));
    }
    if cell_has_value(cell_or_default(rows[r]@, defaults, idx)) {
        assert(column_seen(rows, defaults, idx, r + 1));
    }
}

fn all_positions(n: usize) -> (res: Vec<usize>)
    ensures
        res@ == positions_upto(n as nat),
{
    let mut all: Vec<usize> = Vec::new();
    let mut j: usize = 0;
    while j < n
        invariant
            j <= n,
            all@ =~= positions_upto(j as nat),
        decreases n - j,
    {
        all.push(j);
        j += 1;
    }
    all
}

/// The columns a frame export keeps: every column when there are no rows,
/// else the columns with a value in some row (counting the static
/// defaults), in order, or every play-by-play column when none has one.
pub fn export_column_indexes_from_cells(
    rows: &[Vec<Option<ExportCell>>],
    static_defaults: &[Option<ExportCell>],
    column_count: usize,
) -> (res: Vec<usize>)
    ensures
        res@ == export_columns(rows@, static_defaults@, column_count as nat),
{
    if rows.len() == 0 {
        return all_positions(column_count);
    }
    let mut has_value: Vec<bool> = vec![false; column_count];
    let mut r: usize = 0;
    while r < rows.len()
        invariant
            r <= rows@.len(),
            has_value@.len() == column_count,
            forall|idx: int| 0 <= idx < column_count ==> #[trigger] has_value@[idx] == column_seen(rows@, static_defaults@, idx, r as int),
        decreases rows.len() - r,
    {
        let row = &rows[r];
        let mut idx: usize = 0;
        while idx < column_count
            invariant
                r < rows@.len(),
                *row == rows@[r as int],
                idx <= column_count,
                has_value@.len() == column_count,
                forall|j: int| 0 <= j < idx ==> #[trigger] has_value@[j] == column_seen(rows@, static_defaults@, j, r + 1),
                forall|j: int| idx <= j < column_count ==> #[trigger] has_value@[j] == column_seen(rows@, static_defaults@, j, r as int),
            decreases column_count - idx,
        {
            proof {
                lemma_seen_step(rows@, static_defaults@, idx as int, r as int);
            }
            if export_cell_has_value(cell_at(row.as_slice(), static_defaults, idx)) {
                has_value.set(idx, true);
            }
            idx += 1;
        }
        r += 1;
    }
    assert(has_value@ =~= column_flags(rows@, static_defaults@, column_count as nat));
    non_empty_export_indexes(has_value)
}

/// The columns a play-by-play export keeps: every column when there are no
/// rows, else the columns with a value in some row, in order, or every
/// play-by-play column when none has one.
pub fn pbp_export_column_indexes_from_cells(rows: &[Vec<Option<ExportCell>>], column_count: usize) -> (res: Vec<usize>)
    ensures
        res@ == export_columns(rows@, Seq::empty(), column_count as nat),
{
    if rows.len() == 0 {
        return all_positions(column_count);
    }
    let ghost none: Seq<Option<ExportCell>> = Seq::empty();
    let mut has_value: Vec<bool> = vec![false; column_count];
    let mut r: usize = 0;
    while r < rows.len()
        invariant
            r <= rows@.len(),
            none == Seq::<Option<ExportCell>>::empty(),
            has_value@.len() == column_count,
            forall|idx: int| 0 <= idx < column_count ==> #[trigger] has_value@[idx] == column_seen(rows@, none, idx, r as int),
        decreases rows.len() - r,
    {
        let ghost before = has_value@;
        mark_export_column_values(rows[r].as_slice(), &mut has_value);
        assert forall|idx: int| 0 <= idx < column_count implies #[trigger] has_value@[idx] == column_seen(rows@, none, idx, r + 1) by {
            lemma_seen_step(rows@, none, idx, r as int);
            let row = rows@[r as int]@;
            if idx < row.len() && row[idx] is Some {
                assert(cell_or_default(row, none, idx) == row[idx]);
            } else {
                assert(cell_or_default(row, none, idx) is None);
            }
        }
        r += 1;
    }
    assert(has_value@ =~= column_flags(rows@, none, column_count as nat));
    non_empty_export_indexes(has_value)
}

/// An export of at least one row, in which some column holds a value,
/// keeps exactly the columns that hold a value in some row (counting the
/// static defaults), each once and in increasing order.
pub proof fn law_export_keeps_filled_columns(
    rows: Seq<Vec<Option<ExportCell>>>,
    defaults: Seq<Option<ExportCell>>,
    column_count: nat,
    filled: int,
)
    requires
        rows.len() > 0,
        column_count <= usize::MAX,
        0 <= filled < column_count,
        column_seen(rows, defaults, filled, rows.len() as int),
    ensures
        forall|k: int| 0 <= k < export_columns(rows, defaults, column_count).len() ==> {
            &&& (#[trigger] export_columns(rows, defaults, column_count)[k] as int) < column_count
            &&& column_seen(rows, defaults, export_columns(rows, defaults, column_count)[k] as int, rows.len() as int)
        },
        forall|i: int| 0 <= i < column_count && #[trigger] column_seen(rows, defaults, i, rows.len() as int)
            ==> export_columns(rows, defaults, column_count).contains(i as usize),
        forall|k: int, l: int| 0 <= k < l < export_columns(rows, defaults, column_count).len()
            ==> #[trigger] export_columns(rows, defaults, column_count)[k] < #[trigger] export_columns(rows, defaults, column_count)[l],
{
    let flags = column_flags(rows, defaults, column_count);
    lemma_true_positions(flags);
    assert(flags[filled]);
    assert(true_positions(flags).contains(filled as usize));
    assert forall|i: int| 0 <= i < column_count && #[trigger] column_seen(rows, defaults, i, rows.len() as int)
        implies export_columns(rows, defaults, column_count).contains(i as usize) by {
        assert(flags[i]);
    }
    assert forall|k: int| 0 <= k < export_columns(rows, defaults, column_count).len() implies {
        &&& (#[trigger] export_columns(rows, defaults, column_count)[k] as int) < column_count
        &&& column_seen(rows, defaults, export_columns(rows, defaults, column_count)[k] as int, rows.len() as int)
    } by {
        assert(flags[true_positions(flags)[k] as int]);
    }
}

/// The per-frame columns begin with every play-by-play column, in the same
/// positions, and include both frame-event columns.
pub proof fn law_frame_columns_extend_pbp()
    ensures
        frame_column_names().len() >= pbp_column_names().len(),
        frame_column_names().subrange(0, pbp_column_names().len() as int) == pbp_column_names(),
        frame_column_names().contains("frame_has_event"@),
        frame_column_names().contains("frame_event_count"@),
{
    let p = pbp_column_names();
    let one = with_column(p, "frame_has_event"@);
    let two = with_column(one, "frame_event_count"@);
    assert(one.subrange(0, p.len() as int) =~= p);
    assert(two.subrange(0, p.len() as int) =~= p);
    if !p.contains("frame_has_event"@) {
        assert(one[p.len() as int] == "frame_has_event"@);
    }
    assert(one.contains("frame_has_event"@));
    if !one.contains("frame_event_count"@) {
        assert(two[one.len() as int] == "frame_event_count"@);
    }
    assert(two.contains("frame_event_count"@));
    if one.contains("frame_event_count"@) {
    } else {
        let k = choose|k: int| 0 <= k < one.len() && one[k] == "frame_has_event"@;
        assert(two[k] == "frame_has_event"@);
    }
}

/// The flag a text names, ignoring ASCII case: `true`, `1`, `yes` and `y`
/// name a set flag, `false`, `0`, `no` and `n` a clear one, and any other
/// text none.
pub open spec fn flag_named(s: Seq<char>) -> Option<bool> {
    if lowercase_is(s, "true"@) || lowercase_is(s, "1"@) || lowercase_is(s, "yes"@) || lowercase_is(s, "y"@) {
        Some(true)
    } else if lowercase_is(s, "false"@) || lowercase_is(s, "0"@) || lowercase_is(s, "no"@) || lowercase_is(s, "n"@) {
        Some(false)
    } else {
        None
    }
}

/// The flag stored in a flag column's text.
pub fn parse_flag_cell(value: &str) -> (res: Option<bool>)
    ensures
        res == flag_named(value@),
{
    if lowercase_eq(value, "true") || lowercase_eq(value, "1") || lowercase_eq(value, "yes") || lowercase_eq(
        value,
        "y",
    ) {
        Some(true)
    } else if lowercase_eq(value, "false") || lowercase_eq(value, "0") || lowercase_eq(value, "no")
        || lowercase_eq(value, "n") {
        Some(false)
    } else {
        None
    }
}

/// The whole number stored in a whole-number column's text: a signed
/// decimal that fits in an `i32`, or none.
pub fn parse_int_cell(value: &str) -> (res: Option<i32>)
    ensures
        res == parsed_i32(value@),
{
    parse_i32(value)
}

} // verus!
