//! The replay header's properties: lookups by name, their text and integer
//! readings, and what the analyzer takes from them.
use vstd::prelude::*;
use vstd::string::StringExecFns;
use crate::events::{actual_team_size, larger_team_size};
use crate::text::{ascii_case_equal, eq_ignore_ascii_case, str_eq};
use crate::official::{final_score_from_stats, team_goals};
use crate::row_order::{is_stable_order, stable_order, KeyView, RowSortKey};
use crate::columns::{trim, trimmed_text};

verus! {

/// A header property that is not an array.
#[derive(Clone, Debug)]
pub enum HeaderScalar {
    Bool(bool),
    Byte(Option<String>),
    /// A float property, held as the text it prints as and its value cast
    /// to `i32`.
    Float { text: String, truncated: i32 },
    Int(i32),
    Name(String),
    QWord(u64),
    Str(String),
    /// A struct, or an array nested inside an array.
    Other,
}

/// A top-level header property: a scalar, or an array of property lists.
#[derive(Clone, Debug)]
pub enum HeaderValue {
    Scalar(HeaderScalar),
    Array(Vec<Vec<(String, HeaderScalar)>>),
}

/// The digit character for `d`, which is below ten.
pub open spec fn digit_char(d: int) -> char {
    if d == 0 {
        '0'
    } else if d == 1 {
        '1'
    } else if d == 2 {
        '2'
    } else if d == 3 {
        '3'
    } else if d == 4 {
        '4'
    } else if d == 5 {
        '5'
    } else if d == 6 {
        '6'
    } else if d == 7 {
        '7'
    } else if d == 8 {
        '8'
    } else {
        '9'
    }
}

/// The decimal digits of `n`, most significant first, without leading zeros.
pub open spec fn decimal_digits(n: nat) -> Seq<char>
    decreases n,
{
    if n < 10 {
        seq![digit_char(n as int)]
    } else {
        decimal_digits(n / 10).push(digit_char((n % 10) as int))
    }
}

/// How an integer prints: a minus sign before negative numbers, then the
/// digits of its magnitude.
pub open spec fn signed_decimal(n: int) -> Seq<char> {
    if n < 0 {
        seq!['-'] + decimal_digits((-n) as nat)
    } else {
        decimal_digits(n as nat)
    }
}

fn digit_text(d: u64) -> (res: &'static str)
    requires
        d < 10,
    ensures
        res@ == seq![digit_char(d as int)],
{
    proof {
        reveal_strlit("0");
        reveal_strlit("1");
        reveal_strlit("2");
        reveal_strlit("3");
        reveal_strlit("4");
        reveal_strlit("5");
        reveal_strlit("6");
        reveal_strlit("7");
        reveal_strlit("8");
        reveal_strlit("9");
    }
    if d == 0 {
        "0"
    } else if d == 1 {
        "1"
    } else if d == 2 {
        "2"
    } else if d == 3 {
        "3"
    } else if d == 4 {
        "4"
    } else if d == 5 {
        "5"
    } else if d == 6 {
        "6"
    } else if d == 7 {
        "7"
    } else if d == 8 {
        "8"
    } else {
        "9"
    }
}

fn append_decimal(s: &mut String, n: u64)
    ensures
        final(s)@ == old(s)@ + decimal_digits(n as nat),
    decreases n,
{
    if n >= 10 {
        append_decimal(s, n / 10);
    }
    s.append(digit_text(n % 10));
    assert(decimal_digits(n as nat) =~= if n < 10 {
        seq![digit_char(n as int)]
    } else {
        decimal_digits((n / 10) as nat).push(digit_char((n % 10) as int))
    });
}

/// The decimal text of an unsigned integer.
pub fn u64_text(n: u64) -> (res: String)
    ensures
        res@ == decimal_digits(n as nat),
{
    let mut s = String::new();
    append_decimal(&mut s, n);
    assert(s@ =~= decimal_digits(n as nat));
    s
}

/// The decimal text of a signed integer.
pub fn i32_text(n: i32) -> (res: String)
    ensures
        res@ == signed_decimal(n as int),
{
    let mut s = String::new();
    if n < 0 {
        proof {
            reveal_strlit("-");
        }
        s.append("-");
        let magnitude: u64 = (0i64 - n as i64) as u64;
        append_decimal(&mut s, magnitude);
    } else {
        append_decimal(&mut s, n as u64);
    }
    assert(s@ =~= signed_decimal(n as int));
    s
}

/// The position of the first property from `i` on whose name is `key`.
pub open spec fn first_named_from<T>(props: Seq<(String, T)>, key: Seq<char>, i: nat) -> Option<int>
    decreases props.len() - i,
{
    if i >= props.len() {
        None
    } else if props[i as int].0@ == key {
        Some(i as int)
    } else {
        first_named_from(props, key, i + 1)
    }
}

/// The position of the first property whose name is `key`.
pub open spec fn first_named<T>(props: Seq<(String, T)>, key: Seq<char>) -> Option<int> {
    first_named_from(props, key, 0)
}

/// The position of the first property named `key`.
pub fn find_named<T>(props: &[(String, T)], key: &str) -> (res: Option<usize>)
    ensures
        res matches Some(k) ==> first_named(props@, key@) == Some(k as int),
        res is None ==> first_named(props@, key@) is None,
        res matches Some(k) ==> k < props@.len() && props@[k as int].0@ == key@,
{
    let mut i: usize = 0;
    while i < props.len()
        invariant
            i <= props@.len(),
            first_named(props@, key@) == first_named_from(props@, key@, i as nat),
        decreases props@.len() - i,
    {
        if str_eq(props[i].0.as_str(), key) {
            return Some(i);
        }
        i = i + 1;
    }
    None
}

/// The text of an optional string.
pub open spec fn opt_text(o: Option<String>) -> Option<Seq<char>> {
    match o {
        Some(s) => Some(s@),
        None => None,
    }
}

/// A scalar property read as text: strings and names as they are, a byte
/// property's value, numbers and booleans as they print.
pub open spec fn prop_text(v: HeaderScalar) -> Option<Seq<char>> {
    match v {
        HeaderScalar::Bool(b) => Some(
            if b {
                "true"@
            } else {
                "false"@
            },
        ),
        HeaderScalar::Byte(value) => opt_text(value),
        HeaderScalar::Float { text, .. } => Some(text@),
        HeaderScalar::Int(n) => Some(signed_decimal(n as int)),
        HeaderScalar::Name(s) => Some(s@),
        HeaderScalar::QWord(n) => Some(decimal_digits(n as nat)),
        HeaderScalar::Str(s) => Some(s@),
        HeaderScalar::Other => None,
    }
}

/// A scalar property read as an `i32`: integers, 64-bit words that fit, and
/// floats cast to `i32`.
pub open spec fn prop_int(v: HeaderScalar) -> Option<i32> {
    match v {
        HeaderScalar::Int(n) => Some(n),
        HeaderScalar::QWord(n) => if n <= i32::MAX as u64 {
            Some(n as i32)
        } else {
            None
        },
        HeaderScalar::Float { truncated, .. } => Some(truncated),
        _ => None,
    }
}

/// A scalar property read as text.
pub fn prop_to_string(prop: &HeaderScalar) -> (res: Option<String>)
    ensures
        opt_text(res) == prop_text(*prop),
{
    match prop {
        HeaderScalar::Bool(b) => Some(
            if *b {
                String::from_str("true")
            } else {
                String::from_str("false")
            },
        ),
        HeaderScalar::Byte(value) => match value {
            Some(v) => Some(v.clone()),
            None => None,
        },
        HeaderScalar::Float { text, .. } => Some(text.clone()),
        HeaderScalar::Int(n) => Some(i32_text(*n)),
        HeaderScalar::Name(s) => Some(s.clone()),
        HeaderScalar::QWord(n) => Some(u64_text(*n)),
        HeaderScalar::Str(s) => Some(s.clone()),
        HeaderScalar::Other => None,
    }
}

/// A scalar property read as an `i32`.
pub fn prop_to_i32(prop: &HeaderScalar) -> (res: Option<i32>)
    ensures
        res == prop_int(*prop),
{
    match prop {
        HeaderScalar::Int(n) => Some(*n),
        HeaderScalar::QWord(n) => if *n <= 2147483647u64 {
            Some(*n as i32)
        } else {
            None
        },
        HeaderScalar::Float { truncated, .. } => Some(*truncated),
        _ => None,
    }
}

/// The scalar of the first property named `key`, where it is a scalar.
pub open spec fn scalar_named(props: Seq<(String, HeaderScalar)>, key: Seq<char>) -> Option<HeaderScalar> {
    match first_named(props, key) {
        Some(k) => Some(props[k].1),
        None => None,
    }
}

/// The first header property named `key`, where it is a scalar.
pub open spec fn header_scalar(header: Seq<(String, HeaderValue)>, key: Seq<char>) -> Option<HeaderScalar> {
    match first_named(header, key) {
        Some(k) => match header[k].1 {
            HeaderValue::Scalar(v) => Some(v),
            HeaderValue::Array(_) => None,
        },
        None => None,
    }
}

/// The first header property named `key`, where it is an array.
pub open spec fn header_array_named(header: Seq<(String, HeaderValue)>, key: Seq<char>) -> Option<
    Vec<Vec<(String, HeaderScalar)>>,
> {
    match first_named(header, key) {
        Some(k) => match header[k].1 {
            HeaderValue::Array(a) => Some(a),
            HeaderValue::Scalar(_) => None,
        },
        None => None,
    }
}

/// The text of an optional scalar.
pub open spec fn scalar_text(v: Option<HeaderScalar>) -> Option<Seq<char>> {
    match v {
        Some(s) => prop_text(s),
        None => None,
    }
}

/// The `i32` reading of an optional scalar.
pub open spec fn scalar_int(v: Option<HeaderScalar>) -> Option<i32> {
    match v {
        Some(s) => prop_int(s),
        None => None,
    }
}

/// The first header property named `key`, read as text.
pub fn header_string(header: &[(String, HeaderValue)], key: &str) -> (res: Option<String>)
    ensures
        opt_text(res) == scalar_text(header_scalar(header@, key@)),
{
    match find_named(header, key) {
        Some(k) => match &header[k].1 {
            HeaderValue::Scalar(v) => prop_to_string(v),
            HeaderValue::Array(_) => None,
        },
        None => None,
    }
}

/// The first header property named `key`, read as an `i32`.
pub fn header_i32(header: &[(String, HeaderValue)], key: &str) -> (res: Option<i32>)
    ensures
        res == scalar_int(header_scalar(header@, key@)),
{
    match find_named(header, key) {
        Some(k) => match &header[k].1 {
            HeaderValue::Scalar(v) => prop_to_i32(v),
            HeaderValue::Array(_) => None,
        },
        None => None,
    }
}

/// The first header property named `key`, where it is an array.
pub fn header_array<'a>(header: &'a [(String, HeaderValue)], key: &str) -> (res: Option<
    &'a Vec<Vec<(String, HeaderScalar)>>,
>)
    ensures
        res matches Some(a) ==> header_array_named(header@, key@) == Some(*a),
        res is None ==> header_array_named(header@, key@) is None,
{
    match find_named(header, key) {
        Some(k) => match &header[k].1 {
            HeaderValue::Array(a) => Some(a),
            HeaderValue::Scalar(_) => None,
        },
        None => None,
    }
}

/// The first property named `key` in a property list, read as text.
pub fn prop_string(props: &[(String, HeaderScalar)], key: &str) -> (res: Option<String>)
    ensures
        opt_text(res) == scalar_text(scalar_named(props@, key@)),
{
    match find_named(props, key) {
        Some(k) => prop_to_string(&props[k].1),
        None => None,
    }
}

/// The first property named `key` in a property list, read as an `i32`.
pub fn prop_i32(props: &[(String, HeaderScalar)], key: &str) -> (res: Option<i32>)
    ensures
        res == scalar_int(scalar_named(props@, key@)),
{
    match find_named(props, key) {
        Some(k) => prop_to_i32(&props[k].1),
        None => None,
    }
}

/// The first property named `key` in a property list, where it is a boolean.
pub fn prop_bool(props: &[(String, HeaderScalar)], key: &str) -> (res: Option<bool>)
    ensures
        res == match scalar_named(props@, key@) {
            Some(HeaderScalar::Bool(b)) => Some(b),
            _ => None,
        },
{
    match find_named(props, key) {
        Some(k) => match &props[k].1 {
            HeaderScalar::Bool(b) => Some(*b),
            _ => None,
        },
        None => None,
    }
}

/// The goal a header goal entry records: its frame (from `frame`, else
/// `Frame`, else `Time`) and its scorer's name (empty when missing).
pub open spec fn goal_entry(goal: Seq<(String, HeaderScalar)>) -> Option<(i32, Seq<char>)> {
    let frame = match scalar_int(scalar_named(goal, "frame"@)) {
        Some(f) => Some(f),
        None => match scalar_int(scalar_named(goal, "Frame"@)) {
            Some(f) => Some(f),
            None => scalar_int(scalar_named(goal, "Time"@)),
        },
    };
    match frame {
        Some(f) => Some(
            (
                f,
                match scalar_text(scalar_named(goal, "PlayerName"@)) {
                    Some(t) => t,
                    None => Seq::empty(),
                },
            ),
        ),
        None => None,
    }
}

/// The goals recorded by the first `n` entries, skipping entries without a
/// frame.
pub open spec fn goal_entries(goals: Seq<Vec<(String, HeaderScalar)>>, n: nat) -> Seq<(i32, Seq<char>)>
    decreases n,
{
    if n == 0 {
        Seq::empty()
    } else {
        let prev = goal_entries(goals, (n - 1) as nat);
        match goal_entry(goals[n - 1]@) {
            Some(e) => prev.push(e),
            None => prev,
        }
    }
}

/// The goals the header's `Goals` array records.
pub open spec fn header_goal_list(header: Seq<(String, HeaderValue)>) -> Seq<(i32, Seq<char>)> {
    match header_array_named(header, "Goals"@) {
        Some(a) => goal_entries(a@, a@.len()),
        None => Seq::empty(),
    }
}

/// The `(frame, scorer)` of each goal in the header's `Goals` array.
pub fn header_goal_frames(header: &[(String, HeaderValue)]) -> (res: Vec<(i32, String)>)
    ensures
        res@.map_values(|e: (i32, String)| (e.0, e.1@)) == header_goal_list(header@),
{
    let mut res: Vec<(i32, String)> = Vec::new();
    match header_array(header, "Goals") {
        Some(goals) => {
            let mut i: usize = 0;
            while i < goals.len()
                invariant
                    i <= goals@.len(),
                    res@.map_values(|e: (i32, String)| (e.0, e.1@)) == goal_entries(goals@, i as nat),
                decreases goals@.len() - i,
            {
                let goal = goals[i].as_slice();
                let frame = match prop_i32(goal, "frame") {
                    Some(f) => Some(f),
                    None => match prop_i32(goal, "Frame") {
                        Some(f) => Some(f),
                        None => prop_i32(goal, "Time"),
                    },
                };
                match frame {
                    Some(f) => {
                        let name = match prop_string(goal, "PlayerName") {
                            Some(t) => t,
                            None => String::new(),
                        };
                        res.push((f, name));
                    },
                    None => {},
                }
                assert(res@.map_values(|e: (i32, String)| (e.0, e.1@)) =~= goal_entries(goals@, (i + 1) as nat));
                i = i + 1;
            }
        },
        None => {},
    }
    res
}

/// A player's team: `Team`, else `PlayerTeam`.
pub open spec fn player_team_of(player: Seq<(String, HeaderScalar)>) -> Option<i32> {
    match scalar_int(scalar_named(player, "Team"@)) {
        Some(t) => Some(t),
        None => scalar_int(scalar_named(player, "PlayerTeam"@)),
    }
}

/// Each header player entry's `(goals, team)`.
pub open spec fn header_score_pairs(header: Seq<(String, HeaderValue)>) -> Seq<(Option<i32>, Option<i32>)> {
    match header_array_named(header, "PlayerStats"@) {
        Some(a) => a@.map_values(
            |p: Vec<(String, HeaderScalar)>| (scalar_int(scalar_named(p@, "Goals"@)), player_team_of(p@)),
        ),
        None => Seq::empty(),
    }
}

/// A player's team from a header player entry.
pub fn player_team(player: &[(String, HeaderScalar)]) -> (res: Option<i32>)
    ensures
        res == player_team_of(player@),
{
    match prop_i32(player, "Team") {
        Some(t) => Some(t),
        None => prop_i32(player, "PlayerTeam"),
    }
}

/// The final `(blue, orange)` score: the goals of the header's player
/// entries, summed by team.
pub fn header_final_score(header: &[(String, HeaderValue)]) -> (res: (i32, i32))
    requires
        forall|n: int|
            0 <= n <= header_score_pairs(header@).len() ==> i32::MIN <= #[trigger] team_goals(
                header_score_pairs(header@),
                0,
                n,
            ) <= i32::MAX,
        forall|n: int|
            0 <= n <= header_score_pairs(header@).len() ==> i32::MIN <= #[trigger] team_goals(
                header_score_pairs(header@),
                1,
                n,
            ) <= i32::MAX,
    ensures
        res.0 == team_goals(header_score_pairs(header@), 0, header_score_pairs(header@).len() as int),
        res.1 == team_goals(header_score_pairs(header@), 1, header_score_pairs(header@).len() as int),
{
    let mut pairs: Vec<(Option<i32>, Option<i32>)> = Vec::new();
    match header_array(header, "PlayerStats") {
        Some(players) => {
            let mut i: usize = 0;
            while i < players.len()
                invariant
                    i <= players@.len(),
                    pairs@ == players@.subrange(0, i as int).map_values(
                        |p: Vec<(String, HeaderScalar)>|
                            (scalar_int(scalar_named(p@, "Goals"@)), player_team_of(p@)),
                    ),
                decreases players@.len() - i,
            {
                let player = players[i].as_slice();
                pairs.push((prop_i32(player, "Goals"), player_team(player)));
                assert(players@.subrange(0, (i + 1) as int).map_values(
                    |p: Vec<(String, HeaderScalar)>|
                        (scalar_int(scalar_named(p@, "Goals"@)), player_team_of(p@)),
                ) =~= pairs@);
                i = i + 1;
            }
            assert(players@.subrange(0, players@.len() as int) =~= players@);
        },
        None => {},
    }
    assert(pairs@ =~= header_score_pairs(header@));
    final_score_from_stats(pairs.as_slice())
}

/// What the players export takes from a header player entry.
#[derive(Clone, Debug)]
pub struct PlayerStatsRow {
    pub player_name: String,
    pub player_team: Option<i32>,
    pub online_id: String,
    pub platform: String,
    pub score: Option<i32>,
    pub goals: Option<i32>,
    pub assists: Option<i32>,
    pub saves: Option<i32>,
    pub shots: Option<i32>,
    pub b_bot: Option<bool>,
}

/// A property's text, or the empty text when it is missing.
pub open spec fn text_or_empty(props: Seq<(String, HeaderScalar)>, key: Seq<char>) -> Seq<char> {
    match scalar_text(scalar_named(props, key)) {
        Some(t) => t,
        None => Seq::empty(),
    }
}

/// A property's `i32` reading.
pub open spec fn int_named(props: Seq<(String, HeaderScalar)>, key: Seq<char>) -> Option<i32> {
    scalar_int(scalar_named(props, key))
}

/// The players-export row of a header player entry: its name (`Name`, else
/// `PlayerName`, else empty), team, online id, platform, score, goals,
/// assists, saves, shots and bot flag.
pub open spec fn player_row_matches(row: PlayerStatsRow, player: Seq<(String, HeaderScalar)>) -> bool {
    &&& row.player_name@ == match scalar_text(scalar_named(player, "Name"@)) {
        Some(t) => t,
        None => text_or_empty(player, "PlayerName"@),
    }
    &&& row.player_team == player_team_of(player)
    &&& row.online_id@ == text_or_empty(player, "OnlineID"@)
    &&& row.platform@ == text_or_empty(player, "Platform"@)
    &&& row.score == int_named(player, "Score"@)
    &&& row.goals == int_named(player, "Goals"@)
    &&& row.assists == int_named(player, "Assists"@)
    &&& row.saves == int_named(player, "Saves"@)
    &&& row.shots == int_named(player, "Shots"@)
    &&& row.b_bot == match scalar_named(player, "bBot"@) {
        Some(HeaderScalar::Bool(b)) => Some(b),
        _ => None,
    }
}

fn string_or_empty(s: Option<String>) -> (res: String)
    ensures
        res@ == match opt_text(s) {
            Some(t) => t,
            None => Seq::empty(),
        },
{
    match s {
        Some(t) => t,
        None => String::new(),
    }
}

/// The players-export row of one header player entry.
pub fn player_stats_row(player: &[(String, HeaderScalar)]) -> (res: PlayerStatsRow)
    ensures
        player_row_matches(res, player@),
{
    let player_name = match prop_string(player, "Name") {
        Some(t) => t,
        None => string_or_empty(prop_string(player, "PlayerName")),
    };
    PlayerStatsRow {
        player_name,
        player_team: player_team(player),
        online_id: string_or_empty(prop_string(player, "OnlineID")),
        platform: string_or_empty(prop_string(player, "Platform")),
        score: prop_i32(player, "Score"),
        goals: prop_i32(player, "Goals"),
        assists: prop_i32(player, "Assists"),
        saves: prop_i32(player, "Saves"),
        shots: prop_i32(player, "Shots"),
        b_bot: prop_bool(player, "bBot"),
    }
}

/// The players-export rows: one per entry of the header's `PlayerStats`
/// array, none when it is missing.
pub fn header_player_stats(header: &[(String, HeaderValue)]) -> (res: Vec<PlayerStatsRow>)
    ensures
        header_array_named(header@, "PlayerStats"@) is None ==> res@.len() == 0,
        header_array_named(header@, "PlayerStats"@) matches Some(a) ==> res@.len() == a@.len()
            && forall|i: int| 0 <= i < a@.len() ==> player_row_matches(#[trigger] res@[i], a@[i]@),
{
    let mut res: Vec<PlayerStatsRow> = Vec::new();
    match header_array(header, "PlayerStats") {
        Some(players) => {
            let mut i: usize = 0;
            while i < players.len()
                invariant
                    i <= players@.len(),
                    res@.len() == i,
                    forall|k: int| 0 <= k < i ==> player_row_matches(#[trigger] res@[k], players@[k]@),
                decreases players@.len() - i,
            {
                res.push(player_stats_row(players[i].as_slice()));
                i = i + 1;
            }
        },
        None => {},
    }
    res
}

/// A replay's header `Id` (empty when missing) equals `guid`, ignoring
/// ASCII case.
pub open spec fn guid_matches(header: Seq<(String, HeaderValue)>, guid: Seq<char>) -> bool {
    ascii_case_equal(
        match scalar_text(header_scalar(header, "Id"@)) {
            Some(t) => t,
            None => Seq::empty(),
        },
        guid,
    )
}

/// Whether a replay is the one a match guid names.
pub fn replay_matches_guid(header: &[(String, HeaderValue)], guid: &str) -> (res: bool)
    ensures
        res == guid_matches(header@, guid@),
{
    let id = match header_string(header, "Id") {
        Some(t) => t,
        None => String::new(),
    };
    eq_ignore_ascii_case(id.as_str(), guid)
}

/// A player of the game as the header's player stats list them.
#[derive(Clone, Debug)]
pub struct HeaderPlayer {
    pub id: String,
    pub network_id: String,
    pub name: String,
    pub team: i32,
    pub slot: String,
    pub platform: String,
    pub is_bot: String,
    pub score: String,
}

/// The same player, whatever the slot.
pub open spec fn same_player(a: HeaderPlayer, b: HeaderPlayer) -> bool {
    &&& a.id@ == b.id@
    &&& a.network_id@ == b.network_id@
    &&& a.name@ == b.name@
    &&& a.team == b.team
    &&& a.platform@ == b.platform@
    &&& a.is_bot@ == b.is_bot@
    &&& a.score@ == b.score@
}

/// The slot name of the `count`-th player of a team: orange for team 1,
/// blue for every other team.
pub open spec fn slot_text(team: i32, count: nat) -> Seq<char> {
    if team == 1 {
        "orange_player_"@ + decimal_digits(count)
    } else {
        "blue_player_"@ + decimal_digits(count)
    }
}

/// How many of the first `k` players in `order` are on the same side
/// (orange, or not orange) as a player of `team`.
pub open spec fn side_count(players: Seq<HeaderPlayer>, order: Seq<usize>, team: i32, k: nat) -> nat
    decreases k,
{
    if k == 0 {
        0
    } else {
        side_count(players, order, team, (k - 1) as nat) + if (players[order[k - 1] as int].team == 1) == (
        team == 1) {
            1nat
        } else {
            0nat
        }
    }
}

proof fn lemma_side_count_side(players: Seq<HeaderPlayer>, order: Seq<usize>, t1: i32, t2: i32, k: nat)
    requires
        (t1 == 1) == (t2 == 1),
    ensures
        side_count(players, order, t1, k) == side_count(players, order, t2, k),
    decreases k,
{
    if k > 0 {
        lemma_side_count_side(players, order, t1, t2, (k - 1) as nat);
    }
}

/// Players are sorted by team, then by their name's sort text.
pub open spec fn player_keys(players: Seq<HeaderPlayer>, sort_names: Seq<Seq<char>>) -> Seq<KeyView> {
    Seq::new(players.len(), |i: int| (players[i].team, 0i32, sort_names[i], Seq::<char>::empty()))
}

/// `res` is `players` in `order`, each given the slot of its rank on its
/// side.
pub open spec fn slotted_in_order(res: Seq<HeaderPlayer>, players: Seq<HeaderPlayer>, order: Seq<usize>) -> bool {
    &&& res.len() == order.len()
    &&& forall|k: int|
        0 <= k < res.len() ==> same_player(#[trigger] res[k], players[order[k] as int]) && res[k].slot@
            == slot_text(res[k].team, side_count(players, order, res[k].team, (k + 1) as nat))
}

fn concat_text(head: &str, tail: String) -> (res: String)
    ensures
        res@ == head@ + tail@,
{
    let mut s = String::from_str(head);
    s.append(tail.as_str());
    s
}

fn copy_with_slot(p: &HeaderPlayer, slot: String) -> (res: HeaderPlayer)
    ensures
        same_player(res, *p),
        res.slot@ == slot@,
{
    HeaderPlayer {
        id: p.id.clone(),
        network_id: p.network_id.clone(),
        name: p.name.clone(),
        team: p.team,
        slot,
        platform: p.platform.clone(),
        is_bot: p.is_bot.clone(),
        score: p.score.clone(),
    }
}

/// Orders players stably by team, then by `sort_names` (one per player),
/// and names each one's slot: `blue_player_1`, `blue_player_2`, ... and
/// `orange_player_1`, ... in that order.
pub fn assign_player_slots(players: &[HeaderPlayer], sort_names: &[String]) -> (res: Vec<HeaderPlayer>)
    requires
        sort_names@.len() == players@.len(),
    ensures
        exists|order: Seq<usize>|
            is_stable_order(player_keys(players@, sort_names@.map_values(|t: String| t@)), order) && slotted_in_order(res@, players@, order),
{
    let n = players.len();
    let mut keys: Vec<RowSortKey> = Vec::new();
    let mut j: usize = 0;
    while j < n
        invariant
            n == players@.len(),
            sort_names@.len() == n,
            j <= n,
            keys@.len() == j,
            forall|k: int| 0 <= k < j ==> (#[trigger] keys@[k])@ == player_keys(players@, sort_names@.map_values(|t: String| t@))[k],
        decreases n - j,
    {
        let key = RowSortKey {
            first: players[j].team,
            second: 0,
            first_text: sort_names[j].clone(),
            second_text: String::new(),
        };
        assert(key@ =~= player_keys(players@, sort_names@.map_values(|t: String| t@))[j as int]);
        keys.push(key);
        j = j + 1;
    }
    let order = stable_order(keys.as_slice());
    assert(keys@.map_values(|k: RowSortKey| k@) =~= player_keys(players@, sort_names@.map_values(|t: String| t@)));
    let mut res: Vec<HeaderPlayer> = Vec::new();
    let mut blue: u64 = 0;
    let mut orange: u64 = 0;
    let mut k: usize = 0;
    while k < n
        invariant
            n == players@.len(),
            order@.len() == n,
            forall|q: int| 0 <= q < n ==> order@[q] < n,
            k <= n,
            blue == side_count(players@, order@, 0, k as nat),
            orange == side_count(players@, order@, 1, k as nat),
            blue <= k,
            orange <= k,
            res@.len() == k,
            forall|q: int|
                0 <= q < k ==> same_player(#[trigger] res@[q], players@[order@[q] as int]) && res@[q].slot@
                    == slot_text(res@[q].team, side_count(players@, order@, res@[q].team, (q + 1) as nat)),
        decreases n - k,
    {
        let p = &players[order[k]];
        let slot = if p.team == 1 {
            orange = orange + 1;
            concat_text("orange_player_", u64_text(orange))
        } else {
            blue = blue + 1;
            concat_text("blue_player_", u64_text(blue))
        };
        proof {
            lemma_side_count_side(players@, order@, p.team, if p.team == 1 { 1i32 } else { 0i32 }, (k + 1) as nat);
        }
        res.push(copy_with_slot(p, slot));
        k = k + 1;
    }
    assert(slotted_in_order(res@, players@, order@));
    res
}

/// The lowercase form of a text, as `str::to_lowercase` gives it (Unicode
/// lowercasing).
pub uninterp spec fn lowercase_of(s: Seq<char>) -> Seq<char>;

/// `str::to_lowercase`. Trusted: the result is `lowercase_of` of the
/// argument's text; nothing more is stated of Unicode lowercasing.
#[verifier::external_body]
fn to_lowercase(s: &str) -> (res: String)
    ensures
        res@ == lowercase_of(s@),
{
    s.to_lowercase()
}

/// The uppercase form of a text, as `str::to_uppercase` gives it (Unicode
/// uppercasing).
pub uninterp spec fn uppercase_of(s: Seq<char>) -> Seq<char>;

/// `str::to_uppercase`. Trusted: the result is `uppercase_of` of the
/// argument's text; nothing more is stated of Unicode uppercasing.
#[verifier::external_body]
fn to_uppercase(s: &str) -> (res: String)
    ensures
        res@ == uppercase_of(s@),
{
    s.to_uppercase()
}

/// The guid a line of a guid list names: the line trimmed and upper-cased.
pub open spec fn listed_guid(line: Seq<char>) -> Seq<char> {
    uppercase_of(trimmed_text(line))
}

/// The guids the first `n` lines of a guid list name, leaving out lines
/// that name none.
pub open spec fn listed_guids_upto(lines: Seq<String>, n: int) -> Seq<Seq<char>>
    decreases n,
{
    if n <= 0 {
        Seq::empty()
    } else if listed_guid(lines[n - 1]@).len() == 0 {
        listed_guids_upto(lines, n - 1)
    } else {
        listed_guids_upto(lines, n - 1).push(listed_guid(lines[n - 1]@))
    }
}

/// The guids a guid list names: each line trimmed and upper-cased, empty
/// lines left out.
pub fn listed_guids(lines: &[String]) -> (res: Vec<String>)
    ensures
        res@.map_values(|g: String| g@) == listed_guids_upto(lines@, lines@.len() as int),
{
    let mut out: Vec<String> = Vec::new();
    let mut i: usize = 0;
    while i < lines.len()
        invariant
            i <= lines@.len(),
            out@.map_values(|g: String| g@) == listed_guids_upto(lines@, i as int),
        decreases lines.len() - i,
    {
        let g = to_uppercase(trim(lines[i].as_str()));
        if g.unicode_len() > 0 {
            let ghost before = out@;
            out.push(g);
            assert(out@.map_values(|g: String| g@) =~= before.map_values(|g: String| g@).push(g@));
        }
        i += 1;
    }
    out
}

/// A replay's guid as guid lists are matched against it: its header `Id`,
/// upper-cased (empty when it has none).
pub open spec fn replay_guid_text(header: Seq<(String, HeaderValue)>) -> Seq<char> {
    uppercase_of(
        match scalar_text(header_scalar(header, "Id"@)) {
            Some(t) => t,
            None => Seq::empty(),
        },
    )
}

/// The replay's upper-cased guid when a guid list names it.
pub fn listed_replay_guid(guids: &[String], header: &[(String, HeaderValue)]) -> (res: Option<String>)
    ensures
        match res {
            Some(g) => g@ == replay_guid_text(header@) && exists|i: int| 0 <= i < guids@.len() && #[trigger] guids@[i]@ == g@,
            None => forall|i: int| 0 <= i < guids@.len() ==> #[trigger] guids@[i]@ != replay_guid_text(header@),
        },
{
    let id = match header_string(header, "Id") {
        Some(t) => t,
        None => String::new(),
    };
    let guid = to_uppercase(id.as_str());
    let mut i: usize = 0;
    while i < guids.len()
        invariant
            i <= guids@.len(),
            guid@ == replay_guid_text(header@),
            forall|k: int| 0 <= k < i ==> #[trigger] guids@[k]@ != guid@,
        decreases guids.len() - i,
    {
        if str_eq(guids[i].as_str(), guid.as_str()) {
            assert(guids@[i as int]@ == guid@);
            return Some(guid);
        }
        i += 1;
    }
    None
}

/// A header player's name: `Name`, else `PlayerName`.
pub open spec fn named_text(p: Seq<(String, HeaderScalar)>) -> Option<Seq<char>> {
    match scalar_text(scalar_named(p, "Name"@)) {
        Some(t) => Some(t),
        None => scalar_text(scalar_named(p, "PlayerName"@)),
    }
}

/// A header player's id: its online id when that is set (not empty and not
/// `0`), else `team:index:name`, with team 0 and name `player_index` for
/// what is missing.
pub open spec fn player_id_text(p: Seq<(String, HeaderScalar)>, index: nat) -> Seq<char> {
    let online = text_or_empty(p, "OnlineID"@);
    if online.len() > 0 && online != "0"@ {
        online
    } else {
        let name = match named_text(p) {
            Some(t) => t,
            None => "player_"@ + decimal_digits(index),
        };
        let team = match player_team_of(p) {
            Some(t) => t,
            None => 0,
        };
        signed_decimal(team as int) + ":"@ + decimal_digits(index) + ":"@ + name
    }
}

/// The id of the header player at `index`.
pub fn header_player_id(player: &[(String, HeaderScalar)], index: usize) -> (res: String)
    ensures
        res@ == player_id_text(player@, index as nat),
{
    let online = string_or_empty(prop_string(player, "OnlineID"));
    proof {
        reveal_strlit("0");
    }
    if online.unicode_len() > 0 && !str_eq(online.as_str(), "0") {
        return online;
    }
    let name = match prop_string(player, "Name") {
        Some(t) => t,
        None => match prop_string(player, "PlayerName") {
            Some(t) => t,
            None => concat_text("player_", u64_text(index as u64)),
        },
    };
    let team = match player_team(player) {
        Some(t) => t,
        None => 0,
    };
    let mut id = i32_text(team);
    id.append(":");
    id.append(u64_text(index as u64).as_str());
    id.append(":");
    id.append(name.as_str());
    id
}

/// The indexes of the first `n` header player entries whose team is 0 or 1.
pub open spec fn listed_indexes(players: Seq<Vec<(String, HeaderScalar)>>, n: nat) -> Seq<int>
    decreases n,
{
    if n == 0 {
        Seq::empty()
    } else {
        let prev = listed_indexes(players, (n - 1) as nat);
        if player_team_of(players[n - 1]@) matches Some(t) && 0 <= t <= 1 {
            prev.push(n - 1)
        } else {
            prev
        }
    }
}

/// `hp` is the player that header entry `p` at `index` describes, before
/// it has a slot.
pub open spec fn describes_player(hp: HeaderPlayer, p: Seq<(String, HeaderScalar)>, index: nat) -> bool {
    &&& hp.id@ == player_id_text(p, index)
    &&& hp.network_id@ == text_or_empty(p, "OnlineID"@)
    &&& hp.name@ == match named_text(p) {
        Some(t) => t,
        None => Seq::empty(),
    }
    &&& Some(hp.team) == player_team_of(p)
    &&& hp.slot@ == Seq::<char>::empty()
    &&& hp.platform@ == text_or_empty(p, "Platform"@)
    &&& hp.is_bot@ == match scalar_named(p, "bBot"@) {
        Some(HeaderScalar::Bool(b)) => if b {
            "true"@
        } else {
            "false"@
        },
        _ => Seq::empty(),
    }
    &&& hp.score@ == match int_named(p, "Score"@) {
        Some(v) => signed_decimal(v as int),
        None => Seq::empty(),
    }
}

/// `list` holds, in header order, the players of the header's `PlayerStats`
/// entries whose team is 0 or 1.
pub open spec fn lists_header_players(header: Seq<(String, HeaderValue)>, list: Seq<HeaderPlayer>) -> bool {
    match header_array_named(header, "PlayerStats"@) {
        Some(a) => {
            let idx = listed_indexes(a@, a@.len());
            &&& list.len() == idx.len()
            &&& forall|k: int|
                0 <= k < list.len() ==> describes_player(#[trigger] list[k], a@[idx[k]]@, idx[k] as nat)
        },
        None => list.len() == 0,
    }
}

fn describe_player(player: &[(String, HeaderScalar)], index: usize, team: i32) -> (res: HeaderPlayer)
    requires
        player_team_of(player@) == Some(team),
    ensures
        describes_player(res, player@, index as nat),
{
    let network_id = string_or_empty(prop_string(player, "OnlineID"));
    let name = match prop_string(player, "Name") {
        Some(t) => t,
        None => string_or_empty(prop_string(player, "PlayerName")),
    };
    let is_bot = match prop_bool(player, "bBot") {
        Some(b) => if b {
            String::from_str("true")
        } else {
            String::from_str("false")
        },
        None => String::new(),
    };
    let score = match prop_i32(player, "Score") {
        Some(v) => i32_text(v),
        None => String::new(),
    };
    HeaderPlayer {
        id: header_player_id(player, index),
        network_id,
        name,
        team,
        slot: String::new(),
        platform: string_or_empty(prop_string(player, "Platform")),
        is_bot,
        score,
    }
}

/// The players of the header's `PlayerStats` entries whose team is 0 or 1,
/// in header order, without slots.
pub fn header_player_list(header: &[(String, HeaderValue)]) -> (res: Vec<HeaderPlayer>)
    ensures
        lists_header_players(header@, res@),
{
    let mut res: Vec<HeaderPlayer> = Vec::new();
    match header_array(header, "PlayerStats") {
        Some(players) => {
            let mut i: usize = 0;
            while i < players.len()
                invariant
                    i <= players@.len(),
                    res@.len() == listed_indexes(players@, i as nat).len(),
                    forall|k: int|
                        0 <= k < res@.len() ==> describes_player(
                            #[trigger] res@[k],
                            players@[listed_indexes(players@, i as nat)[k]]@,
                            listed_indexes(players@, i as nat)[k] as nat,
                        ),
                decreases players@.len() - i,
            {
                let player = players[i].as_slice();
                match player_team(player) {
                    Some(team) => {
                        if 0 <= team && team <= 1 {
                            res.push(describe_player(player, i, team));
                        }
                    },
                    None => {},
                }
                i = i + 1;
            }
        },
        None => {},
    }
    res
}

/// `res` lists the header's players on team 0 or 1, sorted stably by team
/// and then by lowercased name, each named by its slot.
pub open spec fn pbp_player_list(header: Seq<(String, HeaderValue)>, res: Seq<HeaderPlayer>) -> bool {
    exists|list: Seq<HeaderPlayer>, order: Seq<usize>|
        lists_header_players(header, list) && is_stable_order(
            player_keys(list, list.map_values(|p: HeaderPlayer| lowercase_of(p.name@))),
            order,
        ) && slotted_in_order(res, list, order)
}

/// The game's players from the header: entries on team 0 or 1, sorted
/// stably by team and then by lowercased name, each named by its slot
/// (`blue_player_1`, ..., `orange_player_1`, ...).
pub fn pbp_players(header: &[(String, HeaderValue)]) -> (res: Vec<HeaderPlayer>)
    ensures
        pbp_player_list(header@, res@),
{
    let list = header_player_list(header);
    let mut sort_names: Vec<String> = Vec::new();
    let mut i: usize = 0;
    while i < list.len()
        invariant
            i <= list@.len(),
            sort_names@.len() == i,
            forall|k: int| 0 <= k < i ==> (#[trigger] sort_names@[k])@ == lowercase_of(list@[k].name@),
        decreases list@.len() - i,
    {
        sort_names.push(to_lowercase(list[i].name.as_str()));
        i = i + 1;
    }
    assert(sort_names@.map_values(|t: String| t@) =~= list@.map_values(|p: HeaderPlayer| lowercase_of(p.name@)));
    assign_player_slots(list.as_slice(), sort_names.as_slice())
}

/// The size of the larger team among the header's players.
pub fn header_actual_team_size(header: &[(String, HeaderValue)]) -> (res: Option<i32>)
    ensures
        exists|list: Seq<HeaderPlayer>|
            lists_header_players(header@, list) && res == larger_team_size(
                list.map_values(|p: HeaderPlayer| p.team),
            ),
{
    let list = header_player_list(header);
    let mut teams: Vec<i32> = Vec::new();
    let mut i: usize = 0;
    while i < list.len()
        invariant
            i <= list@.len(),
            teams@ =~= list@.take(i as int).map_values(|p: HeaderPlayer| p.team),
        decreases list@.len() - i,
    {
        teams.push(list[i].team);
        i = i + 1;
    }
    assert(list@.take(list@.len() as int) =~= list@);
    actual_team_size(teams.as_slice())
}

/// The game's team size: the larger team among the header's players, else
/// the header's `TeamSize`.
pub fn header_team_size(header: &[(String, HeaderValue)]) -> (res: Option<i32>)
    ensures
        exists|list: Seq<HeaderPlayer>|
            lists_header_players(header@, list) && res == match larger_team_size(
                list.map_values(|p: HeaderPlayer| p.team),
            ) {
                Some(size) => Some(size),
                None => scalar_int(header_scalar(header@, "TeamSize"@)),
            },
{
    match header_actual_team_size(header) {
        Some(size) => Some(size),
        None => header_i32(header, "TeamSize"),
    }
}

/// What the goal audit reads of a play-by-play row.
#[derive(Clone, Debug)]
pub struct AuditRow {
    pub player_1_name: String,
    /// The row carries an official goal credit.
    pub official_goal: bool,
    /// The row's `official_goal_count`, where it holds an integer.
    pub official_goal_count: Option<i32>,
}

/// The official goals a row credits to its first player.
pub open spec fn row_goals(row: AuditRow) -> int {
    if row.official_goal {
        match row.official_goal_count {
            Some(c) => c as int,
            None => 1,
        }
    } else {
        0
    }
}

/// The official goals the first `n` rows credit to `name`.
pub open spec fn goal_total(rows: Seq<AuditRow>, name: Seq<char>, n: nat) -> int
    decreases n,
{
    if n == 0 {
        0
    } else {
        goal_total(rows, name, (n - 1) as nat) + if rows[n - 1].player_1_name@ == name {
            row_goals(rows[n - 1])
        } else {
            0
        }
    }
}

/// A header player whose goal count differs from the play-by-play's, as
/// `(name, header goals, play-by-play goals)`; players without a name or a
/// goal count are not audited.
pub open spec fn audit_entry(rows: Seq<AuditRow>, player: Seq<(String, HeaderScalar)>) -> Option<
    (Seq<char>, i32, int),
> {
    let name = match named_text(player) {
        Some(t) => t,
        None => Seq::empty(),
    };
    if name.len() == 0 {
        None
    } else {
        match int_named(player, "Goals"@) {
            Some(expected) => if expected != goal_total(rows, name, rows.len()) {
                Some((name, expected, goal_total(rows, name, rows.len())))
            } else {
                None
            },
            None => None,
        }
    }
}

/// The mismatches of the first `n` header players.
pub open spec fn audit_entries(rows: Seq<AuditRow>, players: Seq<Vec<(String, HeaderScalar)>>, n: nat) -> Seq<
    (Seq<char>, i32, int),
>
    decreases n,
{
    if n == 0 {
        Seq::empty()
    } else {
        let prev = audit_entries(rows, players, (n - 1) as nat);
        match audit_entry(rows, players[n - 1]@) {
            Some(e) => prev.push(e),
            None => prev,
        }
    }
}

/// The goal mismatches between the header's player stats and the
/// play-by-play; none are looked for when a replay records official goal
/// credits, which are then authoritative.
pub open spec fn goal_mismatches(rows: Seq<AuditRow>, header: Seq<(String, HeaderValue)>, official_goals_recorded: bool) -> Seq<
    (Seq<char>, i32, int),
> {
    if official_goals_recorded {
        Seq::empty()
    } else {
        match header_array_named(header, "PlayerStats"@) {
            Some(a) => audit_entries(rows, a@, a@.len()),
            None => Seq::empty(),
        }
    }
}

fn player_goal_total(rows: &[AuditRow], name: &str) -> (res: i32)
    requires
        forall|nm: Seq<char>, n: nat| n <= rows@.len() ==> i32::MIN <= #[trigger] goal_total(rows@, nm, n) <= i32::MAX,
    ensures
        res == goal_total(rows@, name@, rows@.len()),
{
    let mut total: i32 = 0;
    let mut i: usize = 0;
    while i < rows.len()
        invariant
            i <= rows@.len(),
            total == goal_total(rows@, name@, i as nat),
            forall|nm: Seq<char>, n: nat| n <= rows@.len() ==> i32::MIN <= #[trigger] goal_total(rows@, nm, n) <= i32::MAX,
        decreases rows@.len() - i,
    {
        let row = &rows[i];
        assert(goal_total(rows@, name@, (i + 1) as nat) <= i32::MAX);
        assert(goal_total(rows@, name@, (i + 1) as nat) >= i32::MIN);
        if row.official_goal && str_eq(row.player_1_name.as_str(), name) {
            let count: i32 = match row.official_goal_count {
                Some(c) => c,
                None => 1,
            };
            total = total + count;
        }
        i = i + 1;
    }
    total
}

/// The players whose header goals differ from the play-by-play's official
/// goal credits, as `(name, header goals, play-by-play goals)`.
pub fn audit_goal_mismatches(
    rows: &[AuditRow],
    header: &[(String, HeaderValue)],
    official_goals_recorded: bool,
) -> (res: Vec<(String, i32, i32)>)
    requires
        forall|nm: Seq<char>, n: nat| n <= rows@.len() ==> i32::MIN <= #[trigger] goal_total(rows@, nm, n) <= i32::MAX,
    ensures
        res@.map_values(|e: (String, i32, i32)| (e.0@, e.1, e.2 as int)) == goal_mismatches(
            rows@,
            header@,
            official_goals_recorded,
        ),
{
    let mut res: Vec<(String, i32, i32)> = Vec::new();
    if official_goals_recorded {
        return res;
    }
    match header_array(header, "PlayerStats") {
        Some(players) => {
            let mut i: usize = 0;
            while i < players.len()
                invariant
                    i <= players@.len(),
                    res@.map_values(|e: (String, i32, i32)| (e.0@, e.1, e.2 as int)) == audit_entries(
                        rows@,
                        players@,
                        i as nat,
                    ),
                    forall|nm: Seq<char>, n: nat|
                        n <= rows@.len() ==> i32::MIN <= #[trigger] goal_total(rows@, nm, n) <= i32::MAX,
                decreases players@.len() - i,
            {
                let player = players[i].as_slice();
                let name = match prop_string(player, "Name") {
                    Some(t) => t,
                    None => string_or_empty(prop_string(player, "PlayerName")),
                };
                if name.unicode_len() > 0 {
                    match prop_i32(player, "Goals") {
                        Some(expected) => {
                            let goals = player_goal_total(rows, name.as_str());
                            if expected != goals {
                                res.push((name, expected, goals));
                            }
                        },
                        None => {},
                    }
                }
                assert(res@.map_values(|e: (String, i32, i32)| (e.0@, e.1, e.2 as int)) =~= audit_entries(
                    rows@,
                    players@,
                    (i + 1) as nat,
                ));
                i = i + 1;
            }
        },
        None => {},
    }
    res
}

} // verus!
