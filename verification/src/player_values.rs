//! The player columns that every play-by-play row carries, and the
//! columns that name an event's players.
use vstd::prelude::*;
use crate::events::{team_name, team_text};
use crate::header::{decimal_digits, u64_text};
use crate::text::{str_eq, parse_i32, parsed_i32};
use crate::official::OfficialStatEvent;

verus! {

/// A player's camera settings, each as the text its number prints as.
#[derive(Clone, Debug)]
pub struct CameraTexts {
    pub fov: String,
    pub height: String,
    pub angle: String,
    pub distance: String,
    pub stiffness: String,
    pub swivel: String,
    pub transition: Option<String>,
}

/// A player as the play-by-play rows describe it.
#[derive(Clone, Debug)]
pub struct PlayerInfo {
    pub id: String,
    pub actor_id: String,
    pub network_id: String,
    pub name: String,
    pub team: i32,
    pub slot: String,
    pub platform: String,
    pub is_bot: String,
    pub score: String,
    pub title_id: String,
    pub first_frame_in_game: String,
    pub time_in_game: String,
    pub car_id: String,
    pub car_name: String,
    pub decal_id: String,
    pub wheels_id: String,
    pub boost_id: String,
    pub antenna_id: String,
    pub topper_id: String,
    pub engine_audio_id: String,
    pub trail_id: String,
    pub goal_explosion_id: String,
    pub primary_paint_finish_id: String,
    pub accent_paint_finish_id: String,
    pub camera: Option<CameraTexts>,
}

/// The views of a list of `(column, value)` pairs.
pub open spec fn pair_texts(v: Seq<(String, String)>) -> Seq<(Seq<char>, Seq<char>)> {
    v.map_values(|p: (String, String)| (p.0@, p.1@))
}

/// A player's camera columns: each setting under `slot_camera_*`, the
/// transition empty when unknown.
pub open spec fn camera_pairs(p: PlayerInfo) -> Seq<(Seq<char>, Seq<char>)> {
    match p.camera {
        Some(c) => seq![
            (p.slot@ + "_camera_fov"@, c.fov@),
            (p.slot@ + "_camera_height"@, c.height@),
            (p.slot@ + "_camera_angle"@, c.angle@),
            (p.slot@ + "_camera_distance"@, c.distance@),
            (p.slot@ + "_camera_stiffness"@, c.stiffness@),
            (p.slot@ + "_camera_swivel"@, c.swivel@),
            (p.slot@ + "_camera_transition"@, match c.transition {
                Some(t) => t@,
                None => Seq::empty(),
            }),
        ],
        None => Seq::empty(),
    }
}

/// A player's static columns: its identity, loadout and, where known,
/// camera settings, each under the player's slot.
pub open spec fn player_static_pairs(p: PlayerInfo) -> Seq<(Seq<char>, Seq<char>)> {
    seq![
        (p.slot@ + "_id"@, p.id@),
        (p.slot@ + "_actor_id"@, p.actor_id@),
        (p.slot@ + "_network_id"@, p.network_id@),
        (p.slot@ + "_name"@, p.name@),
        (p.slot@ + "_platform"@, p.platform@),
        (p.slot@ + "_is_bot"@, p.is_bot@),
        (p.slot@ + "_score"@, p.score@),
        (p.slot@ + "_time_in_game"@, p.time_in_game@),
        (p.slot@ + "_car_id"@, p.car_id@),
        (p.slot@ + "_car_name"@, p.car_name@),
        (p.slot@ + "_decal_id"@, p.decal_id@),
        (p.slot@ + "_wheels_id"@, p.wheels_id@),
        (p.slot@ + "_boost_id"@, p.boost_id@),
        (p.slot@ + "_antenna_id"@, p.antenna_id@),
        (p.slot@ + "_topper_id"@, p.topper_id@),
        (p.slot@ + "_engine_audio_id"@, p.engine_audio_id@),
        (p.slot@ + "_trail_id"@, p.trail_id@),
        (p.slot@ + "_goal_explosion_id"@, p.goal_explosion_id@),
        (p.slot@ + "_primary_paint_finish_id"@, p.primary_paint_finish_id@),
        (p.slot@ + "_accent_paint_finish_id"@, p.accent_paint_finish_id@),
    ] + camera_pairs(p)
}

/// The static columns of the first `n` players, in order.
pub open spec fn static_pairs(players: Seq<PlayerInfo>, n: nat) -> Seq<(Seq<char>, Seq<char>)>
    decreases n,
{
    if n == 0 {
        Seq::empty()
    } else {
        static_pairs(players, (n - 1) as nat) + player_static_pairs(players[n - 1])
    }
}

fn push_pair(values: &mut Vec<(String, String)>, slot: &str, suffix: &str, value: &String)
    ensures
        pair_texts(final(values)@) == pair_texts(old(values)@).push((slot@ + suffix@, value@)),
{
    let mut column = String::from_str(slot);
    column.append(suffix);
    let ghost before = values@;
    values.push((column, value.clone()));
    assert(pair_texts(values@) =~= pair_texts(before).push((slot@ + suffix@, value@)));
}

/// The static player columns of every play-by-play row: for each player in
/// order, its identity and loadout columns, then its camera columns where
/// its camera settings are known.
pub fn pbp_player_static_values(players: &[PlayerInfo]) -> (res: Vec<(String, String)>)
    ensures
        pair_texts(res@) == static_pairs(players@, players@.len()),
{
    let mut values: Vec<(String, String)> = Vec::new();
    let mut i: usize = 0;
    while i < players.len()
        invariant
            i <= players@.len(),
            pair_texts(values@) == static_pairs(players@, i as nat),
        decreases players.len() - i,
    {
        let player = &players[i];
        let slot = player.slot.as_str();
        let ghost before = pair_texts(values@);
        push_pair(&mut values, slot, "_id", &player.id);
        push_pair(&mut values, slot, "_actor_id", &player.actor_id);
        push_pair(&mut values, slot, "_network_id", &player.network_id);
        push_pair(&mut values, slot, "_name", &player.name);
        push_pair(&mut values, slot, "_platform", &player.platform);
        push_pair(&mut values, slot, "_is_bot", &player.is_bot);
        push_pair(&mut values, slot, "_score", &player.score);
        push_pair(&mut values, slot, "_time_in_game", &player.time_in_game);
        push_pair(&mut values, slot, "_car_id", &player.car_id);
        push_pair(&mut values, slot, "_car_name", &player.car_name);
        push_pair(&mut values, slot, "_decal_id", &player.decal_id);
        push_pair(&mut values, slot, "_wheels_id", &player.wheels_id);
        push_pair(&mut values, slot, "_boost_id", &player.boost_id);
        push_pair(&mut values, slot, "_antenna_id", &player.antenna_id);
        push_pair(&mut values, slot, "_topper_id", &player.topper_id);
        push_pair(&mut values, slot, "_engine_audio_id", &player.engine_audio_id);
        push_pair(&mut values, slot, "_trail_id", &player.trail_id);
        push_pair(&mut values, slot, "_goal_explosion_id", &player.goal_explosion_id);
        push_pair(&mut values, slot, "_primary_paint_finish_id", &player.primary_paint_finish_id);
        push_pair(&mut values, slot, "_accent_paint_finish_id", &player.accent_paint_finish_id);
        let ghost fixed = pair_texts(values@);
        assert(fixed =~= before + player_static_pairs(*player).subrange(0, 20));
        match &player.camera {
            Some(c) => {
                push_pair(&mut values, slot, "_camera_fov", &c.fov);
                push_pair(&mut values, slot, "_camera_height", &c.height);
                push_pair(&mut values, slot, "_camera_angle", &c.angle);
                push_pair(&mut values, slot, "_camera_distance", &c.distance);
                push_pair(&mut values, slot, "_camera_stiffness", &c.stiffness);
                push_pair(&mut values, slot, "_camera_swivel", &c.swivel);
                let transition = match &c.transition {
                    Some(t) => t.clone(),
                    None => String::new(),
                };
                push_pair(&mut values, slot, "_camera_transition", &transition);
            },
            None => {},
        }
        assert(pair_texts(values@) =~= before + player_static_pairs(*player));
        i += 1;
    }
    values
}

/// The position of the first player named `name`.
pub open spec fn first_player_named(players: Seq<PlayerInfo>, name: Seq<char>) -> Option<int> {
    if exists|k: int| 0 <= k < players.len() && #[trigger] players[k].name@ == name {
        Some(choose|k: int| 0 <= k < players.len() && #[trigger] players[k].name@ == name && forall|j: int|
            0 <= j < k ==> players[j].name@ != name)
    } else {
        None
    }
}

/// The columns that name an event's `number`-th player: its name, and where
/// a player of that name exists, the first such player's id, actor id and
/// team.
pub open spec fn event_player_pairs(players: Seq<PlayerInfo>, number: nat, name: Seq<char>) -> Seq<
    (Seq<char>, Seq<char>),
> {
    let head = "event_player_"@ + decimal_digits(number);
    seq![(head + "_name"@, name)] + match first_player_named(players, name) {
        Some(k) => seq![
            (head + "_id"@, players[k].id@),
            (head + "_actor_id"@, players[k].actor_id@),
            (head + "_team"@, team_text(players[k].team)),
        ],
        None => Seq::empty(),
    }
}

fn find_player(players: &[PlayerInfo], name: &str) -> (res: Option<usize>)
    ensures
        match res {
            Some(k) => k < players@.len() && first_player_named(players@, name@) == Some(k as int),
            None => first_player_named(players@, name@) is None,
        },
{
    let mut k: usize = 0;
    while k < players.len()
        invariant
            k <= players@.len(),
            forall|j: int| 0 <= j < k ==> #[trigger] players@[j].name@ != name@,
        decreases players.len() - k,
    {
        if str_eq(players[k].name.as_str(), name) {
            let ghost w = choose|w: int|
                0 <= w < players@.len() && #[trigger] players@[w].name@ == name@ && forall|j: int|
                    0 <= j < w ==> players@[j].name@ != name@;
            assert(players@[k as int].name@ == name@);
            assert(0 <= w < players@.len() && players@[w].name@ == name@ && forall|j: int|
                0 <= j < w ==> players@[j].name@ != name@);
            proof {
                if w < k {
                    assert(players@[w].name@ != name@);
                }
                if k < w {
                    assert(players@[k as int].name@ != name@);
                }
            }
            return Some(k);
        }
        k += 1;
    }
    None
}

/// The columns that name an event's `number`-th player: its name, and the
/// id, actor id and team of the first player with that name.
pub fn event_player_values(players: &[PlayerInfo], number: u64, player_name: &str) -> (res: Vec<(String, String)>)
    ensures
        pair_texts(res@) == event_player_pairs(players@, number as nat, player_name@),
{
    let mut head = String::from_str("event_player_");
    let digits = u64_text(number);
    head.append(digits.as_str());
    let mut values: Vec<(String, String)> = Vec::new();
    let name = String::from_str(player_name);
    push_pair(&mut values, head.as_str(), "_name", &name);
    match find_player(players, player_name) {
        Some(k) => {
            let team = String::from_str(team_name(players[k].team));
            push_pair(&mut values, head.as_str(), "_id", &players[k].id);
            push_pair(&mut values, head.as_str(), "_actor_id", &players[k].actor_id);
            push_pair(&mut values, head.as_str(), "_team", &team);
        },
        None => {},
    }
    assert(pair_texts(values@) =~= event_player_pairs(players@, number as nat, player_name@));
    values
}

/// The position of the first player whose actor id text reads as `actor`.
pub open spec fn first_player_with_actor(players: Seq<PlayerInfo>, actor: i32) -> Option<int> {
    if exists|k: int| 0 <= k < players.len() && #[trigger] parsed_i32(players[k].actor_id@) == Some(actor) {
        Some(choose|k: int|
            0 <= k < players.len() && #[trigger] parsed_i32(players[k].actor_id@) == Some(actor) && forall|j: int|
                0 <= j < k ==> parsed_i32(players[j].actor_id@) != Some(actor))
    } else {
        None
    }
}

/// The player an official stat credits: the first player whose actor id
/// is the stat's player replication actor, else the name the stat carries.
pub open spec fn credited_name(stat: OfficialStatEvent, players: Seq<PlayerInfo>) -> Seq<char> {
    match stat.pri_actor_id {
        Some(a) => match first_player_with_actor(players, a) {
            Some(k) => players[k].name@,
            None => stat.player_name@,
        },
        None => stat.player_name@,
    }
}

/// The name of the player an official stat credits.
pub fn official_stat_player_name(stat: &OfficialStatEvent, players: &[PlayerInfo]) -> (res: String)
    ensures
        res@ == credited_name(*stat, players@),
{
    match stat.pri_actor_id {
        Some(actor) => {
            let mut k: usize = 0;
            while k < players.len()
                invariant
                    k <= players@.len(),
                    stat.pri_actor_id == Some(actor),
                    forall|j: int| 0 <= j < k ==> #[trigger] parsed_i32(players@[j].actor_id@) != Some(actor),
                decreases players.len() - k,
            {
                if parse_i32(players[k].actor_id.as_str()) == Some(actor) {
                    proof {
                        assert(0 <= k < players@.len() && parsed_i32(players@[k as int].actor_id@) == Some(actor)
                            && forall|j: int| 0 <= j < k ==> parsed_i32(players@[j].actor_id@) != Some(actor));
                        let w = choose|w: int|
                            0 <= w < players@.len() && #[trigger] parsed_i32(players@[w].actor_id@) == Some(actor)
                                && forall|j: int| 0 <= j < w ==> parsed_i32(players@[j].actor_id@) != Some(actor);
                        assert(parsed_i32(players@[k as int].actor_id@) == Some(actor));
                        if w < k {
                            assert(parsed_i32(players@[w].actor_id@) != Some(actor));
                        }
                        if k < w {
                            assert(parsed_i32(players@[k as int].actor_id@) != Some(actor));
                        }
                    }
                    return players[k].name.clone();
                }
                k += 1;
            }
            stat.player_name.clone()
        },
        None => stat.player_name.clone(),
    }
}

/// The online platform a player's unique id comes from.
#[derive(Clone, Copy, Debug, PartialEq, Eq, Structural)]
pub enum Platform {
    PlayStation,
    PsyNet,
    SplitScreen,
    Steam,
    Switch,
    Xbox,
    QQ,
    Epic,
}

/// The name a platform's network ids are prefixed with.
pub open spec fn platform_text(p: Platform) -> Seq<char> {
    match p {
        Platform::PlayStation => "playstation"@,
        Platform::PsyNet => "psynet"@,
        Platform::SplitScreen => "splitscreen"@,
        Platform::Steam => "steam"@,
        Platform::Switch => "switch"@,
        Platform::Xbox => "xbox"@,
        Platform::QQ => "qq"@,
        Platform::Epic => "epic"@,
    }
}

/// The name a platform's network ids are prefixed with.
pub fn platform_name(p: Platform) -> (res: &'static str)
    ensures
        res@ == platform_text(p),
{
    match p {
        Platform::PlayStation => "playstation",
        Platform::PsyNet => "psynet",
        Platform::SplitScreen => "splitscreen",
        Platform::Steam => "steam",
        Platform::Switch => "switch",
        Platform::Xbox => "xbox",
        Platform::QQ => "qq",
        Platform::Epic => "epic",
    }
}

/// A player's network id: its platform's name, a colon, and its id on that
/// platform.
pub fn network_id(platform: Platform, online_id: &str) -> (res: String)
    ensures
        res@ == platform_text(platform) + ":"@ + online_id@,
{
    let mut s = String::from_str(platform_name(platform));
    s.append(":");
    s.append(online_id);
    s
}

} // verus!
