//! The walk over a replay's network stream that builds its context: the
//! actor bookkeeping (names, teams, cars and components), who joins and
//! leaves the game, the server, the playlist, the clock and the last team
//! to hit the ball. The caller reads each attribute update of the stream
//! and hands it over as a plain value, tagged with its frame.
use vstd::prelude::*;
use crate::events::{playlist_name, playlist_text};
use crate::presence::PresenceEvent;
use crate::roster::{
    header_team, inferred_team, lowest_qualifying, opt_view, owner_name, presence_change, qualifies, team_inferable, Roster,
};
use crate::components::{activity_of, air_slot_of, component_activity, air_activate_slot, is_ball_object, AirActivateSlot, ComponentActivity};
use crate::text::{has_infix, str_eq};
use crate::header::{i32_text, signed_decimal};
use crate::row_order::{is_stable_order, law_stable_order_unique, KeyView};
use std::collections::{HashMap, HashSet};
use crate::official::{
    dedupe_official_stats, first_credits, official_key, flush_pending_official_stats, flushed_upto, kept_pending_upto,
    known_name, record_official_stat, LatestMatchStats,
    OfficialStatEvent, PendingOfficialStatEvent, StatKind,
};

verus! {

broadcast use vstd::std_specs::hash::group_hash_axioms;

/// An attribute update of the network stream that the context reads.
#[derive(Clone, Debug)]
pub enum ActorUpdate {
    /// A player replication actor's name.
    PlayerName { pri: i32, name: String },
    /// A player replication actor's team actor, set or cleared.
    Team { pri: i32, team_actor: i32, active: bool },
    /// A car's player replication actor.
    CarOwner { car: i32, pri: i32 },
    /// A car component's car, set or cleared.
    ComponentVehicle { component: i32, car: i32, active: bool },
    /// The server's name.
    ServerName(String),
    /// The game server's id, as text.
    GameServerId(String),
    /// The game server's id, as a number (held as its decimal text).
    GameServerNumber(i32),
    /// The playlist number.
    Playlist(i32),
    /// The seconds left on the clock.
    SecondsRemaining(i32),
    /// The team that last hit the ball.
    HitTeam(i32),
    /// A player replication actor's match-stat counter.
    MatchStat { pri: i32, kind: StatKind, value: i32 },
    /// A new actor and the name of its object, when the object table names
    /// it (an unnamed object counts as the empty name).
    NewActor { actor: i32, object: Option<String> },
    /// A ball's game event, set or cleared.
    BallGameEvent { ball: i32, active: bool },
    /// An actor's rigid-body state changed (its values stay with the
    /// caller); a ball's changes no player's controls.
    CarState { car: i32 },
    /// A boost component's amount.
    BoostAmount { component: i32, amount: u8 },
    /// A boost component's amount and pickup count.
    ReplicatedBoost { component: i32, amount: u8, grant_count: u8 },
    /// A car's throttle.
    Throttle { car: i32, value: i32 },
    /// A car's steering.
    Steer { car: i32, value: i32 },
    /// A car's handbrake.
    Handbrake { car: i32, on: bool },
    /// A car component's activity byte.
    ComponentActive { component: i32, value: u8 },
    /// A dodge component's torque.
    DodgeTorque { component: i32 },
    /// A car component's air-activate count.
    AirActivateCount { component: i32, count: i32 },
    /// A car's dodge refresh counter.
    DodgesRefreshed { car: i32, count: i32 },
    /// A team's custom name.
    TeamName { team_actor: i32, name: String },
    /// A demolition: the attacker's player replication actor and car, and
    /// the victim's car, as far as the update gives them.
    Demolish { attacker_pri: Option<i32>, attacker_car: Option<i32>, victim_car: Option<i32> },
}

/// A player's latest controls and component flags.
#[derive(Clone, Copy, Debug)]
pub struct Controls {
    pub boost: Option<u8>,
    pub boost_updated_frame: Option<i32>,
    pub boost_active: bool,
    pub boost_collect: Option<u8>,
    pub throttle: Option<i32>,
    pub steer: Option<i32>,
    pub handbrake: bool,
    pub dodge_active: bool,
    pub jump_active: bool,
    pub double_jump_active: bool,
    pub jumped: bool,
    pub flipped: bool,
    pub jump_air_activate_count: Option<i32>,
    pub double_jump_air_activate_count: Option<i32>,
    pub dodge_air_activate_count: Option<i32>,
    pub dodges_refreshed_counter: Option<i32>,
    pub flip_available: bool,
}

/// Controls before any update.
pub open spec fn no_controls() -> Controls {
    Controls {
        boost: None,
        boost_updated_frame: None,
        boost_active: false,
        boost_collect: None,
        throttle: None,
        steer: None,
        handbrake: false,
        dodge_active: false,
        jump_active: false,
        double_jump_active: false,
        jumped: false,
        flipped: false,
        jump_air_activate_count: None,
        double_jump_air_activate_count: None,
        dodge_air_activate_count: None,
        dodges_refreshed_counter: None,
        flip_available: false,
    }
}

fn new_controls() -> (res: Controls)
    ensures
        res == no_controls(),
{
    Controls {
        boost: None,
        boost_updated_frame: None,
        boost_active: false,
        boost_collect: None,
        throttle: None,
        steer: None,
        handbrake: false,
        dodge_active: false,
        jump_active: false,
        double_jump_active: false,
        jumped: false,
        flipped: false,
        jump_air_activate_count: None,
        double_jump_air_activate_count: None,
        dodge_air_activate_count: None,
        dodges_refreshed_counter: None,
        flip_available: false,
    }
}

/// The position of the last header player named `name` among the first `n`.
pub open spec fn player_index(players: Seq<(String, i32)>, name: Seq<char>, n: int) -> Option<int>
    decreases n,
{
    if n <= 0 {
        None
    } else if players[n - 1].0@ == name {
        Some(n - 1)
    } else {
        player_index(players, name, n - 1)
    }
}

/// The flags a component activity update leaves.
pub open spec fn with_activity(s: Controls, a: ComponentActivity) -> Controls {
    let s1 = Controls { boost_active: a.boost_active, ..s };
    let s2 = match a.jump {
        Some(v) => Controls { jump_active: v, jumped: v, ..s1 },
        None => s1,
    };
    let s3 = match a.double_jump {
        Some(v) => Controls { double_jump_active: v, ..s2 },
        None => s2,
    };
    match a.dodge {
        Some(v) => Controls { dodge_active: v, flipped: v, ..s3 },
        None => s3,
    }
}

/// The counters an air-activate count update leaves.
pub open spec fn with_air_count(s: Controls, slot: AirActivateSlot, count: i32) -> Controls {
    match slot {
        AirActivateSlot::Dodge => Controls { dodge_air_activate_count: Some(count), flip_available: count == 0, ..s },
        AirActivateSlot::DoubleJump => Controls { double_jump_air_activate_count: Some(count), ..s },
        AirActivateSlot::Jump => Controls { jump_air_activate_count: Some(count), ..s },
        AirActivateSlot::Other => s,
    }
}

/// How a control update changes a player's controls (made fresh when the
/// player has none).
pub open spec fn control_change(s: Controls, u: ActorUpdate, frame: i32, object: Seq<char>) -> Controls {
    match u {
        ActorUpdate::BoostAmount { amount, .. } => Controls { boost: Some(amount), boost_updated_frame: Some(frame), ..s },
        ActorUpdate::ReplicatedBoost { amount, grant_count, .. } => Controls {
            boost: Some(amount),
            boost_updated_frame: Some(frame),
            boost_collect: Some(grant_count),
            ..s
        },
        ActorUpdate::Throttle { value, .. } => Controls { throttle: Some(value), ..s },
        ActorUpdate::Steer { value, .. } => Controls { steer: Some(value), ..s },
        ActorUpdate::Handbrake { on, .. } => Controls { handbrake: on, ..s },
        ActorUpdate::ComponentActive { value, .. } => with_activity(s, activity_of(object, value != 0)),
        ActorUpdate::DodgeTorque { .. } => Controls { dodge_active: true, flipped: true, ..s },
        ActorUpdate::AirActivateCount { count, .. } => with_air_count(s, air_slot_of(object), count),
        ActorUpdate::DodgesRefreshed { count, .. } => Controls { dodges_refreshed_counter: Some(count), ..s },
        _ => s,
    }
}

/// The actor a control update names, and whether it is a component (else
/// a car).
pub open spec fn control_target(u: ActorUpdate) -> Option<(i32, bool)> {
    match u {
        ActorUpdate::CarState { car } => Some((car, false)),
        ActorUpdate::BoostAmount { component, .. } => Some((component, true)),
        ActorUpdate::ReplicatedBoost { component, .. } => Some((component, true)),
        ActorUpdate::Throttle { car, .. } => Some((car, false)),
        ActorUpdate::Steer { car, .. } => Some((car, false)),
        ActorUpdate::Handbrake { car, .. } => Some((car, false)),
        ActorUpdate::ComponentActive { component, .. } => Some((component, true)),
        ActorUpdate::DodgeTorque { component } => Some((component, true)),
        ActorUpdate::AirActivateCount { component, .. } => Some((component, true)),
        ActorUpdate::DodgesRefreshed { car, .. } => Some((car, false)),
        _ => None,
    }
}

/// What the context holds, as mathematical values.
pub struct ContextView {
    pub pri_name: Map<i32, String>,
    pub pri_team_actor: Map<i32, i32>,
    pub team_actor_number: Map<i32, i32>,
    pub car_pri: Map<i32, i32>,
    pub car_player_name: Map<i32, Seq<char>>,
    pub component_vehicle: Map<i32, i32>,
    pub active_players: Set<Seq<char>>,
    pub presence: Seq<(i32, Seq<char>, Seq<char>)>,
    pub server_name: Seq<char>,
    pub game_server_id: Seq<char>,
    pub playlist: Seq<char>,
    pub seconds_remaining: Option<i32>,
    pub hit_team: Option<i32>,
    pub official: Seq<OfficialStatEvent>,
    pub pending: Seq<PendingOfficialStatEvent>,
    pub shots: Map<i32, i32>,
    pub goals: Map<i32, i32>,
    pub assists: Map<i32, i32>,
    pub saves: Map<i32, i32>,
    pub object_names: Map<i32, Seq<char>>,
    pub ball_actors: Set<i32>,
    pub controls: Seq<Option<Controls>>,
    pub demolitions: Seq<(Seq<char>, Seq<char>, i32)>,
    pub blue_team_name: Seq<char>,
    pub orange_team_name: Seq<char>,
}

/// Player replication actor `pri` plays for `team_actor` and has a name
/// whose header team is known.
pub open spec fn qualifies_in(c: ContextView, players: Seq<(String, i32)>, team_actor: i32, pri: i32) -> bool {
    c.pri_team_actor.contains_key(pri) && c.pri_team_actor[pri] == team_actor && c.pri_name.contains_key(pri)
        && header_team(players, c.pri_name[pri]@, players.len()) is Some
}

/// `pri` is the lowest player replication actor that qualifies.
pub open spec fn lowest_in(c: ContextView, players: Seq<(String, i32)>, team_actor: i32, pri: i32) -> bool {
    qualifies_in(c, players, team_actor, pri) && forall|q: i32| #[trigger] qualifies_in(c, players, team_actor, q) ==> pri <= q
}

/// The team number of a team actor: the one it learnt, else the header team
/// of the lowest player replication actor playing for it whose name has
/// one.
pub open spec fn team_of_actor(c: ContextView, players: Seq<(String, i32)>, team_actor: i32) -> Option<i32> {
    if c.team_actor_number.contains_key(team_actor) {
        Some(c.team_actor_number[team_actor])
    } else if exists|q: i32| #[trigger] qualifies_in(c, players, team_actor, q) {
        let p = choose|p: i32| lowest_in(c, players, team_actor, p);
        header_team(players, c.pri_name[p]@, players.len())
    } else {
        None
    }
}

proof fn lemma_team_of_actor(r: Roster, c: ContextView, players: Seq<(String, i32)>, team_actor: i32)
    requires
        header_teams_of(r, players),
        c.pri_team_actor == r.pri_team_actor@,
        c.pri_name == r.pri_name@,
        c.team_actor_number == r.team_actor_number@,
        !r.team_actor_number@.contains_key(team_actor),
        inferred_team(r, team_actor) is Some ==> exists|p: i32| lowest_qualifying(r, team_actor, p),
    ensures
        inferred_team(r, team_actor) == team_of_actor(c, players, team_actor),
{
    assert forall|q: i32| qualifies(r, team_actor, q) <==> qualifies_in(c, players, team_actor, q) by {
        if r.pri_name@.contains_key(q) {
            assert(r.player_team@.contains_key(r.pri_name@[q]@) <==> header_team(players, r.pri_name@[q]@, players.len()) is Some);
        }
    }
    if team_inferable(r, team_actor) {
        let w = choose|pri: i32|
            #![trigger r.pri_team_actor@[pri]]
            r.pri_team_actor@.contains_key(pri) && r.pri_team_actor@[pri] == team_actor && r.pri_name@.contains_key(pri)
                && r.player_team@.contains_key(r.pri_name@[pri]@);
        assert(qualifies(r, team_actor, w));
        assert(qualifies_in(c, players, team_actor, w));
        assert(inferred_team(r, team_actor) is Some);
        let p1 = choose|p: i32| lowest_qualifying(r, team_actor, p);
        assert(lowest_qualifying(r, team_actor, p1));
        assert forall|q: i32| #[trigger] qualifies_in(c, players, team_actor, q) implies p1 <= q by {
            assert(qualifies(r, team_actor, q));
        }
        assert(lowest_in(c, players, team_actor, p1));
        let p2 = choose|p: i32| lowest_in(c, players, team_actor, p);
        assert(lowest_in(c, players, team_actor, p2));
        assert(qualifies(r, team_actor, p2));
        assert(p1 <= p2 && p2 <= p1);
        assert(r.player_team@.contains_key(r.pri_name@[p1]@));
    } else {
        assert forall|q: i32| !qualifies_in(c, players, team_actor, q) by {
            if qualifies_in(c, players, team_actor, q) {
                assert(qualifies(r, team_actor, q));
                assert(r.pri_team_actor@[q] == team_actor);
            }
        }
    }
}

/// The attacker of a demolition: by its player replication actor, else
/// through its car.
pub open spec fn demo_attacker(c: ContextView, attacker_pri: Option<i32>, attacker_car: Option<i32>) -> Option<
    Seq<char>,
> {
    match attacker_pri {
        Some(p) if c.pri_name.contains_key(p) => Some(c.pri_name[p]@),
        _ => match attacker_car {
            Some(car) => owner_name(c.car_pri, c.pri_name, car),
            None => None,
        },
    }
}

/// The victim of a demolition: through its car's player replication actor,
/// else by the name its car last had.
pub open spec fn demo_victim(c: ContextView, victim_car: Option<i32>) -> Option<Seq<char>> {
    match victim_car {
        Some(car) => match owner_name(c.car_pri, c.pri_name, car) {
            Some(n) => Some(n),
            None => if c.car_player_name.contains_key(car) {
                Some(c.car_player_name[car])
            } else {
                None
            },
        },
        None => None,
    }
}

/// The name of the player whose car an actor is (or, for a component, whose
/// car carries it).
pub open spec fn target_player(c: ContextView, actor: i32, component: bool) -> Option<Seq<char>> {
    if component {
        if c.component_vehicle.contains_key(actor) {
            owner_name(c.car_pri, c.pri_name, c.component_vehicle[actor])
        } else {
            None
        }
    } else {
        owner_name(c.car_pri, c.pri_name, actor)
    }
}

/// The context after a control update: the named player's controls,
/// made fresh when missing, take the change.
pub open spec fn control_step(c: ContextView, players: Seq<(String, i32)>, frame: i32, u: ActorUpdate) -> ContextView {
    match control_target(u) {
        Some((actor, component)) => match target_player(c, actor, component) {
            Some(name) => match player_index(players, name, players.len() as int) {
                Some(i) => {
                    let base = match c.controls[i] {
                        Some(s) => s,
                        None => no_controls(),
                    };
                    let object = if c.object_names.contains_key(actor) {
                        c.object_names[actor]
                    } else {
                        Seq::empty()
                    };
                    ContextView { controls: c.controls.update(i, Some(control_change(base, u, frame, object))), ..c }
                },
                None => c,
            },
            None => c,
        },
        None => c,
    }
}

/// The counter table of one stat kind.
pub open spec fn stat_table(c: ContextView, kind: StatKind) -> Map<i32, i32> {
    match kind {
        StatKind::Shot => c.shots,
        StatKind::Goal => c.goals,
        StatKind::Assist => c.assists,
        StatKind::Save => c.saves,
    }
}

/// The latest counter of an actor and kind; 0 before any.
pub open spec fn latest_stat(c: ContextView, actor: i32, kind: StatKind) -> int {
    if stat_table(c, kind).contains_key(actor) {
        stat_table(c, kind)[actor] as int
    } else {
        0
    }
}

/// The context with one counter table replaced.
pub open spec fn with_table(c: ContextView, kind: StatKind, t: Map<i32, i32>) -> ContextView {
    match kind {
        StatKind::Shot => ContextView { shots: t, ..c },
        StatKind::Goal => ContextView { goals: t, ..c },
        StatKind::Assist => ContextView { assists: t, ..c },
        StatKind::Save => ContextView { saves: t, ..c },
    }
}

/// The credits a counter rise makes: numbers `prior + 1` to `prior + added`.
pub open spec fn new_credits(pri: i32, frame: i32, name: String, kind: StatKind, prior: int, added: int) -> Seq<
    OfficialStatEvent,
> {
    Seq::new(
        added as nat,
        |i: int|
            OfficialStatEvent {
                pri_actor_id: Some(pri),
                frame_number: frame,
                player_name: name,
                stat_type: kind,
                stat_number: (prior + 1 + i) as i32,
            },
    )
}

/// The pending credits a counter rise makes for an unnamed actor.
pub open spec fn new_pending(pri: i32, frame: i32, kind: StatKind, prior: int, added: int) -> Seq<
    PendingOfficialStatEvent,
> {
    Seq::new(
        added as nat,
        |i: int|
            PendingOfficialStatEvent {
                pri_actor_id: pri,
                frame_number: frame,
                stat_type: kind,
                stat_number: (prior + 1 + i) as i32,
            },
    )
}

/// A map's texts as character sequences.
pub open spec fn names_of(m: Map<i32, String>) -> Map<i32, Seq<char>> {
    m.map_values(|s: String| s@)
}

/// The context after one update at `frame`. A name reaches every car of its
/// actor; a team update moves its named player in or out of the game (a
/// presence event when that changes) and, when the player's header team is
/// known, ties the team actor to that team number.
pub open spec fn context_step(
    c: ContextView,
    players: Seq<(String, i32)>,
    full: bool,
    frame: i32,
    u: ActorUpdate,
) -> ContextView {
    match u {
        ActorUpdate::PlayerName { pri, name } => ContextView {
            pri_name: c.pri_name.insert(pri, name),
            official: c.official + flushed_upto(c.pending, c.pri_name.insert(pri, name), Some(pri), c.pending.len() as int),
            pending: kept_pending_upto(c.pending, c.pri_name.insert(pri, name), Some(pri), c.pending.len() as int),
            car_player_name: Map::new(
                |car: i32| c.car_player_name.contains_key(car) || (c.car_pri.contains_key(car) && c.car_pri[car] == pri),
                |car: i32|
                    if c.car_pri.contains_key(car) && c.car_pri[car] == pri {
                        name@
                    } else {
                        c.car_player_name[car]
                    },
            ),
            ..c
        },
        ActorUpdate::Team { pri, team_actor, active } => {
            let teams = if active {
                c.pri_team_actor.insert(pri, team_actor)
            } else {
                c.pri_team_actor.remove(pri)
            };
            if c.pri_name.contains_key(pri) {
                let name = c.pri_name[pri]@;
                let was = c.active_players.contains(name);
                let known = header_team(players, name, players.len());
                ContextView {
                    pri_team_actor: teams,
                    active_players: if active {
                        c.active_players.insert(name)
                    } else {
                        c.active_players.remove(name)
                    },
                    presence: match presence_change(was, active) {
                        Some(kind) => c.presence.push((frame, name, kind)),
                        None => c.presence,
                    },
                    team_actor_number: if active && known is Some {
                        c.team_actor_number.insert(team_actor, known->0)
                    } else {
                        c.team_actor_number
                    },
                    controls: if !active && was {
                        match player_index(players, name, players.len() as int) {
                            Some(i) => c.controls.update(i, None),
                            None => c.controls,
                        }
                    } else {
                        c.controls
                    },
                    ..c
                }
            } else {
                ContextView { pri_team_actor: teams, ..c }
            }
        },
        ActorUpdate::CarOwner { car, pri } => ContextView {
            car_pri: c.car_pri.insert(car, pri),
            car_player_name: if c.pri_name.contains_key(pri) {
                c.car_player_name.insert(car, c.pri_name[pri]@)
            } else {
                c.car_player_name
            },
            ..c
        },
        ActorUpdate::ComponentVehicle { component, car, active } => ContextView {
            component_vehicle: if active {
                c.component_vehicle.insert(component, car)
            } else {
                c.component_vehicle
            },
            ..c
        },
        ActorUpdate::ServerName(s) => ContextView { server_name: s@, ..c },
        ActorUpdate::GameServerId(s) => ContextView { game_server_id: s@, ..c },
        ActorUpdate::GameServerNumber(v) => ContextView { game_server_id: signed_decimal(v as int), ..c },
        ActorUpdate::Playlist(v) => ContextView { playlist: playlist_text(v), ..c },
        ActorUpdate::SecondsRemaining(v) => ContextView { seconds_remaining: Some(v), ..c },
        ActorUpdate::HitTeam(t) => ContextView { hit_team: Some(t), ..c },
        ActorUpdate::NewActor { actor, object } => ContextView {
            object_names: c.object_names.insert(actor, object_text(object)),
            ball_actors: if has_infix(object_text(object), "Ball"@) {
                c.ball_actors.insert(actor)
            } else {
                c.ball_actors
            },
            ..c
        },
        ActorUpdate::Demolish { attacker_pri, attacker_car, victim_car } => match (
            demo_attacker(c, attacker_pri, attacker_car),
            demo_victim(c, victim_car),
        ) {
            (Some(a), Some(v)) => if full {
                ContextView { demolitions: c.demolitions.push((a, v, frame)), ..c }
            } else {
                c
            },
            _ => c,
        },
        ActorUpdate::TeamName { team_actor, name } => match team_of_actor(c, players, team_actor) {
            Some(0) => ContextView { blue_team_name: name@, ..c },
            Some(1) => ContextView { orange_team_name: name@, ..c },
            _ => c,
        },
        ActorUpdate::BallGameEvent { ball, active } => ContextView {
            ball_actors: if active {
                c.ball_actors.insert(ball)
            } else {
                c.ball_actors
            },
            ..c
        },
        ActorUpdate::MatchStat { pri, kind, value } => {
            let prior = latest_stat(c, pri, kind);
            let added = if value > prior {
                value - prior
            } else {
                0
            };
            let c2 = if value > prior {
                with_table(c, kind, stat_table(c, kind).insert(pri, value))
            } else {
                c
            };
            match known_name(c.pri_name, pri) {
                Some(name) => ContextView { official: c.official + new_credits(pri, frame, name, kind, prior, added), ..c2 },
                None => ContextView { pending: c.pending + new_pending(pri, frame, kind, prior, added), ..c2 },
            }
        },
        ActorUpdate::CarState { car } => if c.ball_actors.contains(car) {
            c
        } else {
            control_step(c, players, frame, u)
        },
        _ => control_step(c, players, frame, u),
    }
}

/// The name a new actor's object goes by: empty when unnamed.
pub open spec fn object_text(object: Option<String>) -> Seq<char> {
    match object {
        Some(o) => o@,
        None => Seq::empty(),
    }
}

/// The context before any update: nothing known but the header's playlist
/// and the players, none of them with controls yet.
pub open spec fn initial_context(playlist: Seq<char>, players: int) -> ContextView {
    ContextView {
        pri_name: Map::empty(),
        pri_team_actor: Map::empty(),
        team_actor_number: Map::empty(),
        car_pri: Map::empty(),
        car_player_name: Map::empty(),
        component_vehicle: Map::empty(),
        active_players: Set::empty(),
        presence: Seq::empty(),
        server_name: Seq::empty(),
        game_server_id: Seq::empty(),
        playlist: playlist,
        seconds_remaining: None,
        hit_team: None,
        official: Seq::empty(),
        pending: Seq::empty(),
        shots: Map::empty(),
        goals: Map::empty(),
        assists: Map::empty(),
        saves: Map::empty(),
        object_names: Map::empty(),
        ball_actors: Set::empty(),
        controls: Seq::new(players as nat, |i: int| None),
        demolitions: Seq::empty(),
        blue_team_name: Seq::empty(),
        orange_team_name: Seq::empty(),
    }
}

/// The context after the first `n` frame-tagged updates.
pub open spec fn context_after(
    players: Seq<(String, i32)>,
    playlist: Seq<char>,
    updates: Seq<(i32, ActorUpdate)>,
    full: bool,
    n: int,
) -> ContextView
    decreases n,
{
    if n <= 0 {
        initial_context(playlist, players.len() as int)
    } else {
        context_step(
            context_after(players, playlist, updates, full, n - 1),
            players,
            full,
            updates[n - 1].0,
            updates[n - 1].1,
        )
    }
}

/// A replay's context.
pub struct ReplayContext {
    pub roster: Roster,
    pub presence_events: Vec<PresenceEvent>,
    pub server_name: String,
    pub game_server_id: String,
    pub playlist: String,
    pub seconds_remaining: Option<i32>,
    pub hit_team: Option<i32>,
    pub official_stats: Vec<OfficialStatEvent>,
    pub pending_official_stats: Vec<PendingOfficialStatEvent>,
    pub latest_match_stats: LatestMatchStats,
    pub object_names: HashMap<i32, String>,
    pub ball_actors: HashSet<i32>,
    pub controls: Vec<Option<Controls>>,
    /// The demolitions whose attacker and victim are known, as
    /// `(attacker, victim, frame)`.
    pub demolitions: Vec<(String, String, i32)>,
    pub blue_team_name: String,
    pub orange_team_name: String,
}

/// What a context holds.
pub open spec fn context_view(ctx: ReplayContext) -> ContextView {
    ContextView {
        pri_name: ctx.roster.pri_name@,
        pri_team_actor: ctx.roster.pri_team_actor@,
        team_actor_number: ctx.roster.team_actor_number@,
        car_pri: ctx.roster.car_pri@,
        car_player_name: names_of(ctx.roster.car_player_name@),
        component_vehicle: ctx.roster.component_vehicle@,
        active_players: ctx.roster.active_players@,
        presence: ctx.presence_events@.map_values(|e: PresenceEvent| (e.0, e.1@, e.2@)),
        server_name: ctx.server_name@,
        game_server_id: ctx.game_server_id@,
        playlist: ctx.playlist@,
        seconds_remaining: ctx.seconds_remaining,
        hit_team: ctx.hit_team,
        official: ctx.official_stats@,
        pending: ctx.pending_official_stats@,
        shots: ctx.latest_match_stats.shots@,
        goals: ctx.latest_match_stats.goals@,
        assists: ctx.latest_match_stats.assists@,
        saves: ctx.latest_match_stats.saves@,
        object_names: names_of(ctx.object_names@),
        ball_actors: ctx.ball_actors@,
        controls: ctx.controls@,
        demolitions: ctx.demolitions@.map_values(|d: (String, String, i32)| (d.0@, d.1@, d.2)),
        blue_team_name: ctx.blue_team_name@,
        orange_team_name: ctx.orange_team_name@,
    }
}

/// The order keys of official credits.
pub open spec fn credit_keys(stats: Seq<OfficialStatEvent>) -> Seq<KeyView> {
    stats.map_values(|s: OfficialStatEvent| official_key(s))
}

/// The credits sorted stably by frame, player name and kind, each credit
/// (player name, kind and number) kept once.
pub open spec fn deduped_credits(stats: Seq<OfficialStatEvent>) -> Seq<OfficialStatEvent> {
    let order = choose|o: Seq<usize>| is_stable_order(credit_keys(stats), o);
    first_credits(stats, order, order.len())
}

/// The context once the stream has ended: in a full walk, pending credits
/// whose player names are known are flushed, and the credits are sorted
/// and kept once each.
pub open spec fn finished_context(c: ContextView, full: bool) -> ContextView {
    if full {
        ContextView {
            official: deduped_credits(c.official + flushed_upto(c.pending, c.pri_name, None, c.pending.len() as int)),
            pending: kept_pending_upto(c.pending, c.pri_name, None, c.pending.len() as int),
            ..c
        }
    } else {
        c
    }
}

/// The roster's header teams are those of `players`.
pub open spec fn header_teams_of(r: Roster, players: Seq<(String, i32)>) -> bool {
    forall|name: Seq<char>|
        #![trigger r.player_team@.contains_key(name)]
        (r.player_team@.contains_key(name) <==> header_team(players, name, players.len()) is Some) && (
        r.player_team@.contains_key(name) ==> r.player_team@[name] == header_team(players, name, players.len())->0)
}

fn last_player_index(players: &[(String, i32)], name: &String) -> (res: Option<usize>)
    ensures
        match res {
            Some(i) => i < players@.len() && player_index(players@, name@, players@.len() as int) == Some(i as int),
            None => player_index(players@, name@, players@.len() as int) is None,
        },
{
    let mut k: usize = players.len();
    while k > 0
        invariant
            k <= players@.len(),
            player_index(players@, name@, players@.len() as int) == player_index(players@, name@, k as int),
        decreases k,
    {
        if str_eq(players[k - 1].0.as_str(), name.as_str()) {
            return Some(k - 1);
        }
        k -= 1;
    }
    None
}

fn activity_applied(s: Controls, a: ComponentActivity) -> (res: Controls)
    ensures
        res == with_activity(s, a),
{
    let mut out = s;
    out.boost_active = a.boost_active;
    match a.jump {
        Some(v) => {
            out.jump_active = v;
            out.jumped = v;
        },
        None => {},
    }
    match a.double_jump {
        Some(v) => {
            out.double_jump_active = v;
        },
        None => {},
    }
    match a.dodge {
        Some(v) => {
            out.dodge_active = v;
            out.flipped = v;
        },
        None => {},
    }
    out
}

fn changed_controls(s: Controls, u: &ActorUpdate, frame: i32, object: &str) -> (res: Controls)
    ensures
        res == control_change(s, *u, frame, object@),
{
    let mut out = s;
    match u {
        ActorUpdate::BoostAmount { amount, .. } => {
            out.boost = Some(*amount);
            out.boost_updated_frame = Some(frame);
        },
        ActorUpdate::ReplicatedBoost { amount, grant_count, .. } => {
            out.boost = Some(*amount);
            out.boost_updated_frame = Some(frame);
            out.boost_collect = Some(*grant_count);
        },
        ActorUpdate::Throttle { value, .. } => {
            out.throttle = Some(*value);
        },
        ActorUpdate::Steer { value, .. } => {
            out.steer = Some(*value);
        },
        ActorUpdate::Handbrake { on, .. } => {
            out.handbrake = *on;
        },
        ActorUpdate::ComponentActive { value, .. } => {
            out = activity_applied(s, component_activity(object, *value != 0));
        },
        ActorUpdate::DodgeTorque { .. } => {
            out.dodge_active = true;
            out.flipped = true;
        },
        ActorUpdate::AirActivateCount { count, .. } => {
            match air_activate_slot(object) {
                AirActivateSlot::Dodge => {
                    out.dodge_air_activate_count = Some(*count);
                    out.flip_available = *count == 0;
                },
                AirActivateSlot::DoubleJump => {
                    out.double_jump_air_activate_count = Some(*count);
                },
                AirActivateSlot::Jump => {
                    out.jump_air_activate_count = Some(*count);
                },
                AirActivateSlot::Other => {},
            }
        },
        ActorUpdate::DodgesRefreshed { count, .. } => {
            out.dodges_refreshed_counter = Some(*count);
        },
        _ => {},
    }
    out
}

fn target_of(u: &ActorUpdate) -> (res: Option<(i32, bool)>)
    ensures
        res == control_target(*u),
{
    match u {
        ActorUpdate::CarState { car } => Some((*car, false)),
        ActorUpdate::BoostAmount { component, .. } => Some((*component, true)),
        ActorUpdate::ReplicatedBoost { component, .. } => Some((*component, true)),
        ActorUpdate::Throttle { car, .. } => Some((*car, false)),
        ActorUpdate::Steer { car, .. } => Some((*car, false)),
        ActorUpdate::Handbrake { car, .. } => Some((*car, false)),
        ActorUpdate::ComponentActive { component, .. } => Some((*component, true)),
        ActorUpdate::DodgeTorque { component } => Some((*component, true)),
        ActorUpdate::AirActivateCount { component, .. } => Some((*component, true)),
        ActorUpdate::DodgesRefreshed { car, .. } => Some((*car, false)),
        _ => None,
    }
}

fn apply_control(ctx: &mut ReplayContext, players: &[(String, i32)], frame: i32, u: &ActorUpdate)
    requires
        old(ctx).controls@.len() == players@.len(),
    ensures
        context_view(*final(ctx)) == control_step(context_view(*old(ctx)), players@, frame, *u),
        final(ctx).controls@.len() == players@.len(),
        final(ctx).roster == old(ctx).roster,
{
    let ghost c = context_view(*ctx);
    match target_of(u) {
        Some((actor, component)) => {
            let name = if component {
                ctx.roster.component_player_name(actor)
            } else {
                ctx.roster.player_name_for_car(actor)
            };
            assert(opt_view(name) == target_player(c, actor, component));
            match name {
                Some(n) => match last_player_index(players, &n) {
                    Some(i) => {
                        let base = match ctx.controls[i] {
                            Some(st) => st,
                            None => new_controls(),
                        };
                        let object = match ctx.object_names.get(&actor) {
                            Some(o) => o.clone(),
                            None => String::new(),
                        };
                        assert(object@ == if c.object_names.contains_key(actor) {
                            c.object_names[actor]
                        } else {
                            Seq::<char>::empty()
                        });
                        let next = changed_controls(base, u, frame, object.as_str());
                        ctx.controls.set(i, Some(next));
                        assert(context_view(*ctx) =~= control_step(c, players@, frame, *u));
                    },
                    None => {},
                },
                None => {},
            }
        },
        None => {},
    }
}

/// Walks the frame-tagged attribute updates of a replay's network stream,
/// in stream order, from the header's players and playlist. Only a full
/// walk records demolitions, and it flushes the credits still pending at
/// the end.
pub fn replay_context(
    players: &[(String, i32)],
    header_playlist: String,
    updates: &[(i32, ActorUpdate)],
    full: bool,
) -> (ctx: ReplayContext)
    ensures
        context_view(ctx) == finished_context(
            context_after(players@, header_playlist@, updates@, full, updates@.len() as int),
            full,
        ),
        header_teams_of(ctx.roster, players@),
{
    let mut controls: Vec<Option<Controls>> = Vec::new();
    let mut p: usize = 0;
    while p < players.len()
        invariant
            p <= players@.len(),
            controls@ == Seq::new(p as nat, |i: int| None::<Controls>),
        decreases players.len() - p,
    {
        controls.push(None);
        assert(controls@ =~= Seq::new((p + 1) as nat, |i: int| None::<Controls>));
        p += 1;
    }
    let mut ctx = ReplayContext {
        roster: Roster::new(players),
        presence_events: Vec::new(),
        server_name: String::new(),
        game_server_id: String::new(),
        playlist: header_playlist,
        seconds_remaining: None,
        hit_team: None,
        official_stats: Vec::new(),
        pending_official_stats: Vec::new(),
        latest_match_stats: LatestMatchStats::new(),
        object_names: HashMap::new(),
        ball_actors: HashSet::new(),
        controls,
        demolitions: Vec::new(),
        blue_team_name: String::new(),
        orange_team_name: String::new(),
    };
    assert(context_view(ctx) =~= initial_context(header_playlist@, players@.len() as int)) by {
        assert(names_of(ctx.object_names@) =~= Map::empty());
        assert(ctx.demolitions@.map_values(|d: (String, String, i32)| (d.0@, d.1@, d.2)) =~= Seq::empty());
        assert(names_of(ctx.roster.car_player_name@) =~= Map::empty());
        assert(ctx.presence_events@.map_values(|e: PresenceEvent| (e.0, e.1@, e.2@)) =~= Seq::empty());
    }
    let mut k: usize = 0;
    while k < updates.len()
        invariant
            k <= updates@.len(),
            context_view(ctx) == context_after(players@, header_playlist@, updates@, full, k as int),
            header_teams_of(ctx.roster, players@),
            ctx.controls@.len() == players@.len(),
        decreases updates.len() - k,
    {
        let ghost before = ctx;
        let frame = updates[k].0;
        match &updates[k].1 {
            ActorUpdate::PlayerName { pri, name } => {
                ctx.roster.set_player_name(*pri, name.clone());
                flush_pending_official_stats(
                    &mut ctx.official_stats,
                    &mut ctx.pending_official_stats,
                    &ctx.roster.pri_name,
                    Some(*pri),
                );
                assert(names_of(ctx.roster.car_player_name@) =~= context_step(
                    context_view(before),
                    players@,
                    full,
                    frame,
                    updates@[k as int].1,
                ).car_player_name);
            },
            ActorUpdate::Team { pri, team_actor, active } => {
                let change = ctx.roster.set_team(*pri, *team_actor, *active, frame);
                match change {
                    Some(e) => {
                        if !*active {
                            match last_player_index(players, &e.1) {
                                Some(i) => {
                                    ctx.controls.set(i, None);
                                },
                                None => {},
                            }
                        }
                        ctx.presence_events.push(e);
                    },
                    None => {},
                }
                assert(ctx.controls@ =~= context_step(
                    context_view(before),
                    players@,
                    full,
                    frame,
                    updates@[k as int].1,
                ).controls);
                assert(ctx.presence_events@.map_values(|e: PresenceEvent| (e.0, e.1@, e.2@)) =~= context_step(
                    context_view(before),
                    players@,
                    full,
                    frame,
                    updates@[k as int].1,
                ).presence);
            },
            ActorUpdate::CarOwner { car, pri } => {
                ctx.roster.set_car_owner(*car, *pri);
                assert(names_of(ctx.roster.car_player_name@) =~= context_step(
                    context_view(before),
                    players@,
                    full,
                    frame,
                    updates@[k as int].1,
                ).car_player_name);
            },
            ActorUpdate::ComponentVehicle { component, car, active } => {
                ctx.roster.set_component_vehicle(*component, *car, *active);
            },
            ActorUpdate::ServerName(s) => {
                ctx.server_name = s.clone();
            },
            ActorUpdate::GameServerId(s) => {
                ctx.game_server_id = s.clone();
            },
            ActorUpdate::GameServerNumber(v) => {
                ctx.game_server_id = i32_text(*v);
            },
            ActorUpdate::Playlist(v) => {
                ctx.playlist = String::from_str(playlist_name(*v));
            },
            ActorUpdate::SecondsRemaining(v) => {
                ctx.seconds_remaining = Some(*v);
            },
            ActorUpdate::HitTeam(t) => {
                ctx.hit_team = Some(*t);
            },
            ActorUpdate::NewActor { actor, object } => {
                let name = match object {
                    Some(o) => o.clone(),
                    None => String::new(),
                };
                assert(name@ == object_text(*object));
                let is_ball = is_ball_object(name.as_str());
                ctx.object_names.insert(*actor, name);
                if is_ball {
                    ctx.ball_actors.insert(*actor);
                }
                assert(names_of(ctx.object_names@) =~= names_of(before.object_names@).insert(*actor, object_text(*object)));
            },
            ActorUpdate::CarState { car } => {
                if !ctx.ball_actors.contains(car) {
                    apply_control(&mut ctx, players, frame, &updates[k].1);
                }
            },
            ActorUpdate::Demolish { attacker_pri, attacker_car, victim_car } => {
                if full {
                    match ctx.roster.demolish_names(*attacker_pri, *attacker_car, *victim_car) {
                        Some(pair) => {
                            ctx.demolitions.push((pair.0, pair.1, frame));
                        },
                        None => {},
                    }
                }
                assert(ctx.demolitions@.map_values(|d: (String, String, i32)| (d.0@, d.1@, d.2)) =~= context_step(
                    context_view(before),
                    players@,
                    full,
                    frame,
                    updates@[k as int].1,
                ).demolitions);
            },
            ActorUpdate::TeamName { team_actor, name } => {
                let number = ctx.roster.team_number(*team_actor);
                proof {
                    if !ctx.roster.team_actor_number@.contains_key(*team_actor) {
                        lemma_team_of_actor(ctx.roster, context_view(before), players@, *team_actor);
                    }
                }
                match number {
                    Some(0) => {
                        ctx.blue_team_name = name.clone();
                    },
                    Some(1) => {
                        ctx.orange_team_name = name.clone();
                    },
                    _ => {},
                }
            },
            ActorUpdate::BallGameEvent { ball, active } => {
                if *active {
                    ctx.ball_actors.insert(*ball);
                }
            },
            ActorUpdate::MatchStat { pri, kind, value } => {
                record_official_stat(
                    &mut ctx.official_stats,
                    &mut ctx.pending_official_stats,
                    &mut ctx.latest_match_stats,
                    &ctx.roster.pri_name,
                    *pri,
                    *kind,
                    *value,
                    frame,
                );
                proof {
                    let c = context_view(before);
                    assert(latest_stat(c, *pri, *kind) == before.latest_match_stats.latest(*pri, *kind));
                    assert(ctx.latest_match_stats.table(StatKind::Shot) == ctx.latest_match_stats.shots@);
                    assert(ctx.latest_match_stats.table(StatKind::Goal) == ctx.latest_match_stats.goals@);
                    assert(ctx.latest_match_stats.table(StatKind::Assist) == ctx.latest_match_stats.assists@);
                    assert(ctx.latest_match_stats.table(StatKind::Save) == ctx.latest_match_stats.saves@);
                    assert(before.latest_match_stats.table(StatKind::Shot) == before.latest_match_stats.shots@);
                    assert(before.latest_match_stats.table(StatKind::Goal) == before.latest_match_stats.goals@);
                    assert(before.latest_match_stats.table(StatKind::Assist) == before.latest_match_stats.assists@);
                    assert(before.latest_match_stats.table(StatKind::Save) == before.latest_match_stats.saves@);
                    let prior = latest_stat(c, *pri, *kind);
                    let added = if *value > prior { *value - prior } else { 0 };
                    match known_name(c.pri_name, *pri) {
                        Some(name) => {
                            let nc = new_credits(*pri, frame, name, *kind, prior, added);
                            let base = before.official_stats@.len();
                            assert forall|k: int| base <= k < ctx.official_stats@.len() implies ctx.official_stats@[k]
                                == nc[k - base] by {
                                let i = k - base;
                                assert(ctx.official_stats@[before.official_stats@.len() + i] == ctx.official_stats@[k]);
                            }
                            assert(ctx.official_stats@ =~= c.official + nc);
                        },
                        None => {
                            assert(ctx.pending_official_stats@ =~= c.pending + new_pending(*pri, frame, *kind, prior, added));
                        },
                    }
                }
            },
            _ => {
                apply_control(&mut ctx, players, frame, &updates[k].1);
            },
        }
        assert(context_view(ctx) =~= context_step(context_view(before), players@, full, frame, updates@[k as int].1));
        k += 1;
    }
    if full {
        flush_pending_official_stats(&mut ctx.official_stats, &mut ctx.pending_official_stats, &ctx.roster.pri_name, None);
        let ghost flushed = ctx.official_stats@;
        dedupe_official_stats(&mut ctx.official_stats);
        proof {
            let order = choose|o: Seq<usize>|
                is_stable_order(flushed.map_values(|s: OfficialStatEvent| official_key(s)), o) && ctx.official_stats@
                    == first_credits(flushed, o, o.len());
            assert(flushed.map_values(|s: OfficialStatEvent| official_key(s)) =~= credit_keys(flushed));
            let chosen = choose|o: Seq<usize>| is_stable_order(credit_keys(flushed), o);
            law_stable_order_unique(credit_keys(flushed), order, chosen);
        }
    }
    ctx
}

} // verus!
