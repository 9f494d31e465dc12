//! A replay file's bytes, parsed by boxcars, as the plain values the
//! analyzer reads: the header's properties, the object table, and each
//! network frame's new actors and attribute updates. From these the
//! attribute updates become the frame-tagged actor updates that the
//! context walk takes.
use vstd::prelude::*;
use boxcars::{Attribute, Frame, HeaderProp, NetworkParse, ParserBuilder};
use crate::header::{
    header_scalar, header_string, pbp_player_list, pbp_players, scalar_text, HeaderPlayer, HeaderScalar, HeaderValue,
};
use crate::official::StatKind;
use crate::replay_context::{
    context_after, context_view, finished_context, header_teams_of, object_text, replay_context, ActorUpdate,
    ReplayContext,
};
use crate::text::str_eq;

verus! {

#[verifier::external_type_specification]
#[verifier::external_body]
pub struct ExHeaderProp(HeaderProp);

#[verifier::external_type_specification]
#[verifier::external_body]
pub struct ExAttribute(Attribute);

#[verifier::external_type_specification]
#[verifier::external_body]
pub struct ExFrame(Frame);

/// An attribute value of the network stream, as far as the analyzer reads
/// it; every other kind is `Other`.
#[derive(Clone, Debug)]
pub enum RawAttribute {
    Boolean(bool),
    Byte(u8),
    Int(i32),
    String(String),
    ActiveActor { active: bool, actor: i32 },
    ReplicatedBoost { grant_count: u8, boost_amount: u8 },
    /// A demolition's attacker replication actor, attacker car and victim
    /// car.
    DemolishExtended { attacker_pri: i32, attacker: i32, victim: i32 },
    /// A rigid-body state (its values are not carried).
    RigidBody,
    Other,
}

/// One attribute update: the actor, the attribute's object id, the value.
#[derive(Clone, Debug)]
pub struct RawUpdate {
    pub actor: i32,
    pub object_id: i32,
    pub attribute: RawAttribute,
}

/// One network frame: its new actors as `(actor, object id)`, then its
/// attribute updates, in stream order.
#[derive(Clone, Debug)]
pub struct RawFrame {
    pub new_actors: Vec<(i32, i32)>,
    pub updates: Vec<RawUpdate>,
}

/// A parsed replay: the header's properties, the object table, and the
/// network frames when they were parsed.
#[derive(Clone, Debug)]
pub struct ParsedReplay {
    pub header: Vec<(String, HeaderValue)>,
    pub objects: Vec<String>,
    pub frames: Option<Vec<RawFrame>>,
}

/// What a parsed replay holds.
pub struct ParsedReplayView {
    pub header: Seq<(String, HeaderValue)>,
    pub objects: Seq<String>,
    pub frames: Option<Seq<RawFrame>>,
}

impl View for ParsedReplay {
    type V = ParsedReplayView;

    open spec fn view(&self) -> ParsedReplayView {
        ParsedReplayView {
            header: self.header@,
            objects: self.objects@,
            frames: match self.frames {
                Some(f) => Some(f@),
                None => None,
            },
        }
    }
}

/// What boxcars makes of a replay's bytes, with its network data parsed or
/// skipped: `None` where it reports an error.
pub uninterp spec fn replay_parse_of(bytes: Seq<u8>, network: bool) -> Option<ParsedReplayView>;

/// Parses a replay with boxcars' `ParserBuilder`, its network data always
/// parsed (`network`) or never, and converts what comes back one for one
/// into library values. The contract claims that the result is the one
/// that boxcars gives for these bytes and this flag, `None` exactly where
/// `parse` returns an error; what boxcars reads out of the bytes is not
/// stated, and that `parse` returns on every input (boxcars reports
/// malformed data as errors) is taken on trust.
#[verifier::external_body]
pub fn parse_replay(bytes: &[u8], network: bool) -> (res: Option<ParsedReplay>)
    ensures
        res is Some ==> replay_parse_of(bytes@, network) == Some(res->0@),
        res is None ==> replay_parse_of(bytes@, network) is None,
{
    let parse = if network { NetworkParse::Always } else { NetworkParse::Never };
    let replay = ParserBuilder::new(bytes).with_network_parse(parse).parse().ok()?;
    Some(ParsedReplay {
        header: replay.properties.iter().map(|(name, prop)| (name.clone(), header_value(prop))).collect(),
        objects: replay.objects,
        frames: replay.network_frames.map(|n| n.frames.iter().map(raw_frame).collect()),
    })
}

/// Part of `parse_replay`'s conversion: a boxcars header property as a
/// library value, variant for variant.
#[verifier::external_body]
fn header_value(prop: &HeaderProp) -> HeaderValue {
    match prop {
        HeaderProp::Array(rows) => HeaderValue::Array(
            rows.iter().map(|row| row.iter().map(|(k, v)| (k.clone(), header_scalar_of(v))).collect()).collect(),
        ),
        other => HeaderValue::Scalar(header_scalar_of(other)),
    }
}

/// Part of `parse_replay`'s conversion: a boxcars header property that is
/// not an array, variant for variant (a float as the text it prints as and
/// its value cast to `i32`).
#[verifier::external_body]
fn header_scalar_of(prop: &HeaderProp) -> HeaderScalar {
    match prop {
        HeaderProp::Bool(v) => HeaderScalar::Bool(*v),
        HeaderProp::Byte { value, .. } => HeaderScalar::Byte(value.clone()),
        HeaderProp::Float(v) => HeaderScalar::Float { text: v.to_string(), truncated: *v as i32 },
        HeaderProp::Int(v) => HeaderScalar::Int(*v),
        HeaderProp::Name(v) => HeaderScalar::Name(v.clone()),
        HeaderProp::QWord(v) => HeaderScalar::QWord(*v),
        HeaderProp::Str(v) => HeaderScalar::Str(v.clone()),
        _ => HeaderScalar::Other,
    }
}

/// Part of `parse_replay`'s conversion: a boxcars network frame's new
/// actors and attribute updates, in order.
#[verifier::external_body]
fn raw_frame(frame: &Frame) -> RawFrame {
    RawFrame {
        new_actors: frame.new_actors.iter().map(|a| (a.actor_id.0, a.object_id.0)).collect(),
        updates: frame.updated_actors.iter().map(|u| RawUpdate {
            actor: u.actor_id.0,
            object_id: u.object_id.0,
            attribute: raw_attribute(&u.attribute),
        }).collect(),
    }
}

/// Part of `parse_replay`'s conversion: a boxcars attribute, variant for
/// variant for the kinds the analyzer reads.
#[verifier::external_body]
fn raw_attribute(attribute: &Attribute) -> RawAttribute {
    match attribute {
        Attribute::Boolean(v) => RawAttribute::Boolean(*v),
        Attribute::Byte(v) => RawAttribute::Byte(*v),
        Attribute::Int(v) => RawAttribute::Int(*v),
        Attribute::String(v) => RawAttribute::String(v.clone()),
        Attribute::ActiveActor(v) => RawAttribute::ActiveActor { active: v.active, actor: v.actor.0 },
        Attribute::ReplicatedBoost(v) => RawAttribute::ReplicatedBoost { grant_count: v.grant_count, boost_amount: v.boost_amount },
        Attribute::DemolishExtended(v) => RawAttribute::DemolishExtended {
            attacker_pri: v.attacker_pri.actor.0,
            attacker: v.attacker.actor.0,
            victim: v.victim.actor.0,
        },
        Attribute::RigidBody(_) => RawAttribute::RigidBody,
        _ => RawAttribute::Other,
    }
}

/// The object table's entry `id`, when the table has one.
pub open spec fn object_entry(objects: Seq<String>, id: i32) -> Option<String> {
    if 0 <= id < objects.len() {
        Some(objects[id as int])
    } else {
        None
    }
}

/// The actor update that an attribute update of the object named `name`
/// on `actor` makes, when the analyzer reads that object with that kind of
/// value. The names are tried in this order.
pub open spec fn named_update(name: Seq<char>, actor: i32, a: RawAttribute) -> Option<ActorUpdate> {
    if name == "Engine.PlayerReplicationInfo:PlayerName"@ {
        match a {
            RawAttribute::String(v) => Some(ActorUpdate::PlayerName { pri: actor, name: v }),
            _ => None,
        }
    } else if name == "Engine.PlayerReplicationInfo:Team"@ {
        match a {
            RawAttribute::ActiveActor { active, actor: t } => Some(
                ActorUpdate::Team { pri: actor, team_actor: t, active },
            ),
            _ => None,
        }
    } else if name == "Engine.Pawn:PlayerReplicationInfo"@ {
        match a {
            RawAttribute::ActiveActor { actor: t, .. } => Some(ActorUpdate::CarOwner { car: actor, pri: t }),
            _ => None,
        }
    } else if name == "TAGame.CarComponent_TA:Vehicle"@ {
        match a {
            RawAttribute::ActiveActor { active, actor: t } => Some(
                ActorUpdate::ComponentVehicle { component: actor, car: t, active },
            ),
            _ => None,
        }
    } else if name == "TAGame.Ball_TA:GameEvent"@ {
        match a {
            RawAttribute::ActiveActor { active, .. } => Some(ActorUpdate::BallGameEvent { ball: actor, active }),
            _ => None,
        }
    } else if name == "TAGame.Ball_TA:HitTeamNum"@ {
        match a {
            RawAttribute::Byte(v) => Some(ActorUpdate::HitTeam(v as i32)),
            RawAttribute::Int(v) => Some(ActorUpdate::HitTeam(v)),
            _ => None,
        }
    } else if name == "TAGame.RBActor_TA:ReplicatedRBState"@ {
        match a {
            RawAttribute::RigidBody => Some(ActorUpdate::CarState { car: actor }),
            _ => None,
        }
    } else {
        control_update(name, actor, a)
    }
}

/// The control updates among `named_update`'s.
pub open spec fn control_update(name: Seq<char>, actor: i32, a: RawAttribute) -> Option<ActorUpdate> {
    if name == "TAGame.CarComponent_Boost_TA:ReplicatedBoost"@ {
        match a {
            RawAttribute::ReplicatedBoost { grant_count, boost_amount } => Some(
                ActorUpdate::ReplicatedBoost { component: actor, amount: boost_amount, grant_count },
            ),
            _ => None,
        }
    } else if name == "TAGame.CarComponent_Boost_TA:ReplicatedBoostAmount"@ {
        match a {
            RawAttribute::Byte(v) => Some(ActorUpdate::BoostAmount { component: actor, amount: v }),
            _ => None,
        }
    } else if name == "TAGame.Vehicle_TA:ReplicatedThrottle"@ {
        match a {
            RawAttribute::Byte(v) => Some(ActorUpdate::Throttle { car: actor, value: v as i32 }),
            _ => None,
        }
    } else if name == "TAGame.Vehicle_TA:ReplicatedSteer"@ {
        match a {
            RawAttribute::Byte(v) => Some(ActorUpdate::Steer { car: actor, value: v as i32 }),
            _ => None,
        }
    } else if name == "TAGame.Vehicle_TA:bReplicatedHandbrake"@ {
        match a {
            RawAttribute::Boolean(v) => Some(ActorUpdate::Handbrake { car: actor, on: v }),
            _ => None,
        }
    } else if name == "TAGame.CarComponent_TA:ReplicatedActive"@ {
        match a {
            RawAttribute::Byte(v) => Some(ActorUpdate::ComponentActive { component: actor, value: v }),
            _ => None,
        }
    } else if name == "TAGame.CarComponent_Dodge_TA:DodgeTorque"@ {
        Some(ActorUpdate::DodgeTorque { component: actor })
    } else if name == "TAGame.CarComponent_AirActivate_TA:AirActivateCount"@ {
        match a {
            RawAttribute::Int(v) => Some(ActorUpdate::AirActivateCount { component: actor, count: v }),
            _ => None,
        }
    } else if name == "TAGame.Car_TA:DodgesRefreshedCounter"@ {
        match a {
            RawAttribute::Int(v) => Some(ActorUpdate::DodgesRefreshed { car: actor, count: v }),
            _ => None,
        }
    } else {
        game_update(name, actor, a)
    }
}

/// The game, stat, team-name and demolition updates among `named_update`'s.
pub open spec fn game_update(name: Seq<char>, actor: i32, a: RawAttribute) -> Option<ActorUpdate> {
    if name == "Engine.GameReplicationInfo:ServerName"@ {
        match a {
            RawAttribute::String(v) => Some(ActorUpdate::ServerName(v)),
            _ => None,
        }
    } else if name == "ProjectX.GRI_X:GameServerID"@ {
        match a {
            RawAttribute::Int(v) => Some(ActorUpdate::GameServerNumber(v)),
            RawAttribute::String(v) => Some(ActorUpdate::GameServerId(v)),
            _ => None,
        }
    } else if name == "ProjectX.GRI_X:ReplicatedGamePlaylist"@ {
        match a {
            RawAttribute::Int(v) => Some(ActorUpdate::Playlist(v)),
            _ => None,
        }
    } else if name == "TAGame.GameEvent_Soccar_TA:SecondsRemaining"@ {
        match a {
            RawAttribute::Int(v) => Some(ActorUpdate::SecondsRemaining(v)),
            _ => None,
        }
    } else if name == "TAGame.PRI_TA:MatchShots"@ {
        stat_update(actor, StatKind::Shot, a)
    } else if name == "TAGame.PRI_TA:MatchGoals"@ {
        stat_update(actor, StatKind::Goal, a)
    } else if name == "TAGame.PRI_TA:MatchAssists"@ {
        stat_update(actor, StatKind::Assist, a)
    } else if name == "TAGame.PRI_TA:MatchSaves"@ {
        stat_update(actor, StatKind::Save, a)
    } else if name == "TAGame.Team_TA:CustomTeamName"@ {
        match a {
            RawAttribute::String(v) => Some(ActorUpdate::TeamName { team_actor: actor, name: v }),
            _ => None,
        }
    } else if name == "TAGame.Car_TA:ReplicatedDemolishExtended"@ {
        demolish_update(a)
    } else {
        None
    }
}

/// A match-stat counter update, for an integer value.
pub open spec fn stat_update(actor: i32, kind: StatKind, a: RawAttribute) -> Option<ActorUpdate> {
    match a {
        RawAttribute::Int(v) => Some(ActorUpdate::MatchStat { pri: actor, kind, value: v }),
        _ => None,
    }
}

/// The demolition a demolition value describes, whatever object carries it.
pub open spec fn demolish_update(a: RawAttribute) -> Option<ActorUpdate> {
    match a {
        RawAttribute::DemolishExtended { attacker_pri, attacker, victim } => Some(
            ActorUpdate::Demolish { attacker_pri: Some(attacker_pri), attacker_car: Some(attacker), victim_car: Some(victim) },
        ),
        _ => None,
    }
}

/// An optional update as a sequence of at most one.
pub open spec fn opt_seq(o: Option<ActorUpdate>) -> Seq<ActorUpdate> {
    match o {
        Some(u) => seq![u],
        None => Seq::empty(),
    }
}

/// The actor updates that one attribute update makes: its named update,
/// then the demolition that a demolition value makes on any object.
pub open spec fn attribute_updates(objects: Seq<String>, u: RawUpdate) -> Seq<ActorUpdate> {
    opt_seq(named_update(object_text(object_entry(objects, u.object_id)), u.actor, u.attribute)) + opt_seq(
        demolish_update(u.attribute),
    )
}

/// The frame number that tags the updates of frame `f`: `f`, or
/// `i32::MAX` past it.
pub open spec fn frame_tag(f: int) -> i32 {
    if f <= i32::MAX {
        f as i32
    } else {
        i32::MAX
    }
}

/// A frame's new actors, each with its object's name.
pub open spec fn new_actor_updates(objects: Seq<String>, actors: Seq<(i32, i32)>, tag: i32) -> Seq<(i32, ActorUpdate)> {
    actors.map_values(|a: (i32, i32)| (tag, ActorUpdate::NewActor { actor: a.0, object: object_entry(objects, a.1) }))
}

/// The actor updates that the first `n` attribute updates of a frame make.
pub open spec fn attribute_stream(objects: Seq<String>, ups: Seq<RawUpdate>, tag: i32, n: int) -> Seq<(i32, ActorUpdate)>
    decreases n,
{
    if n <= 0 {
        Seq::empty()
    } else {
        attribute_stream(objects, ups, tag, n - 1) + attribute_updates(objects, ups[n - 1]).map_values(
            |x: ActorUpdate| (tag, x),
        )
    }
}

/// The tagged actor updates of one frame: its new actors, then its
/// attribute updates.
pub open spec fn frame_updates(objects: Seq<String>, frame: RawFrame, tag: i32) -> Seq<(i32, ActorUpdate)> {
    new_actor_updates(objects, frame.new_actors@, tag) + attribute_stream(
        objects,
        frame.updates@,
        tag,
        frame.updates@.len() as int,
    )
}

/// The tagged actor updates of the first `n` frames.
pub open spec fn stream_updates(objects: Seq<String>, frames: Seq<RawFrame>, n: int) -> Seq<(i32, ActorUpdate)>
    decreases n,
{
    if n <= 0 {
        Seq::empty()
    } else {
        stream_updates(objects, frames, n - 1) + frame_updates(objects, frames[n - 1], frame_tag(n - 1))
    }
}

/// The tagged actor updates of a parsed replay: none without network
/// frames.
pub open spec fn replay_updates(p: ParsedReplayView) -> Seq<(i32, ActorUpdate)> {
    match p.frames {
        Some(f) => stream_updates(p.objects, f, f.len() as int),
        None => Seq::empty(),
    }
}

fn object_of(objects: &Vec<String>, id: i32) -> (res: Option<String>)
    ensures
        res == object_entry(objects@, id),
{
    if id < 0 {
        return None;
    }
    let k = id as usize;
    if k < objects.len() {
        Some(objects[k].clone())
    } else {
        None
    }
}

fn stat_update_of(actor: i32, kind: StatKind, a: &RawAttribute) -> (res: Option<ActorUpdate>)
    ensures
        res == stat_update(actor, kind, *a),
{
    match a {
        RawAttribute::Int(v) => Some(ActorUpdate::MatchStat { pri: actor, kind, value: *v }),
        _ => None,
    }
}

fn demolish_update_of(a: &RawAttribute) -> (res: Option<ActorUpdate>)
    ensures
        res == demolish_update(*a),
{
    match a {
        RawAttribute::DemolishExtended { attacker_pri, attacker, victim } => Some(
            ActorUpdate::Demolish {
                attacker_pri: Some(*attacker_pri),
                attacker_car: Some(*attacker),
                victim_car: Some(*victim),
            },
        ),
        _ => None,
    }
}

fn game_update_of(name: &str, actor: i32, a: &RawAttribute) -> (res: Option<ActorUpdate>)
    ensures
        res == game_update(name@, actor, *a),
{
    if str_eq(name, "Engine.GameReplicationInfo:ServerName") {
        match a {
            RawAttribute::String(v) => Some(ActorUpdate::ServerName(v.clone())),
            _ => None,
        }
    } else if str_eq(name, "ProjectX.GRI_X:GameServerID") {
        match a {
            RawAttribute::Int(v) => Some(ActorUpdate::GameServerNumber(*v)),
            RawAttribute::String(v) => Some(ActorUpdate::GameServerId(v.clone())),
            _ => None,
        }
    } else if str_eq(name, "ProjectX.GRI_X:ReplicatedGamePlaylist") {
        match a {
            RawAttribute::Int(v) => Some(ActorUpdate::Playlist(*v)),
            _ => None,
        }
    } else if str_eq(name, "TAGame.GameEvent_Soccar_TA:SecondsRemaining") {
        match a {
            RawAttribute::Int(v) => Some(ActorUpdate::SecondsRemaining(*v)),
            _ => None,
        }
    } else if str_eq(name, "TAGame.PRI_TA:MatchShots") {
        stat_update_of(actor, StatKind::Shot, a)
    } else if str_eq(name, "TAGame.PRI_TA:MatchGoals") {
        stat_update_of(actor, StatKind::Goal, a)
    } else if str_eq(name, "TAGame.PRI_TA:MatchAssists") {
        stat_update_of(actor, StatKind::Assist, a)
    } else if str_eq(name, "TAGame.PRI_TA:MatchSaves") {
        stat_update_of(actor, StatKind::Save, a)
    } else if str_eq(name, "TAGame.Team_TA:CustomTeamName") {
        match a {
            RawAttribute::String(v) => Some(ActorUpdate::TeamName { team_actor: actor, name: v.clone() }),
            _ => None,
        }
    } else if str_eq(name, "TAGame.Car_TA:ReplicatedDemolishExtended") {
        demolish_update_of(a)
    } else {
        None
    }
}

fn control_update_of(name: &str, actor: i32, a: &RawAttribute) -> (res: Option<ActorUpdate>)
    ensures
        res == control_update(name@, actor, *a),
{
    if str_eq(name, "TAGame.CarComponent_Boost_TA:ReplicatedBoost") {
        match a {
            RawAttribute::ReplicatedBoost { grant_count, boost_amount } => Some(
                ActorUpdate::ReplicatedBoost { component: actor, amount: *boost_amount, grant_count: *grant_count },
            ),
            _ => None,
        }
    } else if str_eq(name, "TAGame.CarComponent_Boost_TA:ReplicatedBoostAmount") {
        match a {
            RawAttribute::Byte(v) => Some(ActorUpdate::BoostAmount { component: actor, amount: *v }),
            _ => None,
        }
    } else if str_eq(name, "TAGame.Vehicle_TA:ReplicatedThrottle") {
        match a {
            RawAttribute::Byte(v) => Some(ActorUpdate::Throttle { car: actor, value: *v as i32 }),
            _ => None,
        }
    } else if str_eq(name, "TAGame.Vehicle_TA:ReplicatedSteer") {
        match a {
            RawAttribute::Byte(v) => Some(ActorUpdate::Steer { car: actor, value: *v as i32 }),
            _ => None,
        }
    } else if str_eq(name, "TAGame.Vehicle_TA:bReplicatedHandbrake") {
        match a {
            RawAttribute::Boolean(v) => Some(ActorUpdate::Handbrake { car: actor, on: *v }),
            _ => None,
        }
    } else if str_eq(name, "TAGame.CarComponent_TA:ReplicatedActive") {
        match a {
            RawAttribute::Byte(v) => Some(ActorUpdate::ComponentActive { component: actor, value: *v }),
            _ => None,
        }
    } else if str_eq(name, "TAGame.CarComponent_Dodge_TA:DodgeTorque") {
        Some(ActorUpdate::DodgeTorque { component: actor })
    } else if str_eq(name, "TAGame.CarComponent_AirActivate_TA:AirActivateCount") {
        match a {
            RawAttribute::Int(v) => Some(ActorUpdate::AirActivateCount { component: actor, count: *v }),
            _ => None,
        }
    } else if str_eq(name, "TAGame.Car_TA:DodgesRefreshedCounter") {
        match a {
            RawAttribute::Int(v) => Some(ActorUpdate::DodgesRefreshed { car: actor, count: *v }),
            _ => None,
        }
    } else {
        game_update_of(name, actor, a)
    }
}

/// The actor update that an attribute update of the object named `name` on
/// `actor` makes, if any.
pub fn named_update_of(name: &str, actor: i32, a: &RawAttribute) -> (res: Option<ActorUpdate>)
    ensures
        res == named_update(name@, actor, *a),
{
    if str_eq(name, "Engine.PlayerReplicationInfo:PlayerName") {
        match a {
            RawAttribute::String(v) => Some(ActorUpdate::PlayerName { pri: actor, name: v.clone() }),
            _ => None,
        }
    } else if str_eq(name, "Engine.PlayerReplicationInfo:Team") {
        match a {
            RawAttribute::ActiveActor { active, actor: t } => Some(
                ActorUpdate::Team { pri: actor, team_actor: *t, active: *active },
            ),
            _ => None,
        }
    } else if str_eq(name, "Engine.Pawn:PlayerReplicationInfo") {
        match a {
            RawAttribute::ActiveActor { actor: t, .. } => Some(ActorUpdate::CarOwner { car: actor, pri: *t }),
            _ => None,
        }
    } else if str_eq(name, "TAGame.CarComponent_TA:Vehicle") {
        match a {
            RawAttribute::ActiveActor { active, actor: t } => Some(
                ActorUpdate::ComponentVehicle { component: actor, car: *t, active: *active },
            ),
            _ => None,
        }
    } else if str_eq(name, "TAGame.Ball_TA:GameEvent") {
        match a {
            RawAttribute::ActiveActor { active, .. } => Some(ActorUpdate::BallGameEvent { ball: actor, active: *active }),
            _ => None,
        }
    } else if str_eq(name, "TAGame.Ball_TA:HitTeamNum") {
        match a {
            RawAttribute::Byte(v) => Some(ActorUpdate::HitTeam(*v as i32)),
            RawAttribute::Int(v) => Some(ActorUpdate::HitTeam(*v)),
            _ => None,
        }
    } else if str_eq(name, "TAGame.RBActor_TA:ReplicatedRBState") {
        match a {
            RawAttribute::RigidBody => Some(ActorUpdate::CarState { car: actor }),
            _ => None,
        }
    } else {
        control_update_of(name, actor, a)
    }
}

fn push_attribute_updates(objects: &Vec<String>, u: &RawUpdate, tag: i32, out: &mut Vec<(i32, ActorUpdate)>)
    ensures
        final(out)@ == old(out)@ + attribute_updates(objects@, *u).map_values(|x: ActorUpdate| (tag, x)),
{
    let ghost start = out@;
    let name = match object_of(objects, u.object_id) {
        Some(o) => o,
        None => String::new(),
    };
    assert(name@ == object_text(object_entry(objects@, u.object_id)));
    let first = named_update_of(name.as_str(), u.actor, &u.attribute);
    let second = demolish_update_of(&u.attribute);
    match first {
        Some(x) => out.push((tag, x)),
        None => {},
    }
    let ghost mid = out@;
    match second {
        Some(x) => out.push((tag, x)),
        None => {},
    }
    assert(mid =~= start + opt_seq(first).map_values(|x: ActorUpdate| (tag, x)));
    assert(out@ =~= mid + opt_seq(second).map_values(|x: ActorUpdate| (tag, x)));
    assert(attribute_updates(objects@, *u).map_values(|x: ActorUpdate| (tag, x)) =~= opt_seq(first).map_values(
        |x: ActorUpdate| (tag, x),
    ) + opt_seq(second).map_values(|x: ActorUpdate| (tag, x)));
}

fn push_frame_updates(objects: &Vec<String>, frame: &RawFrame, tag: i32, out: &mut Vec<(i32, ActorUpdate)>)
    ensures
        final(out)@ == old(out)@ + frame_updates(objects@, *frame, tag),
{
    let ghost start = out@;
    let mut i: usize = 0;
    while i < frame.new_actors.len()
        invariant
            i <= frame.new_actors@.len(),
            out@ == start + new_actor_updates(objects@, frame.new_actors@.take(i as int), tag),
        decreases frame.new_actors.len() - i,
    {
        let (actor, object_id) = frame.new_actors[i];
        let object = object_of(objects, object_id);
        out.push((tag, ActorUpdate::NewActor { actor, object }));
        assert(frame.new_actors@.take(i + 1) =~= frame.new_actors@.take(i as int).push(frame.new_actors@[i as int]));
        assert(out@ =~= start + new_actor_updates(objects@, frame.new_actors@.take(i + 1), tag));
        i += 1;
    }
    assert(frame.new_actors@.take(i as int) =~= frame.new_actors@);
    let ghost actors_done = out@;
    let mut j: usize = 0;
    while j < frame.updates.len()
        invariant
            j <= frame.updates@.len(),
            out@ == actors_done + attribute_stream(objects@, frame.updates@, tag, j as int),
        decreases frame.updates.len() - j,
    {
        let ghost before = out@;
        push_attribute_updates(objects, &frame.updates[j], tag, out);
        assert(out@ =~= actors_done + attribute_stream(objects@, frame.updates@, tag, j + 1));
        j += 1;
    }
    assert(out@ =~= start + frame_updates(objects@, *frame, tag));
}

/// The tagged actor updates of a parsed replay, in stream order: each
/// frame's new actors, then its attribute updates.
pub fn replay_updates_of(parsed: &ParsedReplay) -> (res: Vec<(i32, ActorUpdate)>)
    ensures
        res@ == replay_updates(parsed@),
{
    let mut out: Vec<(i32, ActorUpdate)> = Vec::new();
    match &parsed.frames {
        Some(frames) => {
            let mut f: usize = 0;
            while f < frames.len()
                invariant
                    f <= frames@.len(),
                    out@ == stream_updates(parsed.objects@, frames@, f as int),
                decreases frames.len() - f,
            {
                let tag: i32 = if f <= 2147483647 {
                    f as i32
                } else {
                    2147483647
                };
                assert(tag == frame_tag(f as int));
                push_frame_updates(&parsed.objects, &frames[f], tag, &mut out);
                f += 1;
            }
        },
        None => {
            assert(out@ =~= replay_updates(parsed@));
        },
    }
    out
}

/// The header's players as `(name, team)`.
pub open spec fn names_and_teams(players: Seq<HeaderPlayer>) -> Seq<(String, i32)> {
    players.map_values(|p: HeaderPlayer| (p.name, p.team))
}

/// The header's playlist text, empty without one.
pub open spec fn header_playlist(header: Seq<(String, HeaderValue)>) -> Seq<char> {
    match scalar_text(header_scalar(header, "Playlist"@)) {
        Some(t) => t,
        None => Seq::empty(),
    }
}

/// The context of a parsed replay: the walk over its actor updates from
/// the header's players and playlist; only a full walk records
/// demolitions and flushes the pending credits.
pub fn replay_context_of(parsed: &ParsedReplay, full: bool) -> (ctx: ReplayContext)
    ensures
        exists|players: Seq<HeaderPlayer>|
            pbp_player_list(parsed.header@, players) && context_view(ctx) == finished_context(
                context_after(
                    names_and_teams(players),
                    header_playlist(parsed.header@),
                    replay_updates(parsed@),
                    full,
                    replay_updates(parsed@).len() as int,
                ),
                full,
            ) && header_teams_of(ctx.roster, names_and_teams(players)),
{
    let list = pbp_players(parsed.header.as_slice());
    let mut players: Vec<(String, i32)> = Vec::new();
    let mut i: usize = 0;
    while i < list.len()
        invariant
            i <= list@.len(),
            players@ == names_and_teams(list@).take(i as int),
        decreases list.len() - i,
    {
        players.push((list[i].name.clone(), list[i].team));
        assert(players@ =~= names_and_teams(list@).take(i + 1));
        i += 1;
    }
    assert(players@ =~= names_and_teams(list@));
    let playlist = match header_string(parsed.header.as_slice(), "Playlist") {
        Some(p) => p,
        None => String::new(),
    };
    assert(playlist@ == header_playlist(parsed.header@));
    let updates = replay_updates_of(parsed);
    let ctx = replay_context(players.as_slice(), playlist, updates.as_slice(), full);
    assert(pbp_player_list(parsed.header@, list@));
    ctx
}

} // verus!
