use analyzerl_boxcars::header::{HeaderScalar, HeaderValue};
use analyzerl_boxcars::official::StatKind;
use analyzerl_boxcars::replay_context::ActorUpdate;
use analyzerl_boxcars::replay_parse::{
    named_update_of, parse_replay, replay_context_of, replay_updates_of, ParsedReplay, RawAttribute, RawFrame,
    RawUpdate,
};

fn s(text: &str) -> String {
    text.to_string()
}

fn objects() -> Vec<String> {
    vec![
        s("Engine.PlayerReplicationInfo:PlayerName"),
        s("Engine.PlayerReplicationInfo:Team"),
        s("TAGame.Default__PRI_TA"),
        s("ProjectX.GRI_X:GameServerID"),
        s("TAGame.Car_TA:ReplicatedDemolishExtended"),
        s("TAGame.PRI_TA:MatchShots"),
        s("Archetypes.Ball.Ball_Default"),
    ]
}

fn update(actor: i32, object_id: i32, attribute: RawAttribute) -> RawUpdate {
    RawUpdate { actor, object_id, attribute }
}

fn header() -> Vec<(String, HeaderValue)> {
    vec![
        (s("Playlist"), HeaderValue::Scalar(HeaderScalar::Name(s("Ranked")))),
        (
            s("PlayerStats"),
            HeaderValue::Array(vec![
                vec![(s("Name"), HeaderScalar::Str(s("bob"))), (s("Team"), HeaderScalar::Int(1))],
                vec![(s("Name"), HeaderScalar::Str(s("ann"))), (s("Team"), HeaderScalar::Int(0))],
            ]),
        ),
    ]
}

fn parsed() -> ParsedReplay {
    ParsedReplay {
        header: header(),
        objects: objects(),
        frames: Some(vec![
            RawFrame {
                new_actors: vec![(7, 2), (90, 6), (91, 40)],
                updates: vec![
                    update(7, 0, RawAttribute::String(s("ann"))),
                    update(7, 1, RawAttribute::ActiveActor { active: true, actor: 3 }),
                    update(1, 3, RawAttribute::Int(42)),
                ],
            },
            RawFrame {
                new_actors: vec![],
                updates: vec![
                    update(7, 5, RawAttribute::Int(1)),
                    update(7, 1, RawAttribute::ActiveActor { active: false, actor: 3 }),
                ],
            },
        ]),
    }
}

#[test]
fn bytes_that_are_no_replay_parse_to_nothing() {
    assert!(parse_replay(b"not a replay at all", false).is_none());
    assert!(parse_replay(&[], true).is_none());
}

#[test]
fn frames_become_tagged_updates_new_actors_first() {
    let ups = replay_updates_of(&parsed());
    assert_eq!(ups.len(), 8);
    assert!(ups.iter().take(6).all(|u| u.0 == 0));
    assert!(ups.iter().skip(6).all(|u| u.0 == 1));
    assert!(matches!(&ups[0].1, ActorUpdate::NewActor { actor: 7, object: Some(o) } if o == "TAGame.Default__PRI_TA"));
    assert!(matches!(&ups[1].1, ActorUpdate::NewActor { actor: 90, object: Some(o) } if o == "Archetypes.Ball.Ball_Default"));
    assert!(matches!(&ups[2].1, ActorUpdate::NewActor { actor: 91, object: None }));
    assert!(matches!(&ups[3].1, ActorUpdate::PlayerName { pri: 7, name } if name == "ann"));
    assert!(matches!(&ups[4].1, ActorUpdate::Team { pri: 7, team_actor: 3, active: true }));
    assert!(matches!(&ups[5].1, ActorUpdate::GameServerNumber(42)));
    assert!(matches!(&ups[6].1, ActorUpdate::MatchStat { pri: 7, kind: StatKind::Shot, value: 1 }));
    assert!(matches!(&ups[7].1, ActorUpdate::Team { pri: 7, team_actor: 3, active: false }));
}

#[test]
fn no_network_frames_give_no_updates() {
    let mut p = parsed();
    p.frames = None;
    assert!(replay_updates_of(&p).is_empty());
}

#[test]
fn attribute_updates_are_read_by_object_name_and_kind() {
    let demo = RawAttribute::DemolishExtended { attacker_pri: 7, attacker: 50, victim: 51 };
    assert!(matches!(
        named_update_of("TAGame.Car_TA:ReplicatedDemolishExtended", 50, &demo),
        Some(ActorUpdate::Demolish { attacker_pri: Some(7), attacker_car: Some(50), victim_car: Some(51) })
    ));
    assert!(matches!(
        named_update_of("ProjectX.GRI_X:GameServerID", 1, &RawAttribute::String(s("abc"))),
        Some(ActorUpdate::GameServerId(v)) if v == "abc"
    ));
    assert!(matches!(named_update_of("TAGame.Ball_TA:HitTeamNum", 90, &RawAttribute::Byte(1)), Some(ActorUpdate::HitTeam(1))));
    assert!(matches!(
        named_update_of("TAGame.Vehicle_TA:ReplicatedThrottle", 50, &RawAttribute::Byte(255)),
        Some(ActorUpdate::Throttle { car: 50, value: 255 })
    ));
    assert!(matches!(
        named_update_of("TAGame.CarComponent_Dodge_TA:DodgeTorque", 61, &RawAttribute::Other),
        Some(ActorUpdate::DodgeTorque { component: 61 })
    ));
    assert!(matches!(
        named_update_of("TAGame.RBActor_TA:ReplicatedRBState", 50, &RawAttribute::RigidBody),
        Some(ActorUpdate::CarState { car: 50 })
    ));
    assert!(named_update_of("Engine.PlayerReplicationInfo:PlayerName", 7, &RawAttribute::Int(3)).is_none());
    assert!(named_update_of("TAGame.Unknown:Thing", 7, &RawAttribute::Int(3)).is_none());
}

#[test]
fn a_demolition_value_makes_a_demolition_on_any_object() {
    let p = ParsedReplay {
        header: vec![],
        objects: objects(),
        frames: Some(vec![RawFrame {
            new_actors: vec![],
            updates: vec![
                update(50, 4, RawAttribute::DemolishExtended { attacker_pri: 7, attacker: 50, victim: 51 }),
                update(50, 0, RawAttribute::DemolishExtended { attacker_pri: 7, attacker: 50, victim: 51 }),
            ],
        }]),
    };
    let ups = replay_updates_of(&p);
    assert_eq!(ups.len(), 3);
    assert!(ups.iter().all(|u| matches!(u.1, ActorUpdate::Demolish { .. })));
}

#[test]
fn context_of_a_parsed_replay_uses_its_header_and_stream() {
    let ctx = replay_context_of(&parsed(), true);
    assert_eq!(ctx.playlist, s("Ranked"));
    assert_eq!(ctx.game_server_id, s("42"));
    assert_eq!(ctx.presence_events, vec![(0, s("ann"), s("game-join")), (1, s("ann"), s("game-leave"))]);
    assert_eq!(ctx.roster.team_actor_number.get(&3), Some(&0));
    assert!(ctx.ball_actors.contains(&90));
    assert_eq!(ctx.object_names.get(&91), Some(&s("")));
    assert_eq!(ctx.official_stats.len(), 1);
    assert_eq!(ctx.official_stats[0].player_name, s("ann"));
}
