//! The actor bookkeeping of a replay's network stream: which player
//! replication actor carries which name and team, which car and component
//! belong to whom, and who is in the game.
use vstd::prelude::*;
use vstd::hash_map::StringHashMap;
use vstd::hash_set::StringHashSet;
use std::collections::HashMap;
use crate::presence::PresenceEvent;

verus! {

broadcast use vstd::std_specs::hash::group_hash_axioms;

/// The actor bookkeeping of a replay's network stream.
pub struct Roster {
    /// Player replication actor to player name.
    pub pri_name: HashMap<i32, String>,
    /// Player replication actor to the team actor it plays for.
    pub pri_team_actor: HashMap<i32, i32>,
    /// Team actor to team number, learnt from players whose header team is
    /// known.
    pub team_actor_number: HashMap<i32, i32>,
    /// Car actor to its player replication actor.
    pub car_pri: HashMap<i32, i32>,
    /// Car actor to the name of its player, kept once learnt.
    pub car_player_name: HashMap<i32, String>,
    /// Car component actor to its car actor.
    pub component_vehicle: HashMap<i32, i32>,
    /// The names of the players in the game.
    pub active_players: StringHashSet,
    /// The header team of each player name.
    pub player_team: StringHashMap<i32>,
}

/// The team of the last entry named `name` among the first `n` players.
pub open spec fn header_team(players: Seq<(String, i32)>, name: Seq<char>, n: nat) -> Option<i32>
    decreases n,
{
    if n == 0 {
        None
    } else if players[n - 1].0@ == name {
        Some(players[n - 1].1)
    } else {
        header_team(players, name, (n - 1) as nat)
    }
}

/// The name of the player whose car `car` is, through its player
/// replication actor.
pub open spec fn owner_name(car_pri: Map<i32, i32>, pri_name: Map<i32, String>, car: i32) -> Option<Seq<char>> {
    if car_pri.contains_key(car) && pri_name.contains_key(car_pri[car]) {
        Some(pri_name[car_pri[car]]@)
    } else {
        None
    }
}

/// The view of an optional string.
pub open spec fn opt_view(o: Option<String>) -> Option<Seq<char>> {
    match o {
        Some(s) => Some(s@),
        None => None,
    }
}

/// The kind of presence change a team update makes for a named player:
/// joining when the team is set and the player was out, leaving when it is
/// cleared and the player was in.
pub open spec fn presence_change(was_active: bool, active: bool) -> Option<Seq<char>> {
    if active && !was_active {
        Some("game-join"@)
    } else if !active && was_active {
        Some("game-leave"@)
    } else {
        None
    }
}

/// Player replication actor `pri` plays for `team_actor` and has a name
/// with a header team.
pub open spec fn qualifies(r: Roster, team_actor: i32, pri: i32) -> bool {
    r.pri_team_actor@.contains_key(pri) && r.pri_team_actor@[pri] == team_actor && r.pri_name@.contains_key(pri)
        && r.player_team@.contains_key(r.pri_name@[pri]@)
}

/// `pri` is the lowest player replication actor that qualifies.
pub open spec fn lowest_qualifying(r: Roster, team_actor: i32, pri: i32) -> bool {
    qualifies(r, team_actor, pri) && forall|q: i32| #[trigger] qualifies(r, team_actor, q) ==> pri <= q
}

/// The team number inferred for `team_actor`: the header team of the
/// lowest qualifying player replication actor's name.
pub open spec fn inferred_team(r: Roster, team_actor: i32) -> Option<i32> {
    if team_inferable(r, team_actor) {
        let p = choose|p: i32| lowest_qualifying(r, team_actor, p);
        Some(r.player_team@[r.pri_name@[p]@])
    } else {
        None
    }
}

/// Some player replication actor playing for `team_actor` has a name with a
/// header team.
pub open spec fn team_inferable(r: Roster, team_actor: i32) -> bool {
    exists|pri: i32|
        #![trigger r.pri_team_actor@[pri]]
        r.pri_team_actor@.contains_key(pri) && r.pri_team_actor@[pri] == team_actor && r.pri_name@.contains_key(pri)
            && r.player_team@.contains_key(r.pri_name@[pri]@)
}

fn cars_owned_by(car_pri: &HashMap<i32, i32>, pri: i32) -> (res: Vec<i32>)
    ensures
        forall|c: i32| car_pri@.contains_key(c) && car_pri@[c] == pri ==> res@.contains(c),
        forall|k: int| 0 <= k < res@.len() ==> car_pri@.contains_key(res@[k]) && car_pri@[res@[k]] == pri,
{
    let mut out: Vec<i32> = Vec::new();
    for item in it: car_pri.iter()
        invariant
            forall|k: int| 0 <= k < it.index() ==> (*it.seq()[k].1 == pri ==> out@.contains(*it.seq()[k].0)),
            forall|k: int| 0 <= k < out@.len() ==> car_pri@.contains_key(out@[k]) && car_pri@[out@[k]] == pri,
    {
        let (c, p) = item;
        let ghost old_out = out@;
        if *p == pri {
            out.push(*c);
            proof {
                assert forall|x: i32| old_out.contains(x) implies out@.contains(x) by {
                    let w = choose|w: int| 0 <= w < old_out.len() && old_out[w] == x;
                    assert(out@[w] == x);
                }
                assert(out@[out@.len() - 1] == *c);
            }
        }
    }
    out
}

/// The presence events of one named player over a run of team updates
/// (`true` sets the team, `false` clears it), starting in the game or not.
pub open spec fn presence_events(updates: Seq<bool>, was: bool) -> Seq<Seq<char>>
    decreases updates.len(),
{
    if updates.len() == 0 {
        Seq::empty()
    } else {
        let first = match presence_change(was, updates[0]) {
            Some(kind) => seq![kind],
            None => Seq::empty(),
        };
        first + presence_events(updates.drop_first(), updates[0])
    }
}

/// A named player's joins and leaves alternate: two events in a row are
/// never of the same kind, and a player who starts out of the game joins
/// first.
pub proof fn law_presence_alternates(updates: Seq<bool>, was: bool)
    ensures
        forall|i: int|
            0 <= i < presence_events(updates, was).len() - 1 ==> #[trigger] presence_events(updates, was)[i]
                != presence_events(updates, was)[i + 1],
        forall|i: int| 0 <= i < presence_events(updates, was).len() ==> {
            ||| #[trigger] presence_events(updates, was)[i] == "game-join"@
            ||| presence_events(updates, was)[i] == "game-leave"@
        },
        !was && presence_events(updates, was).len() > 0 ==> presence_events(updates, was)[0] == "game-join"@,
        was && presence_events(updates, was).len() > 0 ==> presence_events(updates, was)[0] == "game-leave"@,
    decreases updates.len(),
{
    reveal_strlit("game-join");
    reveal_strlit("game-leave");
    if updates.len() > 0 {
        let rest = updates.drop_first();
        law_presence_alternates(rest, updates[0]);
        let tail = presence_events(rest, updates[0]);
        let all = presence_events(updates, was);
        match presence_change(was, updates[0]) {
            Some(kind) => {
                assert(all == seq![kind] + tail);
                assert forall|i: int| 0 <= i < all.len() - 1 implies #[trigger] all[i] != all[i + 1] by {
                    if i == 0 {
                        if tail.len() > 0 {
                            assert(all[1] == tail[0]);
                        }
                    } else {
                        assert(all[i] == tail[i - 1]);
                        assert(all[i + 1] == tail[i]);
                    }
                }
                assert forall|i: int| 0 <= i < all.len() implies {
                    ||| #[trigger] all[i] == "game-join"@
                    ||| all[i] == "game-leave"@
                } by {
                    if i > 0 {
                        assert(all[i] == tail[i - 1]);
                    }
                }
            },
            None => {
                assert(all =~= tail);
                assert(updates[0] == was);
            },
        }
    }
}

impl Roster {
    /// An empty roster for a game whose header lists `players` as
    /// `(name, team)`; where a name repeats, its last team counts.
    pub fn new(players: &[(String, i32)]) -> (res: Roster)
        ensures
            res.pri_name@ == Map::<i32, String>::empty(),
            res.pri_team_actor@ == Map::<i32, i32>::empty(),
            res.team_actor_number@ == Map::<i32, i32>::empty(),
            res.car_pri@ == Map::<i32, i32>::empty(),
            res.car_player_name@ == Map::<i32, String>::empty(),
            res.component_vehicle@ == Map::<i32, i32>::empty(),
            res.active_players@ == Set::<Seq<char>>::empty(),
            forall|name: Seq<char>|
                #![trigger res.player_team@.contains_key(name)]
                (res.player_team@.contains_key(name) <==> header_team(players@, name, players@.len()) is Some)
                    && (res.player_team@.contains_key(name) ==> res.player_team@[name] == header_team(
                    players@,
                    name,
                    players@.len(),
                )->0),
    {
        let mut player_team: StringHashMap<i32> = StringHashMap::new();
        let mut i: usize = 0;
        while i < players.len()
            invariant
                i <= players@.len(),
                forall|name: Seq<char>|
                    #![trigger player_team@.contains_key(name)]
                    (player_team@.contains_key(name) <==> header_team(players@, name, i as nat) is Some) && (
                    player_team@.contains_key(name) ==> player_team@[name] == header_team(players@, name, i as nat)->0),
            decreases players.len() - i,
        {
            player_team.insert(players[i].0.clone(), players[i].1);
            i += 1;
        }
        Roster {
            pri_name: HashMap::new(),
            pri_team_actor: HashMap::new(),
            team_actor_number: HashMap::new(),
            car_pri: HashMap::new(),
            car_player_name: HashMap::new(),
            component_vehicle: HashMap::new(),
            active_players: StringHashSet::new(),
            player_team,
        }
    }

    /// A player replication actor announces its player's name: the name is
    /// recorded, and every car that actor owns takes it as its player's
    /// name.
    pub fn set_player_name(&mut self, pri: i32, name: String)
        ensures
            final(self).pri_name@ == old(self).pri_name@.insert(pri, name),
            forall|c: i32|
                #![trigger final(self).car_player_name@.contains_key(c)]
                old(self).car_pri@.contains_key(c) && old(self).car_pri@[c] == pri ==> final(self).car_player_name@.contains_key(c) && final(self).car_player_name@[c]@ == name@,
            forall|c: i32|
                #![trigger final(self).car_player_name@.contains_key(c)]
                !(old(self).car_pri@.contains_key(c) && old(self).car_pri@[c] == pri) ==> (final(self).car_player_name@.contains_key(c) == old(self).car_player_name@.contains_key(c) && (old(self).car_player_name@.contains_key(c) ==> final(self).car_player_name@[c] == old(self).car_player_name@[c])),
            final(self).pri_team_actor@ == old(self).pri_team_actor@,
            final(self).team_actor_number@ == old(self).team_actor_number@,
            final(self).car_pri@ == old(self).car_pri@,
            final(self).component_vehicle@ == old(self).component_vehicle@,
            final(self).active_players@ == old(self).active_players@,
            final(self).player_team@ == old(self).player_team@,
    {
        let cars = cars_owned_by(&self.car_pri, pri);
        let ghost start = self.car_player_name@;
        let mut k: usize = 0;
        while k < cars.len()
            invariant
                k <= cars@.len(),
                self.pri_name@ == old(self).pri_name@,
                self.pri_team_actor@ == old(self).pri_team_actor@,
                self.team_actor_number@ == old(self).team_actor_number@,
                self.car_pri@ == old(self).car_pri@,
                self.component_vehicle@ == old(self).component_vehicle@,
                self.active_players@ == old(self).active_players@,
                self.player_team@ == old(self).player_team@,
                start == old(self).car_player_name@,
                forall|j: int| 0 <= j < cars@.len() ==> self.car_pri@.contains_key(cars@[j]) && self.car_pri@[cars@[j]] == pri,
                forall|c: i32|
                    #![trigger self.car_player_name@.contains_key(c)]
                    cars@.subrange(0, k as int).contains(c) ==> self.car_player_name@.contains_key(c)
                        && self.car_player_name@[c]@ == name@,
                forall|c: i32|
                    #![trigger self.car_player_name@.contains_key(c)]
                    !cars@.subrange(0, k as int).contains(c) ==> (self.car_player_name@.contains_key(c)
                        == start.contains_key(c) && (start.contains_key(c) ==> self.car_player_name@[c] == start[c])),
            decreases cars.len() - k,
        {
            let car = cars[k];
            self.car_player_name.insert(car, name.clone());
            proof {
                assert forall|c: i32| cars@.subrange(0, k + 1).contains(c) == (cars@.subrange(0, k as int).contains(c)
                    || c == car) by {
                    let s1 = cars@.subrange(0, k + 1);
                    let s0 = cars@.subrange(0, k as int);
                    if s1.contains(c) {
                        let w = choose|w: int| 0 <= w < s1.len() && s1[w] == c;
                        if w < k {
                            assert(s0[w] == c);
                        }
                    }
                    if s0.contains(c) {
                        let w = choose|w: int| 0 <= w < s0.len() && s0[w] == c;
                        assert(s1[w] == c);
                    }
                    if c == car {
                        assert(s1[k as int] == c);
                    }
                }
            }
            k += 1;
        }
        assert(cars@.subrange(0, cars@.len() as int) =~= cars@);
        self.pri_name.insert(pri, name);
        proof {
            assert forall|c: i32| !(self.car_pri@.contains_key(c) && self.car_pri@[c] == pri) implies !cars@.contains(c) by {
                if cars@.contains(c) {
                    let w = choose|w: int| 0 <= w < cars@.len() && cars@[w] == c;
                }
            }
        }
    }

    /// A player replication actor's team is set (`active`) or cleared. The
    /// team actor is recorded or forgotten; when the actor's player is named,
    /// the player joins or leaves the game, which the returned
    /// `(frame, name, kind)` reports, and a set team whose player has a
    /// header team teaches the team actor its number.
    pub fn set_team(&mut self, pri: i32, team_actor: i32, active: bool, frame: i32) -> (res: Option<PresenceEvent>)
        ensures
            final(self).pri_team_actor@ == if active {
                old(self).pri_team_actor@.insert(pri, team_actor)
            } else {
                old(self).pri_team_actor@.remove(pri)
            },
            !old(self).pri_name@.contains_key(pri) ==> res is None && final(self).active_players@ == old(self).active_players@ && final(self).team_actor_number@ == old(self).team_actor_number@,
            old(self).pri_name@.contains_key(pri) ==> ({
                let name = old(self).pri_name@[pri]@;
                let was = old(self).active_players@.contains(name);
                &&& final(self).active_players@ == if active {
                    old(self).active_players@.insert(name)
                } else {
                    old(self).active_players@.remove(name)
                }
                &&& match presence_change(was, active) {
                    Some(kind) => res matches Some(e) && e.0 == frame && e.1@ == name && e.2@ == kind,
                    None => res is None,
                }
                &&& final(self).team_actor_number@ == if active && old(self).player_team@.contains_key(name) {
                    old(self).team_actor_number@.insert(team_actor, old(self).player_team@[name])
                } else {
                    old(self).team_actor_number@
                }
            }),
            final(self).pri_name@ == old(self).pri_name@,
            final(self).car_pri@ == old(self).car_pri@,
            final(self).car_player_name@ == old(self).car_player_name@,
            final(self).component_vehicle@ == old(self).component_vehicle@,
            final(self).player_team@ == old(self).player_team@,
    {
        if active {
            self.pri_team_actor.insert(pri, team_actor);
        } else {
            self.pri_team_actor.remove(&pri);
        }
        let name = match self.pri_name.get(&pri) {
            Some(n) => n.clone(),
            None => {
                return None;
            },
        };
        let mut res: Option<PresenceEvent> = None;
        if active {
            if self.active_players.insert(name.clone()) {
                res = Some((frame, name.clone(), String::from_str("game-join")));
            }
            match self.player_team.get(name.as_str()) {
                Some(t) => {
                    self.team_actor_number.insert(team_actor, *t);
                },
                None => {},
            }
        } else {
            if self.active_players.remove(name.as_str()) {
                res = Some((frame, name.clone(), String::from_str("game-leave")));
            }
        }
        res
    }

    /// A car announces its player replication actor; where that actor's
    /// player is named, the car takes the name.
    pub fn set_car_owner(&mut self, car: i32, pri: i32)
        ensures
            final(self).car_pri@ == old(self).car_pri@.insert(car, pri),
            final(self).car_player_name@ == if old(self).pri_name@.contains_key(pri) {
                old(self).car_player_name@.insert(car, old(self).pri_name@[pri])
            } else {
                old(self).car_player_name@
            },
            final(self).pri_name@ == old(self).pri_name@,
            final(self).pri_team_actor@ == old(self).pri_team_actor@,
            final(self).team_actor_number@ == old(self).team_actor_number@,
            final(self).component_vehicle@ == old(self).component_vehicle@,
            final(self).active_players@ == old(self).active_players@,
            final(self).player_team@ == old(self).player_team@,
    {
        self.car_pri.insert(car, pri);
        match self.pri_name.get(&pri) {
            Some(n) => {
                let n = n.clone();
                self.car_player_name.insert(car, n);
            },
            None => {},
        }
    }

    /// A car component announces its car; only a set link is recorded.
    pub fn set_component_vehicle(&mut self, component: i32, car: i32, active: bool)
        ensures
            final(self).component_vehicle@ == if active {
                old(self).component_vehicle@.insert(component, car)
            } else {
                old(self).component_vehicle@
            },
            final(self).pri_name@ == old(self).pri_name@,
            final(self).pri_team_actor@ == old(self).pri_team_actor@,
            final(self).team_actor_number@ == old(self).team_actor_number@,
            final(self).car_pri@ == old(self).car_pri@,
            final(self).car_player_name@ == old(self).car_player_name@,
            final(self).active_players@ == old(self).active_players@,
            final(self).player_team@ == old(self).player_team@,
    {
        if active {
            self.component_vehicle.insert(component, car);
        }
    }

    /// The name of the player driving `car`, through its player replication
    /// actor.
    pub fn player_name_for_car(&self, car: i32) -> (res: Option<String>)
        ensures
            opt_view(res) == owner_name(self.car_pri@, self.pri_name@, car),
    {
        match self.car_pri.get(&car) {
            Some(pri) => match self.pri_name.get(pri) {
                Some(n) => Some(n.clone()),
                None => None,
            },
            None => None,
        }
    }

    /// The name of the player whose car carries component `component`.
    pub fn component_player_name(&self, component: i32) -> (res: Option<String>)
        ensures
            opt_view(res) == if self.component_vehicle@.contains_key(component) {
                owner_name(self.car_pri@, self.pri_name@, self.component_vehicle@[component])
            } else {
                None
            },
    {
        match self.component_vehicle.get(&component) {
            Some(car) => self.player_name_for_car(*car),
            None => None,
        }
    }

    /// The team number of a team actor found through the players playing
    /// for it: the header team of the named player with the lowest player
    /// replication actor among them.
    pub fn infer_team_number(&self, team_actor: i32) -> (res: Option<i32>)
        ensures
            res == inferred_team(*self, team_actor),
            res is Some ==> exists|p: i32| lowest_qualifying(*self, team_actor, p),
    {
        let mut best: Option<(i32, i32)> = None;
        for item in it: self.pri_team_actor.iter()
            invariant
                match best {
                    Some(b) => qualifies(*self, team_actor, b.0) && b.1 == self.player_team@[self.pri_name@[b.0]@]
                        && forall|k: int|
                        0 <= k < it.index() && qualifies(*self, team_actor, *(#[trigger] it.seq()[k]).0) ==> b.0
                            <= *it.seq()[k].0,
                    None => forall|k: int|
                        0 <= k < it.index() ==> !qualifies(*self, team_actor, *(#[trigger] it.seq()[k]).0),
                },
        {
            let (pri, actor) = item;
            if *actor == team_actor {
                match self.pri_name.get(pri) {
                    Some(name) => match self.player_team.get(name.as_str()) {
                        Some(t) => {
                            assert(self.pri_team_actor@[*pri] == team_actor);
                            assert(qualifies(*self, team_actor, *pri));
                            let better = match best {
                                Some(b) => *pri < b.0,
                                None => true,
                            };
                            if better {
                                best = Some((*pri, *t));
                            }
                        },
                        None => {},
                    },
                    None => {},
                }
            }
        }
        proof {
            assert forall|q: i32| qualifies(*self, team_actor, q) implies (best matches Some(b) && b.0 <= q) by {
                assert(self.pri_team_actor@.contains_key(q));
            }
            match best {
                Some(b) => {
                    assert(lowest_qualifying(*self, team_actor, b.0));
                    let p = choose|p: i32| lowest_qualifying(*self, team_actor, p);
                    assert(qualifies(*self, team_actor, p) && p <= b.0 && b.0 <= p);
                    assert(team_inferable(*self, team_actor)) by {
                        assert(self.pri_team_actor@[b.0] == team_actor);
                    }
                },
                None => {
                    if team_inferable(*self, team_actor) {
                        let pri = choose|pri: i32|
                            #![trigger self.pri_team_actor@[pri]]
                            self.pri_team_actor@.contains_key(pri) && self.pri_team_actor@[pri] == team_actor
                                && self.pri_name@.contains_key(pri) && self.player_team@.contains_key(self.pri_name@[pri]@);
                        assert(qualifies(*self, team_actor, pri));
                    }
                },
            }
        }
        match best {
            Some(b) => Some(b.1),
            None => None,
        }
    }

    /// The team number of a team actor: the number it learnt, else one
    /// inferred through the players playing for it.
    pub fn team_number(&self, team_actor: i32) -> (res: Option<i32>)
        ensures
            self.team_actor_number@.contains_key(team_actor) ==> res == Some(self.team_actor_number@[team_actor]),
            !self.team_actor_number@.contains_key(team_actor) ==> res == inferred_team(*self, team_actor),
            !self.team_actor_number@.contains_key(team_actor) && res is Some ==> exists|p: i32|
                lowest_qualifying(*self, team_actor, p),
    {
        match self.team_actor_number.get(&team_actor) {
            Some(t) => Some(*t),
            None => self.infer_team_number(team_actor),
        }
    }

    /// The player an actor's attribute update belongs to: through the car
    /// of a component, else through the actor as a car, else the actor as a
    /// player replication actor.
    pub fn actor_player_name(&self, actor: i32) -> (res: Option<String>)
        ensures
            opt_view(res) == match (if self.component_vehicle@.contains_key(actor) {
                owner_name(self.car_pri@, self.pri_name@, self.component_vehicle@[actor])
            } else {
                None
            }) {
                Some(n) => Some(n),
                None => match owner_name(self.car_pri@, self.pri_name@, actor) {
                    Some(n) => Some(n),
                    None => if self.pri_name@.contains_key(actor) {
                        Some(self.pri_name@[actor]@)
                    } else {
                        None
                    },
                },
            },
    {
        match self.component_player_name(actor) {
            Some(n) => Some(n),
            None => match self.player_name_for_car(actor) {
                Some(n) => Some(n),
                None => match self.pri_name.get(&actor) {
                    Some(n) => Some(n.clone()),
                    None => None,
                },
            },
        }
    }

    /// The attacker and victim names of a demolition: the attacker by its
    /// player replication actor, else through its car; the victim through its
    /// car's player replication actor, else by the name its car last had.
    /// Both must be known.
    pub fn demolish_names(&self, attacker_pri: Option<i32>, attacker_car: Option<i32>, victim_car: Option<i32>) -> (res:
        Option<(String, String)>)
        ensures
            ({
                let attacker = match attacker_pri {
                    Some(p) if self.pri_name@.contains_key(p) => Some(self.pri_name@[p]@),
                    _ => match attacker_car {
                        Some(c) => owner_name(self.car_pri@, self.pri_name@, c),
                        None => None,
                    },
                };
                let victim = match victim_car {
                    Some(c) => match owner_name(self.car_pri@, self.pri_name@, c) {
                        Some(n) => Some(n),
                        None => if self.car_player_name@.contains_key(c) {
                            Some(self.car_player_name@[c]@)
                        } else {
                            None
                        },
                    },
                    None => None,
                };
                match res {
                    Some(pair) => attacker == Some(pair.0@) && victim == Some(pair.1@),
                    None => attacker is None || victim is None,
                }
            }),
    {
        let by_pri = match attacker_pri {
            Some(p) => match self.pri_name.get(&p) {
                Some(n) => Some(n.clone()),
                None => None,
            },
            None => None,
        };
        let attacker = match by_pri {
            Some(n) => Some(n),
            None => match attacker_car {
                Some(c) => self.player_name_for_car(c),
                None => None,
            },
        };
        let victim = match victim_car {
            Some(c) => match self.player_name_for_car(c) {
                Some(n) => Some(n),
                None => match self.car_player_name.get(&c) {
                    Some(n) => Some(n.clone()),
                    None => None,
                },
            },
            None => None,
        };
        match (attacker, victim) {
            (Some(a), Some(v)) => Some((a, v)),
            _ => None,
        }
    }
}

} // verus!
