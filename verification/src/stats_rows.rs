//! The per-player stats rows: one row for each player name, with the
//! event counts of the play-by-play rows, ordered by team and name.
use vstd::prelude::*;
use crate::events::{team_name, team_text};
use crate::pipeline::{info_slots, row_views, PbpRow, PbpRowView, PlayerSlotView};
use crate::player_values::{CameraTexts, PlayerInfo};
use crate::row_order::{is_stable_order, law_stable_order_unique, stable_order, KeyView, RowSortKey};
use crate::stats::{count_of, counts_as, kind_named, player_event_counts, tally, EventCounts, Stat};

verus! {

/// The columns of a stats row that come from the replay and the player:
/// the replay id, one game played, no teammate bumps, the platform, the car
/// and loadout ids, and the camera settings as text (empty when unknown).
#[derive(Clone, Debug)]
pub struct PlayerColumns {
    pub replay_id: String,
    pub platform: String,
    pub games_played: i32,
    pub teammate_bumps: i32,
    pub car_id: String,
    pub car_name: String,
    pub decal_id: String,
    pub wheels_id: String,
    pub boost_id: String,
    pub antenna_id: String,
    pub topper_id: String,
    pub engine_audio_id: String,
    pub trail_id: String,
    pub goal_explosion_id: String,
    pub primary_paint_finish_id: String,
    pub accent_paint_finish_id: String,
    pub camera_fov: String,
    pub camera_height: String,
    pub camera_angle: String,
    pub camera_distance: String,
    pub camera_stiffness: String,
    pub camera_swivel: String,
    pub camera_transition: String,
}

/// Player columns with texts as character sequences.
pub struct PlayerColumnsView {
    pub replay_id: Seq<char>,
    pub platform: Seq<char>,
    pub games_played: i32,
    pub teammate_bumps: i32,
    pub car_id: Seq<char>,
    pub car_name: Seq<char>,
    pub decal_id: Seq<char>,
    pub wheels_id: Seq<char>,
    pub boost_id: Seq<char>,
    pub antenna_id: Seq<char>,
    pub topper_id: Seq<char>,
    pub engine_audio_id: Seq<char>,
    pub trail_id: Seq<char>,
    pub goal_explosion_id: Seq<char>,
    pub primary_paint_finish_id: Seq<char>,
    pub accent_paint_finish_id: Seq<char>,
    pub camera_fov: Seq<char>,
    pub camera_height: Seq<char>,
    pub camera_angle: Seq<char>,
    pub camera_distance: Seq<char>,
    pub camera_stiffness: Seq<char>,
    pub camera_swivel: Seq<char>,
    pub camera_transition: Seq<char>,
}

impl View for PlayerColumns {
    type V = PlayerColumnsView;

    open spec fn view(&self) -> PlayerColumnsView {
        PlayerColumnsView {
            replay_id: self.replay_id@,
            platform: self.platform@,
            games_played: self.games_played,
            teammate_bumps: self.teammate_bumps,
            car_id: self.car_id@,
            car_name: self.car_name@,
            decal_id: self.decal_id@,
            wheels_id: self.wheels_id@,
            boost_id: self.boost_id@,
            antenna_id: self.antenna_id@,
            topper_id: self.topper_id@,
            engine_audio_id: self.engine_audio_id@,
            trail_id: self.trail_id@,
            goal_explosion_id: self.goal_explosion_id@,
            primary_paint_finish_id: self.primary_paint_finish_id@,
            accent_paint_finish_id: self.accent_paint_finish_id@,
            camera_fov: self.camera_fov@,
            camera_height: self.camera_height@,
            camera_angle: self.camera_angle@,
            camera_distance: self.camera_distance@,
            camera_stiffness: self.camera_stiffness@,
            camera_swivel: self.camera_swivel@,
            camera_transition: self.camera_transition@,
        }
    }
}

/// A camera setting's text, empty when the camera is unknown.
pub open spec fn camera_text(camera: Option<CameraTexts>, field: spec_fn(CameraTexts) -> Seq<char>) -> Seq<char> {
    match camera {
        Some(c) => field(c),
        None => Seq::empty(),
    }
}

/// The camera transition's text, empty when the camera or its transition
/// is unknown.
pub open spec fn transition_text(camera: Option<CameraTexts>) -> Seq<char> {
    match camera {
        Some(c) => match c.transition {
            Some(t) => t@,
            None => Seq::empty(),
        },
        None => Seq::empty(),
    }
}

/// The player columns of player `p` in replay `replay_id`.
pub open spec fn player_columns(replay_id: Seq<char>, p: PlayerInfo) -> PlayerColumnsView {
    PlayerColumnsView {
        replay_id: replay_id,
        platform: p.platform@,
        games_played: 1,
        teammate_bumps: 0,
        car_id: p.car_id@,
        car_name: p.car_name@,
        decal_id: p.decal_id@,
        wheels_id: p.wheels_id@,
        boost_id: p.boost_id@,
        antenna_id: p.antenna_id@,
        topper_id: p.topper_id@,
        engine_audio_id: p.engine_audio_id@,
        trail_id: p.trail_id@,
        goal_explosion_id: p.goal_explosion_id@,
        primary_paint_finish_id: p.primary_paint_finish_id@,
        accent_paint_finish_id: p.accent_paint_finish_id@,
        camera_fov: camera_text(p.camera, |c: CameraTexts| c.fov@),
        camera_height: camera_text(p.camera, |c: CameraTexts| c.height@),
        camera_angle: camera_text(p.camera, |c: CameraTexts| c.angle@),
        camera_distance: camera_text(p.camera, |c: CameraTexts| c.distance@),
        camera_stiffness: camera_text(p.camera, |c: CameraTexts| c.stiffness@),
        camera_swivel: camera_text(p.camera, |c: CameraTexts| c.swivel@),
        camera_transition: transition_text(p.camera),
    }
}

fn text_or_empty(camera: &Option<CameraTexts>, k: u8) -> (res: String)
    requires
        k < 6,
    ensures
        res@ == camera_text(
            *camera,
            if k == 0 {
                |c: CameraTexts| c.fov@
            } else if k == 1 {
                |c: CameraTexts| c.height@
            } else if k == 2 {
                |c: CameraTexts| c.angle@
            } else if k == 3 {
                |c: CameraTexts| c.distance@
            } else if k == 4 {
                |c: CameraTexts| c.stiffness@
            } else {
                |c: CameraTexts| c.swivel@
            },
        ),
{
    match camera {
        Some(c) => if k == 0 {
            c.fov.clone()
        } else if k == 1 {
            c.height.clone()
        } else if k == 2 {
            c.angle.clone()
        } else if k == 3 {
            c.distance.clone()
        } else if k == 4 {
            c.stiffness.clone()
        } else {
            c.swivel.clone()
        },
        None => String::new(),
    }
}

fn player_columns_of(replay_id: &str, p: &PlayerInfo) -> (res: PlayerColumns)
    ensures
        res@ == player_columns(replay_id@, *p),
{
    let transition = match &p.camera {
        Some(c) => match &c.transition {
            Some(t) => t.clone(),
            None => String::new(),
        },
        None => String::new(),
    };
    let res = PlayerColumns {
        replay_id: String::from_str(replay_id),
        platform: p.platform.clone(),
        games_played: 1,
        teammate_bumps: 0,
        car_id: p.car_id.clone(),
        car_name: p.car_name.clone(),
        decal_id: p.decal_id.clone(),
        wheels_id: p.wheels_id.clone(),
        boost_id: p.boost_id.clone(),
        antenna_id: p.antenna_id.clone(),
        topper_id: p.topper_id.clone(),
        engine_audio_id: p.engine_audio_id.clone(),
        trail_id: p.trail_id.clone(),
        goal_explosion_id: p.goal_explosion_id.clone(),
        primary_paint_finish_id: p.primary_paint_finish_id.clone(),
        accent_paint_finish_id: p.accent_paint_finish_id.clone(),
        camera_fov: text_or_empty(&p.camera, 0),
        camera_height: text_or_empty(&p.camera, 1),
        camera_angle: text_or_empty(&p.camera, 2),
        camera_distance: text_or_empty(&p.camera, 3),
        camera_stiffness: text_or_empty(&p.camera, 4),
        camera_swivel: text_or_empty(&p.camera, 5),
        camera_transition: transition,
    };
    assert(res@ =~= player_columns(replay_id@, *p));
    res
}

fn copy_columns(c: &PlayerColumns) -> (res: PlayerColumns)
    ensures
        res@ == c@,
{
    PlayerColumns {
        replay_id: c.replay_id.clone(),
        platform: c.platform.clone(),
        games_played: c.games_played,
        teammate_bumps: c.teammate_bumps,
        car_id: c.car_id.clone(),
        car_name: c.car_name.clone(),
        decal_id: c.decal_id.clone(),
        wheels_id: c.wheels_id.clone(),
        boost_id: c.boost_id.clone(),
        antenna_id: c.antenna_id.clone(),
        topper_id: c.topper_id.clone(),
        engine_audio_id: c.engine_audio_id.clone(),
        trail_id: c.trail_id.clone(),
        goal_explosion_id: c.goal_explosion_id.clone(),
        primary_paint_finish_id: c.primary_paint_finish_id.clone(),
        accent_paint_finish_id: c.accent_paint_finish_id.clone(),
        camera_fov: c.camera_fov.clone(),
        camera_height: c.camera_height.clone(),
        camera_angle: c.camera_angle.clone(),
        camera_distance: c.camera_distance.clone(),
        camera_stiffness: c.camera_stiffness.clone(),
        camera_swivel: c.camera_swivel.clone(),
        camera_transition: c.camera_transition.clone(),
    }
}

/// A player's stats row: id, name, team, team name, event counts, and the
/// player columns.
#[derive(Clone, Debug)]
pub struct StatsRow {
    pub player_id: String,
    pub player_name: String,
    pub team: String,
    pub team_name: String,
    pub counts: EventCounts,
    pub columns: PlayerColumns,
}

/// A stats row with texts as character sequences.
pub struct StatsRowView {
    pub player_id: Seq<char>,
    pub player_name: Seq<char>,
    pub team: Seq<char>,
    pub team_name: Seq<char>,
    pub counts: EventCounts,
    pub columns: PlayerColumnsView,
}

impl View for StatsRow {
    type V = StatsRowView;

    open spec fn view(&self) -> StatsRowView {
        StatsRowView {
            player_id: self.player_id@,
            player_name: self.player_name@,
            team: self.team@,
            team_name: self.team_name@,
            counts: self.counts,
            columns: self.columns@,
        }
    }
}

/// Count `s` of the player named `name` over the first `n` rows.
pub open spec fn row_tally(vs: Seq<PbpRowView>, name: Seq<char>, s: Stat, n: int) -> nat
    decreases n,
{
    if n <= 0 {
        0
    } else {
        let r = vs[n - 1];
        row_tally(vs, name, s, n - 1) + if counts_as(
            s,
            kind_named(r.event_type),
            r.player_1.name == name,
            r.player_2.name == name,
        ) {
            1nat
        } else {
            0nat
        }
    }
}

/// The name of team number `team` in a list of `(number, name)`: the first
/// entry's, empty when none has it.
pub open spec fn team_name_in(names: Seq<(i32, String)>, team: i32, k: int) -> Seq<char>
    decreases names.len() - k,
{
    if k < 0 || k >= names.len() {
        Seq::empty()
    } else if names[k].0 == team {
        names[k].1@
    } else {
        team_name_in(names, team, k + 1)
    }
}

/// No later player has the same name: the stats of a name go to its last
/// player.
pub open spec fn last_of_name(players: Seq<PlayerSlotView>, p: int) -> bool {
    forall|q: int| p < q < players.len() ==> #[trigger] players[q].name != players[p].name
}

/// The positions, among the first `n` players, of the last player of each
/// name.
pub open spec fn stat_players(players: Seq<PlayerSlotView>, n: int) -> Seq<int>
    decreases n,
{
    if n <= 0 {
        Seq::empty()
    } else if last_of_name(players, n - 1) {
        stat_players(players, n - 1).push(n - 1)
    } else {
        stat_players(players, n - 1)
    }
}

/// The stats row of player `p`.
pub open spec fn stats_row_of(
    infos: Seq<PlayerInfo>,
    replay_id: Seq<char>,
    names: Seq<(i32, String)>,
    vs: Seq<PbpRowView>,
    p: int,
) -> StatsRowView {
    let players = info_slots(infos);
    StatsRowView {
        columns: player_columns(replay_id, infos[p]),
        player_id: players[p].id,
        player_name: players[p].name,
        team: team_text(players[p].team),
        team_name: team_name_in(names, players[p].team, 0),
        counts: EventCounts {
            shots: row_tally(vs, players[p].name, Stat::Shots, vs.len() as int) as i32,
            goals: row_tally(vs, players[p].name, Stat::Goals, vs.len() as int) as i32,
            saves: row_tally(vs, players[p].name, Stat::Saves, vs.len() as int) as i32,
            assists: row_tally(vs, players[p].name, Stat::Assists, vs.len() as int) as i32,
            touches: row_tally(vs, players[p].name, Stat::Touches, vs.len() as int) as i32,
            passes: row_tally(vs, players[p].name, Stat::Passes, vs.len() as int) as i32,
            turnovers: row_tally(vs, players[p].name, Stat::Turnovers, vs.len() as int) as i32,
            challenges: row_tally(vs, players[p].name, Stat::Challenges, vs.len() as int) as i32,
            kickoffs: row_tally(vs, players[p].name, Stat::Kickoffs, vs.len() as int) as i32,
            whiffs: row_tally(vs, players[p].name, Stat::Whiffs, vs.len() as int) as i32,
            fakes: row_tally(vs, players[p].name, Stat::Fakes, vs.len() as int) as i32,
            demos_applied: row_tally(vs, players[p].name, Stat::DemosApplied, vs.len() as int) as i32,
            demos_taken: row_tally(vs, players[p].name, Stat::DemosTaken, vs.len() as int) as i32,
            bumps: row_tally(vs, players[p].name, Stat::Bumps, vs.len() as int) as i32,
            bumps_taken: row_tally(vs, players[p].name, Stat::BumpsTaken, vs.len() as int) as i32,
            entries: row_tally(vs, players[p].name, Stat::Entries, vs.len() as int) as i32,
            exits: row_tally(vs, players[p].name, Stat::Exits, vs.len() as int) as i32,
            retrievals: row_tally(vs, players[p].name, Stat::Retrievals, vs.len() as int) as i32,
            missed_shots: row_tally(vs, players[p].name, Stat::MissedShots, vs.len() as int) as i32,
            missed_passes: row_tally(vs, players[p].name, Stat::MissedPasses, vs.len() as int) as i32,
            shot_attempts: row_tally(vs, players[p].name, Stat::ShotAttempts, vs.len() as int) as i32,
        },
    }
}

/// The order key of a stats row: team, then player name.
pub open spec fn stats_key(r: StatsRowView) -> KeyView {
    (0i32, 0i32, r.team, r.player_name)
}

/// The order keys of stats rows.
pub open spec fn stats_keys(rows: Seq<StatsRowView>) -> Seq<KeyView> {
    rows.map_values(|r: StatsRowView| stats_key(r))
}

/// The stats rows, one for the last player of each name, sorted by team and
/// then name.
pub open spec fn stats_rows_spec(
    infos: Seq<PlayerInfo>,
    replay_id: Seq<char>,
    names: Seq<(i32, String)>,
    vs: Seq<PbpRowView>,
) -> Seq<StatsRowView> {
    let ps = stat_players(info_slots(infos), infos.len() as int);
    let unsorted = Seq::new(ps.len(), |i: int| stats_row_of(infos, replay_id, names, vs, ps[i]));
    let order = choose|o: Seq<usize>| is_stable_order(stats_keys(unsorted), o);
    Seq::new(unsorted.len(), |p: int| unsorted[order[p] as int])
}

proof fn lemma_tally_views(rows: Seq<(String, String, String)>, vs: Seq<PbpRowView>, name: Seq<char>, s: Stat, n: int)
    requires
        0 <= n <= rows.len(),
        rows.len() == vs.len(),
        forall|k: int|
            0 <= k < rows.len() ==> (#[trigger] rows[k]).0@ == vs[k].event_type && rows[k].1@ == vs[k].player_1.name
                && rows[k].2@ == vs[k].player_2.name,
    ensures
        tally(rows, name, s, n) == row_tally(vs, name, s, n),
    decreases n,
{
    if n > 0 {
        lemma_tally_views(rows, vs, name, s, n - 1);
        assert(rows[n - 1].0@ == vs[n - 1].event_type);
    }
}

fn team_name_lookup(names: &[(i32, String)], team: i32) -> (res: String)
    ensures
        res@ == team_name_in(names@, team, 0),
{
    let mut k: usize = 0;
    while k < names.len()
        invariant
            k <= names@.len(),
            team_name_in(names@, team, 0) == team_name_in(names@, team, k as int),
        decreases names.len() - k,
    {
        if names[k].0 == team {
            return names[k].1.clone();
        }
        k += 1;
    }
    String::new()
}

fn is_last_of_name(players: &[PlayerInfo], p: usize) -> (res: bool)
    requires
        p < players@.len(),
    ensures
        res == last_of_name(info_slots(players@), p as int),
{
    let ghost v = info_slots(players@);
    let n = players.len();
    let mut q: usize = p + 1;
    while q < players.len()
        invariant
            p < q <= players@.len(),
            v == info_slots(players@),
            forall|r: int| p < r < q ==> #[trigger] v[r].name != v[p as int].name,
        decreases players.len() - q,
    {
        assert(v[q as int].name == players@[q as int].name@ && v[q as int].team == players@[q as int].team && v[q as int].id == players@[q as int].id@);
        assert(v[p as int].name == players@[p as int].name@ && v[p as int].team == players@[p as int].team && v[p as int].id == players@[p as int].id@);
        if crate::text::str_eq(players[q].name.as_str(), players[p].name.as_str()) {
            assert(v[q as int].name == v[p as int].name);
            return false;
        }
        q += 1;
    }
    true
}

proof fn lemma_stat_players_bounded(players: Seq<PlayerSlotView>, n: int)
    requires
        0 <= n,
    ensures
        forall|i: int| 0 <= i < stat_players(players, n).len() ==> 0 <= #[trigger] stat_players(players, n)[i] < n,
        stat_players(players, n).len() <= n,
    decreases n,
{
    if n > 0 {
        lemma_stat_players_bounded(players, n - 1);
    }
}

/// The stats rows of replay `game_id` over its play-by-play rows: one row
/// for the last player of each name, with its id, team, team name (from
/// `team_names`), event counts and player columns (one game played),
/// sorted by team and then name.
pub fn native_stats_rows(game_id: &str, players: &[PlayerInfo], team_names: &[(i32, String)], rows: &[PbpRow]) -> (res:
    Vec<StatsRow>)
    requires
        rows@.len() < i32::MAX,
    ensures
        res@.map_values(|r: StatsRow| r@) == stats_rows_spec(players@, game_id@, team_names@, row_views(rows@)),
{
    let ghost pv = info_slots(players@);
    let ghost vs = row_views(rows@);
    let mut triples: Vec<(String, String, String)> = Vec::new();
    let mut j: usize = 0;
    while j < rows.len()
        invariant
            j <= rows@.len(),
            vs == row_views(rows@),
            triples@.len() == j,
            forall|k: int|
                0 <= k < j ==> (#[trigger] triples@[k]).0@ == vs[k].event_type && triples@[k].1@
                    == vs[k].player_1.name && triples@[k].2@ == vs[k].player_2.name,
        decreases rows.len() - j,
    {
        assert(vs[j as int] == rows@[j as int]@);
        triples.push((rows[j].event_type.clone(), rows[j].player_1.name.clone(), rows[j].player_2.name.clone()));
        j += 1;
    }
    let mut names: Vec<String> = Vec::new();
    let mut kept: Vec<usize> = Vec::new();
    let mut p: usize = 0;
    while p < players.len()
        invariant
            p <= players@.len(),
            pv == info_slots(players@),
            kept@.len() == names@.len(),
            kept@.map_values(|k: usize| k as int) == stat_players(pv, p as int),
            forall|i: int| 0 <= i < kept@.len() ==> #[trigger] kept@[i] < p,
            forall|i: int| 0 <= i < kept@.len() ==> (#[trigger] names@[i])@ == pv[kept@[i] as int].name,
        decreases players.len() - p,
    {
        if is_last_of_name(players, p) {
            kept.push(p);
            names.push(players[p].name.clone());
            assert(pv[p as int].name == players@[p as int].name@ && pv[p as int].team == players@[p as int].team && pv[p as int].id == players@[p as int].id@);
        }
        assert(kept@.map_values(|k: usize| k as int) =~= stat_players(pv, p + 1));
        p += 1;
    }
    let counts = player_event_counts(names.as_slice(), triples.as_slice());
    let ghost ps = stat_players(pv, pv.len() as int);
    let ghost unsorted = Seq::new(ps.len(), |i: int| stats_row_of(players@, game_id@, team_names@, vs, ps[i]));
    let mut candidates: Vec<StatsRow> = Vec::new();
    let mut keys: Vec<RowSortKey> = Vec::new();
    let mut i: usize = 0;
    while i < kept.len()
        invariant
            i <= kept@.len(),
            kept@.len() == names@.len(),
            counts@.len() == names@.len(),
            pv == info_slots(players@),
            vs == row_views(rows@),
            kept@.map_values(|k: usize| k as int) == ps,
            ps.len() == unsorted.len(),
            unsorted == Seq::new(ps.len(), |i: int| stats_row_of(players@, game_id@, team_names@, vs, ps[i])),
            forall|q: int| 0 <= q < kept@.len() ==> #[trigger] kept@[q] < players@.len(),
            forall|q: int| 0 <= q < kept@.len() ==> (#[trigger] names@[q])@ == pv[kept@[q] as int].name,
            forall|q: int, s: Stat|
                0 <= q < names@.len() ==> #[trigger] count_of(counts@[q], s) == tally(
                    triples@,
                    names@[q]@,
                    s,
                    triples@.len() as int,
                ),
            triples@.len() == vs.len(),
            forall|k: int|
                0 <= k < triples@.len() ==> (#[trigger] triples@[k]).0@ == vs[k].event_type && triples@[k].1@
                    == vs[k].player_1.name && triples@[k].2@ == vs[k].player_2.name,
            candidates@.len() == i,
            keys@.len() == i,
            forall|q: int| 0 <= q < i ==> (#[trigger] candidates@[q])@ == unsorted[q],
            forall|q: int| 0 <= q < i ==> (#[trigger] keys@[q])@ == stats_key(unsorted[q]),
        decreases kept.len() - i,
    {
        let k = kept[i];
        assert(ps[i as int] == k as int);
        assert(pv[k as int].name == players@[k as int].name@ && pv[k as int].team == players@[k as int].team && pv[k as int].id == players@[k as int].id@);
        let player = &players[k];
        let c = counts[i];
        proof {
            assert forall|s: Stat| #[trigger] count_of(c, s) == row_tally(vs, pv[k as int].name, s, vs.len() as int) by {
                lemma_tally_views(triples@, vs, names@[i as int]@, s, triples@.len() as int);
            }
            assert(count_of(c, Stat::Shots) == c.shots);
        }
        let row = StatsRow {
            player_id: player.id.clone(),
            player_name: player.name.clone(),
            team: String::from_str(team_name(player.team)),
            team_name: team_name_lookup(team_names, player.team),
            counts: c,
            columns: player_columns_of(game_id, player),
        };
        proof {
            assert(count_of(c, Stat::Goals) == c.goals);
            assert(count_of(c, Stat::Saves) == c.saves);
            assert(count_of(c, Stat::Assists) == c.assists);
            assert(count_of(c, Stat::Touches) == c.touches);
            assert(count_of(c, Stat::Passes) == c.passes);
            assert(count_of(c, Stat::Turnovers) == c.turnovers);
            assert(count_of(c, Stat::Challenges) == c.challenges);
            assert(count_of(c, Stat::Kickoffs) == c.kickoffs);
            assert(count_of(c, Stat::Whiffs) == c.whiffs);
            assert(count_of(c, Stat::Fakes) == c.fakes);
            assert(count_of(c, Stat::DemosApplied) == c.demos_applied);
            assert(count_of(c, Stat::DemosTaken) == c.demos_taken);
            assert(count_of(c, Stat::Bumps) == c.bumps);
            assert(count_of(c, Stat::BumpsTaken) == c.bumps_taken);
            assert(count_of(c, Stat::Entries) == c.entries);
            assert(count_of(c, Stat::Exits) == c.exits);
            assert(count_of(c, Stat::Retrievals) == c.retrievals);
            assert(count_of(c, Stat::MissedShots) == c.missed_shots);
            assert(count_of(c, Stat::MissedPasses) == c.missed_passes);
            assert(count_of(c, Stat::ShotAttempts) == c.shot_attempts);
            assert(row@.counts == unsorted[i as int].counts);
            assert(row@ == unsorted[i as int]);
        }
        keys.push(
            RowSortKey {
                first: 0,
                second: 0,
                first_text: row.team.clone(),
                second_text: row.player_name.clone(),
            },
        );
        candidates.push(row);
        i += 1;
    }
    let order = stable_order(keys.as_slice());
    let ghost skeys = stats_keys(unsorted);
    assert(keys@.map_values(|k: RowSortKey| k@) =~= skeys);
    proof {
        let chosen = choose|o: Seq<usize>| is_stable_order(skeys, o);
        law_stable_order_unique(skeys, order@, chosen);
    }
    let mut out: Vec<StatsRow> = Vec::new();
    let mut q: usize = 0;
    while q < order.len()
        invariant
            q <= order@.len(),
            order@.len() == unsorted.len(),
            candidates@.len() == unsorted.len(),
            forall|r: int| 0 <= r < order@.len() ==> order@[r] < unsorted.len(),
            forall|r: int| 0 <= r < candidates@.len() ==> (#[trigger] candidates@[r])@ == unsorted[r],
            out@.len() == q,
            forall|r: int| 0 <= r < q ==> (#[trigger] out@[r])@ == unsorted[order@[r] as int],
        decreases order.len() - q,
    {
        let c = &candidates[order[q]];
        out.push(
            StatsRow {
                player_id: c.player_id.clone(),
                player_name: c.player_name.clone(),
                team: c.team.clone(),
                team_name: c.team_name.clone(),
                counts: c.counts,
                columns: copy_columns(&c.columns),
            },
        );
        q += 1;
    }
    assert(out@.map_values(|r: StatsRow| r@) =~= stats_rows_spec(players@, game_id@, team_names@, vs));
    out
}

} // verus!
