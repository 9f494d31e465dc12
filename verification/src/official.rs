//! Official stat credits read from the replay's match-stat counters.
use vstd::prelude::*;
use std::collections::HashMap;
use crate::text::str_eq;
use crate::row_order::{is_stable_order, stable_order, KeyView, RowSortKey};
use vstd::string::StringExecFns;

verus! {

broadcast use vstd::std_specs::hash::group_hash_axioms;

/// The kinds of official stats a replay counts.
#[derive(Clone, Copy, Debug, PartialEq, Eq, Structural)]
pub enum StatKind {
    Shot,
    Goal,
    Assist,
    Save,
}

/// One official stat credit, numbered per player and kind.
#[derive(Clone, Debug)]
pub struct OfficialStatEvent {
    pub pri_actor_id: Option<i32>,
    pub frame_number: i32,
    pub player_name: String,
    pub stat_type: StatKind,
    pub stat_number: i32,
}

/// A credit whose player name is not known yet.
#[derive(Clone, Copy, Debug, PartialEq, Eq, Structural)]
pub struct PendingOfficialStatEvent {
    pub pri_actor_id: i32,
    pub frame_number: i32,
    pub stat_type: StatKind,
    pub stat_number: i32,
}

/// The latest counter value seen for each player actor, per kind.
#[derive(Debug)]
pub struct LatestMatchStats {
    pub shots: HashMap<i32, i32>,
    pub goals: HashMap<i32, i32>,
    pub assists: HashMap<i32, i32>,
    pub saves: HashMap<i32, i32>,
}

impl LatestMatchStats {
    /// No counters seen.
    pub fn new() -> (res: LatestMatchStats)
        ensures
            res.shots@ == Map::<i32, i32>::empty(),
            res.goals@ == Map::<i32, i32>::empty(),
            res.assists@ == Map::<i32, i32>::empty(),
            res.saves@ == Map::<i32, i32>::empty(),
    {
        LatestMatchStats {
            shots: HashMap::new(),
            goals: HashMap::new(),
            assists: HashMap::new(),
            saves: HashMap::new(),
        }
    }

    /// The counters of one kind.
    pub open spec fn table(self, kind: StatKind) -> Map<i32, i32> {
        match kind {
            StatKind::Shot => self.shots@,
            StatKind::Goal => self.goals@,
            StatKind::Assist => self.assists@,
            StatKind::Save => self.saves@,
        }
    }

    /// The latest counter of a player actor and kind; 0 before any.
    pub open spec fn latest(self, actor: i32, kind: StatKind) -> int {
        if self.table(kind).contains_key(actor) {
            self.table(kind)[actor] as int
        } else {
            0
        }
    }

    fn get(&self, actor: i32, kind: StatKind) -> (res: i32)
        ensures
            res == self.latest(actor, kind),
    {
        let table = match kind {
            StatKind::Shot => &self.shots,
            StatKind::Goal => &self.goals,
            StatKind::Assist => &self.assists,
            StatKind::Save => &self.saves,
        };
        match table.get(&actor) {
            Some(v) => *v,
            None => 0,
        }
    }

    fn set(&mut self, actor: i32, kind: StatKind, value: i32)
        ensures
            final(self).table(kind) == old(self).table(kind).insert(actor, value),
            forall|k: StatKind| k != kind ==> #[trigger] final(self).table(k) == old(self).table(k),
    {
        match kind {
            StatKind::Shot => {
                self.shots.insert(actor, value);
            },
            StatKind::Goal => {
                self.goals.insert(actor, value);
            },
            StatKind::Assist => {
                self.assists.insert(actor, value);
            },
            StatKind::Save => {
                self.saves.insert(actor, value);
            },
        }
    }
}

/// The name of a player actor, when it is known and not empty.
pub open spec fn known_name(pri_name: Map<i32, String>, actor: i32) -> Option<String> {
    if pri_name.contains_key(actor) && pri_name[actor]@.len() > 0 {
        Some(pri_name[actor])
    } else {
        None
    }
}

fn lookup_name(pri_name: &HashMap<i32, String>, actor: i32) -> (res: Option<String>)
    ensures
        res == known_name(pri_name@, actor),
{
    match pri_name.get(&actor) {
        Some(name) => if name.unicode_len() > 0 {
            Some(name.clone())
        } else {
            None
        },
        None => None,
    }
}

/// Records a player's match-stat counter reaching `value`: when it rises
/// above the latest value seen, one credit is made for each new number, in
/// order; credits go to `official_stats` when the player's name is known and
/// to `pending_official_stats` otherwise.
pub fn record_official_stat(
    official_stats: &mut Vec<OfficialStatEvent>,
    pending_official_stats: &mut Vec<PendingOfficialStatEvent>,
    latest_match_stats: &mut LatestMatchStats,
    pri_name: &HashMap<i32, String>,
    pri_actor_id: i32,
    stat_type: StatKind,
    value: i32,
    frame_number: i32,
)
    ensures
        ({
            let prior = old(latest_match_stats).latest(pri_actor_id, stat_type);
            let name = known_name(pri_name@, pri_actor_id);
            let added = if value > prior {
                value - prior
            } else {
                0
            };
            &&& value <= prior ==> final(latest_match_stats).table(stat_type) == old(
                latest_match_stats,
            ).table(stat_type)
            &&& value > prior ==> final(latest_match_stats).table(stat_type) == old(
                latest_match_stats,
            ).table(stat_type).insert(pri_actor_id, value)
            &&& forall|k: StatKind|
                k != stat_type ==> #[trigger] final(latest_match_stats).table(k) == old(
                    latest_match_stats,
                ).table(k)
            &&& name is Some ==> final(pending_official_stats)@ == old(pending_official_stats)@
            &&& name is Some ==> final(official_stats)@.len() == old(official_stats)@.len() + added
            &&& name is Some ==> forall|i: int| 0 <= i < old(official_stats)@.len() ==> #[trigger] final(official_stats)@[i] == old(official_stats)@[i]
            &&& name is Some ==> forall|i: int|
                0 <= i < added ==> {
                    let e = #[trigger] final(official_stats)@[old(official_stats)@.len() + i];
                    &&& e.pri_actor_id == Some(pri_actor_id)
                    &&& e.frame_number == frame_number
                    &&& e.player_name == name.unwrap()
                    &&& e.stat_type == stat_type
                    &&& e.stat_number == prior + 1 + i
                }
            &&& name is None ==> final(official_stats)@ == old(official_stats)@
            &&& name is None ==> final(pending_official_stats)@ == old(pending_official_stats)@
                + Seq::new(
                added as nat,
                |i: int|
                    PendingOfficialStatEvent {
                        pri_actor_id,
                        frame_number,
                        stat_type,
                        stat_number: (prior + 1 + i) as i32,
                    },
            )
        }),
{
    let prior = latest_match_stats.get(pri_actor_id, stat_type);
    if value <= prior {
        assert(pending_official_stats@ =~= pending_official_stats@ + Seq::<PendingOfficialStatEvent>::empty());
        return;
    }
    latest_match_stats.set(pri_actor_id, stat_type, value);
    let player_name = lookup_name(pri_name, pri_actor_id);
    let ghost start_official = official_stats@;
    let ghost start_pending = pending_official_stats@;
    let ghost pending_added = Seq::new(
        (value - prior) as nat,
        |i: int|
            PendingOfficialStatEvent {
                pri_actor_id,
                frame_number,
                stat_type,
                stat_number: (prior + 1 + i) as i32,
            },
    );
    let mut stat_number: i32 = prior;
    while stat_number < value
        invariant
            prior <= stat_number <= value,
            player_name == known_name(pri_name@, pri_actor_id),
            player_name is Some ==> pending_official_stats@ == start_pending,
            player_name is Some ==> official_stats@.len() == start_official.len() + (stat_number - prior),
            player_name is Some ==> forall|i: int| 0 <= i < start_official.len() ==> #[trigger] official_stats@[i] == start_official[i],
            player_name is Some ==> forall|i: int|
                0 <= i < stat_number - prior ==> {
                    let e = #[trigger] official_stats@[start_official.len() + i];
                    &&& e.pri_actor_id == Some(pri_actor_id)
                    &&& e.frame_number == frame_number
                    &&& e.player_name == player_name.unwrap()
                    &&& e.stat_type == stat_type
                    &&& e.stat_number == prior + 1 + i
                },
            player_name is None ==> official_stats@ == start_official,
            player_name is None ==> pending_official_stats@ == start_pending + pending_added.subrange(
                0,
                stat_number - prior,
            ),
            pending_added.len() == value - prior,
            forall|i: int| 0 <= i < value - prior ==> #[trigger] pending_added[i] == (PendingOfficialStatEvent {
                pri_actor_id,
                frame_number,
                stat_type,
                stat_number: (prior + 1 + i) as i32,
            }),
        decreases value - stat_number,
    {
        stat_number = stat_number + 1;
        match &player_name {
            Some(name) => {
                official_stats.push(
                    OfficialStatEvent {
                        pri_actor_id: Some(pri_actor_id),
                        frame_number,
                        player_name: name.clone(),
                        stat_type,
                        stat_number,
                    },
                );
            },
            None => {
                pending_official_stats.push(
                    PendingOfficialStatEvent { pri_actor_id, frame_number, stat_type, stat_number },
                );
                proof {
                    assert(pending_added.subrange(0, stat_number - prior) =~= pending_added.subrange(
                        0,
                        stat_number - prior - 1,
                    ).push(pending_added[stat_number - prior - 1]));
                }
            },
        }
    }
    proof {
        assert(pending_added.subrange(0, value - prior) =~= pending_added);
    }
}


/// A pending credit is flushed for the actor filter `only`: it matches the
/// filter (or there is none) and its player's name is known.
pub open spec fn flushes(p: PendingOfficialStatEvent, pri_name: Map<i32, String>, only: Option<i32>) -> bool {
    (only is None || only == Some(p.pri_actor_id)) && known_name(pri_name, p.pri_actor_id) is Some
}

/// The credit a flushed pending credit becomes.
pub open spec fn resolved(p: PendingOfficialStatEvent, pri_name: Map<i32, String>) -> OfficialStatEvent {
    OfficialStatEvent {
        pri_actor_id: Some(p.pri_actor_id),
        frame_number: p.frame_number,
        player_name: known_name(pri_name, p.pri_actor_id).unwrap(),
        stat_type: p.stat_type,
        stat_number: p.stat_number,
    }
}

/// The credits flushed from the first `n` pending credits, in order.
pub open spec fn flushed_upto(pending: Seq<PendingOfficialStatEvent>, pri_name: Map<i32, String>, only: Option<i32>, n: int) -> Seq<OfficialStatEvent>
    decreases n,
{
    if n <= 0 {
        Seq::empty()
    } else if flushes(pending[n - 1], pri_name, only) {
        flushed_upto(pending, pri_name, only, n - 1).push(resolved(pending[n - 1], pri_name))
    } else {
        flushed_upto(pending, pri_name, only, n - 1)
    }
}

/// The credits among the first `n` that stay pending, in order.
pub open spec fn kept_pending_upto(pending: Seq<PendingOfficialStatEvent>, pri_name: Map<i32, String>, only: Option<i32>, n: int) -> Seq<PendingOfficialStatEvent>
    decreases n,
{
    if n <= 0 {
        Seq::empty()
    } else if flushes(pending[n - 1], pri_name, only) {
        kept_pending_upto(pending, pri_name, only, n - 1)
    } else {
        kept_pending_upto(pending, pri_name, only, n - 1).push(pending[n - 1])
    }
}

/// Moves the pending credits whose player names are now known (restricted
/// to one actor when `pri_actor_id` is given) to `official_stats`, in order.
pub fn flush_pending_official_stats(
    official_stats: &mut Vec<OfficialStatEvent>,
    pending_official_stats: &mut Vec<PendingOfficialStatEvent>,
    pri_name: &HashMap<i32, String>,
    pri_actor_id: Option<i32>,
)
    ensures
        final(official_stats)@ == old(official_stats)@ + flushed_upto(
            old(pending_official_stats)@,
            pri_name@,
            pri_actor_id,
            old(pending_official_stats)@.len() as int,
        ),
        final(pending_official_stats)@ == kept_pending_upto(
            old(pending_official_stats)@,
            pri_name@,
            pri_actor_id,
            old(pending_official_stats)@.len() as int,
        ),
{
    let ghost start = official_stats@;
    let mut remaining: Vec<PendingOfficialStatEvent> = Vec::new();
    let mut i: usize = 0;
    while i < pending_official_stats.len()
        invariant
            i <= pending_official_stats@.len(),
            official_stats@ == start + flushed_upto(pending_official_stats@, pri_name@, pri_actor_id, i as int),
            remaining@ == kept_pending_upto(pending_official_stats@, pri_name@, pri_actor_id, i as int),
        decreases pending_official_stats@.len() - i,
    {
        let pending = pending_official_stats[i];
        let matches = match pri_actor_id {
            Some(actor_id) => pending.pri_actor_id == actor_id,
            None => true,
        };
        if !matches {
            remaining.push(pending);
        } else {
            match lookup_name(pri_name, pending.pri_actor_id) {
                Some(player_name) => {
                    official_stats.push(
                        OfficialStatEvent {
                            pri_actor_id: Some(pending.pri_actor_id),
                            frame_number: pending.frame_number,
                            player_name,
                            stat_type: pending.stat_type,
                            stat_number: pending.stat_number,
                        },
                    );
                },
                None => remaining.push(pending),
            }
        }
        proof {
            assert(start + flushed_upto(pending_official_stats@, pri_name@, pri_actor_id, i + 1) =~= if flushes(
                pending_official_stats@[i as int],
                pri_name@,
                pri_actor_id,
            ) {
                (start + flushed_upto(pending_official_stats@, pri_name@, pri_actor_id, i as int)).push(
                    resolved(pending_official_stats@[i as int], pri_name@),
                )
            } else {
                start + flushed_upto(pending_official_stats@, pri_name@, pri_actor_id, i as int)
            });
        }
        i = i + 1;
    }
    *pending_official_stats = remaining;
}

/// The goals summed for team 0 (`blue`) or team 1 over the first `n`
/// player entries of `(goals, team)`; a missing goal count is 0.
pub open spec fn team_goals(players: Seq<(Option<i32>, Option<i32>)>, team: i32, n: int) -> int
    decreases n,
{
    if n <= 0 {
        0
    } else {
        team_goals(players, team, n - 1) + if players[n - 1].1 == Some(team) {
            match players[n - 1].0 {
                Some(g) => g as int,
                None => 0,
            }
        } else {
            0
        }
    }
}

/// The final `(blue, orange)` score given each player's `(goals, team)`:
/// goals summed by team.
pub fn final_score_from_stats(players: &[(Option<i32>, Option<i32>)]) -> (res: (i32, i32))
    requires
        forall|n: int| 0 <= n <= players@.len() ==> i32::MIN <= #[trigger] team_goals(players@, 0, n) <= i32::MAX,
        forall|n: int| 0 <= n <= players@.len() ==> i32::MIN <= #[trigger] team_goals(players@, 1, n) <= i32::MAX,
    ensures
        res.0 == team_goals(players@, 0, players@.len() as int),
        res.1 == team_goals(players@, 1, players@.len() as int),
{
    let mut blue: i32 = 0;
    let mut orange: i32 = 0;
    let mut i: usize = 0;
    while i < players.len()
        invariant
            i <= players@.len(),
            forall|n: int| 0 <= n <= players@.len() ==> i32::MIN <= #[trigger] team_goals(players@, 0, n) <= i32::MAX,
            forall|n: int| 0 <= n <= players@.len() ==> i32::MIN <= #[trigger] team_goals(players@, 1, n) <= i32::MAX,
            blue == team_goals(players@, 0, i as int),
            orange == team_goals(players@, 1, i as int),
        decreases players@.len() - i,
    {
        let goals = match players[i].0 {
            Some(g) => g,
            None => 0,
        };
        assert(team_goals(players@, 0, i + 1) <= i32::MAX && team_goals(players@, 1, i + 1) <= i32::MAX);
        assert(team_goals(players@, 0, i + 1) >= i32::MIN && team_goals(players@, 1, i + 1) >= i32::MIN);
        match players[i].1 {
            Some(1) => orange = orange + goals,
            Some(0) => blue = blue + goals,
            _ => {},
        }
        i = i + 1;
    }
    (blue, orange)
}

/// The name of a stat kind, as rows and sort keys spell it.
pub open spec fn stat_text(kind: StatKind) -> Seq<char> {
    match kind {
        StatKind::Shot => "shot"@,
        StatKind::Goal => "goal"@,
        StatKind::Assist => "assist"@,
        StatKind::Save => "save"@,
    }
}

/// The name of a stat kind.
pub fn stat_type_name(kind: StatKind) -> (res: &'static str)
    ensures
        res@ == stat_text(kind),
{
    match kind {
        StatKind::Shot => "shot",
        StatKind::Goal => "goal",
        StatKind::Assist => "assist",
        StatKind::Save => "save",
    }
}

/// Credits are sorted by frame, then player name, then the kind's name.
pub open spec fn official_key(stat: OfficialStatEvent) -> KeyView {
    (stat.frame_number, 0i32, stat.player_name@, stat_text(stat.stat_type))
}

/// Two credits are the same credit: same player name, kind and number.
pub open spec fn same_credit(a: OfficialStatEvent, b: OfficialStatEvent) -> bool {
    &&& a.player_name@ == b.player_name@
    &&& a.stat_type == b.stat_type
    &&& a.stat_number == b.stat_number
}

/// The first `n` credits of `stats` taken in `order`, each kept only where
/// no earlier one in that order is the same credit.
pub open spec fn first_credits(stats: Seq<OfficialStatEvent>, order: Seq<usize>, n: nat) -> Seq<
    OfficialStatEvent,
>
    decreases n,
{
    if n == 0 {
        Seq::empty()
    } else {
        let prev = first_credits(stats, order, (n - 1) as nat);
        let s = stats[order[n - 1] as int];
        if exists|k: int| 0 <= k < n - 1 && #[trigger] same_credit(stats[order[k] as int], s) {
            prev
        } else {
            prev.push(s)
        }
    }
}

fn same_credit_exec(a: &OfficialStatEvent, b: &OfficialStatEvent) -> (res: bool)
    ensures
        res == same_credit(*a, *b),
{
    a.stat_type == b.stat_type && a.stat_number == b.stat_number && str_eq(
        a.player_name.as_str(),
        b.player_name.as_str(),
    )
}

fn copy_credit(s: &OfficialStatEvent) -> (res: OfficialStatEvent)
    ensures
        res == *s,
{
    OfficialStatEvent {
        pri_actor_id: s.pri_actor_id,
        frame_number: s.frame_number,
        player_name: s.player_name.clone(),
        stat_type: s.stat_type,
        stat_number: s.stat_number,
    }
}

/// Sorts credits stably by frame, player name and kind name, then keeps the
/// first of each credit (player name, kind and number).
pub fn dedupe_official_stats(official_stats: &mut Vec<OfficialStatEvent>)
    ensures
        exists|order: Seq<usize>|
            is_stable_order(old(official_stats)@.map_values(|s: OfficialStatEvent| official_key(s)), order)
                && final(official_stats)@ == first_credits(old(official_stats)@, order, order.len()),
{
    let n = official_stats.len();
    let mut keys: Vec<RowSortKey> = Vec::new();
    let mut j: usize = 0;
    while j < n
        invariant
            n == official_stats@.len(),
            j <= n,
            keys@.len() == j,
            forall|k: int| 0 <= k < j ==> (#[trigger] keys@[k])@ == official_key(official_stats@[k]),
        decreases n - j,
    {
        let s = &official_stats[j];
        let key = RowSortKey {
            first: s.frame_number,
            second: 0,
            first_text: s.player_name.clone(),
            second_text: String::from_str(stat_type_name(s.stat_type)),
        };
        assert(key@ =~= official_key(official_stats@[j as int]));
        keys.push(key);
        j = j + 1;
    }
    let order = stable_order(keys.as_slice());
    assert(keys@.map_values(|k: RowSortKey| k@) =~= official_stats@.map_values(
        |s: OfficialStatEvent| official_key(s),
    ));
    let mut kept: Vec<OfficialStatEvent> = Vec::new();
    let mut p: usize = 0;
    while p < n
        invariant
            n == official_stats@.len(),
            order@.len() == n,
            forall|q: int| 0 <= q < n ==> order@[q] < n,
            p <= n,
            kept@ == first_credits(official_stats@, order@, p as nat),
        decreases n - p,
    {
        let s = &official_stats[order[p]];
        let mut seen = false;
        let mut k: usize = 0;
        while k < p
            invariant
                n == official_stats@.len(),
                order@.len() == n,
                forall|q: int| 0 <= q < n ==> order@[q] < n,
                p < n,
                k <= p,
                *s == official_stats@[order@[p as int] as int],
                seen == exists|t: int|
                    0 <= t < k && #[trigger] same_credit(official_stats@[order@[t] as int], *s),
            decreases p - k,
        {
            if same_credit_exec(&official_stats[order[k]], s) {
                seen = true;
            }
            k = k + 1;
        }
        if !seen {
            kept.push(copy_credit(s));
        }
        p = p + 1;
    }
    let ghost old_stats = official_stats@;
    *official_stats = kept;
    assert(is_stable_order(old_stats.map_values(|s: OfficialStatEvent| official_key(s)), order@));
}

/// What collapsing duplicate official saves reads of a row.
#[derive(Clone, Debug)]
pub struct SaveRow {
    /// The row is a save marked as official.
    pub official_save: bool,
    pub frame_number: Option<i32>,
    pub recorded_frame_number: Option<i32>,
    pub event_player_1_name: String,
    pub event_player_2_name: String,
    /// The observed frame of the shot the save links to, if it links to one.
    pub linked_shot_observed_frame_number: Option<i32>,
    /// The row's `official_save_count`, where it holds an integer.
    pub official_save_count: Option<i32>,
}

/// Two official saves record the same save: same frame, recorded frame,
/// players and linked shot.
pub open spec fn same_save(a: SaveRow, b: SaveRow) -> bool {
    &&& a.frame_number == b.frame_number
    &&& a.recorded_frame_number == b.recorded_frame_number
    &&& a.event_player_1_name@ == b.event_player_1_name@
    &&& a.event_player_2_name@ == b.event_player_2_name@
    &&& a.linked_shot_observed_frame_number == b.linked_shot_observed_frame_number
}

/// Row `j` is an official save recording the same save as row `i`.
pub open spec fn same_official_save(rows: Seq<SaveRow>, i: int, j: int) -> bool {
    rows[j].official_save && same_save(rows[i], rows[j])
}

/// The number of saves a row stands for: its count, else one.
pub open spec fn save_count(row: SaveRow) -> int {
    match row.official_save_count {
        Some(c) => c as int,
        None => 1,
    }
}

/// The saves counted by the first `n` rows that record the same save as row `i`.
pub open spec fn group_total(rows: Seq<SaveRow>, i: int, n: nat) -> int
    decreases n,
{
    if n == 0 {
        0
    } else {
        group_total(rows, i, (n - 1) as nat) + if same_official_save(rows, i, n - 1) {
            save_count(rows[n - 1])
        } else {
            0
        }
    }
}

/// What becomes of row `i`: `None` when it is an official save that an
/// earlier row already records (it is folded into that row);
/// `Some(Some(total))` when it is the first of several rows recording one
/// save (its `official_save_count` becomes the group's total); `Some(None)`
/// when it stays as it is.
pub open spec fn save_fate(rows: Seq<SaveRow>, i: int) -> Option<Option<i32>> {
    if rows[i].official_save && exists|j: int| 0 <= j < i && #[trigger] same_official_save(rows, i, j) {
        None
    } else if rows[i].official_save && exists|j: int|
        i < j < rows.len() && #[trigger] same_official_save(rows, i, j) {
        Some(Some(group_total(rows, i, rows.len()) as i32))
    } else {
        Some(None)
    }
}

proof fn lemma_group_total_before(rows: Seq<SaveRow>, i: int, n: nat)
    requires
        n <= i,
        forall|j: int| 0 <= j < i ==> !#[trigger] same_official_save(rows, i, j),
    ensures
        group_total(rows, i, n) == 0,
    decreases n,
{
    if n > 0 {
        lemma_group_total_before(rows, i, (n - 1) as nat);
    }
}

fn same_save_exec(a: &SaveRow, b: &SaveRow) -> (res: bool)
    ensures
        res == same_save(*a, *b),
{
    a.frame_number == b.frame_number && a.recorded_frame_number == b.recorded_frame_number && str_eq(
        a.event_player_1_name.as_str(),
        b.event_player_1_name.as_str(),
    ) && str_eq(a.event_player_2_name.as_str(), b.event_player_2_name.as_str())
        && a.linked_shot_observed_frame_number == b.linked_shot_observed_frame_number
}

/// Folds official saves that record the same save into the first row that
/// records it, adding up their counts as an `i32` sum does (wrapping past
/// its range); see `save_fate` for each row's fate.
pub fn collapse_duplicate_official_saves(rows: &[SaveRow]) -> (res: Vec<Option<Option<i32>>>)
    ensures
        res@.len() == rows@.len(),
        forall|i: int| 0 <= i < rows@.len() ==> #[trigger] res@[i] == save_fate(rows@, i),
{
    let n = rows.len();
    let mut res: Vec<Option<Option<i32>>> = Vec::new();
    let mut i: usize = 0;
    while i < n
        invariant
            n == rows@.len(),
            i <= n,
            res@.len() == i,
            forall|k: int| 0 <= k < i ==> #[trigger] res@[k] == save_fate(rows@, k),
        decreases n - i,
    {
        let row = &rows[i];
        if !row.official_save {
            res.push(Some(None));
        } else {
            let mut earlier = false;
            let mut j: usize = 0;
            while j < i
                invariant
                    n == rows@.len(),
                    i < n,
                    j <= i,
                    *row == rows@[i as int],
                    row.official_save,
                    earlier == exists|t: int| 0 <= t < j && #[trigger] same_official_save(rows@, i as int, t),
                decreases i - j,
            {
                let same = rows[j].official_save && same_save_exec(row, &rows[j]);
                assert(same == same_official_save(rows@, i as int, j as int));
                if same {
                    earlier = true;
                }
                j = j + 1;
            }
            if earlier {
                res.push(None);
            } else {
                proof {
                    lemma_group_total_before(rows@, i as int, i as nat);
                }
                let mut total: i128 = match row.official_save_count {
                    Some(c) => c as i128,
                    None => 1,
                };
                let mut later = false;
                let mut k: usize = i + 1;
                assert(same_official_save(rows@, i as int, i as int));
                assert(group_total(rows@, i as int, (i + 1) as nat) == total);
                while k < n
                    invariant
                        n == rows@.len(),
                        i < n,
                        i < k <= n,
                        *row == rows@[i as int],
                        total == group_total(rows@, i as int, k as nat),
                        -0x8000_0000 * (k as int) <= total <= 0x8000_0000 * (k as int),
                        later == exists|t: int| i < t < k && #[trigger] same_official_save(rows@, i as int, t),
                    decreases n - k,
                {
                    if rows[k].official_save && same_save_exec(row, &rows[k]) {
                        let c: i32 = match rows[k].official_save_count {
                            Some(c) => c,
                            None => 1,
                        };
                        assert(group_total(rows@, i as int, (k + 1) as nat) == total + c);
                        assert((k as int) < 0x1_0000_0000_0000_0000);
                        assert(0x8000_0000 * ((k + 1) as int) <= 0x8000_0000 * 0x1_0000_0000_0000_0001) by (nonlinear_arith)
                            requires
                                (k as int) < 0x1_0000_0000_0000_0000,
                        ;
                        total = total + c as i128;
                        later = true;
                    }
                    k = k + 1;
                }
                if later {
                    res.push(Some(Some(total as i32)));
                } else {
                    res.push(Some(None));
                }
            }
        }
        i = i + 1;
    }
    res
}

proof fn lemma_first_credits_from_order(stats: Seq<OfficialStatEvent>, order: Seq<usize>, n: nat, i: int)
    requires
        0 <= i < first_credits(stats, order, n).len(),
    ensures
        exists|k: int| 0 <= k < n && first_credits(stats, order, n)[i] == stats[order[k] as int],
    decreases n,
{
    if n > 0 {
        let prev = first_credits(stats, order, (n - 1) as nat);
        if i < prev.len() {
            lemma_first_credits_from_order(stats, order, (n - 1) as nat, i);
            let k = choose|k: int| 0 <= k < n - 1 && prev[i] == stats[order[k] as int];
            assert(first_credits(stats, order, n)[i] == stats[order[k] as int]);
        } else {
            assert(first_credits(stats, order, n)[i] == stats[order[n - 1] as int]);
        }
    }
}

/// After deduplication no credit (player name, kind and number) appears
/// twice.
pub proof fn law_first_credits_distinct(stats: Seq<OfficialStatEvent>, order: Seq<usize>, n: nat, i: int, j: int)
    requires
        0 <= i < j < first_credits(stats, order, n).len(),
    ensures
        !same_credit(first_credits(stats, order, n)[i], first_credits(stats, order, n)[j]),
    decreases n,
{
    if n > 0 {
        let prev = first_credits(stats, order, (n - 1) as nat);
        let s = stats[order[n - 1] as int];
        if j < prev.len() {
            law_first_credits_distinct(stats, order, (n - 1) as nat, i, j);
        } else {
            lemma_first_credits_from_order(stats, order, (n - 1) as nat, i);
            let k = choose|k: int| 0 <= k < n - 1 && prev[i] == stats[order[k] as int];
            assert(first_credits(stats, order, n)[j] == s);
            if same_credit(prev[i], s) {
                assert(same_credit(stats[order[k] as int], s));
            }
        }
    }
}

/// Of the rows that stay after collapsing, no two are official saves that
/// record the same save.
pub proof fn law_collapsed_saves_distinct(rows: Seq<SaveRow>, i: int, j: int)
    requires
        0 <= i < j < rows.len(),
        rows[i].official_save,
        rows[j].official_save,
        save_fate(rows, i) is Some,
        save_fate(rows, j) is Some,
    ensures
        !same_save(rows[i], rows[j]),
{
    if same_save(rows[i], rows[j]) {
        assert(same_official_save(rows, j, i));
    }
}

/// What linking an official save to its shot reads of a row.
#[derive(Clone, Debug)]
pub struct ShotLinkRow {
    /// The row carries an official shot credit.
    pub official_shot: bool,
    pub event_player_1_team: String,
    /// The row's `recorded_frame_number`, where it holds an integer.
    pub recorded_frame_number: Option<i32>,
}

/// A save's shot is recorded at most this many frames before the save.
pub const SAVE_SHOT_LINK_FRAMES: i32 = 360;

/// The recorded frame of a row that can be the shot a save of `save_team`
/// (recorded at `recorded`) answers: an official shot by the other team
/// (any team when the save's team is unknown), recorded at most 360 frames
/// before the save.
pub open spec fn link_frame(row: ShotLinkRow, save_team: Option<i32>, recorded: i32) -> Option<i32> {
    let team_ok = match save_team {
        Some(t) => if t == 1 {
            row.event_player_1_team@ != "orange"@
        } else {
            row.event_player_1_team@ != "blue"@
        },
        None => true,
    };
    if row.official_shot && team_ok {
        match row.recorded_frame_number {
            Some(f) => if f <= recorded && recorded - f <= SAVE_SHOT_LINK_FRAMES {
                Some(f)
            } else {
                None
            },
            None => None,
        }
    } else {
        None
    }
}

/// Among the first `n` rows, the candidate shot recorded last; of several
/// on that frame, the last in row order.
pub open spec fn linked_shot_upto(rows: Seq<ShotLinkRow>, save_team: Option<i32>, recorded: i32, n: nat) -> Option<int>
    decreases n,
{
    if n == 0 {
        None
    } else {
        let best = linked_shot_upto(rows, save_team, recorded, (n - 1) as nat);
        match link_frame(rows[n - 1], save_team, recorded) {
            Some(f) => match best {
                Some(b) => if f >= link_frame(rows[b], save_team, recorded).unwrap() {
                    Some(n - 1)
                } else {
                    best
                },
                None => Some(n - 1),
            },
            None => best,
        }
    }
}

pub(crate) proof fn lemma_linked_shot_is_candidate(rows: Seq<ShotLinkRow>, save_team: Option<i32>, recorded: i32, n: nat)
    requires
        n <= rows.len(),
    ensures
        linked_shot_upto(rows, save_team, recorded, n) matches Some(b) ==> 0 <= b < n && link_frame(
            rows[b],
            save_team,
            recorded,
        ) is Some,
    decreases n,
{
    if n > 0 {
        lemma_linked_shot_is_candidate(rows, save_team, recorded, (n - 1) as nat);
    }
}

/// The index of the shot row an official save links to; see
/// `linked_shot_upto`.
pub fn linked_shot_row(rows: &[ShotLinkRow], save_team: Option<i32>, recorded_frame_number: i32) -> (res: Option<usize>)
    ensures
        match res {
            Some(k) => linked_shot_upto(rows@, save_team, recorded_frame_number, rows@.len()) == Some(k as int),
            None => linked_shot_upto(rows@, save_team, recorded_frame_number, rows@.len()) is None,
        },
{
    let mut best: Option<usize> = None;
    let mut best_frame: i32 = 0;
    let mut i: usize = 0;
    while i < rows.len()
        invariant
            i <= rows@.len(),
            match best {
                Some(b) => linked_shot_upto(rows@, save_team, recorded_frame_number, i as nat) == Some(b as int)
                    && link_frame(rows@[b as int], save_team, recorded_frame_number) == Some(best_frame),
                None => linked_shot_upto(rows@, save_team, recorded_frame_number, i as nat) is None,
            },
        decreases rows@.len() - i,
    {
        proof {
            lemma_linked_shot_is_candidate(rows@, save_team, recorded_frame_number, i as nat);
        }
        let row = &rows[i];
        let team_ok = match save_team {
            Some(t) => if t == 1 {
                !str_eq(row.event_player_1_team.as_str(), "orange")
            } else {
                !str_eq(row.event_player_1_team.as_str(), "blue")
            },
            None => true,
        };
        if row.official_shot && team_ok {
            match row.recorded_frame_number {
                Some(f) => {
                    if f <= recorded_frame_number && (recorded_frame_number as i64) - (f as i64)
                        <= SAVE_SHOT_LINK_FRAMES as i64 {
                        match best {
                            Some(_) => if f >= best_frame {
                                best = Some(i);
                                best_frame = f;
                            },
                            None => {
                                best = Some(i);
                                best_frame = f;
                            },
                        }
                    }
                },
                None => {},
            }
        }
        i = i + 1;
    }
    best
}

/// A snapshot `(frame, touching)` can mark where a stat was seen: at or
/// before the recorded frame, not before the lower bound, and with the
/// player touching the ball.
pub open spec fn marks_stat(snap: (i32, bool), recorded: i32, min_frame: Option<i32>) -> bool {
    snap.0 <= recorded && match min_frame {
        Some(m) => snap.0 >= m,
        None => true,
    } && snap.1
}

/// The frame of the last of the first `n` snapshots that marks the stat.
pub open spec fn latest_mark(snaps: Seq<(i32, bool)>, recorded: i32, min_frame: Option<i32>, n: int) -> Option<i32>
    decreases n,
{
    if n <= 0 {
        None
    } else if marks_stat(snaps[n - 1], recorded, min_frame) {
        Some(snaps[n - 1].0)
    } else {
        latest_mark(snaps, recorded, min_frame, n - 1)
    }
}

/// Where an official stat was seen: for a known player, the frame of the
/// last snapshot, in the order given, at or before the recorded frame and
/// not before `min_frame` where the player touched the ball; otherwise the
/// recorded frame.
pub fn observed_frame_from_player_contact(
    contacts: &[(i32, bool)],
    player_known: bool,
    recorded_frame_number: i32,
    min_frame: Option<i32>,
) -> (res: i32)
    ensures
        res == if player_known {
            match latest_mark(contacts@, recorded_frame_number, min_frame, contacts@.len() as int) {
                Some(f) => f,
                None => recorded_frame_number,
            }
        } else {
            recorded_frame_number
        },
{
    if !player_known {
        return recorded_frame_number;
    }
    let mut i: usize = contacts.len();
    while i > 0
        invariant
            i <= contacts@.len(),
            player_known,
            latest_mark(contacts@, recorded_frame_number, min_frame, contacts@.len() as int) == latest_mark(
                contacts@,
                recorded_frame_number,
                min_frame,
                i as int,
            ),
        decreases i,
    {
        let (frame, touching) = contacts[i - 1];
        let above = match min_frame {
            Some(m) => frame >= m,
            None => true,
        };
        if frame <= recorded_frame_number && above && touching {
            assert(marks_stat(contacts@[i - 1], recorded_frame_number, min_frame));
            return frame;
        }
        i -= 1;
    }
    recorded_frame_number
}

} // verus!
