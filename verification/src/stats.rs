//! Per-player event counts for the native stats export.
use vstd::prelude::*;
use crate::text::str_eq;

verus! {

/// How many events of each kind a player was credited with.
#[derive(Clone, Copy, Debug, PartialEq, Eq)]
pub struct EventCounts {
    pub shots: i32,
    pub goals: i32,
    pub saves: i32,
    pub assists: i32,
    pub touches: i32,
    pub passes: i32,
    pub turnovers: i32,
    pub challenges: i32,
    pub kickoffs: i32,
    pub whiffs: i32,
    pub fakes: i32,
    pub demos_applied: i32,
    pub demos_taken: i32,
    pub bumps: i32,
    pub bumps_taken: i32,
    pub entries: i32,
    pub exits: i32,
    pub retrievals: i32,
    pub missed_shots: i32,
    pub missed_passes: i32,
    pub shot_attempts: i32,
}

/// The kinds of event counts.
pub enum Stat {
    Shots,
    Goals,
    Saves,
    Assists,
    Touches,
    Passes,
    Turnovers,
    Challenges,
    Kickoffs,
    Whiffs,
    Fakes,
    DemosApplied,
    DemosTaken,
    Bumps,
    BumpsTaken,
    Entries,
    Exits,
    Retrievals,
    MissedShots,
    MissedPasses,
    ShotAttempts,
}

/// One count of a player's tally.
pub open spec fn count_of(c: EventCounts, s: Stat) -> i32 {
    match s {
        Stat::Shots => c.shots,
        Stat::Goals => c.goals,
        Stat::Saves => c.saves,
        Stat::Assists => c.assists,
        Stat::Touches => c.touches,
        Stat::Passes => c.passes,
        Stat::Turnovers => c.turnovers,
        Stat::Challenges => c.challenges,
        Stat::Kickoffs => c.kickoffs,
        Stat::Whiffs => c.whiffs,
        Stat::Fakes => c.fakes,
        Stat::DemosApplied => c.demos_applied,
        Stat::DemosTaken => c.demos_taken,
        Stat::Bumps => c.bumps,
        Stat::BumpsTaken => c.bumps_taken,
        Stat::Entries => c.entries,
        Stat::Exits => c.exits,
        Stat::Retrievals => c.retrievals,
        Stat::MissedShots => c.missed_shots,
        Stat::MissedPasses => c.missed_passes,
        Stat::ShotAttempts => c.shot_attempts,
    }
}

/// The event types that player stats count.
#[derive(Clone, Copy, Debug, PartialEq, Eq, Structural)]
pub enum EventKind {
    Shot,
    Goal,
    Save,
    Touch,
    Pass,
    Turnover,
    Challenge,
    Kickoff,
    Whiff,
    Fake,
    Demo,
    Bump,
    Entry,
    Exit,
    Retrieval,
    MissedShot,
    MissedPass,
    Other,
}

/// The kind of an event type.
pub open spec fn kind_named(t: Seq<char>) -> EventKind {
    if t == "shot"@ {
        EventKind::Shot
    } else if t == "goal"@ {
        EventKind::Goal
    } else if t == "save"@ {
        EventKind::Save
    } else if t == "touch"@ {
        EventKind::Touch
    } else if t == "pass"@ {
        EventKind::Pass
    } else if t == "turnover"@ {
        EventKind::Turnover
    } else if t == "challenge"@ {
        EventKind::Challenge
    } else if t == "kickoff"@ {
        EventKind::Kickoff
    } else if t == "whiff"@ {
        EventKind::Whiff
    } else if t == "fake"@ {
        EventKind::Fake
    } else if t == "demo"@ {
        EventKind::Demo
    } else if t == "bump"@ {
        EventKind::Bump
    } else if t == "entry"@ {
        EventKind::Entry
    } else if t == "exit"@ {
        EventKind::Exit
    } else if t == "retrieval"@ {
        EventKind::Retrieval
    } else if t == "missed-shot"@ {
        EventKind::MissedShot
    } else if t == "missed-pass"@ {
        EventKind::MissedPass
    } else {
        EventKind::Other
    }
}

/// The kind of an event type.
pub fn event_kind(t: &str) -> (res: EventKind)
    ensures
        res == kind_named(t@),
{
    if str_eq(t, "shot") {
        EventKind::Shot
    } else if str_eq(t, "goal") {
        EventKind::Goal
    } else if str_eq(t, "save") {
        EventKind::Save
    } else if str_eq(t, "touch") {
        EventKind::Touch
    } else if str_eq(t, "pass") {
        EventKind::Pass
    } else if str_eq(t, "turnover") {
        EventKind::Turnover
    } else if str_eq(t, "challenge") {
        EventKind::Challenge
    } else if str_eq(t, "kickoff") {
        EventKind::Kickoff
    } else if str_eq(t, "whiff") {
        EventKind::Whiff
    } else if str_eq(t, "fake") {
        EventKind::Fake
    } else if str_eq(t, "demo") {
        EventKind::Demo
    } else if str_eq(t, "bump") {
        EventKind::Bump
    } else if str_eq(t, "entry") {
        EventKind::Entry
    } else if str_eq(t, "exit") {
        EventKind::Exit
    } else if str_eq(t, "retrieval") {
        EventKind::Retrieval
    } else if str_eq(t, "missed-shot") {
        EventKind::MissedShot
    } else if str_eq(t, "missed-pass") {
        EventKind::MissedPass
    } else {
        EventKind::Other
    }
}

/// Whether an event of kind `k` adds to count `s` of a player who is the
/// event's first player (`first`) or second player (`second`). A goal is
/// also a shot, passes and turnovers are also touches, and shots, goals and
/// missed shots are shot attempts; the second player of a goal gets the
/// assist, of a demo the demo taken, of a bump the bump taken.
pub open spec fn counts_as(s: Stat, k: EventKind, first: bool, second: bool) -> bool {
    match s {
        Stat::Shots => first && (k == EventKind::Shot || k == EventKind::Goal),
        Stat::Goals => first && k == EventKind::Goal,
        Stat::Saves => first && k == EventKind::Save,
        Stat::Assists => second && k == EventKind::Goal,
        Stat::Touches => first && (k == EventKind::Touch || k == EventKind::Pass || k
            == EventKind::Turnover),
        Stat::Passes => first && k == EventKind::Pass,
        Stat::Turnovers => first && k == EventKind::Turnover,
        Stat::Challenges => first && k == EventKind::Challenge,
        Stat::Kickoffs => first && k == EventKind::Kickoff,
        Stat::Whiffs => first && k == EventKind::Whiff,
        Stat::Fakes => first && k == EventKind::Fake,
        Stat::DemosApplied => first && k == EventKind::Demo,
        Stat::DemosTaken => second && k == EventKind::Demo,
        Stat::Bumps => first && k == EventKind::Bump,
        Stat::BumpsTaken => second && k == EventKind::Bump,
        Stat::Entries => first && k == EventKind::Entry,
        Stat::Exits => first && k == EventKind::Exit,
        Stat::Retrievals => first && k == EventKind::Retrieval,
        Stat::MissedShots => first && k == EventKind::MissedShot,
        Stat::MissedPasses => first && k == EventKind::MissedPass,
        Stat::ShotAttempts => first && (k == EventKind::Shot || k == EventKind::Goal || k
            == EventKind::MissedShot),
    }
}

/// Count `s` of the player named `name` over the first `n` rows of
/// `(event type, first player name, second player name)`.
pub open spec fn tally(rows: Seq<(String, String, String)>, name: Seq<char>, s: Stat, n: int) -> nat
    decreases n,
{
    if n <= 0 {
        0
    } else {
        let r = rows[n - 1];
        tally(rows, name, s, n - 1) + if counts_as(s, kind_named(r.0@), r.1@ == name, r.2@ == name) {
            1nat
        } else {
            0nat
        }
    }
}

proof fn lemma_tally_bounded(rows: Seq<(String, String, String)>, name: Seq<char>, s: Stat, n: int)
    requires
        0 <= n,
    ensures
        tally(rows, name, s, n) <= n,
    decreases n,
{
    if n > 0 {
        lemma_tally_bounded(rows, name, s, n - 1);
    }
}

fn bump(v: i32, yes: bool) -> (res: i32)
    requires
        v < i32::MAX,
    ensures
        res == v + if yes {
            1int
        } else {
            0int
        },
{
    if yes {
        v + 1
    } else {
        v
    }
}

impl EventCounts {
    /// All counts zero.
    pub fn zero() -> (res: EventCounts)
        ensures
            forall|s: Stat| count_of(res, s) == 0,
    {
        EventCounts {
            shots: 0,
            goals: 0,
            saves: 0,
            assists: 0,
            touches: 0,
            passes: 0,
            turnovers: 0,
            challenges: 0,
            kickoffs: 0,
            whiffs: 0,
            fakes: 0,
            demos_applied: 0,
            demos_taken: 0,
            bumps: 0,
            bumps_taken: 0,
            entries: 0,
            exits: 0,
            retrievals: 0,
            missed_shots: 0,
            missed_passes: 0,
            shot_attempts: 0,
        }
    }

    /// Adds one event of kind `k` for a player who is its first and/or
    /// second player.
    pub fn add_event(&mut self, k: EventKind, first: bool, second: bool)
        requires
            forall|s: Stat| count_of(*old(self), s) < i32::MAX,
        ensures
            forall|s: Stat| #[trigger] count_of(*final(self), s) == count_of(*old(self), s) + if counts_as(s, k, first, second) {
                1int
            } else {
                0int
            },
    {
        proof {
            assert(count_of(*self, Stat::Shots) < i32::MAX);
            assert(count_of(*self, Stat::Goals) < i32::MAX);
            assert(count_of(*self, Stat::Saves) < i32::MAX);
            assert(count_of(*self, Stat::Assists) < i32::MAX);
            assert(count_of(*self, Stat::Touches) < i32::MAX);
            assert(count_of(*self, Stat::Passes) < i32::MAX);
            assert(count_of(*self, Stat::Turnovers) < i32::MAX);
            assert(count_of(*self, Stat::Challenges) < i32::MAX);
            assert(count_of(*self, Stat::Kickoffs) < i32::MAX);
            assert(count_of(*self, Stat::Whiffs) < i32::MAX);
            assert(count_of(*self, Stat::Fakes) < i32::MAX);
            assert(count_of(*self, Stat::DemosApplied) < i32::MAX);
            assert(count_of(*self, Stat::DemosTaken) < i32::MAX);
            assert(count_of(*self, Stat::Bumps) < i32::MAX);
            assert(count_of(*self, Stat::BumpsTaken) < i32::MAX);
            assert(count_of(*self, Stat::Entries) < i32::MAX);
            assert(count_of(*self, Stat::Exits) < i32::MAX);
            assert(count_of(*self, Stat::Retrievals) < i32::MAX);
            assert(count_of(*self, Stat::MissedShots) < i32::MAX);
            assert(count_of(*self, Stat::MissedPasses) < i32::MAX);
            assert(count_of(*self, Stat::ShotAttempts) < i32::MAX);
        }
        let shot = k == EventKind::Shot;
        let goal = k == EventKind::Goal;
        let missed_shot = k == EventKind::MissedShot;
        let pass = k == EventKind::Pass;
        let turnover = k == EventKind::Turnover;
        let demo = k == EventKind::Demo;
        let bump_event = k == EventKind::Bump;
        self.shots = bump(self.shots, first && (shot || goal));
        self.goals = bump(self.goals, first && goal);
        self.saves = bump(self.saves, first && k == EventKind::Save);
        self.assists = bump(self.assists, second && goal);
        self.touches = bump(self.touches, first && (k == EventKind::Touch || pass || turnover));
        self.passes = bump(self.passes, first && pass);
        self.turnovers = bump(self.turnovers, first && turnover);
        self.challenges = bump(self.challenges, first && k == EventKind::Challenge);
        self.kickoffs = bump(self.kickoffs, first && k == EventKind::Kickoff);
        self.whiffs = bump(self.whiffs, first && k == EventKind::Whiff);
        self.fakes = bump(self.fakes, first && k == EventKind::Fake);
        self.demos_applied = bump(self.demos_applied, first && demo);
        self.demos_taken = bump(self.demos_taken, second && demo);
        self.bumps = bump(self.bumps, first && bump_event);
        self.bumps_taken = bump(self.bumps_taken, second && bump_event);
        self.entries = bump(self.entries, first && k == EventKind::Entry);
        self.exits = bump(self.exits, first && k == EventKind::Exit);
        self.retrievals = bump(self.retrievals, first && k == EventKind::Retrieval);
        self.missed_shots = bump(self.missed_shots, first && missed_shot);
        self.missed_passes = bump(self.missed_passes, first && k == EventKind::MissedPass);
        self.shot_attempts = bump(self.shot_attempts, first && (shot || goal || missed_shot));
    }
}

/// The event counts of each named player over rows of `(event type, first
/// player name, second player name)`.
pub fn player_event_counts(player_names: &[String], rows: &[(String, String, String)]) -> (res: Vec<EventCounts>)
    requires
        rows@.len() < i32::MAX,
    ensures
        res@.len() == player_names@.len(),
        forall|p: int, s: Stat|
            0 <= p < player_names@.len() ==> #[trigger] count_of(res@[p], s) == tally(
                rows@,
                player_names@[p]@,
                s,
                rows@.len() as int,
            ),
{
    let mut out: Vec<EventCounts> = Vec::new();
    let mut p: usize = 0;
    while p < player_names.len()
        invariant
            p <= player_names@.len(),
            rows@.len() < i32::MAX,
            out@.len() == p,
            forall|q: int, s: Stat|
                0 <= q < p ==> #[trigger] count_of(out@[q], s) == tally(
                    rows@,
                    player_names@[q]@,
                    s,
                    rows@.len() as int,
                ),
        decreases player_names@.len() - p,
    {
        let name = player_names[p].as_str();
        let mut counts = EventCounts::zero();
        let mut i: usize = 0;
        while i < rows.len()
            invariant
                i <= rows@.len() < i32::MAX,
                p < player_names@.len(),
                name@ == player_names@[p as int]@,
                forall|s: Stat| #[trigger] count_of(counts, s) == tally(rows@, name@, s, i as int),
            decreases rows@.len() - i,
        {
            proof {
                assert forall|s: Stat| count_of(counts, s) < i32::MAX by {
                    lemma_tally_bounded(rows@, name@, s, i as int);
                }
            }
            let first = str_eq(rows[i].1.as_str(), name);
            let second = str_eq(rows[i].2.as_str(), name);
            let k = event_kind(rows[i].0.as_str());
            counts.add_event(k, first, second);
            i = i + 1;
        }
        out.push(counts);
        p = p + 1;
    }
    out
}


} // verus!
