//! What the per-player event counts mean: which rows credit which player.
use vstd::prelude::*;
use crate::stats::{kind_named, tally, EventKind, Stat};

verus! {

/// The event types that add to count `s`, as the stats export names them.
pub open spec fn counted_types(s: Stat) -> Set<Seq<char>> {
    match s {
        Stat::Shots => set!["shot"@, "goal"@],
        Stat::Goals => set!["goal"@],
        Stat::Saves => set!["save"@],
        Stat::Assists => set!["goal"@],
        Stat::Touches => set!["touch"@, "pass"@, "turnover"@],
        Stat::Passes => set!["pass"@],
        Stat::Turnovers => set!["turnover"@],
        Stat::Challenges => set!["challenge"@],
        Stat::Kickoffs => set!["kickoff"@],
        Stat::Whiffs => set!["whiff"@],
        Stat::Fakes => set!["fake"@],
        Stat::DemosApplied => set!["demo"@],
        Stat::DemosTaken => set!["demo"@],
        Stat::Bumps => set!["bump"@],
        Stat::BumpsTaken => set!["bump"@],
        Stat::Entries => set!["entry"@],
        Stat::Exits => set!["exit"@],
        Stat::Retrievals => set!["retrieval"@],
        Stat::MissedShots => set!["missed-shot"@],
        Stat::MissedPasses => set!["missed-pass"@],
        Stat::ShotAttempts => set!["shot"@, "goal"@, "missed-shot"@],
    }
}

/// Whether count `s` goes to an event's second player (assists, demos
/// taken, bumps taken) rather than its first.
pub open spec fn credited_to_second(s: Stat) -> bool {
    match s {
        Stat::Assists | Stat::DemosTaken | Stat::BumpsTaken => true,
        _ => false,
    }
}

/// How many of the first `n` rows have a type in `types` and name `name`
/// as their second player (`second`) or first player.
pub open spec fn rows_crediting(
    rows: Seq<(String, String, String)>,
    name: Seq<char>,
    types: Set<Seq<char>>,
    second: bool,
    n: int,
) -> nat
    decreases n,
{
    if n <= 0 {
        0
    } else {
        let r = rows[n - 1];
        let player = if second {
            r.2@
        } else {
            r.1@
        };
        rows_crediting(rows, name, types, second, n - 1) + if types.contains(r.0@) && player == name {
            1nat
        } else {
            0nat
        }
    }
}

proof fn lemma_kind_named(t: Seq<char>)
    ensures
        kind_named(t) == EventKind::Shot <==> t == "shot"@,
        kind_named(t) == EventKind::Goal <==> t == "goal"@,
        kind_named(t) == EventKind::Save <==> t == "save"@,
        kind_named(t) == EventKind::Touch <==> t == "touch"@,
        kind_named(t) == EventKind::Pass <==> t == "pass"@,
        kind_named(t) == EventKind::Turnover <==> t == "turnover"@,
        kind_named(t) == EventKind::Challenge <==> t == "challenge"@,
        kind_named(t) == EventKind::Kickoff <==> t == "kickoff"@,
        kind_named(t) == EventKind::Whiff <==> t == "whiff"@,
        kind_named(t) == EventKind::Fake <==> t == "fake"@,
        kind_named(t) == EventKind::Demo <==> t == "demo"@,
        kind_named(t) == EventKind::Bump <==> t == "bump"@,
        kind_named(t) == EventKind::Entry <==> t == "entry"@,
        kind_named(t) == EventKind::Exit <==> t == "exit"@,
        kind_named(t) == EventKind::Retrieval <==> t == "retrieval"@,
        kind_named(t) == EventKind::MissedShot <==> t == "missed-shot"@,
        kind_named(t) == EventKind::MissedPass <==> t == "missed-pass"@,
{
    reveal_strlit("shot");
    reveal_strlit("goal");
    reveal_strlit("save");
    reveal_strlit("touch");
    reveal_strlit("pass");
    reveal_strlit("turnover");
    reveal_strlit("challenge");
    reveal_strlit("kickoff");
    reveal_strlit("whiff");
    reveal_strlit("fake");
    reveal_strlit("demo");
    reveal_strlit("bump");
    reveal_strlit("entry");
    reveal_strlit("exit");
    reveal_strlit("retrieval");
    reveal_strlit("missed-shot");
    reveal_strlit("missed-pass");
    assert("goal"@ != "shot"@) by { assert("goal"@[0] != "shot"@[0]); }
    assert("save"@ != "shot"@) by { assert("save"@[1] != "shot"@[1]); }
    assert("save"@ != "goal"@) by { assert("save"@[0] != "goal"@[0]); }
    assert("touch"@ != "shot"@) by { assert("touch"@.len() != "shot"@.len()); }
    assert("touch"@ != "goal"@) by { assert("touch"@.len() != "goal"@.len()); }
    assert("touch"@ != "save"@) by { assert("touch"@.len() != "save"@.len()); }
    assert("pass"@ != "shot"@) by { assert("pass"@[0] != "shot"@[0]); }
    assert("pass"@ != "goal"@) by { assert("pass"@[0] != "goal"@[0]); }
    assert("pass"@ != "save"@) by { assert("pass"@[0] != "save"@[0]); }
    assert("pass"@ != "touch"@) by { assert("pass"@.len() != "touch"@.len()); }
    assert("turnover"@ != "shot"@) by { assert("turnover"@.len() != "shot"@.len()); }
    assert("turnover"@ != "goal"@) by { assert("turnover"@.len() != "goal"@.len()); }
    assert("turnover"@ != "save"@) by { assert("turnover"@.len() != "save"@.len()); }
    assert("turnover"@ != "touch"@) by { assert("turnover"@.len() != "touch"@.len()); }
    assert("turnover"@ != "pass"@) by { assert("turnover"@.len() != "pass"@.len()); }
    assert("challenge"@ != "shot"@) by { assert("challenge"@.len() != "shot"@.len()); }
    assert("challenge"@ != "goal"@) by { assert("challenge"@.len() != "goal"@.len()); }
    assert("challenge"@ != "save"@) by { assert("challenge"@.len() != "save"@.len()); }
    assert("challenge"@ != "touch"@) by { assert("challenge"@.len() != "touch"@.len()); }
    assert("challenge"@ != "pass"@) by { assert("challenge"@.len() != "pass"@.len()); }
    assert("challenge"@ != "turnover"@) by { assert("challenge"@.len() != "turnover"@.len()); }
    assert("kickoff"@ != "shot"@) by { assert("kickoff"@.len() != "shot"@.len()); }
    assert("kickoff"@ != "goal"@) by { assert("kickoff"@.len() != "goal"@.len()); }
    assert("kickoff"@ != "save"@) by { assert("kickoff"@.len() != "save"@.len()); }
    assert("kickoff"@ != "touch"@) by { assert("kickoff"@.len() != "touch"@.len()); }
    assert("kickoff"@ != "pass"@) by { assert("kickoff"@.len() != "pass"@.len()); }
    assert("kickoff"@ != "turnover"@) by { assert("kickoff"@.len() != "turnover"@.len()); }
    assert("kickoff"@ != "challenge"@) by { assert("kickoff"@.len() != "challenge"@.len()); }
    assert("whiff"@ != "shot"@) by { assert("whiff"@.len() != "shot"@.len()); }
    assert("whiff"@ != "goal"@) by { assert("whiff"@.len() != "goal"@.len()); }
    assert("whiff"@ != "save"@) by { assert("whiff"@.len() != "save"@.len()); }
    assert("whiff"@ != "touch"@) by { assert("whiff"@[0] != "touch"@[0]); }
    assert("whiff"@ != "pass"@) by { assert("whiff"@.len() != "pass"@.len()); }
    assert("whiff"@ != "turnover"@) by { assert("whiff"@.len() != "turnover"@.len()); }
    assert("whiff"@ != "challenge"@) by { assert("whiff"@.len() != "challenge"@.len()); }
    assert("whiff"@ != "kickoff"@) by { assert("whiff"@.len() != "kickoff"@.len()); }
    assert("fake"@ != "shot"@) by { assert("fake"@[0] != "shot"@[0]); }
    assert("fake"@ != "goal"@) by { assert("fake"@[0] != "goal"@[0]); }
    assert("fake"@ != "save"@) by { assert("fake"@[0] != "save"@[0]); }
    assert("fake"@ != "touch"@) by { assert("fake"@.len() != "touch"@.len()); }
    assert("fake"@ != "pass"@) by { assert("fake"@[0] != "pass"@[0]); }
    assert("fake"@ != "turnover"@) by { assert("fake"@.len() != "turnover"@.len()); }
    assert("fake"@ != "challenge"@) by { assert("fake"@.len() != "challenge"@.len()); }
    assert("fake"@ != "kickoff"@) by { assert("fake"@.len() != "kickoff"@.len()); }
    assert("fake"@ != "whiff"@) by { assert("fake"@.len() != "whiff"@.len()); }
    assert("demo"@ != "shot"@) by { assert("demo"@[0] != "shot"@[0]); }
    assert("demo"@ != "goal"@) by { assert("demo"@[0] != "goal"@[0]); }
    assert("demo"@ != "save"@) by { assert("demo"@[0] != "save"@[0]); }
    assert("demo"@ != "touch"@) by { assert("demo"@.len() != "touch"@.len()); }
    assert("demo"@ != "pass"@) by { assert("demo"@[0] != "pass"@[0]); }
    assert("demo"@ != "turnover"@) by { assert("demo"@.len() != "turnover"@.len()); }
    assert("demo"@ != "challenge"@) by { assert("demo"@.len() != "challenge"@.len()); }
    assert("demo"@ != "kickoff"@) by { assert("demo"@.len() != "kickoff"@.len()); }
    assert("demo"@ != "whiff"@) by { assert("demo"@.len() != "whiff"@.len()); }
    assert("demo"@ != "fake"@) by { assert("demo"@[0] != "fake"@[0]); }
    assert("bump"@ != "shot"@) by { assert("bump"@[0] != "shot"@[0]); }
    assert("bump"@ != "goal"@) by { assert("bump"@[0] != "goal"@[0]); }
    assert("bump"@ != "save"@) by { assert("bump"@[0] != "save"@[0]); }
    assert("bump"@ != "touch"@) by { assert("bump"@.len() != "touch"@.len()); }
    assert("bump"@ != "pass"@) by { assert("bump"@[0] != "pass"@[0]); }
    assert("bump"@ != "turnover"@) by { assert("bump"@.len() != "turnover"@.len()); }
    assert("bump"@ != "challenge"@) by { assert("bump"@.len() != "challenge"@.len()); }
    assert("bump"@ != "kickoff"@) by { assert("bump"@.len() != "kickoff"@.len()); }
    assert("bump"@ != "whiff"@) by { assert("bump"@.len() != "whiff"@.len()); }
    assert("bump"@ != "fake"@) by { assert("bump"@[0] != "fake"@[0]); }
    assert("bump"@ != "demo"@) by { assert("bump"@[0] != "demo"@[0]); }
    assert("entry"@ != "shot"@) by { assert("entry"@.len() != "shot"@.len()); }
    assert("entry"@ != "goal"@) by { assert("entry"@.len() != "goal"@.len()); }
    assert("entry"@ != "save"@) by { assert("entry"@.len() != "save"@.len()); }
    assert("entry"@ != "touch"@) by { assert("entry"@[0] != "touch"@[0]); }
    assert("entry"@ != "pass"@) by { assert("entry"@.len() != "pass"@.len()); }
    assert("entry"@ != "turnover"@) by { assert("entry"@.len() != "turnover"@.len()); }
    assert("entry"@ != "challenge"@) by { assert("entry"@.len() != "challenge"@.len()); }
    assert("entry"@ != "kickoff"@) by { assert("entry"@.len() != "kickoff"@.len()); }
    assert("entry"@ != "whiff"@) by { assert("entry"@[0] != "whiff"@[0]); }
    assert("entry"@ != "fake"@) by { assert("entry"@.len() != "fake"@.len()); }
    assert("entry"@ != "demo"@) by { assert("entry"@.len() != "demo"@.len()); }
    assert("entry"@ != "bump"@) by { assert("entry"@.len() != "bump"@.len()); }
    assert("exit"@ != "shot"@) by { assert("exit"@[0] != "shot"@[0]); }
    assert("exit"@ != "goal"@) by { assert("exit"@[0] != "goal"@[0]); }
    assert("exit"@ != "save"@) by { assert("exit"@[0] != "save"@[0]); }
    assert("exit"@ != "touch"@) by { assert("exit"@.len() != "touch"@.len()); }
    assert("exit"@ != "pass"@) by { assert("exit"@[0] != "pass"@[0]); }
    assert("exit"@ != "turnover"@) by { assert("exit"@.len() != "turnover"@.len()); }
    assert("exit"@ != "challenge"@) by { assert("exit"@.len() != "challenge"@.len()); }
    assert("exit"@ != "kickoff"@) by { assert("exit"@.len() != "kickoff"@.len()); }
    assert("exit"@ != "whiff"@) by { assert("exit"@.len() != "whiff"@.len()); }
    assert("exit"@ != "fake"@) by { assert("exit"@[0] != "fake"@[0]); }
    assert("exit"@ != "demo"@) by { assert("exit"@[0] != "demo"@[0]); }
    assert("exit"@ != "bump"@) by { assert("exit"@[0] != "bump"@[0]); }
    assert("exit"@ != "entry"@) by { assert("exit"@.len() != "entry"@.len()); }
    assert("retrieval"@ != "shot"@) by { assert("retrieval"@.len() != "shot"@.len()); }
    assert("retrieval"@ != "goal"@) by { assert("retrieval"@.len() != "goal"@.len()); }
    assert("retrieval"@ != "save"@) by { assert("retrieval"@.len() != "save"@.len()); }
    assert("retrieval"@ != "touch"@) by { assert("retrieval"@.len() != "touch"@.len()); }
    assert("retrieval"@ != "pass"@) by { assert("retrieval"@.len() != "pass"@.len()); }
    assert("retrieval"@ != "turnover"@) by { assert("retrieval"@.len() != "turnover"@.len()); }
    assert("retrieval"@ != "challenge"@) by { assert("retrieval"@[0] != "challenge"@[0]); }
    assert("retrieval"@ != "kickoff"@) by { assert("retrieval"@.len() != "kickoff"@.len()); }
    assert("retrieval"@ != "whiff"@) by { assert("retrieval"@.len() != "whiff"@.len()); }
    assert("retrieval"@ != "fake"@) by { assert("retrieval"@.len() != "fake"@.len()); }
    assert("retrieval"@ != "demo"@) by { assert("retrieval"@.len() != "demo"@.len()); }
    assert("retrieval"@ != "bump"@) by { assert("retrieval"@.len() != "bump"@.len()); }
    assert("retrieval"@ != "entry"@) by { assert("retrieval"@.len() != "entry"@.len()); }
    assert("retrieval"@ != "exit"@) by { assert("retrieval"@.len() != "exit"@.len()); }
    assert("missed-shot"@ != "shot"@) by { assert("missed-shot"@.len() != "shot"@.len()); }
    assert("missed-shot"@ != "goal"@) by { assert("missed-shot"@.len() != "goal"@.len()); }
    assert("missed-shot"@ != "save"@) by { assert("missed-shot"@.len() != "save"@.len()); }
    assert("missed-shot"@ != "touch"@) by { assert("missed-shot"@.len() != "touch"@.len()); }
    assert("missed-shot"@ != "pass"@) by { assert("missed-shot"@.len() != "pass"@.len()); }
    assert("missed-shot"@ != "turnover"@) by { assert("missed-shot"@.len() != "turnover"@.len()); }
    assert("missed-shot"@ != "challenge"@) by { assert("missed-shot"@.len() != "challenge"@.len()); }
    assert("missed-shot"@ != "kickoff"@) by { assert("missed-shot"@.len() != "kickoff"@.len()); }
    assert("missed-shot"@ != "whiff"@) by { assert("missed-shot"@.len() != "whiff"@.len()); }
    assert("missed-shot"@ != "fake"@) by { assert("missed-shot"@.len() != "fake"@.len()); }
    assert("missed-shot"@ != "demo"@) by { assert("missed-shot"@.len() != "demo"@.len()); }
    assert("missed-shot"@ != "bump"@) by { assert("missed-shot"@.len() != "bump"@.len()); }
    assert("missed-shot"@ != "entry"@) by { assert("missed-shot"@.len() != "entry"@.len()); }
    assert("missed-shot"@ != "exit"@) by { assert("missed-shot"@.len() != "exit"@.len()); }
    assert("missed-shot"@ != "retrieval"@) by { assert("missed-shot"@.len() != "retrieval"@.len()); }
    assert("missed-pass"@ != "shot"@) by { assert("missed-pass"@.len() != "shot"@.len()); }
    assert("missed-pass"@ != "goal"@) by { assert("missed-pass"@.len() != "goal"@.len()); }
    assert("missed-pass"@ != "save"@) by { assert("missed-pass"@.len() != "save"@.len()); }
    assert("missed-pass"@ != "touch"@) by { assert("missed-pass"@.len() != "touch"@.len()); }
    assert("missed-pass"@ != "pass"@) by { assert("missed-pass"@.len() != "pass"@.len()); }
    assert("missed-pass"@ != "turnover"@) by { assert("missed-pass"@.len() != "turnover"@.len()); }
    assert("missed-pass"@ != "challenge"@) by { assert("missed-pass"@.len() != "challenge"@.len()); }
    assert("missed-pass"@ != "kickoff"@) by { assert("missed-pass"@.len() != "kickoff"@.len()); }
    assert("missed-pass"@ != "whiff"@) by { assert("missed-pass"@.len() != "whiff"@.len()); }
    assert("missed-pass"@ != "fake"@) by { assert("missed-pass"@.len() != "fake"@.len()); }
    assert("missed-pass"@ != "demo"@) by { assert("missed-pass"@.len() != "demo"@.len()); }
    assert("missed-pass"@ != "bump"@) by { assert("missed-pass"@.len() != "bump"@.len()); }
    assert("missed-pass"@ != "entry"@) by { assert("missed-pass"@.len() != "entry"@.len()); }
    assert("missed-pass"@ != "exit"@) by { assert("missed-pass"@.len() != "exit"@.len()); }
    assert("missed-pass"@ != "retrieval"@) by { assert("missed-pass"@.len() != "retrieval"@.len()); }
    assert("missed-pass"@ != "missed-shot"@) by { assert("missed-pass"@[7] != "missed-shot"@[7]); }
}

/// Each count of a player is the number of rows whose event type is one
/// that adds to it and that name the player in the crediting place: a
/// challenge counts for its first player, a goal is a shot, a goal and an
/// assist for its second player, passes and turnovers are touches, a demo
/// or bump is applied by its first player and taken by its second, and
/// shots, goals and missed shots are shot attempts.
pub proof fn law_counts_credit_the_named_player(rows: Seq<(String, String, String)>, name: Seq<char>, s: Stat, n: int)
    requires
        0 <= n <= rows.len(),
    ensures
        tally(rows, name, s, n) == rows_crediting(rows, name, counted_types(s), credited_to_second(s), n),
    decreases n,
{
    if n > 0 {
        law_counts_credit_the_named_player(rows, name, s, n - 1);
        lemma_kind_named(rows[n - 1].0@);
    }
}

} // verus!
