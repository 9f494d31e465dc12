//! Rotation roles: each player's role from the ball distances, which role
//! changes are fills, cuts and stalls, and how rotations are counted per
//! team.
use vstd::prelude::*;
use std::collections::HashMap;

verus! {

broadcast use vstd::std_specs::hash::group_hash_axioms;

/// A role change that advances through the rotation: one step toward the
/// ball, or first man dropping to last man.
pub open spec fn is_fill(previous_role: int, role: int, team_size: int) -> bool {
    (previous_role > 1 && role == previous_role - 1) || (previous_role == 1 && role == team_size)
}

/// A role change that skips ahead in the rotation, or first man dropping to
/// a role other than last man.
pub open spec fn is_cut(previous_role: int, role: int, team_size: int) -> bool {
    previous_role - role > 1 || (previous_role == 1 && role > 1 && role != team_size)
}

/// Whether a role change is a rotation fill.
pub fn rotation_filled(previous_role: i32, role: i32, team_size: i32) -> (res: bool)
    ensures
        res == is_fill(previous_role as int, role as int, team_size as int),
{
    (previous_role > 1 && role == previous_role - 1) || (previous_role == 1 && role == team_size)
}

/// Whether a role change is a rotation cut.
pub fn rotation_cut(previous_role: i32, role: i32, team_size: i32) -> (res: bool)
    requires
        i32::MIN <= previous_role - role <= i32::MAX,
    ensures
        res == is_cut(previous_role as int, role as int, team_size as int),
{
    previous_role - role > 1 || (previous_role == 1 && role > 1 && role != team_size)
}

/// The rotation count of a team after a role change: a team's first
/// counted change, and every change into or out of first man, starts a new
/// rotation.
pub open spec fn next_rotation_number(current: Option<i32>, previous_role: i32, role: i32) -> int {
    let number = match current {
        Some(n) => n as int,
        None => 0,
    };
    if number == 0 || previous_role == 1 || role == 1 {
        number + 1
    } else {
        number
    }
}

/// Counts a rotation for `team` and returns the team's current rotation
/// number.
pub fn current_rotation_number(
    rotation_numbers: &mut HashMap<i32, i32>,
    team: i32,
    previous_role: i32,
    role: i32,
) -> (res: i32)
    requires
        old(rotation_numbers)@.contains_key(team) ==> old(rotation_numbers)@[team] < i32::MAX,
    ensures
        res == next_rotation_number(
            if old(rotation_numbers)@.contains_key(team) {
                Some(old(rotation_numbers)@[team])
            } else {
                None
            },
            previous_role,
            role,
        ),
        final(rotation_numbers)@ == old(rotation_numbers)@.insert(team, res),
{
    let mut number: i32 = match rotation_numbers.get(&team) {
        Some(n) => *n,
        None => 0,
    };
    if number == 0 || previous_role == 1 || role == 1 {
        number = number + 1;
    }
    rotation_numbers.insert(team, number);
    number
}


/// No role change is both a fill and a cut, for any team of at least one
/// player.
pub proof fn law_fill_and_cut_exclusive(previous_role: int, role: int, team_size: int)
    requires
        team_size >= 1,
    ensures
        !(is_fill(previous_role, role, team_size) && is_cut(previous_role, role, team_size)),
{
}

/// Among the roles 1 (first man) to `team_size` (last man) of a team of at
/// least two: stepping one role toward the ball is a fill, and so is first
/// man dropping to last man; skipping a role toward the ball is a cut, and
/// so is first man dropping to a role short of last man; neither of those
/// cuts is a fill, and dropping back one role (not from first man) is
/// neither.
pub proof fn law_fills_and_cuts(previous_role: int, role: int, team_size: int)
    requires
        team_size >= 2,
        1 <= previous_role <= team_size,
        1 <= role <= team_size,
    ensures
        role == previous_role - 1 ==> is_fill(previous_role, role, team_size),
        previous_role == 1 && role == team_size ==> is_fill(previous_role, role, team_size),
        previous_role - role > 1 ==> is_cut(previous_role, role, team_size) && !is_fill(
            previous_role,
            role,
            team_size,
        ),
        previous_role == 1 && 1 < role < team_size ==> is_cut(previous_role, role, team_size) && !is_fill(
            previous_role,
            role,
            team_size,
        ),
        previous_role > 1 && role == previous_role + 1 ==> !is_fill(previous_role, role, team_size) && !is_cut(
            previous_role,
            role,
            team_size,
        ),
        role == previous_role ==> !is_fill(previous_role, role, team_size) && !is_cut(
            previous_role,
            role,
            team_size,
        ),
{
}

/// What a player's rotation role is computed from: its team, and the rank
/// of its distance to the ball among all players' distances (equal
/// distances share a rank; none when its position is unknown).
#[derive(Clone, Copy, Debug, PartialEq, Eq, Structural)]
pub struct RolePlayer {
    pub team: i32,
    pub distance_rank: Option<u32>,
}

/// Player `j` is a teammate of player `i` who is strictly closer to the
/// ball.
pub open spec fn closer_teammate(ps: Seq<RolePlayer>, i: int, j: int) -> bool {
    j != i && ps[j].team == ps[i].team && match (ps[j].distance_rank, ps[i].distance_rank) {
        (Some(a), Some(b)) => a < b,
        _ => false,
    }
}

/// How many of the first `n` players are teammates of player `i` strictly
/// closer to the ball.
pub open spec fn closer_count(ps: Seq<RolePlayer>, i: int, n: int) -> nat
    decreases n,
{
    if n <= 0 {
        0
    } else {
        closer_count(ps, i, n - 1) + if closer_teammate(ps, i, n - 1) {
            1nat
        } else {
            0nat
        }
    }
}

/// A player's rotation role: one more than the number of teammates closer
/// to the ball, or none when its position is unknown.
pub open spec fn role_of(ps: Seq<RolePlayer>, i: int) -> Option<int> {
    match ps[i].distance_rank {
        Some(_) => Some(closer_count(ps, i, ps.len() as int) + 1int),
        None => None,
    }
}

proof fn lemma_closer_count_bound(ps: Seq<RolePlayer>, i: int, n: int)
    ensures
        closer_count(ps, i, n) <= if n < 0 {
            0
        } else {
            n
        },
    decreases n,
{
    if n > 0 {
        lemma_closer_count_bound(ps, i, n - 1);
    }
}

/// The rotation role of each player in a frame.
pub fn rotation_roles(players: &[RolePlayer]) -> (res: Vec<Option<i32>>)
    requires
        players@.len() < i32::MAX,
    ensures
        res@.len() == players@.len(),
        forall|i: int| 0 <= i < players@.len() ==> match (#[trigger] res@[i], role_of(players@, i)) {
            (Some(a), Some(b)) => a as int == b,
            (None, None) => true,
            _ => false,
        },
{
    let n = players.len();
    let mut roles: Vec<Option<i32>> = Vec::new();
    let mut i: usize = 0;
    while i < n
        invariant
            n == players@.len(),
            n < i32::MAX,
            i <= n,
            roles@.len() == i,
            forall|k: int| 0 <= k < i ==> match (#[trigger] roles@[k], role_of(players@, k)) {
                (Some(a), Some(b)) => a as int == b,
                (None, None) => true,
                _ => false,
            },
        decreases n - i,
    {
        match players[i].distance_rank {
            None => {
                roles.push(None);
            },
            Some(mine) => {
                let mut count: i32 = 0;
                let mut j: usize = 0;
                while j < n
                    invariant
                        n == players@.len(),
                        n < i32::MAX,
                        i < n,
                        j <= n,
                        players@[i as int].distance_rank == Some(mine),
                        count as int == closer_count(players@, i as int, j as int),
                    decreases n - j,
                {
                    proof {
                        lemma_closer_count_bound(players@, i as int, j as int);
                    }
                    let closer = match players[j].distance_rank {
                        Some(theirs) => j != i && players[j].team == players[i].team && theirs < mine,
                        None => false,
                    };
                    if closer {
                        count = count + 1;
                    }
                    j += 1;
                }
                proof {
                    lemma_closer_count_bound(players@, i as int, n as int);
                }
                roles.push(Some(count + 1));
            },
        }
        i += 1;
    }
    roles
}

/// A player's rotation run: its current role, and whether a stall was
/// already reported in it.
#[derive(Clone, Copy, Debug, PartialEq, Eq, Structural)]
pub struct RotationRun {
    pub role: Option<i32>,
    pub stalled_emitted: bool,
}

/// The rotation events a role update can report.
#[derive(Clone, Copy, Debug, PartialEq, Eq, Structural)]
pub enum RotationEventKind {
    Fill,
    Cut,
    Stall,
}

/// The outcome of a role update: the new run, the event reported, and
/// whether the run's clock starts over.
#[derive(Clone, Copy, Debug, PartialEq, Eq, Structural)]
pub struct RotationStep {
    pub run: RotationRun,
    pub event: Option<RotationEventKind>,
    pub restart_clock: bool,
}

/// A role update: the first role starts a run; a new role ends the run,
/// reporting a fill or cut when the previous role was held at least half a
/// second, and starts another; holding first man for the stall time reports
/// one stall per run.
pub open spec fn rotation_step_spec(
    run: RotationRun,
    role: i32,
    team_size: i32,
    held_half_second: bool,
    held_stall_time: bool,
) -> RotationStep {
    match run.role {
        None => RotationStep {
            run: RotationRun { role: Some(role), stalled_emitted: false },
            event: None,
            restart_clock: true,
        },
        Some(previous) => if previous != role {
            RotationStep {
                run: RotationRun { role: Some(role), stalled_emitted: false },
                event: if held_half_second && is_fill(previous as int, role as int, team_size as int) {
                    Some(RotationEventKind::Fill)
                } else if held_half_second && is_cut(previous as int, role as int, team_size as int) {
                    Some(RotationEventKind::Cut)
                } else {
                    None
                },
                restart_clock: true,
            }
        } else if role == 1 && !run.stalled_emitted && held_stall_time {
            RotationStep {
                run: RotationRun { role: Some(role), stalled_emitted: true },
                event: Some(RotationEventKind::Stall),
                restart_clock: false,
            }
        } else {
            RotationStep { run, event: None, restart_clock: false }
        },
    }
}

/// Rotation events need a known team size above one: for an unknown team
/// size or one player a side, role updates leave the run as it is and
/// report nothing.
pub open spec fn rotation_team_size(team_size: Option<i32>) -> Option<i32> {
    match team_size {
        Some(t) => if t > 1 {
            Some(t)
        } else {
            None
        },
        None => None,
    }
}

/// A player's role update in a frame. `held_half_second` says whether the
/// run's clock shows at least half a second, `held_stall_time` whether it
/// shows at least the stall time. Without a team size above one nothing
/// is reported.
pub fn rotation_step(
    run: RotationRun,
    role: i32,
    team_size: Option<i32>,
    held_half_second: bool,
    held_stall_time: bool,
) -> (res: RotationStep)
    ensures
        res == match rotation_team_size(team_size) {
            Some(t) => rotation_step_spec(run, role, t, held_half_second, held_stall_time),
            None => RotationStep { run, event: None, restart_clock: false },
        },
{
    let team_size = match team_size {
        Some(t) => if t > 1 {
            t
        } else {
            return RotationStep { run, event: None, restart_clock: false };
        },
        None => {
            return RotationStep { run, event: None, restart_clock: false };
        },
    };
    match run.role {
        None => RotationStep {
            run: RotationRun { role: Some(role), stalled_emitted: false },
            event: None,
            restart_clock: true,
        },
        Some(previous) => {
            if previous != role {
                let fill = rotation_filled(previous, role, team_size);
                let cut = (previous as i64) - (role as i64) > 1 || (previous == 1 && role > 1 && role != team_size);
                let event = if held_half_second && fill {
                    Some(RotationEventKind::Fill)
                } else if held_half_second && cut {
                    Some(RotationEventKind::Cut)
                } else {
                    None
                };
                RotationStep {
                    run: RotationRun { role: Some(role), stalled_emitted: false },
                    event,
                    restart_clock: true,
                }
            } else if role == 1 && !run.stalled_emitted && held_stall_time {
                RotationStep {
                    run: RotationRun { role: Some(role), stalled_emitted: true },
                    event: Some(RotationEventKind::Stall),
                    restart_clock: false,
                }
            } else {
                RotationStep { run, event: None, restart_clock: false }
            }
        },
    }
}

/// A run reports at most one stall: once reported, further updates with
/// the same role report nothing, however long it is held.
pub proof fn law_one_stall_per_run(
    run: RotationRun,
    role: i32,
    team_size: i32,
    held_half_second: bool,
    held_stall_time: bool,
)
    requires
        run.role == Some(role),
        run.stalled_emitted,
    ensures
        rotation_step_spec(run, role, team_size, held_half_second, held_stall_time).event is None,
        rotation_step_spec(run, role, team_size, held_half_second, held_stall_time).run == run,
{
}

} // verus!
