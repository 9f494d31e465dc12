//! Row-level passes over the ordered event list: turnovers, duplicate
//! challenges, the running score and the dribble and flick events.
use vstd::prelude::*;
use crate::text::str_eq;

verus! {

/// Event types that count as touching the ball when deciding who won it:
/// touches, turnovers, passes, shots, goals, kickoffs and challenges.
pub open spec fn is_touch_like(t: Seq<char>) -> bool {
    ||| t == "touch"@
    ||| t == "turnover"@
    ||| t == "pass"@
    ||| t == "shot"@
    ||| t == "goal"@
    ||| t == "kickoff"@
    ||| t == "challenge"@
}

pub(crate) fn touch_like(t: &str) -> (res: bool)
    ensures
        res == is_touch_like(t@),
{
    str_eq(t, "touch") || str_eq(t, "turnover") || str_eq(t, "pass") || str_eq(t, "shot")
        || str_eq(t, "goal") || str_eq(t, "kickoff") || str_eq(t, "challenge")
}

/// Event types that end the search for the next touch without deciding
/// it.
pub open spec fn ends_possession_search(t: Seq<char>) -> bool {
    t == "goal"@ || t == "kickoff"@ || t == "challenge"@
}

/// The team of the first touch, turnover, pass or shot from row `j` on,
/// when no goal, kickoff or challenge comes first; empty otherwise. Missed
/// shots and missed passes are passed over. Rows are `(event type, event
/// team)`.
pub open spec fn next_touch_team_from(rows: Seq<(Seq<char>, Seq<char>)>, i: int, j: int) -> Seq<char>
    decreases rows.len() - j,
{
    if j < 0 || j >= rows.len() {
        Seq::empty()
    } else if ends_possession_search(rows[j].0) {
        Seq::empty()
    } else if is_touch_like(rows[j].0) {
        rows[j].1
    } else {
        next_touch_team_from(rows, i, j + 1)
    }
}

/// A touch is a turnover when the first later touch, turnover, pass or
/// shot, before any goal, kickoff or challenge, belongs to the other team.
pub open spec fn is_turnover(rows: Seq<(Seq<char>, Seq<char>)>, i: int) -> bool {
    let team = rows[i].1;
    let next = next_touch_team_from(rows, i, i + 1);
    rows[i].0 == "touch"@ && team.len() > 0 && next.len() > 0 && next != team
}

/// The views of `(event type, event team)` rows.
pub open spec fn pair_views(rows: Seq<(String, String)>) -> Seq<(Seq<char>, Seq<char>)> {
    rows.map_values(|r: (String, String)| (r.0@, r.1@))
}

/// Marks which `(event type, event team)` rows are touches that become
/// turnovers.
pub fn mark_turnovers(rows: &[(String, String)]) -> (res: Vec<bool>)
    ensures
        res@.len() == rows@.len(),
        forall|i: int| 0 <= i < rows@.len() ==> #[trigger] res@[i] == is_turnover(pair_views(rows@), i),
{
    let ghost v = pair_views(rows@);
    let mut out: Vec<bool> = Vec::new();
    let mut i: usize = 0;
    while i < rows.len()
        invariant
            i <= rows@.len(),
            out@.len() == i,
            v == pair_views(rows@),
            forall|k: int| 0 <= k < i ==> #[trigger] out@[k] == is_turnover(v, k),
        decreases rows@.len() - i,
    {
        let team = rows[i].1.as_str();
        assert(v[i as int] == (rows@[i as int].0@, rows@[i as int].1@));
        let mut result = false;
        if str_eq(rows[i].0.as_str(), "touch") && team.unicode_len() > 0 {
            let mut j: usize = i + 1;
            let mut next_team: &str = "";
            let mut searching = true;
            proof {
                reveal_strlit("");
            }
            while j < rows.len() && searching
                invariant
                    i < rows@.len(),
                    i + 1 <= j <= rows@.len(),
                    v == pair_views(rows@),
                    searching ==> next_touch_team_from(v, i as int, j as int)
                        == next_touch_team_from(v, i as int, i + 1),
                    searching ==> next_team@ == Seq::<char>::empty(),
                    !searching ==> next_team@ == next_touch_team_from(v, i as int, i + 1),
                decreases rows@.len() - j,
            {
                let t = rows[j].0.as_str();
                assert(v[j as int] == (rows@[j as int].0@, rows@[j as int].1@));
                if str_eq(t, "goal") || str_eq(t, "kickoff") || str_eq(t, "challenge") {
                    searching = false;
                } else if touch_like(t) {
                    next_team = rows[j].1.as_str();
                    searching = false;
                }
                j = j + 1;
            }
            if !searching {
                result = next_team.unicode_len() > 0 && !str_eq(next_team, team);
            }
        }
        out.push(result);
        i = i + 1;
    }
    out
}


/// What duplicate-challenge detection reads of a row.
#[derive(Clone, Debug)]
pub struct ChallengeRow {
    pub event_type: String,
    pub player_1_name: String,
    pub player_2_name: String,
    pub frame_number: Option<i32>,
    /// Whether the row carries a car-contact distance, as bumps do.
    pub has_car_contact: bool,
}

/// What duplicate-challenge detection reads of a row, with texts as
/// character sequences.
pub struct ChallengeView {
    pub event_type: Seq<char>,
    pub player_1_name: Seq<char>,
    pub player_2_name: Seq<char>,
    pub frame_number: Option<i32>,
    pub has_car_contact: bool,
}

impl View for ChallengeRow {
    type V = ChallengeView;

    open spec fn view(&self) -> ChallengeView {
        ChallengeView {
            event_type: self.event_type@,
            player_1_name: self.player_1_name@,
            player_2_name: self.player_2_name@,
            frame_number: self.frame_number,
            has_car_contact: self.has_car_contact,
        }
    }
}

/// The views of challenge rows.
pub open spec fn challenge_views(rows: Seq<ChallengeRow>) -> Seq<ChallengeView> {
    rows.map_values(|r: ChallengeRow| r@)
}

/// Challenges within this many frames of the same pair are duplicates.
pub const CHALLENGE_EVENT_COOLDOWN_FRAMES: i32 = 30;

/// The two name pairs hold the same two players, in either order.
pub open spec fn same_pair(a1: Seq<char>, a2: Seq<char>, b1: Seq<char>, b2: Seq<char>) -> bool {
    (a1 == b1 && a2 == b2) || (a1 == b2 && a2 == b1)
}

/// A challenge row with both players named.
pub open spec fn is_pair_challenge(r: ChallengeView) -> bool {
    r.event_type == "challenge"@ && r.player_1_name.len() > 0 && r.player_2_name.len() > 0
}

/// The frame a challenge is compared by; `i32::MAX` when it has none.
pub open spec fn challenge_frame(r: ChallengeView) -> int {
    match r.frame_number {
        Some(f) => f as int,
        None => i32::MAX as int,
    }
}

/// The frame of the last challenge between players `a` and `b` among the
/// first `n` rows that was kept as a challenge.
pub open spec fn last_challenge_frame(rows: Seq<ChallengeView>, n: int, a: Seq<char>, b: Seq<char>) -> Option<int>
    decreases n, 1int,
{
    if n <= 0 {
        None
    } else {
        let r = rows[n - 1];
        if is_pair_challenge(r) && !is_duplicate_challenge(rows, n - 1) && same_pair(
            r.player_1_name,
            r.player_2_name,
            a,
            b,
        ) {
            Some(challenge_frame(r))
        } else {
            last_challenge_frame(rows, n - 1, a, b)
        }
    }
}

/// Row `i` is a challenge within 30 frames of a kept challenge between the
/// same two players.
pub open spec fn is_duplicate_challenge(rows: Seq<ChallengeView>, i: int) -> bool
    decreases i + 1, 0int,
{
    if i < 0 {
        false
    } else {
        is_pair_challenge(rows[i]) && match last_challenge_frame(
            rows,
            i,
            rows[i].player_1_name,
            rows[i].player_2_name,
        ) {
            Some(p) => challenge_frame(rows[i]) - p <= CHALLENGE_EVENT_COOLDOWN_FRAMES,
            None => false,
        }
    }
}

/// The type a duplicate challenge reverts to: `bump` when it came from a car
/// contact, `touch` otherwise.
pub open spec fn reverted_type(r: ChallengeView) -> Seq<char> {
    if r.has_car_contact {
        "bump"@
    } else {
        "touch"@
    }
}

/// The last of the first `m` recorded challenges between `a` and `b`.
pub open spec fn latest_record(records: Seq<(String, String, i64)>, m: int, a: Seq<char>, b: Seq<char>) -> Option<int>
    decreases m,
{
    if m <= 0 {
        None
    } else if same_pair(records[m - 1].0@, records[m - 1].1@, a, b) {
        Some(records[m - 1].2 as int)
    } else {
        latest_record(records, m - 1, a, b)
    }
}

/// For each row, the type it reverts to when it is a duplicate challenge.
pub fn revert_duplicate_challenges(rows: &[ChallengeRow]) -> (res: Vec<Option<&'static str>>)
    ensures
        res@.len() == rows@.len(),
        forall|i: int|
            0 <= i < rows@.len() ==> match #[trigger] res@[i] {
                Some(t) => is_duplicate_challenge(challenge_views(rows@), i) && t@ == reverted_type(rows@[i]@),
                None => !is_duplicate_challenge(challenge_views(rows@), i),
            },
{
    let ghost v = challenge_views(rows@);
    let mut records: Vec<(String, String, i64)> = Vec::new();
    let mut out: Vec<Option<&'static str>> = Vec::new();
    let mut i: usize = 0;
    while i < rows.len()
        invariant
            i <= rows@.len(),
            out@.len() == i,
            v == challenge_views(rows@),
            forall|k: int|
                0 <= k < i ==> match #[trigger] out@[k] {
                    Some(t) => is_duplicate_challenge(v, k) && t@ == reverted_type(rows@[k]@),
                    None => !is_duplicate_challenge(v, k),
                },
            forall|a: Seq<char>, b: Seq<char>|
                #[trigger] latest_record(records@, records@.len() as int, a, b)
                    == last_challenge_frame(v, i as int, a, b),
            forall|k: int| 0 <= k < records@.len() ==> i32::MIN <= (#[trigger] records@[k]).2 <= i32::MAX,
        decreases rows@.len() - i,
    {
        let row = &rows[i];
        assert(v[i as int] == row@);
        let pair_challenge = str_eq(row.event_type.as_str(), "challenge")
            && row.player_1_name.unicode_len() > 0 && row.player_2_name.unicode_len() > 0;
        let frame: i64 = match row.frame_number {
            Some(f) => f as i64,
            None => i32::MAX as i64,
        };
        let ghost a = row.player_1_name@;
        let ghost b = row.player_2_name@;
        let mut result: Option<&'static str> = None;
        if pair_challenge {
            let mut k: usize = records.len();
            let mut prior: Option<i64> = None;
            while k > 0 && prior.is_none()
                invariant
                    k <= records@.len(),
                    forall|m: int| 0 <= m < records@.len() ==> i32::MIN <= (#[trigger] records@[m]).2 <= i32::MAX,
                    prior is None ==> latest_record(records@, records@.len() as int, a, b)
                        == latest_record(records@, k as int, a, b),
                    prior is Some ==> latest_record(records@, records@.len() as int, a, b)
                        == Some(prior.unwrap() as int),
                    prior is Some ==> i32::MIN <= prior.unwrap() <= i32::MAX,
                    a == row.player_1_name@,
                    b == row.player_2_name@,
                decreases k,
            {
                if (str_eq(records[k - 1].0.as_str(), row.player_1_name.as_str()) && str_eq(
                    records[k - 1].1.as_str(),
                    row.player_2_name.as_str(),
                )) || (str_eq(records[k - 1].0.as_str(), row.player_2_name.as_str()) && str_eq(
                    records[k - 1].1.as_str(),
                    row.player_1_name.as_str(),
                )) {
                    prior = Some(records[k - 1].2);
                }
                k = k - 1;
            }
            let duplicate = match prior {
                Some(p) => frame - p <= 30,
                None => false,
            };
            assert(latest_record(records@, records@.len() as int, a, b) == last_challenge_frame(
                v,
                i as int,
                a,
                b,
            ));
            assert(is_duplicate_challenge(v, i as int) == duplicate);
            if duplicate {
                result = Some(
                    if row.has_car_contact {
                        "bump"
                    } else {
                        "touch"
                    },
                );
            } else {
                let ghost before = records@;
                records.push((row.player_1_name.clone(), row.player_2_name.clone(), frame));
                proof {
                    assert forall|x: Seq<char>, y: Seq<char>| #[trigger]
                        latest_record(records@, records@.len() as int, x, y)
                            == last_challenge_frame(v, i + 1, x, y) by {
                        assert(records@.len() == before.len() + 1);
                        assert(records@[before.len() as int] == (row.player_1_name, row.player_2_name, frame));
                        if !same_pair(a, b, x, y) {
                            assert(latest_record(records@, before.len() as int, x, y)
                                == latest_record(before, before.len() as int, x, y)) by {
                                lemma_latest_record_prefix(records@, before, before.len() as int, x, y);
                            }
                        }
                    }
                }
            }
        }
        proof {
            if !(pair_challenge && result is None) {
                assert forall|x: Seq<char>, y: Seq<char>| #[trigger]
                    latest_record(records@, records@.len() as int, x, y)
                        == last_challenge_frame(v, i + 1, x, y) by {
                }
            }
        }
        out.push(result);
        i = i + 1;
    }
    out
}

proof fn lemma_latest_record_prefix(
    longer: Seq<(String, String, i64)>,
    shorter: Seq<(String, String, i64)>,
    m: int,
    a: Seq<char>,
    b: Seq<char>,
)
    requires
        0 <= m <= shorter.len() <= longer.len(),
        forall|k: int| 0 <= k < shorter.len() ==> longer[k] == shorter[k],
    ensures
        latest_record(longer, m, a, b) == latest_record(shorter, m, a, b),
    decreases m,
{
    if m > 0 {
        lemma_latest_record_prefix(longer, shorter, m - 1, a, b);
    }
}

/// The number of goals among the first `n` rows scored by orange (when
/// `orange`) or by blue (every other team).
pub open spec fn goals_before(rows: Seq<(Seq<char>, Seq<char>)>, n: int, orange: bool) -> nat
    decreases n,
{
    if n <= 0 {
        0
    } else {
        goals_before(rows, n - 1, orange) + if rows[n - 1].0 == "goal"@ && (rows[n - 1].1
            == "orange"@) == orange {
            1nat
        } else {
            0nat
        }
    }
}

proof fn lemma_goals_before_bounded(rows: Seq<(Seq<char>, Seq<char>)>, n: int, orange: bool)
    requires
        0 <= n,
    ensures
        goals_before(rows, n, orange) <= n,
    decreases n,
{
    if n > 0 {
        lemma_goals_before_bounded(rows, n - 1, orange);
    }
}

/// The score `(blue, orange)` before each `(event type, event team)` row,
/// as `i32` values (a count past `i32::MAX` wraps, as an `i32` counter
/// does).
pub fn running_scores(rows: &[(String, String)]) -> (res: Vec<(i32, i32)>)
    ensures
        res@.len() == rows@.len(),
        forall|i: int|
            0 <= i < rows@.len() ==> #[trigger] res@[i] == (
                goals_before(pair_views(rows@), i, false) as i32,
                goals_before(pair_views(rows@), i, true) as i32,
            ),
{
    let mut blue: u64 = 0;
    let mut orange: u64 = 0;
    let mut out: Vec<(i32, i32)> = Vec::new();
    let mut i: usize = 0;
    while i < rows.len()
        invariant
            i <= rows@.len(),
            out@.len() == i,
            blue == goals_before(pair_views(rows@), i as int, false),
            orange == goals_before(pair_views(rows@), i as int, true),
            forall|k: int|
                0 <= k < i ==> #[trigger] out@[k] == (
                    goals_before(pair_views(rows@), k, false) as i32,
                    goals_before(pair_views(rows@), k, true) as i32,
                ),
        decreases rows@.len() - i,
    {
        assert(pair_views(rows@)[i as int] == (rows@[i as int].0@, rows@[i as int].1@));
        proof {
            lemma_goals_before_bounded(pair_views(rows@), i as int, false);
            lemma_goals_before_bounded(pair_views(rows@), i as int, true);
        }
        out.push((blue as i32, orange as i32));
        if str_eq(rows[i].0.as_str(), "goal") {
            if str_eq(rows[i].1.as_str(), "orange") {
                orange = orange + 1;
            } else {
                blue = blue + 1;
            }
        }
        i = i + 1;
    }
    out
}

proof fn lemma_last_challenge_at_least(rows: Seq<ChallengeView>, n: int, a: Seq<char>, b: Seq<char>, i: int)
    requires
        0 <= i < n <= rows.len(),
        is_pair_challenge(rows[i]),
        !is_duplicate_challenge(rows, i),
        same_pair(rows[i].player_1_name, rows[i].player_2_name, a, b),
        forall|x: int, y: int| 0 <= x <= y < rows.len() ==> challenge_frame(rows[x]) <= challenge_frame(rows[y]),
    ensures
        last_challenge_frame(rows, n, a, b) matches Some(p) && p >= challenge_frame(rows[i]),
    decreases n,
{
    let r = rows[n - 1];
    if !(is_pair_challenge(r) && !is_duplicate_challenge(rows, n - 1) && same_pair(
        r.player_1_name,
        r.player_2_name,
        a,
        b,
    )) {
        lemma_last_challenge_at_least(rows, n - 1, a, b, i);
    }
}

/// With rows in frame order, two challenges between the same two players
/// that both stay challenges are more than the cooldown apart.
pub proof fn law_kept_challenges_spaced(rows: Seq<ChallengeView>, i: int, j: int)
    requires
        0 <= i < j < rows.len(),
        forall|x: int, y: int| 0 <= x <= y < rows.len() ==> challenge_frame(rows[x]) <= challenge_frame(rows[y]),
        is_pair_challenge(rows[i]),
        is_pair_challenge(rows[j]),
        !is_duplicate_challenge(rows, i),
        !is_duplicate_challenge(rows, j),
        same_pair(rows[i].player_1_name, rows[i].player_2_name, rows[j].player_1_name, rows[j].player_2_name),
    ensures
        challenge_frame(rows[j]) - challenge_frame(rows[i]) > CHALLENGE_EVENT_COOLDOWN_FRAMES,
{
    lemma_last_challenge_at_least(rows, j, rows[j].player_1_name, rows[j].player_2_name, i);
}

/// The events a contact row's dribble and flick flags add.
#[derive(Clone, Copy, Debug, PartialEq, Eq, Structural)]
pub enum MicrostatKind {
    AirDribble,
    GroundDribble,
    Flick,
}

/// What the added events read of a row: its dribble and flick flags, its
/// first player's id and its frame.
#[derive(Clone, Debug)]
pub struct MicrostatRow {
    pub air_dribble: bool,
    pub ground_dribble: bool,
    pub flick_shot: bool,
    pub player_id: String,
    pub frame_number: Option<i32>,
}

/// The event type of an added event.
pub open spec fn microstat_text(k: MicrostatKind) -> Seq<char> {
    match k {
        MicrostatKind::AirDribble => "air-dribble"@,
        MicrostatKind::GroundDribble => "ground-dribble"@,
        MicrostatKind::Flick => "flick"@,
    }
}

/// The event type of an added event.
pub fn microstat_event_type(k: MicrostatKind) -> (res: &'static str)
    ensures
        res@ == microstat_text(k),
{
    match k {
        MicrostatKind::AirDribble => "air-dribble",
        MicrostatKind::GroundDribble => "ground-dribble",
        MicrostatKind::Flick => "flick",
    }
}

/// The events row `r` would add, in flag order: air dribble, ground
/// dribble, flick.
pub open spec fn row_candidates(row: MicrostatRow, r: int) -> Seq<(int, MicrostatKind)> {
    (if row.air_dribble {
        seq![(r, MicrostatKind::AirDribble)]
    } else {
        Seq::empty()
    }) + (if row.ground_dribble {
        seq![(r, MicrostatKind::GroundDribble)]
    } else {
        Seq::empty()
    }) + (if row.flick_shot {
        seq![(r, MicrostatKind::Flick)]
    } else {
        Seq::empty()
    })
}

/// The events the first `n` rows would add, in row order.
pub open spec fn microstat_candidates(rows: Seq<MicrostatRow>, n: nat) -> Seq<(int, MicrostatKind)>
    decreases n,
{
    if n == 0 {
        Seq::empty()
    } else {
        microstat_candidates(rows, (n - 1) as nat) + row_candidates(rows[n - 1], n - 1)
    }
}

/// Two candidate events repeat each other: same event type, same player
/// id, same frame (a missing frame counting as -1).
pub open spec fn same_microstat(rows: Seq<MicrostatRow>, a: (int, MicrostatKind), b: (int, MicrostatKind)) -> bool {
    &&& a.1 == b.1
    &&& rows[a.0].player_id@ == rows[b.0].player_id@
    &&& (match rows[a.0].frame_number {
        Some(f) => f as int,
        None => -1,
    }) == (match rows[b.0].frame_number {
        Some(f) => f as int,
        None => -1,
    })
}

/// The first `n` candidates with each repeat of an earlier one dropped.
pub open spec fn first_microstats(rows: Seq<MicrostatRow>, cs: Seq<(int, MicrostatKind)>, n: nat) -> Seq<
    (int, MicrostatKind),
>
    decreases n,
{
    if n == 0 {
        Seq::empty()
    } else {
        let earlier = first_microstats(rows, cs, (n - 1) as nat);
        if forall|j: int| 0 <= j < n - 1 ==> !same_microstat(rows, #[trigger] cs[j], cs[n - 1]) {
            earlier.push(cs[n - 1])
        } else {
            earlier
        }
    }
}

/// The events added for dribbles and flicks.
pub open spec fn microstat_additions(rows: Seq<MicrostatRow>) -> Seq<(int, MicrostatKind)> {
    let cs = microstat_candidates(rows, rows.len());
    first_microstats(rows, cs, cs.len())
}

fn frame_or_unknown(frame: Option<i32>) -> (res: i32)
    ensures
        res as int == match frame {
            Some(f) => f as int,
            None => -1,
        },
{
    match frame {
        Some(f) => f,
        None => -1,
    }
}

/// The dribble and flick events added after the rows, as `(row, kind)`: for
/// each row in order, an air dribble, a ground dribble and a flick where
/// its flags say so, each only once per player, frame and kind.
pub fn microstat_events(rows: &[MicrostatRow]) -> (res: Vec<(usize, MicrostatKind)>)
    ensures
        res@.len() == microstat_additions(rows@).len(),
        forall|k: int| 0 <= k < res@.len() ==> ((#[trigger] res@[k]).0 as int, res@[k].1) == microstat_additions(rows@)[k],
{
    let mut cands: Vec<(usize, MicrostatKind)> = Vec::new();
    let mut r: usize = 0;
    while r < rows.len()
        invariant
            r <= rows@.len(),
            cands@.len() == microstat_candidates(rows@, r as nat).len(),
            forall|k: int| 0 <= k < cands@.len() ==> ((#[trigger] cands@[k]).0 as int, cands@[k].1)
                == microstat_candidates(rows@, r as nat)[k],
            forall|k: int| 0 <= k < cands@.len() ==> (#[trigger] cands@[k]).0 < r,
        decreases rows.len() - r,
    {
        let ghost before = microstat_candidates(rows@, r as nat);
        let ghost start = cands@.len();
        if rows[r].air_dribble {
            cands.push((r, MicrostatKind::AirDribble));
        }
        if rows[r].ground_dribble {
            cands.push((r, MicrostatKind::GroundDribble));
        }
        if rows[r].flick_shot {
            cands.push((r, MicrostatKind::Flick));
        }
        proof {
            let added = row_candidates(rows@[r as int], r as int);
            assert(microstat_candidates(rows@, (r + 1) as nat) == before + added);
            assert forall|k: int| 0 <= k < cands@.len() implies ((#[trigger] cands@[k]).0 as int, cands@[k].1) == (
            before + added)[k] by {
                if k >= start {
                    let rows_r = rows@[r as int];
                    if rows_r.air_dribble && rows_r.ground_dribble {
                        assert(added[1] == (r as int, MicrostatKind::GroundDribble));
                    }
                }
            }
        }
        r += 1;
    }
    let ghost cs = microstat_candidates(rows@, rows@.len());
    let mut out: Vec<(usize, MicrostatKind)> = Vec::new();
    let mut i: usize = 0;
    while i < cands.len()
        invariant
            i <= cands@.len(),
            cands@.len() == cs.len(),
            cs == microstat_candidates(rows@, rows@.len()),
            forall|k: int| 0 <= k < cands@.len() ==> ((#[trigger] cands@[k]).0 as int, cands@[k].1) == cs[k],
            forall|k: int| 0 <= k < cands@.len() ==> (#[trigger] cands@[k]).0 < rows@.len(),
            out@.len() == first_microstats(rows@, cs, i as nat).len(),
            forall|k: int| 0 <= k < out@.len() ==> ((#[trigger] out@[k]).0 as int, out@[k].1) == first_microstats(
                rows@,
                cs,
                i as nat,
            )[k],
        decreases cands.len() - i,
    {
        let (ri, kind) = cands[i];
        let frame = frame_or_unknown(rows[ri].frame_number);
        let mut repeated = false;
        let mut j: usize = 0;
        while j < i
            invariant
                i < cands@.len(),
                j <= i,
                cands@.len() == cs.len(),
                forall|k: int| 0 <= k < cands@.len() ==> ((#[trigger] cands@[k]).0 as int, cands@[k].1) == cs[k],
                forall|k: int| 0 <= k < cands@.len() ==> (#[trigger] cands@[k]).0 < rows@.len(),
                cands@[i as int] == (ri, kind),
                frame as int == match rows@[ri as int].frame_number {
                    Some(f) => f as int,
                    None => -1,
                },
                repeated == exists|k: int| 0 <= k < j && same_microstat(rows@, #[trigger] cs[k], cs[i as int]),
            decreases i - j,
        {
            let (rj, kj) = cands[j];
            if kj == kind && str_eq(rows[rj].player_id.as_str(), rows[ri].player_id.as_str()) && frame_or_unknown(
                rows[rj].frame_number,
            ) == frame {
                assert(same_microstat(rows@, cs[j as int], cs[i as int]));
                repeated = true;
            } else {
                assert(!same_microstat(rows@, cs[j as int], cs[i as int]));
            }
            j += 1;
        }
        let ghost before = out@;
        if !repeated {
            out.push((ri, kind));
        }
        proof {
            let prev = first_microstats(rows@, cs, i as nat);
            assert(first_microstats(rows@, cs, (i + 1) as nat) == if forall|j: int|
                0 <= j < i ==> !same_microstat(rows@, #[trigger] cs[j], cs[i as int]) {
                prev.push(cs[i as int])
            } else {
                prev
            });
        }
        i += 1;
    }
    out
}

proof fn lemma_first_microstats_from(rows: Seq<MicrostatRow>, cs: Seq<(int, MicrostatKind)>, n: nat)
    requires
        n <= cs.len(),
    ensures
        forall|a: int| 0 <= a < first_microstats(rows, cs, n).len() ==> exists|j: int|
            0 <= j < n && #[trigger] first_microstats(rows, cs, n)[a] == cs[j],
        forall|a: int, b: int|
            0 <= a < b < first_microstats(rows, cs, n).len() ==> !same_microstat(
                rows,
                #[trigger] first_microstats(rows, cs, n)[a],
                #[trigger] first_microstats(rows, cs, n)[b],
            ),
    decreases n,
{
    if n > 0 {
        lemma_first_microstats_from(rows, cs, (n - 1) as nat);
        let prev = first_microstats(rows, cs, (n - 1) as nat);
        let cur = first_microstats(rows, cs, n);
        if forall|j: int| 0 <= j < n - 1 ==> !same_microstat(rows, #[trigger] cs[j], cs[n - 1]) {
            assert(cur == prev.push(cs[n - 1]));
            assert forall|a: int| 0 <= a < cur.len() implies exists|j: int| 0 <= j < n && #[trigger] cur[a] == cs[j] by {
                if a < prev.len() {
                    assert(cur[a] == prev[a]);
                    let j = choose|j: int| 0 <= j < n - 1 && #[trigger] prev[a] == cs[j];
                    assert(cur[a] == cs[j]);
                } else {
                    assert(cur[a] == cs[n - 1]);
                }
            }
            assert forall|a: int, b: int| 0 <= a < b < cur.len() implies !same_microstat(
                rows,
                #[trigger] cur[a],
                #[trigger] cur[b],
            ) by {
                assert(cur[a] == prev[a]);
                if b < prev.len() {
                    assert(cur[b] == prev[b]);
                } else {
                    let j = choose|j: int| 0 <= j < n - 1 && #[trigger] prev[a] == cs[j];
                    assert(!same_microstat(rows, cs[j], cs[n - 1]));
                }
            }
        } else {
            assert(cur == prev);
            assert forall|a: int| 0 <= a < cur.len() implies exists|j: int| 0 <= j < n && #[trigger] cur[a] == cs[j] by {
                let j = choose|j: int| 0 <= j < n - 1 && #[trigger] prev[a] == cs[j];
                assert(cur[a] == cs[j]);
            }
        }
    }
}

/// No two added dribble or flick events repeat each other: they differ in
/// kind, player or frame.
pub proof fn law_microstat_events_distinct(rows: Seq<MicrostatRow>, a: int, b: int)
    requires
        0 <= a < b < microstat_additions(rows).len(),
    ensures
        !same_microstat(rows, microstat_additions(rows)[a], microstat_additions(rows)[b]),
{
    let cs = microstat_candidates(rows, rows.len());
    lemma_first_microstats_from(rows, cs, cs.len());
}

} // verus!
