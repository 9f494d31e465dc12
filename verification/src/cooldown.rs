//! Cooldowns: an event is not recorded again for the same key (player,
//! pair of players, team) within a number of frames of the last one that
//! was.
use vstd::prelude::*;
use crate::row_order::{text_before, text_before_exec};
use crate::text::str_eq;
use crate::events::{team_name, team_text};
use vstd::string::StringExecFns;

verus! {

/// An event that a cooldown may suppress: its frame, its key, the cooldown
/// that applies to it, and whether it qualifies at all.
#[derive(Debug)]
pub struct CooldownCandidate {
    pub frame_number: i32,
    /// The key: the kind of event, then one or two names.
    pub kind: String,
    pub first: String,
    pub second: String,
    /// The event is suppressed within this many frames of the last recorded
    /// event with the same key.
    pub window: i32,
    /// The event qualifies apart from the cooldown.
    pub eligible: bool,
}

/// What the cooldown reads of a candidate.
pub type CandidateView = (i32, (Seq<char>, Seq<char>, Seq<char>), i32, bool);

impl View for CooldownCandidate {
    type V = CandidateView;

    open spec fn view(&self) -> CandidateView {
        (self.frame_number, (self.kind@, self.first@, self.second@), self.window, self.eligible)
    }
}

/// The frame of the last recorded candidate among the first `n` with the
/// same key as candidate `i`.
pub open spec fn last_recorded_frame(c: Seq<CandidateView>, kept: Seq<bool>, i: int, n: int) -> Option<i32>
    decreases n,
{
    if n <= 0 {
        None
    } else if kept[n - 1] && c[n - 1].1 == c[i].1 {
        Some(c[n - 1].0)
    } else {
        last_recorded_frame(c, kept, i, n - 1)
    }
}

/// Candidate `i` is recorded, given which earlier ones were: it qualifies,
/// and it is not within its cooldown of the last recorded candidate with
/// the same key.
pub open spec fn recorded(c: Seq<CandidateView>, kept: Seq<bool>, i: int) -> bool {
    &&& c[i].3
    &&& !(last_recorded_frame(c, kept, i, i) matches Some(p) && c[i].0 - p <= c[i].2)
}

/// Which of the first `n` candidates are recorded.
pub open spec fn recorded_upto(c: Seq<CandidateView>, n: int) -> Seq<bool>
    decreases n,
{
    if n <= 0 {
        Seq::empty()
    } else {
        let prev = recorded_upto(c, n - 1);
        prev.push(recorded(c, prev, n - 1))
    }
}

proof fn lemma_recorded_upto_len(c: Seq<CandidateView>, n: int)
    requires
        0 <= n,
    ensures
        recorded_upto(c, n).len() == n,
    decreases n,
{
    if n > 0 {
        lemma_recorded_upto_len(c, n - 1);
    }
}

fn same_key(a: &CooldownCandidate, b: &CooldownCandidate) -> (res: bool)
    ensures
        res == (a@.1 == b@.1),
{
    str_eq(a.kind.as_str(), b.kind.as_str()) && str_eq(a.first.as_str(), b.first.as_str()) && str_eq(
        a.second.as_str(),
        b.second.as_str(),
    )
}

/// Which candidates, taken in order, are recorded; see `recorded`.
pub fn apply_cooldowns(candidates: &[CooldownCandidate]) -> (res: Vec<bool>)
    ensures
        res@ == recorded_upto(candidates@.map_values(|x: CooldownCandidate| x@), candidates@.len() as int),
{
    let ghost c = candidates@.map_values(|x: CooldownCandidate| x@);
    let mut kept: Vec<bool> = Vec::new();
    let mut i: usize = 0;
    while i < candidates.len()
        invariant
            c == candidates@.map_values(|x: CooldownCandidate| x@),
            i <= candidates@.len(),
            kept@ == recorded_upto(c, i as int),
        decreases candidates@.len() - i,
    {
        proof {
            lemma_recorded_upto_len(c, i as int);
        }
        let cand = &candidates[i];
        let mut record = false;
        if cand.eligible {
            let mut prior: Option<i32> = None;
            let mut n: usize = i;
            while n > 0
                invariant
                    c == candidates@.map_values(|x: CooldownCandidate| x@),
                    i < candidates@.len(),
                    n <= i,
                    kept@.len() == i,
                    *cand == candidates@[i as int],
                    prior is None ==> last_recorded_frame(c, kept@, i as int, i as int) == last_recorded_frame(
                        c,
                        kept@,
                        i as int,
                        n as int,
                    ),
                    prior is Some ==> prior == last_recorded_frame(c, kept@, i as int, i as int),
                decreases n,
            {
                if prior.is_none() && kept[n - 1] && same_key(&candidates[n - 1], cand) {
                    prior = Some(candidates[n - 1].frame_number);
                }
                n = n - 1;
            }
            record = match prior {
                Some(p) => (cand.frame_number as i64) - (p as i64) > (cand.window as i64),
                None => true,
            };
        }
        kept.push(record);
        i = i + 1;
    }
    kept
}

proof fn lemma_recorded_prefix(c: Seq<CandidateView>, n: int, m: int)
    requires
        0 <= n <= m,
    ensures
        recorded_upto(c, m).subrange(0, n) == recorded_upto(c, n),
    decreases m,
{
    lemma_recorded_upto_len(c, m);
    lemma_recorded_upto_len(c, n);
    if n < m {
        lemma_recorded_prefix(c, n, m - 1);
        lemma_recorded_upto_len(c, m - 1);
        assert(recorded_upto(c, m).subrange(0, n) =~= recorded_upto(c, m - 1).subrange(0, n));
    } else {
        assert(recorded_upto(c, m).subrange(0, n) =~= recorded_upto(c, m));
    }
}

proof fn lemma_last_recorded_at_least(c: Seq<CandidateView>, kept: Seq<bool>, i: int, n: int, j: int)
    requires
        0 <= j < n <= kept.len(),
        n <= c.len(),
        kept[j],
        c[j].1 == c[i].1,
        forall|a: int, b: int| 0 <= a <= b < c.len() ==> c[a].0 <= c[b].0,
    ensures
        last_recorded_frame(c, kept, i, n) matches Some(p) && p >= c[j].0,
    decreases n,
{
    if !(kept[n - 1] && c[n - 1].1 == c[i].1) {
        lemma_last_recorded_at_least(c, kept, i, n - 1, j);
    }
}

/// With candidates in frame order, two recorded events with the same key
/// are more than the later one's cooldown apart.
pub proof fn law_recorded_spaced(c: Seq<CandidateView>, i: int, j: int)
    requires
        0 <= i < j < c.len(),
        forall|a: int, b: int| 0 <= a <= b < c.len() ==> c[a].0 <= c[b].0,
        recorded_upto(c, c.len() as int)[i],
        recorded_upto(c, c.len() as int)[j],
        c[i].1 == c[j].1,
    ensures
        c[j].0 - c[i].0 > c[j].2,
{
    let all = recorded_upto(c, c.len() as int);
    lemma_recorded_upto_len(c, c.len() as int);
    lemma_recorded_upto_len(c, j + 1);
    lemma_recorded_upto_len(c, j);
    lemma_recorded_prefix(c, j + 1, c.len() as int);
    lemma_recorded_prefix(c, j, c.len() as int);
    let kept = recorded_upto(c, j);
    assert(all.subrange(0, j + 1)[j] == all[j]);
    assert(all.subrange(0, j)[i] == all[i]);
    assert(recorded(c, kept, j));
    lemma_last_recorded_at_least(c, kept, j, j, i);
}

/// The two names of an unordered pair, smaller first.
pub open spec fn ordered_pair(a: Seq<char>, b: Seq<char>) -> (Seq<char>, Seq<char>) {
    if text_before(b, a) {
        (b, a)
    } else {
        (a, b)
    }
}

/// The two names of an unordered pair, smaller first.
pub fn pair_key(a: &String, b: &String) -> (res: (String, String))
    ensures
        (res.0@, res.1@) == ordered_pair(a@, b@),
{
    if text_before_exec(b.as_str(), a.as_str()) {
        (b.clone(), a.clone())
    } else {
        (a.clone(), b.clone())
    }
}

fn candidate(frame_number: i32, kind: &str, first: String, second: String, window: i32, eligible: bool) -> (res: CooldownCandidate)
    ensures
        res@ == (frame_number, (kind@, first@, second@), window, eligible),
{
    CooldownCandidate { frame_number, kind: String::from_str(kind), first, second, window, eligible }
}

/// Car contacts closer than this many frames to the last recorded bump of
/// the same pair are not bumps again.
pub const CAR_CONTACT_COOLDOWN_FRAMES: i32 = 15;

/// Car contacts this close in frames to a demo of the same pair are part of
/// the demo.
pub const DEMO_CONTACT_EXCLUSION_FRAMES: i32 = 30;

/// A contact of cars `a` and `b` at `frame` is part of a demo of the same
/// pair (demos given as `(frame, attacker, victim)`).
pub open spec fn near_demo(demos: Seq<(i32, String, String)>, frame: i32, a: Seq<char>, b: Seq<char>) -> bool {
    exists|j: int|
        0 <= j < demos.len() && ordered_pair((#[trigger] demos[j]).1@, demos[j].2@) == ordered_pair(a, b)
            && -DEMO_CONTACT_EXCLUSION_FRAMES <= frame - demos[j].0 <= DEMO_CONTACT_EXCLUSION_FRAMES
}

/// The cooldown candidates of car contacts `(frame, car a, car b)`: keyed
/// by the unordered pair, suppressed within 14 frames (closer than 15), and
/// not qualifying when part of a demo.
pub open spec fn bump_candidates(contacts: Seq<(i32, String, String)>, demos: Seq<(i32, String, String)>) -> Seq<
    CandidateView,
> {
    Seq::new(
        contacts.len(),
        |i: int|
            (
                contacts[i].0,
                ("bump"@, ordered_pair(contacts[i].1@, contacts[i].2@).0, ordered_pair(
                    contacts[i].1@,
                    contacts[i].2@,
                ).1),
                (CAR_CONTACT_COOLDOWN_FRAMES - 1) as i32,
                !near_demo(demos, contacts[i].0, contacts[i].1@, contacts[i].2@),
            ),
    )
}

/// Which car contacts `(frame, car a, car b)`, in order, become bumps.
pub fn bump_contacts(contacts: &[(i32, String, String)], demos: &[(i32, String, String)]) -> (res: Vec<bool>)
    ensures
        res@ == recorded_upto(bump_candidates(contacts@, demos@), contacts@.len() as int),
{
    let mut cands: Vec<CooldownCandidate> = Vec::new();
    let mut i: usize = 0;
    while i < contacts.len()
        invariant
            i <= contacts@.len(),
            cands@.len() == i,
            forall|k: int| 0 <= k < i ==> (#[trigger] cands@[k])@ == bump_candidates(contacts@, demos@)[k],
        decreases contacts@.len() - i,
    {
        let (frame, a, b) = (&contacts[i].0, &contacts[i].1, &contacts[i].2);
        let key = pair_key(a, b);
        let mut near = false;
        let mut j: usize = 0;
        while j < demos.len()
            invariant
                i < contacts@.len(),
                j <= demos@.len(),
                *frame == contacts@[i as int].0,
                (key.0@, key.1@) == ordered_pair(contacts@[i as int].1@, contacts@[i as int].2@),
                near == exists|t: int|
                    0 <= t < j && ordered_pair((#[trigger] demos@[t]).1@, demos@[t].2@) == ordered_pair(
                        contacts@[i as int].1@,
                        contacts@[i as int].2@,
                    ) && -DEMO_CONTACT_EXCLUSION_FRAMES <= *frame - demos@[t].0
                        <= DEMO_CONTACT_EXCLUSION_FRAMES,
            decreases demos@.len() - j,
        {
            let dk = pair_key(&demos[j].1, &demos[j].2);
            let gap = (*frame as i64) - (demos[j].0 as i64);
            if str_eq(dk.0.as_str(), key.0.as_str()) && str_eq(dk.1.as_str(), key.1.as_str()) && -30 <= gap
                && gap <= 30 {
                near = true;
            }
            j = j + 1;
        }
        let c = candidate(*frame, "bump", key.0, key.1, CAR_CONTACT_COOLDOWN_FRAMES - 1, !near);
        cands.push(c);
        i = i + 1;
    }
    assert(cands@.map_values(|x: CooldownCandidate| x@) =~= bump_candidates(contacts@, demos@));
    apply_cooldowns(cands.as_slice())
}

/// A press is not recorded again for the same defender and carrier within
/// this many frames.
pub const PRESS_EVENT_COOLDOWN_FRAMES: i32 = 60;

/// A shadow is not recorded again for the same defender and carrier within
/// this many frames.
pub const SHADOW_EVENT_COOLDOWN_FRAMES: i32 = 90;

/// The kinds of pressure a defender puts on the ball carrier.
#[derive(Clone, Copy, Debug, PartialEq, Eq, Structural)]
pub enum PressureKind {
    Press,
    Shadow,
}

/// The event type of a pressure kind.
pub open spec fn pressure_text(kind: PressureKind) -> Seq<char> {
    match kind {
        PressureKind::Press => "press"@,
        PressureKind::Shadow => "shadow"@,
    }
}

/// The cooldown of a pressure kind.
pub open spec fn pressure_window(kind: PressureKind) -> i32 {
    match kind {
        PressureKind::Press => PRESS_EVENT_COOLDOWN_FRAMES,
        PressureKind::Shadow => SHADOW_EVENT_COOLDOWN_FRAMES,
    }
}

/// The cooldown candidates of pressure `(frame, kind, defender, carrier)`:
/// keyed by kind, defender and carrier.
pub open spec fn pressure_candidates(events: Seq<(i32, PressureKind, String, String)>) -> Seq<CandidateView> {
    Seq::new(
        events.len(),
        |i: int|
            (
                events[i].0,
                (pressure_text(events[i].1), events[i].2@, events[i].3@),
                pressure_window(events[i].1),
                true,
            ),
    )
}

/// Which pressure events `(frame, kind, defender, carrier)`, in order, are
/// recorded.
pub fn pressure_events(events: &[(i32, PressureKind, String, String)]) -> (res: Vec<bool>)
    ensures
        res@ == recorded_upto(pressure_candidates(events@), events@.len() as int),
{
    let mut cands: Vec<CooldownCandidate> = Vec::new();
    let mut i: usize = 0;
    while i < events.len()
        invariant
            i <= events@.len(),
            cands@.len() == i,
            forall|k: int| 0 <= k < i ==> (#[trigger] cands@[k])@ == pressure_candidates(events@)[k],
        decreases events@.len() - i,
    {
        let e = &events[i];
        let c = match e.1 {
            PressureKind::Press => candidate(
                e.0,
                "press",
                e.2.clone(),
                e.3.clone(),
                PRESS_EVENT_COOLDOWN_FRAMES,
                true,
            ),
            PressureKind::Shadow => candidate(
                e.0,
                "shadow",
                e.2.clone(),
                e.3.clone(),
                SHADOW_EVENT_COOLDOWN_FRAMES,
                true,
            ),
        };
        cands.push(c);
        i = i + 1;
    }
    assert(cands@.map_values(|x: CooldownCandidate| x@) =~= pressure_candidates(events@));
    apply_cooldowns(cands.as_slice())
}

/// A double commit is not recorded again for the same two teammates within
/// this many frames.
pub const DOUBLE_COMMIT_COOLDOWN_FRAMES: i32 = 45;

/// The cooldown candidates of double commits `(frame, player id, teammate
/// id)`: keyed by the unordered pair.
pub open spec fn double_commit_candidates(events: Seq<(i32, String, String)>) -> Seq<CandidateView> {
    Seq::new(
        events.len(),
        |i: int|
            (
                events[i].0,
                ("double-commit"@, ordered_pair(events[i].1@, events[i].2@).0, ordered_pair(
                    events[i].1@,
                    events[i].2@,
                ).1),
                DOUBLE_COMMIT_COOLDOWN_FRAMES,
                true,
            ),
    )
}

/// Which double commits `(frame, player id, teammate id)`, in order, are
/// recorded.
pub fn double_commit_events(events: &[(i32, String, String)]) -> (res: Vec<bool>)
    ensures
        res@ == recorded_upto(double_commit_candidates(events@), events@.len() as int),
{
    let mut cands: Vec<CooldownCandidate> = Vec::new();
    let mut i: usize = 0;
    while i < events.len()
        invariant
            i <= events@.len(),
            cands@.len() == i,
            forall|k: int| 0 <= k < i ==> (#[trigger] cands@[k])@ == double_commit_candidates(events@)[k],
        decreases events@.len() - i,
    {
        let key = pair_key(&events[i].1, &events[i].2);
        let c = candidate(events[i].0, "double-commit", key.0, key.1, DOUBLE_COMMIT_COOLDOWN_FRAMES, true);
        cands.push(c);
        i = i + 1;
    }
    assert(cands@.map_values(|x: CooldownCandidate| x@) =~= double_commit_candidates(events@));
    apply_cooldowns(cands.as_slice())
}

/// A whiff is not recorded again for the same player within this many
/// frames.
pub const WHIFF_COOLDOWN_FRAMES: i32 = 150;

/// The cooldown candidates of whiffs `(frame, player, qualifies)`: keyed by
/// the player.
pub open spec fn whiff_candidates(events: Seq<(i32, String, bool)>) -> Seq<CandidateView> {
    Seq::new(
        events.len(),
        |i: int| (events[i].0, ("whiff"@, events[i].1@, Seq::<char>::empty()), WHIFF_COOLDOWN_FRAMES, events[i].2),
    )
}

/// Which whiff attempts `(frame, player, qualifies)`, in order, are
/// recorded: those that qualify otherwise, outside the player's cooldown.
pub fn whiff_events(events: &[(i32, String, bool)]) -> (res: Vec<bool>)
    ensures
        res@ == recorded_upto(whiff_candidates(events@), events@.len() as int),
{
    let mut cands: Vec<CooldownCandidate> = Vec::new();
    let mut i: usize = 0;
    while i < events.len()
        invariant
            i <= events@.len(),
            cands@.len() == i,
            forall|k: int| 0 <= k < i ==> (#[trigger] cands@[k])@ == whiff_candidates(events@)[k],
        decreases events@.len() - i,
    {
        let c = candidate(
            events[i].0,
            "whiff",
            events[i].1.clone(),
            String::new(),
            WHIFF_COOLDOWN_FRAMES,
            events[i].2,
        );
        cands.push(c);
        i = i + 1;
    }
    assert(cands@.map_values(|x: CooldownCandidate| x@) =~= whiff_candidates(events@));
    apply_cooldowns(cands.as_slice())
}

/// A zone event is not recorded again for the same event type and team
/// within this many frames.
pub const ZONE_EVENT_COOLDOWN_FRAMES: i32 = 60;

/// The cooldown candidates of zone events `(frame, event type, team,
/// qualifies)`: keyed by event type and team.
pub open spec fn zone_candidates(events: Seq<(i32, String, i32, bool)>) -> Seq<CandidateView> {
    Seq::new(
        events.len(),
        |i: int|
            (
                events[i].0,
                (events[i].1@, team_text(events[i].2), Seq::<char>::empty()),
                ZONE_EVENT_COOLDOWN_FRAMES,
                events[i].3,
            ),
    )
}

/// Which zone entries and exits `(frame, event type, team, qualifies)`, in
/// order, are recorded.
pub fn zone_events(events: &[(i32, String, i32, bool)]) -> (res: Vec<bool>)
    ensures
        res@ == recorded_upto(zone_candidates(events@), events@.len() as int),
{
    let mut cands: Vec<CooldownCandidate> = Vec::new();
    let mut i: usize = 0;
    while i < events.len()
        invariant
            i <= events@.len(),
            cands@.len() == i,
            forall|k: int| 0 <= k < i ==> (#[trigger] cands@[k])@ == zone_candidates(events@)[k],
        decreases events@.len() - i,
    {
        let c = CooldownCandidate {
            frame_number: events[i].0,
            kind: events[i].1.clone(),
            first: String::from_str(team_name(events[i].2)),
            second: String::new(),
            window: ZONE_EVENT_COOLDOWN_FRAMES,
            eligible: events[i].3,
        };
        cands.push(c);
        i = i + 1;
    }
    assert(cands@.map_values(|x: CooldownCandidate| x@) =~= zone_candidates(events@));
    apply_cooldowns(cands.as_slice())
}

} // verus!
