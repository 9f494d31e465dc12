//! Game time from the match clock: seconds elapsed count up from the
//! regulation clock, and keep counting up through overtime.
use vstd::prelude::*;

verus! {

/// The length of regulation time, in seconds.
pub const REGULATION_SECONDS: i64 = 300;

/// How the seconds elapsed at a frame are known: from the match clock, in
/// whole seconds, or, with no clock reading, from the frame number alone.
#[derive(Clone, Copy, Debug, PartialEq, Eq, Structural)]
pub enum Elapsed {
    Clock(i64),
    FrameTime,
}

/// What the clock reading so far says: whether regulation has reached zero,
/// whether overtime has begun, and the last clock reading.
pub type ClockState = (bool, bool, Option<i32>);

/// The clock state after reading `clock`: zero ends regulation, a negative
/// clock is overtime, and so is a clock that counts up again after
/// regulation ended from a reading of five seconds or less.
pub open spec fn next_clock_state(st: ClockState, clock: i32) -> ClockState {
    let saw_zero = st.0 || clock <= 0;
    let overtime = st.1 || clock < 0 || (saw_zero && match st.2 {
        Some(p) => clock > p && clock >= 0 && p <= 5,
        None => false,
    });
    (saw_zero, overtime, Some(clock))
}

/// The clock state after the first `n` frames; frames without a clock
/// reading leave it alone.
pub open spec fn clock_state(clocks: Seq<Option<i32>>, n: nat) -> ClockState
    decreases n,
{
    if n == 0 {
        (false, false, None)
    } else {
        let st = clock_state(clocks, (n - 1) as nat);
        match clocks[n - 1] {
            Some(c) => next_clock_state(st, c),
            None => st,
        }
    }
}

/// The seconds elapsed at frame `i`: regulation time counts up as the clock
/// counts down, overtime adds the clock to regulation, and a frame without
/// a clock reading goes by its frame number.
pub open spec fn elapsed_at(clocks: Seq<Option<i32>>, i: int) -> Elapsed {
    match clocks[i] {
        Some(c) => {
            let st = clock_state(clocks, (i + 1) as nat);
            if st.1 {
                Elapsed::Clock(
                    (REGULATION_SECONDS + if c < 0 {
                        -c
                    } else {
                        c as int
                    }) as i64,
                )
            } else {
                Elapsed::Clock((REGULATION_SECONDS - c) as i64)
            }
        },
        None => Elapsed::FrameTime,
    }
}

/// The seconds elapsed at each frame, from the frames' clock readings in
/// order.
pub fn frame_seconds_elapsed(clocks: &[Option<i32>]) -> (res: Vec<Elapsed>)
    ensures
        res@.len() == clocks@.len(),
        forall|i: int| 0 <= i < clocks@.len() ==> #[trigger] res@[i] == elapsed_at(clocks@, i),
{
    let mut out: Vec<Elapsed> = Vec::new();
    let mut saw_regulation_zero = false;
    let mut overtime = false;
    let mut previous_clock: Option<i32> = None;
    let mut i: usize = 0;
    while i < clocks.len()
        invariant
            i <= clocks@.len(),
            out@.len() == i,
            (saw_regulation_zero, overtime, previous_clock) == clock_state(clocks@, i as nat),
            forall|k: int| 0 <= k < i ==> #[trigger] out@[k] == elapsed_at(clocks@, k),
        decreases clocks.len() - i,
    {
        match clocks[i] {
            None => {
                out.push(Elapsed::FrameTime);
            },
            Some(clock) => {
                if clock <= 0 {
                    saw_regulation_zero = true;
                    if clock < 0 {
                        overtime = true;
                    }
                }
                if saw_regulation_zero {
                    match previous_clock {
                        Some(previous) => {
                            if clock > previous && clock >= 0 && previous <= 5 {
                                overtime = true;
                            }
                        },
                        None => {},
                    }
                }
                let c = clock as i64;
                let magnitude: i64 = if c < 0 {
                    -c
                } else {
                    c
                };
                out.push(
                    if overtime {
                        Elapsed::Clock(300 + magnitude)
                    } else {
                        Elapsed::Clock(300 - c)
                    },
                );
                previous_clock = Some(clock);
            },
        }
        i += 1;
    }
    out
}

proof fn lemma_overtime_stays(clocks: Seq<Option<i32>>, n: nat, m: nat)
    requires
        n <= m,
        clock_state(clocks, n).1,
    ensures
        clock_state(clocks, m).1,
    decreases m - n,
{
    if n < m {
        lemma_overtime_stays(clocks, n, (m - 1) as nat);
    }
}

/// Once overtime begins it never ends: every later frame with a clock
/// reading is past regulation time.
pub proof fn law_overtime_counts_on(clocks: Seq<Option<i32>>, i: int, j: int)
    requires
        0 <= i <= j < clocks.len(),
        clocks[i] is Some,
        clocks[j] is Some,
        clock_state(clocks, (i + 1) as nat).1,
    ensures
        elapsed_at(clocks, j) matches Elapsed::Clock(s) && s >= REGULATION_SECONDS,
{
    lemma_overtime_stays(clocks, (i + 1) as nat, (j + 1) as nat);
}

} // verus!
