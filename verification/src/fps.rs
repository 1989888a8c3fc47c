use vstd::prelude::*;
use vstd::arithmetic::div_mod::{lemma_fundamental_div_mod_converse, lemma_add_mod_noop, lemma_mod_bound};
use std::time::Duration;

verus! {

/// Nanoseconds in one second.
pub const NANOS_PER_SECOND: u128 = 1_000_000_000;

/// The largest number of nanoseconds a `Duration` can hold: `u64::MAX` seconds plus
/// 999,999,999 nanoseconds.
pub const MAX_DURATION_NANOS: u128 = 18_446_744_073_709_551_615_999_999_999;

/// The total number of whole nanoseconds a `Duration` holds (what `Duration::as_nanos`
/// returns).
pub uninterp spec fn duration_nanos(d: Duration) -> nat;

/// Total whole nanoseconds of a `Duration` (`Duration::as_nanos`): the result is
/// `duration_nanos(d)`, which is at most the nanoseconds in `Duration::MAX`.
#[verifier::external_body]
fn duration_as_nanos(d: Duration) -> (n: u128)
    ensures
        n == duration_nanos(d),
        n <= MAX_DURATION_NANOS,
{
    d.as_nanos()
}

/// A `Duration` of `n` nanoseconds (`Duration::from_nanos`): the whole nanoseconds it holds
/// are `n`.
#[verifier::external_body]
fn duration_from_nanos(n: u64) -> (d: Duration)
    ensures
        duration_nanos(d) == n,
{
    Duration::from_nanos(n)
}

/// Counts frames and reports how many frames were completed in the last whole second.
pub struct FpsCounter {
    accumulated_nanos: u128,
    frame_count: u32,
    fps: u32,
}

/// State of an [`FpsCounter`] as `(accumulated nanoseconds, frames since the last report,
/// last reported frames per second)`.
pub type FpsState = (nat, nat, nat);

/// The state after one more frame that took `elapsed` nanoseconds: the frame is counted,
/// its time is added, and for each whole second the accumulated time holds, the frames
/// counted so far are reported and the count restarts.
pub open spec fn fps_after_tick(s: FpsState, elapsed: nat) -> FpsState {
    let total = s.0 + elapsed;
    let seconds = total / (NANOS_PER_SECOND as nat);
    let rest = total % (NANOS_PER_SECOND as nat);
    let frames = s.1 + 1;
    if seconds == 0 {
        (rest, frames, s.2)
    } else if seconds == 1 {
        (rest, 0, frames)
    } else {
        (rest, 0, 0)
    }
}

/// The state after a run of frames taking `elapsed[0]`, `elapsed[1]`, ... nanoseconds.
pub open spec fn fps_after_ticks(s: FpsState, elapsed: Seq<nat>) -> FpsState
    decreases elapsed.len(),
{
    if elapsed.len() == 0 {
        s
    } else {
        fps_after_tick(fps_after_ticks(s, elapsed.drop_last()), elapsed.last())
    }
}

/// Sum of a sequence of naturals.
pub open spec fn total_nanos(elapsed: Seq<nat>) -> nat
    decreases elapsed.len(),
{
    if elapsed.len() == 0 {
        0
    } else {
        total_nanos(elapsed.drop_last()) + elapsed.last()
    }
}

impl View for FpsCounter {
    type V = FpsState;

    closed spec fn view(&self) -> FpsState {
        (self.accumulated_nanos as nat, self.frame_count as nat, self.fps as nat)
    }
}

impl FpsCounter {
    /// The accumulated time never reaches a whole second between frames.
    #[verifier::type_invariant]
    spec fn inv(self) -> bool {
        self.accumulated_nanos < NANOS_PER_SECOND
    }

    pub fn new() -> (c: Self)
        ensures
            c@ == (0nat, 0nat, 0nat),
    {
        Self { accumulated_nanos: 0, frame_count: 0, fps: 0 }
    }

    /// Records one frame that took `elapsed_nanos` nanoseconds.
    pub fn tick_nanos(&mut self, elapsed_nanos: u128)
        requires
            old(self)@.1 < u32::MAX,
            elapsed_nanos <= MAX_DURATION_NANOS,
        ensures
            final(self)@ == fps_after_tick(old(self)@, elapsed_nanos as nat),
            final(self)@.0 < NANOS_PER_SECOND,
    {
        proof {
            use_type_invariant(&*self);
        }
        let mut frame_count: u32 = self.frame_count + 1;
        let mut fps: u32 = self.fps;
        let mut accumulated: u128 = self.accumulated_nanos + elapsed_nanos;
        let ghost total: nat = accumulated as nat;
        let ghost first_frames: nat = frame_count as nat;
        let ghost mut seconds: nat = 0;
        while accumulated >= NANOS_PER_SECOND
            invariant
                accumulated + seconds * (NANOS_PER_SECOND as nat) == total,
                seconds == 0 ==> frame_count == first_frames && fps == old(self)@.2,
                seconds == 1 ==> frame_count == 0 && fps == first_frames,
                seconds >= 2 ==> frame_count == 0 && fps == 0,
            decreases accumulated,
        {
            fps = frame_count;
            frame_count = 0;
            accumulated = accumulated - NANOS_PER_SECOND;
            proof {
                seconds = seconds + 1;
            }
        }
        proof {
            lemma_fundamental_div_mod_converse(
                total as int,
                NANOS_PER_SECOND as int,
                seconds as int,
                accumulated as int,
            );
        }
        self.frame_count = frame_count;
        self.fps = fps;
        self.accumulated_nanos = accumulated;
    }

    /// Records one frame that took `elapsed`.
    pub fn tick(&mut self, elapsed: Duration)
        requires
            old(self)@.1 < u32::MAX,
        ensures
            final(self)@ == fps_after_tick(old(self)@, duration_nanos(elapsed)),
            final(self)@.0 < NANOS_PER_SECOND,
    {
        let n = duration_as_nanos(elapsed);
        self.tick_nanos(n);
    }

    /// Frames per second reported at the last whole second.
    pub fn fps(&self) -> (r: u32)
        ensures
            r == self@.2,
    {
        self.fps
    }

    /// Frames counted since the last report.
    pub fn frame_count(&self) -> (r: u32)
        ensures
            r == self@.1,
    {
        self.frame_count
    }

    /// Time accumulated towards the next whole second, in nanoseconds.
    pub fn accumulated_nanos(&self) -> (r: u128)
        ensures
            r == self@.0,
            r < NANOS_PER_SECOND,
    {
        proof {
            use_type_invariant(self);
        }
        self.accumulated_nanos
    }

    /// Time accumulated towards the next whole second.
    pub fn accumulated(&self) -> (d: Duration)
        ensures
            duration_nanos(d) == self@.0,
    {
        proof {
            use_type_invariant(self);
        }
        duration_from_nanos(self.accumulated_nanos as u64)
    }
}

/// The counter never drifts: after any run of frames starting from a fresh counter, the
/// accumulated time is exactly the total elapsed time modulo one second.
pub proof fn lemma_fps_no_drift(elapsed: Seq<nat>)
    ensures
        fps_after_ticks((0nat, 0nat, 0nat), elapsed).0 == total_nanos(elapsed) % (
        NANOS_PER_SECOND as nat),
    decreases elapsed.len(),
{
    let n = NANOS_PER_SECOND as int;
    if elapsed.len() == 0 {
        assert(0int % n == 0) by (nonlinear_arith)
            requires
                n > 0,
        ;
    } else {
        let rest = elapsed.drop_last();
        lemma_fps_no_drift(rest);
        lemma_add_mod_noop(total_nanos(rest) as int, elapsed.last() as int, n);
        lemma_mod_bound(elapsed.last() as int, n);
        lemma_mod_bound(total_nanos(rest) as int, n);
        let prev = fps_after_ticks((0nat, 0nat, 0nat), rest).0 as int;
        assert((prev + elapsed.last() as int) % n == (prev % n + (elapsed.last() as int) % n)
            % n) by {
            lemma_add_mod_noop(prev, elapsed.last() as int, n);
        }
        vstd::arithmetic::div_mod::lemma_mod_twice(total_nanos(rest) as int, n);
    }
}

/// How one frame of `elapsed` nanoseconds changes the counter, said with comparisons
/// against one second:
/// - if the accumulated time stays below one second, the frame is counted, its time is
///   added, and the reported frames per second stay as they were;
/// - if it reaches one second but not two, the frames counted, this one included, become
///   the reported frames per second, counting starts again from zero, and one second is
///   taken off the accumulated time;
/// - if it reaches two seconds or more, a whole second passed without any frame, so zero
///   frames per second are reported, and the accumulated time keeps only what is left after
///   the whole seconds, less than one second.
pub proof fn lemma_fps_tick_cases(s: FpsState, elapsed: nat)
    ensures
        ({
            let n = NANOS_PER_SECOND as nat;
            let total = s.0 + elapsed;
            let r = fps_after_tick(s, elapsed);
            &&& total < n ==> r == (total, s.1 + 1, s.2)
            &&& n <= total < 2 * n ==> r == ((total - n) as nat, 0nat, s.1 + 1)
            &&& total >= 2 * n ==> {
                &&& r.1 == 0
                &&& r.2 == 0
                &&& r.0 < n
                &&& r.0 <= total
                &&& (total - r.0) % (n as int) == 0
            }
        }),
{
    let n = NANOS_PER_SECOND as int;
    let total = (s.0 + elapsed) as int;
    let q = total / n;
    let r = total % n;
    vstd::arithmetic::div_mod::lemma_fundamental_div_mod(total as int, n);
    lemma_mod_bound(total as int, n);
    if total < n {
        lemma_fundamental_div_mod_converse(total as int, n, 0, total as int);
    } else if total < 2 * n {
        lemma_fundamental_div_mod_converse(total as int, n, 1, total - n);
    } else {
        assert(q >= 2) by (nonlinear_arith)
            requires
                total == n * q + r,
                0 <= r < n,
                total >= 2 * n,
                n > 0,
        ;
        assert(total - r == q * n) by (nonlinear_arith)
            requires
                total == n * q + r,
        ;
        vstd::arithmetic::div_mod::lemma_mod_multiples_basic(q, n);
    }
}

} // verus!
