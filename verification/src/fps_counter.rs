//! Wall-clock delta measurement and a rolling frames-per-second estimate.
//!
//! Once per tick the counter reads the clock, reports the elapsed time since
//! the previous tick, and accumulates frames. Whenever more than one second
//! has accumulated it publishes the accumulated frame count as the current
//! estimate and resets both accumulators, so the estimate refreshes at about
//! 1 Hz regardless of the actual frame rate.

use vstd::prelude::*;

verus! {

pub const NSEC_PER_SEC: u64 = 1_000_000_000;

/// Mathematical state of the clock: accumulated frames and nanoseconds since
/// the last publish, the previous tick's timestamp, and the published
/// estimate.
pub ghost struct FpsView {
    pub frames: int,
    pub acc_ns: int,
    pub last_ns: int,
    pub fps: int,
}

/// Elapsed nanoseconds between two clock readings. A reading behind the
/// previous one (the platform counter promises nothing) counts as no time
/// passed rather than as a huge unsigned difference.
pub open spec fn delta_ns(last: int, now: int) -> int {
    if now >= last {
        now - last
    } else {
        0
    }
}

pub open spec fn sat_add_u32(a: int, b: int) -> int {
    if a + b > u32::MAX {
        u32::MAX as int
    } else {
        a + b
    }
}

pub open spec fn sat_add_u64(a: int, b: int) -> int {
    if a + b > u64::MAX {
        u64::MAX as int
    } else {
        a + b
    }
}

/// The clock state after one tick at time `now`: the frame and time
/// accumulators grow (saturating at their machine bounds), and once the
/// accumulated time exceeds one second the frame count is published and both
/// accumulators reset.
pub open spec fn ticked(v: FpsView, now: int) -> FpsView {
    let d = delta_ns(v.last_ns, now);
    let frames = sat_add_u32(v.frames, 1);
    let acc = sat_add_u64(v.acc_ns, d);
    if acc > NSEC_PER_SEC {
        FpsView { frames: 0, acc_ns: 0, last_ns: now, fps: frames }
    } else {
        FpsView { frames, acc_ns: acc, last_ns: now, fps: v.fps }
    }
}

/// Relies on `time::precise_time_ns`: the current value of a high-resolution
/// performance counter in nanoseconds since an unspecified epoch. A clock
/// reading promises nothing the library could hold it to — not even
/// monotonicity — so the contract is empty and every caller must handle an
/// arbitrary value, including one behind the previous reading.
#[verifier::external_body]
fn now_ns() -> u64 {
    time::precise_time_ns()
}

pub struct FpsCounter {
    fps_counter: u32,
    last_tick_time: u64,
    time_counter: u64,
    pub current_fps: u32,
}

impl View for FpsCounter {
    type V = FpsView;

    closed spec fn view(&self) -> FpsView {
        FpsView {
            frames: self.fps_counter as int,
            acc_ns: self.time_counter as int,
            last_ns: self.last_tick_time as int,
            fps: self.current_fps as int,
        }
    }
}

impl FpsCounter {
    /// A fresh counter: both accumulators and the published estimate are
    /// zero, and the last-tick timestamp is the clock reading taken now.
    pub fn new() -> (c: Self)
        ensures
            c@.frames == 0,
            c@.acc_ns == 0,
            c@.fps == 0,
    {
        let current_time = now_ns();
        FpsCounter {
            last_tick_time: current_time,
            time_counter: 0,
            fps_counter: 0,
            current_fps: 0,
        }
    }

    /// A counter reset against an explicit clock reading, for callers that
    /// drive the clock themselves.
    pub fn starting_at(now: u64) -> (c: Self)
        ensures
            c@ == (FpsView { frames: 0, acc_ns: 0, last_ns: now as int, fps: 0 }),
    {
        FpsCounter { last_tick_time: now, time_counter: 0, fps_counter: 0, current_fps: 0 }
    }

    /// One tick against an explicit clock reading: returns the elapsed
    /// nanoseconds since the previous tick and advances the clock state
    /// exactly as [`ticked`] describes.
    pub fn on_frame_at(&mut self, now: u64) -> (delta: u64)
        ensures
            final(self)@ == ticked(old(self)@, now as int),
            delta == delta_ns(old(self)@.last_ns, now as int),
    {
        let delta = if now >= self.last_tick_time {
            now - self.last_tick_time
        } else {
            0
        };

        self.fps_counter = if self.fps_counter == u32::MAX {
            u32::MAX
        } else {
            self.fps_counter + 1
        };
        self.time_counter = if delta > u64::MAX - self.time_counter {
            u64::MAX
        } else {
            self.time_counter + delta
        };

        if self.time_counter > NSEC_PER_SEC {
            self.current_fps = self.fps_counter;
            self.fps_counter = 0;
            self.time_counter = 0;
        }

        self.last_tick_time = now;
        delta
    }

    /// One tick against the platform clock: some reading `now` is taken and
    /// the state advances by [`ticked`] at that reading, whatever it was.
    pub fn on_frame(&mut self) -> (delta: u64)
        ensures
            exists|now: u64|
                final(self)@ == ticked(old(self)@, now as int) && delta == delta_ns(
                    old(self)@.last_ns,
                    now as int,
                ),
    {
        let now = now_ns();
        let delta = self.on_frame_at(now);
        proof {
            assert(self@ == ticked(old(self)@, now as int) && delta == delta_ns(
                old(self)@.last_ns,
                now as int,
            ));
        }
        delta
    }
}

/// The clock state after a whole run of ticks at the given timestamps,
/// oldest first.
pub open spec fn run_clock(v: FpsView, nows: Seq<int>) -> FpsView
    decreases nows.len(),
{
    if nows.len() == 0 {
        v
    } else {
        run_clock(ticked(v, nows[0]), nows.drop_first())
    }
}

proof fn lemma_run_clock_push(v: FpsView, nows: Seq<int>, now: int)
    ensures
        run_clock(v, nows.push(now)) == ticked(run_clock(v, nows), now),
    decreases nows.len(),
{
    reveal_with_fuel(run_clock, 3);
    if nows.len() == 0 {
        assert(nows.push(now)[0] == now);
        assert(nows.push(now).drop_first() =~= Seq::<int>::empty());
        assert(run_clock(v, nows.push(now)) == ticked(v, now));
    } else {
        assert(nows.push(now)[0] == nows[0]);
        assert(nows.push(now).drop_first() =~= nows.drop_first().push(now));
        lemma_run_clock_push(ticked(v, nows[0]), nows.drop_first(), now);
        assert(run_clock(v, nows.push(now)) == run_clock(
            ticked(v, nows[0]),
            nows.drop_first().push(now),
        ));
    }
}

/// While the accumulated time never exceeds one second, ticks only
/// accumulate: the frame counter counts every tick, the accumulated time is
/// the distance from the original reading to the latest one, and the
/// published estimate is untouched.
proof fn lemma_run_clock_accumulates(v: FpsView, nows: Seq<int>)
    requires
        0 <= v.frames,
        v.frames + nows.len() <= u32::MAX,
        0 <= v.acc_ns,
        nows.len() > 0 ==> v.last_ns <= nows[0],
        forall|i: int| 0 <= i < nows.len() - 1 ==> #[trigger] nows[i] <= nows[i + 1],
        forall|i: int|
            0 <= i < nows.len() ==> v.acc_ns + #[trigger] nows[i] - v.last_ns <= NSEC_PER_SEC,
    ensures
        run_clock(v, nows) == (if nows.len() == 0 {
            v
        } else {
            FpsView {
                frames: v.frames + nows.len(),
                acc_ns: v.acc_ns + (nows.last() - v.last_ns),
                last_ns: nows.last(),
                fps: v.fps,
            }
        }),
    decreases nows.len(),
{
    if nows.len() > 0 {
        let v1 = ticked(v, nows[0]);
        assert(v.acc_ns + (nows[0] - v.last_ns) <= NSEC_PER_SEC);
        let rest = nows.drop_first();
        assert forall|i: int| 0 <= i < rest.len() - 1 implies #[trigger] rest[i] <= rest[i + 1] by {
            assert(nows[i + 1] <= nows[i + 2]);
        }
        assert forall|i: int|
            0 <= i < rest.len() implies v1.acc_ns + #[trigger] rest[i] - v1.last_ns
            <= NSEC_PER_SEC by {
            assert(rest[i] == nows[i + 1]);
            assert(v.acc_ns + (nows[i + 1] - v.last_ns) <= NSEC_PER_SEC);
        }
        if rest.len() > 0 {
            assert(rest[0] == nows[1]);
        }
        lemma_run_clock_accumulates(v1, rest);
        if rest.len() > 0 {
            assert(rest.last() == nows.last());
        }
    }
}

/// FrameClock law: from a freshly reset counter, feed `n >= 1` tick
/// timestamps in order, none of which brings the accumulated time over one
/// second until the last one lands on exactly one second plus one nanosecond;
/// the published estimate is then exactly `n` and both accumulators are back
/// to zero. (A run of more than `u32::MAX` ticks inside one second would
/// saturate the frame counter and is left out.)
pub proof fn lemma_fps_estimate_counts_ticks(v: FpsView, nows: Seq<int>)
    requires
        v.frames == 0,
        v.acc_ns == 0,
        1 <= nows.len() <= u32::MAX,
        v.last_ns <= nows[0],
        forall|i: int| 0 <= i < nows.len() - 1 ==> #[trigger] nows[i] <= nows[i + 1],
        forall|i: int|
            0 <= i < nows.len() - 1 ==> #[trigger] nows[i] - v.last_ns <= NSEC_PER_SEC,
        nows.last() - v.last_ns == NSEC_PER_SEC + 1,
    ensures
        run_clock(v, nows).fps == nows.len(),
        run_clock(v, nows).frames == 0,
        run_clock(v, nows).acc_ns == 0,
{
    let head = nows.drop_last();
    let final_now = nows.last();
    assert(nows =~= head.push(final_now));
    lemma_run_clock_push(v, head, final_now);
    assert forall|i: int|
        0 <= i < head.len() implies v.acc_ns + #[trigger] head[i] - v.last_ns
        <= NSEC_PER_SEC by {
        assert(head[i] == nows[i]);
    }
    lemma_run_clock_accumulates(v, head);
    let mid = run_clock(v, head);
    if head.len() > 0 {
        assert(head.last() == nows[nows.len() - 2]);
        assert(mid.last_ns <= final_now);
        assert(mid.acc_ns + delta_ns(mid.last_ns, final_now) == NSEC_PER_SEC + 1);
    } else {
        assert(mid == v);
    }
    assert(run_clock(v, nows) == ticked(mid, final_now));
}

} // verus!
