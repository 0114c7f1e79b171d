//! Frame pacing: turns a frame's presentation timestamp and the stream's
//! rational time base into a wall-clock due time, and decides — as a pure
//! state machine a driver loop can act on — how long to sleep before
//! presenting each frame. Every frame is presented, late or not, and a
//! cancellation event or the end of the stream stops the session.

use vstd::prelude::*;

verus! {

/// The wall-clock offset, in nanoseconds from playback start, at which a
/// frame with timestamp `pts` is due under time base `num / den` seconds
/// per tick.
pub open spec fn due_nanos(pts: int, num: int, den: int) -> int {
    pts * num * 1_000_000_000 / den
}

/// How long a driver must still sleep, given a due time and the wall-clock
/// time already elapsed: the deficit if the frame is early, zero if it is
/// on time or late.
pub open spec fn sleep_amount(due: int, elapsed: int) -> int {
    if elapsed <= due {
        due - elapsed
    } else {
        0
    }
}

/// Computes a frame's due time in nanoseconds from its timestamp and the
/// stream time base.
pub fn frame_due_nanos(pts: i64, tb_num: i32, tb_den: i32) -> (r: u128)
    requires
        pts >= 0,
        tb_num >= 0,
        tb_den > 0,
    ensures
        r == due_nanos(pts as int, tb_num as int, tb_den as int),
{
    proof {
        vstd::arithmetic::mul::lemma_mul_upper_bound(
            pts as int,
            i64::MAX as int,
            tb_num as int,
            i32::MAX as int,
        );
        vstd::arithmetic::mul::lemma_mul_upper_bound(
            (pts as int) * (tb_num as int),
            (i64::MAX as int) * (i32::MAX as int),
            1_000_000_000,
            1_000_000_000,
        );
        vstd::arithmetic::mul::lemma_mul_nonnegative(pts as int, tb_num as int);
        vstd::arithmetic::mul::lemma_mul_nonnegative((pts as int) * (tb_num as int), 1_000_000_000);
    }
    ((pts as u128) * (tb_num as u128) * 1_000_000_000u128) / (tb_den as u128)
}

/// Frames with later timestamps are never due earlier, so sleeping until
/// each frame's due time in stream order never presents frames out of
/// order.
pub proof fn lemma_due_monotone(p1: int, p2: int, num: int, den: int)
    requires
        0 <= p1 <= p2,
        num >= 0,
        den > 0,
    ensures
        due_nanos(p1, num, den) <= due_nanos(p2, num, den),
{
    vstd::arithmetic::mul::lemma_mul_inequality(p1, p2, num);
    vstd::arithmetic::mul::lemma_mul_inequality(p1 * num, p2 * num, 1_000_000_000);
    vstd::arithmetic::div_mod::lemma_div_is_ordered(
        p1 * num * 1_000_000_000,
        p2 * num * 1_000_000_000,
        den,
    );
    vstd::arithmetic::mul::lemma_mul_nonnegative(p1, num);
    vstd::arithmetic::mul::lemma_mul_nonnegative(p1 * num, 1_000_000_000);
}

/// The pacing session's phases.
#[derive(Clone, Copy, PartialEq, Eq, Structural, Debug)]
pub enum PacerState {
    Idle,
    Running,
    Stopped,
}

/// What the driver observed at the top of one loop iteration.
#[derive(Clone, Copy, PartialEq, Eq, Structural, Debug)]
pub enum PacerEvent {
    /// The decode engine produced a frame with this presentation timestamp.
    Frame(i64),
    /// The decode engine is exhausted.
    EndOfStream,
    /// The cancellation key was pressed.
    Cancel,
}

/// What the driver must do next.
#[derive(Clone, Copy, PartialEq, Eq, Structural, Debug)]
pub enum PacerAction {
    /// Sleep this many nanoseconds, then present the frame.
    SleepThenPresent(u128),
    /// Stop the session without presenting anything further.
    Stop,
}

/// The pacing state machine. `Idle` until started, `Running` while frames
/// flow, `Stopped` once the stream ends or the session is cancelled.
pub struct Pacer {
    pub state: PacerState,
    pub tb_num: i32,
    pub tb_den: i32,
}

impl Pacer {
    /// A usable time base: nonnegative ticks of positive duration.
    pub open spec fn wf(&self) -> bool {
        self.tb_num >= 0 && self.tb_den > 0
    }

    /// The due time of a frame with timestamp `pts` under this pacer's time
    /// base; timestamps before playback start count as due immediately.
    pub open spec fn due_of(&self, pts: i64) -> int {
        due_nanos(if pts >= 0 { pts as int } else { 0 }, self.tb_num as int, self.tb_den as int)
    }

    /// Creates a pacer for the stream's time base, not yet running.
    pub fn new(tb_num: i32, tb_den: i32) -> (p: Pacer)
        requires
            tb_num >= 0,
            tb_den > 0,
        ensures
            p.wf(),
            p.state == PacerState::Idle,
            p.tb_num == tb_num,
            p.tb_den == tb_den,
    {
        Pacer { state: PacerState::Idle, tb_num, tb_den }
    }

    /// Starts playback: the session leaves `Idle` and begins running.
    pub fn start(&mut self)
        requires
            old(self).state == PacerState::Idle,
        ensures
            final(self).state == PacerState::Running,
            final(self).tb_num == old(self).tb_num,
            final(self).tb_den == old(self).tb_den,
    {
        self.state = PacerState::Running;
    }

    /// One pacing decision. A frame keeps the session running and must be
    /// presented after sleeping off exactly its due-time deficit — a late
    /// frame sleeps zero but is still presented, never dropped. End of
    /// stream and cancellation stop the session, presenting nothing.
    pub fn step(&mut self, ev: PacerEvent, elapsed_nanos: u128) -> (a: PacerAction)
        requires
            old(self).wf(),
            old(self).state == PacerState::Running,
        ensures
            final(self).tb_num == old(self).tb_num,
            final(self).tb_den == old(self).tb_den,
            match ev {
                PacerEvent::Frame(pts) => {
                    &&& final(self).state == PacerState::Running
                    &&& a == PacerAction::SleepThenPresent(
                        sleep_amount(old(self).due_of(pts), elapsed_nanos as int) as u128,
                    )
                },
                PacerEvent::EndOfStream => {
                    &&& final(self).state == PacerState::Stopped
                    &&& a == PacerAction::Stop
                },
                PacerEvent::Cancel => {
                    &&& final(self).state == PacerState::Stopped
                    &&& a == PacerAction::Stop
                },
            },
    {
        match ev {
            PacerEvent::Frame(pts) => {
                let clamped: i64 = if pts >= 0 {
                    pts
                } else {
                    0
                };
                let due = frame_due_nanos(clamped, self.tb_num, self.tb_den);
                let wait = if elapsed_nanos <= due {
                    due - elapsed_nanos
                } else {
                    0
                };
                PacerAction::SleepThenPresent(wait)
            },
            PacerEvent::EndOfStream => {
                self.state = PacerState::Stopped;
                PacerAction::Stop
            },
            PacerEvent::Cancel => {
                self.state = PacerState::Stopped;
                PacerAction::Stop
            },
        }
    }
}

} // verus!
