//! Decisions of the event loop, apart from the terminal and the clock
//! that the application owns: the animation frame budget, how long to
//! wait for input, and the drag-autoscroll session (arming on the
//! pointer, the periodic ticks it owes, disarming when the drag ends).
//! Times are milliseconds on the scheduler's clock.

use vstd::prelude::*;
use crate::dom::NodeId;

verus! {

/// Cadence of the drag-autoscroll tick.
pub const AUTOSCROLL_PERIOD_MS: u64 = 50;

/// At most this many overdue autoscroll ticks are caught up at once.
pub const AUTOSCROLL_CATCH_UP: u64 = 8;

/// Milliseconds per animation frame at `fps` frames per second, the
/// rate taken within 1..=120.
pub open spec fn frame_ms_spec(fps: u16) -> u32 {
    let f = if fps < 1 {
        1
    } else if fps > 120 {
        120
    } else {
        fps
    };
    (1000int / (f as int)) as u32
}

/// Milliseconds per animation frame at `fps` frames per second.
pub fn frame_ms(fps: u16) -> (r: u32)
    ensures
        r == frame_ms_spec(fps),
        8 <= r <= 1000,
{
    let f: u32 = if fps < 1 {
        1
    } else if fps > 120 {
        120
    } else {
        fps as u32
    };
    let ms = 1000 / f;
    assert(1000int / (f as int) >= 8) by (nonlinear_arith)
        requires
            1 <= f <= 120,
    ;
    assert(1000int / (f as int) <= 1000) by (nonlinear_arith)
        requires
            1 <= f <= 120,
    ;
    if ms < 1 {
        1
    } else {
        ms
    }
}

pub open spec fn min_u64(a: u64, b: u64) -> u64 {
    if a <= b {
        a
    } else {
        b
    }
}

/// How long the loop waits for input: until the next timer deadline
/// (`to_deadline`, none without timers), at most a frame while an
/// animation frame is queued, at most `tick_rate`, and at most one
/// autoscroll period while a drag autoscroll is armed.
pub open spec fn poll_timeout_spec(
    to_deadline: Option<u64>,
    tick_rate: u64,
    raf_active: bool,
    frame_ms: u64,
    autoscroll_armed: bool,
) -> u64 {
    let d = match to_deadline {
        Some(d) => d,
        None => tick_rate,
    };
    let floor = if raf_active {
        frame_ms
    } else {
        tick_rate
    };
    let base = min_u64(min_u64(d, floor), tick_rate);
    if autoscroll_armed {
        min_u64(base, AUTOSCROLL_PERIOD_MS)
    } else {
        base
    }
}

/// How long the loop waits for input.
pub fn poll_timeout(to_deadline: Option<u64>, tick_rate: u64, raf_active: bool, frame_ms: u64, autoscroll_armed: bool) -> (r: u64)
    ensures
        r == poll_timeout_spec(to_deadline, tick_rate, raf_active, frame_ms, autoscroll_armed),
        r <= tick_rate,
{
    let d = match to_deadline {
        Some(d) => d,
        None => tick_rate,
    };
    let floor = if raf_active {
        frame_ms
    } else {
        tick_rate
    };
    let mut base = if d <= floor {
        d
    } else {
        floor
    };
    if tick_rate < base {
        base = tick_rate;
    }
    if autoscroll_armed && AUTOSCROLL_PERIOD_MS < base {
        AUTOSCROLL_PERIOD_MS
    } else {
        base
    }
}

/// The loop's wait with ticks taken into account: a tick rate of zero
/// disables ticks, so with no timer, frame or autoscroll pending the
/// loop blocks until an event arrives (`None`), and otherwise it wakes
/// only for those; any other tick rate bounds the wait as
/// [`poll_timeout`] does.
pub open spec fn loop_wait_spec(
    to_deadline: Option<u64>,
    tick_rate: u64,
    raf_active: bool,
    frame_ms: u64,
    autoscroll_armed: bool,
) -> Option<u64> {
    if tick_rate > 0 {
        Some(poll_timeout_spec(to_deadline, tick_rate, raf_active, frame_ms, autoscroll_armed))
    } else if to_deadline is None && !raf_active && !autoscroll_armed {
        None
    } else {
        Some(poll_timeout_spec(to_deadline, u64::MAX, raf_active, frame_ms, autoscroll_armed))
    }
}

/// How long the loop waits for input; `None` blocks until an event.
pub fn loop_wait(to_deadline: Option<u64>, tick_rate: u64, raf_active: bool, frame_ms: u64, autoscroll_armed: bool) -> (r:
    Option<u64>)
    ensures
        r == loop_wait_spec(to_deadline, tick_rate, raf_active, frame_ms, autoscroll_armed),
{
    if tick_rate > 0 {
        Some(poll_timeout(to_deadline, tick_rate, raf_active, frame_ms, autoscroll_armed))
    } else if to_deadline.is_none() && !raf_active && !autoscroll_armed {
        None
    } else {
        Some(poll_timeout(to_deadline, u64::MAX, raf_active, frame_ms, autoscroll_armed))
    }
}

/// A drag-autoscroll session: the pointer it follows, when its next
/// tick is due, and the scroll container it owns once resolved (kept
/// for the rest of the drag).
#[derive(Clone, Copy, Debug)]
pub struct AutoscrollSession {
    pub pointer: Option<(u16, u16)>,
    pub next_due: Option<u64>,
    pub container: Option<NodeId>,
}

/// The latest time the clock may show for the session's arithmetic.
pub open spec fn clock_limit() -> int {
    u64::MAX - 500
}

impl AutoscrollSession {
    /// The next tick is never due past the clock's limit.
    pub open spec fn wf(&self) -> bool {
        match self.next_due {
            Some(n) => n <= clock_limit() + AUTOSCROLL_PERIOD_MS,
            None => true,
        }
    }

    /// No drag autoscrolls.
    pub fn new() -> (r: AutoscrollSession)
        ensures
            r.wf(),
            r.pointer is None && r.next_due is None && r.container is None,
    {
        AutoscrollSession { pointer: None, next_due: None, container: None }
    }

    /// Whether a drag autoscroll is armed (it follows a pointer).
    pub fn is_armed(&self) -> (r: bool)
        ensures
            r == self.pointer is Some,
    {
        self.pointer.is_some()
    }

    /// End the session.
    pub fn disarm(&mut self)
        ensures
            final(self).pointer is None && final(self).next_due is None && final(self).container is None,
            final(self).wf(),
    {
        self.pointer = None;
        self.next_due = None;
        self.container = None;
    }

    /// Follow the pointer at (`col`, `row`) after a routed mouse event.
    /// Without an autoscrolling drag (`drag_alive`) the session ends.
    /// Until a container is owned, `resolved` is the one under an edge
    /// zone at the pointer, if any: without one the session idles
    /// (pointer and deadline cleared); with one it is owned from then
    /// on. An owning session tracks the pointer, its first tick due one
    /// period from `now`.
    pub fn note_pointer(&mut self, drag_alive: bool, resolved: Option<NodeId>, col: u16, row: u16, now: u64)
        requires
            old(self).wf(),
            now <= clock_limit(),
        ensures
            final(self).wf(),
            !drag_alive ==> final(self).pointer is None && final(self).next_due is None && final(self).container is None,
            drag_alive && old(self).container is None && resolved is None ==> {
                &&& final(self).pointer is None
                &&& final(self).next_due is None
                &&& final(self).container is None
            },
            drag_alive && (old(self).container is Some || resolved is Some) ==> {
                &&& final(self).container == if old(self).container is Some {
                    old(self).container
                } else {
                    resolved
                }
                &&& final(self).pointer == Some((col, row))
                &&& final(self).next_due == if old(self).next_due is Some {
                    old(self).next_due
                } else {
                    Some((now + AUTOSCROLL_PERIOD_MS) as u64)
                }
            },
    {
        if !drag_alive {
            self.disarm();
            return ;
        }
        if self.container.is_none() {
            match resolved {
                Some(c) => self.container = Some(c),
                None => {
                    self.pointer = None;
                    self.next_due = None;
                    return ;
                },
            }
        }
        self.pointer = Some((col, row));
        if self.next_due.is_none() {
            self.next_due = Some(now + AUTOSCROLL_PERIOD_MS);
        }
    }

    /// The ticks due at `now`: the session ends without an autoscrolling
    /// drag; an idle one (no pointer or no container) owes none; else
    /// every period that has come due since the next deadline, at most
    /// [`AUTOSCROLL_CATCH_UP`], each moving the deadline one period on.
    /// Returns how many ticks to run, at the owned container and the
    /// tracked pointer.
    pub fn due_ticks(&mut self, drag_alive: bool, now: u64) -> (r: (u64, Option<(NodeId, u16, u16)>))
        requires
            old(self).wf(),
            now <= clock_limit(),
        ensures
            final(self).wf(),
            !drag_alive ==> {
                &&& final(self).pointer is None && final(self).next_due is None && final(self).container is None
                &&& r.0 == 0
                &&& r.1 is None
            },
            drag_alive && (old(self).pointer is None || old(self).container is None) ==> *final(self) == *old(self)
                && r.0 == 0 && r.1 is None,
            drag_alive && old(self).pointer is Some && old(self).container is Some ==> {
                &&& final(self).pointer == old(self).pointer
                &&& final(self).container == old(self).container
                &&& r.1 == match (old(self).container, old(self).pointer) {
                    (Some(c), Some((x, y))) => Some((c, x, y)),
                    _ => None,
                }
                &&& match old(self).next_due {
                    None => r.0 == 0 && final(self).next_due is None,
                    Some(n) => {
                        &&& r.0 == if now < n {
                            0
                        } else if (now - n) / (AUTOSCROLL_PERIOD_MS as int) + 1 < AUTOSCROLL_CATCH_UP {
                            ((now - n) / (AUTOSCROLL_PERIOD_MS as int) + 1) as u64
                        } else {
                            AUTOSCROLL_CATCH_UP
                        }
                        &&& final(self).next_due == Some((n + r.0 * AUTOSCROLL_PERIOD_MS) as u64)
                    },
                }
            },
    {
        if !drag_alive {
            self.disarm();
            return (0, None);
        }
        let (col, row) = match self.pointer {
            Some(p) => p,
            None => return (0, None),
        };
        let container = match self.container {
            Some(c) => c,
            None => return (0, None),
        };
        let mut ticks: u64 = 0;
        let ghost start = self.next_due;
        while ticks < AUTOSCROLL_CATCH_UP
            invariant
                ticks <= AUTOSCROLL_CATCH_UP,
                now <= clock_limit(),
                self.pointer == old(self).pointer,
                self.container == old(self).container,
                start == old(self).next_due,
                old(self).wf(),
                match start {
                    None => ticks == 0 && self.next_due is None,
                    Some(n) => {
                        &&& self.next_due == Some((n + ticks * AUTOSCROLL_PERIOD_MS) as u64)
                        &&& n + ticks * AUTOSCROLL_PERIOD_MS <= clock_limit() + AUTOSCROLL_PERIOD_MS
                        &&& ticks > 0 ==> n + (ticks - 1) * AUTOSCROLL_PERIOD_MS <= now
                    },
                },
            ensures
                match start {
                    None => ticks == 0 && self.next_due is None,
                    Some(n) => {
                        &&& self.next_due == Some((n + ticks * AUTOSCROLL_PERIOD_MS) as u64)
                        &&& n + ticks * AUTOSCROLL_PERIOD_MS <= clock_limit() + AUTOSCROLL_PERIOD_MS
                        &&& ticks > 0 ==> n + (ticks - 1) * AUTOSCROLL_PERIOD_MS <= now
                        &&& ticks < AUTOSCROLL_CATCH_UP ==> now < n + ticks * AUTOSCROLL_PERIOD_MS
                    },
                },
                ticks <= AUTOSCROLL_CATCH_UP,
                self.pointer == old(self).pointer,
                self.container == old(self).container,
            decreases AUTOSCROLL_CATCH_UP - ticks,
        {
            let next = match self.next_due {
                Some(n) => n,
                None => break,
            };
            if now < next {
                break;
            }
            ticks = ticks + 1;
            self.next_due = Some(next + AUTOSCROLL_PERIOD_MS);
        }
        proof {
            match start {
                Some(n) => {
                    let t = ticks as int;
                    if now >= n {
                        assert(t > 0);
                        assert(n + (t - 1) * 50 <= now);
                        assert((now - n) / 50 >= t - 1) by (nonlinear_arith)
                            requires
                                n + (t - 1) * 50 <= now,
                                t >= 1,
                        ;
                        if t < 8 {
                            assert(now < n + t * 50);
                            assert((now - n) / 50 < t) by (nonlinear_arith)
                                requires
                                    now < n + t * 50,
                                    now >= n,
                            ;
                        }
                    } else {
                        assert(t == 0);
                    }
                },
                None => {},
            }
        }
        (ticks, Some((container, col, row)))
    }
}

} // verus!
