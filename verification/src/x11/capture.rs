//! When the screen is captured: pacing, idle back-off, damage bookkeeping and
//! recovery from errors. Times are in nanoseconds.

use std::sync::atomic::{AtomicU32, Ordering};
use vstd::prelude::*;

verus! {

/// The smallest rectangle around all damage noted; the maxima are the first
/// column and row beyond it.
#[derive(Debug, Clone, Copy, PartialEq, Eq, Structural)]
pub struct DirtyBounds {
    pub min_x: u16,
    pub min_y: u16,
    pub max_x: u16,
    pub max_y: u16,
}

/// Collects damage until it is taken.
#[derive(Debug)]
pub struct DirtyTracker {
    pub is_dirty: bool,
    pub bounds: Option<DirtyBounds>,
}

/// `a + b`, held at the largest coordinate.
pub open spec fn far_edge(a: u16, b: u16) -> int {
    if a + b > u16::MAX {
        u16::MAX as int
    } else {
        a + b
    }
}

pub open spec fn smaller(a: int, b: int) -> int {
    if a <= b {
        a
    } else {
        b
    }
}

pub open spec fn larger(a: int, b: int) -> int {
    if a >= b {
        a
    } else {
        b
    }
}

/// The bounds of a single rectangle.
pub open spec fn bounds_of(x: u16, y: u16, w: u16, h: u16) -> DirtyBounds {
    DirtyBounds {
        min_x: x,
        min_y: y,
        max_x: far_edge(x, w) as u16,
        max_y: far_edge(y, h) as u16,
    }
}

/// The smallest bounds around both.
pub open spec fn around(a: DirtyBounds, b: DirtyBounds) -> DirtyBounds {
    DirtyBounds {
        min_x: smaller(a.min_x as int, b.min_x as int) as u16,
        min_y: smaller(a.min_y as int, b.min_y as int) as u16,
        max_x: larger(a.max_x as int, b.max_x as int) as u16,
        max_y: larger(a.max_y as int, b.max_y as int) as u16,
    }
}

impl DirtyTracker {
    /// Bounds are held exactly while something is dirty.
    pub open spec fn wf(&self) -> bool {
        self.is_dirty == self.bounds is Some
    }

    /// No damage.
    pub fn new() -> (r: Self)
        ensures
            r.wf(),
            r.bounds == None::<DirtyBounds>,
    {
        DirtyTracker { is_dirty: false, bounds: None }
    }

    /// Adds a rectangle; an empty one is ignored.
    pub fn mark_dirty_rect(&mut self, x: u16, y: u16, w: u16, h: u16)
        requires
            old(self).wf(),
        ensures
            final(self).wf(),
            final(self).bounds == if w == 0 || h == 0 {
                old(self).bounds
            } else {
                match old(self).bounds {
                    Some(b) => Some(around(b, bounds_of(x, y, w, h))),
                    None => Some(bounds_of(x, y, w, h)),
                }
            },
    {
        if w == 0 || h == 0 {
            return;
        }
        let right: u16 = x.saturating_add(w);
        let bottom: u16 = y.saturating_add(h);
        self.bounds = Some(
            match self.bounds {
                Some(b) => DirtyBounds {
                    min_x: if b.min_x <= x {
                        b.min_x
                    } else {
                        x
                    },
                    min_y: if b.min_y <= y {
                        b.min_y
                    } else {
                        y
                    },
                    max_x: if b.max_x >= right {
                        b.max_x
                    } else {
                        right
                    },
                    max_y: if b.max_y >= bottom {
                        b.max_y
                    } else {
                        bottom
                    },
                },
                None => DirtyBounds { min_x: x, min_y: y, max_x: right, max_y: bottom },
            },
        );
        self.is_dirty = true;
    }

    /// Takes the bounds of the damage noted so far; then there is none.
    pub fn take_dirty(&mut self) -> (r: Option<DirtyBounds>)
        requires
            old(self).wf(),
        ensures
            final(self).wf(),
            r == old(self).bounds,
            final(self).bounds == None::<DirtyBounds>,
    {
        if !self.is_dirty {
            return None;
        }
        self.is_dirty = false;
        self.bounds.take()
    }
}

impl Default for DirtyTracker {
    fn default() -> (r: Self)
        ensures
            r.wf(),
            r.bounds == None::<DirtyBounds>,
    {
        DirtyTracker::new()
    }
}

/// A damaged area as the X server reports it, its corner moved onto the
/// screen; `None` where it is empty.
pub fn clip_damage_area(x: i16, y: i16, width: u16, height: u16) -> (r: Option<(u16, u16)>)
    ensures
        r == if width > 0 && height > 0 {
            Some((larger(x as int, 0) as u16, larger(y as int, 0) as u16))
        } else {
            None
        },
{
    if width > 0 && height > 0 {
        let left: u16 = if x >= 0 {
            x as u16
        } else {
            0
        };
        let top: u16 = if y >= 0 {
            y as u16
        } else {
            0
        };
        Some((left, top))
    } else {
        None
    }
}

/// The display that is captured, and its size.
#[derive(Debug, Clone, Copy)]
pub struct X11CaptureEngine {
    pub display_num: u32,
    pub width: u32,
    pub height: u32,
}

impl X11CaptureEngine {
    pub fn new(display_num: u32, width: u32, height: u32) -> (r: Self)
        ensures
            r == (X11CaptureEngine { display_num, width, height }),
    {
        X11CaptureEngine { display_num, width, height }
    }
}

/// Longest wait between two looks at the event queue while nothing happens.
pub const IDLE_POLL_MAX: u128 = 25_000_000;

/// Shortest wait between two looks at the event queue.
pub const IDLE_POLL_MIN: u128 = 2_000_000;

/// Most events that are taken off the queue at once.
pub const MAX_EVENTS_DRAINED: usize = 256;

/// Time between two captures at a rate of `fps`: at least a millisecond, and a
/// second where the rate is zero.
pub open spec fn pacing(fps: u32) -> int {
    larger(1_000_000_000int / larger(fps as int, 1), 1_000_000)
}

/// Time between two captures at a rate of `fps`.
pub fn frame_pacing_from_fps(fps: u32) -> (r: u128)
    ensures
        r == pacing(fps),
{
    let rate: u128 = if fps >= 1 {
        fps as u128
    } else {
        1
    };
    let period: u128 = 1_000_000_000 / rate;
    if period >= 1_000_000 {
        period
    } else {
        1_000_000
    }
}

/// Time left until the next capture is allowed; zero once `elapsed` has come up
/// to `pacing`.
pub fn remaining_pacing(elapsed: u128, pacing: u128) -> (r: u128)
    ensures
        r == larger(pacing - elapsed, 0),
{
    if elapsed >= pacing {
        0
    } else {
        pacing - elapsed
    }
}

/// A rate as it is used: never zero.
pub open spec fn live_rate(raw: u32) -> int {
    larger(raw as int, 1)
}

/// A rate as it is used: never zero.
pub fn live_fps(raw: u32) -> (r: u32)
    ensures
        r == live_rate(raw),
{
    if raw >= 1 {
        raw
    } else {
        1
    }
}

/// The rate in force: what a relaxed load of `fps` returns, but never zero.
/// Another thread may change it at any time, so which value the load returns
/// is not stated.
pub fn load_fps(fps: &AtomicU32) -> (r: u32)
    ensures
        r >= 1,
        exists|raw: u32|
            #[trigger] call_ensures(AtomicU32::load, (fps, Ordering::Relaxed), raw) && r
                == live_rate(raw),
{
    live_fps(fps.load(Ordering::Relaxed))
}

/// Whether the screen is worth capturing: only while somebody watches.
pub fn grab_while_clients_attached(active_connections: u64) -> (r: bool)
    ensures
        r == (active_connections > 0),
{
    active_connections > 0
}

/// Where the capture loop stands.
#[derive(Debug, Clone, Copy, PartialEq, Eq, Structural)]
pub struct CaptureState {
    /// A capture is due.
    pub needs_capture: bool,
    pub consecutive_errors: u32,
    /// Time to wait before the next look.
    pub idle_poll: u128,
}

/// What is known at one look, but for the time.
#[derive(Debug, Clone, Copy)]
pub struct CaptureFacts {
    /// Events taken off the queue.
    pub events_drained: usize,
    /// The queue could not be read.
    pub drain_broken: bool,
    /// Somebody asked for the whole screen.
    pub full_requested: bool,
    /// The server reports damage.
    pub has_damage: bool,
    pub active_connections: u64,
    /// The rate in force.
    pub fps: u32,
}

/// Whether a capture is due after a look.
pub open spec fn due_after(s: CaptureState, f: CaptureFacts) -> bool {
    s.needs_capture || f.full_requested || !f.has_damage || f.events_drained > 0
}

/// Whether a look ends in a capture: one is due, somebody watches, and the
/// rate allows it, the last capture being `elapsed` ago.
pub open spec fn grabs(s: CaptureState, f: CaptureFacts, elapsed: int) -> bool {
    due_after(s, f) && f.active_connections > 0 && elapsed >= pacing(f.fps)
}

/// The wait after one in which nothing was to be done: twice as long, up to
/// the limit.
pub open spec fn backed_off(idle: u128) -> int {
    smaller(idle * 2, IDLE_POLL_MAX as int)
}

/// The wait that a look leaves behind.
pub open spec fn wait_after(s: CaptureState, f: CaptureFacts, elapsed: int) -> int {
    if !due_after(s, f) || f.active_connections == 0 {
        backed_off(s.idle_poll)
    } else if elapsed < pacing(f.fps) {
        pacing(f.fps) - elapsed
    } else {
        IDLE_POLL_MIN as int
    }
}

/// One more error, held at the largest count.
pub open spec fn more_errors(errors: u32, n: int) -> int {
    smaller(errors + n, u32::MAX as int)
}

/// The state that a look leaves behind.
pub open spec fn looked(s: CaptureState, f: CaptureFacts, elapsed: int) -> CaptureState {
    CaptureState {
        needs_capture: due_after(s, f),
        consecutive_errors: more_errors(
            s.consecutive_errors,
            if f.drain_broken {
                1
            } else {
                0
            },
        ) as u32,
        idle_poll: wait_after(s, f, elapsed) as u128,
    }
}

/// The state after a capture was tried.
pub open spec fn tried(s: CaptureState, failures: u32, succeeded: bool) -> CaptureState {
    CaptureState {
        needs_capture: !succeeded,
        consecutive_errors: if succeeded {
            0
        } else {
            more_errors(s.consecutive_errors, failures as int) as u32
        },
        ..s
    }
}

/// Whether so many errors in a row count as a broken connection: two seconds'
/// worth of captures, and at least eight.
pub open spec fn broken(errors: u32, fps: u32) -> bool {
    errors >= larger(smaller(fps * 2, u32::MAX as int), 8)
}

impl CaptureState {
    /// The state after a connection to the server was made: a first capture is
    /// due at once.
    pub fn new() -> (r: Self)
        ensures
            r == (CaptureState {
                needs_capture: true,
                consecutive_errors: 0,
                idle_poll: IDLE_POLL_MIN,
            }),
    {
        CaptureState { needs_capture: true, consecutive_errors: 0, idle_poll: IDLE_POLL_MIN }
    }

    /// One look: takes in what is known, and how long ago the last capture was,
    /// and says whether to capture now. While nobody watches, a capture that is
    /// due stays due.
    pub fn look(&mut self, facts: &CaptureFacts, elapsed: u128) -> (grab: bool)
        ensures
            grab == grabs(*old(self), *facts, elapsed as int),
            *final(self) == looked(*old(self), *facts, elapsed as int),
    {
        if facts.drain_broken {
            self.consecutive_errors = self.consecutive_errors.saturating_add(1);
        }
        if facts.full_requested || !facts.has_damage || facts.events_drained > 0 {
            self.needs_capture = true;
        }
        if !self.needs_capture || !grab_while_clients_attached(facts.active_connections) {
            self.idle_poll = if self.idle_poll > IDLE_POLL_MAX / 2 {
                IDLE_POLL_MAX
            } else {
                self.idle_poll * 2
            };
            return false;
        }
        let remaining: u128 = remaining_pacing(elapsed, frame_pacing_from_fps(facts.fps));
        if remaining > 0 {
            self.idle_poll = remaining;
            return false;
        }
        self.idle_poll = IDLE_POLL_MIN;
        true
    }

    /// Takes in how a capture went: how many attempts failed, and whether one
    /// succeeded. A capture that failed stays due. Returns whether the
    /// connection counts as broken.
    pub fn after_grab(&mut self, failures: u32, succeeded: bool, fps: u32) -> (reconnect: bool)
        ensures
            *final(self) == tried(*old(self), failures, succeeded),
            reconnect == broken(final(self).consecutive_errors, fps),
    {
        if succeeded {
            self.consecutive_errors = 0;
            self.needs_capture = false;
        } else {
            self.consecutive_errors = self.consecutive_errors.saturating_add(failures);
            self.needs_capture = true;
        }
        let twice: u32 = if fps > u32::MAX / 2 {
            u32::MAX
        } else {
            fps * 2
        };
        let limit: u32 = if twice >= 8 {
            twice
        } else {
            8
        };
        self.consecutive_errors >= limit
    }
}

/// Whether a capture has to be tried without shared memory, given how it went
/// with it: `None` where there is no shared memory.
pub fn needs_plain_grab(shared: Option<bool>) -> (r: bool)
    ensures
        r == (shared != Some(true)),
{
    match shared {
        Some(succeeded) => !succeeded,
        None => true,
    }
}

/// How a capture went: how many attempts failed, and whether one succeeded. The
/// attempt over shared memory comes first, where there is shared memory; the
/// plain one counts only where the first did not succeed.
pub open spec fn outcome_of(shared: Option<bool>, plain: bool) -> (u32, bool) {
    match shared {
        Some(true) => (0u32, true),
        Some(false) => if plain {
            (1u32, true)
        } else {
            (2u32, false)
        },
        None => if plain {
            (0u32, true)
        } else {
            (1u32, false)
        },
    }
}

/// How a capture went: how many attempts failed, and whether one succeeded.
pub fn grab_outcome(shared: Option<bool>, plain: bool) -> (r: (u32, bool))
    ensures
        r == outcome_of(shared, plain),
{
    match shared {
        Some(true) => (0, true),
        Some(false) => if plain {
            (1, true)
        } else {
            (2, false)
        },
        None => if plain {
            (0, true)
        } else {
            (1, false)
        },
    }
}

/// Keeps the time of the last capture that succeeded, on a clock that starts at
/// zero and never goes back.
#[derive(Debug, Clone, Copy, PartialEq, Eq, Structural)]
pub struct CapturePace {
    pub last_capture: i128,
}

/// Time that has passed since `last`.
pub open spec fn time_since(last: int, now: u64) -> int {
    larger(now - last, 0)
}

impl CapturePace {
    /// The time kept is one of the clock, or at most a second before its start.
    pub open spec fn wf(&self) -> bool {
        -1_000_000_000 <= self.last_capture <= u64::MAX
    }

    /// The pace of a new connection: as if there had been a capture just long
    /// enough ago for the next one to be allowed at once.
    pub fn started(now: u64, fps: u32) -> (r: Self)
        ensures
            r.wf(),
            r.last_capture == now - pacing(fps),
    {
        proof {
            law_pacing_range(fps);
        }
        CapturePace { last_capture: now as i128 - frame_pacing_from_fps(fps) as i128 }
    }

    /// Time since the last capture that succeeded.
    pub fn elapsed_at(&self, now: u64) -> (r: u128)
        requires
            self.wf(),
        ensures
            r == time_since(self.last_capture as int, now),
    {
        let passed: i128 = now as i128 - self.last_capture;
        if passed > 0 {
            passed as u128
        } else {
            0
        }
    }

    /// A capture has succeeded. After one that failed this is not called, so
    /// that it takes up no time of the next.
    pub fn captured(&mut self, now: u64)
        ensures
            final(self).wf(),
            final(self).last_capture == now,
    {
        self.last_capture = now as i128;
    }
}

/// Where the capture loop stands, over mathematical values: with the time of
/// the last capture that succeeded.
pub struct CaptureProgress {
    pub state: CaptureState,
    pub last_capture: int,
}

/// One turn of the capture loop: when the look was taken and what was known
/// then, and, in case the turn captures, how that went and when it was done.
pub struct CaptureTurn {
    pub now: u64,
    pub facts: CaptureFacts,
    pub failures: u32,
    pub succeeded: bool,
    pub done: u64,
}

impl CaptureProgress {
    /// Whether a look captures.
    pub open spec fn decides(self, now: u64, facts: CaptureFacts) -> bool {
        grabs(self.state, facts, time_since(self.last_capture, now))
    }

    /// Where the loop stands after a look.
    pub open spec fn seen(self, now: u64, facts: CaptureFacts) -> CaptureProgress {
        CaptureProgress {
            state: looked(self.state, facts, time_since(self.last_capture, now)),
            ..self
        }
    }

    /// Where the loop stands after a capture was tried: there is a new time only
    /// where it succeeded.
    pub open spec fn attempted(self, failures: u32, succeeded: bool, done: u64) -> CaptureProgress {
        CaptureProgress {
            state: tried(self.state, failures, succeeded),
            last_capture: if succeeded {
                done as int
            } else {
                self.last_capture
            },
        }
    }

    /// Whether a turn captures.
    pub open spec fn grabs_at(self, t: CaptureTurn) -> bool {
        self.decides(t.now, t.facts)
    }

    /// Whether a turn captures and succeeds.
    pub open spec fn captures_at(self, t: CaptureTurn) -> bool {
        self.grabs_at(t) && t.succeeded
    }

    /// Whether a capture is due at a turn.
    pub open spec fn due_at(self, t: CaptureTurn) -> bool {
        due_after(self.state, t.facts)
    }

    /// Where the loop stands after a turn: a look, and the capture if it comes
    /// to one.
    pub open spec fn after(self, t: CaptureTurn) -> CaptureProgress {
        if self.grabs_at(t) {
            self.seen(t.now, t.facts).attempted(t.failures, t.succeeded, t.done)
        } else {
            self.seen(t.now, t.facts)
        }
    }
}

/// The capture loop on one connection: its state and its pace.
#[derive(Debug, Clone, Copy, PartialEq, Eq, Structural)]
pub struct CaptureLoop {
    pub state: CaptureState,
    pub pace: CapturePace,
}

impl CaptureLoop {
    pub open spec fn wf(&self) -> bool {
        self.pace.wf()
    }

    /// Where the loop stands.
    pub open spec fn progress(&self) -> CaptureProgress {
        CaptureProgress { state: self.state, last_capture: self.pace.last_capture as int }
    }

    /// The loop on a new connection: a first capture is due, and allowed at
    /// once.
    pub fn new(now: u64, fps: u32) -> (r: Self)
        ensures
            r.wf(),
            r.progress() == (CaptureProgress {
                state: CaptureState {
                    needs_capture: true,
                    consecutive_errors: 0,
                    idle_poll: IDLE_POLL_MIN,
                },
                last_capture: now - pacing(fps),
            }),
    {
        CaptureLoop { state: CaptureState::new(), pace: CapturePace::started(now, fps) }
    }

    /// One look: says whether to capture now.
    pub fn look(&mut self, now: u64, facts: &CaptureFacts) -> (grab: bool)
        requires
            old(self).wf(),
        ensures
            final(self).wf(),
            grab == old(self).progress().decides(now, *facts),
            final(self).progress() == old(self).progress().seen(now, *facts),
    {
        let elapsed: u128 = self.pace.elapsed_at(now);
        self.state.look(facts, elapsed)
    }

    /// Takes in how a capture went, with and without shared memory, and when it
    /// was done. Only one that succeeded is counted from. Returns whether the
    /// connection counts as broken.
    pub fn after_grab(
        &mut self,
        shared: Option<bool>,
        plain: bool,
        now: u64,
        fps: u32,
    ) -> (reconnect: bool)
        requires
            old(self).wf(),
        ensures
            final(self).wf(),
            ({
                let (failures, succeeded) = outcome_of(shared, plain);
                final(self).progress() == old(self).progress().attempted(failures, succeeded, now)
            }),
            reconnect == broken(final(self).state.consecutive_errors, fps),
    {
        let (failures, succeeded) = grab_outcome(shared, plain);
        if succeeded {
            self.pace.captured(now);
        }
        self.state.after_grab(failures, succeeded, fps)
    }
}

/// Where the loop stands after the first `n` turns on a connection.
pub open spec fn progress_after(
    start: CaptureProgress,
    turns: Seq<CaptureTurn>,
    n: nat,
) -> CaptureProgress
    decreases n,
{
    if n == 0 {
        start
    } else {
        progress_after(start, turns, (n - 1) as nat).after(turns[n - 1])
    }
}

/// Whether the times of the turns are those of a clock that never goes back.
pub open spec fn in_order(turns: Seq<CaptureTurn>) -> bool {
    &&& forall|k: int| 0 <= k < turns.len() ==> (#[trigger] turns[k]).now <= turns[k].done
    &&& forall|k: int, l: int|
        0 <= k < l < turns.len() ==> (#[trigger] turns[k]).done <= (#[trigger] turns[l]).now
}

/// Whether to try again to connect after attempt number `attempt` failed.
pub fn connect_again(attempt: u32, max_retries: u32) -> (r: bool)
    ensures
        r == (attempt < max_retries),
{
    attempt < max_retries
}

proof fn lemma_period_falls(a: int, b: int)
    requires
        1 <= a <= b,
    ensures
        1_000_000_000int / b <= 1_000_000_000int / a,
{
    vstd::arithmetic::div_mod::lemma_div_is_ordered_by_denominator(1_000_000_000, a, b);
}

/// A higher rate never makes captures wait longer.
pub proof fn law_pacing_falls_with_fps(a: u32, b: u32)
    requires
        a <= b,
    ensures
        pacing(b) <= pacing(a),
{
    lemma_period_falls(larger(a as int, 1), larger(b as int, 1));
}

/// Captures are between a millisecond and a second apart.
pub proof fn law_pacing_range(fps: u32)
    ensures
        1_000_000 <= pacing(fps) <= 1_000_000_000,
{
    lemma_period_falls(1, larger(fps as int, 1));
}

/// What is left of the pacing and what has passed of it make up the pacing.
pub proof fn law_remaining_completes_pacing(elapsed: int, pacing: int)
    requires
        0 <= elapsed < pacing,
    ensures
        larger(pacing - elapsed, 0) + elapsed == pacing,
{
}

/// After a capture that succeeded, the time kept is that of it or of a later
/// one.
proof fn lemma_last_capture(start: CaptureProgress, turns: Seq<CaptureTurn>, i: int, n: nat)
    requires
        in_order(turns),
        0 <= i < n <= turns.len(),
        progress_after(start, turns, i as nat).captures_at(turns[i]),
    ensures
        turns[i].done <= progress_after(start, turns, n).last_capture <= turns[n - 1].done,
    decreases n,
{
    if i < n - 1 {
        lemma_last_capture(start, turns, i, (n - 1) as nat);
        assert(turns[n - 2].done <= turns[n - 1].now);
        assert(turns[i].done <= turns[n - 1].now);
    }
    assert(turns[n - 1].now <= turns[n - 1].done);
}

/// The capture loop keeps the pace on a connection: a turn captures only while
/// somebody watches, and only when at least the pacing of the rate in force then
/// has passed since any earlier capture that succeeded. Two captures that
/// succeed are so at least one pacing apart.
pub proof fn law_captures_keep_the_pace(
    start: CaptureProgress,
    turns: Seq<CaptureTurn>,
    i: int,
    j: int,
)
    requires
        in_order(turns),
        0 <= i < j < turns.len(),
        progress_after(start, turns, i as nat).captures_at(turns[i]),
        progress_after(start, turns, j as nat).grabs_at(turns[j]),
    ensures
        turns[j].facts.active_connections > 0,
        turns[j].now - turns[i].done >= pacing(turns[j].facts.fps),
        turns[j].done - turns[i].done >= pacing(turns[j].facts.fps),
{
    lemma_last_capture(start, turns, i, j as nat);
    law_pacing_range(turns[j].facts.fps);
    assert(turns[j].now <= turns[j].done);
}

/// A capture that failed, or was not made, does not restart the pace: the time
/// kept is as it was, and a capture that was due is still due.
pub proof fn law_failed_capture_keeps_the_pace(p: CaptureProgress, t: CaptureTurn)
    requires
        !p.captures_at(t),
    ensures
        p.after(t).last_capture == p.last_capture,
        p.due_at(t) ==> p.after(t).state.needs_capture,
{
}

/// A capture that is due is not lost: whatever made it due, it stays due, turn for
/// turn, until one has succeeded, and is then made at the first turn at which
/// somebody watches and the pace allows it.
pub proof fn law_due_capture_stays_due(
    start: CaptureProgress,
    turns: Seq<CaptureTurn>,
    i: int,
    j: int,
)
    requires
        0 <= i <= j < turns.len(),
        progress_after(start, turns, i as nat).due_at(turns[i]),
        forall|k: int|
            i <= k < j ==> !progress_after(start, turns, k as nat).captures_at(
                #[trigger] turns[k],
            ),
    ensures
        ({
            let p = progress_after(start, turns, j as nat);
            &&& p.due_at(turns[j])
            &&& p.grabs_at(turns[j]) == (turns[j].facts.active_connections > 0 && time_since(
                p.last_capture,
                turns[j].now,
            ) >= pacing(turns[j].facts.fps))
        }),
    decreases j,
{
    if i < j {
        law_due_capture_stays_due(start, turns, i, j - 1);
        assert(!progress_after(start, turns, (j - 1) as nat).captures_at(turns[j - 1]));
    }
}

/// The first capture on a connection is made at the first turn, if somebody
/// watches and the rate is no lower than at the start.
pub proof fn law_first_capture_comes_at_once(
    p: CaptureProgress,
    t: CaptureTurn,
    now: u64,
    fps: u32,
)
    requires
        p.state.needs_capture,
        p.last_capture == now - pacing(fps),
        now <= t.now,
        fps <= t.facts.fps,
        t.facts.active_connections > 0,
    ensures
        p.grabs_at(t),
{
    law_pacing_range(fps);
    law_pacing_falls_with_fps(fps, t.facts.fps);
}

/// The bounds of damage hold every pixel of each rectangle in them.
pub proof fn law_bounds_hold_both(a: DirtyBounds, b: DirtyBounds, x: int, y: int)
    requires
        (a.min_x <= x < a.max_x && a.min_y <= y < a.max_y) || (b.min_x <= x < b.max_x && b.min_y
            <= y < b.max_y),
    ensures
        around(a, b).min_x <= x < around(a, b).max_x,
        around(a, b).min_y <= y < around(a, b).max_y,
{
}

/// The order in which damage is noted does not matter.
pub proof fn law_bounds_any_order(a: DirtyBounds, b: DirtyBounds, c: DirtyBounds)
    ensures
        around(a, b) == around(b, a),
        around(around(a, b), c) == around(a, around(b, c)),
{
}

/// Captures come at the rate asked for: as many pacings as the rate fit in a
/// second, and not one nanosecond more to each, as long as the rate is from 1 to
/// 1000; a rate of zero counts as 1, and more than 1000 as 1000.
pub proof fn law_pacing_is_the_rate(fps: u32)
    ensures
        1 <= fps <= 1000 ==> pacing(fps) * fps <= 1_000_000_000 < (pacing(fps) + 1) * fps,
        fps == 0 ==> pacing(fps) == 1_000_000_000,
        fps > 1000 ==> pacing(fps) == 1_000_000,
{
    if 1 <= fps <= 1000 {
        let f = fps as int;
        let q = 1_000_000_000int / f;
        vstd::arithmetic::div_mod::lemma_fundamental_div_mod(1_000_000_000, f);
        assert(f * q == q * f && (q + 1) * f == q * f + f) by (nonlinear_arith);
        lemma_period_falls(f, 1000);
        assert(1_000_000_000int / 1000 == 1_000_000);
    } else if fps > 1000 {
        lemma_period_falls(1000, fps as int);
        assert(1_000_000_000int / 1000 == 1_000_000);
    } else {
        assert(1_000_000_000int / 1 == 1_000_000_000);
    }
}

/// What makes a capture due: that one was, that somebody asked for the whole
/// screen, that something happened on it, or that the server does not tell.
/// Nothing else does.
pub proof fn law_what_makes_a_capture_due(s: CaptureState, f: CaptureFacts, elapsed: int)
    ensures
        looked(s, f, elapsed).needs_capture == (s.needs_capture || f.full_requested
            || !f.has_damage || f.events_drained >= 1),
{
}

/// How long the loop waits. Without anything to do, or with nobody watching, twice
/// as long as before, but no longer than 25 milliseconds; where the pace does not
/// allow a capture yet, exactly until it does; after one, two milliseconds.
pub proof fn law_how_long_the_loop_waits(s: CaptureState, f: CaptureFacts, elapsed: int)
    requires
        0 <= elapsed,
    ensures
        ({
            let wait = looked(s, f, elapsed).idle_poll;
            let due = looked(s, f, elapsed).needs_capture;
            &&& !due || f.active_connections == 0 ==> wait <= 25_000_000 && (wait == 2 * s.idle_poll
                || (wait == 25_000_000 && 2 * s.idle_poll > 25_000_000))
            &&& due && f.active_connections > 0 && elapsed < pacing(f.fps) ==> elapsed + wait
                == pacing(f.fps)
            &&& grabs(s, f, elapsed) ==> wait == 2_000_000
        }),
{
    law_pacing_range(f.fps);
}

/// Errors add up until a capture succeeds: one for a queue that cannot be read,
/// one for each attempt that fails. A connection counts as broken after eight
/// errors in a row, and at rates over four only after twice as many as the rate.
pub proof fn law_errors_add_up(
    s: CaptureState,
    f: CaptureFacts,
    elapsed: int,
    failures: u32,
    fps: u32,
)
    requires
        s.consecutive_errors < 0x7fff_ffff,
        failures < 0x7fff_ffff,
        fps < 0x7fff_ffff,
    ensures
        looked(s, f, elapsed).consecutive_errors == s.consecutive_errors + if f.drain_broken {
            1int
        } else {
            0
        },
        tried(s, failures, false).consecutive_errors == s.consecutive_errors + failures,
        tried(s, failures, true).consecutive_errors == 0,
        tried(s, failures, false).needs_capture,
        !tried(s, failures, true).needs_capture,
        broken(s.consecutive_errors, fps) == (s.consecutive_errors >= 8 && s.consecutive_errors
            >= 2 * fps),
{
}

/// A capture succeeds if one of its attempts does, and as many failures are
/// counted as attempts failed. Without shared memory there is only the plain
/// attempt, and after shared memory has worked there is none.
pub proof fn law_outcome_counts_attempts(shared: Option<bool>, plain: bool)
    ensures
        outcome_of(shared, plain).1 == (shared == Some(true) || plain),
        outcome_of(shared, plain).0 == (if shared == Some(false) {
            1int
        } else {
            0
        }) + (if shared != Some(true) && !plain {
            1int
        } else {
            0
        }),
{
}

/// The bounds of a rectangle hold its pixels and no others, as far as coordinates
/// below 65535 reach.
pub proof fn law_bounds_of_a_rectangle(x: u16, y: u16, w: u16, h: u16, px: int, py: int)
    ensures
        ({
            let b = bounds_of(x, y, w, h);
            (b.min_x <= px < b.max_x && b.min_y <= py < b.max_y) <==> (x <= px < x + w && px < 65535
                && y <= py < y + h && py < 65535)
        }),
{
}

/// The bounds around two are no larger than they have to be: each edge is that of
/// one of them.
pub proof fn law_bounds_are_the_smallest(a: DirtyBounds, b: DirtyBounds)
    ensures
        ({
            let r = around(a, b);
            &&& r.min_x == a.min_x || r.min_x == b.min_x
            &&& r.min_y == a.min_y || r.min_y == b.min_y
            &&& r.max_x == a.max_x || r.max_x == b.max_x
            &&& r.max_y == a.max_y || r.max_y == b.max_y
            &&& r.min_x <= a.min_x && r.min_x <= b.min_x
            &&& r.min_y <= a.min_y && r.min_y <= b.min_y
            &&& r.max_x >= a.max_x && r.max_x >= b.max_x
            &&& r.max_y >= a.max_y && r.max_y >= b.max_y
        }),
{
}

} // verus!
