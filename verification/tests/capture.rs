use clm_vdisplay::x11::capture::{
    clip_damage_area, connect_again, frame_pacing_from_fps, grab_outcome,
    grab_while_clients_attached, live_fps, load_fps, needs_plain_grab, remaining_pacing,
    CaptureFacts, CaptureLoop, CaptureState, DirtyTracker, X11CaptureEngine, IDLE_POLL_MAX,
    IDLE_POLL_MIN,
};
use std::sync::atomic::{AtomicU32, Ordering};
use std::time::Duration;

fn pacing_of(fps: u32) -> Duration {
    Duration::from_nanos(frame_pacing_from_fps(fps) as u64)
}

fn remaining(elapsed: Duration, pacing: Duration) -> Duration {
    Duration::from_nanos(remaining_pacing(elapsed.as_nanos(), pacing.as_nanos()) as u64)
}

#[test]
fn test_dirty_tracker_accumulation() {
    let mut tracker = DirtyTracker::new();
    assert_eq!(tracker.take_dirty(), None);

    tracker.mark_dirty_rect(10, 20, 50, 40);
    tracker.mark_dirty_rect(30, 10, 100, 200);

    let dirty = tracker.take_dirty().unwrap();
    assert_eq!(dirty.min_x, 10);
    assert_eq!(dirty.min_y, 10);
    assert_eq!(dirty.max_x, 130);
    assert_eq!(dirty.max_y, 210);

    assert_eq!(tracker.take_dirty(), None);
}

#[test]
fn test_frame_pacing_recomputes_from_atomic() {
    let fps = AtomicU32::new(15);
    let p15 = pacing_of(load_fps(&fps));
    fps.store(30, Ordering::Relaxed);
    let p30 = pacing_of(load_fps(&fps));
    assert!(p30 < p15);
    assert_eq!(p15, Duration::from_nanos(1_000_000_000 / 15));
    fps.store(0, Ordering::Relaxed);
    let pmin = pacing_of(load_fps(&fps));
    assert_eq!(pmin, Duration::from_nanos(1_000_000_000));
}

#[test]
fn test_frame_pacing_from_fps_15() {
    assert_eq!(pacing_of(15), Duration::from_nanos(1_000_000_000 / 15));
}

#[test]
fn test_remaining_pacing() {
    let pacing_15 = pacing_of(15);
    let r0 = remaining(Duration::ZERO, pacing_15);
    assert_eq!(r0, pacing_15);
    assert_eq!(r0, Duration::from_nanos(1_000_000_000 / 15));

    assert_eq!(remaining(pacing_15, pacing_15), Duration::ZERO);
    assert_eq!(remaining(pacing_15 + Duration::from_millis(1), pacing_15), Duration::ZERO);

    let elapsed = Duration::from_millis(10);
    let pacing = Duration::from_millis(33);
    let rem = remaining(elapsed, pacing);
    assert_eq!(rem, Duration::from_millis(23));

    // identity: remaining + elapsed == pacing when elapsed < pacing
    assert_eq!(rem + elapsed, pacing);
    assert_eq!(r0 + Duration::ZERO, pacing_15);
}

#[test]
fn test_grab_while_clients_attached() {
    assert!(!grab_while_clients_attached(0));
    assert!(grab_while_clients_attached(1));
    assert!(grab_while_clients_attached(2));
}

#[test]
fn pacing_has_limits() {
    assert_eq!(frame_pacing_from_fps(0), 1_000_000_000);
    assert_eq!(frame_pacing_from_fps(1), 1_000_000_000);
    assert_eq!(frame_pacing_from_fps(60), 16_666_666);
    assert_eq!(frame_pacing_from_fps(u32::MAX), 1_000_000);
    assert_eq!(live_fps(0), 1);
    assert_eq!(live_fps(24), 24);
}

#[test]
fn damage_of_nothing_and_at_the_edge() {
    let mut tracker = DirtyTracker::default();
    tracker.mark_dirty_rect(5, 5, 0, 9);
    assert_eq!(tracker.take_dirty(), None);
    tracker.mark_dirty_rect(u16::MAX - 1, 0, 10, 1);
    assert_eq!(tracker.take_dirty().unwrap().max_x, u16::MAX);
    assert_eq!(clip_damage_area(-5, 7, 10, 10), Some((0, 7)));
    assert_eq!(clip_damage_area(5, -7, 10, 10), Some((5, 0)));
    assert_eq!(clip_damage_area(5, 7, 0, 10), None);
}

fn facts() -> CaptureFacts {
    CaptureFacts {
        events_drained: 0,
        drain_broken: false,
        full_requested: false,
        has_damage: true,
        active_connections: 1,
        fps: 10,
    }
}

#[test]
fn the_first_look_captures() {
    let mut state = CaptureState::new();
    assert!(state.look(&facts(), 1_000_000_000));
    assert!(!state.after_grab(0, true, 10));
    // A static screen is left alone, more and more rarely looked at.
    let mut waits = Vec::new();
    for _ in 0..6 {
        assert!(!state.look(&facts(), 1_000_000_000));
        waits.push(state.idle_poll);
    }
    assert_eq!(
        waits,
        vec![4_000_000, 8_000_000, 16_000_000, IDLE_POLL_MAX, IDLE_POLL_MAX, IDLE_POLL_MAX]
    );
}

#[test]
fn what_makes_a_capture_due() {
    let mut quiet = CaptureState::new();
    quiet.after_grab(0, true, 10);
    for change in 0..3 {
        let mut state = quiet;
        let mut f = facts();
        match change {
            0 => f.events_drained = 1,
            1 => f.full_requested = true,
            _ => f.has_damage = false,
        }
        assert!(state.look(&f, 1_000_000_000));
        assert_eq!(state.idle_poll, IDLE_POLL_MIN);
    }
}

#[test]
fn nobody_watches() {
    let mut state = CaptureState::new();
    let mut f = facts();
    f.active_connections = 0;
    assert!(!state.look(&f, 1_000_000_000));
    assert!(state.needs_capture);
    assert_eq!(state.idle_poll, 4_000_000);
    f.active_connections = 1;
    assert!(state.look(&f, 1_000_000_000));
}

#[test]
fn captures_keep_the_pace() {
    let mut state = CaptureState::new();
    let f = facts();
    assert!(!state.look(&f, 30_000_000));
    // The rest of a tenth of a second.
    assert_eq!(state.idle_poll, 70_000_000);
    assert!(state.look(&f, 100_000_000));
}

#[test]
fn errors_lead_to_a_new_connection() {
    let mut state = CaptureState::new();
    let mut rounds = 0;
    while !state.after_grab(2, false, 10) {
        assert!(state.needs_capture);
        rounds += 1;
    }
    // Twenty errors at ten frames per second.
    assert_eq!(rounds, 9);
    assert!(!state.after_grab(1, true, 10));
    assert_eq!(state.consecutive_errors, 0);
    // At least eight errors at a low rate.
    assert!(!state.after_grab(7, false, 1));
    assert!(state.after_grab(1, false, 1));
    let mut f = facts();
    f.drain_broken = true;
    let errors = state.consecutive_errors;
    state.look(&f, 1_000_000_000);
    assert_eq!(state.consecutive_errors, errors + 1);
    assert!(connect_again(49, 50));
    assert!(!connect_again(50, 50));
    assert_eq!(X11CaptureEngine::new(3, 4, 5).display_num, 3);
}

#[test]
fn outcomes_of_a_capture() {
    assert!(!needs_plain_grab(Some(true)));
    assert!(needs_plain_grab(Some(false)));
    assert!(needs_plain_grab(None));
    assert_eq!(grab_outcome(Some(true), false), (0, true));
    assert_eq!(grab_outcome(Some(false), true), (1, true));
    assert_eq!(grab_outcome(Some(false), false), (2, false));
    assert_eq!(grab_outcome(None, true), (0, true));
    assert_eq!(grab_outcome(None, false), (1, false));
}

#[test]
fn the_pace_counts_from_captures_that_succeeded() {
    let ms = 1_000_000u64;
    let mut captures = CaptureLoop::new(0, 10);
    assert_eq!(captures.pace.elapsed_at(0), 100_000_000);
    assert_eq!(captures.pace.elapsed_at(5 * ms), 105_000_000);
    let mut f = facts();
    f.events_drained = 1;
    assert!(captures.look(2 * ms, &f));
    assert!(!captures.after_grab(Some(true), false, 3 * ms, 10));
    // Damage that comes too early stays due.
    assert!(!captures.look(50 * ms, &f));
    assert_eq!(captures.state.idle_poll, 53_000_000);
    f.events_drained = 0;
    assert!(!captures.look(102 * ms, &f));
    assert!(captures.look(103 * ms, &f));
    // A failure does not restart the pace.
    assert!(!captures.after_grab(Some(false), false, 110 * ms, 10));
    assert_eq!(captures.state.consecutive_errors, 2);
    assert!(captures.look(111 * ms, &f));
    assert!(!captures.after_grab(Some(false), true, 112 * ms, 10));
    assert_eq!(captures.state.consecutive_errors, 0);
    assert_eq!(captures.pace.last_capture, i128::from(112 * ms));
    f.full_requested = true;
    assert!(!captures.look(200 * ms, &f));
    f.full_requested = false;
    // Nobody watches, and then somebody does.
    f.active_connections = 0;
    assert!(!captures.look(300 * ms, &f));
    f.active_connections = 1;
    assert!(captures.look(301 * ms, &f));
}
