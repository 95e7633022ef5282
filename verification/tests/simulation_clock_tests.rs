use doom_fire::simulation_clock::{SimulationClock, Teardown};

#[test]
fn a_new_clock_awaits_its_first_frame() {
    let clock = SimulationClock::new();
    assert_eq!(clock, SimulationClock { dirty: true, ticking: true, frame_pending: true });
}

#[test]
fn a_frame_is_requested_only_when_none_is_pending() {
    let mut clock = SimulationClock::new();
    assert!(!clock.tick());
    assert!(clock.frame());
    assert!(!clock.dirty);
    assert!(!clock.frame_pending);
    assert!(clock.tick());
    assert!(clock.dirty);
    assert!(clock.frame_pending);
    assert!(!clock.tick());
    assert!(!clock.tick());
    assert!(clock.frame());
    assert!(clock.tick());
}

#[test]
fn a_frame_that_was_not_requested_paints_nothing() {
    let mut clock = SimulationClock::new();
    assert!(clock.frame());
    let fresh = clock;
    assert!(!clock.frame());
    assert_eq!(clock, fresh);
}

#[test]
fn teardown_cancels_what_is_scheduled_once() {
    let mut clock = SimulationClock::new();
    assert_eq!(clock.teardown(), Teardown { cancel_timer: true, cancel_frame: true });
    assert_eq!(clock.teardown(), Teardown { cancel_timer: false, cancel_frame: false });

    let mut idle = SimulationClock::new();
    assert!(idle.frame());
    assert_eq!(idle.teardown(), Teardown { cancel_timer: true, cancel_frame: false });
    assert_eq!(idle.teardown(), Teardown { cancel_timer: false, cancel_frame: false });
}

#[test]
fn nothing_happens_after_teardown() {
    let mut clock = SimulationClock::new();
    clock.teardown();
    let stopped = clock;
    assert!(!stopped.ticking);
    assert!(!stopped.frame_pending);
    for _ in 0..3 {
        assert!(!clock.tick());
        assert!(!clock.frame());
        assert_eq!(clock, stopped);
    }
}
