use cosmic_comp::scheduler::{FrameScheduler, Ping};

fn flags(dirty: bool, pending: bool, signalled: bool) -> FrameScheduler {
    FrameScheduler { dirty, pending, wake: Ping { signalled } }
}

#[test]
fn a_ping_is_signalled_once() {
    let mut ping = Ping::new();
    assert!(!ping.signalled);
    assert!(ping.ping());
    assert!(ping.signalled);
    assert!(!ping.ping());
    assert!(!ping.ping());
    assert!(ping.signalled);
    assert!(ping.take());
    assert!(!ping.signalled);
    assert!(!ping.take());
    assert!(ping.ping());
}

#[test]
fn a_new_surface_is_pending_and_clean() {
    assert_eq!(FrameScheduler::new(), flags(false, true, true));
}

#[test]
fn damage_on_an_idle_surface_schedules_a_wake() {
    let mut s = flags(false, false, false);
    assert!(s.mark_dirty());
    assert_eq!(s, flags(true, true, true));
    for _ in 0..100 {
        assert!(!s.mark_dirty());
        assert_eq!(s, flags(true, true, true));
    }
}

#[test]
fn damage_while_a_frame_is_under_way_is_absorbed() {
    let mut s = flags(false, true, false);
    assert!(!s.mark_dirty());
    assert_eq!(s, flags(true, true, false));
    assert!(!s.mark_dirty());
    assert_eq!(s, flags(true, true, false));
}

#[test]
fn a_signalled_wake_is_not_scheduled_again() {
    // The first frame is scheduled and a completion came in before it was rendered.
    let mut s = FrameScheduler::new();
    assert!(!s.on_presentation_complete());
    assert_eq!(s, flags(false, false, true));
    assert!(!s.mark_dirty());
    assert_eq!(s, flags(true, true, true));
}

#[test]
fn a_wake_clears_what_was_owed() {
    let mut s = flags(true, true, true);
    assert!(s.take_wake());
    assert_eq!(s, flags(true, true, false));
    s.finish_frame();
    assert_eq!(s, flags(false, true, false));
    // A wake that fires unasked changes nothing but the flags of a frame.
    let mut s = flags(false, false, false);
    assert!(!s.take_wake());
    s.finish_frame();
    assert_eq!(s, flags(false, true, false));
}

#[test]
fn a_completion_ends_the_frame_or_starts_the_next() {
    let mut s = flags(false, true, false);
    assert!(!s.on_presentation_complete());
    assert_eq!(s, flags(false, false, false));
    assert!(!s.on_presentation_complete());
    assert_eq!(s, flags(false, false, false));

    let mut s = flags(true, true, false);
    assert!(s.on_presentation_complete());
    assert_eq!(s, flags(true, true, true));
    assert!(!s.on_presentation_complete());
    assert_eq!(s, flags(true, true, true));
}

#[test]
fn a_storm_of_damage_costs_one_frame_per_presentation() {
    let mut s = FrameScheduler::new();
    let mut wakes = 1; // the first frame
    let mut renders = 0;
    for round in 0..10 {
        assert!(s.wake.signalled, "round {}", round);
        s.take_wake();
        s.finish_frame();
        renders += 1;
        for _ in 0..50 {
            if s.mark_dirty() {
                wakes += 1;
            }
        }
        if s.on_presentation_complete() {
            wakes += 1;
        }
        for _ in 0..50 {
            if s.mark_dirty() {
                wakes += 1;
            }
        }
    }
    assert_eq!(renders, 10);
    assert_eq!(wakes, 11);
}
