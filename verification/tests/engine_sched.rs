use loqng::engine::sched::{Handover, Sched, MAIN};

#[test]
fn a_new_scheduler_gives_the_baton_to_the_main_thread() {
    let s = Sched::new();
    assert_eq!(s.wait_turn(MAIN), Some(true));
    assert_eq!(s.wait_turn(1), None);
    assert!(!s.finished(0));
    assert!(s.finished(1));
}

#[test]
fn the_baton_goes_to_the_first_other_thread_that_can_run() {
    let mut s = Sched::new();
    assert_eq!(s.hand_off(0), Handover::Kept);
    assert_eq!(s.enrol(), 1);
    assert_eq!(s.enrol(), 2);
    assert_eq!(s.hand_off(0), Handover::Passed);
    assert_eq!(s.wait_turn(1), Some(true));
    assert_eq!(s.wait_turn(0), None);
}

#[test]
fn a_thread_that_waits_is_passed_over_until_it_is_signalled() {
    let mut s = Sched::new();
    s.enrol();
    s.enrol();
    assert_eq!(s.cond_wait(1, 0x40), Handover::Passed);
    assert_eq!(s.wait_turn(0), Some(true));
    assert_eq!(s.hand_off(0), Handover::Passed);
    assert_eq!(s.wait_turn(2), Some(true));
    s.cond_signal(0x44);
    assert_eq!(s.hand_off(0), Handover::Passed);
    assert_eq!(s.wait_turn(1), None);
    s.cond_signal(0x40);
    assert_eq!(s.hand_off(0), Handover::Passed);
    assert_eq!(s.wait_turn(1), Some(true));
}

#[test]
fn a_wait_that_nobody_can_end_is_not_a_wait() {
    let mut s = Sched::new();
    s.enrol();
    assert_eq!(s.cond_wait(1, 0), Handover::Passed);
    assert_eq!(s.cond_wait(0, 7), Handover::Kept);
    assert_eq!(s.wait_turn(0), Some(true));
    s.cond_signal(1);
    assert_eq!(s.hand_off(0), Handover::Passed);
}

#[test]
fn a_finished_thread_passes_the_baton_on() {
    let mut s = Sched::new();
    s.enrol();
    s.hand_off(0);
    s.finish(1);
    assert!(s.finished(1));
    assert_eq!(s.wait_turn(0), Some(true));
    assert_eq!(s.hand_off(0), Handover::Kept);
}

#[test]
fn a_shutdown_makes_everyone_give_up() {
    let mut s = Sched::new();
    s.enrol();
    s.shutdown();
    assert_eq!(s.hand_off(0), Handover::Stopped);
    assert_eq!(s.wait_turn(1), Some(false));
}

#[test]
fn a_join_offers_the_baton_until_the_other_is_done() {
    let mut s = Sched::new();
    assert_eq!(s.enrol(), 1);
    assert_eq!(s.join(0, 1), Some(Handover::Passed));
    assert_eq!(s.wait_turn(1), Some(true));
    s.finish(1);
    assert_eq!(s.join(0, 1), None);
    assert_eq!(s.wait_turn(0), Some(true));
    assert_eq!(s.join(0, 9), None);
}

#[test]
fn a_join_that_nobody_can_end_is_given_up() {
    let mut s = Sched::new();
    s.enrol();
    assert_eq!(s.cond_wait(1, 7), Handover::Passed);
    assert_eq!(s.join(0, 1), Some(Handover::Kept));
    s.shutdown();
    assert_eq!(s.join(0, 1), Some(Handover::Stopped));
}
