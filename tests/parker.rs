use sparking_lot_core::Parker;

// Each test replays one interleaving of the threads of a parker scenario:
// `unpark` stands for a wake-up from another thread, `try_park` for the
// owner checking, under the parker's mutex, whether it may return.

#[test]
fn fake_keeps_unpark() {
    let mut parker = Parker::new();
    parker.unpark();
    assert!(parker.try_park());
}

#[test]
fn generic_keeps_unpark() {
    let mut parker = Parker::new();
    assert!(parker.unpark());
    assert!(parker.notified());
    assert!(parker.try_park());
    assert!(!parker.notified());
}

#[test]
fn mod_keeps_unpark() {
    let mut parker = Parker::new();
    parker.unpark();
    assert!(parker.try_park());
    assert!(!parker.try_park());
}

#[test]
fn fake_synchronises_one() {
    let mut wrote = false;
    let mut parker = Parker::new();
    // the owner finds no wake-up and waits
    assert!(!parker.try_park());
    wrote = true;
    assert!(parker.unpark());
    assert!(parker.try_park());
    assert!(wrote);
}

#[test]
fn generic_synchronises_one() {
    let mut wrote = false;
    let mut parker = Parker::new();
    wrote = true;
    parker.unpark();
    assert!(parker.try_park());
    assert!(wrote);
}

#[test]
fn mod_synchronises_one() {
    let mut wrote = false;
    let mut parker = Parker::new();
    assert!(!parker.try_park());
    wrote = true;
    parker.unpark();
    assert!(parker.try_park());
    assert!(wrote);
}

#[test]
fn fake_synchronises_multiple_unparks() {
    let mut wrote = false;
    let mut parker = Parker::new();
    assert!(!parker.try_park());
    wrote = true;
    // the first wake-up asks for a notification, the second finds it pending
    assert!(parker.unpark());
    assert!(!parker.unpark());
    assert!(parker.try_park());
    assert!(wrote);
}

#[test]
fn generic_synchronises_multiple_unparks() {
    let mut wrote = false;
    let mut parker = Parker::new();
    wrote = true;
    parker.unpark();
    assert!(parker.try_park());
    parker.unpark();
    assert!(wrote);
    assert!(parker.notified());
}

#[test]
fn fake_synchronises_multiple_parkers() {
    let mut wrote = false;
    let mut parker1 = Parker::new();
    let mut parker2 = Parker::new();
    assert!(!parker1.try_park());
    assert!(!parker2.try_park());
    wrote = true;
    parker1.unpark();
    parker2.unpark();
    assert!(parker1.try_park());
    assert_eq!(wrote, true);
    assert!(parker2.try_park());
    assert_eq!(wrote, true);
}

#[test]
fn generic_synchronises_multiple_parkers() {
    let mut wrote = false;
    let mut parker1 = Parker::new();
    let mut parker2 = Parker::new();
    wrote = true;
    parker1.unpark();
    assert!(!parker2.try_park());
    parker2.unpark();
    assert!(parker2.try_park());
    assert_eq!(wrote, true);
    assert!(parker1.try_park());
    assert_eq!(wrote, true);
}

#[test]
fn mod_synchronises_multiple_parkers() {
    let mut wrote = false;
    let mut parker1 = Parker::new();
    let mut parker2 = Parker::new();
    assert!(!parker1.try_park());
    wrote = true;
    parker1.unpark();
    parker2.unpark();
    assert!(parker2.try_park());
    assert!(parker1.try_park());
    assert_eq!(wrote, true);
}

#[test]
fn fake_lives_long() {
    let mut parker = Parker::new();
    assert!(!parker.try_park());
    parker.unpark();
    assert!(parker.try_park());
}

#[test]
fn generic_lives_long() {
    let mut parkers = vec![Parker::new()];
    assert!(!parkers[0].try_park());
    parkers[0].unpark();
    assert!(parkers[0].try_park());
    parkers.clear();
    assert!(parkers.is_empty());
}

#[test]
fn mod_lives_long() {
    let mut parker = Parker::new();
    parker.unpark();
    let taken = parker.try_park();
    drop(parker);
    assert!(taken);
}

#[test]
fn new_parker_has_no_wake_up() {
    let mut parker = Parker::new();
    assert!(!parker.notified());
    assert!(!parker.try_park());
    assert!(!parker.try_park());
}

#[test]
fn early_unpark_is_latched() {
    let mut parker = Parker::new();
    assert!(parker.unpark());
    assert!(parker.try_park());
}

#[test]
fn one_wake_up_releases_one_wait() {
    let mut parker = Parker::new();
    parker.unpark();
    parker.unpark();
    assert!(parker.try_park());
    assert!(!parker.try_park());
    assert!(parker.unpark());
}
