use cleanup_bot::registry::{plan_tick, CancellationRegistry};

#[test]
fn register_and_deregister() {
    let mut r = CancellationRegistry::new();
    assert!(!r.is_running(5));
    r.register(5);
    assert!(r.is_running(5));
    assert!(!r.is_cancelled(5));
    r.deregister(5);
    assert!(!r.is_running(5));
    r.deregister(5);
    assert!(!r.is_running(5));
}

#[test]
fn cancel_signals_only_running_tasks() {
    let mut r = CancellationRegistry::new();
    assert!(!r.cancel(8));
    assert!(!r.is_running(8));
    r.register(8);
    assert!(r.cancel(8));
    assert!(r.is_cancelled(8));
    assert!(r.is_running(8));
    r.deregister(8);
    assert!(!r.is_cancelled(8));
}

#[test]
fn try_register_refuses_a_running_channel() {
    let mut r = CancellationRegistry::new();
    assert!(r.try_register(3));
    assert!(!r.try_register(3));
    assert!(r.is_running(3));
}

#[test]
fn tick_spawns_each_idle_channel_once() {
    let mut r = CancellationRegistry::new();
    r.register(2);
    let spawned = plan_tick(&mut r, &vec![(1, 30), (2, 7), (3, 1)]);
    assert_eq!(spawned, vec![(1, 30), (3, 1)]);
    assert!(r.is_running(1) && r.is_running(2) && r.is_running(3));
}

#[test]
fn second_tick_spawns_nothing_while_registered() {
    let mut r = CancellationRegistry::new();
    let channels = vec![(10, 1), (11, 2)];
    assert_eq!(plan_tick(&mut r, &channels).len(), 2);
    assert!(plan_tick(&mut r, &channels).is_empty());
    r.deregister(10);
    assert!(!r.is_running(10));
    assert_eq!(plan_tick(&mut r, &channels), vec![(10, 1)]);
}

#[test]
fn tick_with_repeated_channel_spawns_once() {
    let mut r = CancellationRegistry::new();
    assert_eq!(plan_tick(&mut r, &vec![(4, 1), (4, 9)]), vec![(4, 1)]);
}

#[test]
fn tick_keeps_cancel_flags_of_running_tasks() {
    let mut r = CancellationRegistry::new();
    r.register(6);
    r.cancel(6);
    assert!(plan_tick(&mut r, &vec![(6, 1), (7, 1)]) == vec![(7, 1)]);
    assert!(r.is_cancelled(6));
    assert!(!r.is_cancelled(7));
}
