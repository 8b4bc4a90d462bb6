use mempool::filter::{delay, delay_for, due_time, fast_proposal, DelayParameters, Filter, MessageKind};

fn params(random_ddos: bool, ddos: bool, ddos_chance: u64, network_delay: u64) -> DelayParameters {
    DelayParameters { random_ddos, ddos, ddos_chance, network_delay }
}

const FAST: MessageKind = MessageKind::Propose { fallback: 0 };
const FALLBACK: MessageKind = MessageKind::Propose { fallback: 1 };

#[test]
fn fast_proposal_not_delayed_when_disabled() {
    let p = params(false, false, 50, 100);
    assert_eq!(delay(&FAST, &p), 0);
    let mut f: Filter<&str> = Filter::new(p);
    assert_eq!(f.submit(1000, FAST, "block"), 0);
    assert_eq!(f.pop_ready(1000), Some("block"));
}

#[test]
fn constant_mode_delays_by_network_delay() {
    let p = params(false, true, 0, 100);
    let mut f: Filter<&str> = Filter::new(p);
    assert_eq!(f.submit(1000, FAST, "block"), 100);
    assert_eq!(f.next_due(), Some(1100));
    assert_eq!(f.pop_ready(1099), None);
    assert_eq!(f.pop_ready(1100), Some("block"));
    assert_eq!(f.len(), 0);
}

#[test]
fn fallback_and_other_messages_never_delayed() {
    for p in [params(true, true, 100, 100), params(false, true, 0, 7)] {
        assert_eq!(delay(&FALLBACK, &p), 0);
        assert_eq!(delay(&MessageKind::Other, &p), 0);
        assert_eq!(delay_for(&MessageKind::Other, &p, 0), 0);
    }
    assert!(fast_proposal(&FAST));
    assert!(!fast_proposal(&FALLBACK));
    assert!(!fast_proposal(&MessageKind::Other));
}

#[test]
fn undelayed_fallback_overtakes_delayed_proposal() {
    let p = params(false, true, 0, 100);
    let mut f: Filter<&str> = Filter::new(p);
    f.submit(0, FAST, "fast");
    f.submit(10, FALLBACK, "fallback");
    assert_eq!(f.pop_ready(10), Some("fallback"));
    assert_eq!(f.pop_ready(50), None);
    assert_eq!(f.pop_ready(100), Some("fast"));
}

#[test]
fn random_mode_extreme_chances() {
    let never = params(true, false, 0, 100);
    let always = params(true, false, 100, 100);
    for _ in 0..200 {
        assert_eq!(delay(&FAST, &never), 0);
        assert_eq!(delay(&FAST, &always), 100);
    }
    for draw in 0..100 {
        assert_eq!(delay_for(&FAST, &never, draw), 0);
        assert_eq!(delay_for(&FAST, &always, draw), 100);
    }
}

#[test]
fn random_mode_trial_threshold() {
    let p = params(true, false, 30, 40);
    assert_eq!(delay_for(&FAST, &p, 29), 40);
    assert_eq!(delay_for(&FAST, &p, 30), 0);
}

#[test]
fn due_time_saturates() {
    assert_eq!(due_time(5, 7), 12);
    assert_eq!(due_time(u64::MAX - 1, 7), u64::MAX);
}

#[test]
fn equal_due_times_leave_in_submission_order() {
    let mut f: Filter<u32> = Filter::new(params(false, false, 0, 0));
    f.schedule(0, 20, 1);
    f.schedule(5, 15, 2);
    f.schedule(0, 5, 3);
    assert_eq!(f.len(), 3);
    assert_eq!(f.pop_ready(4), None);
    assert_eq!(f.pop_ready(30), Some(3));
    assert_eq!(f.pop_ready(30), Some(1));
    assert_eq!(f.pop_ready(30), Some(2));
    assert_eq!(f.pop_ready(30), None);
    assert_eq!(f.next_due(), None);
}

#[test]
fn random_mode_decides_alone_when_both_modes_on() {
    let never = params(true, true, 0, 100);
    for _ in 0..200 {
        assert_eq!(delay(&FAST, &never), 0);
    }
    let half = params(true, true, 50, 100);
    assert_eq!(delay_for(&FAST, &half, 49), 100);
    assert_eq!(delay_for(&FAST, &half, 50), 0);
    let always = params(true, true, 100, 100);
    assert_eq!(delay(&FAST, &always), 100);
    let mut f: Filter<&str> = Filter::new(never);
    assert_eq!(f.submit(7, FAST, "block"), 0);
    assert_eq!(f.pop_ready(7), Some("block"));
}
