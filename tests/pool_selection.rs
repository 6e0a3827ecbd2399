use tls_balancer::pool::{BackendPool, Health, PoolError};

fn pool_of(addrs: &[&str]) -> BackendPool {
    BackendPool::new(addrs.iter().map(|a| a.to_string()).collect()).unwrap()
}

#[test]
fn two_healthy_alternate() {
    let mut pool = pool_of(&["A", "B"]);
    let picks: Vec<String> = (0..4).map(|_| pool.select().unwrap()).collect();
    assert_eq!(picks, vec!["A", "B", "A", "B"]);
}

#[test]
fn unhealthy_first_member_is_never_chosen() {
    let mut pool = pool_of(&["A", "B"]);
    assert!(pool.update_health(&"A".to_string(), Health::Unhealthy));
    for _ in 0..9 {
        assert_eq!(pool.select().unwrap(), "B");
    }
}

#[test]
fn all_unhealthy_fails_open() {
    let mut pool = pool_of(&["A", "B"]);
    pool.set_health(0, Health::Unhealthy);
    pool.set_health(1, Health::Unhealthy);
    assert_eq!(pool.select(), Ok("A".to_string()));
    assert_eq!(pool.select(), Ok("B".to_string()));
    assert_eq!(pool.select(), Ok("A".to_string()));
}

#[test]
fn fairness_over_three_members() {
    let mut pool = pool_of(&["a:1", "b:2", "c:3"]);
    let mut counts = [0usize; 3];
    for _ in 0..7 {
        let a = pool.select().unwrap();
        let i = ["a:1", "b:2", "c:3"].iter().position(|x| *x == a).unwrap();
        counts[i] += 1;
    }
    assert_eq!(counts, [3, 2, 2]);
}

#[test]
fn unhealthy_member_skipped_until_healthy_again() {
    let mut pool = pool_of(&["A", "B", "C"]);
    assert!(pool.update_health(&"B".to_string(), Health::Unhealthy));
    let picks: Vec<String> = (0..4).map(|_| pool.select().unwrap()).collect();
    // cursor 0 -> A, cursor 1 -> B skipped -> C, cursor 2 -> C, cursor 0 -> A
    assert_eq!(picks, vec!["A", "C", "C", "A"]);
    assert!(pool.update_health(&"B".to_string(), Health::Healthy));
    assert_eq!(pool.select().unwrap(), "B");
}

#[test]
fn only_member_unhealthy_is_still_returned() {
    let mut pool = pool_of(&["A"]);
    pool.set_health(0, Health::Unhealthy);
    assert_eq!(pool.select().unwrap(), "A");
    assert_eq!(pool.select().unwrap(), "A");
}

#[test]
fn empty_pool_has_no_backend() {
    let mut pool = pool_of(&[]);
    assert_eq!(pool.select(), Err(PoolError::NoBackendAvailable));
}

#[test]
fn duplicate_addresses_are_refused() {
    let r = BackendPool::new(vec!["x:1".to_string(), "y:2".to_string(), "x:1".to_string()]);
    assert!(matches!(r, Err(PoolError::DuplicateAddress)));
}

#[test]
fn update_of_unknown_address_changes_nothing() {
    let mut pool = pool_of(&["A", "B"]);
    assert!(!pool.update_health(&"Z".to_string(), Health::Unhealthy));
    let snap = pool.members_snapshot();
    assert_eq!(snap.len(), 2);
    assert!(snap.iter().all(|b| b.health == Health::Healthy));
    assert_eq!(snap[1].address, "B");
}

#[test]
fn fail_closed_pool_errs_when_all_unhealthy() {
    let mut pool = pool_of(&["A", "B"]);
    pool.set_fail_open(false);
    assert_eq!(pool.select(), Ok("A".to_string()));
    pool.set_health(0, Health::Unhealthy);
    pool.set_health(1, Health::Unhealthy);
    assert_eq!(pool.select(), Err(PoolError::NoBackendAvailable));
    pool.set_health(0, Health::Healthy);
    // the cursor advanced past B on the failed call, so A comes next
    assert_eq!(pool.select(), Ok("A".to_string()));
    assert_eq!(pool.select(), Ok("A".to_string()));
}
