use tls_balancer::health::{ConfigError, HealthCheckConfig, HealthChecker, HealthTracker};
use tls_balancer::pool::{BackendPool, Health};

fn config(fail: u64, succ: u64) -> HealthCheckConfig {
    HealthCheckConfig::new(5, fail, succ).unwrap()
}

#[test]
fn three_timeouts_flip_to_unhealthy() {
    let cfg = config(3, 2);
    let mut t = HealthTracker::new();
    assert!(!t.record(&cfg, false));
    assert_eq!(t.health, Health::Healthy);
    assert!(!t.record(&cfg, false));
    assert_eq!(t.health, Health::Healthy);
    assert!(t.record(&cfg, false));
    assert_eq!(t.health, Health::Unhealthy);
    assert_eq!(t.streak, 0);
}

#[test]
fn successes_flip_back_after_threshold() {
    let cfg = config(1, 2);
    let mut t = HealthTracker::new();
    assert!(t.record(&cfg, false));
    assert_eq!(t.health, Health::Unhealthy);
    assert!(!t.record(&cfg, true));
    assert_eq!(t.health, Health::Unhealthy);
    assert!(t.record(&cfg, true));
    assert_eq!(t.health, Health::Healthy);
}

#[test]
fn interleaved_success_resets_failure_streak() {
    let cfg = config(3, 2);
    let mut t = HealthTracker::new();
    t.record(&cfg, false);
    t.record(&cfg, false);
    assert_eq!(t.streak, 2);
    t.record(&cfg, true);
    assert_eq!(t.streak, 0);
    t.record(&cfg, false);
    t.record(&cfg, false);
    assert_eq!(t.health, Health::Healthy);
    assert!(t.record(&cfg, false));
    assert_eq!(t.health, Health::Unhealthy);
}

#[test]
fn zero_threshold_is_refused() {
    assert!(matches!(HealthCheckConfig::new(5, 0, 1), Err(ConfigError::ZeroThreshold)));
    assert!(matches!(HealthCheckConfig::new(5, 1, 0), Err(ConfigError::ZeroThreshold)));
}

#[test]
fn checker_publishes_transitions_into_pool() {
    let mut pool = BackendPool::new(vec!["A".to_string(), "B".to_string()]).unwrap();
    let mut checker = HealthChecker::new(config(3, 2), 2);
    assert_eq!(checker.interval_secs(), 5);
    for round in 0..3 {
        checker.apply_round(&mut pool, &vec![false, true]);
        let snap = pool.members_snapshot();
        let expected = if round < 2 { Health::Healthy } else { Health::Unhealthy };
        assert_eq!(snap[0].health, expected);
        assert_eq!(snap[1].health, Health::Healthy);
    }
    assert_eq!(pool.select().unwrap(), "B");
    assert_eq!(pool.select().unwrap(), "B");
    assert!(!checker.observe(&mut pool, 0, true));
    assert!(checker.observe(&mut pool, 0, true));
    assert_eq!(pool.members_snapshot()[0].health, Health::Healthy);
}
