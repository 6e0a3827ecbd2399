use tls_balancer::health::HealthCheckConfig;
use tls_balancer::pool::{Health, PoolError};
use tls_balancer::proxy::{rewrite_host, Header, ProxyError, ProxyEvent, ProxyPhase, LB};

fn header(n: &str, v: &str) -> Header {
    Header { name: n.to_string(), value: v.to_string() }
}

fn pairs(hs: &[Header]) -> Vec<(String, String)> {
    hs.iter().map(|h| (h.name.clone(), h.value.clone())).collect()
}

#[test]
fn host_header_is_replaced() {
    let mut hs = vec![header("host", "evil.example"), header("Accept", "*/*"), header("HOST", "x")];
    rewrite_host(&mut hs, "lvh.me");
    assert_eq!(
        pairs(&hs),
        vec![("Accept".to_string(), "*/*".to_string()), ("Host".to_string(), "lvh.me".to_string())]
    );
}

#[test]
fn host_header_is_added_when_missing() {
    let mut hs = vec![header("Hostname", "a"), header("X-Host", "b")];
    rewrite_host(&mut hs, "lvh.me");
    assert_eq!(pairs(&hs).len(), 3);
    assert_eq!(pairs(&hs)[0].0, "Hostname");
    assert_eq!(pairs(&hs)[2], ("Host".to_string(), "lvh.me".to_string()));
}

#[test]
fn happy_path_reaches_completed() {
    let mut p = ProxyPhase::Accepted;
    for e in [ProxyEvent::PeerFound, ProxyEvent::Rewritten, ProxyEvent::UpstreamConnected, ProxyEvent::ResponseRelayed] {
        assert_eq!(p.failure(e), None);
        p = p.advance(e);
    }
    assert_eq!(p, ProxyPhase::Completed);
    assert!(p.is_terminal());
    assert_eq!(p.advance(ProxyEvent::UpstreamFailed), ProxyPhase::Completed);
}

#[test]
fn client_disconnect_while_forwarding_ends_request() {
    let p = ProxyPhase::Forwarding;
    assert_eq!(p.advance(ProxyEvent::ClientClosed), ProxyPhase::Errored);
    assert_eq!(p.failure(ProxyEvent::ClientClosed), None);
}

#[test]
fn failures_map_to_statuses() {
    assert_eq!(ProxyPhase::Accepted.failure(ProxyEvent::NoBackend), Some(ProxyError::NoBackendAvailable));
    assert_eq!(ProxyPhase::Accepted.advance(ProxyEvent::NoBackend), ProxyPhase::Errored);
    assert_eq!(
        ProxyPhase::RequestRewritten.failure(ProxyEvent::UpstreamFailed),
        Some(ProxyError::UpstreamConnectFailure)
    );
    assert_eq!(ProxyPhase::Forwarding.failure(ProxyEvent::UpstreamFailed), Some(ProxyError::UpstreamIOFailure));
    assert_eq!(ProxyError::NoBackendAvailable.status_code(), 503);
    assert_eq!(ProxyError::UpstreamConnectFailure.status_code(), 502);
    assert_eq!(ProxyError::UpstreamIOFailure.status_code(), 502);
}

#[test]
fn out_of_order_event_leaves_phase() {
    assert_eq!(ProxyPhase::Accepted.advance(ProxyEvent::ResponseRelayed), ProxyPhase::Accepted);
    assert_eq!(ProxyPhase::PeerSelected.advance(ProxyEvent::UpstreamConnected), ProxyPhase::PeerSelected);
}

#[test]
fn lb_routes_and_rewrites() {
    let cfg = HealthCheckConfig::new(1, 3, 1).unwrap();
    let mut lb = LB::new(vec!["10.0.0.1:80".to_string(), "10.0.0.2:80".to_string()], cfg, "lvh.me".to_string())
        .unwrap();
    assert_eq!(lb.new_ctx(), ProxyPhase::Accepted);
    assert_eq!(lb.health_check_interval_secs(), 1);
    assert_eq!(lb.upstream_peer(), Ok("10.0.0.1:80".to_string()));
    assert_eq!(lb.upstream_peer(), Ok("10.0.0.2:80".to_string()));
    let mut hs = vec![header("Host", "client.example")];
    lb.upstream_request_filter(&mut hs);
    assert_eq!(pairs(&hs), vec![("Host".to_string(), "lvh.me".to_string())]);
    for _ in 0..3 {
        lb.record_probe_round(&vec![true, false]);
    }
    assert_eq!(lb.backends()[1].health, Health::Unhealthy);
    assert_eq!(lb.upstream_peer(), Ok("10.0.0.1:80".to_string()));
    assert_eq!(lb.upstream_peer(), Ok("10.0.0.1:80".to_string()));
    lb.record_probe_round(&vec![true, true]);
    assert_eq!(lb.backends()[1].health, Health::Healthy);
}

#[test]
fn lb_refuses_duplicates_and_empty_pool_errs() {
    let cfg = HealthCheckConfig::new(1, 3, 1).unwrap();
    assert!(matches!(
        LB::new(vec!["a".to_string(), "a".to_string()], cfg, "h".to_string()),
        Err(PoolError::DuplicateAddress)
    ));
    let cfg = HealthCheckConfig::new(1, 3, 1).unwrap();
    let mut lb = LB::new(vec![], cfg, "h".to_string()).unwrap();
    assert_eq!(lb.upstream_peer(), Err(ProxyError::NoBackendAvailable));
}

#[test]
fn lb_fail_closed_reports_no_backend() {
    let cfg = HealthCheckConfig::new(1, 1, 1).unwrap();
    let mut lb = LB::new(vec!["a:1".to_string()], cfg, "h".to_string()).unwrap();
    lb.set_fail_open(false);
    lb.record_probe_round(&vec![false]);
    assert_eq!(lb.upstream_peer(), Err(ProxyError::NoBackendAvailable));
    lb.set_fail_open(true);
    assert_eq!(lb.upstream_peer(), Ok("a:1".to_string()));
}
