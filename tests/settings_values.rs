use tls_balancer::settings::{join_host_port, GeneralSettings, ServerSettings, Settings, UpstreamSettings};

fn sample() -> Settings {
    Settings {
        general: GeneralSettings {
            log_level: "info".to_string(),
            health_check_interval_secs: 10,
            cert_file: "keys/server.crt".to_string(),
            key_file: "keys/key.pem".to_string(),
        },
        server: ServerSettings { address: "0.0.0.0".to_string(), port: 6188, tls_port: 6189 },
        upstreams: vec![
            ("one".to_string(), UpstreamSettings { address: "127.0.0.1".to_string(), port: 8000 }),
            ("two".to_string(), UpstreamSettings { address: "127.0.0.1".to_string(), port: 8001 }),
        ],
    }
}

#[test]
fn server_addresses_join_host_and_port() {
    let s = sample();
    assert_eq!(s.get_server_addr(), "0.0.0.0:6188");
    assert_eq!(s.get_tls_server_addr(), "0.0.0.0:6189");
}

#[test]
fn upstream_addresses_in_order() {
    assert_eq!(sample().get_upstream_addresses(), vec!["127.0.0.1:8000", "127.0.0.1:8001"]);
}

#[test]
fn plain_getters() {
    let s = sample();
    assert_eq!(s.get_log_level(), "info");
    assert_eq!(s.get_health_check_interval_secs(), 10);
    assert_eq!(s.get_cert_file(), "keys/server.crt");
    assert_eq!(s.get_key_file(), "keys/key.pem");
}

#[test]
fn port_edges() {
    assert_eq!(join_host_port("h", 0), "h:0");
    assert_eq!(join_host_port("h", 9), "h:9");
    assert_eq!(join_host_port("h", 10), "h:10");
    assert_eq!(join_host_port("", 65535), ":65535");
}
