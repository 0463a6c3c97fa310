use borehole::cli_config::{needs_wizard, CliConfig, ConfigError};
use borehole::client::{
    address_text_of, data_addr_of, data_endpoint, login_url, registration_verdict, should_reconnect,
    visitor_request, AddrError, MAX_RECONNECTS,
};
use borehole::node_agent::{node_order, register_node_message, registration_outcome, visitor_message, NodeOrder, NodeRegistrationError};
use borehole::proto::{
    CloseTunnel, ErrorMsg, Message, NewConn, NodeRegistered, OpenTunnel, Protocol, RegisterNode, Registered,
    VisitorConn,
};
use borehole::server_config::{config_path_from_args, control_host, ServerConfig, TlsConfig, DEFAULT_SERVER_CONFIG};
use borehole::tunnel_records::{
    is_record_file, list_header, list_row, new_record_id, record_path, sort_by_id, text_less_eq, tunnels_dir,
    TunnelRecord, STATE_ACTIVE, STATE_STARTING,
};
use borehole::update::{
    asset_name, check_newer, download_url, latest_release_url, parse_version, repo, strip_v, update_available,
    UpdateError, DEFAULT_REPO,
};

fn cfg(server: Option<&str>, token: Option<&str>) -> CliConfig {
    let mut c = CliConfig::empty();
    c.server_addr = server.map(str::to_string);
    c.token = token.map(str::to_string);
    c
}

// ---- configuration ----

#[test]
fn config_path_lives_in_home() {
    assert_eq!(CliConfig::path(Some("/home/ana")).unwrap(), "/home/ana/.borehole.json");
    assert_eq!(CliConfig::path(Some("/home/ana/")).unwrap(), "/home/ana/.borehole.json");
    assert_eq!(CliConfig::path(None), Err(ConfigError::NoHomeDir));
    assert_eq!(CliConfig::path(Some("")), Err(ConfigError::NoHomeDir));
}

#[test]
fn required_fields_reject_missing_and_empty() {
    let c = cfg(Some("vps:7000"), Some(""));
    assert_eq!(c.require_server_addr().unwrap(), "vps:7000");
    assert_eq!(c.require_token(), Err(ConfigError::NoToken));
    assert_eq!(c.require_server_url(), Err(ConfigError::NoServerUrl));
    assert_eq!(c.require_jwt(), Err(ConfigError::NotAuthenticated));
    assert_eq!(cfg(None, None).require_server_addr(), Err(ConfigError::NoServer));
    assert_eq!(
        ConfigError::NoServer.message(),
        "no server configured; run `borehole config` first"
    );
    assert_eq!(ConfigError::NotAuthenticated.message(), "not authenticated; run `borehole login` first");
}

#[test]
fn jwt_expiry_fails_closed() {
    let mut c = CliConfig::empty();
    assert!(c.jwt_expired_at((0, 0)));
    assert!(c.is_jwt_expired());
    c.jwt_expires_at = Some("not a date".to_string());
    assert!(c.jwt_expired_at((0, 0)));
    assert!(c.is_jwt_expired());
    c.jwt_expires_at = Some("2026-06-08T00:00:00Z".to_string());
    assert!(!c.jwt_expired_at((1_780_876_799, 999_999_999)));
    assert!(c.jwt_expired_at((1_780_876_800, 0)));
    c.jwt_expires_at = Some("2026-06-08T02:00:00+02:00".to_string());
    assert!(c.jwt_expired_at((1_780_876_800, 0)));
    c.jwt_expires_at = Some("9999-01-01T00:00:00Z".to_string());
    assert!(!c.is_jwt_expired());
}

#[test]
fn flags_override_only_what_is_given() {
    let mut c = cfg(Some("old:1"), Some("t0"));
    c.jwt = Some("jwt".to_string());
    c.apply_flags(None, Some("t1".to_string()), Some("https://dash".to_string()));
    assert_eq!(c.server_addr.as_deref(), Some("old:1"));
    assert_eq!(c.token.as_deref(), Some("t1"));
    assert_eq!(c.server_url.as_deref(), Some("https://dash"));
    assert_eq!(c.jwt.as_deref(), Some("jwt"));
    assert!(needs_wizard(&None, &None, &None));
    assert!(!needs_wizard(&None, &None, &Some("u".to_string())));
}

#[test]
fn login_is_recorded() {
    let mut c = cfg(Some("vps:7000"), Some("tok"));
    c.record_login("abc".to_string(), Some("2026-06-08T00:00:00Z".to_string()));
    assert_eq!(c.require_jwt().unwrap(), "abc");
    assert_eq!(c.jwt_expires_at.as_deref(), Some("2026-06-08T00:00:00Z"));
    assert_eq!(c.require_token().unwrap(), "tok");
}

// ---- tunnel client ----

#[test]
fn data_address_is_control_port_plus_one() {
    assert_eq!(data_addr_of("vps.example.com:7000").unwrap(), "vps.example.com:7001");
    assert_eq!(data_addr_of("[::1]:7000").unwrap(), "[::1]:7001");
    assert_eq!(data_addr_of("host:65535").unwrap(), "host:65535");
    assert_eq!(data_addr_of("host"), Err(AddrError::MissingPort));
    assert_eq!(data_addr_of("host:http"), Err(AddrError::InvalidPort));
    assert_eq!(data_addr_of("host:70000"), Err(AddrError::InvalidPort));
    assert_eq!(AddrError::MissingPort.message(), "server address must be host:port");
    assert_eq!(AddrError::InvalidPort.message(), "invalid server port");
}

#[test]
fn data_endpoint_prefers_the_node() {
    let node = Some(("fra1.example.com".to_string(), 40000));
    assert_eq!(data_endpoint("vps:7000", &node).unwrap(), "fra1.example.com:40000");
    assert_eq!(data_endpoint("vps:7000", &None).unwrap(), "vps:7001");
    assert_eq!(address_text_of("h", 0), "h:0");
}

#[test]
fn registration_verdicts() {
    let ok = Message::Registered(Registered { remote_port: 32847, node_host: None, node_port: None });
    assert_eq!(registration_verdict(ok), Ok(32847));
    let err = Message::Error(ErrorMsg { reason: "invalid token".to_string() });
    assert_eq!(registration_verdict(err), Err("invalid token".to_string()));
    let other = Message::CloseTunnel(CloseTunnel { tunnel_id: "t".to_string() });
    assert_eq!(registration_verdict(other), Err("unexpected message from server".to_string()));
}

#[test]
fn visitor_requests_need_both_node_parts() {
    let full = Message::NewConn(NewConn {
        conn_id: "c".to_string(),
        node_host: Some("h".to_string()),
        node_port: Some(9),
    });
    let v = visitor_request(full).expect("a visitor");
    assert_eq!(v.conn_id, "c");
    assert_eq!(v.node, Some(("h".to_string(), 9)));
    let half = Message::NewConn(NewConn { conn_id: "c".to_string(), node_host: Some("h".to_string()), node_port: None });
    assert_eq!(visitor_request(half).expect("a visitor").node, None);
    let other = Message::Error(ErrorMsg { reason: "x".to_string() });
    assert!(visitor_request(other).is_none());
}

#[test]
fn reconnects_three_times() {
    assert_eq!(MAX_RECONNECTS, 3);
    assert!(should_reconnect(0));
    assert!(should_reconnect(2));
    assert!(!should_reconnect(3));
}

#[test]
fn login_url_trims_trailing_slashes() {
    assert_eq!(
        login_url("https://dash.example.com//", 4321),
        "https://dash.example.com/api/auth/cli?callback=http://localhost:4321"
    );
    assert_eq!(login_url("http://x", 1), "http://x/api/auth/cli?callback=http://localhost:1");
}

// ---- node agent ----

#[test]
fn node_registration_outcomes() {
    let ok = Message::NodeRegistered(NodeRegistered { node_id: "node-uuid".to_string() });
    assert_eq!(registration_outcome(ok).unwrap(), "node-uuid");
    let err = Message::Error(ErrorMsg { reason: "invalid token".to_string() });
    assert!(matches!(registration_outcome(err), Err(NodeRegistrationError::Rejected(r)) if r == "invalid token"));
    let other = Message::DataConn(borehole::proto::DataConn { conn_id: "x".to_string() });
    assert!(matches!(registration_outcome(other), Err(NodeRegistrationError::Unexpected)));
}

#[test]
fn node_orders() {
    let open = Message::OpenTunnel(OpenTunnel { tunnel_id: "tunnel-1".to_string(), remote_port: 32847 });
    assert!(matches!(node_order(Some(open)), NodeOrder::Open { tunnel_id, remote_port: 32847 } if tunnel_id == "tunnel-1"));
    let close = Message::CloseTunnel(CloseTunnel { tunnel_id: "tunnel-1".to_string() });
    assert!(matches!(node_order(Some(close)), NodeOrder::Close { tunnel_id } if tunnel_id == "tunnel-1"));
    assert!(matches!(node_order(None), NodeOrder::Ignore));
    match register_node_message("node-token".to_string(), "frankfurt".to_string(), 7001) {
        Message::RegisterNode(RegisterNode { token, name, data_port }) => {
            assert_eq!((token.as_str(), name.as_str(), data_port), ("node-token", "frankfurt", 7001));
        }
        other => panic!("unexpected {other:?}"),
    }
    match visitor_message("tunnel-1".to_string(), "abc-123".to_string()) {
        Message::VisitorConn(VisitorConn { tunnel_id, conn_id }) => {
            assert_eq!((tunnel_id.as_str(), conn_id.as_str()), ("tunnel-1", "abc-123"));
        }
        other => panic!("unexpected {other:?}"),
    }
}

// ---- server configuration ----

fn server_config(bind: &str) -> ServerConfig {
    ServerConfig {
        bind_control: bind.to_string(),
        bind_http: "0.0.0.0:80".to_string(),
        port_range: [30000, 40000],
        tokens: vec![],
        jwt_secret: "s".to_string(),
        users: vec![],
        tls: TlsConfig { cert: "c.pem".to_string(), key: "k.pem".to_string() },
    }
}

#[test]
fn data_port_follows_control_port() {
    assert_eq!(server_config("0.0.0.0:7000").data_port(), 7001);
    assert_eq!(server_config("0.0.0.0:65535").data_port(), 65535);
    assert_eq!(server_config("0.0.0.0").data_port(), 0);
    assert_eq!(server_config("0.0.0.0:x").data_port(), 0);
    assert_eq!(control_host("0.0.0.0:7000"), "0.0.0.0");
    assert_eq!(control_host("[::]:7000"), "[::]");
    assert_eq!(control_host("localhost"), "localhost");
}

#[test]
fn config_path_from_arguments() {
    let args = |v: &[&str]| v.iter().map(|s| s.to_string()).collect::<Vec<String>>();
    assert_eq!(config_path_from_args(&args(&["--config", "/tmp/c.json"]), DEFAULT_SERVER_CONFIG), "/tmp/c.json");
    assert_eq!(config_path_from_args(&args(&["-v", "--config", "a", "--config", "b"]), "d"), "a");
    assert_eq!(config_path_from_args(&args(&["--config"]), "d"), "d");
    assert_eq!(config_path_from_args(&args(&[]), DEFAULT_SERVER_CONFIG), "/etc/borehole/config.json");
}

// ---- background tunnel records ----

#[test]
fn record_lifecycle() {
    let mut r = TunnelRecord::starting("ab12cd34".to_string(), Protocol::Http, 8080, None, Some("fra".to_string()));
    assert_eq!((r.pid, r.protocol.as_str(), r.state.as_str()), (0, "http", STATE_STARTING));
    r.begin_worker(4242);
    assert_eq!((r.pid, r.state.as_str()), (4242, "starting"));
    r.mark_active(32847);
    assert_eq!((r.remote_port, r.state.as_str()), (Some(32847), STATE_ACTIVE));
    assert_eq!(r.node.as_deref(), Some("fra"));
}

#[test]
fn record_ids_and_paths() {
    let id = new_record_id();
    assert_eq!(id.len(), 8);
    assert!(id.chars().all(|c| c.is_ascii_hexdigit()));
    assert_ne!(new_record_id(), new_record_id());
    assert_eq!(tunnels_dir("/home/ana"), "/home/ana/.borehole/tunnels");
    assert_eq!(record_path("/d", "ab12cd34"), "/d/ab12cd34.json");
    assert!(is_record_file("ab12cd34.json"));
    assert!(!is_record_file("ab12cd34.json.tmp"));
    assert!(!is_record_file(".json"));
    assert!(!is_record_file("json"));
    assert!(is_record_file("a.b.json"));
}

#[test]
fn records_sort_by_id() {
    let mk = |id: &str| TunnelRecord::starting(id.to_string(), Protocol::Tcp, 22, None, None);
    let sorted = sort_by_id(vec![mk("c"), mk("a"), mk("b"), mk("aa")]);
    let ids: Vec<&str> = sorted.iter().map(|r| r.id.as_str()).collect();
    assert_eq!(ids, vec!["a", "aa", "b", "c"]);
    assert!(text_less_eq("a", "ab"));
    assert!(text_less_eq("ab", "ab"));
    assert!(!text_less_eq("b", "ab"));
    assert!(text_less_eq("B", "a"));
}

#[test]
fn list_table_lines() {
    assert_eq!(list_header(), format!("{:<11} {:<6} {:<8} {:<8} ESTADO", "ID", "PROTO", "LOCAL", "REMOTO"));
    let mut r = TunnelRecord::starting("ab12cd34".to_string(), Protocol::Tcp, 22, None, None);
    assert_eq!(list_row(&r), format!("{:<11} {:<6} {:<8} {:<8} {}", "ab12cd34", "tcp", ":22", "-", "starting"));
    r.mark_active(32847);
    assert_eq!(list_row(&r), format!("{:<11} {:<6} {:<8} {:<8} {}", "ab12cd34", "tcp", ":22", ":32847", "active"));
}

// ---- self-update ----

#[test]
fn versions_tolerate_leading_v() {
    assert_eq!(strip_v("v0.1.2"), "0.1.2");
    assert_eq!(strip_v("vv1.0.0"), "1.0.0");
    assert_eq!(strip_v("1.0.0"), "1.0.0");
    assert!(parse_version("v1.2.3").is_ok());
    assert!(matches!(parse_version("banana"), Err(UpdateError::InvalidVersion(s)) if s == "banana"));
}

#[test]
fn newer_release_is_reported() {
    assert_eq!(check_newer("0.1.2", "v0.1.3").unwrap(), Some("0.1.3".to_string()));
    assert_eq!(check_newer("0.1.2", "v0.1.2").unwrap(), None);
    assert_eq!(check_newer("0.2.0", "v0.1.9").unwrap(), None);
    assert_eq!(check_newer("1.0.0-beta", "v1.0.0").unwrap(), Some("1.0.0".to_string()));
    assert!(matches!(check_newer("x", "v1.0.0"), Err(UpdateError::InvalidVersion(s)) if s == "x"));
    assert!(matches!(check_newer("1.0.0", "latest"), Err(UpdateError::InvalidVersion(s)) if s == "latest"));
    let a = parse_version("1.0.0").unwrap();
    let b = parse_version("1.0.1").unwrap();
    assert!(update_available(&a, &b));
    assert!(!update_available(&b, &a));
    assert!(!update_available(&a, &a));
}

#[test]
fn release_assets_and_urls() {
    assert_eq!(asset_name("linux", "x86_64").unwrap(), "borehole-x86_64-unknown-linux-musl");
    assert_eq!(asset_name("macos", "aarch64").unwrap(), "borehole-aarch64-apple-darwin");
    assert_eq!(asset_name("macos", "x86_64").unwrap(), "borehole-x86_64-apple-darwin");
    assert_eq!(asset_name("windows", "x86_64").unwrap(), "borehole-x86_64-pc-windows-msvc.exe");
    assert!(matches!(asset_name("linux", "aarch64"), Err(UpdateError::NoPrebuiltBinary)));
    assert_eq!(repo(None), DEFAULT_REPO);
    assert_eq!(repo(Some("")), "llinguini/borehole");
    assert_eq!(repo(Some("me/fork")), "me/fork");
    assert_eq!(latest_release_url("o/r"), "https://api.github.com/repos/o/r/releases/latest");
    assert_eq!(
        download_url("o/r", "v1.0.0", "a.exe"),
        "https://github.com/o/r/releases/download/v1.0.0/a.exe"
    );
}

#[test]
fn client_dials_the_port_the_server_listens_on() {
    for bind in ["0.0.0.0:7000", "vps:1", "[::1]:65535"] {
        let client = data_addr_of(bind).unwrap();
        let port: u16 = client.rsplit_once(':').unwrap().1.parse().unwrap();
        assert_eq!(port, server_config(bind).data_port());
    }
}
