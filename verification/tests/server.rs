use borehole::api::{default_limit, node_rows, ConnectionsQuery, TunnelsQuery};
use borehole::clock::UtcTime;
use borehole::control::{
    assign_port, classify_first_frame, close_tunnel_order, data_conn_id, direct_notice, open_tunnel_order,
    registered_reply, reject_message, token_accepted, visitor_report, FirstFrame, RejectReason,
};
use borehole::devices::Devices;
use borehole::events::{node_connected, node_left, tunnel_closed, tunnel_opened, BhEvent};
use borehole::history::{ConnectionHistory, History, TunnelHistory, MAX_CONNECTIONS, MAX_TUNNELS};
use borehole::nodes::{NodeInfo, NodeManager};
use borehole::port_pool::PortManager;
use borehole::proto::{
    DataConn, ErrorMsg, Message, NewConn, Protocol, Register, RegisterNode, Registered, VisitorConn,
};
use borehole::server_state::ServerState;
use borehole::tunnel_registry::{connection_record, ActiveTunnels, TunnelEntry};

fn at(secs: i64) -> UtcTime {
    UtcTime::from_parts(secs, 0).expect("valid instant")
}

fn register(token: &str, remote_port: Option<u16>, node: Option<&str>, hostname: Option<&str>) -> Register {
    Register {
        token: token.to_string(),
        protocol: Protocol::Http,
        local_port: 8080,
        remote_port,
        node: node.map(str::to_string),
        hostname: hostname.map(str::to_string),
    }
}

fn node_reg(token: &str, name: &str, data_port: u16) -> RegisterNode {
    RegisterNode { token: token.to_string(), name: name.to_string(), data_port }
}

fn tunnel_history(id: &str) -> TunnelHistory {
    TunnelHistory {
        tunnel_id: id.to_string(),
        protocol: "tcp".to_string(),
        local_port: 22,
        remote_port: 30000,
        node: None,
        started_at: "2024-01-01T00:00:00+00:00".to_string(),
        ended_at: "2024-01-01T00:01:00+00:00".to_string(),
        duration_secs: 60,
    }
}

fn conn_history(tunnel: &str, conn: &str) -> ConnectionHistory {
    ConnectionHistory {
        tunnel_id: tunnel.to_string(),
        conn_id: conn.to_string(),
        source_ip: "203.0.113.7".to_string(),
        source_port: 5555,
        connected_at: "2024-01-01T00:00:00+00:00".to_string(),
        duration_secs: 1,
    }
}

// ---- history ----

#[test]
fn history_pages_most_recent_first() {
    let mut h = History::new();
    for i in 0..5 {
        h.record_tunnel(tunnel_history(&format!("t{i}")));
    }
    let ids: Vec<String> = h.tunnels(2, 1).into_iter().map(|t| t.tunnel_id).collect();
    assert_eq!(ids, vec!["t3", "t2"]);
    assert!(h.tunnels(10, 5).is_empty());
    assert_eq!(h.tunnels(10, 0).len(), 5);
}

#[test]
fn history_evicts_oldest_tunnel_at_capacity() {
    let mut h = History::new();
    for i in 0..(MAX_TUNNELS + 3) {
        h.record_tunnel(tunnel_history(&format!("t{i}")));
    }
    let all = h.tunnels(usize::MAX, 0);
    assert_eq!(all.len(), MAX_TUNNELS);
    assert_eq!(all[0].tunnel_id, format!("t{}", MAX_TUNNELS + 2));
    assert_eq!(all[MAX_TUNNELS - 1].tunnel_id, "t3");
}

#[test]
fn history_evicts_oldest_connection_at_capacity() {
    let mut h = History::new();
    for i in 0..(MAX_CONNECTIONS + 1) {
        h.record_connection(conn_history("t", &format!("c{i}")));
    }
    let all = h.connections(None, usize::MAX);
    assert_eq!(all.len(), MAX_CONNECTIONS);
    assert_eq!(all[MAX_CONNECTIONS - 1].conn_id, "c1");
}

#[test]
fn history_filters_connections_by_tunnel() {
    let mut h = History::new();
    h.record_connection(conn_history("a", "1"));
    h.record_connection(conn_history("b", "2"));
    h.record_connection(conn_history("a", "3"));
    h.record_connection(conn_history("a", "4"));
    let ids: Vec<String> = h.connections(Some("a"), 2).into_iter().map(|c| c.conn_id).collect();
    assert_eq!(ids, vec!["4", "3"]);
    let all: Vec<String> = h.connections(None, 10).into_iter().map(|c| c.conn_id).collect();
    assert_eq!(all, vec!["4", "3", "2", "1"]);
    assert!(h.connections(Some("zzz"), 10).is_empty());
    assert!(h.connections(None, 0).is_empty());
}

// ---- api queries ----

#[test]
fn api_queries_default_to_fifty() {
    assert_eq!(default_limit(), 50);
    let q = TunnelsQuery::with_defaults(None, None);
    assert_eq!((q.limit, q.offset), (50, 0));
    let q = TunnelsQuery::with_defaults(Some(5), Some(7));
    assert_eq!((q.limit, q.offset), (5, 7));
    let q = ConnectionsQuery::with_defaults(Some("t".to_string()), None);
    assert_eq!(q.limit, 50);
    assert_eq!(q.tunnel_id.as_deref(), Some("t"));
}

// ---- nodes ----

#[test]
fn node_pick_prefers_least_loaded_with_matching_name() {
    let mut m = NodeManager::new();
    let a = m.register("fra".to_string(), "10.0.0.1".to_string(), 7001);
    let b = m.register("fra".to_string(), "10.0.0.2".to_string(), 7001);
    let c = m.register("ams".to_string(), "10.0.0.3".to_string(), 7001);
    assert_eq!(a.len(), 36);
    m.increment_tunnels(&a);
    let picked = m.pick(Some("fra")).expect("a fra node");
    assert_eq!(picked.node_id, b);
    let picked = m.pick(Some("ams")).expect("the ams node");
    assert_eq!(picked.node_id, c);
    assert!(m.pick(Some("nyc")).is_none());
    m.increment_tunnels(&b);
    m.increment_tunnels(&b);
    let any = m.pick(None).expect("some node");
    assert_eq!(any.tunnel_count, 0);
    assert_eq!(any.node_id, c);
}

#[test]
fn node_counts_saturate_and_removal_forgets() {
    let mut m = NodeManager::new();
    let a = m.register("fra".to_string(), "10.0.0.1".to_string(), 7001);
    m.decrement_tunnels(&a);
    assert_eq!(m.tunnel_count(&a), Some(0));
    m.increment_tunnels(&a);
    assert_eq!(m.tunnel_count(&a), Some(1));
    m.decrement_tunnels("unknown");
    m.increment_tunnels("unknown");
    assert_eq!(m.tunnel_count("unknown"), None);
    assert_eq!(m.list().len(), 1);
    m.remove(&a);
    assert!(m.list().is_empty());
    assert!(m.pick(None).is_none());
}

#[test]
fn node_rows_report_every_node_up() {
    let mut m = NodeManager::new();
    m.register("fra".to_string(), "10.0.0.1".to_string(), 7001);
    m.register("ams".to_string(), "10.0.0.2".to_string(), 7002);
    let rows = node_rows(&m);
    assert_eq!(rows.len(), 2);
    assert_eq!(rows[0].name, "fra");
    assert_eq!(rows[1].data_port, 7002);
    assert!(rows.iter().all(|r| r.status == "up"));
}

// ---- live tunnels ----

fn entry(hostname: Option<&str>, route: Option<(&str, u16)>) -> TunnelEntry {
    TunnelEntry {
        protocol: Protocol::Tcp,
        local_port: 22,
        remote_port: 30001,
        node: route.map(|_| "fra".to_string()),
        hostname: hostname.map(str::to_string),
        started_at: at(1_700_000_000),
        route: route.map(|(h, p)| (h.to_string(), p)),
    }
}

#[test]
fn closing_a_tunnel_archives_it() {
    let mut t = ActiveTunnels::new();
    t.open("t1".to_string(), entry(Some("laptop"), None));
    assert!(t.contains("t1"));
    let h = t.close("t1", &at(1_700_000_090)).expect("was open");
    assert_eq!(h.tunnel_id, "t1");
    assert_eq!(h.protocol, "tcp");
    assert_eq!(h.duration_secs, 90);
    assert_eq!(h.started_at, "2023-11-14T22:13:20+00:00");
    assert_eq!(h.ended_at, "2023-11-14T22:14:50+00:00");
    assert!(!t.contains("t1"));
    assert!(t.close("t1", &at(1_700_000_100)).is_none());
}

#[test]
fn closed_time_before_open_counts_zero_seconds() {
    let mut t = ActiveTunnels::new();
    t.open("t1".to_string(), entry(None, None));
    let h = t.close("t1", &at(1_600_000_000)).expect("was open");
    assert_eq!(h.duration_secs, 0);
}

#[test]
fn visitor_notice_points_at_the_node() {
    let mut t = ActiveTunnels::new();
    t.open("direct".to_string(), entry(None, None));
    t.open("routed".to_string(), entry(None, Some(("10.0.0.9", 7001))));
    let n = t.visitor_notice("routed", "c1").expect("node-routed tunnel");
    assert_eq!(n.conn_id, "c1");
    assert_eq!(n.node_host.as_deref(), Some("10.0.0.9"));
    assert_eq!(n.node_port, Some(7001));
    assert!(t.visitor_notice("direct", "c1").is_none());
    assert!(t.visitor_notice("missing", "c1").is_none());
}

#[test]
fn tunnel_rows_and_host_counts() {
    let mut t = ActiveTunnels::new();
    t.open("a".to_string(), entry(Some("laptop"), None));
    t.open("b".to_string(), entry(Some("laptop"), Some(("h", 1))));
    t.open("c".to_string(), entry(Some("desk"), None));
    t.open("d".to_string(), entry(None, None));
    let rows = t.rows();
    assert_eq!(rows.len(), 4);
    assert_eq!(rows[0].tunnel_id, "a");
    assert_eq!(rows[1].node.as_deref(), Some("fra"));
    assert_eq!(rows[2].device.as_deref(), Some("desk"));
    assert_eq!(rows[0].started_at, "2023-11-14T22:13:20+00:00");
    assert_eq!(t.count_on_host("laptop"), 2);
    assert_eq!(t.count_on_host("desk"), 1);
    assert_eq!(t.count_on_host("nobody"), 0);
}

#[test]
fn connection_record_measures_whole_seconds() {
    let start = UtcTime::from_parts(100, 900_000_000).unwrap();
    let end = UtcTime::from_parts(102, 100_000_000).unwrap();
    let r = connection_record("t", "c", "198.51.100.1".to_string(), 4000, &start, &end);
    assert_eq!(r.duration_secs, 1);
    assert_eq!(r.source_ip, "198.51.100.1");
    assert_eq!(r.connected_at, "1970-01-01T00:01:40.900+00:00");
}

// ---- devices ----

#[test]
fn device_upsert_refreshes_known_hosts() {
    let mut d = Devices::new();
    d.upsert("laptop", at(10));
    d.upsert("desk", at(20));
    d.upsert("laptop", at(30));
    let t = ActiveTunnels::new();
    let rows = d.rows(&t);
    assert_eq!(rows.len(), 2);
    assert_eq!(rows[0].hostname, "laptop");
    assert_eq!(rows[0].last_seen_at, "1970-01-01T00:00:30+00:00");
    assert_eq!(rows[1].hostname, "desk");
    assert_eq!(rows[0].id.len(), 36);
    assert_ne!(rows[0].id, rows[1].id);
}

#[test]
fn device_rows_count_open_tunnels() {
    let mut d = Devices::new();
    d.upsert("laptop", at(10));
    let mut t = ActiveTunnels::new();
    t.open("a".to_string(), entry(Some("laptop"), None));
    t.open("b".to_string(), entry(Some("laptop"), None));
    assert_eq!(d.rows(&t)[0].tunnel_count, 2);
}

// ---- control decisions ----

#[test]
fn first_frame_dispatch() {
    let reg = register("tok", None, None, None);
    assert!(matches!(classify_first_frame(Some(Message::Register(reg))), FirstFrame::Cli(_)));
    let n = node_reg("tok", "fra", 7001);
    assert!(matches!(classify_first_frame(Some(Message::RegisterNode(n))), FirstFrame::Node(_)));
    assert!(matches!(
        classify_first_frame(None),
        FirstFrame::Reject(RejectReason::MalformedFirstMessage)
    ));
    let other = Message::DataConn(DataConn { conn_id: "x".to_string() });
    assert!(matches!(
        classify_first_frame(Some(other)),
        FirstFrame::Reject(RejectReason::ExpectedRegister)
    ));
}

#[test]
fn reject_reasons_read_as_sent() {
    assert_eq!(RejectReason::MalformedFirstMessage.text(), "malformed first message");
    assert_eq!(RejectReason::ExpectedRegister.text(), "expected register or register_node");
    assert_eq!(RejectReason::InvalidToken.text(), "invalid token");
    assert_eq!(RejectReason::NoPortAvailable.text(), "no port available");
    assert_eq!(RejectReason::TunnelPortUnavailable.text(), "failed to open tunnel port");
    match reject_message(RejectReason::InvalidToken) {
        Message::Error(ErrorMsg { reason }) => assert_eq!(reason, "invalid token"),
        other => panic!("unexpected {other:?}"),
    }
}

#[test]
fn token_must_match_exactly() {
    let tokens = vec!["alpha".to_string(), "beta".to_string()];
    assert!(token_accepted(&tokens, "beta"));
    assert!(!token_accepted(&tokens, "Beta"));
    assert!(!token_accepted(&tokens, "bet"));
    assert!(!token_accepted(&Vec::new(), ""));
}

#[test]
fn assign_port_honours_a_request() {
    let mut pool = PortManager::new(30000, 30002);
    assert_eq!(assign_port(&mut pool, Some(30001)), Some(30001));
    assert_eq!(assign_port(&mut pool, Some(30001)), None);
    assert_eq!(assign_port(&mut pool, Some(40000)), None);
    let p = assign_port(&mut pool, None).expect("free port");
    assert!(p == 30000 || p == 30002);
    assert_eq!(pool.available_count(), 1);
}

#[test]
fn replies_and_orders_carry_their_fields() {
    match registered_reply(32847, None) {
        Message::Registered(Registered { remote_port, node_host, node_port }) => {
            assert_eq!(remote_port, 32847);
            assert!(node_host.is_none() && node_port.is_none());
        }
        other => panic!("unexpected {other:?}"),
    }
    let node = NodeInfo {
        node_id: "n".to_string(),
        name: "fra".to_string(),
        host: "fra1.example.com".to_string(),
        data_port: 40000,
        tunnel_count: 0,
    };
    match registered_reply(32847, Some(&node)) {
        Message::Registered(r) => {
            assert_eq!(r.node_host.as_deref(), Some("fra1.example.com"));
            assert_eq!(r.node_port, Some(40000));
        }
        other => panic!("unexpected {other:?}"),
    }
    match direct_notice("c9") {
        Message::NewConn(NewConn { conn_id, node_host, node_port }) => {
            assert_eq!(conn_id, "c9");
            assert!(node_host.is_none() && node_port.is_none());
        }
        other => panic!("unexpected {other:?}"),
    }
    match open_tunnel_order("tunnel-1", 32847) {
        Message::OpenTunnel(o) => assert_eq!((o.tunnel_id.as_str(), o.remote_port), ("tunnel-1", 32847)),
        other => panic!("unexpected {other:?}"),
    }
    match close_tunnel_order("tunnel-1") {
        Message::CloseTunnel(c) => assert_eq!(c.tunnel_id, "tunnel-1"),
        other => panic!("unexpected {other:?}"),
    }
}

#[test]
fn data_and_visitor_frames_are_recognised() {
    let dc = Message::DataConn(DataConn { conn_id: "abc-123".to_string() });
    assert_eq!(data_conn_id(Some(dc)).as_deref(), Some("abc-123"));
    assert!(data_conn_id(None).is_none());
    let vc = Message::VisitorConn(VisitorConn { tunnel_id: "t".to_string(), conn_id: "c".to_string() });
    let v = visitor_report(Some(vc)).expect("a visitor report");
    assert_eq!((v.tunnel_id.as_str(), v.conn_id.as_str()), ("t", "c"));
    assert!(visitor_report(Some(Message::DataConn(DataConn { conn_id: "x".to_string() }))).is_none());
}

// ---- events ----

#[test]
fn events_carry_their_fields() {
    match tunnel_opened("t1", &entry(None, None)) {
        BhEvent::TunnelOpened { tunnel_id, protocol, local_port, remote_port, node, started_at } => {
            assert_eq!(tunnel_id, "t1");
            assert_eq!(protocol, "tcp");
            assert_eq!((local_port, remote_port), (22, 30001));
            assert_eq!(node, "");
            assert_eq!(started_at, "2023-11-14T22:13:20+00:00");
        }
        other => panic!("unexpected {other:?}"),
    }
    assert!(matches!(tunnel_closed("t1"), BhEvent::TunnelClosed { tunnel_id } if tunnel_id == "t1"));
    assert!(matches!(
        node_connected("n1", "fra"),
        BhEvent::NodeConnected { node_id, name } if node_id == "n1" && name == "fra"
    ));
    assert!(matches!(node_left("n1"), BhEvent::NodeLeft { node_id } if node_id == "n1"));
}

// ---- server state ----

#[test]
fn invalid_token_is_refused_without_side_effects() {
    let mut s = ServerState::new(30000, 30001, vec!["good".to_string()]);
    let r = s.admit_cli(&register("bad", None, None, Some("laptop")), at(5));
    assert!(matches!(r, Err(RejectReason::InvalidToken)));
    assert_eq!(s.ports.available_count(), 2);
    assert!(s.devices.rows(&s.tunnels).is_empty());
}

#[test]
fn exhausted_pool_refuses_but_records_device() {
    let mut s = ServerState::new(30000, 30000, vec!["good".to_string()]);
    let first = s.admit_cli(&register("good", None, None, None), at(5)).expect("admitted");
    assert_eq!(first.port, 30000);
    assert_eq!(first.tunnel_id.len(), 36);
    assert!(first.node.is_none());
    let r = s.admit_cli(&register("good", None, None, Some("laptop")), at(6));
    assert!(matches!(r, Err(RejectReason::NoPortAvailable)));
    assert_eq!(s.devices.rows(&s.tunnels).len(), 1);
}

#[test]
fn requested_port_taken_is_refused() {
    let mut s = ServerState::new(30000, 30005, vec!["good".to_string()]);
    let a = s.admit_cli(&register("good", Some(30003), None, None), at(5)).expect("admitted");
    assert_eq!(a.port, 30003);
    let r = s.admit_cli(&register("good", Some(30003), None, None), at(5));
    assert!(matches!(r, Err(RejectReason::NoPortAvailable)));
    let r = s.admit_cli(&register("good", Some(29999), None, None), at(5));
    assert!(matches!(r, Err(RejectReason::NoPortAvailable)));
}

#[test]
fn direct_tunnel_lifecycle_restores_the_pool() {
    let mut s = ServerState::new(30000, 30009, vec!["good".to_string()]);
    let reg = register("good", None, None, Some("laptop"));
    let a = s.admit_cli(&reg, at(100)).expect("admitted");
    assert_eq!(s.ports.available_count(), 9);
    let ev = s.open_tunnel(&a.tunnel_id, &reg, a.port, &a.node, at(100));
    match ev {
        BhEvent::TunnelOpened { node, remote_port, protocol, .. } => {
            assert_eq!(node, "");
            assert_eq!(remote_port, a.port);
            assert_eq!(protocol, "http");
        }
        other => panic!("unexpected {other:?}"),
    }
    assert_eq!(s.tunnels.rows().len(), 1);
    assert_eq!(s.devices.rows(&s.tunnels)[0].tunnel_count, 1);
    let closed = s.close_tunnel(&a.tunnel_id, a.port, &a.node, &at(160));
    assert!(matches!(closed, Some(BhEvent::TunnelClosed { ref tunnel_id }) if *tunnel_id == a.tunnel_id));
    assert_eq!(s.ports.available_count(), 10);
    assert!(s.tunnels.rows().is_empty());
    let archived = s.history.tunnels(10, 0);
    assert_eq!(archived.len(), 1);
    assert_eq!(archived[0].duration_secs, 60);
    assert_eq!(archived[0].remote_port, a.port);
}

#[test]
fn closing_an_unlisted_tunnel_only_frees_the_port() {
    let mut s = ServerState::new(30000, 30000, vec!["good".to_string()]);
    let a = s.admit_cli(&register("good", None, None, None), at(1)).expect("admitted");
    assert_eq!(s.ports.available_count(), 0);
    assert!(s.close_tunnel(&a.tunnel_id, a.port, &None, &at(2)).is_none());
    assert_eq!(s.ports.available_count(), 1);
    assert!(s.history.tunnels(10, 0).is_empty());
}

#[test]
fn node_hosted_tunnel_routes_visitors_and_balances_load() {
    let mut s = ServerState::new(30000, 30009, vec!["good".to_string()]);
    assert!(matches!(
        s.admit_node(&node_reg("bad", "fra", 7001), "10.0.0.1".to_string()),
        Err(RejectReason::InvalidToken)
    ));
    let fra = s.admit_node(&node_reg("good", "fra", 7001), "10.0.0.1".to_string()).expect("node");
    let reg = register("good", None, Some("fra"), None);
    let a = s.admit_cli(&reg, at(1)).expect("admitted");
    let node = a.node.clone().expect("node picked");
    assert_eq!(node.node_id, fra);
    s.open_tunnel(&a.tunnel_id, &reg, a.port, &a.node, at(1));
    assert_eq!(s.nodes.tunnel_count(&fra), Some(1));
    let report = Message::VisitorConn(VisitorConn { tunnel_id: a.tunnel_id.clone(), conn_id: "v1".to_string() });
    let notice = s.route_visitor(Some(report)).expect("routed to the CLI");
    assert_eq!(notice.conn_id, "v1");
    assert_eq!(notice.node_host.as_deref(), Some("10.0.0.1"));
    assert_eq!(notice.node_port, Some(7001));
    assert!(s.route_visitor(None).is_none());
    s.close_tunnel(&a.tunnel_id, a.port, &a.node, &at(2));
    assert_eq!(s.nodes.tunnel_count(&fra), Some(0));
    assert_eq!(s.ports.available_count(), 10);
    s.drop_node(&fra);
    assert!(s.nodes.list().is_empty());
}

#[test]
fn unknown_node_preference_falls_back_to_direct() {
    let mut s = ServerState::new(30000, 30009, vec!["good".to_string()]);
    s.admit_node(&node_reg("good", "fra", 7001), "10.0.0.1".to_string()).expect("node");
    let a = s.admit_cli(&register("good", None, Some("nyc"), None), at(1)).expect("admitted");
    assert!(a.node.is_none());
    let b = s.admit_cli(&register("good", None, None, None), at(1)).expect("admitted");
    assert_eq!(b.node.expect("any node").name, "fra");
}

#[test]
fn refused_port_request_leaves_the_pool() {
    let mut s = ServerState::new(30000, 30002, vec!["good".to_string()]);
    let r = s.admit_cli(&register("good", Some(40000), None, None), at(5));
    assert!(matches!(r, Err(RejectReason::NoPortAvailable)));
    assert_eq!(s.ports.available_count(), 3);
    assert!(s.tunnels.rows().is_empty());
    let a = s.admit_cli(&register("good", Some(30001), None, None), at(5)).expect("admitted");
    assert_eq!(a.port, 30001);
    let r = s.admit_cli(&register("good", Some(30001), None, None), at(5));
    assert!(matches!(r, Err(RejectReason::NoPortAvailable)));
    assert_eq!(s.ports.available_count(), 2);
}

#[test]
fn dropped_node_leaves_the_others_registered() {
    let mut s = ServerState::new(30000, 30009, vec!["good".to_string()]);
    let fra = s.admit_node(&node_reg("good", "fra", 7001), "10.0.0.1".to_string()).expect("node");
    let nyc = s.admit_node(&node_reg("good", "nyc", 7002), "10.0.0.2".to_string()).expect("node");
    assert_ne!(fra, nyc);
    s.drop_node(&fra);
    let left = s.nodes.list();
    assert_eq!(left.len(), 1);
    assert_eq!(left[0].node_id, nyc);
    assert_eq!(s.nodes.tunnel_count(&fra), None);
    s.drop_node(&fra);
    assert_eq!(s.nodes.list().len(), 1);
}
