use borehole::nodes::NodeInfo;
use borehole::proto::Message;
use borehole::tunnel_session::{SessionAction, SessionEvent, Stage, TunnelSession};

fn frankfurt() -> NodeInfo {
    NodeInfo {
        node_id: "node-1".to_string(),
        name: "frankfurt".to_string(),
        host: "10.0.0.7".to_string(),
        data_port: 7001,
        tunnel_count: 0,
    }
}

#[test]
fn direct_session_records_after_registered_and_forgets_unnotified_visitor() {
    let s = TunnelSession::start("t-1".to_string(), 20001, None);
    assert!(matches!(s.stage, Stage::BindPort));
    assert!(matches!(s.action(), SessionAction::BindPort(20001)));

    let s = s.step(SessionEvent::Done(true));
    match s.action() {
        SessionAction::SendToCli(Message::Registered(r)) => {
            assert_eq!(r.remote_port, 20001);
            assert_eq!(r.node_host, None);
            assert_eq!(r.node_port, None);
        }
        other => panic!("unexpected action {other:?}"),
    }

    let s = s.step(SessionEvent::Done(true));
    assert!(matches!(s.action(), SessionAction::Record(None)));

    let s = s.step(SessionEvent::Done(true));
    assert!(matches!(s.action(), SessionAction::AwaitVisitor));

    // A line from the CLI changes nothing.
    let s = s.step(SessionEvent::Done(true));
    assert!(matches!(s.action(), SessionAction::AwaitVisitor));

    let s = s.step(SessionEvent::Visitor("c-1".to_string()));
    match s.action() {
        SessionAction::ExpectData(c) => assert_eq!(c, "c-1"),
        other => panic!("unexpected action {other:?}"),
    }

    let s = s.step(SessionEvent::Done(true));
    match s.action() {
        SessionAction::SendToCli(Message::NewConn(n)) => {
            assert_eq!(n.conn_id, "c-1");
            assert_eq!(n.node_host, None);
            assert_eq!(n.node_port, None);
        }
        other => panic!("unexpected action {other:?}"),
    }

    let s = s.step(SessionEvent::Done(false));
    match s.action() {
        SessionAction::ForgetPending(c) => assert_eq!(c, "c-1"),
        other => panic!("unexpected action {other:?}"),
    }

    let s = s.step(SessionEvent::Done(true));
    assert!(matches!(s.action(), SessionAction::Retire(None)));

    let s = s.step(SessionEvent::Done(true));
    assert!(matches!(s.action(), SessionAction::Finish));
    let s = s.step(SessionEvent::Ended);
    assert!(matches!(s.action(), SessionAction::Finish));
}

#[test]
fn direct_session_serves_notified_visitor_and_retires_on_end() {
    let s = TunnelSession::start("t-2".to_string(), 20002, None);
    let s = s.step(SessionEvent::Done(true));
    let s = s.step(SessionEvent::Done(true));
    let s = s.step(SessionEvent::Done(true));
    let s = s.step(SessionEvent::Visitor("c-2".to_string()));
    let s = s.step(SessionEvent::Done(true));
    let s = s.step(SessionEvent::Done(true));
    match s.action() {
        SessionAction::ServeVisitor(c) => assert_eq!(c, "c-2"),
        other => panic!("unexpected action {other:?}"),
    }
    let s = s.step(SessionEvent::Done(true));
    assert!(matches!(s.action(), SessionAction::AwaitVisitor));
    let s = s.step(SessionEvent::Ended);
    assert!(matches!(s.action(), SessionAction::Retire(None)));
}

#[test]
fn unsent_registered_retires_without_recording() {
    let s = TunnelSession::start("t-3".to_string(), 20003, None);
    let s = s.step(SessionEvent::Done(true));
    let s = s.step(SessionEvent::Done(false));
    assert!(matches!(s.action(), SessionAction::Retire(None)));
}

#[test]
fn unbindable_port_is_reported_then_retired() {
    let s = TunnelSession::start("t-4".to_string(), 20004, None);
    let s = s.step(SessionEvent::Done(false));
    match s.action() {
        SessionAction::SendToCli(Message::Error(e)) => assert_eq!(e.reason, "failed to open tunnel port"),
        other => panic!("unexpected action {other:?}"),
    }
    let s = s.step(SessionEvent::Done(false));
    assert!(matches!(s.action(), SessionAction::Retire(None)));
}

#[test]
fn node_session_orders_records_and_closes_on_node() {
    let s = TunnelSession::start("t-5".to_string(), 20005, Some(frankfurt()));
    match s.action() {
        SessionAction::SendToNode(Message::OpenTunnel(o)) => {
            assert_eq!(o.tunnel_id, "t-5");
            assert_eq!(o.remote_port, 20005);
        }
        other => panic!("unexpected action {other:?}"),
    }

    let s = s.step(SessionEvent::Done(true));
    match s.action() {
        SessionAction::Record(Some(n)) => assert_eq!(n.node_id, "node-1"),
        other => panic!("unexpected action {other:?}"),
    }

    let s = s.step(SessionEvent::Done(true));
    match s.action() {
        SessionAction::SendToCli(Message::Registered(r)) => {
            assert_eq!(r.remote_port, 20005);
            assert_eq!(r.node_host.as_deref(), Some("10.0.0.7"));
            assert_eq!(r.node_port, Some(7001));
        }
        other => panic!("unexpected action {other:?}"),
    }

    // A failed `Registered` send does not undo the node's tunnel.
    let s = s.step(SessionEvent::Done(false));
    assert!(matches!(s.action(), SessionAction::AwaitEnd));
    let s = s.step(SessionEvent::Done(true));
    assert!(matches!(s.action(), SessionAction::AwaitEnd));

    let s = s.step(SessionEvent::Ended);
    match s.action() {
        SessionAction::SendToNode(Message::CloseTunnel(c)) => assert_eq!(c.tunnel_id, "t-5"),
        other => panic!("unexpected action {other:?}"),
    }

    let s = s.step(SessionEvent::Done(false));
    match s.action() {
        SessionAction::Retire(Some(n)) => assert_eq!(n.node_id, "node-1"),
        other => panic!("unexpected action {other:?}"),
    }
}

#[test]
fn unreachable_node_falls_back_to_direct_without_node_load() {
    let s = TunnelSession::start("t-6".to_string(), 20006, Some(frankfurt()));
    let s = s.step(SessionEvent::Done(false));
    assert!(!s.via_node);
    assert!(matches!(s.action(), SessionAction::BindPort(20006)));

    let s = s.step(SessionEvent::Done(true));
    match s.action() {
        SessionAction::SendToCli(Message::Registered(r)) => {
            assert_eq!(r.node_host, None);
            assert_eq!(r.node_port, None);
        }
        other => panic!("unexpected action {other:?}"),
    }
    let s = s.step(SessionEvent::Done(true));
    assert!(matches!(s.action(), SessionAction::Record(None)));
    let s = s.step(SessionEvent::Done(true));
    let s = s.step(SessionEvent::Ended);
    assert!(matches!(s.action(), SessionAction::Retire(None)));
}
