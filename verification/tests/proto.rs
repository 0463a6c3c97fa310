use borehole::proto::{
    from_line, protocol_from_name, protocol_name, to_line, FrameBuffer, FrameStep, Protocol,
};

fn assert_roundtrip(json: &str, expected_type: &str) {
    let line = to_line(json);
    assert!(line.ends_with('\n'), "frame must end with a newline: {line:?}");
    assert!(line.contains(&format!(r#""type":"{expected_type}""#)));
    assert_eq!(from_line(&line), json, "round-trip changed the message");
}

#[test]
fn register_roundtrips() {
    assert_roundtrip(
        r#"{"type":"register","token":"secret","protocol":"tcp","local_port":8080,"remote_port":null,"node":null,"hostname":null}"#,
        "register",
    );
}

#[test]
fn registered_roundtrips() {
    assert_roundtrip(
        r#"{"type":"registered","remote_port":32847,"node_host":"fra1.example.com","node_port":40000}"#,
        "registered",
    );
}

#[test]
fn new_conn_roundtrips() {
    assert_roundtrip(
        r#"{"type":"new_conn","conn_id":"11111111-1111-4111-8111-111111111111","node_host":null,"node_port":null}"#,
        "new_conn",
    );
}

#[test]
fn data_conn_roundtrips() {
    assert_roundtrip(r#"{"type":"data_conn","conn_id":"abc-123"}"#, "data_conn");
}

#[test]
fn visitor_conn_roundtrips() {
    assert_roundtrip(
        r#"{"type":"visitor_conn","tunnel_id":"tunnel-1","conn_id":"abc-123"}"#,
        "visitor_conn",
    );
}

#[test]
fn register_node_roundtrips() {
    assert_roundtrip(
        r#"{"type":"register_node","token":"node-token","name":"frankfurt","data_port":7001}"#,
        "register_node",
    );
}

#[test]
fn node_registered_roundtrips() {
    assert_roundtrip(r#"{"type":"node_registered","node_id":"node-uuid"}"#, "node_registered");
}

#[test]
fn error_roundtrips() {
    assert_roundtrip(r#"{"type":"error","reason":"invalid token"}"#, "error");
}

#[test]
fn open_tunnel_roundtrips() {
    assert_roundtrip(
        r#"{"type":"open_tunnel","tunnel_id":"tunnel-1","remote_port":32847}"#,
        "open_tunnel",
    );
}

#[test]
fn close_tunnel_roundtrips() {
    assert_roundtrip(r#"{"type":"close_tunnel","tunnel_id":"tunnel-1"}"#, "close_tunnel");
}

#[test]
fn protocol_serializes_lowercase() {
    assert_eq!(protocol_name(Protocol::Http), "http");
    assert_eq!(protocol_name(Protocol::Tcp), "tcp");
}

#[test]
fn from_line_tolerates_trailing_newline() {
    let json = from_line("{\"type\":\"data_conn\",\"conn_id\":\"x\"}\n");
    let value: serde_json::Value = serde_json::from_str(json).expect("must parse with trailing newline");
    assert_eq!(value["type"], "data_conn");
}

#[test]
fn from_line_trims_surrounding_whitespace() {
    assert_eq!(from_line("  \t{}\r\n"), "{}");
    assert_eq!(from_line("\u{3000}{}\u{85}"), "{}");
    assert_eq!(from_line(" \n "), "");
}

#[test]
fn protocol_from_name_defaults_to_tcp() {
    assert_eq!(protocol_from_name("http"), Protocol::Http);
    assert_eq!(protocol_from_name("tcp"), Protocol::Tcp);
    assert_eq!(protocol_from_name("HTTP"), Protocol::Tcp);
}

#[test]
fn frame_buffer_splits_frames_at_newline() {
    let mut buf = FrameBuffer::new();
    let mut frames = Vec::new();
    for b in b"ab\ncd" {
        if let FrameStep::Frame(f) = buf.feed(*b) {
            frames.push(f);
        }
    }
    assert_eq!(frames, vec!["ab".to_string()]);
    match buf.finish() {
        FrameStep::Frame(f) => assert_eq!(f, "cd"),
        other => panic!("unexpected {other:?}"),
    }
    let empty = FrameBuffer::new();
    assert!(matches!(empty.finish(), FrameStep::Closed));
}

#[test]
fn framed_message_reads_back_byte_by_byte() {
    let json = r#"{"type":"data_conn","conn_id":"ñ-1"}"#;
    let mut wire = to_line(json).into_bytes();
    wire.extend_from_slice(b"PAYLOAD");
    let mut buf = FrameBuffer::new();
    let mut read = 0;
    let mut frame = None;
    for b in &wire {
        read += 1;
        if let FrameStep::Frame(f) = buf.feed(*b) {
            frame = Some(f);
            break;
        }
    }
    assert_eq!(frame.as_deref(), Some(json));
    assert_eq!(&wire[read..], b"PAYLOAD");
}

#[test]
fn invalid_utf8_in_a_frame_is_replaced() {
    let mut buf = FrameBuffer::new();
    assert!(matches!(buf.feed(0xff), FrameStep::More));
    match buf.feed(b'\n') {
        FrameStep::Frame(f) => assert_eq!(f, "\u{FFFD}"),
        other => panic!("unexpected {other:?}"),
    }
}
