//! The control protocol: one newline-terminated JSON object per frame, every
//! message wrapped in the `Message` envelope whose `"type"` field names the
//! variant. The JSON text itself is produced and read by serde outside this
//! crate; here live the message types, the framing and the decisions taken on
//! each message.

use vstd::prelude::*;
use vstd::utf8::{
    encode_scalar, encode_utf8, has_width_1_encoding, has_width_2_encoding, has_width_3_encoding,
    last_continuation_byte, leading_byte_width_1, leading_byte_width_2, leading_byte_width_3, leading_byte_width_4,
    second_last_continuation_byte, third_last_continuation_byte,
};

use crate::callback::{lossy_text, string_from_utf8_lossy};
use crate::text::{is_ws, leading_ws, trailing_ws, trim, trimmed};

verus! {

/// Tunnel protocol requested by the CLI.
#[derive(Debug, Clone, Copy, PartialEq, Eq, Structural)]
pub enum Protocol {
    Tcp,
    Http,
}

/// Wire name of a protocol.
pub open spec fn protocol_text(p: Protocol) -> Seq<char> {
    match p {
        Protocol::Tcp => seq!['t', 'c', 'p'],
        Protocol::Http => seq!['h', 't', 't', 'p'],
    }
}

/// Wire name of a protocol (`"tcp"`/`"http"`).
pub fn protocol_name(protocol: Protocol) -> (r: &'static str)
    ensures
        r@ == protocol_text(protocol),
{
    proof {
        reveal_strlit("tcp");
        reveal_strlit("http");
    }
    match protocol {
        Protocol::Tcp => "tcp",
        Protocol::Http => "http",
    }
}

/// The protocol a stored record names: `"http"` is HTTP, anything else TCP.
pub fn protocol_from_name(name: &str) -> (r: Protocol)
    ensures
        r == (if name@ == protocol_text(Protocol::Http) {
            Protocol::Http
        } else {
            Protocol::Tcp
        }),
{
    proof {
        reveal_strlit("http");
    }
    assert("http"@ =~= protocol_text(Protocol::Http));
    if crate::text::same_text(name, "http") {
        Protocol::Http
    } else {
        Protocol::Tcp
    }
}

/// Sent by the CLI to the server to open a tunnel.
#[derive(Debug, Clone)]
pub struct Register {
    pub token: String,
    pub protocol: Protocol,
    pub local_port: u16,
    /// `None` lets the server assign a port from its pool.
    pub remote_port: Option<u16>,
    /// Preferred edge node name; `None` lets the server pick.
    pub node: Option<String>,
    /// CLI host machine name, so the server can track devices.
    pub hostname: Option<String>,
}

/// Server reply after a successful `Register`.
#[derive(Debug, Clone)]
pub struct Registered {
    pub remote_port: u16,
    /// Populated when the tunnel is hosted on a node.
    pub node_host: Option<String>,
    pub node_port: Option<u16>,
}

/// Server -> CLI: an external connection arrived; open a data connection.
#[derive(Debug, Clone)]
pub struct NewConn {
    /// UUID v4 identifying the incoming connection.
    pub conn_id: String,
    /// Which node to open the `DataConn` against; `None` means the server.
    pub node_host: Option<String>,
    pub node_port: Option<u16>,
}

/// CLI -> server: a second TCP connection identifying which `conn_id` it serves.
#[derive(Debug, Clone)]
pub struct DataConn {
    pub conn_id: String,
}

/// Node -> server: a visitor reached the public port.
#[derive(Debug, Clone)]
pub struct VisitorConn {
    pub tunnel_id: String,
    pub conn_id: String,
}

/// Node registration request to the server.
#[derive(Debug, Clone)]
pub struct RegisterNode {
    pub token: String,
    /// Node name, e.g. "frankfurt".
    pub name: String,
    /// Plain-TCP port where the node accepts `DataConn` connections from CLIs.
    pub data_port: u16,
}

/// Server reply to a `RegisterNode`.
#[derive(Debug, Clone)]
pub struct NodeRegistered {
    pub node_id: String,
}

/// Server -> node: open a public tunnel listener for `tunnel_id` on `remote_port`.
#[derive(Debug, Clone)]
pub struct OpenTunnel {
    pub tunnel_id: String,
    pub remote_port: u16,
}

/// Server -> node: tear down `tunnel_id`.
#[derive(Debug, Clone)]
pub struct CloseTunnel {
    pub tunnel_id: String,
}

/// Generic error, server -> client.
#[derive(Debug, Clone)]
pub struct ErrorMsg {
    pub reason: String,
}

/// Envelope wrapping every message exchanged on the control channel.
#[derive(Debug, Clone)]
pub enum Message {
    Register(Register),
    Registered(Registered),
    NewConn(NewConn),
    DataConn(DataConn),
    VisitorConn(VisitorConn),
    RegisterNode(RegisterNode),
    NodeRegistered(NodeRegistered),
    OpenTunnel(OpenTunnel),
    CloseTunnel(CloseTunnel),
    Error(ErrorMsg),
}

/// Frames one serialized message: the JSON text followed by `'\n'`.
pub fn to_line(json: &str) -> (line: String)
    ensures
        line@ == json@.push('\n'),
{
    proof {
        reveal_strlit("\n");
    }
    let mut line = String::from_str(json);
    line.append("\n");
    line
}

/// The JSON payload of a received frame: the frame without the trailing
/// newline or any other surrounding whitespace.
pub fn from_line(line: &str) -> (json: &str)
    ensures
        json@ == trimmed(line@),
{
    trim(line)
}

/// Collects one frame byte by byte, so that nothing after the frame's `'\n'`
/// is consumed from the connection.
pub struct FrameBuffer {
    buf: Vec<u8>,
}

/// What reading one more byte (or the end of the stream) gives.
#[derive(Debug, Clone)]
pub enum FrameStep {
    /// The frame is not complete yet.
    More,
    /// The frame, decoded (invalid UTF-8 replaced), without its `'\n'`.
    Frame(String),
    /// The stream ended before any byte of a frame.
    Closed,
}

impl FrameBuffer {
    /// The bytes of the frame read so far.
    pub closed spec fn pending(&self) -> Seq<u8> {
        self.buf@
    }

    /// An empty buffer.
    pub fn new() -> (f: Self)
        ensures
            f.pending() == Seq::<u8>::empty(),
    {
        FrameBuffer { buf: Vec::new() }
    }

    /// Takes one byte: a `'\n'` completes the frame (and empties the buffer),
    /// any other byte is kept.
    pub fn feed(&mut self, byte: u8) -> (r: FrameStep)
        ensures
            byte == 0x0a ==> final(self).pending() == Seq::<u8>::empty() && (r matches FrameStep::Frame(t)
                && t@ == lossy_text(old(self).pending())),
            byte != 0x0a ==> final(self).pending() == old(self).pending().push(byte) && (r matches FrameStep::More),
    {
        if byte == 0x0a {
            let line = string_from_utf8_lossy(self.buf.as_slice());
            self.buf = Vec::new();
            FrameStep::Frame(line)
        } else {
            self.buf.push(byte);
            FrameStep::More
        }
    }

    /// The stream ended: what was read so far is the last frame, or the
    /// stream closed cleanly when nothing was read.
    pub fn finish(&self) -> (r: FrameStep)
        ensures
            self.pending().len() == 0 ==> (r matches FrameStep::Closed),
            self.pending().len() > 0 ==> (r matches FrameStep::Frame(t) && t@ == lossy_text(self.pending())),
    {
        if self.buf.len() == 0 {
            FrameStep::Closed
        } else {
            FrameStep::Frame(string_from_utf8_lossy(self.buf.as_slice()))
        }
    }
}

/// A text that neither starts nor ends with whitespace (as compact JSON).
pub open spec fn unpadded(s: Seq<char>) -> bool {
    s.len() == 0 || (!is_ws(s[0]) && !is_ws(s[s.len() - 1]))
}

/// Framing then unframing gives back the payload: what `to_line` writes,
/// `from_line` reads as the same JSON text, whenever that text has no
/// surrounding whitespace (serialized JSON has none).
pub proof fn law_frame_roundtrip(json: Seq<char>)
    requires
        unpadded(json),
    ensures
        trimmed(json.push('\n')) == json,
{
    let line = json.push('\n');
    assert(is_ws('\n'));
    if json.len() == 0 {
        assert(line.len() == 1 && line[0] == '\n');
        assert(leading_ws(line.subrange(1, 1)) == 0);
        assert(leading_ws(line) == 1);
        assert(trimmed(line) =~= json);
    } else {
        assert(line[0] == json[0]);
        assert(leading_ws(line) == 0);
        assert(line.subrange(0, line.len() - 1) =~= json);
        assert(trailing_ws(json) == 0);
        assert(trailing_ws(line) == 1);
        assert(trimmed(line) =~= json);
    }
}

/// The frame that a reader holding `pending` completes from `bytes`, fed to
/// it one by one as `FrameBuffer::feed` takes them: the text of everything
/// before the first newline; `None` when no newline comes.
pub open spec fn frame_read(pending: Seq<u8>, bytes: Seq<u8>) -> Option<Seq<char>>
    decreases bytes.len(),
{
    if bytes.len() == 0 {
        None
    } else if bytes[0] == 0x0a {
        Some(lossy_text(pending))
    } else {
        frame_read(pending.push(bytes[0]), bytes.subrange(1, bytes.len() as int))
    }
}

/// UTF-8 encoding of a concatenation is the concatenation of the encodings.
proof fn lemma_encode_utf8_append(a: Seq<char>, b: Seq<char>)
    ensures
        encode_utf8(a + b) == encode_utf8(a) + encode_utf8(b),
    decreases a.len(),
{
    if a.len() == 0 {
        assert(a + b =~= b);
    } else {
        assert((a + b).drop_first() =~= a.drop_first() + b);
        assert((a + b)[0] == a[0]);
        lemma_encode_utf8_append(a.drop_first(), b);
    }
}

/// Only the newline character encodes to a newline byte.
proof fn lemma_scalar_no_newline(c: char)
    requires
        c != '\n',
    ensures
        forall|k: int| 0 <= k < encode_scalar(c as u32).len() ==> #[trigger] encode_scalar(c as u32)[k] != 0x0au8,
{
    let s = c as u32;
    assert(s != 10);
    if has_width_1_encoding(s) {
        assert(s <= 0x7f && s != 10 ==> leading_byte_width_1(s) != 0x0au8) by (bit_vector);
    } else if has_width_2_encoding(s) {
        assert(leading_byte_width_2(s) != 0x0au8) by (bit_vector);
        assert(last_continuation_byte(s) != 0x0au8) by (bit_vector);
    } else if has_width_3_encoding(s) {
        assert(leading_byte_width_3(s) != 0x0au8) by (bit_vector);
        assert(second_last_continuation_byte(s) != 0x0au8) by (bit_vector);
        assert(last_continuation_byte(s) != 0x0au8) by (bit_vector);
    } else {
        assert(leading_byte_width_4(s) != 0x0au8) by (bit_vector);
        assert(third_last_continuation_byte(s) != 0x0au8) by (bit_vector);
        assert(second_last_continuation_byte(s) != 0x0au8) by (bit_vector);
        assert(last_continuation_byte(s) != 0x0au8) by (bit_vector);
    }
}

/// A text without newlines encodes to bytes without newline bytes.
proof fn lemma_text_no_newline_byte(t: Seq<char>)
    requires
        !t.contains('\n'),
    ensures
        forall|k: int| 0 <= k < encode_utf8(t).len() ==> #[trigger] encode_utf8(t)[k] != 0x0au8,
    decreases t.len(),
{
    if t.len() > 0 {
        let head = encode_scalar(t[0] as u32);
        let rest = t.drop_first();
        assert(!rest.contains('\n')) by {
            if rest.contains('\n') {
                let j = choose|j: int| 0 <= j < rest.len() && rest[j] == '\n';
                assert(t[j + 1] == '\n');
            }
        }
        assert(t[0] != '\n') by {
            if t[0] == '\n' {
                assert(t.contains('\n'));
            }
        }
        lemma_scalar_no_newline(t[0]);
        lemma_text_no_newline_byte(rest);
        assert(encode_utf8(t) == head + encode_utf8(rest));
        assert forall|k: int| 0 <= k < encode_utf8(t).len() implies #[trigger] encode_utf8(t)[k] != 0x0au8 by {
            if k >= head.len() {
                assert(encode_utf8(t)[k] == encode_utf8(rest)[k - head.len()]);
            } else {
                assert(encode_utf8(t)[k] == head[k]);
            }
        }
    }
}

/// Reading bytes with no newline, then a newline, completes the frame of all
/// the bytes read, whatever follows.
proof fn lemma_frame_read_through(pending: Seq<u8>, bytes: Seq<u8>, after: Seq<u8>)
    requires
        forall|k: int| 0 <= k < bytes.len() ==> #[trigger] bytes[k] != 0x0au8,
    ensures
        frame_read(pending, bytes + seq![0x0au8] + after) == Some(lossy_text(pending + bytes)),
    decreases bytes.len(),
{
    let all = bytes + seq![0x0au8] + after;
    if bytes.len() == 0 {
        assert(all[0] == 0x0au8);
        assert(pending + bytes =~= pending);
    } else {
        let rest = bytes.subrange(1, bytes.len() as int);
        assert(all[0] == bytes[0]);
        assert(all.subrange(1, all.len() as int) =~= rest + seq![0x0au8] + after);
        assert forall|k: int| 0 <= k < rest.len() implies #[trigger] rest[k] != 0x0au8 by {
            assert(rest[k] == bytes[k + 1]);
        }
        lemma_frame_read_through(pending.push(bytes[0]), rest, after);
        assert(pending.push(bytes[0]) + rest =~= pending + bytes);
    }
}

/// What a peer frames with `to_line`, a reader feeding the bytes to a fresh
/// `FrameBuffer` one by one gets back whole: for a payload without newlines
/// (serialized JSON has none), the frame read is the payload itself, and the
/// bytes after the frame's newline play no part.
pub proof fn law_frame_read_back(json: Seq<char>, after: Seq<u8>)
    requires
        !json.contains('\n'),
    ensures
        frame_read(Seq::empty(), encode_utf8(json.push('\n')) + after) == Some(json),
{
    lemma_encode_utf8_append(json, seq!['\n']);
    assert(json.push('\n') =~= json + seq!['\n']);
    assert(encode_utf8(seq!['\n']) =~= seq![0x0au8]) by {
        assert(seq!['\n'].drop_first() =~= Seq::<char>::empty());
        assert(('\n' as u32) == 10);
        assert(has_width_1_encoding(10u32));
        assert(leading_byte_width_1(10u32) == 0x0au8) by (bit_vector);
        assert(encode_scalar(10u32) =~= seq![0x0au8]);
        let nl = seq!['\n'];
        assert(nl.len() == 1 && nl[0] == '\n');
        assert(encode_utf8(nl.drop_first()) =~= Seq::<u8>::empty());
        assert(encode_utf8(nl) == encode_scalar(nl[0] as u32) + encode_utf8(nl.drop_first()));
    }
    lemma_text_no_newline_byte(json);
    lemma_frame_read_through(Seq::empty(), encode_utf8(json), after);
    assert(Seq::<u8>::empty() + encode_utf8(json) =~= encode_utf8(json));
    vstd::utf8::encode_utf8_valid_utf8(json);
    vstd::utf8::encode_utf8_decode_utf8(json);
}

} // verus!
