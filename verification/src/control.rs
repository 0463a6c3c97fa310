//! Decisions of the server's control plane. Both CLIs and edge nodes open one
//! TLS connection to the control port; the first frame tells them apart. The
//! socket work around these decisions happens outside this crate.

use vstd::prelude::*;

use crate::nodes::NodeInfo;
use crate::port_pool::{takes, PortManager};
use crate::proto::{
    CloseTunnel, DataConn, ErrorMsg, Message, NewConn, OpenTunnel, Register, RegisterNode, Registered,
    VisitorConn,
};
use crate::text::same_text;

verus! {

/// Why the server turns a connection away.
#[derive(Debug, Clone, Copy, PartialEq, Eq, Structural)]
pub enum RejectReason {
    /// The first frame is not valid JSON of a message.
    MalformedFirstMessage,
    /// The first frame is a message other than a registration.
    ExpectedRegister,
    /// The registration carries a token the server does not accept.
    InvalidToken,
    /// No port could be assigned.
    NoPortAvailable,
    /// The assigned public port could not be bound.
    TunnelPortUnavailable,
}

/// The reason sent to the peer in an `Error` message.
pub open spec fn reject_text(r: RejectReason) -> Seq<char> {
    match r {
        RejectReason::MalformedFirstMessage => "malformed first message"@,
        RejectReason::ExpectedRegister => "expected register or register_node"@,
        RejectReason::InvalidToken => "invalid token"@,
        RejectReason::NoPortAvailable => "no port available"@,
        RejectReason::TunnelPortUnavailable => "failed to open tunnel port"@,
    }
}

impl RejectReason {
    /// The reason sent to the peer in an `Error` message.
    pub fn text(&self) -> (r: &'static str)
        ensures
            r@ == reject_text(*self),
    {
        match self {
            RejectReason::MalformedFirstMessage => "malformed first message",
            RejectReason::ExpectedRegister => "expected register or register_node",
            RejectReason::InvalidToken => "invalid token",
            RejectReason::NoPortAvailable => "no port available",
            RejectReason::TunnelPortUnavailable => "failed to open tunnel port",
        }
    }
}

/// What the first frame of a control connection asks for.
#[derive(Debug, Clone)]
pub enum FirstFrame {
    /// A CLI registering a tunnel.
    Cli(Register),
    /// An edge node registering itself.
    Node(RegisterNode),
    /// Anything else: answer with an error and close.
    Reject(RejectReason),
}

/// Dispatches on the first frame of a control connection; `None` stands for
/// a frame that did not decode.
pub fn classify_first_frame(frame: Option<Message>) -> (r: FirstFrame)
    ensures
        match frame {
            None => r == FirstFrame::Reject(RejectReason::MalformedFirstMessage),
            Some(Message::Register(reg)) => r == FirstFrame::Cli(reg),
            Some(Message::RegisterNode(reg)) => r == FirstFrame::Node(reg),
            Some(_) => r == FirstFrame::Reject(RejectReason::ExpectedRegister),
        },
{
    match frame {
        None => FirstFrame::Reject(RejectReason::MalformedFirstMessage),
        Some(Message::Register(reg)) => FirstFrame::Cli(reg),
        Some(Message::RegisterNode(reg)) => FirstFrame::Node(reg),
        Some(_) => FirstFrame::Reject(RejectReason::ExpectedRegister),
    }
}

/// `token` is one of `tokens`.
pub open spec fn token_listed(tokens: Seq<String>, token: Seq<char>) -> bool {
    exists|i: int| 0 <= i < tokens.len() && #[trigger] tokens[i]@ == token
}

/// Whether `token` is one of the accepted tokens.
pub fn token_accepted(tokens: &Vec<String>, token: &str) -> (r: bool)
    ensures
        r == token_listed(tokens@, token@),
{
    let mut i: usize = 0;
    while i < tokens.len()
        invariant
            i <= tokens@.len(),
            forall|j: int| 0 <= j < i ==> tokens@[j]@ != token@,
        decreases tokens@.len() - i,
    {
        if same_text(tokens[i].as_str(), token) {
            return true;
        }
        i = i + 1;
    }
    false
}

/// What assigning the public port of a tunnel that asked for `requested`
/// does to the pool `before`, giving `r`: the requested port if it is in range
/// and free (and a taken or out-of-range request still leaves it out of the
/// pool); with no request, some free port, `None` only when none is free.
/// A refused request leaves the pool as it was, and both pools hold only
/// ports of their range.
pub open spec fn port_assigned(before: PortManager, after: PortManager, requested: Option<u16>, r: Option<u16>) -> bool {
    &&& before.within_range()
    &&& after.within_range()
    &&& after.low() == before.low()
    &&& after.high() == before.high()
    &&& match requested {
        Some(p) => {
            &&& r == (if before.spec_in_range(p) && before.free().contains(p) {
                Some(p)
            } else {
                None
            })
            &&& after.free() == before.free().remove(p)
            &&& (r is None ==> after.free() == before.free())
        },
        None => {
            &&& (r is None <==> before.free().is_empty())
            &&& (r is None ==> after.free() == before.free())
            &&& (r matches Some(p) ==> takes(before, after, p))
        },
    }
}

/// Assigns the public port of a new tunnel: the requested one if it is in
/// range and free, a random free one when none is requested.
pub fn assign_port(pool: &mut PortManager, requested: Option<u16>) -> (r: Option<u16>)
    ensures
        port_assigned(*old(pool), *final(pool), requested, r),
{
    match requested {
        Some(p) => pool.acquire_specific(p),
        None => pool.acquire(),
    }
}

/// The `Registered` reply: the port, and the node's address when the tunnel
/// is hosted on a node.
pub fn registered_reply(port: u16, node: Option<&NodeInfo>) -> (r: Message)
    ensures
        match node {
            Some(n) => r == Message::Registered(
                Registered { remote_port: port, node_host: Some(n.host), node_port: Some(n.data_port) },
            ),
            None => r == Message::Registered(
                Registered { remote_port: port, node_host: None, node_port: None },
            ),
        },
{
    match node {
        Some(n) => Message::Registered(
            Registered { remote_port: port, node_host: Some(n.host.clone()), node_port: Some(n.data_port) },
        ),
        None => Message::Registered(Registered { remote_port: port, node_host: None, node_port: None }),
    }
}

/// The notice for a visitor that reached a tunnel the server itself serves:
/// the CLI dials the server's data port.
pub fn direct_notice(conn_id: &str) -> (r: Message)
    ensures
        r matches Message::NewConn(n) && n.conn_id@ == conn_id@ && n.node_host is None
            && n.node_port is None,
{
    Message::NewConn(NewConn { conn_id: String::from_str(conn_id), node_host: None, node_port: None })
}

/// The error message sent when turning a peer away.
pub fn reject_message(reason: RejectReason) -> (r: Message)
    ensures
        r matches Message::Error(e) && e.reason@ == reject_text(reason),
{
    Message::Error(ErrorMsg { reason: String::from_str(reason.text()) })
}

/// The order that makes a node open the public port of a tunnel.
pub fn open_tunnel_order(tunnel_id: &str, remote_port: u16) -> (r: Message)
    ensures
        r matches Message::OpenTunnel(o) && o.tunnel_id@ == tunnel_id@ && o.remote_port == remote_port,
{
    Message::OpenTunnel(OpenTunnel { tunnel_id: String::from_str(tunnel_id), remote_port })
}

/// The order that makes a node drop the public port of a tunnel.
pub fn close_tunnel_order(tunnel_id: &str) -> (r: Message)
    ensures
        r matches Message::CloseTunnel(o) && o.tunnel_id@ == tunnel_id@,
{
    Message::CloseTunnel(CloseTunnel { tunnel_id: String::from_str(tunnel_id) })
}

/// The connection id announced by the first frame of a data connection, if
/// that frame is a `DataConn`.
pub fn data_conn_id(frame: Option<Message>) -> (r: Option<String>)
    ensures
        match frame {
            Some(Message::DataConn(DataConn { conn_id })) => r == Some(conn_id),
            _ => r is None,
        },
{
    match frame {
        Some(Message::DataConn(DataConn { conn_id })) => Some(conn_id),
        _ => None,
    }
}

/// The visitor that a node's frame reports, if it is a `VisitorConn`; other
/// frames from a node are ignored.
pub fn visitor_report(frame: Option<Message>) -> (r: Option<VisitorConn>)
    ensures
        match frame {
            Some(Message::VisitorConn(v)) => r == Some(v),
            _ => r is None,
        },
{
    match frame {
        Some(Message::VisitorConn(v)) => Some(v),
        _ => None,
    }
}

} // verus!
