//! Decisions of the edge node agent: what the server's answer to its
//! registration means, and which order each later frame carries.

use vstd::prelude::*;

use crate::proto::{CloseTunnel, Message, NodeRegistered, OpenTunnel, RegisterNode, VisitorConn};

verus! {

/// Why the server did not accept a node.
#[derive(Debug, Clone)]
pub enum NodeRegistrationError {
    /// The server refused, giving this reason.
    Rejected(String),
    /// The server answered with some other message.
    Unexpected,
}

/// What the server's reply to `RegisterNode` means: the node's id, or why
/// registration failed.
pub fn registration_outcome(reply: Message) -> (r: Result<String, NodeRegistrationError>)
    ensures
        match reply {
            Message::NodeRegistered(NodeRegistered { node_id }) => r == Ok::<String, NodeRegistrationError>(node_id),
            Message::Error(e) => r matches Err(NodeRegistrationError::Rejected(reason)) && reason == e.reason,
            _ => r matches Err(NodeRegistrationError::Unexpected),
        },
{
    match reply {
        Message::NodeRegistered(reg) => Ok(reg.node_id),
        Message::Error(e) => Err(NodeRegistrationError::Rejected(e.reason)),
        _ => Err(NodeRegistrationError::Unexpected),
    }
}

/// An order from the server.
#[derive(Debug, Clone)]
pub enum NodeOrder {
    /// Bind `remote_port` and serve tunnel `tunnel_id` on it.
    Open { tunnel_id: String, remote_port: u16 },
    /// Drop the public listener of `tunnel_id`.
    Close { tunnel_id: String },
    /// Anything else (or a frame that did not decode): log and go on.
    Ignore,
}

/// The order a frame from the server carries; `None` stands for a frame that
/// did not decode.
pub fn node_order(frame: Option<Message>) -> (r: NodeOrder)
    ensures
        match frame {
            Some(Message::OpenTunnel(OpenTunnel { tunnel_id, remote_port })) => r == NodeOrder::Open {
                tunnel_id,
                remote_port,
            },
            Some(Message::CloseTunnel(CloseTunnel { tunnel_id })) => r == NodeOrder::Close { tunnel_id },
            _ => r == NodeOrder::Ignore,
        },
{
    match frame {
        Some(Message::OpenTunnel(o)) => NodeOrder::Open { tunnel_id: o.tunnel_id, remote_port: o.remote_port },
        Some(Message::CloseTunnel(c)) => NodeOrder::Close { tunnel_id: c.tunnel_id },
        _ => NodeOrder::Ignore,
    }
}

/// The registration a node sends from its configuration.
pub fn register_node_message(token: String, name: String, data_port: u16) -> (r: Message)
    ensures
        r == Message::RegisterNode(RegisterNode { token, name, data_port }),
{
    Message::RegisterNode(RegisterNode { token, name, data_port })
}

/// The report of a visitor that reached tunnel `tunnel_id` on this node.
pub fn visitor_message(tunnel_id: String, conn_id: String) -> (r: Message)
    ensures
        r == Message::VisitorConn(VisitorConn { tunnel_id, conn_id }),
{
    Message::VisitorConn(VisitorConn { tunnel_id, conn_id })
}

} // verus!
