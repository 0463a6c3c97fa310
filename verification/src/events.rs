//! Real-time events for the dashboard: tunnels and nodes coming and going.
//! Delivering them to subscribers happens outside this crate.

use vstd::prelude::*;

use crate::proto::{protocol_name, protocol_text};
use crate::tunnel_registry::{time_text, TunnelEntry};

verus! {

/// A dashboard-facing real-time event.
#[derive(Debug, Clone)]
pub enum BhEvent {
    /// A tunnel became active. `node` is the edge node name, or empty for the
    /// direct path; `started_at` is RFC3339.
    TunnelOpened {
        tunnel_id: String,
        protocol: String,
        local_port: u16,
        remote_port: u16,
        node: String,
        started_at: String,
    },
    /// A tunnel was torn down.
    TunnelClosed { tunnel_id: String },
    /// An edge node registered.
    NodeConnected { node_id: String, name: String },
    /// An edge node disconnected.
    NodeLeft { node_id: String },
}

/// `ev` announces that tunnel `tunnel_id` opened as `entry` describes; the
/// node name is empty for a tunnel the server serves itself.
pub open spec fn announces_opening(ev: BhEvent, tunnel_id: Seq<char>, entry: TunnelEntry) -> bool {
    match ev {
        BhEvent::TunnelOpened { tunnel_id: id, protocol, local_port, remote_port, node, started_at } => {
            &&& id@ == tunnel_id
            &&& protocol@ == protocol_text(entry.protocol)
            &&& local_port == entry.local_port
            &&& remote_port == entry.remote_port
            &&& node@ == match entry.node {
                Some(n) => n@,
                None => Seq::empty(),
            }
            &&& started_at@ == time_text(entry.started_at)
        },
        _ => false,
    }
}

/// The event announcing that tunnel `tunnel_id` opened as `entry` describes.
pub fn tunnel_opened(tunnel_id: &str, entry: &TunnelEntry) -> (r: BhEvent)
    ensures
        announces_opening(r, tunnel_id@, *entry),
{
    BhEvent::TunnelOpened {
        tunnel_id: String::from_str(tunnel_id),
        protocol: String::from_str(protocol_name(entry.protocol)),
        local_port: entry.local_port,
        remote_port: entry.remote_port,
        node: match &entry.node {
            Some(n) => n.clone(),
            None => String::new(),
        },
        started_at: entry.started_at.to_rfc3339(),
    }
}

/// The event announcing that tunnel `tunnel_id` closed.
pub fn tunnel_closed(tunnel_id: &str) -> (r: BhEvent)
    ensures
        r matches BhEvent::TunnelClosed { tunnel_id: id } && id@ == tunnel_id@,
{
    BhEvent::TunnelClosed { tunnel_id: String::from_str(tunnel_id) }
}

/// The event announcing that node `name` registered as `node_id`.
pub fn node_connected(node_id: &str, name: &str) -> (r: BhEvent)
    ensures
        r matches BhEvent::NodeConnected { node_id: id, name: n } && id@ == node_id@ && n@ == name@,
{
    BhEvent::NodeConnected { node_id: String::from_str(node_id), name: String::from_str(name) }
}

/// The event announcing that node `node_id` disconnected.
pub fn node_left(node_id: &str) -> (r: BhEvent)
    ensures
        r matches BhEvent::NodeLeft { node_id: id } && id@ == node_id@,
{
    BhEvent::NodeLeft { node_id: String::from_str(node_id) }
}

} // verus!
