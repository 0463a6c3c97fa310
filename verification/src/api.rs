//! Rows and queries of the dashboard's REST API.

use vstd::prelude::*;

use crate::nodes::{NodeInfo, NodeManager};

verus! {

/// One row of `GET /api/nodes`.
#[derive(Debug, Clone)]
pub struct NodeDto {
    pub node_id: String,
    pub name: String,
    pub host: String,
    pub data_port: u16,
    pub tunnel_count: usize,
    /// Connectivity status. A node is only in the registry while connected, so
    /// every listed node is "up".
    pub status: String,
}

/// The row of a registered node.
pub open spec fn is_node_row(d: NodeDto, n: NodeInfo) -> bool {
    &&& d.node_id == n.node_id
    &&& d.name == n.name
    &&& d.host == n.host
    &&& d.data_port == n.data_port
    &&& d.tunnel_count == n.tunnel_count
    &&& d.status@ == "up"@
}

/// The rows of `GET /api/nodes`: every registered node, reported up.
pub fn node_rows(nodes: &NodeManager) -> (r: Vec<NodeDto>)
    ensures
        r@.len() == nodes.entries().len(),
        forall|i: int| 0 <= i < r@.len() ==> is_node_row(#[trigger] r@[i], nodes.entries()[i]),
{
    let list = nodes.list();
    let mut out: Vec<NodeDto> = Vec::new();
    let mut i: usize = 0;
    while i < list.len()
        invariant
            list@ == nodes.entries(),
            i <= list@.len(),
            out@.len() == i,
            forall|j: int| 0 <= j < i ==> is_node_row(#[trigger] out@[j], list@[j]),
        decreases list@.len() - i,
    {
        let n = &list[i];
        out.push(
            NodeDto {
                node_id: n.node_id.clone(),
                name: n.name.clone(),
                host: n.host.clone(),
                data_port: n.data_port,
                tunnel_count: n.tunnel_count,
                status: String::from_str("up"),
            },
        );
        i = i + 1;
    }
    out
}

/// Default page size when the client omits `limit`.
pub fn default_limit() -> (r: usize)
    ensures
        r == 50,
{
    50
}

/// Query string for `GET /api/history/tunnels`.
#[derive(Debug, Clone)]
pub struct TunnelsQuery {
    pub limit: usize,
    pub offset: usize,
}

/// Query string for `GET /api/history/connections`.
#[derive(Debug, Clone)]
pub struct ConnectionsQuery {
    pub tunnel_id: Option<String>,
    pub limit: usize,
}

impl TunnelsQuery {
    /// The query with the parts the client gave: `limit` 50 and `offset` 0
    /// when omitted.
    pub fn with_defaults(limit: Option<usize>, offset: Option<usize>) -> (q: Self)
        ensures
            q.limit == match limit {
                Some(l) => l,
                None => 50,
            },
            q.offset == match offset {
                Some(o) => o,
                None => 0,
            },
    {
        TunnelsQuery {
            limit: match limit {
                Some(l) => l,
                None => default_limit(),
            },
            offset: match offset {
                Some(o) => o,
                None => 0,
            },
        }
    }
}

impl ConnectionsQuery {
    /// The query with the parts the client gave: `limit` 50 when omitted.
    pub fn with_defaults(tunnel_id: Option<String>, limit: Option<usize>) -> (q: Self)
        ensures
            q.tunnel_id == tunnel_id,
            q.limit == match limit {
                Some(l) => l,
                None => 50,
            },
    {
        ConnectionsQuery {
            tunnel_id,
            limit: match limit {
                Some(l) => l,
                None => default_limit(),
            },
        }
    }
}

} // verus!
