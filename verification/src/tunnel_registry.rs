//! The live tunnels of the server: what the dashboard lists, what a node's
//! visitor report is routed by, and what is archived when a tunnel closes.

use vstd::prelude::*;

use crate::clock::{elapsed_secs, elapsed_whole_secs, rfc3339_text, UtcTime};
use crate::history::{copy_opt, ConnectionHistory, TunnelHistory};
use crate::proto::{protocol_name, protocol_text, NewConn, Protocol};
use crate::text::same_text;
use crate::text_map::TextMap;

verus! {

/// A live tunnel: what the dashboard displays, plus the route of a tunnel that
/// is hosted on an edge node.
#[derive(Debug, Clone)]
pub struct TunnelEntry {
    /// Tunnelled protocol.
    pub protocol: Protocol,
    /// Local port on the CLI host being exposed.
    pub local_port: u16,
    /// Public port assigned on the server or node edge.
    pub remote_port: u16,
    /// Edge node name when routed through a node; `None` for the direct path.
    pub node: Option<String>,
    /// CLI host machine name, when the CLI reported one.
    pub hostname: Option<String>,
    /// When the tunnel was registered.
    pub started_at: UtcTime,
    /// Host and data port of the node for a node-routed tunnel; `None` for
    /// the direct path.
    pub route: Option<(String, u16)>,
}

/// One row of the dashboard's tunnel list.
#[derive(Debug, Clone)]
pub struct TunnelDto {
    pub tunnel_id: String,
    pub protocol: String,
    pub local_port: u16,
    pub remote_port: u16,
    /// Edge node name, or `None` for the direct path.
    pub node: Option<String>,
    /// CLI host machine name, or `None` if the CLI didn't report one.
    pub device: Option<String>,
    /// RFC3339 time the tunnel opened.
    pub started_at: String,
}

/// RFC 3339 text of an instant.
pub open spec fn time_text(t: UtcTime) -> Seq<char> {
    rfc3339_text(t.spec_secs(), t.spec_nanos()).unwrap()
}

/// The dashboard row of tunnel `id`.
pub open spec fn is_row_of(d: TunnelDto, id: Seq<char>, e: TunnelEntry) -> bool {
    &&& d.tunnel_id@ == id
    &&& d.protocol@ == protocol_text(e.protocol)
    &&& d.local_port == e.local_port
    &&& d.remote_port == e.remote_port
    &&& d.node == e.node
    &&& d.device == e.hostname
    &&& rfc3339_text(e.started_at.spec_secs(), e.started_at.spec_nanos()) == Some(d.started_at@)
}

/// The history record of tunnel `id`, closed at `ended`.
pub open spec fn is_archive_of(h: TunnelHistory, id: Seq<char>, e: TunnelEntry, ended: UtcTime) -> bool {
    &&& h.tunnel_id@ == id
    &&& h.protocol@ == protocol_text(e.protocol)
    &&& h.local_port == e.local_port
    &&& h.remote_port == e.remote_port
    &&& h.node == e.node
    &&& rfc3339_text(e.started_at.spec_secs(), e.started_at.spec_nanos()) == Some(h.started_at@)
    &&& rfc3339_text(ended.spec_secs(), ended.spec_nanos()) == Some(h.ended_at@)
    &&& h.duration_secs == elapsed_whole_secs(e.started_at, ended)
}

/// Tunnels of `entries` opened from host `host`.
pub open spec fn count_on_host(entries: Seq<(String, TunnelEntry)>, host: Seq<char>) -> nat
    decreases entries.len(),
{
    if entries.len() == 0 {
        0
    } else {
        let last = entries[entries.len() - 1].1;
        count_on_host(entries.subrange(0, entries.len() - 1), host) + match last.hostname {
            Some(h) if h@ == host => 1nat,
            _ => 0nat,
        }
    }
}

/// `r` is what the CLI owning tunnel `tunnel_id` is told when a node reports
/// visitor `conn_id`: a `NewConn` pointing at the node of a node-routed
/// tunnel, and nothing for an unknown tunnel or one on the direct path.
pub open spec fn routed_notice(
    tunnels: Map<Seq<char>, TunnelEntry>,
    tunnel_id: Seq<char>,
    conn_id: Seq<char>,
    r: Option<NewConn>,
) -> bool {
    match r {
        Some(n) => {
            &&& tunnels.contains_key(tunnel_id)
            &&& tunnels[tunnel_id].route matches Some((host, port))
            &&& n.conn_id@ == conn_id
            &&& n.node_host == Some(host)
            &&& n.node_port == Some(port)
        },
        None => !tunnels.contains_key(tunnel_id) || tunnels[tunnel_id].route is None,
    }
}

/// The history record of visitor `conn_id` of tunnel `tunnel_id`, who came
/// from `source_ip:source_port`, connected at `connected_at` and was served
/// until `ended_at`.
pub fn connection_record(
    tunnel_id: &str,
    conn_id: &str,
    source_ip: String,
    source_port: u16,
    connected_at: &UtcTime,
    ended_at: &UtcTime,
) -> (r: ConnectionHistory)
    ensures
        r.tunnel_id@ == tunnel_id@,
        r.conn_id@ == conn_id@,
        r.source_ip == source_ip,
        r.source_port == source_port,
        r.connected_at@ == time_text(*connected_at),
        r.duration_secs == elapsed_whole_secs(*connected_at, *ended_at),
{
    ConnectionHistory {
        tunnel_id: String::from_str(tunnel_id),
        conn_id: String::from_str(conn_id),
        source_ip,
        source_port,
        connected_at: connected_at.to_rfc3339(),
        duration_secs: elapsed_secs(connected_at, ended_at),
    }
}

/// `tunnel_id` -> entry, for every open tunnel.
pub struct ActiveTunnels {
    map: TextMap<TunnelEntry>,
}

impl View for ActiveTunnels {
    type V = Map<Seq<char>, TunnelEntry>;

    closed spec fn view(&self) -> Map<Seq<char>, TunnelEntry> {
        self.map@
    }
}

impl ActiveTunnels {
    /// The open tunnels in the order they opened.
    pub closed spec fn entries(&self) -> Seq<(String, TunnelEntry)> {
        self.map.pairs()
    }

    /// No tunnels.
    pub fn new() -> (t: Self)
        ensures
            t@ == Map::<Seq<char>, TunnelEntry>::empty(),
    {
        ActiveTunnels { map: TextMap::new() }
    }

    /// Records a newly opened tunnel.
    pub fn open(&mut self, tunnel_id: String, entry: TunnelEntry)
        ensures
            final(self)@ == old(self)@.insert(tunnel_id@, entry),
    {
        self.map.insert(tunnel_id, entry);
    }

    /// Whether `tunnel_id` is open.
    pub fn contains(&self, tunnel_id: &str) -> (r: bool)
        ensures
            r == self@.contains_key(tunnel_id@),
    {
        self.map.contains(tunnel_id)
    }

    /// Drops a tunnel that has closed and returns its history record, or
    /// `None` if it was not open (it never registered).
    pub fn close(&mut self, tunnel_id: &str, ended_at: &UtcTime) -> (r: Option<TunnelHistory>)
        ensures
            final(self)@ == old(self)@.remove(tunnel_id@),
            match r {
                Some(h) => old(self)@.contains_key(tunnel_id@) && is_archive_of(
                    h,
                    tunnel_id@,
                    old(self)@[tunnel_id@],
                    *ended_at,
                ),
                None => !old(self)@.contains_key(tunnel_id@),
            },
    {
        match self.map.remove(tunnel_id) {
            Some(entry) => {
                let protocol = protocol_name(entry.protocol);
                Some(
                    TunnelHistory {
                        tunnel_id: String::from_str(tunnel_id),
                        protocol: String::from_str(protocol),
                        local_port: entry.local_port,
                        remote_port: entry.remote_port,
                        node: entry.node,
                        started_at: entry.started_at.to_rfc3339(),
                        ended_at: ended_at.to_rfc3339(),
                        duration_secs: elapsed_secs(&entry.started_at, ended_at),
                    },
                )
            },
            None => None,
        }
    }

    /// The `NewConn` to send to the CLI that owns a node-routed tunnel when the
    /// node reports visitor `conn_id`: it points the CLI at the node. `None`
    /// for an unknown tunnel or one on the direct path.
    pub fn visitor_notice(&self, tunnel_id: &str, conn_id: &str) -> (r: Option<NewConn>)
        ensures
            routed_notice(self@, tunnel_id@, conn_id@, r),
    {
        match self.map.get(tunnel_id) {
            Some(entry) => match &entry.route {
                Some((host, port)) => Some(
                    NewConn {
                        conn_id: String::from_str(conn_id),
                        node_host: Some(host.clone()),
                        node_port: Some(*port),
                    },
                ),
                None => None,
            },
            None => None,
        }
    }

    /// Dashboard rows for every open tunnel, in the order the tunnels opened.
    pub fn rows(&self) -> (r: Vec<TunnelDto>)
        ensures
            r@.len() == self.entries().len(),
            forall|i: int|
                0 <= i < r@.len() ==> is_row_of(
                    #[trigger] r@[i],
                    self.entries()[i].0@,
                    self.entries()[i].1,
                ),
            forall|i: int| 0 <= i < r@.len() ==> self@.contains_key(#[trigger] r@[i].tunnel_id@),
            forall|k: Seq<char>|
                #[trigger] self@.contains_key(k) ==> exists|i: int| 0 <= i < r@.len() && #[trigger] r@[i].tunnel_id@ == k,
    {
        let n = self.map.len();
        let mut out: Vec<TunnelDto> = Vec::new();
        let mut i: usize = 0;
        while i < n
            invariant
                n == self.entries().len(),
                i <= n,
                out@.len() == i,
                forall|j: int|
                    0 <= j < i ==> is_row_of(#[trigger] out@[j], self.entries()[j].0@, self.entries()[j].1),
            decreases n - i,
        {
            let (id, entry) = self.map.entry_at(i);
            out.push(
                TunnelDto {
                    tunnel_id: id.clone(),
                    protocol: String::from_str(protocol_name(entry.protocol)),
                    local_port: entry.local_port,
                    remote_port: entry.remote_port,
                    node: copy_opt(&entry.node),
                    device: copy_opt(&entry.hostname),
                    started_at: entry.started_at.to_rfc3339(),
                },
            );
            i = i + 1;
        }
        assert forall|k: Seq<char>| #[trigger] self@.contains_key(k) implies exists|j: int|
            0 <= j < out@.len() && #[trigger] out@[j].tunnel_id@ == k by {
            let j = choose|j: int| 0 <= j < n && #[trigger] self.map.pairs()[j].0@ == k;
            assert(out@[j].tunnel_id@ == k);
        }
        out
    }

    /// Number of open tunnels whose CLI reported host name `hostname`.
    pub fn count_on_host(&self, hostname: &str) -> (r: usize)
        ensures
            r == count_on_host(self.entries(), hostname@),
    {
        let n = self.map.len();
        let mut count: usize = 0;
        let mut i: usize = 0;
        assert(self.entries().subrange(0, 0) =~= Seq::<(String, TunnelEntry)>::empty());
        while i < n
            invariant
                n == self.entries().len(),
                i <= n,
                count <= i,
                count == count_on_host(self.entries().subrange(0, i as int), hostname@),
            decreases n - i,
        {
            let (_, entry) = self.map.entry_at(i);
            assert(self.entries().subrange(0, i + 1).subrange(0, i as int) =~= self.entries().subrange(
                0,
                i as int,
            ));
            match &entry.hostname {
                Some(h) => {
                    if same_text(h.as_str(), hostname) {
                        count = count + 1;
                    }
                },
                None => {},
            }
            i = i + 1;
        }
        assert(self.entries().subrange(0, n as int) =~= self.entries());
        count
    }
}

} // verus!
