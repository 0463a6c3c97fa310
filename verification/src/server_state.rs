//! The server's shared bookkeeping and the decisions its control plane takes
//! on it: admitting a CLI or a node, opening and closing a tunnel, routing a
//! node's visitor report. Sockets, locks and timers stay outside this crate;
//! each step here is one transition of the state, with the message or event
//! that the caller then sends.

use vstd::prelude::*;

use crate::clock::UtcTime;
use crate::control::{assign_port, port_assigned, token_accepted, token_listed, visitor_report, RejectReason};
use crate::devices::{upserted, Devices};
use crate::events::{announces_opening, tunnel_closed, tunnel_opened, BhEvent};
use crate::history::{copy_opt, keep_last, History, TunnelHistory, MAX_TUNNELS};
use crate::ids::{is_uuid_v4_text, new_uuid};
use crate::nodes::{
    distinct_ids, has_room, is_first_id, is_pick, lemma_first_id_unique, lemma_node_index_found,
    lemma_node_index_same_ids, lemma_without_node_gone, node_index, opt_text, with_fewer_tunnels, with_more_tunnels,
    with_node, without_node, NodeInfo, NodeManager,
};
use crate::port_pool::{gives_back, port_range, takes, PortManager};
use crate::proto::{Message, NewConn, Register, RegisterNode};
use crate::tunnel_registry::{is_archive_of, routed_notice, ActiveTunnels, TunnelEntry};

verus! {

/// A CLI that passed registration: the id of its tunnel, its public port, and
/// the node picked to host it (`None`: the server serves it directly).
#[derive(Debug, Clone)]
pub struct CliAdmission {
    pub tunnel_id: String,
    pub port: u16,
    pub node: Option<NodeInfo>,
}

/// State shared by every task of the server: the public port pool, the
/// accepted tokens, the registered nodes, the open tunnels, the known devices
/// and the history of closed tunnels and served connections.
pub struct ServerState {
    pub ports: PortManager,
    pub tokens: Vec<String>,
    pub nodes: NodeManager,
    pub tunnels: ActiveTunnels,
    pub devices: Devices,
    pub history: History,
}

/// Two pools with the same range and the same free ports.
pub open spec fn same_pool(a: PortManager, b: PortManager) -> bool {
    &&& a.free() == b.free()
    &&& a.low() == b.low()
    &&& a.high() == b.high()
}

/// The entry recorded for a tunnel that opened on `port` for `register`,
/// hosted on `node` (or on the server itself).
pub open spec fn opened_entry(register: Register, port: u16, node: Option<NodeInfo>, started_at: UtcTime) -> TunnelEntry {
    TunnelEntry {
        protocol: register.protocol,
        local_port: register.local_port,
        remote_port: port,
        node: match node {
            Some(n) => Some(n.name),
            None => None,
        },
        hostname: register.hostname,
        started_at,
        route: match node {
            Some(n) => Some((n.host, n.data_port)),
            None => None,
        },
    }
}

/// What admitting a CLI that sent `register` at `now` does. A token that is
/// not accepted is refused and changes nothing. Otherwise the CLI's host is
/// recorded as a device, and then the tunnel gets its port (or is refused
/// when none is available), a fresh id and a node picked by the CLI's
/// preference.
pub open spec fn cli_admitted(
    before: ServerState,
    register: Register,
    now: UtcTime,
    r: Result<CliAdmission, RejectReason>,
    after: ServerState,
) -> bool {
    &&& after.tokens@ == before.tokens@
    &&& after.nodes.entries() == before.nodes.entries()
    &&& after.tunnels@ == before.tunnels@
    &&& after.history.tunnel_log() == before.history.tunnel_log()
    &&& after.history.connection_log() == before.history.connection_log()
    &&& if !token_listed(before.tokens@, register.token@) {
        &&& r == Err::<CliAdmission, RejectReason>(RejectReason::InvalidToken)
        &&& after.devices.records() == before.devices.records()
        &&& same_pool(after.ports, before.ports)
    } else {
        &&& match register.hostname {
            Some(h) => upserted(before.devices.records(), h@, now, after.devices.records()),
            None => after.devices.records() == before.devices.records(),
        }
        &&& match r {
            Ok(a) => {
                &&& port_assigned(before.ports, after.ports, register.remote_port, Some(a.port))
                &&& a.tunnel_id@.len() == 36
                &&& is_uuid_v4_text(a.tunnel_id@)
                &&& is_pick(before.nodes.entries(), opt_text(register.node), a.node)
            },
            Err(e) => {
                &&& e == RejectReason::NoPortAvailable
                &&& port_assigned(before.ports, after.ports, register.remote_port, None)
                &&& same_pool(after.ports, before.ports)
            },
        }
    }
}

/// What recording the opening of tunnel `id` does: the tunnel is listed,
/// the hosting node counts one more tunnel, and `ev` announces it.
pub open spec fn tunnel_recorded(
    before: ServerState,
    id: Seq<char>,
    register: Register,
    port: u16,
    node: Option<NodeInfo>,
    started_at: UtcTime,
    ev: BhEvent,
    after: ServerState,
) -> bool {
    &&& after.tunnels@ == before.tunnels@.insert(id, opened_entry(register, port, node, started_at))
    &&& announces_opening(ev, id, opened_entry(register, port, node, started_at))
    &&& after.nodes.entries() == match node {
        Some(n) => with_more_tunnels(before.nodes.entries(), n.node_id@),
        None => before.nodes.entries(),
    }
    &&& same_pool(after.ports, before.ports)
    &&& after.tokens@ == before.tokens@
    &&& after.devices.records() == before.devices.records()
    &&& after.history.tunnel_log() == before.history.tunnel_log()
    &&& after.history.connection_log() == before.history.connection_log()
}

/// What retiring tunnel `id` (on `port`, hosted on `node`) does once its CLI
/// is gone or the dashboard closed it: the port goes back to the pool, the
/// node counts one tunnel fewer, and a tunnel that was listed leaves the list,
/// is archived as closed at `ended_at` and is announced closed. A tunnel that
/// was never listed is neither archived nor announced.
pub open spec fn tunnel_retired(
    before: ServerState,
    id: Seq<char>,
    port: u16,
    node: Option<NodeInfo>,
    ended_at: UtcTime,
    ev: Option<BhEvent>,
    after: ServerState,
) -> bool {
    &&& after.tunnels@ == before.tunnels@.remove(id)
    &&& gives_back(before.ports, after.ports, port)
    &&& after.nodes.entries() == match node {
        Some(n) => with_fewer_tunnels(before.nodes.entries(), n.node_id@),
        None => before.nodes.entries(),
    }
    &&& if before.tunnels@.contains_key(id) {
        &&& (ev matches Some(BhEvent::TunnelClosed { tunnel_id }) && tunnel_id@ == id)
        &&& exists|h: TunnelHistory|
            #[trigger] is_archive_of(h, id, before.tunnels@[id], ended_at) && after.history.tunnel_log()
                == keep_last(before.history.tunnel_log().push(h), MAX_TUNNELS as nat)
    } else {
        &&& ev is None
        &&& after.history.tunnel_log() == before.history.tunnel_log()
    }
    &&& after.history.connection_log() == before.history.connection_log()
    &&& after.tokens@ == before.tokens@
    &&& after.devices.records() == before.devices.records()
}

/// What admitting a node that sent `register` from `host` does: with an
/// accepted token it is registered with no tunnels under a fresh id;
/// otherwise it is refused and nothing changes.
pub open spec fn node_admitted(
    before: ServerState,
    register: RegisterNode,
    host: String,
    r: Result<String, RejectReason>,
    after: ServerState,
) -> bool {
    &&& if token_listed(before.tokens@, register.token@) {
        &&& r matches Ok(id)
        &&& r->Ok_0@.len() == 36
        &&& is_uuid_v4_text(r->Ok_0@)
        &&& distinct_ids(before.nodes.entries())
        &&& distinct_ids(after.nodes.entries())
        &&& after.nodes.entries() == with_node(
            before.nodes.entries(),
            NodeInfo {
                node_id: r->Ok_0,
                name: register.name,
                host,
                data_port: register.data_port,
                tunnel_count: 0,
            },
        )
    } else {
        &&& r == Err::<String, RejectReason>(RejectReason::InvalidToken)
        &&& after.nodes.entries() == before.nodes.entries()
    }
    &&& same_pool(after.ports, before.ports)
    &&& after.tokens@ == before.tokens@
    &&& after.tunnels@ == before.tunnels@
    &&& after.devices.records() == before.devices.records()
    &&& after.history.tunnel_log() == before.history.tunnel_log()
    &&& after.history.connection_log() == before.history.connection_log()
}

impl ServerState {
    /// A server with every port of `[port_start, port_end]` free, accepting
    /// `tokens`, with no nodes, tunnels, devices or history.
    pub fn new(port_start: u16, port_end: u16, tokens: Vec<String>) -> (s: Self)
        ensures
            s.ports.free() == port_range(port_start, port_end),
            s.ports.low() == port_start,
            s.ports.high() == port_end,
            s.tokens@ == tokens@,
            s.nodes.entries() == Seq::<NodeInfo>::empty(),
            s.ports.within_range(),
            distinct_ids(s.nodes.entries()),
            s.tunnels@ == Map::<Seq<char>, TunnelEntry>::empty(),
            s.devices.records().len() == 0,
            s.history.tunnel_log().len() == 0,
            s.history.connection_log().len() == 0,
    {
        ServerState {
            ports: PortManager::new(port_start, port_end),
            tokens,
            nodes: NodeManager::new(),
            tunnels: ActiveTunnels::new(),
            devices: Devices::new(),
            history: History::new(),
        }
    }

    /// Admits a CLI that sent `register` at `now`: checks its token, records
    /// its host as a device, assigns the public port and a fresh tunnel id,
    /// and picks a node by the CLI's preference.
    pub fn admit_cli(&mut self, register: &Register, now: UtcTime) -> (r: Result<CliAdmission, RejectReason>)
        ensures
            cli_admitted(*old(self), *register, now, r, *final(self)),
    {
        if !token_accepted(&self.tokens, register.token.as_str()) {
            return Err(RejectReason::InvalidToken);
        }
        match &register.hostname {
            Some(h) => self.devices.upsert(h.as_str(), now),
            None => {},
        }
        let port = match assign_port(&mut self.ports, register.remote_port) {
            Some(p) => p,
            None => return Err(RejectReason::NoPortAvailable),
        };
        let tunnel_id = new_uuid();
        let node = match &register.node {
            Some(n) => self.nodes.pick(Some(n.as_str())),
            None => self.nodes.pick(None),
        };
        Ok(CliAdmission { tunnel_id, port, node })
    }

    /// Records that tunnel `tunnel_id` opened on `port` for `register`, hosted
    /// on `node` (`None`: served by the server), and returns the event that
    /// announces it.
    pub fn open_tunnel(
        &mut self,
        tunnel_id: &str,
        register: &Register,
        port: u16,
        node: &Option<NodeInfo>,
        started_at: UtcTime,
    ) -> (ev: BhEvent)
        requires
            node matches Some(n) ==> has_room(old(self).nodes.entries(), n.node_id@),
        ensures
            tunnel_recorded(*old(self), tunnel_id@, *register, port, *node, started_at, ev, *final(self)),
    {
        let entry = TunnelEntry {
            protocol: register.protocol,
            local_port: register.local_port,
            remote_port: port,
            node: match node {
                Some(n) => Some(n.name.clone()),
                None => None,
            },
            hostname: copy_opt(&register.hostname),
            started_at,
            route: match node {
                Some(n) => Some((n.host.clone(), n.data_port)),
                None => None,
            },
        };
        let ev = tunnel_opened(tunnel_id, &entry);
        self.tunnels.open(String::from_str(tunnel_id), entry);
        match node {
            Some(n) => self.nodes.increment_tunnels(n.node_id.as_str()),
            None => {},
        }
        ev
    }

    /// Retires tunnel `tunnel_id` once its CLI is gone or the dashboard closed
    /// it: gives `port` back, lowers the load of the hosting `node`, and
    /// archives the tunnel if it was listed, returning the event that
    /// announces the closing (none for a tunnel that was never listed).
    pub fn close_tunnel(&mut self, tunnel_id: &str, port: u16, node: &Option<NodeInfo>, ended_at: &UtcTime) -> (ev:
        Option<BhEvent>)
        ensures
            tunnel_retired(*old(self), tunnel_id@, port, *node, *ended_at, ev, *final(self)),
    {
        match node {
            Some(n) => self.nodes.decrement_tunnels(n.node_id.as_str()),
            None => {},
        }
        let ev = match self.tunnels.close(tunnel_id, ended_at) {
            Some(h) => {
                self.history.record_tunnel(h);
                Some(tunnel_closed(tunnel_id))
            },
            None => None,
        };
        self.ports.release(port);
        ev
    }

    /// Admits a node that sent `register` from `host`: checks its token and
    /// registers it, returning its fresh id.
    pub fn admit_node(&mut self, register: &RegisterNode, host: String) -> (r: Result<String, RejectReason>)
        ensures
            node_admitted(*old(self), *register, host, r, *final(self)),
    {
        if !token_accepted(&self.tokens, register.token.as_str()) {
            return Err(RejectReason::InvalidToken);
        }
        let id = self.nodes.register(register.name.clone(), host, register.data_port);
        Ok(id)
    }

    /// Forgets node `node_id` (it disconnected, or never got its
    /// acknowledgement): no node with that id is left.
    pub fn drop_node(&mut self, node_id: &str)
        ensures
            final(self).nodes.entries() == without_node(old(self).nodes.entries(), node_id@),
            forall|i: int|
                0 <= i < final(self).nodes.entries().len() ==> #[trigger] final(self).nodes.entries()[i].node_id@
                    != node_id@,
            distinct_ids(old(self).nodes.entries()),
            distinct_ids(final(self).nodes.entries()),
            same_pool(final(self).ports, old(self).ports),
            final(self).tokens@ == old(self).tokens@,
            final(self).tunnels@ == old(self).tunnels@,
            final(self).devices.records() == old(self).devices.records(),
            final(self).history.tunnel_log() == old(self).history.tunnel_log(),
            final(self).history.connection_log() == old(self).history.connection_log(),
    {
        self.nodes.remove(node_id);
        proof {
            lemma_without_node_gone(old(self).nodes.entries(), node_id@);
        }
    }

    /// What to tell a CLI about a frame from a node (`None` stands for a frame
    /// that did not decode): for a visitor report on a node-routed tunnel, the
    /// `NewConn` for the owning CLI; nothing otherwise.
    pub fn route_visitor(&self, frame: Option<Message>) -> (r: Option<NewConn>)
        ensures
            match frame {
                Some(Message::VisitorConn(v)) => routed_notice(self.tunnels@, v.tunnel_id@, v.conn_id@, r),
                _ => r is None,
            },
    {
        match visitor_report(frame) {
            Some(v) => self.tunnels.visitor_notice(v.tunnel_id.as_str(), v.conn_id.as_str()),
            None => None,
        }
    }
}

/// A tunnel's whole life leaves the server as it found it: once a CLI has
/// been admitted, its tunnel recorded as open (on the picked node, or on the
/// server itself) and then retired, the free ports, the open tunnels and the
/// nodes' loads are what they were before the CLI registered; the closing was
/// announced and the tunnel archived.
pub proof fn law_tunnel_lifecycle_restores_state(
    s0: ServerState,
    register: Register,
    now: UtcTime,
    adm: CliAdmission,
    s1: ServerState,
    node: Option<NodeInfo>,
    started_at: UtcTime,
    opened: BhEvent,
    s2: ServerState,
    ended_at: UtcTime,
    closed: Option<BhEvent>,
    s3: ServerState,
)
    requires
        cli_admitted(s0, register, now, Ok(adm), s1),
        !s0.tunnels@.contains_key(adm.tunnel_id@),
        node == adm.node || node is None,
        node matches Some(n) ==> has_room(s1.nodes.entries(), n.node_id@),
        tunnel_recorded(s1, adm.tunnel_id@, register, adm.port, node, started_at, opened, s2),
        tunnel_retired(s2, adm.tunnel_id@, adm.port, node, ended_at, closed, s3),
    ensures
        s3.ports.free() == s0.ports.free(),
        s3.tunnels@ == s0.tunnels@,
        s3.nodes.entries() == s0.nodes.entries(),
        closed matches Some(BhEvent::TunnelClosed { tunnel_id }) && tunnel_id@ == adm.tunnel_id@,
        exists|h: TunnelHistory|
            #[trigger] is_archive_of(h, adm.tunnel_id@, opened_entry(register, adm.port, node, started_at), ended_at)
                && s3.history.tunnel_log() == keep_last(s0.history.tunnel_log().push(h), MAX_TUNNELS as nat),
{
    let id = adm.tunnel_id@;
    let p = adm.port;
    assert(takes(s0.ports, s1.ports, p));
    assert(s3.ports.free() =~= s0.ports.free());
    assert(s3.tunnels@ =~= s0.tunnels@);
    if let Some(n) = node {
        let a = s1.nodes.entries();
        let b = s2.nodes.entries();
        let c = s3.nodes.entries();
        let k0 = choose|i: int| 0 <= i < a.len() && #[trigger] a[i] == n;
        lemma_node_index_found(a, n.node_id@, k0);
        let k = node_index(a, n.node_id@).unwrap();
        assert(b == a.update(k, NodeInfo { tunnel_count: (a[k].tunnel_count + 1) as usize, ..a[k] }));
        assert forall|j: int| 0 <= j < a.len() implies #[trigger] a[j].node_id == b[j].node_id by {}
        lemma_node_index_same_ids(a, b, n.node_id@);
        assert(c =~= a);
    }
}

/// Visitors of a tunnel hosted on a node reach its CLI through that node:
/// once the tunnel is recorded on node `n`, a report of visitor `conn_id`
/// makes the server tell the CLI to dial `n`'s host and data port for that
/// connection id; for a tunnel the server serves itself, the CLI is told
/// nothing.
pub proof fn law_node_visitor_reaches_cli(
    s1: ServerState,
    id: Seq<char>,
    register: Register,
    port: u16,
    node: Option<NodeInfo>,
    started_at: UtcTime,
    opened: BhEvent,
    s2: ServerState,
    conn_id: Seq<char>,
    notice: Option<NewConn>,
)
    requires
        tunnel_recorded(s1, id, register, port, node, started_at, opened, s2),
        routed_notice(s2.tunnels@, id, conn_id, notice),
    ensures
        match node {
            Some(n) => notice matches Some(c) && c.conn_id@ == conn_id && c.node_host == Some(n.host)
                && c.node_port == Some(n.data_port),
            None => notice is None,
        },
{
    assert(s2.tunnels@.contains_key(id));
}

/// A client must present an accepted token to register: one that does not
/// is refused, and the server's ports, devices, nodes and tunnels stay as
/// they were.
pub proof fn law_unlisted_token_refused(
    s0: ServerState,
    register: Register,
    now: UtcTime,
    r: Result<CliAdmission, RejectReason>,
    s1: ServerState,
)
    requires
        cli_admitted(s0, register, now, r, s1),
        !token_listed(s0.tokens@, register.token@),
    ensures
        r == Err::<CliAdmission, RejectReason>(RejectReason::InvalidToken),
        s1.ports.free() == s0.ports.free(),
        s1.devices.records() == s0.devices.records(),
        s1.nodes.entries() == s0.nodes.entries(),
        s1.tunnels@ == s0.tunnels@,
{
}

/// The remote port comes from the pool: a CLI that asks for a port gets
/// exactly that port when it is in the pool's range and free, and is refused
/// otherwise; a CLI that asks for none gets some free port while any is left.
/// Either way the port it gets is no longer free, and a refused CLI leaves
/// the pool and the open tunnels as they were.
pub proof fn law_requested_port_honoured(
    s0: ServerState,
    register: Register,
    now: UtcTime,
    r: Result<CliAdmission, RejectReason>,
    s1: ServerState,
)
    requires
        cli_admitted(s0, register, now, r, s1),
        token_listed(s0.tokens@, register.token@),
    ensures
        register.remote_port matches Some(p) ==> {
            &&& (r is Ok <==> s0.ports.spec_in_range(p) && s0.ports.free().contains(p))
            &&& (r matches Ok(a) ==> a.port == p)
        },
        register.remote_port is None ==> (r is Ok <==> !s0.ports.free().is_empty()),
        r matches Ok(a) ==> s0.ports.free().contains(a.port) && !s1.ports.free().contains(a.port),
        r is Err ==> s1.ports.free() == s0.ports.free() && s1.tunnels@ == s0.tunnels@,
{
}

/// A node's session leaves the registry as it found it: once a node with a
/// fresh id has been admitted and then dropped, no node carries its id and
/// the registered nodes are those of before.
pub proof fn law_node_session_restores_registry(
    s0: ServerState,
    register: RegisterNode,
    host: String,
    id: String,
    s1: ServerState,
    s2: ServerState,
)
    requires
        node_admitted(s0, register, host, Ok(id), s1),
        forall|i: int| 0 <= i < s0.nodes.entries().len() ==> (#[trigger] s0.nodes.entries()[i]).node_id@ != id@,
        s2.nodes.entries() == without_node(s1.nodes.entries(), id@),
    ensures
        forall|i: int| 0 <= i < s2.nodes.entries().len() ==> (#[trigger] s2.nodes.entries()[i]).node_id@ != id@,
        s2.nodes.entries() == s0.nodes.entries(),
{
    let a = s0.nodes.entries();
    let b = s1.nodes.entries();
    assert(token_listed(s0.tokens@, register.token@));
    if let Some(k) = node_index(a, id@) {
        assert(is_first_id(a, id@, k));
    }
    assert(node_index(a, id@) is None);
    assert(b == a.push(b.last()));
    lemma_without_node_gone(b, id@);
    assert(is_first_id(b, id@, a.len() as int));
    lemma_first_id_unique(b, id@, a.len() as int);
    assert(s2.nodes.entries() =~= a);
}

} // verus!
