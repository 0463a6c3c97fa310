//! The life of one admitted CLI tunnel on the server, as a state machine.
//! The server's task for the CLI asks the session what to do next
//! (`action`), does it (a send, a bind, a wait, a change of the shared
//! state), and hands back what came of it (`step`). The order of the work is
//! decided here: a node that cannot be ordered to open the port leaves the
//! tunnel to the server itself, a direct tunnel is recorded only once the CLI
//! has been told its port, a visitor is served only once the CLI was told of
//! it and forgotten when that cannot be done, and a session records and
//! retires its tunnel at most once.

use vstd::prelude::*;

use crate::control::{
    close_tunnel_order, direct_notice, open_tunnel_order, registered_reply, reject_message, reject_text, RejectReason,
};
use crate::nodes::NodeInfo;
use crate::proto::{Message, Registered};

verus! {

/// Where a session stands: each stage names the work that is due next.
#[derive(Debug)]
pub enum Stage {
    /// Order the hosting node to open the public port.
    OrderNode,
    /// Bind the public port on the server.
    BindPort,
    /// Tell the CLI its port (served by the server).
    SendRegistered,
    /// Record the tunnel as open, served by the server.
    RecordDirect,
    /// Wait for a visitor, or for the end of the tunnel.
    AwaitVisitor,
    /// Expect the CLI's data connection for visitor `conn_id`.
    ExpectData(String),
    /// Tell the CLI of visitor `conn_id`.
    SendNotice(String),
    /// Hand visitor `conn_id` over to the CLI's data connection when it comes.
    ServeVisitor(String),
    /// Stop expecting the data connection for visitor `conn_id`.
    ForgetPending(String),
    /// Record the tunnel as open, hosted on the node.
    RecordNode,
    /// Tell the CLI its port and the node that hosts it.
    SendNodeRegistered,
    /// Wait for the end of a tunnel hosted on the node.
    AwaitEnd,
    /// Order the node to drop the public port.
    SendCloseOrder,
    /// Tell the CLI the public port could not be bound.
    RejectPort,
    /// Retire the tunnel: give the port back and archive it.
    Retire,
    /// Nothing is left to do.
    Finished,
}

/// What came of the work a stage asked for.
#[derive(Debug)]
pub enum SessionEvent {
    /// The work is done; `false` when a send or a bind failed (or a wait
    /// ended on something that changes nothing).
    Done(bool),
    /// A visitor reached the public port; the server names it `conn_id`.
    Visitor(String),
    /// The CLI left or the dashboard closed the tunnel.
    Ended,
}

/// The work that a stage asks for, with what it carries.
#[derive(Debug)]
pub enum SessionAction {
    /// Send this frame to the hosting node.
    SendToNode(Message),
    /// Bind this public port on the server.
    BindPort(u16),
    /// Send this frame to the CLI.
    SendToCli(Message),
    /// Record the tunnel as open, hosted on this node (or on the server).
    Record(Option<NodeInfo>),
    /// Wait for a visitor or the end (tunnel served by the server).
    AwaitVisitor,
    /// Expect a data connection for this visitor.
    ExpectData(String),
    /// Hand this visitor over to its data connection when it comes.
    ServeVisitor(String),
    /// Stop expecting a data connection for this visitor.
    ForgetPending(String),
    /// Wait for the end of a tunnel hosted on a node.
    AwaitEnd,
    /// Retire the tunnel, whose load sat on this node (or on the server).
    Retire(Option<NodeInfo>),
    /// The session is over.
    Finish,
}

/// One admitted tunnel: its id and public port, the node picked for it,
/// whether that node took it, and the stage reached.
#[derive(Debug)]
pub struct TunnelSession {
    pub tunnel_id: String,
    pub port: u16,
    pub node: Option<NodeInfo>,
    pub via_node: bool,
    pub stage: Stage,
}

/// The session with its stage moved on to `stage`.
pub open spec fn at_stage(s: TunnelSession, stage: Stage) -> TunnelSession {
    TunnelSession { stage, ..s }
}

/// The session after `ev` came of the work its stage asked for.
pub open spec fn next(s: TunnelSession, ev: SessionEvent) -> TunnelSession {
    match s.stage {
        Stage::OrderNode => match ev {
            SessionEvent::Done(true) => TunnelSession { via_node: true, ..at_stage(s, Stage::RecordNode) },
            _ => at_stage(s, Stage::BindPort),
        },
        Stage::BindPort => match ev {
            SessionEvent::Done(true) => at_stage(s, Stage::SendRegistered),
            _ => at_stage(s, Stage::RejectPort),
        },
        Stage::SendRegistered => match ev {
            SessionEvent::Done(true) => at_stage(s, Stage::RecordDirect),
            _ => at_stage(s, Stage::Retire),
        },
        Stage::RecordDirect => at_stage(s, Stage::AwaitVisitor),
        Stage::AwaitVisitor => match ev {
            SessionEvent::Visitor(c) => at_stage(s, Stage::ExpectData(c)),
            SessionEvent::Ended => at_stage(s, Stage::Retire),
            SessionEvent::Done(_) => s,
        },
        Stage::ExpectData(c) => at_stage(s, Stage::SendNotice(c)),
        Stage::SendNotice(c) => match ev {
            SessionEvent::Done(true) => at_stage(s, Stage::ServeVisitor(c)),
            _ => at_stage(s, Stage::ForgetPending(c)),
        },
        Stage::ServeVisitor(_) => at_stage(s, Stage::AwaitVisitor),
        Stage::ForgetPending(_) => at_stage(s, Stage::Retire),
        Stage::RecordNode => at_stage(s, Stage::SendNodeRegistered),
        Stage::SendNodeRegistered => at_stage(s, Stage::AwaitEnd),
        Stage::AwaitEnd => match ev {
            SessionEvent::Ended => at_stage(s, Stage::SendCloseOrder),
            _ => s,
        },
        Stage::SendCloseOrder => at_stage(s, Stage::Retire),
        Stage::RejectPort => at_stage(s, Stage::Retire),
        Stage::Retire => at_stage(s, Stage::Finished),
        Stage::Finished => s,
    }
}

/// The node that carries the tunnel's load: the picked node once it took
/// the tunnel, none while (or when) the server serves it.
pub open spec fn hosting(s: TunnelSession) -> Option<NodeInfo> {
    if s.via_node {
        s.node
    } else {
        None
    }
}

/// `m` is the `Registered` reply for port `port` served by the server.
pub open spec fn is_direct_registered(m: Message, port: u16) -> bool {
    m == Message::Registered(Registered { remote_port: port, node_host: None, node_port: None })
}

/// `a` is the work that the stage of `s` asks for.
pub open spec fn asks_for(s: TunnelSession, a: SessionAction) -> bool {
    match s.stage {
        Stage::OrderNode => a matches SessionAction::SendToNode(Message::OpenTunnel(o)) && o.tunnel_id@
            == s.tunnel_id@ && o.remote_port == s.port,
        Stage::BindPort => a == SessionAction::BindPort(s.port),
        Stage::SendRegistered => a matches SessionAction::SendToCli(m) && is_direct_registered(m, s.port),
        Stage::RecordDirect => a == SessionAction::Record(None),
        Stage::AwaitVisitor => a == SessionAction::AwaitVisitor,
        Stage::ExpectData(c) => a matches SessionAction::ExpectData(d) && d@ == c@,
        Stage::SendNotice(c) => a matches SessionAction::SendToCli(Message::NewConn(n)) && n.conn_id@ == c@
            && n.node_host is None && n.node_port is None,
        Stage::ServeVisitor(c) => a matches SessionAction::ServeVisitor(d) && d@ == c@,
        Stage::ForgetPending(c) => a matches SessionAction::ForgetPending(d) && d@ == c@,
        Stage::RecordNode => a == SessionAction::Record(s.node),
        Stage::SendNodeRegistered => a matches SessionAction::SendToCli(m) && match s.node {
            Some(n) => m == Message::Registered(
                Registered { remote_port: s.port, node_host: Some(n.host), node_port: Some(n.data_port) },
            ),
            None => is_direct_registered(m, s.port),
        },
        Stage::AwaitEnd => a == SessionAction::AwaitEnd,
        Stage::SendCloseOrder => a matches SessionAction::SendToNode(Message::CloseTunnel(o)) && o.tunnel_id@
            == s.tunnel_id@,
        Stage::RejectPort => a matches SessionAction::SendToCli(Message::Error(e)) && e.reason@ == reject_text(
            RejectReason::TunnelPortUnavailable,
        ),
        Stage::Retire => a == SessionAction::Retire(hosting(s)),
        Stage::Finished => a == SessionAction::Finish,
    }
}

/// A copy of an optional node entry.
fn copy_node(n: &Option<NodeInfo>) -> (r: Option<NodeInfo>)
    ensures
        r == *n,
{
    match n {
        Some(x) => Some(x.duplicate()),
        None => None,
    }
}

impl TunnelSession {
    /// The session of tunnel `tunnel_id` on `port`, just admitted with `node`
    /// picked to host it (`None`: the server serves it): the node is ordered
    /// first when there is one, else the port is bound.
    pub fn start(tunnel_id: String, port: u16, node: Option<NodeInfo>) -> (s: Self)
        ensures
            s.tunnel_id == tunnel_id,
            s.port == port,
            s.node == node,
            !s.via_node,
            s.stage == (if node is Some {
                Stage::OrderNode
            } else {
                Stage::BindPort
            }),
    {
        let stage = match &node {
            Some(_) => Stage::OrderNode,
            None => Stage::BindPort,
        };
        TunnelSession { tunnel_id, port, node, via_node: false, stage }
    }

    /// The work that the session's stage asks for.
    pub fn action(&self) -> (a: SessionAction)
        ensures
            asks_for(*self, a),
    {
        match &self.stage {
            Stage::OrderNode => SessionAction::SendToNode(open_tunnel_order(self.tunnel_id.as_str(), self.port)),
            Stage::BindPort => SessionAction::BindPort(self.port),
            Stage::SendRegistered => SessionAction::SendToCli(registered_reply(self.port, None)),
            Stage::RecordDirect => SessionAction::Record(None),
            Stage::AwaitVisitor => SessionAction::AwaitVisitor,
            Stage::ExpectData(c) => SessionAction::ExpectData(c.clone()),
            Stage::SendNotice(c) => SessionAction::SendToCli(direct_notice(c.as_str())),
            Stage::ServeVisitor(c) => SessionAction::ServeVisitor(c.clone()),
            Stage::ForgetPending(c) => SessionAction::ForgetPending(c.clone()),
            Stage::RecordNode => SessionAction::Record(copy_node(&self.node)),
            Stage::SendNodeRegistered => SessionAction::SendToCli(
                match &self.node {
                    Some(n) => registered_reply(self.port, Some(n)),
                    None => registered_reply(self.port, None),
                },
            ),
            Stage::AwaitEnd => SessionAction::AwaitEnd,
            Stage::SendCloseOrder => SessionAction::SendToNode(close_tunnel_order(self.tunnel_id.as_str())),
            Stage::RejectPort => SessionAction::SendToCli(reject_message(RejectReason::TunnelPortUnavailable)),
            Stage::Retire => SessionAction::Retire(
                if self.via_node {
                    copy_node(&self.node)
                } else {
                    None
                },
            ),
            Stage::Finished => SessionAction::Finish,
        }
    }

    /// Moves the session on by what came of the work its stage asked for.
    pub fn step(self, ev: SessionEvent) -> (r: Self)
        ensures
            r == next(self, ev),
    {
        let TunnelSession { tunnel_id, port, node, via_node, stage } = self;
        let (stage, via_node) = match stage {
            Stage::OrderNode => match ev {
                SessionEvent::Done(true) => (Stage::RecordNode, true),
                _ => (Stage::BindPort, via_node),
            },
            Stage::BindPort => match ev {
                SessionEvent::Done(true) => (Stage::SendRegistered, via_node),
                _ => (Stage::RejectPort, via_node),
            },
            Stage::SendRegistered => match ev {
                SessionEvent::Done(true) => (Stage::RecordDirect, via_node),
                _ => (Stage::Retire, via_node),
            },
            Stage::RecordDirect => (Stage::AwaitVisitor, via_node),
            Stage::AwaitVisitor => match ev {
                SessionEvent::Visitor(c) => (Stage::ExpectData(c), via_node),
                SessionEvent::Ended => (Stage::Retire, via_node),
                SessionEvent::Done(_) => (Stage::AwaitVisitor, via_node),
            },
            Stage::ExpectData(c) => (Stage::SendNotice(c), via_node),
            Stage::SendNotice(c) => match ev {
                SessionEvent::Done(true) => (Stage::ServeVisitor(c), via_node),
                _ => (Stage::ForgetPending(c), via_node),
            },
            Stage::ServeVisitor(_) => (Stage::AwaitVisitor, via_node),
            Stage::ForgetPending(_) => (Stage::Retire, via_node),
            Stage::RecordNode => (Stage::SendNodeRegistered, via_node),
            Stage::SendNodeRegistered => (Stage::AwaitEnd, via_node),
            Stage::AwaitEnd => match ev {
                SessionEvent::Ended => (Stage::SendCloseOrder, via_node),
                _ => (Stage::AwaitEnd, via_node),
            },
            Stage::SendCloseOrder => (Stage::Retire, via_node),
            Stage::RejectPort => (Stage::Retire, via_node),
            Stage::Retire => (Stage::Finished, via_node),
            Stage::Finished => (Stage::Finished, via_node),
        };
        TunnelSession { tunnel_id, port, node, via_node, stage }
    }
}

/// The sessions that a session passes through as `evs` come of its work:
/// the session itself, then one more after each event.
pub open spec fn trace(s: TunnelSession, evs: Seq<SessionEvent>) -> Seq<TunnelSession>
    decreases evs.len(),
{
    if evs.len() == 0 {
        seq![s]
    } else {
        seq![s] + trace(next(s, evs[0]), evs.drop_first())
    }
}

/// A stage at which the tunnel is recorded as open.
pub open spec fn is_recording(st: Stage) -> bool {
    st is RecordDirect || st is RecordNode
}

/// A stage that comes only once the tunnel was recorded: serving it, and
/// winding it down before it is retired.
pub open spec fn after_recording(st: Stage) -> bool {
    ||| st is AwaitVisitor
    ||| st is ExpectData
    ||| st is SendNotice
    ||| st is ServeVisitor
    ||| st is ForgetPending
    ||| st is SendNodeRegistered
    ||| st is AwaitEnd
    ||| st is SendCloseOrder
}

/// A stage of a tunnel that a node took.
pub open spec fn on_node_path(st: Stage) -> bool {
    ||| st is RecordNode
    ||| st is SendNodeRegistered
    ||| st is AwaitEnd
    ||| st is SendCloseOrder
    ||| st is Retire
    ||| st is Finished
}

/// How far a stage lies along the session: no step goes back.
pub open spec fn stage_rank(st: Stage) -> int {
    match st {
        Stage::OrderNode => 0,
        Stage::BindPort => 1,
        Stage::SendRegistered => 2,
        Stage::RejectPort => 2,
        Stage::RecordDirect => 3,
        Stage::RecordNode => 3,
        Stage::AwaitVisitor => 4,
        Stage::ExpectData(_) => 4,
        Stage::SendNotice(_) => 4,
        Stage::ServeVisitor(_) => 4,
        Stage::SendNodeRegistered => 4,
        Stage::ForgetPending(_) => 5,
        Stage::AwaitEnd => 5,
        Stage::SendCloseOrder => 6,
        Stage::Retire => 7,
        Stage::Finished => 8,
    }
}

/// A trace starts at the session and moves by `next`, one event at a time.
pub proof fn lemma_trace_steps(s: TunnelSession, evs: Seq<SessionEvent>)
    ensures
        trace(s, evs).len() == evs.len() + 1,
        trace(s, evs)[0] == s,
        forall|i: int| 0 <= i < evs.len() ==> #[trigger] trace(s, evs)[i + 1] == next(trace(s, evs)[i], evs[i]),
    decreases evs.len(),
{
    if evs.len() > 0 {
        let n = next(s, evs[0]);
        let rest = evs.drop_first();
        lemma_trace_steps(n, rest);
        assert forall|i: int| 0 <= i < evs.len() implies #[trigger] trace(s, evs)[i + 1] == next(
            trace(s, evs)[i],
            evs[i],
        ) by {
            if i > 0 {
                assert(trace(s, evs)[i + 1] == trace(n, rest)[i]);
                assert(trace(s, evs)[i] == trace(n, rest)[i - 1]);
                assert(evs[i] == rest[i - 1]);
            }
        }
    }
}

/// No step lowers the rank, and a step from a recording stage or from
/// retiring raises it.
pub proof fn lemma_step_rank(s: TunnelSession, ev: SessionEvent)
    ensures
        stage_rank(next(s, ev).stage) >= stage_rank(s.stage),
        is_recording(s.stage) || s.stage is Retire ==> stage_rank(next(s, ev).stage) > stage_rank(s.stage),
        next(s, ev).stage is OrderNode ==> s.stage is OrderNode,
        next(s, ev).via_node ==> s.via_node || (s.stage is OrderNode && ev matches SessionEvent::Done(true)),
        next(s, ev).stage is Finished ==> s.stage is Retire || s.stage is Finished,
        s.via_node ==> next(s, ev).via_node,
        after_recording(next(s, ev).stage) ==> after_recording(s.stage) || is_recording(s.stage),
        s.via_node && on_node_path(s.stage) ==> on_node_path(next(s, ev).stage),
        !s.via_node && next(s, ev).via_node ==> next(s, ev).stage is RecordNode,
        next(s, ev).tunnel_id == s.tunnel_id && next(s, ev).port == s.port && next(s, ev).node == s.node,
{
}

/// Along a trace the rank never goes down.
proof fn lemma_trace_rank(s: TunnelSession, evs: Seq<SessionEvent>, i: int, j: int)
    requires
        0 <= i <= j <= evs.len(),
    ensures
        stage_rank(trace(s, evs)[i].stage) <= stage_rank(trace(s, evs)[j].stage),
    decreases j - i,
{
    if i < j {
        lemma_trace_steps(s, evs);
        lemma_trace_rank(s, evs, i, j - 1);
        lemma_step_rank(trace(s, evs)[j - 1], evs[j - 1]);
        assert(trace(s, evs)[(j - 1) + 1] == next(trace(s, evs)[j - 1], evs[j - 1]));
    }
}

/// A session of a trace that counts the node comes after a step at which
/// the order to open the port was sent successfully.
proof fn lemma_via_node_ordered(s: TunnelSession, evs: Seq<SessionEvent>, i: int)
    requires
        !s.via_node,
        0 <= i <= evs.len(),
        trace(s, evs)[i].via_node,
    ensures
        exists|k: int|
            0 <= k < i && (#[trigger] trace(s, evs)[k]).stage is OrderNode && evs[k] matches SessionEvent::Done(true),
    decreases i,
{
    lemma_trace_steps(s, evs);
    let t = trace(s, evs);
    assert(i > 0);
    lemma_step_rank(t[i - 1], evs[i - 1]);
    assert(t[(i - 1) + 1] == next(t[i - 1], evs[i - 1]));
    if t[i - 1].via_node {
        lemma_via_node_ordered(s, evs, i - 1);
    } else {
        assert(t[i - 1].stage is OrderNode && evs[i - 1] matches SessionEvent::Done(true));
    }
}

/// Whatever comes of its work, a session records its tunnel as open at most
/// once, and retires it at most once.
pub proof fn law_session_records_and_retires_once(s: TunnelSession, evs: Seq<SessionEvent>)
    ensures
        forall|i: int, j: int|
            0 <= i < j < trace(s, evs).len() ==> !(is_recording(#[trigger] trace(s, evs)[i].stage) && is_recording(
                #[trigger] trace(s, evs)[j].stage,
            )),
        forall|i: int, j: int|
            0 <= i < j < trace(s, evs).len() ==> !(#[trigger] trace(s, evs)[i].stage is Retire && #[trigger] trace(
                s,
                evs,
            )[j].stage is Retire),
{
    lemma_trace_steps(s, evs);
    let t = trace(s, evs);
    assert forall|i: int, j: int| 0 <= i < j < t.len() implies !(is_recording(#[trigger] t[i].stage) && is_recording(
        #[trigger] t[j].stage,
    )) && !(t[i].stage is Retire && t[j].stage is Retire) by {
        lemma_step_rank(t[i], evs[i]);
        assert(t[i + 1] == next(t[i], evs[i]));
        lemma_trace_rank(s, evs, i + 1, j);
    }
}

/// A tunnel served by the server is recorded only once the CLI has been
/// told its port: in a session that starts by ordering the node or binding
/// the port, a step into recording a direct tunnel comes from a successful
/// `Registered` send.
pub proof fn law_direct_record_follows_registered(s: TunnelSession, evs: Seq<SessionEvent>)
    requires
        s.stage is OrderNode || s.stage is BindPort,
    ensures
        forall|i: int|
            0 <= i < trace(s, evs).len() && (#[trigger] trace(s, evs)[i]).stage is RecordDirect ==> i > 0
                && trace(s, evs)[i - 1].stage is SendRegistered && evs[i - 1] matches SessionEvent::Done(true),
{
    lemma_trace_steps(s, evs);
    let t = trace(s, evs);
    assert forall|i: int| 0 <= i < t.len() && (#[trigger] t[i]).stage is RecordDirect implies i > 0
        && t[i - 1].stage is SendRegistered && evs[i - 1] matches SessionEvent::Done(true) by {
        assert(i > 0);
        assert(t[(i - 1) + 1] == next(t[i - 1], evs[i - 1]));
    }
}

/// The load of a tunnel sits on a node only once that node took the order
/// to open the port: in a session that starts with no node holding it, a
/// later session counts the node only after a step at which the order was
/// sent successfully; a node that could not be ordered leaves the tunnel to
/// the server, which binds the port itself and never counts the node.
pub proof fn law_node_hosts_only_when_ordered(s: TunnelSession, evs: Seq<SessionEvent>)
    requires
        !s.via_node,
    ensures
        forall|i: int|
            0 <= i < trace(s, evs).len() && (#[trigger] trace(s, evs)[i]).via_node ==> exists|k: int|
                0 <= k < i && (#[trigger] trace(s, evs)[k]).stage is OrderNode && evs[k] matches SessionEvent::Done(
                    true,
                ),
        s.stage is OrderNode && evs.len() > 0 && !(evs[0] matches SessionEvent::Done(true)) ==> {
            &&& trace(s, evs)[1].stage is BindPort
            &&& forall|i: int| 0 <= i < trace(s, evs).len() ==> hosting(#[trigger] trace(s, evs)[i]) is None
        },
{
    lemma_trace_steps(s, evs);
    let t = trace(s, evs);
    assert forall|i: int| 0 <= i < t.len() && (#[trigger] t[i]).via_node implies exists|k: int|
        0 <= k < i && (#[trigger] t[k]).stage is OrderNode && evs[k] matches SessionEvent::Done(true) by {
        lemma_via_node_ordered(s, evs, i);
    }
    if s.stage is OrderNode && evs.len() > 0 && !(evs[0] matches SessionEvent::Done(true)) {
        assert(t[1] == next(t[0], evs[0]));
        assert forall|i: int| 0 <= i < t.len() implies hosting(#[trigger] t[i]) is None by {
            if t[i].via_node {
                let k = choose|k: int| 0 <= k < i && (#[trigger] t[k]).stage is OrderNode && evs[k] matches SessionEvent::Done(true);
                if k >= 1 {
                    lemma_trace_rank(s, evs, 1, k);
                }
            }
        }
    }
}

/// A visitor is handed over only once the CLI was told of it: a visitor
/// whose notice went out is served and the session waits for the next one;
/// one whose notice cannot be sent is forgotten, and the tunnel is retired
/// right after.
pub proof fn law_failed_notice_forgets_visitor(s: TunnelSession, ev: SessionEvent, after: SessionEvent)
    requires
        s.stage is SendNotice,
    ensures
        ev matches SessionEvent::Done(true) ==> {
            &&& next(s, ev).stage matches Stage::ServeVisitor(c) && c == s.stage->SendNotice_0
            &&& next(next(s, ev), after).stage is AwaitVisitor
        },
        !(ev matches SessionEvent::Done(true)) ==> {
            &&& next(s, ev).stage matches Stage::ForgetPending(c) && c == s.stage->SendNotice_0
            &&& next(next(s, ev), after).stage is Retire
        },
        forall|t: TunnelSession, e: SessionEvent| #[trigger] next(t, e).stage is ServeVisitor ==> t.stage is SendNotice
            && e matches SessionEvent::Done(true),
{
}

/// A session that finishes has retired its tunnel first: in a session that
/// has not yet finished, every later point at which it is finished comes
/// after a point at which it retired the tunnel (giving the port back and
/// lowering the hosting node's load), whatever came of its sends and binds.
/// In particular, once the node was told to drop the port, or the CLI was
/// told that the port could not be bound, the next step retires the tunnel
/// whatever came of that send.
pub proof fn law_session_retires_before_finishing(s: TunnelSession, evs: Seq<SessionEvent>)
    requires
        !(s.stage is Finished),
    ensures
        forall|j: int|
            0 <= j < trace(s, evs).len() && (#[trigger] trace(s, evs)[j]).stage is Finished ==> exists|i: int|
                0 <= i < j && (#[trigger] trace(s, evs)[i]).stage is Retire,
        forall|i: int|
            0 <= i < evs.len() && ((#[trigger] trace(s, evs)[i]).stage is SendCloseOrder || trace(s, evs)[i].stage is RejectPort)
                ==> trace(s, evs)[i + 1].stage is Retire,
{
    lemma_trace_steps(s, evs);
    let t = trace(s, evs);
    assert forall|j: int| 0 <= j < t.len() && (#[trigger] t[j]).stage is Finished implies exists|i: int|
        0 <= i < j && (#[trigger] t[i]).stage is Retire by {
        lemma_finished_after_retire(s, evs, j);
    }
}

/// A point of a trace at which the session is finished comes after one at
/// which it retired, when the trace did not start finished.
proof fn lemma_finished_after_retire(s: TunnelSession, evs: Seq<SessionEvent>, j: int)
    requires
        !(s.stage is Finished),
        0 <= j <= evs.len(),
        trace(s, evs)[j].stage is Finished,
    ensures
        exists|i: int| 0 <= i < j && (#[trigger] trace(s, evs)[i]).stage is Retire,
    decreases j,
{
    lemma_trace_steps(s, evs);
    let t = trace(s, evs);
    assert(j > 0);
    lemma_step_rank(t[j - 1], evs[j - 1]);
    assert(t[(j - 1) + 1] == next(t[j - 1], evs[j - 1]));
    if t[j - 1].stage is Finished {
        lemma_finished_after_retire(s, evs, j - 1);
    } else {
        assert(t[j - 1].stage is Retire);
    }
}

/// A session keeps its tunnel: the tunnel id, the public port and the
/// picked node stay those it started with, and the tunnel it retires is
/// charged to that node exactly when the node took the tunnel.
pub proof fn law_session_keeps_its_tunnel(s: TunnelSession, evs: Seq<SessionEvent>)
    ensures
        forall|i: int|
            0 <= i < trace(s, evs).len() ==> (#[trigger] trace(s, evs)[i]).tunnel_id == s.tunnel_id
                && trace(s, evs)[i].port == s.port && trace(s, evs)[i].node == s.node,
        forall|i: int|
            0 <= i < trace(s, evs).len() && (#[trigger] trace(s, evs)[i]).stage is Retire ==> hosting(trace(s, evs)[i])
                == (if trace(s, evs)[i].via_node {
                s.node
            } else {
                None
            }),
{
    lemma_trace_steps(s, evs);
    let t = trace(s, evs);
    assert forall|i: int| 0 <= i < t.len() implies (#[trigger] t[i]).tunnel_id == s.tunnel_id && t[i].port == s.port
        && t[i].node == s.node by {
        lemma_same_tunnel(s, evs, i);
    }
}

/// Every point of a trace carries the tunnel, port and node of its start.
proof fn lemma_same_tunnel(s: TunnelSession, evs: Seq<SessionEvent>, i: int)
    requires
        0 <= i <= evs.len(),
    ensures
        trace(s, evs)[i].tunnel_id == s.tunnel_id && trace(s, evs)[i].port == s.port && trace(s, evs)[i].node == s.node,
    decreases i,
{
    lemma_trace_steps(s, evs);
    if i > 0 {
        let t = trace(s, evs);
        lemma_same_tunnel(s, evs, i - 1);
        lemma_step_rank(t[i - 1], evs[i - 1]);
        assert(t[(i - 1) + 1] == next(t[i - 1], evs[i - 1]));
    }
}

/// Once a node took the tunnel, the session charges the tunnel to that node
/// until its end, so retiring it lowers that node's load.
pub proof fn law_ordered_node_stays_charged(s: TunnelSession, evs: Seq<SessionEvent>)
    ensures
        forall|k: int, j: int|
            0 <= k < j < trace(s, evs).len() && (#[trigger] trace(s, evs)[k]).stage is OrderNode && (evs[k] matches SessionEvent::Done(
                true,
            )) ==> (#[trigger] trace(s, evs)[j]).via_node && hosting(trace(s, evs)[j]) == s.node,
{
    lemma_trace_steps(s, evs);
    let t = trace(s, evs);
    assert forall|k: int, j: int|
        0 <= k < j < t.len() && (#[trigger] t[k]).stage is OrderNode && (evs[k] matches SessionEvent::Done(true)) implies (
    #[trigger] t[j]).via_node && hosting(t[j]) == s.node by {
        lemma_charged_from(s, evs, k, j);
        lemma_same_tunnel(s, evs, j);
    }
}

/// After a step at which the node took the tunnel, every later point of the
/// trace charges it.
proof fn lemma_charged_from(s: TunnelSession, evs: Seq<SessionEvent>, k: int, j: int)
    requires
        0 <= k < j <= evs.len(),
        trace(s, evs)[k].stage is OrderNode,
        evs[k] matches SessionEvent::Done(true),
    ensures
        trace(s, evs)[j].via_node,
    decreases j - k,
{
    lemma_trace_steps(s, evs);
    let t = trace(s, evs);
    assert(t[(j - 1) + 1] == next(t[j - 1], evs[j - 1]));
    if j - 1 > k {
        lemma_charged_from(s, evs, k, j - 1);
        lemma_step_rank(t[j - 1], evs[j - 1]);
    }
}

/// A tunnel is served only once it was recorded: in a session that starts
/// by ordering the node or binding the port, every point at which it waits
/// for visitors or for its end, serves a visitor or winds down comes after a
/// point at which the tunnel was recorded as open.
pub proof fn law_serving_follows_recording(s: TunnelSession, evs: Seq<SessionEvent>)
    requires
        s.stage is OrderNode || s.stage is BindPort,
    ensures
        forall|j: int|
            0 <= j < trace(s, evs).len() && after_recording((#[trigger] trace(s, evs)[j]).stage) ==> exists|i: int|
                0 <= i < j && is_recording((#[trigger] trace(s, evs)[i]).stage),
{
    lemma_trace_steps(s, evs);
    let t = trace(s, evs);
    assert forall|j: int| 0 <= j < t.len() && after_recording((#[trigger] t[j]).stage) implies exists|i: int|
        0 <= i < j && is_recording((#[trigger] t[i]).stage) by {
        lemma_recorded_before(s, evs, j);
    }
}

/// A point of a trace past the recording comes after a recording point,
/// when the trace starts before both.
proof fn lemma_recorded_before(s: TunnelSession, evs: Seq<SessionEvent>, j: int)
    requires
        s.stage is OrderNode || s.stage is BindPort,
        0 <= j <= evs.len(),
        after_recording(trace(s, evs)[j].stage),
    ensures
        exists|i: int| 0 <= i < j && is_recording((#[trigger] trace(s, evs)[i]).stage),
    decreases j,
{
    lemma_trace_steps(s, evs);
    let t = trace(s, evs);
    assert(j > 0);
    lemma_step_rank(t[j - 1], evs[j - 1]);
    assert(t[(j - 1) + 1] == next(t[j - 1], evs[j - 1]));
    if !is_recording(t[j - 1].stage) {
        lemma_recorded_before(s, evs, j - 1);
    }
}

/// A node that took a tunnel is told to drop its port before the tunnel is
/// retired: in a session that starts with no node charged, a retirement
/// charged to the node comes right after the order to close was sent.
pub proof fn law_node_told_to_close_before_retiring(s: TunnelSession, evs: Seq<SessionEvent>)
    requires
        !s.via_node,
    ensures
        forall|j: int|
            0 <= j < trace(s, evs).len() && (#[trigger] trace(s, evs)[j]).stage is Retire && trace(s, evs)[j].via_node
                ==> j > 0 && trace(s, evs)[j - 1].stage is SendCloseOrder,
{
    lemma_trace_steps(s, evs);
    let t = trace(s, evs);
    assert forall|j: int| 0 <= j < t.len() && (#[trigger] t[j]).stage is Retire && t[j].via_node implies j > 0 && t[j
        - 1].stage is SendCloseOrder by {
        assert(j > 0);
        lemma_node_path(s, evs, j - 1);
        lemma_step_rank(t[j - 1], evs[j - 1]);
        assert(t[(j - 1) + 1] == next(t[j - 1], evs[j - 1]));
    }
}

/// At every point of a trace that starts with no node charged and charges
/// the node, the session is on the node's path.
proof fn lemma_node_path(s: TunnelSession, evs: Seq<SessionEvent>, i: int)
    requires
        !s.via_node,
        0 <= i <= evs.len(),
    ensures
        trace(s, evs)[i].via_node ==> on_node_path(trace(s, evs)[i].stage),
    decreases i,
{
    lemma_trace_steps(s, evs);
    if i > 0 {
        let t = trace(s, evs);
        lemma_node_path(s, evs, i - 1);
        lemma_step_rank(t[i - 1], evs[i - 1]);
        assert(t[(i - 1) + 1] == next(t[i - 1], evs[i - 1]));
    }
}

} // verus!
