//! In-memory, fixed-capacity history of closed tunnels and past connections.
//!
//! Both logs drop their oldest entry once full. Reads return the most recent
//! entries first.

use std::collections::VecDeque;

use vstd::prelude::*;

use crate::text::same_text;

verus! {

/// Keep the last 500 closed tunnels.
pub const MAX_TUNNELS: usize = 500;

/// Keep the last 1000 connections.
pub const MAX_CONNECTIONS: usize = 1000;

/// A tunnel session that has ended.
#[derive(Debug, Clone)]
pub struct TunnelHistory {
    pub tunnel_id: String,
    pub protocol: String,
    pub local_port: u16,
    pub remote_port: u16,
    pub node: Option<String>,
    /// RFC3339 open time.
    pub started_at: String,
    /// RFC3339 close time.
    pub ended_at: String,
    pub duration_secs: u64,
}

/// A single visitor connection that has been served.
#[derive(Debug, Clone)]
pub struct ConnectionHistory {
    pub tunnel_id: String,
    pub conn_id: String,
    pub source_ip: String,
    pub source_port: u16,
    /// RFC3339 connect time.
    pub connected_at: String,
    pub duration_secs: u64,
}

/// A copy of an optional text.
pub fn copy_opt(s: &Option<String>) -> (r: Option<String>)
    ensures
        r == *s,
{
    match s {
        Some(t) => Some(t.clone()),
        None => None,
    }
}

impl TunnelHistory {
    /// A field-by-field copy of this entry.
    pub fn duplicate(&self) -> (r: Self)
        ensures
            r == *self,
    {
        TunnelHistory {
            tunnel_id: self.tunnel_id.clone(),
            protocol: self.protocol.clone(),
            local_port: self.local_port,
            remote_port: self.remote_port,
            node: copy_opt(&self.node),
            started_at: self.started_at.clone(),
            ended_at: self.ended_at.clone(),
            duration_secs: self.duration_secs,
        }
    }
}

impl ConnectionHistory {
    /// A field-by-field copy of this entry.
    pub fn duplicate(&self) -> (r: Self)
        ensures
            r == *self,
    {
        ConnectionHistory {
            tunnel_id: self.tunnel_id.clone(),
            conn_id: self.conn_id.clone(),
            source_ip: self.source_ip.clone(),
            source_port: self.source_port,
            connected_at: self.connected_at.clone(),
            duration_secs: self.duration_secs,
        }
    }
}

/// The last `n` elements of `s` (all of `s` when it is shorter).
pub open spec fn keep_last<T>(s: Seq<T>, n: nat) -> Seq<T> {
    if s.len() > n {
        s.subrange(s.len() - n, s.len() as int)
    } else {
        s
    }
}

/// Most-recent-first page of `s`: skip the `offset` most recent entries, then
/// take up to `limit`.
pub open spec fn recent_page<T>(s: Seq<T>, limit: nat, offset: nat) -> Seq<T> {
    let avail: nat = if offset < s.len() {
        (s.len() - offset) as nat
    } else {
        0
    };
    let count: nat = if limit < avail {
        limit
    } else {
        avail
    };
    Seq::new(count, |k: int| s[s.len() - 1 - offset - k])
}

/// Whether a connection belongs to the tunnel asked for (`None` asks for all).
pub open spec fn conn_matches(c: ConnectionHistory, tunnel_id: Option<Seq<char>>) -> bool {
    match tunnel_id {
        Some(id) => c.tunnel_id@ == id,
        None => true,
    }
}

/// Most-recent-first connections of `s` that match `tunnel_id`, at most `limit`.
pub open spec fn recent_matching(
    s: Seq<ConnectionHistory>,
    tunnel_id: Option<Seq<char>>,
    limit: nat,
) -> Seq<ConnectionHistory>
    decreases s.len(),
{
    if s.len() == 0 || limit == 0 {
        Seq::empty()
    } else if conn_matches(s[s.len() - 1], tunnel_id) {
        seq![s[s.len() - 1]] + recent_matching(s.subrange(0, s.len() - 1), tunnel_id, (limit - 1) as nat)
    } else {
        recent_matching(s.subrange(0, s.len() - 1), tunnel_id, limit)
    }
}

/// Two capped logs, oldest entry first.
pub struct History {
    tunnels: VecDeque<TunnelHistory>,
    connections: VecDeque<ConnectionHistory>,
}

impl History {
    /// Closed tunnels, oldest first.
    pub closed spec fn tunnel_log(&self) -> Seq<TunnelHistory> {
        self.tunnels@
    }

    /// Served connections, oldest first.
    pub closed spec fn connection_log(&self) -> Seq<ConnectionHistory> {
        self.connections@
    }

    #[verifier::type_invariant]
    closed spec fn within_capacity(&self) -> bool {
        &&& self.tunnels@.len() <= MAX_TUNNELS
        &&& self.connections@.len() <= MAX_CONNECTIONS
    }

    /// Empty history.
    pub fn new() -> (h: Self)
        ensures
            h.tunnel_log() == Seq::<TunnelHistory>::empty(),
            h.connection_log() == Seq::<ConnectionHistory>::empty(),
    {
        History { tunnels: VecDeque::new(), connections: VecDeque::new() }
    }

    /// Records a closed tunnel, evicting the oldest if at capacity.
    pub fn record_tunnel(&mut self, entry: TunnelHistory)
        ensures
            final(self).tunnel_log() == keep_last(old(self).tunnel_log().push(entry), MAX_TUNNELS as nat),
            final(self).connection_log() == old(self).connection_log(),
    {
        proof {
            use_type_invariant(&*self);
        }
        let mut queue = VecDeque::new();
        std::mem::swap(&mut queue, &mut self.tunnels);
        let ghost before = queue@;
        if queue.len() == MAX_TUNNELS {
            queue.pop_front();
        }
        queue.push_back(entry);
        assert(queue@ =~= keep_last(before.push(entry), MAX_TUNNELS as nat));
        self.tunnels = queue;
    }

    /// Records a finished connection, evicting the oldest if at capacity.
    pub fn record_connection(&mut self, entry: ConnectionHistory)
        ensures
            final(self).connection_log() == keep_last(
                old(self).connection_log().push(entry),
                MAX_CONNECTIONS as nat,
            ),
            final(self).tunnel_log() == old(self).tunnel_log(),
    {
        proof {
            use_type_invariant(&*self);
        }
        let mut queue = VecDeque::new();
        std::mem::swap(&mut queue, &mut self.connections);
        let ghost before = queue@;
        if queue.len() == MAX_CONNECTIONS {
            queue.pop_front();
        }
        queue.push_back(entry);
        assert(queue@ =~= keep_last(before.push(entry), MAX_CONNECTIONS as nat));
        self.connections = queue;
    }

    /// Most-recent-first page of closed tunnels.
    pub fn tunnels(&self, limit: usize, offset: usize) -> (r: Vec<TunnelHistory>)
        ensures
            r@ == recent_page(self.tunnel_log(), limit as nat, offset as nat),
    {
        let n = self.tunnels.len();
        let mut out: Vec<TunnelHistory> = Vec::new();
        if offset >= n {
            assert(out@ =~= recent_page(self.tunnel_log(), limit as nat, offset as nat));
            return out;
        }
        let avail = n - offset;
        let count = if limit < avail {
            limit
        } else {
            avail
        };
        let mut k: usize = 0;
        while k < count
            invariant
                n == self.tunnels@.len(),
                offset < n,
                count <= n - offset,
                k <= count,
                out@.len() == k,
                forall|j: int| 0 <= j < k ==> out@[j] == self.tunnels@[n - 1 - offset - j],
            decreases count - k,
        {
            let item = self.tunnels[n - 1 - offset - k].duplicate();
            out.push(item);
            k = k + 1;
        }
        assert(out@ =~= recent_page(self.tunnel_log(), limit as nat, offset as nat));
        out
    }

    /// Most-recent-first connections, optionally only those of one tunnel.
    pub fn connections(&self, tunnel_id: Option<&str>, limit: usize) -> (r: Vec<
        ConnectionHistory,
    >)
        ensures
            r@ == recent_matching(
                self.connection_log(),
                match tunnel_id {
                    Some(id) => Some(id@),
                    None => None,
                },
                limit as nat,
            ),
    {
        let ghost want = match tunnel_id {
            Some(id) => Some(id@),
            None => None,
        };
        let ghost s = self.connections@;
        let mut out: Vec<ConnectionHistory> = Vec::new();
        let mut i: usize = self.connections.len();
        assert(s.subrange(0, i as int) =~= s);
        while i > 0 && out.len() < limit
            invariant
                s == self.connections@,
                want == match tunnel_id {
                    Some(id) => Some(id@),
                    None => None,
                },
                i <= s.len(),
                out@.len() <= limit,
                out@ + recent_matching(s.subrange(0, i as int), want, (limit - out@.len()) as nat)
                    == recent_matching(s, want, limit as nat),
            decreases i,
        {
            let ghost prefix = s.subrange(0, i as int);
            assert(prefix.subrange(0, prefix.len() - 1) =~= s.subrange(0, i - 1));
            let conn = &self.connections[i - 1];
            assert(*conn == s[i - 1]);
            let keep = match tunnel_id {
                Some(id) => {
                    let conn_id = conn.tunnel_id.as_str();
                    let same = same_text(conn_id, id);
                    assert(want == Some(id@));
                    assert(same == (s[i - 1].tunnel_id@ == id@));
                    same
                },
                None => true,
            };
            assert(prefix[prefix.len() - 1] == s[i - 1]);
            assert(keep == conn_matches(s[i - 1], want));
            if keep {
                let ghost before = out@;
                out.push(conn.duplicate());
                assert(before + recent_matching(prefix, want, (limit - before.len()) as nat) =~= out@
                    + recent_matching(s.subrange(0, i - 1), want, (limit - out@.len()) as nat));
            }
            i = i - 1;
        }
        assert(recent_matching(s.subrange(0, i as int), want, (limit - out@.len()) as nat)
            =~= Seq::<ConnectionHistory>::empty());
        assert(out@ =~= recent_matching(s, want, limit as nat));
        out
    }
}

/// Recording entry by entry keeps exactly the last `n` entries ever recorded:
/// trimming after each record gives what trimming once at the end gives.
pub proof fn law_log_keeps_last<T>(recorded: Seq<T>, entry: T, n: nat)
    requires
        n > 0,
    ensures
        keep_last(keep_last(recorded, n).push(entry), n) == keep_last(recorded.push(entry), n),
{
    assert(keep_last(keep_last(recorded, n).push(entry), n) =~= keep_last(recorded.push(entry), n));
}

/// A log never holds more than its capacity.
pub proof fn law_log_bounded<T>(recorded: Seq<T>, n: nat)
    ensures
        keep_last(recorded, n).len() <= n,
{
}

} // verus!
