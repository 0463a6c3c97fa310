//! Registry of the edge nodes currently connected to the server, and the
//! choice of a node for a new tunnel.

use vstd::prelude::*;

use crate::ids::{is_uuid_v4_text, new_uuid};
use crate::text::same_text;

verus! {

/// A registered edge node and the bookkeeping needed to route tunnels to it.
#[derive(Debug, Clone)]
pub struct NodeInfo {
    /// Server-generated unique id (UUID v4).
    pub node_id: String,
    /// Human-friendly node name, e.g. "frankfurt".
    pub name: String,
    /// IP or hostname advertised to CLIs for this node.
    pub host: String,
    /// Plain-TCP port where the node accepts `DataConn` connections.
    pub data_port: u16,
    /// Active tunnels routed to this node (load-balancing metric).
    pub tunnel_count: usize,
}

impl NodeInfo {
    /// A field-by-field copy of this entry.
    pub fn duplicate(&self) -> (r: Self)
        ensures
            r == *self,
    {
        NodeInfo {
            node_id: self.node_id.clone(),
            name: self.name.clone(),
            host: self.host.clone(),
            data_port: self.data_port,
            tunnel_count: self.tunnel_count,
        }
    }
}

/// `i` is the first position of `s` holding a node with id `id`.
pub open spec fn is_first_id(s: Seq<NodeInfo>, id: Seq<char>, i: int) -> bool {
    &&& 0 <= i < s.len()
    &&& s[i].node_id@ == id
    &&& forall|j: int| 0 <= j < i ==> s[j].node_id@ != id
}

/// Position of the node with id `id` in `s` (the first, should there be two).
pub open spec fn node_index(s: Seq<NodeInfo>, id: Seq<char>) -> Option<int> {
    if exists|i: int| #[trigger] is_first_id(s, id, i) {
        Some(choose|i: int| #[trigger] is_first_id(s, id, i))
    } else {
        None
    }
}

/// A node with id `id` at position `k` of `s` makes `node_index` find one,
/// at `k` or before.
pub proof fn lemma_node_index_found(s: Seq<NodeInfo>, id: Seq<char>, k: int)
    requires
        0 <= k < s.len(),
        s[k].node_id@ == id,
    ensures
        node_index(s, id) matches Some(i) && i <= k && is_first_id(s, id, i),
    decreases k,
{
    if forall|j: int| 0 <= j < k ==> s[j].node_id@ != id {
        assert(is_first_id(s, id, k));
        lemma_first_id_unique(s, id, k);
    } else {
        let j = choose|j: int| 0 <= j < k && s[j].node_id@ == id;
        lemma_node_index_found(s, id, j);
    }
}

/// The first position of an id is unique, so `node_index` names it.
pub proof fn lemma_first_id_unique(s: Seq<NodeInfo>, id: Seq<char>, k: int)
    requires
        is_first_id(s, id, k),
    ensures
        node_index(s, id) == Some(k),
{
    let i = choose|i: int| #[trigger] is_first_id(s, id, i);
    assert(is_first_id(s, id, i));
    if i < k {
        assert(s[i].node_id@ != id);
    } else if i > k {
        assert(s[k].node_id@ != id);
    }
}

/// Two sequences whose nodes carry the same ids, position by position, find
/// a node id at the same position.
pub proof fn lemma_node_index_same_ids(a: Seq<NodeInfo>, b: Seq<NodeInfo>, id: Seq<char>)
    requires
        a.len() == b.len(),
        forall|j: int| 0 <= j < a.len() ==> #[trigger] a[j].node_id == b[j].node_id,
    ensures
        node_index(a, id) == node_index(b, id),
{
    if let Some(i) = node_index(a, id) {
        assert(is_first_id(a, id, i));
        assert(is_first_id(b, id, i)) by {
            assert(a[i].node_id == b[i].node_id);
            assert forall|j: int| 0 <= j < i implies b[j].node_id@ != id by {
                assert(a[j].node_id == b[j].node_id);
            }
        }
        lemma_first_id_unique(b, id, i);
    } else if let Some(i) = node_index(b, id) {
        assert(is_first_id(b, id, i));
        assert(is_first_id(a, id, i)) by {
            assert(a[i].node_id == b[i].node_id);
            assert forall|j: int| 0 <= j < i implies a[j].node_id@ != id by {
                assert(a[j].node_id == b[j].node_id);
            }
        }
        lemma_first_id_unique(a, id, i);
    }
}

/// No two nodes of `s` share an id.
pub open spec fn distinct_ids(s: Seq<NodeInfo>) -> bool {
    forall|i: int, j: int| 0 <= i < s.len() && 0 <= j < s.len() && i != j ==> s[i].node_id@ != s[j].node_id@
}

/// Whether a node is a candidate for the requested name (`None` accepts all).
pub open spec fn name_accepts(node: NodeInfo, want: Option<Seq<char>>) -> bool {
    match want {
        Some(n) => node.name@ == n,
        None => true,
    }
}

/// Optional text as its characters.
pub open spec fn opt_text(o: Option<String>) -> Option<Seq<char>> {
    match o {
        Some(t) => Some(t@),
        None => None,
    }
}

/// `r` is a node `pick` may choose from `s` for the name `want`: `None` when
/// no node qualifies, otherwise a qualifying node with the fewest tunnels.
pub open spec fn is_pick(s: Seq<NodeInfo>, want: Option<Seq<char>>, r: Option<NodeInfo>) -> bool {
    &&& r is None <==> !exists|i: int| 0 <= i < s.len() && name_accepts(#[trigger] s[i], want)
    &&& r matches Some(n) ==> {
        &&& exists|i: int| 0 <= i < s.len() && #[trigger] s[i] == n
        &&& name_accepts(n, want)
        &&& forall|j: int|
            0 <= j < s.len() && name_accepts(#[trigger] s[j], want) ==> n.tunnel_count <= s[j].tunnel_count
    }
}

/// `s` with `info` registered: it replaces the node with its id, or joins
/// at the end.
pub open spec fn with_node(s: Seq<NodeInfo>, info: NodeInfo) -> Seq<NodeInfo> {
    match node_index(s, info.node_id@) {
        Some(i) => s.update(i, info),
        None => s.push(info),
    }
}

/// `s` without the node `id`.
pub open spec fn without_node(s: Seq<NodeInfo>, id: Seq<char>) -> Seq<NodeInfo> {
    match node_index(s, id) {
        Some(i) => s.remove(i),
        None => s,
    }
}

/// In a registry whose ids are distinct, removing node `id` leaves no node
/// with that id.
pub proof fn lemma_without_node_gone(s: Seq<NodeInfo>, id: Seq<char>)
    requires
        distinct_ids(s),
    ensures
        forall|j: int| 0 <= j < without_node(s, id).len() ==> (#[trigger] without_node(s, id)[j]).node_id@ != id,
        distinct_ids(without_node(s, id)),
{
    match node_index(s, id) {
        Some(i) => {
            assert(is_first_id(s, id, i));
            let t = s.remove(i);
            assert forall|j: int| 0 <= j < t.len() implies (#[trigger] t[j]).node_id@ != id by {
                let o = if j < i { j } else { j + 1 };
                assert(t[j] == s[o]);
            }
            assert forall|a: int, b: int| 0 <= a < t.len() && 0 <= b < t.len() && a != b implies t[a].node_id@
                != t[b].node_id@ by {
                let a0 = if a < i { a } else { a + 1 };
                let b0 = if b < i { b } else { b + 1 };
                assert(t[a] == s[a0] && t[b] == s[b0]);
            }
        },
        None => {
            assert forall|j: int| 0 <= j < s.len() implies (#[trigger] s[j]).node_id@ != id by {
                if s[j].node_id@ == id {
                    lemma_node_index_found(s, id, j);
                }
            }
        },
    }
}

/// `s` with one more tunnel counted on node `id`.
pub open spec fn with_more_tunnels(s: Seq<NodeInfo>, id: Seq<char>) -> Seq<NodeInfo> {
    match node_index(s, id) {
        Some(i) => s.update(i, NodeInfo { tunnel_count: (s[i].tunnel_count + 1) as usize, ..s[i] }),
        None => s,
    }
}

/// `s` with one tunnel fewer counted on node `id` (never below zero).
pub open spec fn with_fewer_tunnels(s: Seq<NodeInfo>, id: Seq<char>) -> Seq<NodeInfo> {
    match node_index(s, id) {
        Some(i) => s.update(
            i,
            NodeInfo {
                tunnel_count: if s[i].tunnel_count == 0 {
                    0
                } else {
                    (s[i].tunnel_count - 1) as usize
                },
                ..s[i]
            },
        ),
        None => s,
    }
}

/// Node `id`, if registered, can count one more tunnel.
pub open spec fn has_room(s: Seq<NodeInfo>, id: Seq<char>) -> bool {
    node_index(s, id) matches Some(i) ==> s[i].tunnel_count < usize::MAX
}

/// The registered nodes, keyed by `node_id`.
pub struct NodeManager {
    nodes: Vec<NodeInfo>,
}

impl NodeManager {
    /// The registered nodes, in registration order.
    pub closed spec fn entries(&self) -> Seq<NodeInfo> {
        self.nodes@
    }

    #[verifier::type_invariant]
    closed spec fn unique_ids(&self) -> bool {
        distinct_ids(self.nodes@)
    }

    /// Builds an empty manager.
    pub fn new() -> (m: Self)
        ensures
            distinct_ids(m.entries()),
            m.entries() == Seq::<NodeInfo>::empty(),
    {
        NodeManager { nodes: Vec::new() }
    }

    /// Position of the node `id`.
    fn position(&self, id: &str) -> (r: Option<usize>)
        ensures
            r matches Some(i) ==> node_index(self.nodes@, id@) == Some(i as int),
            r is None ==> node_index(self.nodes@, id@) is None,
            r is None ==> forall|j: int| 0 <= j < self.nodes@.len() ==> self.nodes@[j].node_id@ != id@,
    {
        let mut i: usize = 0;
        while i < self.nodes.len()
            invariant
                i <= self.nodes@.len(),
                forall|j: int| 0 <= j < i ==> self.nodes@[j].node_id@ != id@,
            decreases self.nodes@.len() - i,
        {
            if same_text(self.nodes[i].node_id.as_str(), id) {
                proof {
                    lemma_first_id_unique(self.nodes@, id@, i as int);
                }
                return Some(i);
            }
            i = i + 1;
        }
        None
    }

    /// Registers a new node with no tunnels, returning its fresh `node_id`.
    pub fn register(&mut self, name: String, host: String, data_port: u16) -> (node_id: String)
        ensures
            distinct_ids(old(self).entries()),
            distinct_ids(final(self).entries()),
            node_id@.len() == 36,
            is_uuid_v4_text(node_id@),
            final(self).entries() == with_node(
                old(self).entries(),
                NodeInfo { node_id, name, host, data_port, tunnel_count: 0 },
            ),
    {
        proof {
            use_type_invariant(&*self);
        }
        let node_id = new_uuid();
        let info = NodeInfo {
            node_id: node_id.clone(),
            name,
            host,
            data_port,
            tunnel_count: 0,
        };
        let found = self.position(node_id.as_str());
        let mut nodes = Vec::new();
        std::mem::swap(&mut nodes, &mut self.nodes);
        let ghost before = nodes@;
        match found {
            Some(i) => {
                assert(distinct_ids(before));
                assert(before[i as int].node_id@ == node_id@);
                nodes.set(i, info);
            },
            None => {
                nodes.push(info);
            },
        }
        assert(distinct_ids(nodes@));
        self.nodes = nodes;
        proof {
            use_type_invariant(&*self);
        }
        node_id
    }

    /// Removes a disconnected node. No-op if `node_id` is unknown.
    pub fn remove(&mut self, node_id: &str)
        ensures
            distinct_ids(old(self).entries()),
            distinct_ids(final(self).entries()),
            final(self).entries() == without_node(old(self).entries(), node_id@),
    {
        proof {
            use_type_invariant(&*self);
        }
        let found = self.position(node_id);
        if let Some(i) = found {
            let mut nodes = Vec::new();
            std::mem::swap(&mut nodes, &mut self.nodes);
            let ghost before = nodes@;
            assert(before[i as int].node_id@ == node_id@);
            nodes.remove(i);
            assert(distinct_ids(nodes@)) by {
                assert forall|a: int, b: int|
                    0 <= a < nodes@.len() && 0 <= b < nodes@.len() && a != b implies nodes@[a].node_id@
                    != nodes@[b].node_id@ by {
                    let a0 = if a < i { a } else { a + 1 };
                    let b0 = if b < i { b } else { b + 1 };
                    assert(nodes@[a] == before[a0]);
                    assert(nodes@[b] == before[b0]);
                }
            }
            self.nodes = nodes;
        }
        proof {
            use_type_invariant(&*self);
        }
    }

    /// Picks a node for a new tunnel: among the nodes with the requested name
    /// (all nodes when `name` is `None`), one with the fewest active tunnels.
    /// `None` if no node qualifies.
    pub fn pick(&self, name: Option<&str>) -> (r: Option<NodeInfo>)
        ensures
            distinct_ids(self.entries()),
            is_pick(
                self.entries(),
                match name {
                    Some(n) => Some(n@),
                    None => None,
                },
                r,
            ),
    {
        proof {
            use_type_invariant(self);
        }
        let ghost want = match name {
            Some(n) => Some(n@),
            None => None,
        };
        let mut best: Option<usize> = None;
        let mut i: usize = 0;
        while i < self.nodes.len()
            invariant
                want == match name {
                    Some(n) => Some(n@),
                    None => None,
                },
                i <= self.nodes@.len(),
                best is None <==> !exists|k: int| 0 <= k < i && name_accepts(#[trigger] self.nodes@[k], want),
                best matches Some(b) ==> {
                    &&& b < i
                    &&& name_accepts(self.nodes@[b as int], want)
                    &&& forall|j: int|
                        0 <= j < i && name_accepts(#[trigger] self.nodes@[j], want)
                            ==> self.nodes@[b as int].tunnel_count <= self.nodes@[j].tunnel_count
                },
            decreases self.nodes@.len() - i,
        {
            let node = &self.nodes[i];
            let accepted = match name {
                Some(n) => same_text(node.name.as_str(), n),
                None => true,
            };
            assert(accepted == name_accepts(self.nodes@[i as int], want));
            if accepted {
                match best {
                    Some(b) => {
                        if node.tunnel_count < self.nodes[b].tunnel_count {
                            best = Some(i);
                        }
                    },
                    None => {
                        best = Some(i);
                    },
                }
            }
            i = i + 1;
        }
        match best {
            Some(b) => {
                let chosen = self.nodes[b].duplicate();
                assert(self.entries()[b as int] == chosen);
                Some(chosen)
            },
            None => None,
        }
    }

    /// Active tunnels of `node_id`, if that node is registered.
    pub fn tunnel_count(&self, node_id: &str) -> (r: Option<usize>)
        ensures
            distinct_ids(self.entries()),
            match node_index(self.entries(), node_id@) {
                Some(i) => r == Some(self.entries()[i].tunnel_count),
                None => r is None,
            },
    {
        proof {
            use_type_invariant(self);
        }
        match self.position(node_id) {
            Some(i) => {
                Some(self.nodes[i].tunnel_count)
            },
            None => None,
        }
    }

    /// Sets the active-tunnel counter of the node at `i`.
    fn set_count(&mut self, i: usize, count: usize)
        requires
            i < old(self).nodes@.len(),
        ensures
            final(self).nodes@ == old(self).nodes@.update(
                i as int,
                NodeInfo { tunnel_count: count, ..old(self).nodes@[i as int] },
            ),
    {
        proof {
            use_type_invariant(&*self);
        }
        let mut node = self.nodes[i].duplicate();
        node.tunnel_count = count;
        let mut nodes = Vec::new();
        std::mem::swap(&mut nodes, &mut self.nodes);
        let ghost before = nodes@;
        nodes.set(i, node);
        assert(distinct_ids(nodes@)) by {
            assert forall|a: int, b: int|
                0 <= a < nodes@.len() && 0 <= b < nodes@.len() && a != b implies nodes@[a].node_id@
                != nodes@[b].node_id@ by {
                assert(nodes@[a].node_id == before[a].node_id);
                assert(nodes@[b].node_id == before[b].node_id);
            }
        }
        self.nodes = nodes;
    }

    /// Increments the active-tunnel counter for `node_id`. No-op if unknown.
    pub fn increment_tunnels(&mut self, node_id: &str)
        requires
            has_room(old(self).entries(), node_id@),
        ensures
            distinct_ids(old(self).entries()),
            distinct_ids(final(self).entries()),
            final(self).entries() == with_more_tunnels(old(self).entries(), node_id@),
    {
        proof {
            use_type_invariant(&*self);
        }
        if let Some(i) = self.position(node_id) {
            let count = self.nodes[i].tunnel_count + 1;
            self.set_count(i, count);
        }
        proof {
            use_type_invariant(&*self);
        }
    }

    /// Decrements the active-tunnel counter for `node_id`, saturating at zero.
    /// No-op if unknown.
    pub fn decrement_tunnels(&mut self, node_id: &str)
        ensures
            distinct_ids(old(self).entries()),
            distinct_ids(final(self).entries()),
            final(self).entries() == with_fewer_tunnels(old(self).entries(), node_id@),
    {
        proof {
            use_type_invariant(&*self);
        }
        if let Some(i) = self.position(node_id) {
            let count = self.nodes[i].tunnel_count.saturating_sub(1);
            self.set_count(i, count);
        }
        proof {
            use_type_invariant(&*self);
        }
    }

    /// A snapshot of all registered nodes.
    pub fn list(&self) -> (r: Vec<NodeInfo>)
        ensures
            distinct_ids(self.entries()),
            r@ == self.entries(),
    {
        proof {
            use_type_invariant(self);
        }
        let mut out: Vec<NodeInfo> = Vec::new();
        let mut i: usize = 0;
        while i < self.nodes.len()
            invariant
                i <= self.nodes@.len(),
                out@ == self.nodes@.subrange(0, i as int),
            decreases self.nodes@.len() - i,
        {
            out.push(self.nodes[i].duplicate());
            assert(out@ =~= self.nodes@.subrange(0, i + 1));
            i = i + 1;
        }
        assert(out@ =~= self.nodes@);
        out
    }
}

} // verus!
