//! The pool of public ports that the server hands out to tunnels.
//!
//! `PortManager` holds the ports of an inclusive range that are still free.
//! A port leaves the pool when a tunnel takes it and comes back when the
//! tunnel closes; ports outside the range never enter it.

use std::collections::HashSet;

use rand::seq::IteratorRandom;
use vstd::prelude::*;

verus! {

broadcast use vstd::std_specs::hash::group_hash_axioms;

/// `rand::seq::IteratorRandom::choose` over the set's elements, with the
/// thread-local generator. Claimed, as rand documents it: the result is `None`
/// exactly when the set is empty, and otherwise an element of the set. Which
/// element comes back is left open (it is random).
#[verifier::external_body]
fn choose_random(set: &HashSet<u16>) -> (r: Option<u16>)
    ensures
        r is None <==> set@.is_empty(),
        r matches Some(p) ==> set@.contains(p),
{
    set.iter().copied().choose(&mut rand::thread_rng())
}

/// The ports `start..=end`.
pub open spec fn port_range(start: u16, end: u16) -> Set<u16> {
    Set::new(|p: u16| start <= p <= end)
}

/// Manages the set of currently free ports within an inclusive range.
pub struct PortManager {
    /// Ports still available for assignment.
    available: HashSet<u16>,
    /// Inclusive `(start, end)` bounds of the managed range.
    range: (u16, u16),
}

impl PortManager {
    /// The free ports.
    pub closed spec fn free(&self) -> Set<u16> {
        self.available@
    }

    /// Lower bound of the managed range.
    pub closed spec fn low(&self) -> u16 {
        self.range.0
    }

    /// Upper bound of the managed range.
    pub closed spec fn high(&self) -> u16 {
        self.range.1
    }

    /// Whether `port` falls within the managed range.
    pub open spec fn spec_in_range(&self, port: u16) -> bool {
        self.low() <= port <= self.high()
    }

    /// Every free port lies in the managed range, and there are finitely
    /// many. Every pool keeps this; each operation states it of the pool it
    /// reads and of the pool it leaves.
    pub open spec fn within_range(&self) -> bool {
        &&& self.free().finite()
        &&& forall|p: u16| #[trigger] self.free().contains(p) ==> self.spec_in_range(p)
    }

    /// Every free port lies in the range, and there are finitely many.
    #[verifier::type_invariant]
    closed spec fn wf(&self) -> bool {
        &&& self.available@.finite()
        &&& forall|p: u16| #[trigger] self.available@.contains(p) ==> self.range.0 <= p <= self.range.1
    }

    /// Creates a pool with every port in `[start, end]` free.
    pub fn new(start: u16, end: u16) -> (pm: Self)
        ensures
            pm.low() == start,
            pm.high() == end,
            pm.within_range(),
            pm.free() == port_range(start, end),
            pm.free().len() == (if start <= end {
                end - start + 1
            } else {
                0
            }),
    {
        let mut available: HashSet<u16> = HashSet::new();
        let mut p: u32 = start as u32;
        let last: u32 = end as u32;
        while p <= last
            invariant
                start <= p <= last + 1 || (p == start && start > last),
                last == end,
                available@ == Set::new(|q: u16| start <= q && q < p),
                available@.finite(),
                available@.len() == p - start,
            decreases last + 1 - p,
        {
            let q = p as u16;
            assert(!available@.contains(q));
            available.insert(q);
            assert(available@ =~= Set::new(|r: u16| start <= r && r < p + 1));
            p = p + 1;
        }
        assert(available@ =~= port_range(start, end));
        PortManager { available, range: (start, end) }
    }

    /// Assigns a random free port, or `None` if the pool is exhausted. Choosing
    /// randomly (rather than sequentially) avoids immediately reusing a
    /// just-released port, which can race with lingering connections.
    pub fn acquire(&mut self) -> (r: Option<u16>)
        ensures
            old(self).within_range(),
            final(self).within_range(),
            final(self).low() == old(self).low(),
            final(self).high() == old(self).high(),
            r is None <==> old(self).free().is_empty(),
            r is None ==> final(self).free() == old(self).free(),
            r matches Some(p) ==> takes(*old(self), *final(self), p),
    {
        proof {
            use_type_invariant(&*self);
        }
        let chosen = choose_random(&self.available);
        if let Some(port) = chosen {
            let mut set = HashSet::new();
            std::mem::swap(&mut set, &mut self.available);
            set.remove(&port);
            self.available = set;
        }
        proof {
            use_type_invariant(&*self);
        }
        chosen
    }

    /// Assigns a specific port if it is within range and currently free.
    /// Returns `None` if the port is out of range or already taken.
    pub fn acquire_specific(&mut self, port: u16) -> (r: Option<u16>)
        ensures
            old(self).within_range(),
            final(self).within_range(),
            r is None ==> final(self).free() == old(self).free(),
            final(self).low() == old(self).low(),
            final(self).high() == old(self).high(),
            r == (if old(self).spec_in_range(port) && old(self).free().contains(port) {
                Some(port)
            } else {
                None
            }),
            final(self).free() == old(self).free().remove(port),
    {
        proof {
            use_type_invariant(&*self);
        }
        if !self.in_range(port) {
            return None;
        }
        let mut set = HashSet::new();
        std::mem::swap(&mut set, &mut self.available);
        let was_free = set.remove(&port);
        self.available = set;
        proof {
            use_type_invariant(&*self);
        }
        if was_free {
            Some(port)
        } else {
            None
        }
    }

    /// Returns a port to the pool. Ports outside the configured range are
    /// ignored to avoid corrupting the pool.
    pub fn release(&mut self, port: u16)
        ensures
            old(self).within_range(),
            final(self).within_range(),
            gives_back(*old(self), *final(self), port),
    {
        proof {
            use_type_invariant(&*self);
        }
        if !self.in_range(port) {
            return ;
        }
        let mut set = HashSet::new();
        std::mem::swap(&mut set, &mut self.available);
        set.insert(port);
        self.available = set;
        proof {
            use_type_invariant(&*self);
        }
    }

    /// Number of ports still available.
    pub fn available_count(&self) -> (n: usize)
        ensures
            self.within_range(),
            n == self.free().len(),
    {
        proof {
            use_type_invariant(self);
        }
        self.available.len()
    }

    /// Whether `port` falls within the configured inclusive range.
    pub fn in_range(&self, port: u16) -> (r: bool)
        ensures
            self.within_range(),
            r == self.spec_in_range(port),
    {
        proof {
            use_type_invariant(self);
        }
        port >= self.range.0 && port <= self.range.1
    }
}

/// `after` is the pool `before` once `port` has been handed out: the port
/// was free and in range, and is free no more.
pub open spec fn takes(before: PortManager, after: PortManager, port: u16) -> bool {
    &&& before.free().contains(port)
    &&& before.spec_in_range(port)
    &&& after.free() == before.free().remove(port)
    &&& after.low() == before.low()
    &&& after.high() == before.high()
}

/// `after` is the pool `before` once `port` has been given back (a port
/// outside the range is ignored).
pub open spec fn gives_back(before: PortManager, after: PortManager, port: u16) -> bool {
    &&& after.free() == (if before.spec_in_range(port) {
        before.free().insert(port)
    } else {
        before.free()
    })
    &&& after.low() == before.low()
    &&& after.high() == before.high()
}

/// A port that a tunnel took and gave back is free again: the pool is as it
/// was before the tunnel took it.
pub proof fn law_release_restores_acquire(before: PortManager, taken: PortManager, after: PortManager, port: u16)
    requires
        takes(before, taken, port),
        gives_back(taken, after, port),
    ensures
        after.free() == before.free(),
{
    assert(after.free() =~= before.free());
}

/// A port that has been handed out is not handed out again until it is
/// given back.
pub proof fn law_taken_port_not_free(before: PortManager, taken: PortManager, later: PortManager, port: u16, other: u16)
    requires
        takes(before, taken, port),
        takes(taken, later, other),
    ensures
        other != port,
{
}

} // verus!
