//! The per-IP cap on painter connections.
use vstd::prelude::*;
use std::collections::HashMap;
use vstd::multiset::Multiset;

verus! {

broadcast use vstd::std_specs::hash::group_hash_axioms;

/// Painter connections allowed at once from one IP address.
pub const MAX_CONNECTIONS_PER_IP: usize = 2;

/// Open connections per IP address. An address is its IPv6 form as a
/// 128-bit number, IPv4 addresses in their mapped form.
pub struct ConnectionLimiter {
    connections_per_ip: HashMap<u128, usize>,
    /// One entry per admitted connection that has not been released.
    live: Ghost<Multiset<u128>>,
}

impl ConnectionLimiter {
    pub closed spec fn counts(&self) -> Map<u128, usize> {
        self.connections_per_ip@
    }

    /// The connections admitted and not yet released, by address.
    pub closed spec fn live(&self) -> Multiset<u128> {
        self.live@
    }

    /// The counter of each address equals its number of live connections;
    /// addresses with none have no entry (no entry is ever 0); no address
    /// is over the cap.
    pub open spec fn wf(&self) -> bool {
        &&& forall|ip: u128| #[trigger] self.counts().contains_key(ip) ==> self.counts()[ip] == self.live().count(ip)
            && self.counts()[ip] > 0
        &&& forall|ip: u128| !#[trigger] self.counts().contains_key(ip) ==> self.live().count(ip) == 0
        &&& forall|ip: u128| #[trigger] self.live().count(ip) <= MAX_CONNECTIONS_PER_IP
    }

    pub fn new() -> (r: Self)
        ensures
            r.wf(),
            r.live() =~= Multiset::empty(),
    {
        let ghost none: Multiset<u128> = Multiset::empty();
        ConnectionLimiter { connections_per_ip: HashMap::new(), live: Ghost(none) }
    }

    /// The number of live connections from `ip`.
    pub fn connections(&self, ip: u128) -> (r: usize)
        requires
            self.wf(),
        ensures
            r == self.live().count(ip),
    {
        match self.connections_per_ip.get(&ip) {
            Some(n) => {
                assert(self.counts().contains_key(ip));
                *n
            },
            None => {
                assert(!self.counts().contains_key(ip));
                0
            },
        }
    }

    /// Admits one more connection from `ip` unless it already has the
    /// maximum; says whether it was admitted.
    pub fn check_and_increment_connection_limit(&mut self, ip: u128) -> (r: bool)
        requires
            old(self).wf(),
        ensures
            final(self).wf(),
            r == (old(self).live().count(ip) < MAX_CONNECTIONS_PER_IP),
            r ==> final(self).live() == old(self).live().insert(ip) && final(self).counts() == old(
                self,
            ).counts().insert(ip, (old(self).live().count(ip) + 1) as usize),
            !r ==> final(self).live() == old(self).live() && final(self).counts() == old(self).counts(),
    {
        let n = self.connections(ip);
        if n >= MAX_CONNECTIONS_PER_IP {
            return false;
        }
        let ghost o = *self;
        self.connections_per_ip.insert(ip, n + 1);
        self.live = Ghost(self.live@.insert(ip));
        assert forall|x: u128| #[trigger] self.live().count(x) <= MAX_CONNECTIONS_PER_IP && (self.counts().contains_key(x)
            ==> self.counts()[x] == self.live().count(x) && self.counts()[x] > 0) && (!self.counts().contains_key(x) ==> self.live().count(x)
            == 0) by {
            assert(o.counts().contains_key(x) ==> o.counts()[x] == o.live().count(x) && o.counts()[x] > 0);
            assert(!o.counts().contains_key(x) ==> o.live().count(x) == 0);
            assert(o.live().count(x) <= MAX_CONNECTIONS_PER_IP);
        }
        true
    }

    /// Releases one connection from `ip`; the entry goes once none is left.
    /// Releasing an address with no live connection changes nothing.
    pub fn dec_connections(&mut self, ip: u128)
        requires
            old(self).wf(),
        ensures
            final(self).wf(),
            final(self).live() == old(self).live().remove(ip),
            final(self).counts() == (if old(self).live().count(ip) <= 1 {
                old(self).counts().remove(ip)
            } else {
                old(self).counts().insert(ip, (old(self).live().count(ip) - 1) as usize)
            }),
    {
        let n = self.connections(ip);
        if n == 0 {
            assert(self.live@.remove(ip) =~= self.live@);
            assert(self.counts().remove(ip) =~= self.counts());
            return;
        }
        let ghost o = *self;
        if n <= 1 {
            self.connections_per_ip.remove(&ip);
        } else {
            self.connections_per_ip.insert(ip, n - 1);
        }
        self.live = Ghost(self.live@.remove(ip));
        assert forall|x: u128| #[trigger] self.live().count(x) <= MAX_CONNECTIONS_PER_IP && (self.counts().contains_key(x)
            ==> self.counts()[x] == self.live().count(x) && self.counts()[x] > 0) && (!self.counts().contains_key(x) ==> self.live().count(x)
            == 0) by {
            assert(o.counts().contains_key(x) ==> o.counts()[x] == o.live().count(x) && o.counts()[x] > 0);
            assert(!o.counts().contains_key(x) ==> o.live().count(x) == 0);
            assert(o.live().count(x) <= MAX_CONNECTIONS_PER_IP);
        }
    }
}

/// The counter of each address is the number of its connections that
/// were admitted and have not been released; an address without any has
/// no entry.
pub proof fn lemma_counter_matches_live(l: ConnectionLimiter, ip: u128)
    requires
        l.wf(),
    ensures
        l.counts().contains_key(ip) ==> l.counts()[ip] == l.live().count(ip) && l.counts()[ip] > 0,
        !l.counts().contains_key(ip) ==> l.live().count(ip) == 0,
{
}

} // verus!
