//! The registry of discovered peers: a mapping from network address to peer
//! identity. Addresses are unique; the first-seen name for an address wins and
//! is never overwritten.

use vstd::prelude::*;

use crate::bytes::copy_range;

verus! {

/// A peer's network address: IPv4 address and TCP port, as plain integers.
#[derive(Clone, Copy, Debug, PartialEq, Eq, Structural)]
pub struct PeerAddr {
    pub ip: u32,
    pub port: u16,
}

/// A known peer: its address and its display name (UTF-8 bytes).
pub struct Peer {
    pub addr: PeerAddr,
    pub name: Vec<u8>,
}

/// No two entries of `s` share an address.
pub open spec fn unique_addrs(s: Seq<Peer>) -> bool {
    forall|i: int, j: int|
        0 <= i < j < s.len() ==> (#[trigger] s[i]).addr != (#[trigger] s[j]).addr
}

/// The mapping that a sequence of peers denotes.
pub open spec fn peers_map(s: Seq<Peer>) -> Map<PeerAddr, Seq<u8>>
    decreases s.len(),
{
    if s.len() == 0 {
        Map::empty()
    } else {
        peers_map(s.drop_last()).insert(s.last().addr, s.last().name@)
    }
}

/// An address is in the mapping exactly when some entry carries it.
proof fn lemma_peers_map_dom(s: Seq<Peer>)
    ensures
        forall|a: PeerAddr| #[trigger]
            peers_map(s).contains_key(a) <==> exists|i: int|
                0 <= i < s.len() && (#[trigger] s[i]).addr == a,
    decreases s.len(),
{
    if s.len() > 0 {
        lemma_peers_map_dom(s.drop_last());
        assert forall|a: PeerAddr| #[trigger]
            peers_map(s).contains_key(a) implies exists|i: int|
            0 <= i < s.len() && (#[trigger] s[i]).addr == a by {
            if s.last().addr == a {
                assert(s[s.len() - 1].addr == a);
            } else {
                assert(peers_map(s.drop_last()).contains_key(a));
                let i = choose|i: int|
                    0 <= i < s.drop_last().len() && (#[trigger] s.drop_last()[i]).addr == a;
                assert(s.drop_last()[i] == s[i]);
                assert(s[i].addr == a);
            }
        }
        assert forall|a: PeerAddr|
            (exists|i: int| 0 <= i < s.len() && (#[trigger] s[i]).addr == a) implies #[trigger]
            peers_map(s).contains_key(a) by {
            let i = choose|i: int| 0 <= i < s.len() && (#[trigger] s[i]).addr == a;
            if i < s.len() - 1 {
                assert(s.drop_last()[i] == s[i]);
                assert(s.drop_last()[i].addr == a);
                assert(peers_map(s.drop_last()).contains_key(a));
            } else {
                assert(s.last().addr == a);
            }
        }
    }
}

/// Under unique addresses, the mapping holds each entry's name at its address.
proof fn lemma_peers_map_at(s: Seq<Peer>, i: int)
    requires
        unique_addrs(s),
        0 <= i < s.len(),
    ensures
        peers_map(s).contains_key(s[i].addr),
        peers_map(s)[s[i].addr] == s[i].name@,
    decreases s.len(),
{
    if i < s.len() - 1 {
        assert(unique_addrs(s.drop_last())) by {
            assert(forall|p: int, q: int|
                0 <= p < q < s.drop_last().len() ==> (#[trigger] s.drop_last()[p]).addr != (
                #[trigger] s.drop_last()[q]).addr);
        }
        lemma_peers_map_at(s.drop_last(), i);
        assert(s.drop_last()[i] == s[i]);
        assert(s[i].addr != s.last().addr);
    }
}

/// What an upsert does to the mapping: nothing when the address is already
/// present, otherwise it binds the address to the given name.
pub open spec fn spec_upsert(
    m: Map<PeerAddr, Seq<u8>>,
    addr: PeerAddr,
    name: Seq<u8>,
) -> Map<PeerAddr, Seq<u8>> {
    if m.contains_key(addr) {
        m
    } else {
        m.insert(addr, name)
    }
}

/// First-seen name wins: upserting a second name for the same address changes
/// nothing, and the entry still carries the first name.
pub proof fn lemma_upsert_first_wins(
    m: Map<PeerAddr, Seq<u8>>,
    addr: PeerAddr,
    n1: Seq<u8>,
    n2: Seq<u8>,
)
    ensures
        spec_upsert(spec_upsert(m, addr, n1), addr, n2) == spec_upsert(m, addr, n1),
        !m.contains_key(addr) ==> spec_upsert(m, addr, n1)[addr] == n1,
{
    assert(spec_upsert(m, addr, n1).contains_key(addr));
}

/// The registry itself: a vector of peers with pairwise distinct addresses,
/// viewed as a mapping from address to name.
pub struct PeerRegistry {
    peers: Vec<Peer>,
}

impl View for PeerRegistry {
    type V = Map<PeerAddr, Seq<u8>>;

    closed spec fn view(&self) -> Map<PeerAddr, Seq<u8>> {
        peers_map(self.peers@)
    }
}

impl PeerRegistry {
    /// Addresses are pairwise distinct.
    pub closed spec fn wf(&self) -> bool {
        unique_addrs(self.peers@)
    }

    /// An empty registry.
    pub fn new() -> (r: PeerRegistry)
        ensures
            r.wf(),
            r@ == Map::<PeerAddr, Seq<u8>>::empty(),
    {
        PeerRegistry { peers: Vec::new() }
    }

    /// The index of the entry for `addr`, if any.
    fn find(&self, addr: PeerAddr) -> (r: Option<usize>)
        ensures
            r matches Some(i) ==> i < self.peers@.len() && self.peers@[i as int].addr == addr,
            r is None ==> forall|i: int|
                0 <= i < self.peers@.len() ==> (#[trigger] self.peers@[i]).addr != addr,
    {
        let mut i: usize = 0;
        while i < self.peers.len()
            invariant
                i <= self.peers@.len(),
                forall|j: int| 0 <= j < i ==> (#[trigger] self.peers@[j]).addr != addr,
            decreases self.peers@.len() - i,
        {
            if self.peers[i].addr == addr {
                return Some(i);
            }
            i = i + 1;
        }
        None
    }

    /// Whether `addr` is registered.
    pub fn contains(&self, addr: PeerAddr) -> (r: bool)
        ensures
            r == self@.contains_key(addr),
    {
        proof {
            lemma_peers_map_dom(self.peers@);
        }
        match self.find(addr) {
            Some(_) => true,
            None => false,
        }
    }

    /// Insert `addr -> name` if `addr` is absent and report a new peer;
    /// otherwise change nothing (the first-seen name wins).
    pub fn upsert(&mut self, addr: PeerAddr, name: Vec<u8>) -> (is_new: bool)
        requires
            old(self).wf(),
        ensures
            final(self).wf(),
            final(self)@ == spec_upsert(old(self)@, addr, name@),
            is_new == !old(self)@.contains_key(addr),
    {
        proof {
            lemma_peers_map_dom(self.peers@);
        }
        match self.find(addr) {
            Some(_) => false,
            None => {
                let ghost s0 = self.peers@;
                self.peers.push(Peer { addr, name });
                proof {
                    assert(self.peers@.drop_last() =~= s0);
                    assert(self.peers@.last().addr == addr);
                    assert(forall|i: int|
                        0 <= i < s0.len() ==> (#[trigger] s0[i]).addr != addr);
                    assert(unique_addrs(self.peers@)) by {
                        assert forall|i: int, j: int|
                            0 <= i < j < self.peers@.len() implies (#[trigger] self.peers@[
                            i]).addr != (#[trigger] self.peers@[j]).addr by {
                            if j == self.peers@.len() - 1 {
                                assert(self.peers@[i] == s0[i]);
                            } else {
                                assert(self.peers@[i] == s0[i]);
                                assert(self.peers@[j] == s0[j]);
                            }
                        }
                    }
                }
                true
            },
        }
    }

    /// Remove the entry for `addr` if present; a no-op if absent.
    pub fn remove(&mut self, addr: PeerAddr)
        requires
            old(self).wf(),
        ensures
            final(self).wf(),
            final(self)@ == old(self)@.remove(addr),
    {
        proof {
            lemma_peers_map_dom(self.peers@);
        }
        match self.find(addr) {
            None => {
                proof {
                    assert(!self@.contains_key(addr));
                    assert(self@.remove(addr) =~= self@);
                }
            },
            Some(i) => {
                let ghost s0 = self.peers@;
                self.peers.remove(i);
                proof {
                    lemma_peers_map_remove(s0, i as int);
                    assert(self.peers@ == s0.remove(i as int));
                    assert(unique_addrs(self.peers@)) by {
                        assert forall|p: int, q: int|
                            0 <= p < q < self.peers@.len() implies (#[trigger] self.peers@[
                            p]).addr != (#[trigger] self.peers@[q]).addr by {
                            let p0 = if p < i as int {
                                p
                            } else {
                                p + 1
                            };
                            let q0 = if q < i as int {
                                q
                            } else {
                                q + 1
                            };
                            assert(self.peers@[p] == s0[p0]);
                            assert(self.peers@[q] == s0[q0]);
                        }
                    }
                }
            },
        }
    }

    /// A point-in-time copy of every registered peer, addresses distinct, each
    /// entry exactly as the mapping has it, and every registered address
    /// present.
    pub fn snapshot(&self) -> (r: Vec<Peer>)
        requires
            self.wf(),
        ensures
            r@.len() == self@.dom().len(),
            unique_addrs(r@),
            forall|k: int|
                0 <= k < r@.len() ==> self@.contains_key((#[trigger] r@[k]).addr) && self@[r@[
                k].addr] == r@[k].name@,
            forall|a: PeerAddr| #[trigger]
                self@.contains_key(a) ==> exists|k: int| 0 <= k < r@.len() && (#[trigger] r@[
                    k]).addr == a,
    {
        let mut r: Vec<Peer> = Vec::new();
        let mut k: usize = 0;
        while k < self.peers.len()
            invariant
                k <= self.peers@.len(),
                r@.len() == k,
                forall|j: int|
                    0 <= j < k ==> (#[trigger] r@[j]).addr == self.peers@[j].addr && r@[j].name@
                        == self.peers@[j].name@,
            decreases self.peers@.len() - k,
        {
            let name = copy_range(&self.peers[k].name, 0, self.peers[k].name.len());
            let addr = self.peers[k].addr;
            proof {
                assert(name@ =~= self.peers@[k as int].name@);
            }
            r.push(Peer { addr, name });
            k = k + 1;
        }
        proof {
            lemma_peers_map_dom(self.peers@);
            assert forall|j: int| 0 <= j < r@.len() implies self@.contains_key(
                (#[trigger] r@[j]).addr) && self@[r@[j].addr] == r@[j].name@ by {
                lemma_peers_map_at(self.peers@, j);
            }
            assert forall|a: PeerAddr| #[trigger]
                self@.contains_key(a) implies exists|k2: int|
                0 <= k2 < r@.len() && (#[trigger] r@[k2]).addr == a by {
                let i = choose|i: int|
                    0 <= i < self.peers@.len() && (#[trigger] self.peers@[i]).addr == a;
                assert(r@[i].addr == a);
            }
            assert(unique_addrs(r@));
            lemma_peers_map_card(self.peers@);
        }
        r
    }
}

/// Under unique addresses, the mapping has exactly one key per entry.
proof fn lemma_peers_map_card(s: Seq<Peer>)
    requires
        unique_addrs(s),
    ensures
        peers_map(s).dom().len() == s.len(),
        peers_map(s).dom().finite(),
    decreases s.len(),
{
    if s.len() > 0 {
        assert(unique_addrs(s.drop_last())) by {
            assert(forall|p: int, q: int|
                0 <= p < q < s.drop_last().len() ==> (#[trigger] s.drop_last()[p]).addr != (
                #[trigger] s.drop_last()[q]).addr);
        }
        lemma_peers_map_card(s.drop_last());
        lemma_peers_map_dom(s.drop_last());
        assert(!peers_map(s.drop_last()).contains_key(s.last().addr)) by {
            if peers_map(s.drop_last()).contains_key(s.last().addr) {
                let i = choose|i: int|
                    0 <= i < s.drop_last().len() && (#[trigger] s.drop_last()[i]).addr
                        == s.last().addr;
                assert(s[i].addr == s[s.len() - 1].addr);
            }
        }
        vstd::set::axiom_set_insert_len(peers_map(s.drop_last()).dom(), s.last().addr);
        assert(peers_map(s).dom() =~= peers_map(s.drop_last()).dom().insert(s.last().addr));
    }
}

/// Removing the entry at `i` removes exactly its address from the mapping.
proof fn lemma_peers_map_remove(s: Seq<Peer>, i: int)
    requires
        unique_addrs(s),
        0 <= i < s.len(),
    ensures
        peers_map(s.remove(i)) == peers_map(s).remove(s[i].addr),
    decreases s.len(),
{
    let a = s[i].addr;
    lemma_peers_map_dom(s.drop_last());
    if i == s.len() - 1 {
        assert(s.remove(i) =~= s.drop_last());
        assert(!peers_map(s.drop_last()).contains_key(a)) by {
            if peers_map(s.drop_last()).contains_key(a) {
                let j = choose|j: int|
                    0 <= j < s.drop_last().len() && (#[trigger] s.drop_last()[j]).addr == a;
                assert(s[j].addr == s[i].addr);
            }
        }
        assert(peers_map(s).remove(a) =~= peers_map(s.drop_last()));
    } else {
        let s2 = s.remove(i);
        assert(unique_addrs(s.drop_last())) by {
            assert(forall|p: int, q: int|
                0 <= p < q < s.drop_last().len() ==> (#[trigger] s.drop_last()[p]).addr != (
                #[trigger] s.drop_last()[q]).addr);
        }
        lemma_peers_map_remove(s.drop_last(), i);
        assert(s2.last() == s.last());
        assert(s2.drop_last() =~= s.drop_last().remove(i));
        assert(s.drop_last()[i] == s[i]);
        assert(a != s.last().addr);
        assert(peers_map(s2) == peers_map(s.drop_last().remove(i)).insert(
            s.last().addr,
            s.last().name@,
        ));
        assert(peers_map(s.remove(i)) =~= peers_map(s).remove(a));
    }
}

} // verus!
