//! Decisions of the stack engine: where each ingress packet goes, the two
//! handshake modes with their pending-SYN buffer, the tunnel registry, and
//! when a socket's tunnel is pumped or reaped. The event loop that performs
//! these decisions against the TCP/IP library and the channels stands
//! outside the library.
use vstd::prelude::*;

use crate::constants::DEFAULT_MSS_CLAMP;
use crate::trap::{inspect_packet_with_mss, is_trapped_syn, packet_type, trap_dst, trapped_packet, Endpoint, PacketType, PrismTrap};
use crate::wire::Addr;
use std::collections::HashMap;

verus! {

/// Whether a SYN-ACK may be synthesized before the remote tunnel is ready.
#[derive(Debug, Clone, Copy, PartialEq, Eq, Structural)]
pub enum HandshakeMode {
    /// Accept at once and request the tunnel in parallel.
    Fast,
    /// Hold the SYN until the relayer confirms the tunnel.
    Consistent,
}

/// Configuration of the stack.
#[derive(Debug, Clone, Copy, PartialEq, Eq, Structural)]
pub struct PrismConfig {
    pub handshake_mode: HandshakeMode,
    /// Ceiling for the MSS option of trapped SYNs.
    pub egress_mtu: u16,
}

impl PrismConfig {
    /// A configuration with the given mode and the default MSS ceiling.
    pub fn new(handshake_mode: HandshakeMode) -> (r: Self)
        ensures
            r.handshake_mode == handshake_mode,
            r.egress_mtu == DEFAULT_MSS_CLAMP,
    {
        PrismConfig { handshake_mode, egress_mtu: DEFAULT_MSS_CLAMP }
    }
}

// ---------------------------------------------------------------------------
// Ingress routing

/// Where an ingress packet goes.
#[derive(Debug)]
pub enum IngressRoute {
    /// A pure TCP SYN: handed to the handshake controller.
    Trap(PrismTrap),
    /// Queued for the TCP/IP library, unchanged.
    Stack,
    /// Forwarded, unchanged, on the blind-relay channel.
    Relay,
}

/// Route an ingress packet: SYNs are trapped, other TCP goes to the stack,
/// other IP protocols go to the blind relay when one is configured (else to
/// the stack, which may answer "port unreachable"), and what is not IP goes
/// to the stack. On a medium that is not IP nothing is classified.
pub fn route_ingress(pkt: &[u8], config: &PrismConfig, relay_configured: bool, medium_is_ip: bool) -> (r: IngressRoute)
    ensures
        !medium_is_ip ==> r is Stack,
        medium_is_ip ==> match packet_type(pkt@) {
            PacketType::Tcp => if is_trapped_syn(pkt@) {
                r matches IngressRoute::Trap(t) && t.dst == trap_dst(pkt@) && t.packet@
                    == trapped_packet(pkt@, config.egress_mtu)
            } else {
                r is Stack
            },
            PacketType::Other => if relay_configured {
                r is Relay
            } else {
                r is Stack
            },
            PacketType::Unknown => r is Stack,
        },
{
    if !medium_is_ip {
        return IngressRoute::Stack;
    }
    match crate::trap::get_packet_type(pkt) {
        PacketType::Tcp => match inspect_packet_with_mss(pkt, config.egress_mtu) {
            Some(t) => IngressRoute::Trap(t),
            None => IngressRoute::Stack,
        },
        PacketType::Other => if relay_configured {
            IngressRoute::Relay
        } else {
            IngressRoute::Stack
        },
        PacketType::Unknown => IngressRoute::Stack,
    }
}

/// Prefix length under which a trapped destination is added to the
/// interface: a single host.
pub fn host_prefix_len(addr: &Addr) -> (r: u8)
    ensures
        r == (if addr.is_v4() { 32u8 } else { 128u8 }),
{
    match addr {
        Addr::V4(_) => 32,
        Addr::V6(_) => 128,
    }
}

/// A locally administered unicast MAC address made from random bytes: the
/// multicast bit of the first byte cleared and the local bit set.
pub fn local_unicast_mac(bytes: [u8; 6]) -> (r: [u8; 6])
    ensures
        r@[0] == (bytes@[0] & 0xfe) | 0x02,
        forall|i: int| 1 <= i < 6 ==> r@[i] == bytes@[i],
{
    let mut r = bytes;
    r[0] = (bytes[0] & 0xfe) | 0x02;
    r
}

/// Whether two endpoints are the same.
pub fn same_endpoint(a: &Endpoint, b: &Endpoint) -> (r: bool)
    ensures
        r == (*a == *b),
{
    if a.port != b.port {
        return false;
    }
    match (&a.addr, &b.addr) {
        (Addr::V4(x), Addr::V4(y)) => {
            let mut i: usize = 0;
            while i < 4
                invariant
                    0 <= i <= 4,
                    a.addr == Addr::V4(*x),
                    b.addr == Addr::V4(*y),
                    forall|k: int| 0 <= k < i ==> x@[k] == y@[k],
                decreases 4 - i,
            {
                if x[i] != y[i] {
                    assert(x@[i as int] != y@[i as int]);
                    return false;
                }
                i = i + 1;
            }
            assert(*x =~= *y);
            true
        },
        (Addr::V6(x), Addr::V6(y)) => {
            let mut i: usize = 0;
            while i < 16
                invariant
                    0 <= i <= 16,
                    a.addr == Addr::V6(*x),
                    b.addr == Addr::V6(*y),
                    forall|k: int| 0 <= k < i ==> x@[k] == y@[k],
                decreases 16 - i,
            {
                if x[i] != y[i] {
                    assert(x@[i as int] != y@[i as int]);
                    return false;
                }
                i = i + 1;
            }
            assert(*x =~= *y);
            true
        },
        _ => false,
    }
}

// ---------------------------------------------------------------------------
// Handshake control

/// A SYN held until its tunnel is confirmed, with the stack's ends of the
/// tunnel's channels.
pub struct PendingSyn<C> {
    pub trap: PrismTrap,
    pub channels: C,
}

/// The SYNs held in Consistent mode, keyed by their destination.
pub struct PendingSyns<C> {
    entries: Vec<PendingSyn<C>>,
    held: Ghost<Map<Endpoint, PendingSyn<C>>>,
}

impl<C> PendingSyns<C> {
    /// Each held destination with what is held for it.
    pub closed spec fn view(&self) -> Map<Endpoint, PendingSyn<C>> {
        self.held@
    }

    pub closed spec fn wf(&self) -> bool {
        &&& forall|i: int|
            0 <= i < self.entries@.len() ==> #[trigger] self.held@.contains_key(
                self.entries@[i].trap.dst,
            ) && self.held@[self.entries@[i].trap.dst] == self.entries@[i]
        &&& forall|i: int, j: int|
            0 <= i < self.entries@.len() && 0 <= j < self.entries@.len() && i != j
                ==> #[trigger] self.entries@[i].trap.dst != #[trigger] self.entries@[j].trap.dst
        &&& forall|k: Endpoint|
            #[trigger] self.held@.contains_key(k) ==> exists|i: int|
                0 <= i < self.entries@.len() && self.entries@[i].trap.dst == k
    }

    pub fn new() -> (r: Self)
        ensures
            r.wf(),
            r@ == Map::<Endpoint, PendingSyn<C>>::empty(),
    {
        PendingSyns { entries: Vec::new(), held: Ghost(Map::empty()) }
    }

    /// Number of held SYNs.
    pub fn len(&self) -> (r: usize)
        requires
            self.wf(),
        ensures
            r == self@.len(),
    {
        proof {
            self.lemma_len();
        }
        self.entries.len()
    }

    pub fn is_empty(&self) -> (r: bool)
        requires
            self.wf(),
        ensures
            r == (self@.len() == 0),
    {
        self.len() == 0
    }

    /// Whether a SYN is held for `target`.
    pub fn contains(&self, target: &Endpoint) -> (r: bool)
        requires
            self.wf(),
        ensures
            r == self@.contains_key(*target),
    {
        self.find(target).is_some()
    }

    proof fn lemma_len(&self)
        requires
            self.wf(),
        ensures
            self.entries@.len() == self@.len(),
            self@.dom().finite(),
    {
        let keys = self.entries@.map_values(|e: PendingSyn<C>| e.trap.dst);
        assert forall|i: int, j: int| 0 <= i < j < keys.len() implies keys[i] != keys[j] by {
            assert(self.entries@[i].trap.dst != self.entries@[j].trap.dst);
        }
        assert(keys.no_duplicates());
        keys.unique_seq_to_set();
        assert forall|k: Endpoint| keys.to_set().contains(k) <==> self.held@.dom().contains(k) by {
            if keys.to_set().contains(k) {
                let i = choose|i: int| 0 <= i < keys.len() && keys[i] == k;
                assert(self.held@.contains_key(self.entries@[i].trap.dst));
            }
            if self.held@.dom().contains(k) {
                let i = choose|i: int| 0 <= i < self.entries@.len() && self.entries@[i].trap.dst == k;
                assert(keys[i] == k);
            }
        }
        assert(keys.to_set() =~= self.held@.dom());
    }

    fn find(&self, target: &Endpoint) -> (r: Option<usize>)
        requires
            self.wf(),
        ensures
            match r {
                Some(i) => i < self.entries@.len() && self.entries@[i as int].trap.dst == *target,
                None => !self@.contains_key(*target),
            },
    {
        let mut i: usize = 0;
        while i < self.entries.len()
            invariant
                self.wf(),
                0 <= i <= self.entries@.len(),
                forall|j: int| 0 <= j < i ==> self.entries@[j].trap.dst != *target,
            decreases self.entries@.len() - i,
        {
            if same_endpoint(&self.entries[i].trap.dst, target) {
                return Some(i);
            }
            i = i + 1;
        }
        None
    }

    /// Take out the entry at `i`, whose destination is `target`.
    fn take_at(&mut self, i: usize, target: &Endpoint) -> (r: PendingSyn<C>)
        requires
            old(self).wf(),
            i < old(self).entries@.len(),
            old(self).entries@[i as int].trap.dst == *target,
        ensures
            final(self).wf(),
            old(self)@.contains_key(*target),
            final(self)@ == old(self)@.remove(*target),
            r == old(self)@[*target],
    {
        let ghost before = self.entries@;
        let entry = self.entries.remove(i);
        proof {
            assert(old(self).held@.contains_key(before[i as int].trap.dst));
            self.held@ = self.held@.remove(*target);
            assert forall|x: int| 0 <= x < self.entries@.len() implies #[trigger] self.held@.contains_key(
                self.entries@[x].trap.dst,
            ) && self.held@[self.entries@[x].trap.dst] == self.entries@[x] by {
                let y = if x < i { x } else { x + 1 };
                assert(self.entries@[x] == before[y]);
                assert(before[y].trap.dst != before[i as int].trap.dst);
                assert(old(self).held@.contains_key(before[y].trap.dst));
            }
            assert forall|x: int, z: int|
                0 <= x < self.entries@.len() && 0 <= z < self.entries@.len() && x != z
                    implies #[trigger] self.entries@[x].trap.dst != #[trigger] self.entries@[z].trap.dst by {
                let xx = if x < i { x } else { x + 1 };
                let zz = if z < i { z } else { z + 1 };
                assert(self.entries@[x] == before[xx]);
                assert(self.entries@[z] == before[zz]);
            }
            assert forall|k: Endpoint| #[trigger] self.held@.contains_key(k) implies exists|x: int|
                0 <= x < self.entries@.len() && self.entries@[x].trap.dst == k by {
                assert(old(self).held@.contains_key(k));
                let j = choose|j: int| 0 <= j < before.len() && before[j].trap.dst == k;
                assert(j != i);
                let x = if j < i { j } else { j - 1 };
                assert(self.entries@[x] == before[j]);
            }
        }
        entry
    }

    /// Hold `trap` with its channels. What was held for the same
    /// destination, if anything, is handed back rather than dropped.
    pub fn insert(&mut self, trap: PrismTrap, channels: C) -> (r: Option<PendingSyn<C>>)
        requires
            old(self).wf(),
        ensures
            final(self).wf(),
            final(self)@ == old(self)@.insert(trap.dst, PendingSyn { trap, channels }),
            r is Some <==> old(self)@.contains_key(trap.dst),
            r matches Some(p) ==> p == old(self)@[trap.dst],
    {
        let key = trap.dst;
        let replaced = match self.find(&key) {
            Some(i) => Some(self.take_at(i, &key)),
            None => None,
        };
        let ghost mid = self.held@;
        let ghost mid_entries = self.entries@;
        let entry = PendingSyn { trap, channels };
        let ghost e = entry;
        self.entries.push(entry);
        proof {
            assert(!mid.contains_key(key));
            self.held@ = self.held@.insert(key, e);
            let n = mid_entries.len() as int;
            assert forall|x: int| 0 <= x < self.entries@.len() implies #[trigger] self.held@.contains_key(
                self.entries@[x].trap.dst,
            ) && self.held@[self.entries@[x].trap.dst] == self.entries@[x] by {
                if x < n {
                    assert(self.entries@[x] == mid_entries[x]);
                    assert(mid.contains_key(mid_entries[x].trap.dst));
                }
            }
            assert forall|x: int, z: int|
                0 <= x < self.entries@.len() && 0 <= z < self.entries@.len() && x != z
                    implies #[trigger] self.entries@[x].trap.dst != #[trigger] self.entries@[z].trap.dst by {
                if x < n {
                    assert(mid.contains_key(mid_entries[x].trap.dst));
                }
                if z < n {
                    assert(mid.contains_key(mid_entries[z].trap.dst));
                }
            }
            assert forall|k: Endpoint| #[trigger] self.held@.contains_key(k) implies exists|i: int|
                0 <= i < self.entries@.len() && self.entries@[i].trap.dst == k by {
                if k == key {
                    assert(self.entries@[n].trap.dst == k);
                } else {
                    assert(mid.contains_key(k));
                    let j = choose|j: int| 0 <= j < n && mid_entries[j].trap.dst == k;
                    assert(self.entries@[j].trap.dst == k);
                }
            }
            assert(self.held@ =~= old(self)@.insert(key, e));
        }
        replaced
    }

    /// Release the SYN held for `target` once the relayer has answered: it
    /// leaves the buffer either way, and is handed back only on success.
    pub fn resolve(&mut self, target: &Endpoint, success: bool) -> (r: Option<PendingSyn<C>>)
        requires
            old(self).wf(),
        ensures
            final(self).wf(),
            final(self)@ == old(self)@.remove(*target),
            r is Some <==> (success && old(self)@.contains_key(*target)),
            r matches Some(p) ==> p == old(self)@[*target],
    {
        match self.find(target) {
            Some(i) => {
                let entry = self.take_at(i, target);
                if success {
                    Some(entry)
                } else {
                    None
                }
            },
            None => {
                proof {
                    assert(self.held@ =~= old(self).held@.remove(*target));
                }
                None
            },
        }
    }
}

/// What the stack does with a trapped SYN.
#[derive(Debug, Clone, Copy, PartialEq, Eq, Structural)]
pub enum TrapPlan {
    /// Listen at once, re-inject the SYN, and request a tunnel without
    /// waiting for it.
    ListenNow,
    /// Request a tunnel with a confirmation channel and hold the SYN until
    /// the relayer answers.
    HoldForConfirmation,
    /// A SYN for this destination is already held: this one is a
    /// retransmission and is dropped; the held one is released on
    /// confirmation.
    AwaitPending,
    /// A tunnel to this destination is live: hand the SYN to the stack,
    /// whose TCP state machine absorbs the duplicate.
    InjectOnly,
}

/// Some live tunnel was requested for `target`.
pub open spec fn has_tunnel_to<H, S>(tunnels: Map<u64, Tunnel<H, S>>, target: Endpoint) -> bool {
    exists|id: u64| #[trigger] tunnels.contains_key(id) && tunnels[id].target == target
}

/// No SYN is held for a destination that already has a live tunnel.
pub open spec fn no_pending_with_tunnel<C, H, S>(
    pending: Map<Endpoint, PendingSyn<C>>,
    tunnels: Map<u64, Tunnel<H, S>>,
) -> bool {
    forall|k: Endpoint| #[trigger] pending.contains_key(k) ==> !has_tunnel_to(tunnels, k)
}

/// The plan for a trapped SYN addressed to `target`. Fast mode always
/// listens at once. Consistent mode holds the SYN only when no tunnel to
/// `target` is live and no SYN for it is held already.
pub fn plan_trap<C, H, S>(
    config: &PrismConfig,
    pending: &PendingSyns<C>,
    tunnels: &TunnelRegistry<H, S>,
    target: &Endpoint,
) -> (r: TrapPlan)
    requires
        pending.wf(),
        tunnels.wf(),
    ensures
        config.handshake_mode == HandshakeMode::Fast ==> r == TrapPlan::ListenNow,
        config.handshake_mode == HandshakeMode::Consistent ==> r == (if has_tunnel_to(
            tunnels@,
            *target,
        ) {
            TrapPlan::InjectOnly
        } else if pending@.contains_key(*target) {
            TrapPlan::AwaitPending
        } else {
            TrapPlan::HoldForConfirmation
        }),
{
    match config.handshake_mode {
        HandshakeMode::Fast => TrapPlan::ListenNow,
        HandshakeMode::Consistent => {
            if tunnels.has_target(target) {
                TrapPlan::InjectOnly
            } else if pending.contains(target) {
                TrapPlan::AwaitPending
            } else {
                TrapPlan::HoldForConfirmation
            }
        },
    }
}

/// Holding a SYN as planned keeps every held destination free of live
/// tunnels.
pub proof fn lemma_hold_keeps_no_pending_with_tunnel<C, H, S>(
    pending: Map<Endpoint, PendingSyn<C>>,
    tunnels: Map<u64, Tunnel<H, S>>,
    entry: PendingSyn<C>,
)
    requires
        no_pending_with_tunnel(pending, tunnels),
        !has_tunnel_to(tunnels, entry.trap.dst),
    ensures
        no_pending_with_tunnel(pending.insert(entry.trap.dst, entry), tunnels),
{
}

/// Releasing the SYN held for `target` and registering its tunnel keeps
/// every held destination free of live tunnels.
pub proof fn lemma_commit_keeps_no_pending_with_tunnel<C, H, S>(
    pending: Map<Endpoint, PendingSyn<C>>,
    tunnels: Map<u64, Tunnel<H, S>>,
    target: Endpoint,
    id: u64,
    tunnel: Tunnel<H, S>,
)
    requires
        no_pending_with_tunnel(pending, tunnels),
        tunnel.target == target,
    ensures
        no_pending_with_tunnel(pending.remove(target), tunnels.insert(id, tunnel)),
{
    let p = pending.remove(target);
    let t = tunnels.insert(id, tunnel);
    assert forall|k: Endpoint| #[trigger] p.contains_key(k) implies !has_tunnel_to(t, k) by {
        assert(pending.contains_key(k) && k != target);
        if has_tunnel_to(t, k) {
            let j = choose|j: u64| #[trigger] t.contains_key(j) && t[j].target == k;
            if j != id {
                assert(tunnels.contains_key(j) && tunnels[j].target == k);
            }
        }
    }
}

/// Removing a tunnel keeps every held destination free of live tunnels.
pub proof fn lemma_reap_keeps_no_pending_with_tunnel<C, H, S>(
    pending: Map<Endpoint, PendingSyn<C>>,
    tunnels: Map<u64, Tunnel<H, S>>,
    id: u64,
)
    requires
        no_pending_with_tunnel(pending, tunnels),
    ensures
        no_pending_with_tunnel(pending, tunnels.remove(id)),
{
    assert forall|k: Endpoint| #[trigger] pending.contains_key(k) implies !has_tunnel_to(
        tunnels.remove(id),
        k,
    ) by {
        if has_tunnel_to(tunnels.remove(id), k) {
            let j = choose|j: u64| #[trigger] tunnels.remove(id).contains_key(j) && tunnels.remove(id)[j].target == k;
            assert(tunnels.contains_key(j) && tunnels[j].target == k);
        }
    }
}

// ---------------------------------------------------------------------------
// Tunnel registry

/// A live tunnel: the socket it serves, the sender of its egress channel
/// and the destination it was requested for.
pub struct Tunnel<H, S> {
    pub id: u64,
    pub handle: H,
    pub egress: S,
    pub target: Endpoint,
}

/// The live tunnels, each under an id that is never reused; the fan-in of
/// tunnel ingress streams tags its items with these ids.
pub struct TunnelRegistry<H, S> {
    tunnels: HashMap<u64, Tunnel<H, S>>,
    order: Vec<u64>,
    next_id: u64,
}

impl<H, S> TunnelRegistry<H, S> {
    /// Each live tunnel under its id.
    pub closed spec fn view(&self) -> Map<u64, Tunnel<H, S>> {
        self.tunnels@
    }

    /// The id that the next registration gets.
    pub closed spec fn next(&self) -> u64 {
        self.next_id
    }

    pub closed spec fn wf(&self) -> bool {
        &&& forall|k: u64| #[trigger]
            self.tunnels@.contains_key(k) ==> self.tunnels@[k].id == k && k < self.next_id
        &&& self.order@.no_duplicates()
        &&& forall|k: u64| #[trigger] self.order@.contains(k) <==> self.tunnels@.contains_key(k)
    }

    pub fn new() -> (r: Self)
        ensures
            r.wf(),
            r@ == Map::<u64, Tunnel<H, S>>::empty(),
            r.next() == 0,
    {
        let r = TunnelRegistry { tunnels: HashMap::new(), order: Vec::new(), next_id: 0 };
        proof {
            assert(r.tunnels@ =~= Map::<u64, Tunnel<H, S>>::empty());
        }
        r
    }

    /// Register a tunnel and return its new id; `None` once the ids are
    /// exhausted.
    pub fn register(&mut self, handle: H, egress: S, target: Endpoint) -> (r: Option<u64>)
        requires
            old(self).wf(),
        ensures
            final(self).wf(),
            old(self).next() == u64::MAX ==> r is None && final(self)@ == old(self)@,
            old(self).next() < u64::MAX ==> r == Some(old(self).next()) && final(self).next() == old(
                self,
            ).next() + 1,
            r matches Some(id) ==> !old(self)@.contains_key(id) && final(self)@ == old(self)@.insert(
                id,
                Tunnel { id, handle, egress, target },
            ),
    {
        if self.next_id == u64::MAX {
            return None;
        }
        let id = self.next_id;
        assert(!self.tunnels@.contains_key(id));
        assert(!self.order@.contains(id));
        self.tunnels.insert(id, Tunnel { id, handle, egress, target });
        self.order.push(id);
        self.next_id = id + 1;
        proof {
            assert forall|k: u64| #[trigger] self.order@.contains(k) <==> self.tunnels@.contains_key(k) by {
                if self.order@.contains(k) && k != id {
                    let j = choose|j: int| 0 <= j < self.order@.len() && self.order@[j] == k;
                    assert(old(self).order@[j] == k);
                }
                if old(self).order@.contains(k) {
                    let j = choose|j: int| 0 <= j < old(self).order@.len() && old(self).order@[j] == k;
                    assert(self.order@[j] == k);
                }
                if k == id {
                    assert(self.order@[self.order@.len() - 1] == k);
                }
            }
        }
        Some(id)
    }

    /// The tunnel registered under `id`.
    pub fn get(&self, id: u64) -> (r: Option<&Tunnel<H, S>>)
        requires
            self.wf(),
        ensures
            r is Some <==> self@.contains_key(id),
            r matches Some(t) ==> *t == self@[id],
    {
        self.tunnels.get(&id)
    }

    /// Whether some live tunnel was requested for `target`.
    pub fn has_target(&self, target: &Endpoint) -> (r: bool)
        requires
            self.wf(),
        ensures
            r == has_tunnel_to(self@, *target),
    {
        let mut i: usize = 0;
        while i < self.order.len()
            invariant
                self.wf(),
                0 <= i <= self.order@.len(),
                forall|j: int| 0 <= j < i ==> self@[#[trigger] self.order@[j]].target != *target,
            decreases self.order@.len() - i,
        {
            let id = self.order[i];
            assert(self.order@.contains(id));
            match self.tunnels.get(&id) {
                Some(t) => {
                    if same_endpoint(&t.target, target) {
                        return true;
                    }
                },
                None => {},
            }
            i = i + 1;
        }
        proof {
            if has_tunnel_to(self@, *target) {
                let k = choose|k: u64| #[trigger] self@.contains_key(k) && self@[k].target == *target;
                assert(self.order@.contains(k));
                let j = choose|j: int| 0 <= j < self.order@.len() && self.order@[j] == k;
                assert(self@[self.order@[j]].target != *target);
            }
        }
        false
    }

    /// Remove the tunnel registered under `id`, handing it back so that its
    /// egress sender can be dropped.
    pub fn remove(&mut self, id: u64) -> (r: Option<Tunnel<H, S>>)
        requires
            old(self).wf(),
        ensures
            final(self).wf(),
            final(self)@ == old(self)@.remove(id),
            final(self).next() == old(self).next(),
            r is Some <==> old(self)@.contains_key(id),
            r matches Some(t) ==> t == old(self)@[id],
    {
        let r = self.tunnels.remove(&id);
        let mut i: usize = 0;
        while i < self.order.len()
            invariant
                0 <= i <= self.order@.len(),
                self.order@ == old(self).order@,
                forall|j: int| 0 <= j < i ==> self.order@[j] != id,
                old(self).wf(),
                self.next_id == old(self).next_id,
                self.tunnels@ == old(self).tunnels@.remove(id),
                r is Some <==> old(self)@.contains_key(id),
                r matches Some(t) ==> t == old(self)@[id],
            decreases self.order@.len() - i,
        {
            if self.order[i] == id {
                let ghost before = self.order@;
                self.order.remove(i);
                proof {
                    assert(self.order@ =~= before.remove(i as int));
                    assert forall|a: int, b: int| 0 <= a < b < self.order@.len() implies self.order@[a]
                        != self.order@[b] by {
                        let aa = if a < i { a } else { a + 1 };
                        let bb = if b < i { b } else { b + 1 };
                        assert(self.order@[a] == before[aa]);
                        assert(self.order@[b] == before[bb]);
                    }
                    assert forall|k: u64| #[trigger] self.order@.contains(k) <==> self.tunnels@.contains_key(k) by {
                        if self.order@.contains(k) {
                            let j = choose|j: int| 0 <= j < self.order@.len() && self.order@[j] == k;
                            let jj = if j < i { j } else { j + 1 };
                            assert(before[jj] == k);
                            assert(before.contains(k));
                            assert(jj != i);
                        }
                        if self.tunnels@.contains_key(k) {
                            assert(before.contains(k));
                            let j = choose|j: int| 0 <= j < before.len() && before[j] == k;
                            assert(j != i);
                            let x = if j < i { j } else { j - 1 };
                            assert(self.order@[x] == k);
                        }
                    }
                }
                return r;
            }
            i = i + 1;
        }
        proof {
            assert(!old(self).order@.contains(id));
            assert(self.tunnels@ =~= old(self).tunnels@.remove(id));
        }
        r
    }

    /// The ids of all live tunnels, each once.
    pub fn ids(&self) -> (r: Vec<u64>)
        requires
            self.wf(),
        ensures
            r@.no_duplicates(),
            forall|k: u64| r@.contains(k) <==> self@.contains_key(k),
    {
        let mut out: Vec<u64> = Vec::new();
        let mut i: usize = 0;
        while i < self.order.len()
            invariant
                0 <= i <= self.order@.len(),
                out@ == self.order@.subrange(0, i as int),
            decreases self.order@.len() - i,
        {
            out.push(self.order[i]);
            i = i + 1;
            assert(out@ =~= self.order@.subrange(0, i as int));
        }
        assert(out@ =~= self.order@);
        out
    }

    /// Number of live tunnels.
    pub fn len(&self) -> (r: usize)
        requires
            self.wf(),
        ensures
            r == self@.len(),
    {
        proof {
            self.order@.unique_seq_to_set();
            assert(self.order@.to_set() =~= self@.dom());
        }
        self.order.len()
    }
}

// ---------------------------------------------------------------------------
// Egress pump and reaping

/// TCP connection states, as the TCP/IP library reports them.
#[derive(Debug, Clone, Copy, PartialEq, Eq, Structural)]
pub enum SocketState {
    Closed,
    Listen,
    SynSent,
    SynReceived,
    Established,
    FinWait1,
    FinWait2,
    CloseWait,
    Closing,
    LastAck,
    TimeWait,
}

/// States after which a socket's tunnel is torn down.
pub open spec fn is_terminal(state: SocketState) -> bool {
    state == SocketState::Closed || state == SocketState::TimeWait
}

/// What the egress pump does with one tunnel's socket.
#[derive(Debug, Clone, Copy, PartialEq, Eq, Structural)]
pub enum PumpStep {
    /// The socket is finished: schedule the tunnel for removal.
    Reap,
    /// Nothing to read now.
    Skip,
    /// Move received bytes to the tunnel until the socket is empty or the
    /// tunnel pushes back.
    Drain,
}

/// The pump's step for a socket in `state` that `can_recv` or not.
pub fn pump_step(state: SocketState, can_recv: bool) -> (r: PumpStep)
    ensures
        is_terminal(state) ==> r == PumpStep::Reap,
        !is_terminal(state) && !can_recv ==> r == PumpStep::Skip,
        !is_terminal(state) && can_recv ==> r == PumpStep::Drain,
{
    match state {
        SocketState::Closed | SocketState::TimeWait => PumpStep::Reap,
        _ => if can_recv {
            PumpStep::Drain
        } else {
            PumpStep::Skip
        },
    }
}

/// The ids among `sockets` whose socket is in a terminal state, in order.
pub fn reap_list(sockets: &Vec<(u64, SocketState)>) -> (r: Vec<u64>)
    ensures
        r@ == sockets@.filter(|s: (u64, SocketState)| is_terminal(s.1)).map_values(
            |s: (u64, SocketState)| s.0,
        ),
{
    let mut out: Vec<u64> = Vec::new();
    let mut i: usize = 0;
    while i < sockets.len()
        invariant
            0 <= i <= sockets@.len(),
            out@ == sockets@.subrange(0, i as int).filter(
                |s: (u64, SocketState)| is_terminal(s.1),
            ).map_values(|s: (u64, SocketState)| s.0),
        decreases sockets@.len() - i,
    {
        let (id, state) = sockets[i];
        proof {
            reveal(Seq::filter);
            assert(sockets@.subrange(0, i + 1).drop_last() =~= sockets@.subrange(0, i as int));
        }
        if pump_step(state, false) == PumpStep::Reap {
            out.push(id);
        }
        i = i + 1;
        proof {
            let f = |s: (u64, SocketState)| is_terminal(s.1);
            let g = |s: (u64, SocketState)| s.0;
            assert(out@ =~= sockets@.subrange(0, i as int).filter(f).map_values(g));
        }
    }
    assert(sockets@.subrange(0, sockets@.len() as int) =~= sockets@);
    out
}

/// Whether a TX buffer with `remaining` bytes of capacity goes back to a
/// pool that holds `pool_len` buffers.
pub fn tx_should_recycle(remaining: usize, pool_len: usize) -> (r: bool)
    ensures
        r == (remaining >= crate::constants::TX_POOL_RECYCLE_THRESHOLD && pool_len
            < crate::constants::TX_POOL_MAX_SIZE),
{
    remaining >= crate::constants::TX_POOL_RECYCLE_THRESHOLD && pool_len < crate::constants::TX_POOL_MAX_SIZE
}

} // verus!
