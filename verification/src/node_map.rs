//! Per-peer state: the node map.
//!
//! The map knows every peer by its 32-byte key, by the *mapped address*
//! handed to the upper transport in place of real socket addresses, and by
//! each candidate UDP path.  Its invariants: every live peer has exactly one
//! mapped address, mapped addresses are never reused, and node keys are
//! unique.
//!
//! Mapped addresses are IPv6 unique-local addresses built from a fixed
//! prefix and a monotonic counter, so distinct counters give distinct
//! addresses for the lifetime of the map.

use vstd::prelude::*;
use crate::addr::{IpAddress, IpPort, NodeKey, RelayUrl};
use crate::disco::{SendAddr, SendAddrSpec};

verus! {

/// How long a pong keeps a direct path trusted, in milliseconds.
pub const TRUST_PONG_MS: u64 = 6_500;

/// How long a candidate path outlives its last activity, in milliseconds.
pub const PATH_INACTIVITY_MS: u64 = 45_000;

/// How long a peer outlives its last use, in milliseconds.
pub const NODE_INACTIVITY_MS: u64 = 1_800_000;

/// A path had activity — creation, a ping either way, or a pong — within
/// the inactivity window.
pub open spec fn path_recent(p: PathState, now: u64) -> bool {
    now <= p.last_active_at || now - p.last_active_at <= PATH_INACTIVITY_MS
}

/// A peer was used — created, pinged, ponged, or reached over relay —
/// within the inactivity window.
pub open spec fn node_recent(n: NodeState, now: u64) -> bool {
    now <= n.last_used_at || now - n.last_used_at <= NODE_INACTIVITY_MS
}

/// `post` is `pre` with exactly the paths among `my` dropped and
/// everything else untouched.
pub open spec fn foreign_pruned(post: NodeState, pre: NodeState, my: Seq<IpPort>) -> bool {
    &&& post.node_id@ == pre.node_id@
    &&& post.mapped_addr == pre.mapped_addr
    &&& post.relay_url == pre.relay_url
    &&& post.seen_ping_txs@ == pre.seen_ping_txs@
    &&& post.pending_pings@ == pre.pending_pings@
    &&& post.last_used_at == pre.last_used_at
    &&& forall|a: IpPort| post.has_path(a) <==> (pre.has_path(a) && !my.contains(a))
}

/// The round-trip time used to rank a path whose latency was never
/// measured: worse than any measured one.
pub open spec fn path_rtt(p: PathState) -> int {
    match p.rtt_ms {
        Some(r) => r as int,
        None => 0x1_0000_0000,
    }
}

/// A path is fresh at `now` when a pong arrived on it no longer than
/// [`TRUST_PONG_MS`] ago.
pub open spec fn path_is_fresh(p: PathState, now: u64) -> bool {
    p.last_pong_at matches Some(t) && t <= now && now - t <= TRUST_PONG_MS
}

/// What a received ping is evidence of.
#[derive(Clone, Copy, Debug, PartialEq, Eq, Structural)]
pub enum PingRole {
    /// A ping with this transaction id was already handled.
    Duplicate,
    /// The ping came on a path that is already trusted.
    LikelyHeartbeat,
    /// The ping came on a path not known before.
    NewPath,
    /// The ping came on a known path that had gone quiet.
    Activate,
}

/// An action the path engine asks the socket to perform.
#[derive(Debug)]
pub enum PingAction {
    /// Seal and send a disco ping to the peer on the given path.
    SendPing { dst_node: NodeKey, dst: SendAddr },
    /// Send the peer a call-me-maybe over its relay, advertising our own
    /// direct addresses.
    SendCallMeMaybe { dst_node: NodeKey, relay_url: RelayUrl },
}

/// What handling a pong came to: whether it confirmed a path, and the
/// reciprocal ping owed when that path was confirmed for the first time.
pub struct PongHandled {
    pub confirmed: bool,
    pub ping_back: Option<PingAction>,
}

/// The fixed port of every mapped address.
pub const MAPPED_ADDR_PORT: u16 = 12345;

/// The upper 64 bits of every mapped address: the unique-local prefix byte
/// `0xfd`, a fixed global id, and a zero subnet.
pub const MAPPED_ADDR_PREFIX: u128 = 0xfd15_070a_510b_0000_0000_0000_0000_0000;

/// The mapped address generated for counter value `c`.
pub open spec fn mapped_addr_of(c: u64) -> IpPort {
    IpPort { ip: IpAddress::V6((MAPPED_ADDR_PREFIX + c) as u128), port: MAPPED_ADDR_PORT }
}

/// Distinct counters give distinct mapped addresses: the counter occupies
/// the low 64 bits below the fixed prefix.
pub proof fn lemma_mapped_addr_injective(c1: u64, c2: u64)
    requires
        mapped_addr_of(c1) == mapped_addr_of(c2),
    ensures
        c1 == c2,
{
}

/// Builds the mapped address for counter value `c`.
pub fn generate_mapped_addr(c: u64) -> (r: IpPort)
    ensures
        r == mapped_addr_of(c),
{
    IpPort { ip: IpAddress::V6(MAPPED_ADDR_PREFIX + (c as u128)), port: MAPPED_ADDR_PORT }
}

/// State of one candidate UDP path to a peer.
#[derive(Clone, Copy, Debug)]
pub struct PathState {
    /// The candidate address.
    pub addr: IpPort,
    /// When the last pong on this path arrived, if any (ms).
    pub last_pong_at: Option<u64>,
    /// Round-trip time measured by the last pong on this path (ms).
    pub rtt_ms: Option<u64>,
    /// When this path last saw activity: creation, a received ping, or a
    /// pong (ms).
    pub last_active_at: u64,
}

/// A ping sent on a UDP path whose pong is still outstanding.
#[derive(Debug)]
pub struct PendingPing {
    /// The ping's transaction id.
    pub tx_id: Vec<u8>,
    /// The path it was sent on.
    pub addr: IpPort,
    /// When it was sent (ms).
    pub sent_at: u64,
}

/// Everything the map knows about one peer.
#[derive(Debug)]
pub struct NodeState {
    /// The peer's public key.
    pub node_id: NodeKey,
    /// The stable fake address under which the upper transport knows the
    /// peer.
    pub mapped_addr: IpPort,
    /// The peer's home relay, if known.
    pub relay_url: Option<RelayUrl>,
    /// Candidate UDP paths, at most one entry per address.
    pub paths: Vec<PathState>,
    /// Transaction ids of pings received from this peer.
    pub seen_ping_txs: Vec<Vec<u8>>,
    /// Pings sent to this peer whose pongs are outstanding.
    pub pending_pings: Vec<PendingPing>,
    /// When this peer was last used (ms): created, pinged, ponged, or
    /// reached over its relay.
    pub last_used_at: u64,
}

impl NodeState {
    /// Well-formed: the key has its 32 bytes and no UDP address appears in
    /// two path entries.
    pub open spec fn wf(&self) -> bool {
        &&& self.node_id.wf()
        &&& forall|i: int, j: int|
            0 <= i < j < self.paths@.len() ==> self.paths@[i].addr != self.paths@[j].addr
    }

    /// True if some path entry has address `a`.
    pub open spec fn has_path(&self, a: IpPort) -> bool {
        exists|i: int| 0 <= i < self.paths@.len() && self.paths@[i].addr == a
    }

    /// Finds the path entry for address `a`.
    pub fn find_path(&self, a: IpPort) -> (r: Option<usize>)
        ensures
            match r {
                Some(i) => i < self.paths@.len() && self.paths@[i as int].addr == a,
                None => !self.has_path(a),
            },
    {
        let mut i: usize = 0;
        while i < self.paths.len()
            invariant
                0 <= i <= self.paths@.len(),
                forall|j: int| 0 <= j < i ==> self.paths@[j].addr != a,
            decreases self.paths@.len() - i,
        {
            if self.paths[i].addr == a {
                return Some(i);
            }
            i += 1;
        }
        None
    }

    /// True if a ping with this transaction id was seen from the peer.
    pub open spec fn has_seen_tx(&self, tx: Seq<u8>) -> bool {
        exists|i: int| 0 <= i < self.seen_ping_txs@.len() && self.seen_ping_txs@[i]@ == tx
    }

    /// True if the path with address `a` is fresh at `now`: a pong arrived
    /// on it recently enough.
    pub open spec fn fresh_pong_path(&self, a: IpPort, now: u64) -> bool {
        exists|j: int|
            0 <= j < self.paths@.len() && (#[trigger] self.paths@[j]).addr == a && path_is_fresh(
                self.paths@[j],
                now,
            )
    }

    /// True if the path with address `a` has ever been confirmed by a
    /// pong.
    pub open spec fn path_confirmed(&self, a: IpPort) -> bool {
        exists|j: int|
            0 <= j < self.paths@.len() && (#[trigger] self.paths@[j]).addr == a
                && self.paths@[j].last_pong_at is Some
    }

    /// True if some path entry has address `a` and recent activity.
    pub open spec fn has_recent_path(&self, a: IpPort, now: u64) -> bool {
        exists|p: int|
            0 <= p < self.paths@.len() && (#[trigger] self.paths@[p]).addr == a && path_recent(
                self.paths@[p],
                now,
            )
    }

    /// True if some path is fresh at `now`.
    pub open spec fn has_fresh_path(&self, now: u64) -> bool {
        exists|j: int|
            0 <= j < self.paths@.len() && path_is_fresh(#[trigger] self.paths@[j], now)
    }

    /// True if the peer's home relay is the URL with these bytes.
    pub open spec fn relay_is(&self, u: Seq<u8>) -> bool {
        self.relay_url matches Some(v) && v@ == u
    }

    /// True if a ping with this transaction id is outstanding.
    pub open spec fn has_pending(&self, tx: Seq<u8>) -> bool {
        exists|j: int|
            0 <= j < self.pending_pings@.len() && (#[trigger] self.pending_pings@[j]).tx_id@ == tx
    }

    /// Looks for a received ping transaction id.
    pub fn find_seen_tx(&self, tx: &Vec<u8>) -> (r: bool)
        ensures
            r == self.has_seen_tx(tx@),
    {
        let mut i: usize = 0;
        while i < self.seen_ping_txs.len()
            invariant
                0 <= i <= self.seen_ping_txs@.len(),
                forall|j: int| 0 <= j < i ==> self.seen_ping_txs@[j]@ != tx@,
            decreases self.seen_ping_txs@.len() - i,
        {
            if crate::addr::bytes_eq(&self.seen_ping_txs[i], tx) {
                return true;
            }
            i += 1;
        }
        false
    }
}

impl NodeState {
    /// Drops every path with no recent activity; everything else about the
    /// peer stays as it was.
    #[verifier::rlimit(100)]
    fn retain_recent_paths(&mut self, now: u64)
        requires
            old(self).wf(),
        ensures
            final(self).wf(),
            final(self).node_id@ == old(self).node_id@,
            final(self).mapped_addr == old(self).mapped_addr,
            final(self).relay_url == old(self).relay_url,
            final(self).seen_ping_txs@ == old(self).seen_ping_txs@,
            final(self).pending_pings@ == old(self).pending_pings@,
            final(self).last_used_at == old(self).last_used_at,
            forall|a: IpPort| final(self).has_path(a) <==> old(self).has_recent_path(a, now),
    {
        let mut kept: Vec<PathState> = Vec::new();
        let n = self.paths.len();
        let mut i: usize = 0;
        while i < n
            invariant
                *self == *old(self),
                n == self.paths@.len(),
                old(self).wf(),
                0 <= i <= n,
                forall|q: int| #![trigger kept@[q]]
                    0 <= q < kept@.len() ==> exists|p: int|
                        0 <= p < i && (#[trigger] self.paths@[p]) == kept@[q] && path_recent(
                            self.paths@[p],
                            now,
                        ),
                forall|p: int|
                    0 <= p < i && path_recent(#[trigger] self.paths@[p], now) ==> exists|q: int|
                        0 <= q < kept@.len() && (#[trigger] kept@[q]) == self.paths@[p],
                forall|x: int, y: int| 0 <= x < y < kept@.len() ==> kept@[x].addr != kept@[y].addr,
            decreases n - i,
        {
            let p = self.paths[i];
            let recent = now <= p.last_active_at || now - p.last_active_at <= PATH_INACTIVITY_MS;
            if recent {
                let ghost pre_kept = kept@;
                kept.push(p);
                proof {
                    assert(kept@[kept@.len() - 1] == self.paths@[i as int]);
                    assert(forall|q: int| 0 <= q < pre_kept.len() ==> #[trigger] kept@[q]
                        == pre_kept[q]);
                    assert forall|x: int, y: int| 0 <= x < y < kept@.len() implies kept@[x].addr
                        != kept@[y].addr by {
                        if y < kept@.len() - 1 {
                            assert(kept@[x] == pre_kept[x] && kept@[y] == pre_kept[y]);
                        } else {
                            assert(kept@[x] == pre_kept[x]);
                            let px = choose|px: int|
                                0 <= px < i && (#[trigger] self.paths@[px]) == pre_kept[x]
                                    && path_recent(self.paths@[px], now);
                            assert(self.paths@[px].addr != self.paths@[i as int].addr);
                        }
                    }
                    assert forall|p2: int|
                        0 <= p2 < i + 1 && path_recent(#[trigger] self.paths@[p2], now) implies exists|
                        q: int,
                    |
                        0 <= q < kept@.len() && (#[trigger] kept@[q]) == self.paths@[p2] by {
                        if p2 < i {
                            let q = choose|q: int|
                                0 <= q < pre_kept.len() && (#[trigger] pre_kept[q])
                                    == self.paths@[p2];
                            assert(kept@[q] == self.paths@[p2]);
                        } else {
                            assert(kept@[kept@.len() - 1] == self.paths@[p2]);
                        }
                    }
                }
            }
            i += 1;
        }
        let ghost pre = *self;
        let ghost kept_seq = kept@;
        self.paths = kept;
        proof {
            assert forall|a: IpPort| self.has_path(a) implies pre.has_recent_path(a, now) by {
                let q = choose|q: int|
                    0 <= q < self.paths@.len() && self.paths@[q].addr == a;
                let p = choose|p: int|
                    0 <= p < pre.paths@.len() && (#[trigger] pre.paths@[p]) == kept_seq[q]
                        && path_recent(pre.paths@[p], now);
                assert(pre.paths@[p].addr == a);
            }
            assert forall|a: IpPort| pre.has_recent_path(a, now) implies self.has_path(a) by {
                let p = choose|p: int|
                    0 <= p < pre.paths@.len() && (#[trigger] pre.paths@[p]).addr == a
                        && path_recent(pre.paths@[p], now);
                let q = choose|q: int|
                    0 <= q < kept_seq.len() && (#[trigger] kept_seq[q]) == pre.paths@[p];
                assert(self.paths@[q].addr == a);
            }
        }
    }

    /// Drops every path whose address is among `my_addrs` — a peer is
    /// never reached at one of our own addresses; everything else about
    /// the peer stays as it was.
    #[verifier::rlimit(100)]
    fn retain_foreign_paths(&mut self, my_addrs: &Vec<IpPort>)
        requires
            old(self).wf(),
        ensures
            final(self).wf(),
            final(self).node_id@ == old(self).node_id@,
            final(self).mapped_addr == old(self).mapped_addr,
            final(self).relay_url == old(self).relay_url,
            final(self).seen_ping_txs@ == old(self).seen_ping_txs@,
            final(self).pending_pings@ == old(self).pending_pings@,
            final(self).last_used_at == old(self).last_used_at,
            forall|a: IpPort|
                final(self).has_path(a) <==> (old(self).has_path(a) && !my_addrs@.contains(a)),
    {
        let mut kept: Vec<PathState> = Vec::new();
        let n = self.paths.len();
        let mut i: usize = 0;
        while i < n
            invariant
                *self == *old(self),
                n == self.paths@.len(),
                old(self).wf(),
                0 <= i <= n,
                forall|q: int| #![trigger kept@[q]]
                    0 <= q < kept@.len() ==> exists|p: int|
                        0 <= p < i && (#[trigger] self.paths@[p]) == kept@[q] && !my_addrs@.contains(
                            self.paths@[p].addr,
                        ),
                forall|p: int|
                    0 <= p < i && !my_addrs@.contains((#[trigger] self.paths@[p]).addr) ==> exists|
                        q: int,
                    |
                        0 <= q < kept@.len() && (#[trigger] kept@[q]) == self.paths@[p],
                forall|x: int, y: int| 0 <= x < y < kept@.len() ==> kept@[x].addr != kept@[y].addr,
            decreases n - i,
        {
            let p = self.paths[i];
            let mut own: bool = false;
            let mut j: usize = 0;
            while j < my_addrs.len()
                invariant
                    0 <= j <= my_addrs@.len(),
                    own == exists|k: int| 0 <= k < j && my_addrs@[k] == p.addr,
                decreases my_addrs@.len() - j,
            {
                if my_addrs[j] == p.addr {
                    own = true;
                }
                j += 1;
            }
            if !own {
                let ghost pre_kept = kept@;
                kept.push(p);
                proof {
                    assert(kept@[kept@.len() - 1] == self.paths@[i as int]);
                    assert(forall|q: int| 0 <= q < pre_kept.len() ==> #[trigger] kept@[q]
                        == pre_kept[q]);
                    assert forall|x: int, y: int| 0 <= x < y < kept@.len() implies kept@[x].addr
                        != kept@[y].addr by {
                        if y < kept@.len() - 1 {
                            assert(kept@[x] == pre_kept[x] && kept@[y] == pre_kept[y]);
                        } else {
                            assert(kept@[x] == pre_kept[x]);
                            let px = choose|px: int|
                                0 <= px < i && (#[trigger] self.paths@[px]) == pre_kept[x]
                                    && !my_addrs@.contains(self.paths@[px].addr);
                            assert(self.paths@[px].addr != self.paths@[i as int].addr);
                        }
                    }
                    assert forall|p2: int|
                        0 <= p2 < i + 1 && !my_addrs@.contains(
                            (#[trigger] self.paths@[p2]).addr,
                        ) implies exists|q: int|
                        0 <= q < kept@.len() && (#[trigger] kept@[q]) == self.paths@[p2] by {
                        if p2 < i {
                            let q = choose|q: int|
                                0 <= q < pre_kept.len() && (#[trigger] pre_kept[q])
                                    == self.paths@[p2];
                            assert(kept@[q] == self.paths@[p2]);
                        } else {
                            assert(kept@[kept@.len() - 1] == self.paths@[p2]);
                        }
                    }
                }
            }
            i += 1;
        }
        let ghost pre = *self;
        let ghost kept_seq = kept@;
        self.paths = kept;
        proof {
            assert forall|a: IpPort| self.has_path(a) implies (pre.has_path(a)
                && !my_addrs@.contains(a)) by {
                let q = choose|q: int|
                    0 <= q < self.paths@.len() && self.paths@[q].addr == a;
                let p = choose|p: int|
                    0 <= p < pre.paths@.len() && (#[trigger] pre.paths@[p]) == kept_seq[q]
                        && !my_addrs@.contains(pre.paths@[p].addr);
                assert(pre.paths@[p].addr == a);
            }
            assert forall|a: IpPort| pre.has_path(a) && !my_addrs@.contains(a) implies self
                .has_path(a) by {
                let p = choose|p: int|
                    0 <= p < pre.paths@.len() && pre.paths@[p].addr == a;
                let q = choose|q: int|
                    0 <= q < kept_seq.len() && (#[trigger] kept_seq[q]) == pre.paths@[p];
                assert(self.paths@[q].addr == a);
            }
        }
    }
}

/// Addressing information for one peer, as handed to the map: the peer's
/// key, an optional home relay, and candidate direct addresses.
#[derive(Debug)]
pub struct NodeAddr {
    pub node_id: NodeKey,
    pub relay_url: Option<RelayUrl>,
    pub direct_addresses: Vec<IpPort>,
}

/// The direct addresses of `direct` that are not among `my`, in order:
/// addresses a peer claims that are in truth our own are dropped.
pub open spec fn kept_addrs(direct: Seq<IpPort>, my: Seq<IpPort>) -> Seq<IpPort>
    decreases direct.len(),
{
    if direct.len() == 0 {
        Seq::empty()
    } else {
        let rest = kept_addrs(direct.drop_last(), my);
        if my.contains(direct.last()) {
            rest
        } else {
            rest.push(direct.last())
        }
    }
}

/// Pruning never grows the list.
pub proof fn lemma_kept_addrs_len(direct: Seq<IpPort>, my: Seq<IpPort>)
    ensures
        kept_addrs(direct, my).len() <= direct.len(),
    decreases direct.len(),
{
    if direct.len() > 0 {
        lemma_kept_addrs_len(direct.drop_last(), my);
    }
}

/// Why addressing information was rejected.
#[derive(Clone, Copy, Debug, PartialEq, Eq, Structural)]
pub enum AddNodeAddrError {
    /// The information held nothing at all.
    Empty,
    /// The information held only direct addresses that are our own; the
    /// count says how many were dropped.
    EmptyPruned { pruned: usize },
}

/// The node map.
#[derive(Debug)]
pub struct NodeMap {
    /// One entry per live peer.
    pub nodes: Vec<NodeState>,
    /// The next counter value for mapped-address generation; counters are
    /// never reused.
    pub next_counter: u64,
}

impl NodeMap {
    /// Well-formed: node keys are pairwise distinct, mapped addresses are
    /// pairwise distinct, every entry is well-formed, and every mapped
    /// address was generated from a counter value below `next_counter`.
    pub open spec fn wf(&self) -> bool {
        &&& forall|i: int, j: int|
            0 <= i < j < self.nodes@.len() ==> self.nodes@[i].node_id@ != self.nodes@[j].node_id@
        &&& forall|i: int, j: int|
            0 <= i < j < self.nodes@.len() ==> self.nodes@[i].mapped_addr
                != self.nodes@[j].mapped_addr
        &&& forall|i: int| 0 <= i < self.nodes@.len() ==> (#[trigger] self.nodes@[i]).wf()
        &&& forall|i: int|
            0 <= i < self.nodes@.len() ==> exists|c: u64|
                c < self.next_counter && (#[trigger] self.nodes@[i]).mapped_addr
                    == mapped_addr_of(c)
    }

    /// True if some entry has this node key.
    pub open spec fn contains_id(&self, id: Seq<u8>) -> bool {
        exists|i: int| 0 <= i < self.nodes@.len() && (#[trigger] self.nodes@[i]).node_id@ == id
    }

    /// True if some entry has this mapped address.
    pub open spec fn contains_mapped(&self, a: IpPort) -> bool {
        exists|i: int| 0 <= i < self.nodes@.len() && (#[trigger] self.nodes@[i]).mapped_addr == a
    }

    /// An empty map.
    pub fn new() -> (r: NodeMap)
        ensures
            r.wf(),
            r.nodes@.len() == 0,
            r.next_counter == 0,
    {
        NodeMap { nodes: Vec::new(), next_counter: 0 }
    }

    /// The law of the mapped-address bookkeeping: in a well-formed map the
    /// peers and their mapped addresses are in one-to-one correspondence —
    /// every live peer has exactly one mapped address (its entry is unique)
    /// and no two peers share one.
    pub proof fn lemma_mapped_addr_bijection(&self)
        requires
            self.wf(),
        ensures
            forall|i: int, j: int|
                0 <= i < self.nodes@.len() && 0 <= j < self.nodes@.len() && i != j
                    ==> (#[trigger] self.nodes@[i]).node_id@ != (#[trigger] self.nodes@[j]).node_id@
                    && self.nodes@[i].mapped_addr != self.nodes@[j].mapped_addr,
    {
    }

    /// Finds a peer by key.
    pub fn find_by_id(&self, id: &NodeKey) -> (r: Option<usize>)
        ensures
            match r {
                Some(i) => i < self.nodes@.len() && self.nodes@[i as int].node_id@ == id@,
                None => !self.contains_id(id@),
            },
    {
        let mut i: usize = 0;
        while i < self.nodes.len()
            invariant
                0 <= i <= self.nodes@.len(),
                forall|j: int| 0 <= j < i ==> (#[trigger] self.nodes@[j]).node_id@ != id@,
            decreases self.nodes@.len() - i,
        {
            if self.nodes[i].node_id.key_eq(id) {
                return Some(i);
            }
            i += 1;
        }
        None
    }

    /// Finds a peer by mapped address.
    pub fn find_by_mapped(&self, a: IpPort) -> (r: Option<usize>)
        ensures
            match r {
                Some(i) => i < self.nodes@.len() && self.nodes@[i as int].mapped_addr == a,
                None => !self.contains_mapped(a),
            },
    {
        let mut i: usize = 0;
        while i < self.nodes.len()
            invariant
                0 <= i <= self.nodes@.len(),
                forall|j: int| 0 <= j < i ==> (#[trigger] self.nodes@[j]).mapped_addr != a,
            decreases self.nodes@.len() - i,
        {
            if self.nodes[i].mapped_addr == a {
                return Some(i);
            }
            i += 1;
        }
        None
    }

    /// Finds the peer that owns the UDP path `a`, if any.
    pub fn find_by_udp(&self, a: IpPort) -> (r: Option<usize>)
        ensures
            match r {
                Some(i) => i < self.nodes@.len() && self.nodes@[i as int].has_path(a),
                None => forall|j: int|
                    0 <= j < self.nodes@.len() ==> !(#[trigger] self.nodes@[j]).has_path(a),
            },
    {
        let mut i: usize = 0;
        while i < self.nodes.len()
            invariant
                0 <= i <= self.nodes@.len(),
                forall|j: int| 0 <= j < i ==> !(#[trigger] self.nodes@[j]).has_path(a),
            decreases self.nodes@.len() - i,
        {
            if self.nodes[i].find_path(a).is_some() {
                return Some(i);
            }
            i += 1;
        }
        None
    }

    /// Finds the peer with key `id`, creating a fresh entry — with a mapped
    /// address never handed out before — when none exists.
    pub fn ensure_node(&mut self, id: &NodeKey, now: u64) -> (idx: usize)
        requires
            old(self).wf(),
            id.wf(),
            old(self).next_counter < u64::MAX,
        ensures
            final(self).wf(),
            idx < final(self).nodes@.len(),
            final(self).nodes@[idx as int].node_id@ == id@,
            final(self).contains_id(id@),
            old(self).contains_id(id@) ==> *final(self) == *old(self),
            !old(self).contains_id(id@) ==> {
                &&& final(self).nodes@.len() == old(self).nodes@.len() + 1
                &&& final(self).nodes@.subrange(0, old(self).nodes@.len() as int) == old(self).nodes@
                &&& idx == old(self).nodes@.len()
                &&& final(self).nodes@[idx as int].mapped_addr == mapped_addr_of(old(self).next_counter)
                &&& final(self).next_counter == old(self).next_counter + 1
                &&& final(self).nodes@[idx as int].paths@.len() == 0
                &&& final(self).nodes@[idx as int].relay_url is None
                &&& final(self).nodes@[idx as int].seen_ping_txs@.len() == 0
                &&& final(self).nodes@[idx as int].pending_pings@.len() == 0
            },
    {
        match self.find_by_id(id) {
            Some(i) => i,
            None => {
                let ghost pre = self.nodes@;
                let c = self.next_counter;
                let node = NodeState {
                    node_id: id.duplicate(),
                    mapped_addr: generate_mapped_addr(c),
                    relay_url: None,
                    paths: Vec::new(),
                    seen_ping_txs: Vec::new(),
                    pending_pings: Vec::new(),
                    last_used_at: now,
                };
                self.nodes.push(node);
                self.next_counter = c + 1;
                proof {
                    let n = self.nodes@.len() - 1;
                    assert(self.nodes@.subrange(0, n) =~= pre);
                    assert forall|i: int| 0 <= i < n implies (#[trigger] self.nodes@[i]).mapped_addr
                        != self.nodes@[n].mapped_addr by {
                        let cc = choose|cc: u64|
                            cc < c && (#[trigger] self.nodes@[i]).mapped_addr == mapped_addr_of(cc);
                        if self.nodes@[i].mapped_addr == self.nodes@[n].mapped_addr {
                            lemma_mapped_addr_injective(cc, c);
                        }
                    }
                    assert forall|i: int| 0 <= i < self.nodes@.len() implies exists|cc: u64|
                        cc < self.next_counter && (#[trigger] self.nodes@[i]).mapped_addr
                            == mapped_addr_of(cc) by {
                        if i < n {
                            let cc = choose|cc: u64|
                                cc < c && (#[trigger] self.nodes@[i]).mapped_addr == mapped_addr_of(
                                    cc,
                                );
                            assert(cc < self.next_counter && self.nodes@[i].mapped_addr
                                == mapped_addr_of(cc));
                        } else {
                            assert(c < self.next_counter && self.nodes@[n].mapped_addr
                                == mapped_addr_of(c));
                        }
                    }
                }
                self.nodes.len() - 1
            },
        }
    }

    /// Accepts addressing information for a peer after dropping any direct
    /// address that is one of our own current direct addresses (`my_addrs`).
    ///
    /// If nothing useful is left — no relay and no direct address — the
    /// information is rejected: [`AddNodeAddrError::EmptyPruned`] when the
    /// pruning dropped anything, [`AddNodeAddrError::Empty`] when it was
    /// empty to begin with.  Otherwise the peer's entry (created if absent)
    /// gains every kept address as a candidate path and the relay, if given.
    pub fn add_node_addr(&mut self, addr: NodeAddr, my_addrs: &Vec<IpPort>, now: u64) -> (r: Result<
        (),
        AddNodeAddrError,
    >)
        requires
            old(self).wf(),
            addr.node_id.wf(),
            old(self).next_counter < u64::MAX,
        ensures
            final(self).wf(),
            ({
                let kept = kept_addrs(addr.direct_addresses@, my_addrs@);
                match r {
                    Ok(()) => {
                        &&& kept.len() > 0 || addr.relay_url is Some
                        &&& final(self).contains_id(addr.node_id@)
                        &&& exists|i: int|
                            {
                                &&& 0 <= i < final(self).nodes@.len()
                                &&& (#[trigger] final(self).nodes@[i]).node_id@ == addr.node_id@
                                &&& forall|a: IpPort|
                                    kept.contains(a) ==> final(self).nodes@[i].has_path(a)
                                &&& forall|a: IpPort|
                                    final(self).nodes@[i].has_path(a) ==> kept.contains(a) || (old(
                                        self,
                                    ).contains_id(addr.node_id@) && old(self).node_by_id(
                                        addr.node_id@,
                                    ).has_path(a))
                                &&& addr.relay_url matches Some(u) ==> (final(self).nodes@[i].relay_url matches Some(v)
                                    && v@ == u@)
                            }
                    },
                    Err(e) => {
                        &&& kept.len() == 0
                        &&& addr.relay_url is None
                        &&& *final(self) == *old(self)
                        &&& e == (if kept.len() < addr.direct_addresses@.len() {
                            AddNodeAddrError::EmptyPruned {
                                pruned: (addr.direct_addresses@.len() - kept.len()) as usize,
                            }
                        } else {
                            AddNodeAddrError::Empty
                        })
                    },
                }
            }),
    {
        let NodeAddr { node_id, relay_url, direct_addresses } = addr;
        let mut kept: Vec<IpPort> = Vec::new();
        let mut i: usize = 0;
        proof {
            assert(direct_addresses@.subrange(0, 0) =~= Seq::<IpPort>::empty());
            assert(kept_addrs(Seq::<IpPort>::empty(), my_addrs@) =~= Seq::<IpPort>::empty());
        }
        while i < direct_addresses.len()
            invariant
                0 <= i <= direct_addresses@.len(),
                kept@ == kept_addrs(direct_addresses@.subrange(0, i as int), my_addrs@),
            decreases direct_addresses@.len() - i,
        {
            let a = direct_addresses[i];
            let mut own: bool = false;
            let mut j: usize = 0;
            while j < my_addrs.len()
                invariant
                    0 <= j <= my_addrs@.len(),
                    own == exists|k: int| 0 <= k < j && my_addrs@[k] == a,
                decreases my_addrs@.len() - j,
            {
                if my_addrs[j] == a {
                    own = true;
                }
                j += 1;
            }
            if !own {
                kept.push(a);
            }
            proof {
                let pre = direct_addresses@.subrange(0, i as int);
                let nxt = direct_addresses@.subrange(0, i + 1 as int);
                assert(nxt.drop_last() =~= pre);
                assert(nxt.last() == a);
                assert(own == my_addrs@.contains(a));
                assert(kept@ == kept_addrs(nxt, my_addrs@));
            }
            i += 1;
        }
        proof {
            assert(direct_addresses@.subrange(0, direct_addresses@.len() as int)
                =~= direct_addresses@);
        }
        if kept.len() == 0 && relay_url.is_none() {
            let pruned = direct_addresses.len();
            if pruned != 0 {
                proof {
                    lemma_kept_addrs_len(direct_addresses@, my_addrs@);
                }
                return Err(AddNodeAddrError::EmptyPruned { pruned });
            } else {
                return Err(AddNodeAddrError::Empty);
            }
        }
        let idx = self.ensure_node(&node_id, now);
        let ghost kept_seq = kept@;
        let ghost base = self.nodes@[idx as int];
        let mut k: usize = 0;
        while k < kept.len()
            invariant
                old(self).wf(),
                self.wf(),
                kept@ == kept_seq,
                k <= kept@.len(),
                idx < self.nodes@.len(),
                self.nodes@[idx as int].node_id@ == node_id@,
                self.next_counter >= old(self).next_counter,
                forall|a: IpPort|
                    (exists|q: int| 0 <= q < k && kept@[q] == a) ==> self.nodes@[idx as int]
                        .has_path(a),
                forall|a: IpPort|
                    self.nodes@[idx as int].has_path(a) ==> base.has_path(a) || (exists|q: int|
                        0 <= q < k && kept@[q] == a),
            decreases kept@.len() - k,
        {
            let a = kept[k];
            self.add_path_entry(idx, a, now);
            proof {
                assert(kept@[k as int] == a);
            }
            k += 1;
        }
        if let Some(url) = relay_url {
            self.set_relay_url(idx, url);
        }
        proof {
            assert(kept_seq == kept_addrs(direct_addresses@, my_addrs@));
            assert forall|a: IpPort|
                kept_addrs(direct_addresses@, my_addrs@).contains(a) implies self.nodes@[idx as int]
                .has_path(a) by {
                assert(exists|q: int| 0 <= q < kept_seq.len() && kept_seq[q] == a);
            }
            if old(self).contains_id(node_id@) {
                old(self).lemma_node_by_id(idx as int);
                assert(old(self).node_by_id(node_id@) == base);
            } else {
                assert(base.paths@.len() == 0);
            }
            assert forall|a: IpPort| self.nodes@[idx as int].has_path(a) implies kept_addrs(
                direct_addresses@,
                my_addrs@,
            ).contains(a) || (old(self).contains_id(node_id@) && old(self).node_by_id(
                node_id@,
            ).has_path(a)) by {
                if !base.has_path(a) {
                    assert(exists|q: int| 0 <= q < kept_seq.len() && kept_seq[q] == a);
                }
            }
            assert(self.nodes@[idx as int].node_id@ == node_id@);
            assert(self.contains_id(node_id@));
        }
        Ok(())
    }

    /// Adds a candidate path entry for `a` to node `idx`; a second entry
    /// for an existing address is not made.
    pub fn add_path_entry(&mut self, idx: usize, a: IpPort, now: u64)
        requires
            old(self).wf(),
            idx < old(self).nodes@.len(),
        ensures
            final(self).wf(),
            final(self).nodes@.len() == old(self).nodes@.len(),
            final(self).nodes@[idx as int].has_path(a),
            final(self).nodes@[idx as int].node_id@ == old(self).nodes@[idx as int].node_id@,
            final(self).nodes@[idx as int].mapped_addr == old(self).nodes@[idx as int].mapped_addr,
            final(self).nodes@[idx as int].relay_url == old(self).nodes@[idx as int].relay_url,
            final(self).nodes@[idx as int].seen_ping_txs@ == old(
                self,
            ).nodes@[idx as int].seen_ping_txs@,
            final(self).nodes@[idx as int].pending_pings@ == old(
                self,
            ).nodes@[idx as int].pending_pings@,
            forall|a2: IpPort|
                old(self).nodes@[idx as int].has_path(a2) ==> final(self).nodes@[idx as int]
                    .has_path(a2),
            forall|a2: IpPort|
                final(self).nodes@[idx as int].has_path(a2) ==> old(self).nodes@[idx as int]
                    .has_path(a2) || a2 == a,
            forall|j: int|
                0 <= j < old(self).nodes@.len() && j != idx ==> final(self).nodes@[j] == old(
                    self,
                ).nodes@[j],
            final(self).next_counter == old(self).next_counter,
    {
        let node = &self.nodes[idx];
        if node.find_path(a).is_some() {
            return;
        }
        let ghost pre = self.nodes@[idx as int];
        let entry = PathState { addr: a, last_pong_at: None, rtt_ms: None, last_active_at: now };
        let node_mut = &mut self.nodes[idx];
        node_mut.paths.push(entry);
        proof {
            let node_now = self.nodes@[idx as int];
            assert(node_now.paths@.drop_last() =~= pre.paths@);
            assert forall|a2: IpPort| pre.has_path(a2) implies node_now.has_path(a2) by {
                let q = choose|q: int| 0 <= q < pre.paths@.len() && pre.paths@[q].addr == a2;
                assert(node_now.paths@[q].addr == a2);
            }
            assert(node_now.has_path(a)) by {
                assert(node_now.paths@[node_now.paths@.len() - 1].addr == a);
            }
            assert forall|a2: IpPort| node_now.has_path(a2) implies pre.has_path(a2) || a2
                == a by {
                let q = choose|q: int|
                    0 <= q < node_now.paths@.len() && node_now.paths@[q].addr == a2;
                if q < node_now.paths@.len() - 1 {
                    assert(pre.paths@[q].addr == a2);
                }
            }
        }
    }

    /// The entry with node key `id`, in a map that contains one.
    pub open spec fn node_by_id(&self, id: Seq<u8>) -> NodeState {
        self.nodes@[choose|i: int|
            0 <= i < self.nodes@.len() && (#[trigger] self.nodes@[i]).node_id@ == id]
    }

    /// In a well-formed map, the entry at any index with key `id` is the
    /// entry [`Self::node_by_id`] denotes.
    pub proof fn lemma_node_by_id(&self, i: int)
        requires
            self.wf(),
            0 <= i < self.nodes@.len(),
        ensures
            self.contains_id(self.nodes@[i].node_id@),
            self.node_by_id(self.nodes@[i].node_id@) == self.nodes@[i],
    {
        let id = self.nodes@[i].node_id@;
        assert(self.contains_id(id));
        let j = choose|j: int|
            0 <= j < self.nodes@.len() && (#[trigger] self.nodes@[j]).node_id@ == id;
        if i < j {
            assert(self.nodes@[i].node_id@ != self.nodes@[j].node_id@);
        } else if j < i {
            assert(self.nodes@[j].node_id@ != self.nodes@[i].node_id@);
        }
    }

    /// A map stays well-formed when one entry changes without touching its
    /// key or mapped address.
    proof fn lemma_wf_update(pre: NodeMap, post: NodeMap, idx: int)
        requires
            pre.wf(),
            0 <= idx < pre.nodes@.len(),
            post.nodes@.len() == pre.nodes@.len(),
            post.next_counter == pre.next_counter,
            forall|j: int|
                0 <= j < pre.nodes@.len() && j != idx ==> post.nodes@[j] == pre.nodes@[j],
            post.nodes@[idx].node_id@ == pre.nodes@[idx].node_id@,
            post.nodes@[idx].mapped_addr == pre.nodes@[idx].mapped_addr,
            post.nodes@[idx].wf(),
        ensures
            post.wf(),
    {
        assert forall|i: int, j: int| 0 <= i < j < post.nodes@.len() implies post.nodes@[i].node_id@
            != post.nodes@[j].node_id@ && post.nodes@[i].mapped_addr
            != post.nodes@[j].mapped_addr by {
            assert(post.nodes@[i].node_id@ == pre.nodes@[i].node_id@);
            assert(post.nodes@[j].node_id@ == pre.nodes@[j].node_id@);
            assert(post.nodes@[i].mapped_addr == pre.nodes@[i].mapped_addr);
            assert(post.nodes@[j].mapped_addr == pre.nodes@[j].mapped_addr);
        }
        assert forall|i: int| 0 <= i < post.nodes@.len() implies (#[trigger] post.nodes@[i]).wf() by {
            if i != idx {
                assert(post.nodes@[i] == pre.nodes@[i]);
            }
        }
        assert forall|i: int| 0 <= i < post.nodes@.len() implies exists|c: u64|
            c < post.next_counter && (#[trigger] post.nodes@[i]).mapped_addr == mapped_addr_of(
                c,
            ) by {
            let c = choose|c: u64|
                c < pre.next_counter && (#[trigger] pre.nodes@[i]).mapped_addr == mapped_addr_of(c);
            assert(post.nodes@[i].mapped_addr == pre.nodes@[i].mapped_addr);
            assert(c < post.next_counter && post.nodes@[i].mapped_addr == mapped_addr_of(c));
        }
    }

    /// Records a received ping transaction id on node `idx`.
    fn note_seen_tx(&mut self, idx: usize, tx: Vec<u8>, now: u64)
        requires
            old(self).wf(),
            idx < old(self).nodes@.len(),
        ensures
            final(self).wf(),
            final(self).nodes@.len() == old(self).nodes@.len(),
            final(self).nodes@[idx as int].has_seen_tx(tx@),
            final(self).nodes@[idx as int].node_id@ == old(self).nodes@[idx as int].node_id@,
            final(self).nodes@[idx as int].mapped_addr == old(self).nodes@[idx as int].mapped_addr,
            final(self).nodes@[idx as int].relay_url == old(self).nodes@[idx as int].relay_url,
            final(self).nodes@[idx as int].paths@ == old(self).nodes@[idx as int].paths@,
            final(self).nodes@[idx as int].pending_pings@ == old(
                self,
            ).nodes@[idx as int].pending_pings@,
            forall|j: int|
                0 <= j < old(self).nodes@.len() && j != idx ==> final(self).nodes@[j] == old(
                    self,
                ).nodes@[j],
            final(self).next_counter == old(self).next_counter,
    {
        let ghost pre = *self;
        let node_mut = &mut self.nodes[idx];
        node_mut.seen_ping_txs.push(tx);
        node_mut.last_used_at = now;
        proof {
            let n = self.nodes@[idx as int];
            assert(n.seen_ping_txs@.last()@ == tx@);
            assert(n.has_seen_tx(tx@));
            Self::lemma_wf_update(pre, *self, idx as int);
        }
    }

    /// Sets the relay URL of node `idx`.
    pub fn set_relay_url(&mut self, idx: usize, url: RelayUrl)
        requires
            old(self).wf(),
            idx < old(self).nodes@.len(),
        ensures
            final(self).wf(),
            final(self).nodes@.len() == old(self).nodes@.len(),
            final(self).nodes@[idx as int].relay_url matches Some(u) && u@ == url@,
            final(self).nodes@[idx as int].node_id@ == old(self).nodes@[idx as int].node_id@,
            final(self).nodes@[idx as int].mapped_addr == old(self).nodes@[idx as int].mapped_addr,
            final(self).nodes@[idx as int].paths@ == old(self).nodes@[idx as int].paths@,
            final(self).nodes@[idx as int].seen_ping_txs@ == old(
                self,
            ).nodes@[idx as int].seen_ping_txs@,
            final(self).nodes@[idx as int].pending_pings@ == old(
                self,
            ).nodes@[idx as int].pending_pings@,
            forall|a2: IpPort|
                old(self).nodes@[idx as int].has_path(a2) ==> final(self).nodes@[idx as int]
                    .has_path(a2),
            forall|j: int|
                0 <= j < old(self).nodes@.len() && j != idx ==> final(self).nodes@[j] == old(
                    self,
                ).nodes@[j],
            final(self).next_counter == old(self).next_counter,
    {
        let ghost pre = self.nodes@[idx as int];
        let node_mut = &mut self.nodes[idx];
        node_mut.relay_url = Some(url);
        proof {
            assert forall|a2: IpPort| pre.has_path(a2) implies self.nodes@[idx as int].has_path(
                a2,
            ) by {
                let q = choose|q: int| 0 <= q < pre.paths@.len() && pre.paths@[q].addr == a2;
                assert(self.nodes@[idx as int].paths@[q].addr == a2);
            }
        }
    }
    /// The number of live peers.
    pub fn node_count(&self) -> (r: usize)
        ensures
            r == self.nodes@.len(),
    {
        self.nodes.len()
    }

    /// True if at least one candidate address — a direct path or a relay —
    /// is known for the peer, so a send can go somewhere at all.
    pub fn has_send_address(&self, id: &NodeKey) -> (r: bool)
        requires
            self.wf(),
        ensures
            r == exists|i: int|
                {
                    &&& 0 <= i < self.nodes@.len()
                    &&& (#[trigger] self.nodes@[i]).node_id@ == id@
                    &&& (self.nodes@[i].paths@.len() > 0 || self.nodes@[i].relay_url is Some)
                },
    {
        match self.find_by_id(id) {
            Some(i) => {
                let has = self.nodes[i].paths.len() > 0 || self.nodes[i].relay_url.is_some();
                proof {
                    if has == false {
                        assert forall|j: int|
                            0 <= j < self.nodes@.len() && (#[trigger] self.nodes@[j]).node_id@
                                == id@ implies !(self.nodes@[j].paths@.len() > 0
                            || self.nodes@[j].relay_url is Some) by {
                            if j < i as int {
                                assert(self.nodes@[j].node_id@ != self.nodes@[i as int].node_id@);
                            } else if (i as int) < j {
                                assert(self.nodes@[i as int].node_id@ != self.nodes@[j].node_id@);
                            }
                        }
                    }
                }
                has
            },
            None => false,
        }
    }

    /// Looks up the peer that owns an incoming UDP source address and gives
    /// the mapped address to hand the packet up under.
    pub fn receive_udp(&self, src: IpPort) -> (r: Option<(NodeKey, IpPort)>)
        ensures
            match r {
                Some(p) => exists|i: int|
                    0 <= i < self.nodes@.len() && (#[trigger] self.nodes@[i]).has_path(src)
                        && p.0@ == self.nodes@[i].node_id@ && p.1 == self.nodes@[i].mapped_addr,
                None => forall|i: int|
                    0 <= i < self.nodes@.len() ==> !(#[trigger] self.nodes@[i]).has_path(src),
            },
    {
        match self.find_by_udp(src) {
            Some(i) => Some((self.nodes[i].node_id.duplicate(), self.nodes[i].mapped_addr)),
            None => None,
        }
    }

    /// Notes a packet received over relay `url` from peer `src`: the peer is
    /// created if unknown, its home relay is set to `url`, and its mapped
    /// address is returned.
    pub fn receive_relay(&mut self, url: &RelayUrl, src: &NodeKey, now: u64) -> (r: IpPort)
        requires
            old(self).wf(),
            src.wf(),
            old(self).next_counter < u64::MAX,
        ensures
            final(self).wf(),
            final(self).contains_id(src@),
            exists|i: int|
                {
                    &&& 0 <= i < final(self).nodes@.len()
                    &&& (#[trigger] final(self).nodes@[i]).node_id@ == src@
                    &&& final(self).nodes@[i].mapped_addr == r
                    &&& final(self).nodes@[i].relay_is(url@)
                },
    {
        let idx = self.ensure_node(src, now);
        self.set_relay_url(idx, url.duplicate());
        let ghost pre = *self;
        let node_mut = &mut self.nodes[idx];
        node_mut.last_used_at = now;
        proof {
            Self::lemma_wf_update(pre, *self, idx as int);
        }
        self.nodes[idx].mapped_addr
    }

    /// What a received ping is evidence of, judged against the map as it
    /// was when the ping arrived.
    pub open spec fn ping_role_spec(
        m: NodeMap,
        sender: Seq<u8>,
        src: SendAddrSpec,
        tx: Seq<u8>,
        now: u64,
    ) -> PingRole {
        if !m.contains_id(sender) {
            PingRole::NewPath
        } else {
            let n = m.node_by_id(sender);
            if n.has_seen_tx(tx) {
                PingRole::Duplicate
            } else {
                match src {
                    SendAddrSpec::Udp(a) => if !n.has_path(a) {
                        PingRole::NewPath
                    } else if n.fresh_pong_path(a, now) {
                        PingRole::LikelyHeartbeat
                    } else {
                        PingRole::Activate
                    },
                    SendAddrSpec::Relay(u) => if n.relay_is(u) {
                        PingRole::LikelyHeartbeat
                    } else {
                        PingRole::NewPath
                    },
                }
            }
        }
    }

    /// Handles a received ping: classifies it, records its transaction id,
    /// and adopts the path it arrived on.
    ///
    /// A duplicate changes nothing further; any other role leaves the
    /// sender known, the transaction id recorded, and — for a UDP source —
    /// the source address among the sender's candidate paths.
    pub fn handle_ping(&mut self, sender: &NodeKey, src: &SendAddr, tx: Vec<u8>, now: u64) -> (r:
        PingRole)
        requires
            old(self).wf(),
            sender.wf(),
            old(self).next_counter < u64::MAX,
        ensures
            final(self).wf(),
            final(self).contains_id(sender@),
            r == NodeMap::ping_role_spec(*old(self), sender@, src.model(), tx@, now),
            r != PingRole::Duplicate ==> exists|i: int|
                {
                    &&& 0 <= i < final(self).nodes@.len()
                    &&& (#[trigger] final(self).nodes@[i]).node_id@ == sender@
                    &&& final(self).nodes@[i].has_seen_tx(tx@)
                    &&& (src.model() matches SendAddrSpec::Udp(a) ==> final(self).nodes@[i].has_path(
                        a,
                    ))
                    &&& (src.model() matches SendAddrSpec::Relay(u)
                        ==> final(self).nodes@[i].relay_is(u))
                },
    {
        let ghost pre = *self;
        let idx = self.ensure_node(sender, now);
        proof {
            if pre.contains_id(sender@) {
                pre.lemma_node_by_id(idx as int);
            }
        }
        if self.nodes[idx].find_seen_tx(&tx) {
            return PingRole::Duplicate;
        }
        self.note_seen_tx(idx, tx, now);
        match src {
            SendAddr::Udp(a) => {
                match self.nodes[idx].find_path(*a) {
                    Some(j) => {
                        let fresh = match self.nodes[idx].paths[j].last_pong_at {
                            Some(t) => t <= now && now - t <= TRUST_PONG_MS,
                            None => false,
                        };
                        proof {
                            let n = self.nodes@[idx as int];
                            assert forall|j2: int|
                                0 <= j2 < n.paths@.len() && (#[trigger] n.paths@[j2]).addr
                                    == *a implies j2 == j by {
                                if j2 < j as int {
                                    assert(n.paths@[j2].addr != n.paths@[j as int].addr);
                                } else if j < j2 {
                                    assert(n.paths@[j as int].addr != n.paths@[j2].addr);
                                }
                            }
                            assert(n.fresh_pong_path(*a, now) == path_is_fresh(
                                n.paths@[j as int],
                                now,
                            ));
                        }
                        proof {
                            assert(self.nodes@[idx as int].node_id@ == sender@);
                            assert(self.nodes@[idx as int].has_seen_tx(tx@));
                            assert(self.nodes@[idx as int].has_path(*a));
                        }
                        if fresh {
                            PingRole::LikelyHeartbeat
                        } else {
                            PingRole::Activate
                        }
                    },
                    None => {
                        self.add_path_entry(idx, *a, now);
                        proof {
                            assert(self.nodes@[idx as int].node_id@ == sender@);
                            assert(self.nodes@[idx as int].has_seen_tx(tx@));
                            assert(self.nodes@[idx as int].has_path(*a));
                        }
                        PingRole::NewPath
                    },
                }
            },
            SendAddr::Relay(u) => {
                let matches_relay = match &self.nodes[idx].relay_url {
                    Some(v) => v.url_eq(u),
                    None => false,
                };
                if matches_relay {
                    proof {
                        assert(self.nodes@[idx as int].node_id@ == sender@);
                        assert(self.nodes@[idx as int].has_seen_tx(tx@));
                        assert(self.nodes@[idx as int].relay_is(u@));
                    }
                    PingRole::LikelyHeartbeat
                } else {
                    self.set_relay_url(idx, u.duplicate());
                    proof {
                        assert(self.nodes@[idx as int].node_id@ == sender@);
                        assert(self.nodes@[idx as int].has_seen_tx(tx@));
                        assert(self.nodes@[idx as int].relay_is(u@));
                    }
                    PingRole::NewPath
                }
            },
        }
    }

    /// Records that a ping with transaction id `tx` was sent to `dst_node`
    /// on path `a` at time `now`: exactly that ping — this id, this path,
    /// this time — is then outstanding.
    pub fn note_ping_sent(&mut self, dst_node: &NodeKey, a: IpPort, tx: Vec<u8>, now: u64)
        requires
            old(self).wf(),
            dst_node.wf(),
            old(self).next_counter < u64::MAX,
        ensures
            final(self).wf(),
            final(self).contains_id(dst_node@),
            exists|i: int|
                {
                    &&& 0 <= i < final(self).nodes@.len()
                    &&& (#[trigger] final(self).nodes@[i]).node_id@ == dst_node@
                    &&& final(self).nodes@[i].has_path(a)
                    &&& exists|j: int|
                        {
                            &&& 0 <= j < final(self).nodes@[i].pending_pings@.len()
                            &&& (#[trigger] final(self).nodes@[i].pending_pings@[j]).tx_id@ == tx@
                            &&& final(self).nodes@[i].pending_pings@[j].addr == a
                            &&& final(self).nodes@[i].pending_pings@[j].sent_at == now
                        }
                },
    {
        let idx = self.ensure_node(dst_node, now);
        self.add_path_entry(idx, a, now);
        let ghost mid = *self;
        let node_mut = &mut self.nodes[idx];
        node_mut.pending_pings.push(PendingPing { tx_id: tx, addr: a, sent_at: now });
        node_mut.last_used_at = now;
        proof {
            let n = self.nodes@[idx as int];
            let j = n.pending_pings@.len() - 1;
            assert(n.pending_pings@[j].tx_id@ == tx@);
            assert(n.pending_pings@[j].addr == a);
            assert(n.pending_pings@[j].sent_at == now);
            assert(n.paths@ == mid.nodes@[idx as int].paths@);
            Self::lemma_wf_update(mid, *self, idx as int);
        }
    }

    /// Marks path `a` of node `idx` as confirmed now, with the given
    /// round-trip time.
    fn confirm_path(&mut self, idx: usize, a: IpPort, now: u64, rtt: u64)
        requires
            old(self).wf(),
            idx < old(self).nodes@.len(),
            old(self).nodes@[idx as int].has_path(a),
        ensures
            final(self).wf(),
            final(self).nodes@.len() == old(self).nodes@.len(),
            final(self).nodes@[idx as int].fresh_pong_path(a, now),
            final(self).nodes@[idx as int].node_id@ == old(self).nodes@[idx as int].node_id@,
            final(self).nodes@[idx as int].mapped_addr == old(self).nodes@[idx as int].mapped_addr,
            forall|j: int|
                0 <= j < old(self).nodes@.len() && j != idx ==> final(self).nodes@[j] == old(
                    self,
                ).nodes@[j],
    {
        let ghost pre = *self;
        let j_opt = self.nodes[idx].find_path(a);
        let j = match j_opt {
            Some(j) => j,
            None => {
                proof {
                    assert(false);
                }
                0
            },
        };
        let node_mut = &mut self.nodes[idx];
        node_mut.last_used_at = now;
        let path_mut = &mut node_mut.paths[j];
        path_mut.last_pong_at = Some(now);
        path_mut.rtt_ms = Some(rtt);
        proof {
            let n = self.nodes@[idx as int];
            let p = pre.nodes@[idx as int];
            assert(n.paths@.len() == p.paths@.len());
            assert(n.paths@[j as int].addr == a);
            assert(path_is_fresh(n.paths@[j as int], now));
            assert(n.fresh_pong_path(a, now));
            assert forall|x: int, y: int| 0 <= x < y < n.paths@.len() implies n.paths@[x].addr
                != n.paths@[y].addr by {
                assert(n.paths@[x].addr == p.paths@[x].addr);
                assert(n.paths@[y].addr == p.paths@[y].addr);
            }
            Self::lemma_wf_update(pre, *self, idx as int);
        }
    }

    /// Handles a received pong: if it answers an outstanding ping to this
    /// peer, the path that ping was sent on is confirmed with the measured
    /// round-trip time.  A pong that confirms a path for the first time
    /// asks for a reciprocal ping back on it, so the NAT mappings at both ends
    /// open.  An unsolicited pong changes nothing.
    pub fn handle_pong(&mut self, sender: &NodeKey, tx: &Vec<u8>, now: u64) -> (r: PongHandled)
        requires
            old(self).wf(),
        ensures
            final(self).wf(),
            r.confirmed == (old(self).contains_id(sender@) && old(self).node_by_id(
                sender@,
            ).has_pending(tx@)),
            !r.confirmed ==> *final(self) == *old(self) && r.ping_back is None,
            r.confirmed ==> exists|i: int|
                {
                    &&& 0 <= i < final(self).nodes@.len()
                    &&& (#[trigger] final(self).nodes@[i]).node_id@ == sender@
                    &&& exists|j: int|
                        {
                            &&& 0 <= j < old(self).node_by_id(sender@).pending_pings@.len()
                            &&& (#[trigger] old(self).node_by_id(sender@).pending_pings@[j]).tx_id@
                                == tx@
                            &&& final(self).nodes@[i].fresh_pong_path(
                                old(self).node_by_id(sender@).pending_pings@[j].addr,
                                now,
                            )
                            &&& match r.ping_back {
                                Some(act) => !old(self).node_by_id(sender@).path_confirmed(
                                    old(self).node_by_id(sender@).pending_pings@[j].addr,
                                ) && (act matches PingAction::SendPing { dst_node, dst } && dst_node@
                                    == sender@ && dst.model() == SendAddrSpec::Udp(
                                    old(self).node_by_id(sender@).pending_pings@[j].addr,
                                )),
                                None => old(self).node_by_id(sender@).path_confirmed(
                                    old(self).node_by_id(sender@).pending_pings@[j].addr,
                                ),
                            }
                        }
                },
    {
        let i = match self.find_by_id(sender) {
            Some(i) => i,
            None => {
                return PongHandled { confirmed: false, ping_back: None };
            },
        };
        proof {
            self.lemma_node_by_id(i as int);
        }
        let mut scan: usize = 0;
        let mut found_at: Option<usize> = None;
        while scan < self.nodes[i].pending_pings.len()
            invariant
                i < self.nodes@.len(),
                0 <= scan <= self.nodes@[i as int].pending_pings@.len(),
                match found_at {
                    Some(f) => f < self.nodes@[i as int].pending_pings@.len() && self.nodes@[i as
                        int].pending_pings@[f as int].tx_id@ == tx@,
                    None => forall|k: int|
                        0 <= k < scan ==> (#[trigger] self.nodes@[i as
                            int].pending_pings@[k]).tx_id@ != tx@,
                },
            decreases self.nodes@[i as int].pending_pings@.len() - scan,
        {
            if found_at.is_none() && crate::addr::bytes_eq(
                &self.nodes[i].pending_pings[scan].tx_id,
                tx,
            ) {
                found_at = Some(scan);
            }
            scan += 1;
        }
        let jp = match found_at {
            Some(f) => f,
            None => {
                return PongHandled { confirmed: false, ping_back: None };
            },
        };
        let addr = self.nodes[i].pending_pings[jp].addr;
        let sent_at = self.nodes[i].pending_pings[jp].sent_at;
        let was_confirmed = match self.nodes[i].find_path(addr) {
            Some(pj) => {
                proof {
                    let n = self.nodes@[i as int];
                    assert forall|q: int|
                        0 <= q < n.paths@.len() && (#[trigger] n.paths@[q]).addr
                            == addr implies q == pj by {
                        if q < pj as int {
                            assert(n.paths@[q].addr != n.paths@[pj as int].addr);
                        } else if (pj as int) < q {
                            assert(n.paths@[pj as int].addr != n.paths@[q].addr);
                        }
                    }
                }
                self.nodes[i].paths[pj].last_pong_at.is_some()
            },
            None => false,
        };
        proof {
            assert(was_confirmed == self.nodes@[i as int].path_confirmed(addr));
        }
        let rtt: u64 = if sent_at <= now {
            now - sent_at
        } else {
            0
        };
        let ghost pre = *self;
        let node_mut = &mut self.nodes[i];
        node_mut.pending_pings.remove(jp);
        proof {
            let n = self.nodes@[i as int];
            assert(n.paths@ == pre.nodes@[i as int].paths@);
            Self::lemma_wf_update(pre, *self, i as int);
        }
        self.add_path_entry(i, addr, now);
        self.confirm_path(i, addr, now, rtt);
        proof {
            assert(self.nodes@[i as int].node_id@ == sender@);
        }
        let ping_back = if was_confirmed {
            None
        } else {
            Some(PingAction::SendPing { dst_node: sender.duplicate(), dst: SendAddr::Udp(addr) })
        };
        PongHandled { confirmed: true, ping_back }
    }

    /// Chooses, for one send to the peer behind `mapped`, which paths to
    /// use, following the best-path rules:
    ///
    /// 1. if any fresh (recently pong-confirmed) direct path exists, the
    ///    one with the lowest round-trip time is used alone, ties broken in
    ///    favour of IPv6;
    /// 2. otherwise the peer's home relay (if known) and a candidate direct
    ///    address (if any) are used together;
    /// 3. a peer with neither yields a decision with no path at all — the
    ///    caller drops the packet and lets the upper transport time out.
    pub fn get_send_addrs(&self, mapped: IpPort, now: u64) -> (r: Option<SendDecision>)
        requires
            self.wf(),
        ensures
            match r {
                None => !self.contains_mapped(mapped),
                Some(d) => exists|i: int|
                    {
                        &&& 0 <= i < self.nodes@.len()
                        &&& (#[trigger] self.nodes@[i]).mapped_addr == mapped
                        &&& d.node_id@ == self.nodes@[i].node_id@
                        &&& if self.nodes@[i].has_fresh_path(now) {
                            let n = self.nodes@[i];
                            &&& d.relay_url is None
                            &&& d.udp matches Some(a) && exists|j: int|
                                {
                                    &&& 0 <= j < n.paths@.len()
                                    &&& (#[trigger] n.paths@[j]).addr == a
                                    &&& path_is_fresh(n.paths@[j], now)
                                    &&& forall|k: int|
                                        0 <= k < n.paths@.len() && path_is_fresh(
                                            #[trigger] n.paths@[k],
                                            now,
                                        ) ==> path_rtt(n.paths@[j]) <= path_rtt(n.paths@[k])
                                    &&& forall|k: int|
                                        0 <= k < n.paths@.len() && path_is_fresh(
                                            #[trigger] n.paths@[k],
                                            now,
                                        ) && path_rtt(n.paths@[k]) == path_rtt(n.paths@[j])
                                            && n.paths@[k].addr.ip is V6 ==> n.paths@[j].addr.ip
                                            is V6
                                }
                        } else {
                            let n = self.nodes@[i];
                            &&& (match n.relay_url {
                                Some(u) => d.relay_url matches Some(v) && v@ == u@,
                                None => d.relay_url is None,
                            })
                            &&& (match d.udp {
                                Some(a2) => n.has_path(a2),
                                None => n.paths@.len() == 0,
                            })
                        }
                    },
            },
    {
        let i = match self.find_by_mapped(mapped) {
            Some(i) => i,
            None => {
                return None;
            },
        };
        let node = &self.nodes[i];
        let mut best: Option<usize> = None;
        let mut j: usize = 0;
        while j < node.paths.len()
            invariant
                i < self.nodes@.len(),
                node == self.nodes@[i as int],
                0 <= j <= node.paths@.len(),
                match best {
                    None => forall|k: int|
                        0 <= k < j ==> !path_is_fresh(#[trigger] node.paths@[k], now),
                    Some(b) => {
                        &&& b < j
                        &&& path_is_fresh(node.paths@[b as int], now)
                        &&& forall|k: int|
                            0 <= k < j && path_is_fresh(#[trigger] node.paths@[k], now)
                                ==> path_rtt(node.paths@[b as int]) <= path_rtt(node.paths@[k])
                        &&& forall|k: int|
                            0 <= k < j && path_is_fresh(#[trigger] node.paths@[k], now) && path_rtt(
                                node.paths@[k],
                            ) == path_rtt(node.paths@[b as int]) && node.paths@[k].addr.ip is V6
                                ==> node.paths@[b as int].addr.ip is V6
                    },
                },
            decreases node.paths@.len() - j,
        {
            let p = &node.paths[j];
            let fresh = match p.last_pong_at {
                Some(t) => t <= now && now - t <= TRUST_PONG_MS,
                None => false,
            };
            if fresh {
                let p_rtt: u64 = match p.rtt_ms {
                    Some(x) => x,
                    None => 0x1_0000_0000,
                };
                let take = match best {
                    None => true,
                    Some(b) => {
                        let b_rtt: u64 = match node.paths[b].rtt_ms {
                            Some(x) => x,
                            None => 0x1_0000_0000,
                        };
                        p_rtt < b_rtt || (p_rtt == b_rtt && p.addr.ip.is_ipv6()
                            && !node.paths[b].addr.ip.is_ipv6())
                    },
                };
                if take {
                    best = Some(j);
                }
            }
            proof {
                assert(fresh == path_is_fresh(node.paths@[j as int], now));
            }
            j += 1;
        }
        match best {
            Some(b) => Some(
                SendDecision {
                    node_id: node.node_id.duplicate(),
                    udp: Some(node.paths[b].addr),
                    relay_url: None,
                },
            ),
            None => {
                let udp: Option<IpPort> = if node.paths.len() > 0 {
                    Some(node.paths[0].addr)
                } else {
                    None
                };
                let relay_url: Option<RelayUrl> = match &node.relay_url {
                    Some(u) => Some(u.duplicate()),
                    None => None,
                };
                Some(SendDecision { node_id: node.node_id.duplicate(), udp, relay_url })
            },
        }
    }

    /// The path-discovery work owed for the peer behind `mapped`: nothing
    /// while a fresh path exists; otherwise a disco ping on every candidate
    /// path, plus a call-me-maybe over the peer's relay if one is known.
    pub fn path_discovery_actions(&self, mapped: IpPort, now: u64) -> (r: Vec<PingAction>)
        requires
            self.wf(),
        ensures
            !self.contains_mapped(mapped) ==> r@.len() == 0,
            forall|i: int|
                0 <= i < self.nodes@.len() && (#[trigger] self.nodes@[i]).mapped_addr == mapped
                    ==> ({
                    let n = self.nodes@[i];
                    if n.has_fresh_path(now) {
                        r@.len() == 0
                    } else {
                        &&& r@.len() == n.paths@.len() + (if n.relay_url is Some {
                            1int
                        } else {
                            0int
                        })
                        &&& forall|j: int|
                            0 <= j < n.paths@.len() ==> ((#[trigger] r@[j]) matches
                                PingAction::SendPing { dst_node, dst } && dst_node@ == n.node_id@
                                && dst.model() == SendAddrSpec::Udp(n.paths@[j].addr))
                        &&& (n.relay_url matches Some(u) ==> (r@.last() matches
                            PingAction::SendCallMeMaybe { dst_node, relay_url } && dst_node@
                            == n.node_id@ && relay_url@ == u@))
                    }
                }),
    {
        let mut r: Vec<PingAction> = Vec::new();
        let i = match self.find_by_mapped(mapped) {
            Some(i) => i,
            None => {
                return r;
            },
        };
        let node = &self.nodes[i];
        let mut has_fresh: bool = false;
        let mut j: usize = 0;
        while j < node.paths.len()
            invariant
                i < self.nodes@.len(),
                node == self.nodes@[i as int],
                0 <= j <= node.paths@.len(),
                has_fresh == exists|k: int|
                    0 <= k < j && path_is_fresh(#[trigger] node.paths@[k], now),
            decreases node.paths@.len() - j,
        {
            let p = &node.paths[j];
            let fresh = match p.last_pong_at {
                Some(t) => t <= now && now - t <= TRUST_PONG_MS,
                None => false,
            };
            if fresh {
                has_fresh = true;
            }
            j += 1;
        }
        if has_fresh {
            proof {
                self.lemma_mapped_unique(i as int, mapped);
            }
            return r;
        }
        let mut j2: usize = 0;
        while j2 < node.paths.len()
            invariant
                i < self.nodes@.len(),
                node == self.nodes@[i as int],
                0 <= j2 <= node.paths@.len(),
                r@.len() == j2,
                forall|j: int|
                    0 <= j < j2 ==> ((#[trigger] r@[j]) matches PingAction::SendPing {
                        dst_node,
                        dst,
                    } && dst_node@ == node.node_id@ && dst.model() == SendAddrSpec::Udp(
                        node.paths@[j].addr,
                    )),
            decreases node.paths@.len() - j2,
        {
            r.push(
                PingAction::SendPing {
                    dst_node: node.node_id.duplicate(),
                    dst: SendAddr::Udp(node.paths[j2].addr),
                },
            );
            j2 += 1;
        }
        if let Some(u) = &node.relay_url {
            r.push(
                PingAction::SendCallMeMaybe {
                    dst_node: node.node_id.duplicate(),
                    relay_url: u.duplicate(),
                },
            );
        }
        proof {
            self.lemma_mapped_unique(i as int, mapped);
        }
        r
    }

    /// Handles a relay-delivered call-me-maybe from `sender`: every
    /// advertised address becomes a candidate path, and a disco ping to
    /// each of them is owed — the hole-punching side of the exchange.
    pub fn handle_call_me_maybe(&mut self, sender: &NodeKey, addrs: &Vec<IpPort>, now: u64) -> (r: Vec<
        PingAction,
    >)
        requires
            old(self).wf(),
            sender.wf(),
            old(self).next_counter < u64::MAX,
        ensures
            final(self).wf(),
            final(self).contains_id(sender@),
            exists|i: int|
                {
                    &&& 0 <= i < final(self).nodes@.len()
                    &&& (#[trigger] final(self).nodes@[i]).node_id@ == sender@
                    &&& forall|k: int|
                        0 <= k < addrs@.len() ==> final(self).nodes@[i].has_path(
                            #[trigger] addrs@[k],
                        )
                },
            r@.len() == addrs@.len(),
            forall|k: int|
                0 <= k < addrs@.len() ==> ((#[trigger] r@[k]) matches PingAction::SendPing {
                    dst_node,
                    dst,
                } && dst_node@ == sender@ && dst.model()
                    == crate::disco::SendAddrSpec::Udp(addrs@[k])),
    {
        let idx = self.ensure_node(sender, now);
        let mut r: Vec<PingAction> = Vec::new();
        let mut k: usize = 0;
        while k < addrs.len()
            invariant
                sender.wf(),
                self.wf(),
                idx < self.nodes@.len(),
                self.nodes@[idx as int].node_id@ == sender@,
                0 <= k <= addrs@.len(),
                r@.len() == k,
                forall|q: int|
                    0 <= q < k ==> self.nodes@[idx as int].has_path(#[trigger] addrs@[q]),
                forall|q: int|
                    0 <= q < k ==> ((#[trigger] r@[q]) matches PingAction::SendPing {
                        dst_node,
                        dst,
                    } && dst_node@ == sender@ && dst.model() == crate::disco::SendAddrSpec::Udp(
                        addrs@[q],
                    )),
            decreases addrs@.len() - k,
        {
            let a = addrs[k];
            self.add_path_entry(idx, a, now);
            r.push(PingAction::SendPing { dst_node: sender.duplicate(), dst: SendAddr::Udp(a) });
            k += 1;
        }
        proof {
            assert(self.contains_id(sender@)) by {
                assert(self.nodes@[idx as int].node_id@ == sender@);
            }
        }
        r
    }

    /// The heartbeat's work: one disco ping per peer that has a trusted
    /// path, on such a path, to keep its NAT mapping open.  Peers without
    /// a trusted path get nothing here — path discovery owes them more
    /// than a heartbeat.
    pub fn nodes_stayin_alive(&self, now: u64) -> (r: Vec<PingAction>)
        requires
            self.wf(),
        ensures
            forall|k: int|
                0 <= k < r@.len() ==> ((#[trigger] r@[k]) matches PingAction::SendPing {
                    dst_node,
                    dst,
                } && exists|i: int|
                    {
                        &&& 0 <= i < self.nodes@.len()
                        &&& dst_node@ == (#[trigger] self.nodes@[i]).node_id@
                        &&& dst.model() matches SendAddrSpec::Udp(a) && self.nodes@[i]
                            .fresh_pong_path(a, now)
                    }),
            forall|i: int|
                0 <= i < self.nodes@.len() && (#[trigger] self.nodes@[i]).has_fresh_path(now)
                    ==> exists|k: int|
                    0 <= k < r@.len() && ((#[trigger] r@[k]) matches PingAction::SendPing {
                        dst_node,
                        dst,
                    } && dst_node@ == self.nodes@[i].node_id@),
    {
        let mut r: Vec<PingAction> = Vec::new();
        let mut i: usize = 0;
        while i < self.nodes.len()
            invariant
                self.wf(),
                0 <= i <= self.nodes@.len(),
                forall|k: int|
                    0 <= k < r@.len() ==> ((#[trigger] r@[k]) matches PingAction::SendPing {
                        dst_node,
                        dst,
                    } && exists|q: int|
                        {
                            &&& 0 <= q < self.nodes@.len()
                            &&& dst_node@ == (#[trigger] self.nodes@[q]).node_id@
                            &&& dst.model() matches SendAddrSpec::Udp(a) && self.nodes@[q]
                                .fresh_pong_path(a, now)
                        }),
                forall|q: int|
                    0 <= q < i && (#[trigger] self.nodes@[q]).has_fresh_path(now) ==> exists|
                        k: int,
                    |
                        0 <= k < r@.len() && ((#[trigger] r@[k]) matches PingAction::SendPing {
                            dst_node,
                            dst,
                        } && dst_node@ == self.nodes@[q].node_id@),
            decreases self.nodes@.len() - i,
        {
            let node = &self.nodes[i];
            let mut found: Option<usize> = None;
            let mut j: usize = 0;
            while j < node.paths.len()
                invariant
                    i < self.nodes@.len(),
                    node == self.nodes@[i as int],
                    0 <= j <= node.paths@.len(),
                    match found {
                        Some(f) => f < node.paths@.len() && path_is_fresh(
                            node.paths@[f as int],
                            now,
                        ),
                        None => forall|q: int|
                            0 <= q < j ==> !path_is_fresh(#[trigger] node.paths@[q], now),
                    },
                decreases node.paths@.len() - j,
            {
                if found.is_none() {
                    let fresh = match node.paths[j].last_pong_at {
                        Some(t) => t <= now && now - t <= TRUST_PONG_MS,
                        None => false,
                    };
                    if fresh {
                        found = Some(j);
                    }
                }
                j += 1;
            }
            let ghost pre_r = r@;
            match found {
                Some(f) => {
                    let a = node.paths[f].addr;
                    r.push(
                        PingAction::SendPing {
                            dst_node: node.node_id.duplicate(),
                            dst: SendAddr::Udp(a),
                        },
                    );
                    proof {
                        assert(r@[r@.len() - 1] matches PingAction::SendPing { dst_node, dst }
                            && dst_node@ == self.nodes@[i as int].node_id@);
                        assert(self.nodes@[i as int].fresh_pong_path(a, now)) by {
                            assert(node.paths@[f as int].addr == a && path_is_fresh(
                                node.paths@[f as int],
                                now,
                            ));
                        }
                        assert(forall|k: int| 0 <= k < pre_r.len() ==> r@[k] == pre_r[k]);
                    }
                },
                None => {
                    proof {
                        assert(!self.nodes@[i as int].has_fresh_path(now));
                    }
                },
            }
            i += 1;
        }
        r
    }

    /// The heartbeat's pruning: peers unused beyond [`NODE_INACTIVITY_MS`]
    /// are dropped, and the peers that stay lose every path with no
    /// activity within [`PATH_INACTIVITY_MS`].  Mapped addresses are never
    /// reused: the counter stands, whatever is dropped.
    #[verifier::rlimit(100)]
    pub fn prune_inactive(&mut self, now: u64)
        requires
            old(self).wf(),
        ensures
            final(self).wf(),
            final(self).next_counter == old(self).next_counter,
            forall|j: int| #![trigger final(self).nodes@[j]]
                0 <= j < final(self).nodes@.len() ==> exists|i: int|
                    {
                        &&& 0 <= i < old(self).nodes@.len()
                        &&& node_recent(#[trigger] old(self).nodes@[i], now)
                        &&& final(self).nodes@[j].node_id@ == old(self).nodes@[i].node_id@
                        &&& final(self).nodes@[j].mapped_addr == old(self).nodes@[i].mapped_addr
                        &&& final(self).nodes@[j].relay_url == old(self).nodes@[i].relay_url
                        &&& final(self).nodes@[j].seen_ping_txs@ == old(
                            self,
                        ).nodes@[i].seen_ping_txs@
                        &&& final(self).nodes@[j].pending_pings@ == old(
                            self,
                        ).nodes@[i].pending_pings@
                        &&& forall|a: IpPort|
                            final(self).nodes@[j].has_path(a) <==> old(
                                self,
                            ).nodes@[i].has_recent_path(a, now)
                    },
            forall|i: int|
                0 <= i < old(self).nodes@.len() && node_recent(#[trigger] old(self).nodes@[i], now)
                    ==> final(self).contains_id(old(self).nodes@[i].node_id@),
    {
        let ghost old_nodes = self.nodes@;
        let mut kept: Vec<NodeState> = Vec::new();
        let n = self.nodes.len();
        let mut i: usize = 0;
        while i < n
            invariant
                old(self).wf(),
                old_nodes == old(self).nodes@,
                n == old_nodes.len(),
                0 <= i <= n,
                self.nodes@ == old_nodes.subrange(i as int, n as int),
                self.next_counter == old(self).next_counter,
                forall|j: int| #![trigger kept@[j]]
                    0 <= j < kept@.len() ==> exists|i0: int|
                        {
                            &&& 0 <= i0 < i
                            &&& node_recent(#[trigger] old_nodes[i0], now)
                            &&& kept@[j].node_id@ == old_nodes[i0].node_id@
                            &&& kept@[j].mapped_addr == old_nodes[i0].mapped_addr
                            &&& kept@[j].relay_url == old_nodes[i0].relay_url
                            &&& kept@[j].seen_ping_txs@ == old_nodes[i0].seen_ping_txs@
                            &&& kept@[j].pending_pings@ == old_nodes[i0].pending_pings@
                            &&& kept@[j].wf()
                            &&& forall|a: IpPort|
                                kept@[j].has_path(a) <==> old_nodes[i0].has_recent_path(a, now)
                        },
                forall|i0: int|
                    0 <= i0 < i && node_recent(#[trigger] old_nodes[i0], now) ==> exists|j: int|
                        0 <= j < kept@.len() && (#[trigger] kept@[j]).node_id@
                            == old_nodes[i0].node_id@,
                forall|x: int, y: int|
                    0 <= x < y < kept@.len() ==> (#[trigger] kept@[x]).node_id@ != (
                    #[trigger] kept@[y]).node_id@ && kept@[x].mapped_addr != kept@[y].mapped_addr,
            decreases n - i,
        {
            proof {
                assert(self.nodes@[0] == old_nodes[i as int]);
            }
            let mut node = self.nodes.remove(0);
            proof {
                assert(self.nodes@ =~= old_nodes.subrange(i + 1 as int, n as int));
                assert(old(self).wf());
                assert(old_nodes[i as int].wf());
            }
            let recent = now <= node.last_used_at || now - node.last_used_at
                <= NODE_INACTIVITY_MS;
            proof {
                assert(recent == node_recent(old_nodes[i as int], now));
            }
            if recent {
                node.retain_recent_paths(now);
                let ghost pre_kept = kept@;
                kept.push(node);
                proof {
                    assert(forall|j: int| 0 <= j < pre_kept.len() ==> #[trigger] kept@[j]
                        == pre_kept[j]);
                    let jn = kept@.len() - 1;
                    assert(kept@[jn].node_id@ == old_nodes[i as int].node_id@);
                    assert(kept@[jn].mapped_addr == old_nodes[i as int].mapped_addr);
                    assert forall|i0: int|
                        0 <= i0 < i + 1 && node_recent(
                            #[trigger] old_nodes[i0],
                            now,
                        ) implies exists|j: int|
                        0 <= j < kept@.len() && (#[trigger] kept@[j]).node_id@
                            == old_nodes[i0].node_id@ by {
                        if i0 < i {
                            let j = choose|j: int|
                                0 <= j < pre_kept.len() && (#[trigger] pre_kept[j]).node_id@
                                    == old_nodes[i0].node_id@;
                            assert(kept@[j].node_id@ == old_nodes[i0].node_id@);
                        } else {
                            assert(kept@[jn].node_id@ == old_nodes[i0].node_id@);
                        }
                    }
                    assert forall|x: int, y: int| 0 <= x < y < kept@.len() implies (
                    #[trigger] kept@[x]).node_id@ != (#[trigger] kept@[y]).node_id@ && kept@[x]
                        .mapped_addr != kept@[y].mapped_addr by {
                        if y < jn {
                            assert(kept@[x] == pre_kept[x] && kept@[y] == pre_kept[y]);
                        } else {
                            assert(kept@[x] == pre_kept[x]);
                            let i0 = choose|i0: int|
                                {
                                    &&& 0 <= i0 < i
                                    &&& node_recent(#[trigger] old_nodes[i0], now)
                                    &&& pre_kept[x].node_id@ == old_nodes[i0].node_id@
                                    &&& pre_kept[x].mapped_addr == old_nodes[i0].mapped_addr
                                };
                            assert(old_nodes[i0].node_id@ != old_nodes[i as int].node_id@);
                            assert(old_nodes[i0].mapped_addr != old_nodes[i as int].mapped_addr);
                        }
                    }
                }
            } else {
                proof {
                    assert(!node_recent(old_nodes[i as int], now));
                }
            }
            i += 1;
        }
        let ghost kept_seq = kept@;
        self.nodes = kept;
        proof {
            assert forall|q: int| 0 <= q < self.nodes@.len() implies exists|c: u64|
                c < self.next_counter && (#[trigger] self.nodes@[q]).mapped_addr == mapped_addr_of(
                    c,
                ) by {
                let i0 = choose|i0: int|
                    {
                        &&& 0 <= i0 < old_nodes.len()
                        &&& node_recent(#[trigger] old_nodes[i0], now)
                        &&& kept_seq[q].node_id@ == old_nodes[i0].node_id@
                        &&& kept_seq[q].mapped_addr == old_nodes[i0].mapped_addr
                    };
                let c = choose|c: u64|
                    c < old(self).next_counter && (#[trigger] old_nodes[i0]).mapped_addr
                        == mapped_addr_of(c);
                assert(c < self.next_counter && self.nodes@[q].mapped_addr == mapped_addr_of(c));
            }
            assert forall|i0: int|
                0 <= i0 < old_nodes.len() && node_recent(
                    #[trigger] old_nodes[i0],
                    now,
                ) implies self.contains_id(old_nodes[i0].node_id@) by {
                let j = choose|j: int|
                    0 <= j < kept_seq.len() && (#[trigger] kept_seq[j]).node_id@
                        == old_nodes[i0].node_id@;
                assert(self.nodes@[j].node_id@ == old_nodes[i0].node_id@);
            }
        }
    }

    /// Notes our own freshly discovered direct addresses: any path to a
    /// peer that equals one of them is dropped — such a path is our
    /// address, not a way to reach the peer.
    #[verifier::rlimit(100)]
    pub fn on_direct_addr_discovered(&mut self, my_addrs: &Vec<IpPort>)
        requires
            old(self).wf(),
        ensures
            final(self).wf(),
            final(self).nodes@.len() == old(self).nodes@.len(),
            final(self).next_counter == old(self).next_counter,
            forall|i: int| #![trigger final(self).nodes@[i]]
                0 <= i < old(self).nodes@.len() ==> foreign_pruned(
                    final(self).nodes@[i],
                    old(self).nodes@[i],
                    my_addrs@,
                ),
    {
        let n = self.nodes.len();
        let mut i: usize = 0;
        while i < n
            invariant
                old(self).wf(),
                self.wf(),
                n == old(self).nodes@.len(),
                self.nodes@.len() == n,
                self.next_counter == old(self).next_counter,
                0 <= i <= n,
                forall|j: int| i <= j < n ==> (#[trigger] self.nodes@[j]) == old(self).nodes@[j],
                forall|j: int| #![trigger self.nodes@[j]]
                    0 <= j < i ==> foreign_pruned(self.nodes@[j], old(self).nodes@[j], my_addrs@),
            decreases n - i,
        {
            let ghost pre = *self;
            let node_mut = &mut self.nodes[i];
            node_mut.retain_foreign_paths(my_addrs);
            proof {
                assert(pre.nodes@[i as int] == old(self).nodes@[i as int]);
                Self::lemma_wf_update(pre, *self, i as int);
                assert(self.nodes@[i as int].node_id@ == old(self).nodes@[i as int].node_id@);
                assert(self.nodes@[i as int].mapped_addr == old(
                    self,
                ).nodes@[i as int].mapped_addr);
                assert(self.nodes@[i as int].relay_url == old(self).nodes@[i as int].relay_url);
                assert(self.nodes@[i as int].seen_ping_txs@ == old(
                    self,
                ).nodes@[i as int].seen_ping_txs@);
                assert(self.nodes@[i as int].pending_pings@ == old(
                    self,
                ).nodes@[i as int].pending_pings@);
                assert forall|a: IpPort|
                    self.nodes@[i as int].has_path(a) <==> (old(self).nodes@[i as int].has_path(a)
                        && !my_addrs@.contains(a)) by {}
                assert(foreign_pruned(
                    self.nodes@[i as int],
                    old(self).nodes@[i as int],
                    my_addrs@,
                ));
                assert forall|j: int| #![trigger self.nodes@[j]]
                    0 <= j < i + 1 implies foreign_pruned(
                    self.nodes@[j],
                    old(self).nodes@[j],
                    my_addrs@,
                ) by {
                    if j < i {
                        assert(self.nodes@[j] == pre.nodes@[j]);
                        assert(foreign_pruned(pre.nodes@[j], old(self).nodes@[j], my_addrs@));
                    }
                }
            }
            i += 1;
        }
    }

    /// In a well-formed map, only the entry at `i` can carry its mapped
    /// address.
    proof fn lemma_mapped_unique(&self, i: int, mapped: IpPort)
        requires
            self.wf(),
            0 <= i < self.nodes@.len(),
            self.nodes@[i].mapped_addr == mapped,
        ensures
            forall|i2: int|
                0 <= i2 < self.nodes@.len() && (#[trigger] self.nodes@[i2]).mapped_addr == mapped
                    ==> i2 == i,
    {
        assert forall|i2: int|
            0 <= i2 < self.nodes@.len() && (#[trigger] self.nodes@[i2]).mapped_addr
                == mapped implies i2 == i by {
            if i2 < i {
                assert(self.nodes@[i2].mapped_addr != self.nodes@[i].mapped_addr);
            } else if i < i2 {
                assert(self.nodes@[i].mapped_addr != self.nodes@[i2].mapped_addr);
            }
        }
    }
}

/// Which paths one send to a peer uses.
#[derive(Debug)]
pub struct SendDecision {
    /// The peer's key.
    pub node_id: NodeKey,
    /// The direct UDP address to send to, if any.
    pub udp: Option<IpPort>,
    /// The relay to send through, if any.
    pub relay_url: Option<RelayUrl>,
}

} // verus!
