//! The node's own discovered direct addresses.
//!
//! A direct-address update produces a list of [`DirectAddr`]s.  Two such
//! lists describe the same reachability when they hold the same addresses,
//! in any order and with multiplicity: equality is multiset equality.  The
//! set also remembers when it was last updated; hole punching only advertises
//! addresses that are fresh enough to still be valid NAT mappings.

use vstd::prelude::*;
use vstd::multiset::Multiset;
use crate::addr::{DirectAddr, IpPort};

verus! {

/// How long a discovered direct address stays fresh, in milliseconds.  UDP
/// NAT mappings typically expire at 30 seconds; this stays a few seconds shy
/// of that.
pub const ENDPOINTS_FRESH_ENOUGH_MS: u64 = 27_000;

/// Number of occurrences of `x` in `s`.
pub open spec fn seq_count(s: Seq<DirectAddr>, x: DirectAddr) -> nat
    decreases s.len(),
{
    if s.len() == 0 {
        0
    } else {
        (if s.last() == x {
            1nat
        } else {
            0nat
        }) + seq_count(s.drop_last(), x)
    }
}

/// `seq_count` counts exactly what the multiset of the sequence counts.
pub proof fn lemma_seq_count_is_multiset_count(s: Seq<DirectAddr>, x: DirectAddr)
    ensures
        seq_count(s, x) == s.to_multiset().count(x),
    decreases s.len(),
{
    broadcast use vstd::seq_lib::group_to_multiset_ensures;

    if s.len() == 0 {
        assert(s.to_multiset() =~= Multiset::<DirectAddr>::empty());
    } else {
        lemma_seq_count_is_multiset_count(s.drop_last(), x);
        assert(s.drop_last().push(s.last()) =~= s);
        assert(s.drop_last().push(s.last()).to_multiset() =~= s.drop_last().to_multiset().insert(
            s.last(),
        ));
    }
}

/// Counts how often `x` occurs in `v`.
pub fn count_addr(v: &Vec<DirectAddr>, x: DirectAddr) -> (r: usize)
    ensures
        r == seq_count(v@, x),
{
    let mut r: usize = 0;
    let mut i: usize = 0;
    while i < v.len()
        invariant
            0 <= i <= v@.len(),
            r == seq_count(v@.subrange(0, i as int), x),
            r <= i,
        decreases v@.len() - i,
    {
        let ghost pre = v@.subrange(0, i as int);
        if v[i] == x {
            r += 1;
        }
        proof {
            assert(v@.subrange(0, i + 1 as int).drop_last() =~= pre);
            assert(v@.subrange(0, i + 1 as int).last() == v@[i as int]);
        }
        i += 1;
    }
    proof {
        assert(v@.subrange(0, v@.len() as int) =~= v@);
    }
    r
}

/// Reports whether `xs` and `ys` hold the same direct addresses, in any
/// order and with multiplicity.
pub fn endpoint_sets_equal(xs: &Vec<DirectAddr>, ys: &Vec<DirectAddr>) -> (r: bool)
    ensures
        r == (xs@.to_multiset() == ys@.to_multiset()),
{
    broadcast use vstd::seq_lib::group_to_multiset_ensures;

    let mut i: usize = 0;
    while i < xs.len()
        invariant
            0 <= i <= xs@.len(),
            forall|j: int|
                0 <= j < i ==> seq_count(xs@, #[trigger] xs@[j]) == seq_count(ys@, xs@[j]),
        decreases xs@.len() - i,
    {
        if count_addr(xs, xs[i]) != count_addr(ys, xs[i]) {
            proof {
                lemma_seq_count_is_multiset_count(xs@, xs@[i as int]);
                lemma_seq_count_is_multiset_count(ys@, xs@[i as int]);
            }
            return false;
        }
        i += 1;
    }
    let mut j: usize = 0;
    while j < ys.len()
        invariant
            0 <= j <= ys@.len(),
            forall|k: int|
                0 <= k < xs@.len() ==> seq_count(xs@, #[trigger] xs@[k]) == seq_count(ys@, xs@[k]),
            forall|k: int|
                0 <= k < j ==> seq_count(xs@, #[trigger] ys@[k]) == seq_count(ys@, ys@[k]),
        decreases ys@.len() - j,
    {
        if count_addr(xs, ys[j]) != count_addr(ys, ys[j]) {
            proof {
                lemma_seq_count_is_multiset_count(xs@, ys@[j as int]);
                lemma_seq_count_is_multiset_count(ys@, ys@[j as int]);
            }
            return false;
        }
        j += 1;
    }
    proof {
        assert forall|z: DirectAddr| xs@.to_multiset().count(z) == ys@.to_multiset().count(
            z,
        ) by {
            lemma_seq_count_is_multiset_count(xs@, z);
            lemma_seq_count_is_multiset_count(ys@, z);
            if xs@.contains(z) {
                let k = choose|k: int| 0 <= k < xs@.len() && xs@[k] == z;
                assert(seq_count(xs@, xs@[k]) == seq_count(ys@, xs@[k]));
            } else if ys@.contains(z) {
                let k = choose|k: int| 0 <= k < ys@.len() && ys@[k] == z;
                assert(seq_count(xs@, ys@[k]) == seq_count(ys@, ys@[k]));
            } else {
                assert(xs@.to_multiset().count(z) == 0);
                assert(ys@.to_multiset().count(z) == 0);
            }
        }
        assert(xs@.to_multiset() =~= ys@.to_multiset());
    }
    true
}

/// The discovered direct addresses of this node, with the time of the last
/// update (a monotonic clock reading in milliseconds).
#[derive(Debug)]
pub struct DiscoveredDirectAddrs {
    /// The last set of discovered direct addresses.
    pub addrs: Vec<DirectAddr>,
    /// When the addresses were last updated, even if there was no change.
    pub updated_at: Option<u64>,
}

impl DiscoveredDirectAddrs {
    /// An empty set that was never updated.
    pub fn empty() -> (r: DiscoveredDirectAddrs)
        ensures
            r.addrs@ == Seq::<DirectAddr>::empty(),
            r.updated_at is None,
    {
        DiscoveredDirectAddrs { addrs: Vec::new(), updated_at: None }
    }

    /// A set discovered at time `now_ms`.
    pub fn new(addrs: Vec<DirectAddr>, now_ms: u64) -> (r: DiscoveredDirectAddrs)
        ensures
            r.addrs@ == addrs@,
            r.updated_at == Some(now_ms),
    {
        DiscoveredDirectAddrs { addrs, updated_at: Some(now_ms) }
    }

    /// True if no direct addresses are known.
    pub fn is_empty(&self) -> (r: bool)
        ensures
            r == (self.addrs@.len() == 0),
    {
        self.addrs.len() == 0
    }

    /// True if the set was updated recently enough that its addresses can be
    /// advertised for hole punching.  `now_ms` is the current reading of the
    /// same clock that stamped the update.
    pub fn fresh_enough(&self, now_ms: u64) -> (r: bool)
        requires
            self.updated_at matches Some(t) ==> t <= now_ms,
        ensures
            r == match self.updated_at {
                None => false,
                Some(t) => now_ms - t <= ENDPOINTS_FRESH_ENOUGH_MS,
            },
    {
        match self.updated_at {
            None => false,
            Some(t) => now_ms - t <= ENDPOINTS_FRESH_ENOUGH_MS,
        }
    }

    /// The addresses to advertise in a call-me-maybe message.
    pub fn to_call_me_maybe_addrs(&self) -> (r: Vec<IpPort>)
        ensures
            r@ == self.addrs@.map_values(|d: DirectAddr| d.addr),
    {
        let mut r: Vec<IpPort> = Vec::new();
        let mut i: usize = 0;
        while i < self.addrs.len()
            invariant
                0 <= i <= self.addrs@.len(),
                r@ == self.addrs@.subrange(0, i as int).map_values(|d: DirectAddr| d.addr),
            decreases self.addrs@.len() - i,
        {
            r.push(self.addrs[i].addr);
            proof {
                assert(r@ =~= self.addrs@.subrange(0, i + 1 as int).map_values(
                    |d: DirectAddr| d.addr,
                ));
            }
            i += 1;
        }
        proof {
            assert(self.addrs@.subrange(0, self.addrs@.len() as int) =~= self.addrs@);
        }
        r
    }
}

/// A singleton candidate list, or an empty one.
pub open spec fn opt_candidate(o: Option<IpPort>, t: crate::addr::DirectAddrType) -> Seq<
    DirectAddr,
> {
    match o {
        Some(a) => seq![DirectAddr { addr: a, typ: t }],
        None => Seq::empty(),
    }
}

/// The candidate direct addresses of one update, in priority order —
/// farthest but most reliable first: STUN-derived, then port-mapped, then
/// the hard-NAT fixed-port guess, then everything local.  Duplicates are
/// still present here.
pub open spec fn direct_addr_candidates(
    global_v4: Option<IpPort>,
    global_v6: Option<IpPort>,
    portmap_ext: Option<IpPort>,
    stun4_local: Option<IpPort>,
    locals: Seq<IpPort>,
) -> Seq<DirectAddr> {
    opt_candidate(global_v4, crate::addr::DirectAddrType::Stun) + opt_candidate(
        global_v6,
        crate::addr::DirectAddrType::Stun,
    ) + opt_candidate(portmap_ext, crate::addr::DirectAddrType::Portmapped) + opt_candidate(
        stun4_local,
        crate::addr::DirectAddrType::Stun4LocalPort,
    ) + locals.map_values(
        |a: IpPort| DirectAddr { addr: a, typ: crate::addr::DirectAddrType::Local },
    )
}

/// The hard-NAT fixed-port candidate: when the NAT maps by destination and
/// the local port is fixed, the router may well forward that same port —
/// the STUN-seen IPv4 address with the local port is worth a try.
pub fn stun4_local_candidate(
    global_v4: Option<IpPort>,
    mapping_varies: Option<bool>,
    local_port: u16,
) -> (r: Option<IpPort>)
    ensures
        r == (match global_v4 {
            Some(g) => if mapping_varies == Some(true) && local_port != 0 {
                Some(IpPort { ip: g.ip, port: local_port })
            } else {
                None::<IpPort>
            },
            None => None::<IpPort>,
        }),
{
    match global_v4 {
        Some(g) => {
            let varies = match mapping_varies {
                Some(b) => b,
                None => false,
            };
            if varies && local_port != 0 {
                Some(IpPort { ip: g.ip, port: local_port })
            } else {
                None
            }
        },
        None => None,
    }
}

/// Enumerated interface IPs paired with the bound ports: IPv4 addresses get
/// the IPv4 socket's port, IPv6 addresses the IPv6 socket's, and addresses
/// of a family with no bound port are skipped.  Order is kept.
pub open spec fn paired_locals(
    ips: Seq<crate::addr::IpAddress>,
    v4_port: Option<u16>,
    v6_port: Option<u16>,
) -> Seq<IpPort>
    decreases ips.len(),
{
    if ips.len() == 0 {
        Seq::empty()
    } else {
        let rest = paired_locals(ips.drop_last(), v4_port, v6_port);
        let port = match ips.last() {
            crate::addr::IpAddress::V4(_) => v4_port,
            crate::addr::IpAddress::V6(_) => v6_port,
        };
        match port {
            Some(p) => rest.push(IpPort { ip: ips.last(), port: p }),
            None => rest,
        }
    }
}

/// Pairs enumerated interface IPs with the bound ports.
pub fn interface_addr_candidates(
    ips: &Vec<crate::addr::IpAddress>,
    v4_port: Option<u16>,
    v6_port: Option<u16>,
) -> (r: Vec<IpPort>)
    ensures
        r@ == paired_locals(ips@, v4_port, v6_port),
{
    let mut r: Vec<IpPort> = Vec::new();
    let mut i: usize = 0;
    proof {
        assert(ips@.subrange(0, 0) =~= Seq::<crate::addr::IpAddress>::empty());
    }
    while i < ips.len()
        invariant
            0 <= i <= ips@.len(),
            r@ == paired_locals(ips@.subrange(0, i as int), v4_port, v6_port),
        decreases ips@.len() - i,
    {
        let ip = ips[i];
        match ip {
            crate::addr::IpAddress::V4(_) => {
                if let Some(p) = v4_port {
                    r.push(IpPort { ip, port: p });
                }
            },
            crate::addr::IpAddress::V6(_) => {
                if let Some(p) = v6_port {
                    r.push(IpPort { ip, port: p });
                }
            },
        }
        proof {
            assert(ips@.subrange(0, i + 1 as int).drop_last() =~= ips@.subrange(0, i as int));
            assert(ips@.subrange(0, i + 1 as int).last() == ips@[i as int]);
        }
        i += 1;
    }
    proof {
        assert(ips@.subrange(0, ips@.len() as int) =~= ips@);
    }
    r
}

/// Whether loopback addresses join the candidates: only when no interface
/// and no discovered address exists at all — so two nodes on one machine
/// can still find each other while offline.
pub fn include_loopback(regular_empty: bool, discovered_empty: bool) -> (r: bool)
    ensures
        r == (regular_empty && discovered_empty),
{
    regular_empty && discovered_empty
}

/// True if some entry of `s` carries address `a`.
pub open spec fn holds_addr(s: Seq<DirectAddr>, a: IpPort) -> bool {
    exists|k: int| 0 <= k < s.len() && (#[trigger] s[k]).addr == a
}

/// The candidates with later duplicates dropped: for each address the
/// first — highest-priority — entry survives, in order.
pub open spec fn dedup_spec(s: Seq<DirectAddr>) -> Seq<DirectAddr>
    decreases s.len(),
{
    if s.len() == 0 {
        Seq::empty()
    } else {
        let rest = dedup_spec(s.drop_last());
        if holds_addr(s.drop_last(), s.last().addr) {
            rest
        } else {
            rest.push(s.last())
        }
    }
}

/// Deduplication keeps exactly the addresses of the input.
pub proof fn lemma_dedup_spec_addrs(s: Seq<DirectAddr>, a: IpPort)
    ensures
        holds_addr(dedup_spec(s), a) == holds_addr(s, a),
    decreases s.len(),
{
    if s.len() > 0 {
        lemma_dedup_spec_addrs(s.drop_last(), a);
        let rest = dedup_spec(s.drop_last());
        if holds_addr(s.drop_last(), s.last().addr) {
            if holds_addr(s, a) {
                let k = choose|k: int| 0 <= k < s.len() && (#[trigger] s[k]).addr == a;
                if k < s.len() - 1 {
                    assert(s.drop_last()[k].addr == a);
                } else {
                    let k2 = choose|k2: int|
                        0 <= k2 < s.drop_last().len() && (#[trigger] s.drop_last()[k2]).addr
                            == s.last().addr;
                    assert(s.drop_last()[k2].addr == a);
                }
            }
            if holds_addr(s.drop_last(), a) {
                let k = choose|k: int|
                    0 <= k < s.drop_last().len() && (#[trigger] s.drop_last()[k]).addr == a;
                assert(s[k].addr == a);
            }
        } else {
            if holds_addr(s, a) {
                let k = choose|k: int| 0 <= k < s.len() && (#[trigger] s[k]).addr == a;
                if k < s.len() - 1 {
                    assert(s.drop_last()[k].addr == a);
                    let q = choose|q: int|
                        0 <= q < rest.len() && (#[trigger] rest[q]).addr == a;
                    assert(dedup_spec(s)[q].addr == a);
                } else {
                    assert(dedup_spec(s)[dedup_spec(s).len() - 1].addr == a);
                }
            }
            if holds_addr(dedup_spec(s), a) {
                let q = choose|q: int|
                    0 <= q < dedup_spec(s).len() && (#[trigger] dedup_spec(s)[q]).addr == a;
                if q < dedup_spec(s).len() - 1 {
                    assert(rest[q].addr == a);
                    let k = choose|k: int|
                        0 <= k < s.drop_last().len() && (#[trigger] s.drop_last()[k]).addr == a;
                    assert(s[k].addr == a);
                } else {
                    assert(s[s.len() - 1].addr == a);
                }
            }
        }
    }
}

/// Deduplicated lists carry each address at most once.
pub proof fn lemma_dedup_spec_distinct(s: Seq<DirectAddr>)
    ensures
        forall|i: int, j: int|
            0 <= i < j < dedup_spec(s).len() ==> (#[trigger] dedup_spec(s)[i]).addr != (
            #[trigger] dedup_spec(s)[j]).addr,
    decreases s.len(),
{
    if s.len() > 0 {
        lemma_dedup_spec_distinct(s.drop_last());
        let rest = dedup_spec(s.drop_last());
        if !holds_addr(s.drop_last(), s.last().addr) {
            lemma_dedup_spec_addrs(s.drop_last(), s.last().addr);
            assert forall|i: int, j: int|
                0 <= i < j < dedup_spec(s).len() implies (#[trigger] dedup_spec(s)[i]).addr != (
            #[trigger] dedup_spec(s)[j]).addr by {
                if j < dedup_spec(s).len() - 1 {
                    assert(dedup_spec(s)[i] == rest[i] && dedup_spec(s)[j] == rest[j]);
                } else {
                    assert(dedup_spec(s)[i] == rest[i]);
                    if rest[i].addr == s.last().addr {
                        assert(holds_addr(rest, s.last().addr));
                    }
                }
            }
        }
    }
}

/// Drops later entries whose address appeared before.
pub fn dedup_by_addr(cands: &Vec<DirectAddr>) -> (r: Vec<DirectAddr>)
    ensures
        r@ == dedup_spec(cands@),
{
    let mut r: Vec<DirectAddr> = Vec::new();
    let mut i: usize = 0;
    proof {
        assert(cands@.subrange(0, 0) =~= Seq::<DirectAddr>::empty());
    }
    while i < cands.len()
        invariant
            0 <= i <= cands@.len(),
            r@ == dedup_spec(cands@.subrange(0, i as int)),
        decreases cands@.len() - i,
    {
        let c = cands[i];
        let mut seen: bool = false;
        let mut q: usize = 0;
        while q < r.len()
            invariant
                0 <= q <= r@.len(),
                seen == exists|x: int| 0 <= x < q && (#[trigger] r@[x]).addr == c.addr,
            decreases r@.len() - q,
        {
            if r[q].addr == c.addr {
                seen = true;
            }
            q += 1;
        }
        proof {
            let pre = cands@.subrange(0, i as int);
            lemma_dedup_spec_addrs(pre, c.addr);
            assert(seen == holds_addr(dedup_spec(pre), c.addr));
            assert(cands@.subrange(0, i + 1 as int).drop_last() =~= pre);
            assert(cands@.subrange(0, i + 1 as int).last() == c);
        }
        if !seen {
            r.push(c);
        }
        i += 1;
    }
    proof {
        assert(cands@.subrange(0, cands@.len() as int) =~= cands@);
    }
    r
}

/// Assembles one update's prioritized direct-address list: the candidates
/// in priority order with later duplicates dropped, so every address
/// appears once, under its highest-priority origin.
pub fn assemble_direct_addrs(
    global_v4: Option<IpPort>,
    global_v6: Option<IpPort>,
    portmap_ext: Option<IpPort>,
    stun4_local: Option<IpPort>,
    locals: &Vec<IpPort>,
) -> (r: Vec<DirectAddr>)
    ensures
        r@ == dedup_spec(
            direct_addr_candidates(global_v4, global_v6, portmap_ext, stun4_local, locals@),
        ),
        forall|i: int, j: int| 0 <= i < j < r@.len() ==> r@[i].addr != r@[j].addr,
{
    let mut cands: Vec<DirectAddr> = Vec::new();
    if let Some(a) = global_v4 {
        cands.push(DirectAddr { addr: a, typ: crate::addr::DirectAddrType::Stun });
    }
    if let Some(a) = global_v6 {
        cands.push(DirectAddr { addr: a, typ: crate::addr::DirectAddrType::Stun });
    }
    if let Some(a) = portmap_ext {
        cands.push(DirectAddr { addr: a, typ: crate::addr::DirectAddrType::Portmapped });
    }
    if let Some(a) = stun4_local {
        cands.push(DirectAddr { addr: a, typ: crate::addr::DirectAddrType::Stun4LocalPort });
    }
    let mut i: usize = 0;
    while i < locals.len()
        invariant
            0 <= i <= locals@.len(),
            cands@ == direct_addr_candidates(
                global_v4,
                global_v6,
                portmap_ext,
                stun4_local,
                locals@.subrange(0, i as int),
            ),
        decreases locals@.len() - i,
    {
        cands.push(DirectAddr { addr: locals[i], typ: crate::addr::DirectAddrType::Local });
        proof {
            assert(locals@.subrange(0, i + 1 as int) =~= locals@.subrange(0, i as int).push(
                locals@[i as int],
            ));
            assert(locals@.subrange(0, i + 1 as int).map_values(
                |a: IpPort| DirectAddr { addr: a, typ: crate::addr::DirectAddrType::Local },
            ) =~= locals@.subrange(0, i as int).map_values(
                |a: IpPort| DirectAddr { addr: a, typ: crate::addr::DirectAddrType::Local },
            ).push(DirectAddr { addr: locals@[i as int], typ: crate::addr::DirectAddrType::Local }));
            assert(cands@ =~= direct_addr_candidates(
                global_v4,
                global_v6,
                portmap_ext,
                stun4_local,
                locals@.subrange(0, i + 1 as int),
            ));
        }
        i += 1;
    }
    proof {
        assert(locals@.subrange(0, locals@.len() as int) =~= locals@);
        assert(cands@ == direct_addr_candidates(
            global_v4,
            global_v6,
            portmap_ext,
            stun4_local,
            locals@,
        ));
        lemma_dedup_spec_distinct(cands@);
    }
    dedup_by_addr(&cands)
}

impl PartialEq for DiscoveredDirectAddrs {
    /// Two discovered sets are equal when they hold the same addresses, in
    /// any order and with multiplicity; the update time is ignored.
    fn eq(&self, other: &Self) -> (r: bool) {
        endpoint_sets_equal(&self.addrs, &other.addrs)
    }
}

impl vstd::std_specs::cmp::PartialEqSpecImpl for DiscoveredDirectAddrs {
    open spec fn obeys_eq_spec() -> bool {
        true
    }

    open spec fn eq_spec(&self, other: &Self) -> bool {
        self.addrs@.to_multiset() == other.addrs@.to_multiset()
    }
}

} // verus!
