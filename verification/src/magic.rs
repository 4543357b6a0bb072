//! The socket core: packet classification, the send decision, and the
//! disco receive path.
//!
//! The upper transport sees one connectionless socket.  On send, the
//! destination is a mapped address; the node map picks the paths and this
//! module decides what the call returns.  On receive, every datagram is
//! classified — STUN reflexes go to the prober, disco packets are handled
//! here, QUIC packets have their source rewritten to the sender's mapped
//! address — and call-me-maybe messages are accepted from the relay only.

use vstd::prelude::*;
use crate::addr::{IpAddress, IpPort, NodeKey, RelayUrl, NODE_KEY_LEN};
use crate::disco::{
    is_disco_packet_spec, parse_msg, DiscoMessage, DiscoMsgSpec, SendAddr, SendAddrSpec,
};
use crate::node_map::{NodeMap, PingAction, PingRole};
use crate::seal::{unseal_spec, x25519_public, DiscoBoxError};

verus! {

/// What a received UDP packet is.
#[derive(Clone, Copy, Debug, PartialEq, Eq, Structural)]
pub enum PacketClass {
    /// A STUN packet: starts with a zero two-bit prefix and carries the
    /// STUN magic cookie.
    Stun,
    /// A disco packet: starts with the disco magic.
    Disco,
    /// Anything else: payload for the upper transport.
    Quic,
}

/// A packet is STUN when it has the 20-byte header, a zero two-bit type
/// prefix, and the magic cookie in bytes 4 to 8.
pub open spec fn is_stun_spec(p: Seq<u8>) -> bool {
    &&& p.len() >= 20
    &&& p[0] < 64
    &&& p[4] == 0x21
    &&& p[5] == 0x12
    &&& p[6] == 0xa4
    &&& p[7] == 0x42
}

/// How a packet classifies: the disco magic wins, then the STUN cookie,
/// and everything else is for the upper transport.
pub open spec fn classify_spec(p: Seq<u8>) -> PacketClass {
    if is_disco_packet_spec(p) {
        PacketClass::Disco
    } else if is_stun_spec(p) {
        PacketClass::Stun
    } else {
        PacketClass::Quic
    }
}

/// Classifies a received UDP packet.
pub fn classify_packet(p: &Vec<u8>) -> (r: PacketClass)
    ensures
        r == classify_spec(p@),
{
    if crate::disco::is_disco_packet(p) {
        return PacketClass::Disco;
    }
    if p.len() >= 20 && p[0] < 64 && p[4] == 0x21 && p[5] == 0x12 && p[6] == 0xa4 && p[7] == 0x42 {
        PacketClass::Stun
    } else {
        PacketClass::Quic
    }
}

/// How one path fared during a send.
#[derive(Clone, Copy, Debug, PartialEq, Eq, Structural)]
pub enum SendAttempt {
    /// The path was not used.
    NotTried,
    /// The datagram went out.
    Sent,
    /// The path has backpressure.
    WouldBlock,
    /// The path failed hard.
    Failed,
}

/// What a send returns to the upper transport.
#[derive(Clone, Copy, Debug, PartialEq, Eq, Structural)]
pub enum SendResult {
    /// The socket is closed.
    NotConnected,
    /// Both paths are backpressured: try again later.
    WouldBlock,
    /// The datagram was accepted — even when no path took it.  A missing
    /// peer or a failed path is deliberately silent: datagrams are
    /// best-effort and the upper transport's own timeout covers the loss.
    Accepted,
}

/// Decides what a send returns, from the socket state and how the two
/// paths fared.  Backpressure surfaces only when both paths are
/// backpressured; every other combination — including a peer the map does
/// not know, and hard failures on both paths — is accepted silently.
pub fn send_result(closed: bool, node_found: bool, udp: SendAttempt, relay: SendAttempt) -> (r:
    SendResult)
    ensures
        r == if closed {
            SendResult::NotConnected
        } else if node_found && udp == SendAttempt::WouldBlock && relay == SendAttempt::WouldBlock {
            SendResult::WouldBlock
        } else {
            SendResult::Accepted
        },
{
    if closed {
        SendResult::NotConnected
    } else if node_found && matches!(udp, SendAttempt::WouldBlock) && matches!(
        relay,
        SendAttempt::WouldBlock,
    ) {
        SendResult::WouldBlock
    } else {
        SendResult::Accepted
    }
}

/// What happens to one received UDP datagram.
#[derive(Debug)]
pub enum UdpDatagramDisposition {
    /// Hand the packet to the reachability prober.
    ForwardStun,
    /// Open and handle it as a disco message.
    HandleDisco,
    /// Hand it up as transport payload, with the source rewritten to the
    /// sender's mapped address.
    Quic { node_id: NodeKey, mapped_addr: IpPort },
    /// Transport payload from an address no peer owns: discard it (the
    /// receive length is zeroed so the upper transport skips it).
    DropUnknownSource,
}

/// Decides what to do with one received UDP datagram: classify it, and for
/// transport payload translate the real source address into the sender's
/// mapped address — or drop the datagram when no peer owns that address.
pub fn process_udp_datagram(nm: &NodeMap, src: IpPort, packet: &Vec<u8>) -> (r:
    UdpDatagramDisposition)
    ensures
        match r {
            UdpDatagramDisposition::ForwardStun => classify_spec(packet@) == PacketClass::Stun,
            UdpDatagramDisposition::HandleDisco => classify_spec(packet@) == PacketClass::Disco,
            UdpDatagramDisposition::Quic { node_id, mapped_addr } => classify_spec(packet@)
                == PacketClass::Quic && exists|i: int|
                {
                    &&& 0 <= i < nm.nodes@.len()
                    &&& (#[trigger] nm.nodes@[i]).has_path(src)
                    &&& node_id@ == nm.nodes@[i].node_id@
                    &&& mapped_addr == nm.nodes@[i].mapped_addr
                },
            UdpDatagramDisposition::DropUnknownSource => classify_spec(packet@)
                == PacketClass::Quic && forall|i: int|
                0 <= i < nm.nodes@.len() ==> !(#[trigger] nm.nodes@[i]).has_path(src),
        },
{
    match classify_packet(packet) {
        PacketClass::Stun => UdpDatagramDisposition::ForwardStun,
        PacketClass::Disco => UdpDatagramDisposition::HandleDisco,
        PacketClass::Quic => match nm.receive_udp(src) {
            Some(p) => UdpDatagramDisposition::Quic { node_id: p.0, mapped_addr: p.1 },
            None => UdpDatagramDisposition::DropUnknownSource,
        },
    }
}

/// A counter one step further, stopping at the top instead of wrapping.
pub open spec fn bump(c: u64) -> u64 {
    if c < 0xffff_ffff_ffff_ffff {
        (c + 1) as u64
    } else {
        c
    }
}

/// Adds one to a counter, stopping at the top instead of wrapping.
pub fn bump_counter(c: &mut u64)
    ensures
        *final(c) == bump(*old(c)),
{
    if *c < 0xffff_ffff_ffff_ffff {
        *c = *c + 1;
    }
}

/// The disco receive counters.
#[derive(Clone, Copy, Debug, PartialEq, Eq, Structural, Default)]
pub struct DiscoCounters {
    /// Disco packets that arrived over UDP and were opened.
    pub recv_disco_udp: u64,
    /// Disco packets that arrived over relay and were opened.
    pub recv_disco_relay: u64,
    /// Pings handled.
    pub recv_disco_ping: u64,
    /// Pongs handled.
    pub recv_disco_pong: u64,
    /// Call-me-maybe messages received — dropped ones included.
    pub recv_disco_call_me_maybe: u64,
    /// Boxes that did not open.
    pub recv_disco_bad_key: u64,
    /// Boxes that opened to no valid message.
    pub recv_disco_bad_parse: u64,
}

/// What handling a sealed disco message came to.
#[derive(Debug)]
pub enum DiscoEvent {
    /// The box did not open: wrong key or tampering.  Counted and dropped.
    BadKey,
    /// The box opened to bytes that are no message.  Counted and dropped.
    BadParse,
    /// A ping.  Unless it was a duplicate, the pong to queue back to the
    /// source is returned.
    Ping { role: PingRole, pong: Option<DiscoMessage> },
    /// A pong; `confirmed` says whether it answered an outstanding ping
    /// and so confirmed a path.  A pong that confirmed a path for the
    /// first time carries the reciprocal ping owed on it.
    Pong { confirmed: bool, ping_back: Option<PingAction> },
    /// A call-me-maybe from the relay: the pings it asks for.
    CallMeMaybe { actions: Vec<PingAction> },
    /// A call-me-maybe that arrived over UDP: counted and discarded —
    /// such advertisements are accepted from the relay only.
    CallMeMaybeViaUdpDropped,
}

/// Opens and handles one sealed disco message from `sender`.
///
/// A box that fails to open or to decode is counted and dropped.  Pings
/// are classified and answered with a pong on the path they came in on;
/// pongs confirm paths; call-me-maybe messages are acted on when — and
/// only when — they arrived via relay: one received over UDP is counted
/// and discarded with nothing else done.
pub fn handle_disco_message(
    nm: &mut NodeMap,
    counters: &mut DiscoCounters,
    my_secret: &Vec<u8>,
    sender: &NodeKey,
    sealed: &Vec<u8>,
    src: &SendAddr,
    now: u64,
) -> (r: DiscoEvent)
    requires
        old(nm).wf(),
        old(nm).next_counter < u64::MAX,
        sender.wf(),
        src.wf(),
        my_secret@.len() == NODE_KEY_LEN,
    ensures
        final(nm).wf(),
        ({
            let opened = unseal_spec(sender@, x25519_public(my_secret@), sealed@);
            match r {
                DiscoEvent::BadKey => {
                    &&& opened is None
                    &&& *final(nm) == *old(nm)
                    &&& *final(counters) == (DiscoCounters {
                        recv_disco_bad_key: bump(old(counters).recv_disco_bad_key),
                        ..*old(counters)
                    })
                },
                DiscoEvent::BadParse => {
                    &&& opened is Some
                    &&& parse_msg(opened.unwrap()) is None
                    &&& *final(nm) == *old(nm)
                    &&& *final(counters) == (DiscoCounters {
                        recv_disco_bad_parse: bump(old(counters).recv_disco_bad_parse),
                        ..*old(counters)
                    })
                },
                DiscoEvent::Ping { role, pong } => {
                    &&& opened is Some
                    &&& (parse_msg(opened.unwrap()) matches Some(m) && m matches
                        DiscoMsgSpec::Ping { tx_id, node_key } && role == NodeMap::ping_role_spec(
                        *old(nm),
                        sender@,
                        src.model(),
                        tx_id,
                        now,
                    ) && (match pong {
                        Some(p) => role != PingRole::Duplicate && p.wf() && p.model() == (
                        DiscoMsgSpec::Pong { tx_id, addr: src.model() }),
                        None => role == PingRole::Duplicate,
                    }))
                },
                DiscoEvent::Pong { confirmed, ping_back } => {
                    &&& opened is Some
                    &&& (parse_msg(opened.unwrap()) matches Some(m) && m matches DiscoMsgSpec::Pong {
                        tx_id,
                        addr,
                    } && confirmed == (old(nm).contains_id(sender@) && old(nm).node_by_id(
                        sender@,
                    ).has_pending(tx_id)))
                    &&& (ping_back matches Some(act) ==> confirmed && (act matches
                        PingAction::SendPing { dst_node, dst } && dst_node@ == sender@
                        && dst.model() is Udp))
                    &&& (!confirmed ==> ping_back is None)
                },
                DiscoEvent::CallMeMaybe { actions } => {
                    &&& opened is Some
                    &&& src.model() is Relay
                    &&& (parse_msg(opened.unwrap()) matches Some(m) && m matches
                        DiscoMsgSpec::CallMeMaybe { addrs } && actions@.len() == addrs.len()
                        && (forall|k: int|
                        0 <= k < addrs.len() ==> ((#[trigger] actions@[k]) matches
                            PingAction::SendPing { dst_node, dst } && dst_node@ == sender@
                            && dst.model() == SendAddrSpec::Udp(addrs[k]))))
                    &&& *final(counters) == (DiscoCounters {
                        recv_disco_call_me_maybe: bump(old(counters).recv_disco_call_me_maybe),
                        recv_disco_relay: bump(old(counters).recv_disco_relay),
                        ..*old(counters)
                    })
                },
                DiscoEvent::CallMeMaybeViaUdpDropped => {
                    &&& opened is Some
                    &&& (parse_msg(opened.unwrap()) matches Some(m) && m is CallMeMaybe)
                    &&& src.model() is Udp
                    &&& *final(nm) == *old(nm)
                    &&& *final(counters) == (DiscoCounters {
                        recv_disco_call_me_maybe: bump(old(counters).recv_disco_call_me_maybe),
                        recv_disco_udp: bump(old(counters).recv_disco_udp),
                        ..*old(counters)
                    })
                },
            }
        }),
{
    let msg = match crate::seal::unseal_message(my_secret, sender.as_bytes(), sealed) {
        Err(DiscoBoxError::Open) => {
            bump_counter(&mut counters.recv_disco_bad_key);
            return DiscoEvent::BadKey;
        },
        Err(DiscoBoxError::Parse) => {
            bump_counter(&mut counters.recv_disco_bad_parse);
            return DiscoEvent::BadParse;
        },
        Ok(m) => m,
    };
    if src.is_relay() {
        bump_counter(&mut counters.recv_disco_relay);
    } else {
        bump_counter(&mut counters.recv_disco_udp);
    }
    match msg {
        DiscoMessage::Ping { tx_id, node_key: _ } => {
            bump_counter(&mut counters.recv_disco_ping);
            let tx_copy = crate::addr::clone_bytes(&tx_id);
            let role = nm.handle_ping(sender, src, tx_id, now);
            if matches!(role, PingRole::Duplicate) {
                DiscoEvent::Ping { role, pong: None }
            } else {
                let pong = DiscoMessage::Pong {
                    tx_id: tx_copy,
                    ping_observed_addr: src.duplicate(),
                };
                DiscoEvent::Ping { role, pong: Some(pong) }
            }
        },
        DiscoMessage::Pong { tx_id, ping_observed_addr: _ } => {
            bump_counter(&mut counters.recv_disco_pong);
            let handled = nm.handle_pong(sender, &tx_id, now);
            DiscoEvent::Pong { confirmed: handled.confirmed, ping_back: handled.ping_back }
        },
        DiscoMessage::CallMeMaybe { my_numbers } => {
            bump_counter(&mut counters.recv_disco_call_me_maybe);
            if !src.is_relay() {
                return DiscoEvent::CallMeMaybeViaUdpDropped;
            }
            let actions = nm.handle_call_me_maybe(sender, &my_numbers, now);
            DiscoEvent::CallMeMaybe { actions }
        },
    }
}

/// The local address reported to the upper transport: the IPv6 socket
/// address when one is bound; otherwise the IPv4 one presented as an
/// IPv4-mapped IPv6 address, so the caller always sees IPv6 — as the
/// mapped peer addresses are.
pub fn normalized_local_addr(v4: IpPort, v6: Option<IpPort>) -> (r: IpPort)
    ensures
        r == match v6 {
            Some(a) => a,
            None => IpPort { ip: v4.ip.v6_mapped_spec(), port: v4.port },
        },
{
    match v6 {
        Some(a) => a,
        None => IpPort { ip: v4.ip.to_v6_mapped(), port: v4.port },
    }
}

/// The largest transmit batch both sockets accept.
pub fn max_transmit_segments(v4: usize, v6: Option<usize>) -> (r: usize)
    ensures
        r == match v6 {
            Some(x) => if x < v4 {
                x
            } else {
                v4
            },
            None => v4,
        },
{
    match v6 {
        Some(x) => if x < v4 {
            x
        } else {
            v4
        },
        None => v4,
    }
}

/// The largest receive batch either socket may hand up.
pub fn max_receive_segments(v4: usize, v6: Option<usize>) -> (r: usize)
    ensures
        r == match v6 {
            Some(x) => if x > v4 {
                x
            } else {
                v4
            },
            None => v4,
        },
{
    match v6 {
        Some(x) => if x > v4 {
            x
        } else {
            v4
        },
        None => v4,
    }
}

/// Whether datagrams may fragment: they may when either socket says so.
pub fn may_fragment(v4: bool, v6: Option<bool>) -> (r: bool)
    ensures
        r == (v4 || v6 == Some(true)),
{
    match v6 {
        Some(x) => v4 || x,
        None => v4,
    }
}

/// The IPv6 port to try at bind time: one above the IPv4 port, wrapping
/// one below it at the top of the range.
pub fn derive_ipv6_port(v4_port: u16) -> (r: u16)
    ensures
        r == if v4_port < 0xffff {
            (v4_port + 1) as u16
        } else {
            (v4_port - 1) as u16
        },
{
    if v4_port < 0xffff {
        v4_port + 1
    } else {
        v4_port - 1
    }
}

/// A deterministic home-relay fallback, for when the reachability probe
/// could not pick a nearest relay: the current home relay stays if one is
/// set; otherwise any relay of the map serves — the first; an empty map
/// elects nothing.
pub fn pick_relay_fallback(my_relay: &Option<RelayUrl>, relay_urls: &Vec<RelayUrl>) -> (r: Option<
    RelayUrl,
>)
    ensures
        match my_relay {
            Some(u) => r matches Some(v) && v@ == u@,
            None => match r {
                Some(v) => relay_urls@.len() > 0 && v@ == relay_urls@[0]@,
                None => relay_urls@.len() == 0,
            },
        },
{
    match my_relay {
        Some(u) => Some(u.duplicate()),
        None => {
            if relay_urls.len() > 0 {
                Some(relay_urls[0].duplicate())
            } else {
                None
            }
        },
    }
}

/// Whether a wanted call-me-maybe can go out now: only while our own
/// direct addresses are fresh enough to advertise.  Otherwise it is queued
/// and a re-probe is triggered; the queued message goes out when the
/// probe's update lands.
pub fn call_me_maybe_ready(addrs: &crate::endpoints::DiscoveredDirectAddrs, now: u64) -> (r: bool)
    requires
        addrs.updated_at matches Some(t) ==> t <= now,
    ensures
        r == match addrs.updated_at {
            None => false,
            Some(t) => now - t <= crate::endpoints::ENDPOINTS_FRESH_ENOUGH_MS,
        },
{
    addrs.fresh_enough(now)
}

/// Call-me-maybe messages waiting for fresh direct addresses: when our own
/// addresses are stale, a wanted advertisement is queued here (one per
/// peer, the latest relay winning) and flushed after the next
/// direct-address update lands.
#[derive(Debug)]
pub struct PendingCallMeMaybes {
    entries: Vec<(NodeKey, RelayUrl)>,
}

impl PendingCallMeMaybes {
    /// The queued entries.
    pub closed spec fn view(&self) -> Seq<(NodeKey, RelayUrl)> {
        self.entries@
    }

    /// At most one entry per peer.
    pub open spec fn wf(&self) -> bool {
        forall|i: int, j: int| 0 <= i < j < self@.len() ==> self@[i].0@ != self@[j].0@
    }

    /// True if a message for this peer is queued.
    pub open spec fn has_node(&self, id: Seq<u8>) -> bool {
        exists|i: int| 0 <= i < self@.len() && (#[trigger] self@[i]).0@ == id
    }

    /// An empty queue.
    pub fn new() -> (r: PendingCallMeMaybes)
        ensures
            r@.len() == 0,
            r.wf(),
    {
        PendingCallMeMaybes { entries: Vec::new() }
    }

    /// Queues a call-me-maybe to `node` over `url`; an entry already
    /// queued for that peer is replaced, so each peer gets at most one,
    /// and no entry for any other peer appears or disappears.
    pub fn queue(&mut self, node: NodeKey, url: RelayUrl)
        requires
            old(self).wf(),
        ensures
            final(self).wf(),
            exists|i: int|
                0 <= i < final(self)@.len() && (#[trigger] final(self)@[i]).0@ == node@
                    && final(self)@[i].1@ == url@,
            forall|id: Seq<u8>| old(self).has_node(id) ==> final(self).has_node(id),
            forall|id: Seq<u8>| final(self).has_node(id) ==> old(self).has_node(id) || id == node@,
    {
        let ghost pre = self@;
        let mut i: usize = 0;
        while i < self.entries.len()
            invariant
                self@ == pre,
                pre == old(self)@,
                old(self).wf(),
                0 <= i <= pre.len(),
                forall|j: int| 0 <= j < i ==> (#[trigger] pre[j]).0@ != node@,
            decreases pre.len() - i,
        {
            if self.entries[i].0.key_eq(&node) {
                let entry = &mut self.entries[i];
                entry.1 = url;
                proof {
                    assert(self@[i as int].0@ == node@ && self@[i as int].1@ == url@);
                    assert forall|x: int, y: int| 0 <= x < y < self@.len() implies self@[x].0@
                        != self@[y].0@ by {
                        assert(self@[x].0@ == pre[x].0@ && self@[y].0@ == pre[y].0@);
                    }
                    assert forall|id: Seq<u8>|
                        (exists|q: int| 0 <= q < pre.len() && (#[trigger] pre[q]).0@
                            == id) implies self.has_node(id) by {
                        let q = choose|q: int| 0 <= q < pre.len() && (#[trigger] pre[q]).0@ == id;
                        assert(self@[q].0@ == id);
                    }
                    assert forall|id: Seq<u8>| self.has_node(id) implies (exists|q: int|
                        0 <= q < pre.len() && (#[trigger] pre[q]).0@ == id) || id == node@ by {
                        let q = choose|q: int| 0 <= q < self@.len() && (#[trigger] self@[q]).0@ == id;
                        assert(pre[q].0@ == self@[q].0@);
                    }
                }
                return ;
            }
            i += 1;
        }
        self.entries.push((node, url));
        proof {
            let n = self@.len() - 1;
            assert(self@[n].0@ == node@ && self@[n].1@ == url@);
            assert forall|x: int, y: int| 0 <= x < y < self@.len() implies self@[x].0@
                != self@[y].0@ by {
                if y < n {
                    assert(self@[x] == pre[x] && self@[y] == pre[y]);
                } else {
                    assert(self@[x] == pre[x]);
                }
            }
            assert forall|id: Seq<u8>|
                (exists|q: int| 0 <= q < pre.len() && (#[trigger] pre[q]).0@ == id) implies self
                .has_node(id) by {
                let q = choose|q: int| 0 <= q < pre.len() && (#[trigger] pre[q]).0@ == id;
                assert(self@[q].0@ == id);
            }
            assert forall|id: Seq<u8>| self.has_node(id) implies (exists|q: int|
                0 <= q < pre.len() && (#[trigger] pre[q]).0@ == id) || id == node@ by {
                let q = choose|q: int| 0 <= q < self@.len() && (#[trigger] self@[q]).0@ == id;
                if q < pre.len() {
                    assert(pre[q].0@ == self@[q].0@);
                }
            }
        }
    }

    /// Takes every queued message out, to be sent now that fresh addresses
    /// are at hand.
    pub fn drain(&mut self) -> (r: Vec<(NodeKey, RelayUrl)>)
        ensures
            final(self)@.len() == 0,
            final(self).wf(),
            r@ == old(self)@,
    {
        let mut drained: Vec<(NodeKey, RelayUrl)> = Vec::new();
        std::mem::swap(&mut drained, &mut self.entries);
        drained
    }
}

/// A port-mapping probe's outcome: which protocols answered on this
/// network.
#[derive(Clone, Copy, Debug, PartialEq, Eq, Structural)]
pub struct ProbeOutput {
    pub upnp: bool,
    pub pcp: bool,
    pub nat_pmp: bool,
}

/// The host's network conditions, as the reachability probe saw them.
#[derive(Debug)]
pub struct NetInfo {
    /// Whether the NAT mappings vary by destination IP.
    pub mapping_varies_by_dest_ip: Option<bool>,
    /// Whether the router hairpins.
    pub hair_pinning: Option<bool>,
    /// Whether IPv6 works.
    pub working_ipv6: Option<bool>,
    /// Whether the OS has IPv6 at all.
    pub os_has_ipv6: Option<bool>,
    /// Whether UDP works.
    pub working_udp: Option<bool>,
    /// Whether ICMPv4 works; `None` when not checked.
    pub working_icmp_v4: Option<bool>,
    /// Whether ICMPv6 works; `None` when not checked.
    pub working_icmp_v6: Option<bool>,
    /// Whether a port mapping is open.
    pub have_port_map: bool,
    /// The port-mapping probe's outcome, if one ran.
    pub portmap_probe: Option<ProbeOutput>,
    /// The preferred (home) relay, if any.
    pub preferred_relay: Option<RelayUrl>,
}

/// Equality of two optional booleans.
pub fn opt_bool_eq(a: Option<bool>, b: Option<bool>) -> (r: bool)
    ensures
        r == (a == b),
{
    match (a, b) {
        (Some(x), Some(y)) => x == y,
        (None, None) => true,
        _ => false,
    }
}

/// Equality of two optional probe outcomes.
pub fn opt_probe_eq(a: Option<ProbeOutput>, b: Option<ProbeOutput>) -> (r: bool)
    ensures
        r == (a == b),
{
    match (a, b) {
        (Some(x), Some(y)) => x == y,
        (None, None) => true,
        _ => false,
    }
}

/// Spec-level equality of two optional relay URLs.
pub open spec fn relay_opt_eq(a: Option<RelayUrl>, b: Option<RelayUrl>) -> bool {
    match (a, b) {
        (Some(x), Some(y)) => x@ == y@,
        (None, None) => true,
        _ => false,
    }
}

impl NetInfo {
    /// Whether this is probably still the same network as `other`: the
    /// ICMP fields are compared only when both probes checked them, and
    /// fields expected to drift (latencies) are no part of the picture.
    pub fn basically_equal(&self, other: &NetInfo) -> (r: bool)
        ensures
            r == ({
                let eq_icmp_v4 = match (self.working_icmp_v4, other.working_icmp_v4) {
                    (Some(a), Some(b)) => a == b,
                    _ => true,
                };
                let eq_icmp_v6 = match (self.working_icmp_v6, other.working_icmp_v6) {
                    (Some(a), Some(b)) => a == b,
                    _ => true,
                };
                &&& self.mapping_varies_by_dest_ip == other.mapping_varies_by_dest_ip
                &&& self.hair_pinning == other.hair_pinning
                &&& self.working_ipv6 == other.working_ipv6
                &&& self.os_has_ipv6 == other.os_has_ipv6
                &&& self.working_udp == other.working_udp
                &&& eq_icmp_v4
                &&& eq_icmp_v6
                &&& self.have_port_map == other.have_port_map
                &&& self.portmap_probe == other.portmap_probe
                &&& relay_opt_eq(self.preferred_relay, other.preferred_relay)
            }),
    {
        let eq_icmp_v4 = match (self.working_icmp_v4, other.working_icmp_v4) {
            (Some(a), Some(b)) => a == b,
            _ => true,
        };
        let eq_icmp_v6 = match (self.working_icmp_v6, other.working_icmp_v6) {
            (Some(a), Some(b)) => a == b,
            _ => true,
        };
        let eq_relay = match (&self.preferred_relay, &other.preferred_relay) {
            (Some(x), Some(y)) => x.url_eq(y),
            (None, None) => true,
            _ => false,
        };
        opt_bool_eq(self.mapping_varies_by_dest_ip, other.mapping_varies_by_dest_ip) && opt_bool_eq(
            self.hair_pinning,
            other.hair_pinning,
        ) && opt_bool_eq(self.working_ipv6, other.working_ipv6) && opt_bool_eq(
            self.os_has_ipv6,
            other.os_has_ipv6,
        ) && opt_bool_eq(self.working_udp, other.working_udp) && eq_icmp_v4 && eq_icmp_v6
            && self.have_port_map == other.have_port_map && opt_probe_eq(
            self.portmap_probe,
            other.portmap_probe,
        ) && eq_relay
    }
}

} // verus!
