//! The relay client: one connection to one relay server.
//!
//! The surrounding runtime dials, upgrades and reads; this module holds the
//! client's decisions: when a connect request uses the existing connection,
//! when `NotePreferred` goes out, how errors tear the connection down for a
//! later reconnect, which address a DNS answer selects, what the proxy
//! authorization header carries, and when the outbound rate limiter drops a
//! packet frame.

use vstd::prelude::*;
use base64::Engine;
use crate::addr::{IpAddress, NodeKey, RelayUrl};
use crate::relay_frames::{Frame, FrameSpec, PacketTooBig, MAX_PACKET_SIZE};

verus! {

/// Connection errors of the relay client.
///
/// Detail strings and causes stay with the unverified layer; here each kind
/// is its own variant.
#[derive(Clone, Copy, Debug, PartialEq, Eq, Structural)]
pub enum ClientError {
    /// The client is closed.
    Closed,
    /// Sending a packet failed.
    Send,
    /// Receiving failed.
    Receive,
    /// The connect attempt timed out.
    ConnectTimeout,
    /// Dialing failed with an I/O error.
    DialIo,
    /// The HTTP upgrade failed.
    Upgrade,
    /// The server answered with an unexpected status code.
    UnexpectedStatusCode,
    /// The proxy tunnel could not be established.
    Proxy,
    /// The relay connection could not be built.
    Build,
    /// The ping timed out.
    PingTimeout,
    /// The ping was aborted.
    PingAborted,
    /// This client does not acknowledge pings.
    CannotAckPings,
    /// The URL is invalid.
    InvalidUrl,
    /// DNS resolution failed.
    Dns,
    /// DNS resolution timed out.
    DnsTimeout,
    /// The client's driving actor is gone.
    ActorGone,
    /// A websocket error.
    Websocket,
}

/// The connection-relevant state of one relay client.
#[derive(Clone, Copy, Debug, PartialEq, Eq, Structural)]
pub struct RelayClientState {
    /// Closed for good: every further request fails with
    /// [`ClientError::Closed`].
    pub is_closed: bool,
    /// Whether this relay was advertised to the server as the client's
    /// home.
    pub is_preferred: bool,
    /// Whether this client answers the server's pings.
    pub can_ack_pings: bool,
    /// Whether a live connection exists.
    pub has_conn: bool,
}

/// What a connect request does.
#[derive(Clone, Copy, Debug, PartialEq, Eq, Structural)]
pub enum ConnectDecision {
    /// The client is closed: fail with [`ClientError::Closed`].
    Refuse,
    /// A connection exists: hand it out unchanged.
    UseExisting,
    /// No connection: dial anew.
    Dial,
}

impl RelayClientState {
    /// A fresh client, not yet connected.
    pub fn new(is_preferred: bool, can_ack_pings: bool) -> (r: RelayClientState)
        ensures
            r == (RelayClientState {
                is_closed: false,
                is_preferred,
                can_ack_pings,
                has_conn: false,
            }),
    {
        RelayClientState { is_closed: false, is_preferred, can_ack_pings, has_conn: false }
    }

    /// How to serve a connect request: refused when closed, the existing
    /// connection when one is live, a fresh dial otherwise.
    pub fn connect_decision(&self) -> (r: ConnectDecision)
        ensures
            r == if self.is_closed {
                ConnectDecision::Refuse
            } else if self.has_conn {
                ConnectDecision::UseExisting
            } else {
                ConnectDecision::Dial
            },
    {
        if self.is_closed {
            ConnectDecision::Refuse
        } else if self.has_conn {
            ConnectDecision::UseExisting
        } else {
            ConnectDecision::Dial
        }
    }

    /// Records the outcome of a dial.
    pub fn on_dial_result(&mut self, connected: bool)
        ensures
            *final(self) == (RelayClientState { has_conn: connected, ..*old(self) }),
    {
        self.has_conn = connected;
    }

    /// Adopts a new preference.  Returns `Some(frame)` when a
    /// `NotePreferred` frame must go to the server: exactly when the
    /// preference changed and a connection exists.  An unchanged preference
    /// sends nothing.
    pub fn note_preferred(&mut self, is_preferred: bool) -> (r: Option<Frame>)
        ensures
            final(self).is_preferred == is_preferred,
            final(self).is_closed == old(self).is_closed,
            final(self).can_ack_pings == old(self).can_ack_pings,
            final(self).has_conn == old(self).has_conn,
            match r {
                Some(f) => old(self).is_preferred != is_preferred && old(self).has_conn
                    && f.model() == (FrameSpec::NotePreferred { preferred: is_preferred }),
                None => old(self).is_preferred == is_preferred || !old(self).has_conn,
            },
    {
        if self.is_preferred == is_preferred {
            return None;
        }
        self.is_preferred = is_preferred;
        if self.has_conn {
            Some(Frame::NotePreferred { preferred: is_preferred })
        } else {
            None
        }
    }

    /// Whether a pong may be sent: only a client built to acknowledge
    /// pings may; otherwise the request fails with
    /// [`ClientError::CannotAckPings`] and nothing is sent.
    pub fn pong_decision(&self) -> (r: Result<(), ClientError>)
        ensures
            r == if self.can_ack_pings {
                Ok::<(), ClientError>(())
            } else {
                Err::<(), ClientError>(ClientError::CannotAckPings)
            },
    {
        if self.can_ack_pings {
            Ok(())
        } else {
            Err(ClientError::CannotAckPings)
        }
    }

    /// Tears the connection down so that the next request dials anew; the
    /// client's identity and preference survive.
    pub fn close_for_reconnect(&mut self)
        ensures
            *final(self) == (RelayClientState { has_conn: false, ..*old(self) }),
    {
        self.has_conn = false;
    }

    /// Closes the client for good.
    pub fn close(&mut self)
        ensures
            *final(self) == (RelayClientState { is_closed: true, has_conn: false, ..*old(self) }),
    {
        self.is_closed = true;
        self.has_conn = false;
    }

    /// True while the client is open and a connection is live.
    pub fn is_connected(&self) -> (r: bool)
        ensures
            r == (!self.is_closed && self.has_conn),
    {
        !self.is_closed && self.has_conn
    }

    /// Turns a receive failure into the error handed to the owner: the
    /// connection is torn down for reconnect, and the error is
    /// [`ClientError::Closed`] when the client was closed for good,
    /// [`ClientError::Receive`] otherwise.
    pub fn on_recv_error(&mut self) -> (r: ClientError)
        ensures
            *final(self) == (RelayClientState { has_conn: false, ..*old(self) }),
            r == if old(self).is_closed {
                ClientError::Closed
            } else {
                ClientError::Receive
            },
    {
        self.has_conn = false;
        if self.is_closed {
            ClientError::Closed
        } else {
            ClientError::Receive
        }
    }
}

/// How the relay connection is carried.
#[derive(Clone, Copy, Debug, PartialEq, Eq, Structural)]
pub enum RelayProtocol {
    /// The framed protocol over a plain upgraded connection.
    Relay,
    /// The same frames, each wrapped in one binary websocket message.
    Websocket,
}

/// Configuration of one relay client, gathered before the first dial.
#[derive(Debug)]
pub struct ClientBuilder {
    /// The relay server's URL.
    pub url: RelayUrl,
    /// Whether the client answers the server's pings.
    pub can_ack_pings: bool,
    /// Whether this relay starts out advertised as the home relay.
    pub is_preferred: bool,
    /// Whether this client only probes and never carries traffic.
    pub is_prober: bool,
    /// The transport to dial with.
    pub protocol: RelayProtocol,
    /// A proxy to tunnel through, if any (its URL bytes).
    pub proxy_url: Option<RelayUrl>,
}

impl ClientBuilder {
    /// A builder for a client of the given relay, with the defaults: no
    /// ping acknowledging, not preferred, no prober, framed protocol, no
    /// proxy.
    pub fn new(url: RelayUrl) -> (r: ClientBuilder)
        ensures
            r.url@ == url@,
            !r.can_ack_pings,
            !r.is_preferred,
            !r.is_prober,
            r.protocol == RelayProtocol::Relay,
            r.proxy_url is None,
    {
        ClientBuilder {
            url,
            can_ack_pings: false,
            is_preferred: false,
            is_prober: false,
            protocol: RelayProtocol::Relay,
            proxy_url: None,
        }
    }

    /// Replaces the server URL.
    pub fn server_url(self, url: RelayUrl) -> (r: ClientBuilder)
        ensures
            r.url@ == url@,
            r.can_ack_pings == self.can_ack_pings,
            r.is_preferred == self.is_preferred,
            r.is_prober == self.is_prober,
            r.protocol == self.protocol,
            r.proxy_url == self.proxy_url,
    {
        ClientBuilder { url, ..self }
    }

    /// Chooses the transport.
    pub fn protocol(self, protocol: RelayProtocol) -> (r: ClientBuilder)
        ensures
            r == (ClientBuilder { protocol, ..self }),
    {
        ClientBuilder { protocol, ..self }
    }

    /// Lets the client acknowledge the server's pings.
    pub fn can_ack_pings(self, can: bool) -> (r: ClientBuilder)
        ensures
            r == (ClientBuilder { can_ack_pings: can, ..self }),
    {
        ClientBuilder { can_ack_pings: can, ..self }
    }

    /// Marks this relay as the client's preferred (home) relay from the
    /// start.
    pub fn is_preferred(self, is: bool) -> (r: ClientBuilder)
        ensures
            r == (ClientBuilder { is_preferred: is, ..self }),
    {
        ClientBuilder { is_preferred: is, ..self }
    }

    /// Marks this client as a prober.
    pub fn is_prober(self, is: bool) -> (r: ClientBuilder)
        ensures
            r == (ClientBuilder { is_prober: is, ..self }),
    {
        ClientBuilder { is_prober: is, ..self }
    }

    /// Tunnels every connection through this proxy.
    pub fn proxy_url(self, url: RelayUrl) -> (r: ClientBuilder)
        ensures
            r.proxy_url matches Some(u) && u@ == url@,
            r.url@ == self.url@,
            r.can_ack_pings == self.can_ack_pings,
            r.is_preferred == self.is_preferred,
            r.is_prober == self.is_prober,
            r.protocol == self.protocol,
    {
        ClientBuilder { proxy_url: Some(url), ..self }
    }

    /// The client state this configuration starts in: open, not yet
    /// connected, with the configured preference and ping behaviour.
    pub fn build_state(&self) -> (r: RelayClientState)
        ensures
            r == (RelayClientState {
                is_closed: false,
                is_preferred: self.is_preferred,
                can_ack_pings: self.can_ack_pings,
                has_conn: false,
            }),
    {
        RelayClientState::new(self.is_preferred, self.can_ack_pings)
    }
}

/// Outstanding liveness pings, by their 8 random bytes.
#[derive(Debug)]
pub struct PingTracker {
    pending: Vec<Vec<u8>>,
}

impl PingTracker {
    /// The pending ping payloads.
    pub closed spec fn view(&self) -> Seq<Seq<u8>> {
        crate::split::views_of(self.pending@)
    }

    /// True if a ping with this payload is outstanding.
    pub open spec fn has(&self, data: Seq<u8>) -> bool {
        exists|i: int| 0 <= i < self@.len() && self@[i] == data
    }

    /// No payload is tracked twice.
    pub open spec fn wf(&self) -> bool {
        forall|i: int, j: int| 0 <= i < j < self@.len() ==> self@[i] != self@[j]
    }

    /// An empty tracker.
    pub fn new() -> (r: PingTracker)
        ensures
            r@.len() == 0,
            r.wf(),
    {
        PingTracker { pending: Vec::new() }
    }

    /// Finds the index of a payload.
    fn find(&self, data: &Vec<u8>) -> (r: Option<usize>)
        ensures
            match r {
                Some(i) => i < self@.len() && self@[i as int] == data@,
                None => !self.has(data@),
            },
    {
        let mut i: usize = 0;
        while i < self.pending.len()
            invariant
                0 <= i <= self@.len(),
                self@.len() == self.pending@.len(),
                forall|j: int| 0 <= j < i ==> self@[j] != data@,
            decreases self.pending@.len() - i,
        {
            assert(self@[i as int] == self.pending@[i as int]@);
            if crate::addr::bytes_eq(&self.pending[i], data) {
                return Some(i);
            }
            i += 1;
        }
        None
    }

    /// Notes that a ping with this payload was sent; its pong is then
    /// expected.
    pub fn register(&mut self, data: Vec<u8>)
        requires
            old(self).wf(),
        ensures
            final(self).wf(),
            final(self).has(data@),
            forall|d: Seq<u8>| old(self).has(d) ==> final(self).has(d),
    {
        match self.find(&data) {
            Some(_) => {},
            None => {
                let ghost pre = self@;
                self.pending.push(data);
                proof {
                    assert(self@ =~= pre.push(data@));
                    assert(self@[self@.len() - 1] == data@);
                    assert forall|d: Seq<u8>|
                        (exists|i: int| 0 <= i < pre.len() && pre[i] == d) implies self.has(d) by {
                        let i = choose|i: int| 0 <= i < pre.len() && pre[i] == d;
                        assert(self@[i] == d);
                    }
                }
            },
        }
    }

    /// Takes an outstanding ping out of the tracker: `true` exactly when a
    /// ping with this payload was pending, which is then pending no more.
    /// Every other outstanding ping stays exactly as it was.
    pub fn unregister(&mut self, data: &Vec<u8>) -> (r: bool)
        requires
            old(self).wf(),
        ensures
            final(self).wf(),
            r == old(self).has(data@),
            !final(self).has(data@),
            !r ==> final(self)@ == old(self)@,
            forall|d: Seq<u8>| d != data@ ==> (final(self).has(d) <==> old(self).has(d)),
    {
        match self.find(data) {
            None => false,
            Some(i) => {
                let ghost pre = self@;
                self.pending.remove(i);
                proof {
                    assert(self@ =~= pre.remove(i as int));
                    assert forall|x: int, y: int| 0 <= x < y < self@.len() implies self@[x]
                        != self@[y] by {
                        let px: int = if x < i {
                            x
                        } else {
                            x + 1
                        };
                        let py: int = if y < i {
                            y
                        } else {
                            y + 1
                        };
                        assert(self@[x] == pre[px] && self@[y] == pre[py]);
                    }
                    assert forall|j: int| 0 <= j < self@.len() implies self@[j] != data@ by {
                        let pj: int = if j < i {
                            j
                        } else {
                            j + 1
                        };
                        assert(self@[j] == pre[pj]);
                        if pj != i {
                            if pj < i {
                                assert(pre[pj] != pre[i as int]);
                            } else {
                                assert(pre[i as int] != pre[pj]);
                            }
                        }
                    }
                    assert forall|d: Seq<u8>| d != data@ implies (self.has(d) <==> (exists|q: int|
                        0 <= q < pre.len() && pre[q] == d)) by {
                        if self.has(d) {
                            let j = choose|j: int| 0 <= j < self@.len() && self@[j] == d;
                            let pj: int = if j < i {
                                j
                            } else {
                                j + 1
                            };
                            assert(pre[pj] == d);
                        }
                        if exists|q: int| 0 <= q < pre.len() && pre[q] == d {
                            let q = choose|q: int| 0 <= q < pre.len() && pre[q] == d;
                            assert(q != i as int);
                            let fj: int = if q < i {
                                q
                            } else {
                                q - 1
                            };
                            assert(self@[fj] == pre[q]);
                        }
                    }
                }
                true
            },
        }
    }
}

/// Relies on `rand::random`: 8 bytes drawn from the thread-local generator
/// for a ping payload.  Nothing is promised of their value.
#[verifier::external_body]
pub fn random_ping_data() -> (r: Vec<u8>)
    ensures
        r@.len() == 8,
{
    let bytes: [u8; 8] = rand::random();
    bytes.to_vec()
}

/// The scheme of a relay or proxy URL, as far as the client reads it.
#[derive(Clone, Copy, Debug, PartialEq, Eq, Structural)]
pub enum UrlScheme {
    Http,
    Https,
    Ws,
    Wss,
    Other,
}

/// The port a URL addresses: an explicit port wins; otherwise the scheme's
/// well-known port, if it has one.
pub fn url_port(scheme: UrlScheme, explicit_port: Option<u16>) -> (r: Option<u16>)
    ensures
        r == match explicit_port {
            Some(p) => Some(p),
            None => match scheme {
                UrlScheme::Http => Some(80u16),
                UrlScheme::Https => Some(443u16),
                _ => None::<u16>,
            },
        },
{
    match explicit_port {
        Some(p) => Some(p),
        None => match scheme {
            UrlScheme::Http => Some(80),
            UrlScheme::Https => Some(443),
            _ => None,
        },
    }
}

/// Whether dialing this URL goes over TLS: everything but plain `http` and
/// `ws` does.
pub fn use_tls(scheme: UrlScheme) -> (r: bool)
    ensures
        r == !(scheme == UrlScheme::Http || scheme == UrlScheme::Ws),
{
    match scheme {
        UrlScheme::Http => false,
        UrlScheme::Ws => false,
        _ => true,
    }
}

/// Chooses the address to dial from a DNS answer.  Without an IPv6
/// preference the first answer wins; with one, the first IPv6 answer wins
/// and the first answer is the fallback.  An empty answer chooses nothing.
pub fn choose_resolved_addr(addrs: &Vec<IpAddress>, prefer_ipv6: bool) -> (r: Option<IpAddress>)
    ensures
        addrs@.len() == 0 ==> r is None,
        addrs@.len() > 0 && !prefer_ipv6 ==> r == Some(addrs@[0]),
        addrs@.len() > 0 && prefer_ipv6 ==> match r {
            Some(a) => if exists|i: int| 0 <= i < addrs@.len() && (#[trigger] addrs@[i]) is V6 {
                exists|i: int|
                    {
                        &&& 0 <= i < addrs@.len()
                        &&& (#[trigger] addrs@[i]) == a
                        &&& a is V6
                        &&& forall|j: int| 0 <= j < i ==> !((#[trigger] addrs@[j]) is V6)
                    }
            } else {
                a == addrs@[0]
            },
            None => false,
        },
{
    if addrs.len() == 0 {
        return None;
    }
    if !prefer_ipv6 {
        return Some(addrs[0]);
    }
    let mut i: usize = 0;
    while i < addrs.len()
        invariant
            prefer_ipv6,
            addrs@.len() > 0,
            0 <= i <= addrs@.len(),
            forall|j: int| 0 <= j < i ==> !((#[trigger] addrs@[j]) is V6),
        decreases addrs@.len() - i,
    {
        if addrs[i].is_ipv6() {
            proof {
                assert(addrs@[i as int] is V6);
            }
            return Some(addrs[i]);
        }
        i += 1;
    }
    Some(addrs[0])
}

/// Holds one `governor` direct in-memory rate limiter.  The declaration of
/// that type's generics leans on `governor`'s own traits, which Verus
/// cannot take as bounds, so the limiter lives opaquely in this struct and
/// is reached only through the two wrappers below.
#[verifier::external_body]
pub struct GovernorLimiter {
    inner: governor::DefaultDirectRateLimiter,
}

/// The burst size (in bytes) a token bucket was built with: the largest
/// batch it can ever let through at once.
pub uninterp spec fn limiter_burst(limiter: GovernorLimiter) -> nat;

/// What the token bucket said to a batch.
#[derive(Clone, Copy, Debug, PartialEq, Eq, Structural)]
pub enum LimiterDecision {
    /// The batch may go now.
    Allowed,
    /// The batch must wait; here that means: drop it.
    NotNow,
    /// The batch is larger than the bucket and can never go.
    Never,
}

/// Relies on `governor::RateLimiter::direct` with
/// `Quota::per_second(..).allow_burst(..)`: builds an in-memory direct
/// token bucket whose burst size is `bytes_burst`.
#[verifier::external_body]
fn governor_new(bytes_per_second: u32, bytes_burst: u32) -> (r: GovernorLimiter)
    requires
        bytes_per_second >= 1,
        bytes_burst >= 1,
    ensures
        limiter_burst(r) == bytes_burst,
{
    let per_second = std::num::NonZeroU32::new(bytes_per_second).unwrap();
    let burst = std::num::NonZeroU32::new(bytes_burst).unwrap();
    GovernorLimiter {
        inner: governor::RateLimiter::direct(
            governor::Quota::per_second(per_second).allow_burst(burst),
        ),
    }
}

/// Relies on `governor::RateLimiter::check_n`: whether `n` units may pass
/// now.  The allowed-or-wait split depends on the clock, so nothing is
/// promised of it; but the can-never-pass answer is deterministic — the
/// capacity test compares the batch's extra weight `t*(n-1)` against the
/// bucket's `t*(burst-1)`, which for the per-second quotas built here
/// reduces to `n > burst`.
#[verifier::external_body]
fn governor_check_n(limiter: &GovernorLimiter, n: u32) -> (r: LimiterDecision)
    requires
        n >= 1,
    ensures
        (r == LimiterDecision::Never) <==> n > limiter_burst(*limiter),
{
    match limiter.inner.check_n(std::num::NonZeroU32::new(n).unwrap()) {
        Ok(Ok(_)) => LimiterDecision::Allowed,
        Ok(Err(_)) => LimiterDecision::NotNow,
        Err(_) => LimiterDecision::Never,
    }
}

/// The outbound token bucket of one relay connection, in bytes.
pub struct RelayRateLimiter {
    inner: GovernorLimiter,
}

impl RelayRateLimiter {
    /// The burst size the bucket was built with.
    pub closed spec fn burst(&self) -> nat {
        limiter_burst(self.inner)
    }
}

/// A rate-limit configuration that cannot be built.
#[derive(Clone, Copy, Debug, PartialEq, Eq, Structural)]
pub struct RateLimitTooLarge;

impl RelayRateLimiter {
    /// Builds the bucket.  A zero rate or burst disables limiting
    /// altogether (`Ok(None)`); values beyond 32 bits cannot be configured
    /// and are an error.
    pub fn new(bytes_per_second: usize, bytes_burst: usize) -> (r: Result<
        Option<RelayRateLimiter>,
        RateLimitTooLarge,
    >)
        ensures
            r is Err <==> (bytes_per_second >= 1 && bytes_burst >= 1 && (bytes_per_second
                > 0xffff_ffff || bytes_burst > 0xffff_ffff)),
            match r {
                Ok(o) => {
                    &&& o is Some <==> (bytes_per_second >= 1 && bytes_burst >= 1)
                    &&& (o matches Some(l) ==> l.burst() == bytes_burst)
                },
                Err(_) => true,
            },
    {
        if bytes_per_second == 0 || bytes_burst == 0 {
            return Ok(None);
        }
        if bytes_per_second > 0xffff_ffff || bytes_burst > 0xffff_ffff {
            return Err(RateLimitTooLarge);
        }
        Ok(Some(RelayRateLimiter { inner: governor_new(bytes_per_second as u32, bytes_burst as u32) }))
    }

    /// Asks the bucket for `n` bytes.  A batch larger than the burst — a
    /// zero or over-32-bit one included — can never pass; whether a batch
    /// within the burst passes now or must wait depends on the bucket's
    /// clock.
    pub fn check_n(&self, n: usize) -> (r: LimiterDecision)
        ensures
            n == 0 || n > 0xffff_ffff ==> r == LimiterDecision::Never,
            1 <= n <= 0xffff_ffff ==> ((r == LimiterDecision::Never) <==> n > self.burst()),
    {
        if n == 0 || n > 0xffff_ffff {
            return LimiterDecision::Never;
        }
        governor_check_n(&self.inner, n as u32)
    }
}

/// Bytes a `SendPacket` frame adds around its packet: type, length, key.
pub const SEND_PACKET_OVERHEAD: usize = 35;

/// The amount asked of the token bucket for one packet: the packet plus
/// the frame bytes around it.
pub fn send_packet_cost(packet_len: usize) -> (r: usize)
    requires
        packet_len <= MAX_PACKET_SIZE,
    ensures
        r == packet_len + SEND_PACKET_OVERHEAD,
{
    packet_len + SEND_PACKET_OVERHEAD
}

/// What the limiter's answer does to a framed packet: an allowed frame
/// goes out, any other answer drops it.
pub fn limiter_gate(frame: Frame, decision: LimiterDecision) -> (r: Option<Frame>)
    ensures
        r == if decision == LimiterDecision::Allowed {
            Some(frame)
        } else {
            None::<Frame>
        },
{
    match decision {
        LimiterDecision::Allowed => Some(frame),
        LimiterDecision::NotNow => None,
        LimiterDecision::Never => None,
    }
}

/// Readies one packet for the relay: refuses one larger than
/// [`MAX_PACKET_SIZE`], frames it, and — when a rate limiter is configured
/// — asks the bucket for [`send_packet_cost`] bytes and gates the frame on
/// the answer through [`limiter_gate`].  Dropped packets are no error: the
/// upper transport's loss handling covers them.  A packet whose cost
/// exceeds the bucket's burst is always dropped; for an affordable packet
/// the bucket's clock decides, so only the gating — not the answer — is
/// promised here.
pub fn prepare_send_packet(
    limiter: &Option<RelayRateLimiter>,
    dst_key: &NodeKey,
    packet: Vec<u8>,
) -> (r: Result<Option<Frame>, PacketTooBig>)
    requires
        dst_key.wf(),
    ensures
        match r {
            Err(_) => packet@.len() > MAX_PACKET_SIZE,
            Ok(o) => packet@.len() <= MAX_PACKET_SIZE && match o {
                Some(f) => f.wf() && f.model() == (FrameSpec::SendPacket {
                    dst_key: dst_key@,
                    packet: packet@,
                }),
                None => limiter is Some,
            },
        },
        limiter is None && packet@.len() <= MAX_PACKET_SIZE ==> (r matches Ok(o) && o is Some),
        (limiter matches Some(l) && packet@.len() <= MAX_PACKET_SIZE && packet@.len()
            + SEND_PACKET_OVERHEAD > l.burst()) ==> r == Ok::<Option<Frame>, PacketTooBig>(None),
{
    let n = packet.len();
    let frame = match crate::relay_frames::build_send_packet(dst_key, packet) {
        Ok(f) => f,
        Err(e) => {
            return Err(e);
        },
    };
    if let Some(l) = limiter {
        let decision = l.check_n(send_packet_cost(n));
        Ok(limiter_gate(frame, decision))
    } else {
        Ok(Some(frame))
    }
}

/// What URL-safe base64 encoding returns, as a function of the input bytes
/// alone.
pub uninterp spec fn base64_url_of(b: Seq<u8>) -> Seq<u8>;

/// Relies on `base64`'s `URL_SAFE` engine with `Engine::encode`: the
/// encoding is a function of the input bytes alone, and of an empty input
/// it is empty.
#[verifier::external_body]
fn base64_url_encode(b: &Vec<u8>) -> (r: Vec<u8>)
    ensures
        r@ == base64_url_of(b@),
        b@.len() == 0 ==> r@.len() == 0,
{
    base64::engine::general_purpose::URL_SAFE.encode(b.as_slice()).into_bytes()
}

/// The value of the `Proxy-Authorization` header for HTTP Basic
/// authentication: `Basic ` followed by the URL-safe base64 encoding of
/// `username:password`.
pub fn proxy_auth_value(username: &Vec<u8>, password: &Vec<u8>) -> (r: Vec<u8>)
    ensures
        r@ == seq![66u8, 97u8, 115u8, 105u8, 99u8, 32u8] + base64_url_of(
            username@ + seq![58u8] + password@,
        ),
{
    let mut creds = crate::addr::clone_bytes(username);
    creds.push(58u8);
    let mut pw = crate::addr::clone_bytes(password);
    creds.append(&mut pw);
    proof {
        assert(creds@ =~= username@ + seq![58u8] + password@);
    }
    let mut encoded = base64_url_encode(&creds);
    let mut r: Vec<u8> = Vec::new();
    r.push(66u8);
    r.push(97u8);
    r.push(115u8);
    r.push(105u8);
    r.push(99u8);
    r.push(32u8);
    r.append(&mut encoded);
    proof {
        assert(r@ =~= seq![66u8, 97u8, 115u8, 105u8, 99u8, 32u8] + base64_url_of(
            username@ + seq![58u8] + password@,
        ));
    }
    r
}

} // verus!
