//! The disco control-plane message codec.
//!
//! Disco messages — `Ping`, `Pong` and `CallMeMaybe` — are how two peers
//! discover and validate paths to each other.  A message body is encoded,
//! sealed with the pair's shared key, and framed as
//! `magic (6 bytes) || sender public key (32 bytes) || sealed body`.
//! A UDP packet is a disco packet exactly when it begins with the magic.
//!
//! The encoding of every body is specified exactly, and parsing is proved to
//! agree with it: `parse_message` returns `Some` exactly on valid encodings,
//! and decoding an encoded message gives the message back.

use vstd::prelude::*;
use vstd::bytes::{
    spec_u16_to_le_bytes, spec_u16_from_le_bytes, spec_u32_to_le_bytes, spec_u32_from_le_bytes,
    spec_u128_to_le_bytes, spec_u128_from_le_bytes, u16_to_le_bytes, u16_from_le_bytes,
    u32_to_le_bytes, u32_from_le_bytes, u128_to_le_bytes, u128_from_le_bytes,
};
use crate::addr::{IpAddress, IpPort, NodeKey, RelayUrl, NODE_KEY_LEN};
use crate::split::subvec;

verus! {

/// Length in bytes of a ping transaction id.
pub const TX_ID_LEN: usize = 12;

/// The six magic bytes that open every disco packet.
pub open spec fn disco_magic() -> Seq<u8> {
    seq![0x5cu8, 0x84u8, 0xa3u8, 0x1fu8, 0x9eu8, 0x12u8]
}

/// Length of the disco magic.
pub const MAGIC_LEN: usize = 6;

/// Length of the disco packet header: magic plus sender key.
pub const HEADER_LEN: usize = 38;

/// Where a disco message can be sent to or received from: a direct UDP
/// address, or a peer reached over a relay server.
#[derive(Debug)]
pub enum SendAddr {
    Udp(IpPort),
    Relay(RelayUrl),
}

/// Spec-level value of a [`SendAddr`].
pub enum SendAddrSpec {
    Udp(IpPort),
    Relay(Seq<u8>),
}

impl SendAddr {
    /// The spec-level value of this address.
    pub open spec fn model(&self) -> SendAddrSpec {
        match self {
            SendAddr::Udp(a) => SendAddrSpec::Udp(*a),
            SendAddr::Relay(u) => SendAddrSpec::Relay(u@),
        }
    }

    /// Well-formed: a relay URL fits a 16-bit length field.
    pub open spec fn wf(&self) -> bool {
        match self {
            SendAddr::Udp(_) => true,
            SendAddr::Relay(u) => u@.len() <= 0xffff,
        }
    }

    /// True if this is a relay address.
    pub fn is_relay(&self) -> (r: bool)
        ensures
            r == (self.model() is Relay),
    {
        match self {
            SendAddr::Udp(_) => false,
            SendAddr::Relay(_) => true,
        }
    }

    /// A fresh copy of this address.
    pub fn duplicate(&self) -> (r: SendAddr)
        ensures
            r.model() == self.model(),
    {
        match self {
            SendAddr::Udp(a) => SendAddr::Udp(*a),
            SendAddr::Relay(u) => SendAddr::Relay(u.duplicate()),
        }
    }
}

/// A disco message.
#[derive(Debug)]
pub enum DiscoMessage {
    /// A path probe: the sender asks for a pong on the path the ping came in
    /// on.  `node_key` repeats the sender's public key.
    Ping { tx_id: Vec<u8>, node_key: NodeKey },
    /// The answer to a ping, echoing its transaction id and naming the
    /// address the ping was observed to come from.
    Pong { tx_id: Vec<u8>, ping_observed_addr: SendAddr },
    /// A relay-delivered advertisement of the sender's own direct addresses,
    /// inviting the receiver to ping them.
    CallMeMaybe { my_numbers: Vec<IpPort> },
}

/// Spec-level value of a [`DiscoMessage`].
pub enum DiscoMsgSpec {
    Ping { tx_id: Seq<u8>, node_key: Seq<u8> },
    Pong { tx_id: Seq<u8>, addr: SendAddrSpec },
    CallMeMaybe { addrs: Seq<IpPort> },
}

/// Well-formedness of a spec-level message: the transaction id is 12 bytes,
/// the node key 32 bytes, and variable-length parts fit their 16-bit length
/// fields.
pub open spec fn wf_msg(m: DiscoMsgSpec) -> bool {
    match m {
        DiscoMsgSpec::Ping { tx_id, node_key } => tx_id.len() == TX_ID_LEN && node_key.len()
            == NODE_KEY_LEN,
        DiscoMsgSpec::Pong { tx_id, addr } => tx_id.len() == TX_ID_LEN && match addr {
            SendAddrSpec::Udp(_) => true,
            SendAddrSpec::Relay(url) => url.len() <= 0xffff,
        },
        DiscoMsgSpec::CallMeMaybe { addrs } => addrs.len() <= 0xffff,
    }
}

impl DiscoMessage {
    /// The spec-level value of this message.
    pub open spec fn model(&self) -> DiscoMsgSpec {
        match self {
            DiscoMessage::Ping { tx_id, node_key } => DiscoMsgSpec::Ping {
                tx_id: tx_id@,
                node_key: node_key@,
            },
            DiscoMessage::Pong { tx_id, ping_observed_addr } => DiscoMsgSpec::Pong {
                tx_id: tx_id@,
                addr: ping_observed_addr.model(),
            },
            DiscoMessage::CallMeMaybe { my_numbers } => DiscoMsgSpec::CallMeMaybe {
                addrs: my_numbers@,
            },
        }
    }

    /// Well-formedness of the message.
    pub open spec fn wf(&self) -> bool {
        wf_msg(self.model())
    }
}

/// Encoding of an IP address: a version byte, then the address bytes.
pub open spec fn enc_ip(ip: IpAddress) -> Seq<u8> {
    match ip {
        IpAddress::V4(x) => seq![4u8] + spec_u32_to_le_bytes(x),
        IpAddress::V6(x) => seq![6u8] + spec_u128_to_le_bytes(x),
    }
}

/// Encoding of a socket address: the IP, then the port.
pub open spec fn enc_ipport(a: IpPort) -> Seq<u8> {
    enc_ip(a.ip) + spec_u16_to_le_bytes(a.port)
}

/// Encoding of a send address: a kind byte, then the address; a relay URL is
/// length-prefixed.
pub open spec fn enc_send_addr(a: SendAddrSpec) -> Seq<u8> {
    match a {
        SendAddrSpec::Udp(ap) => seq![0u8] + enc_ipport(ap),
        SendAddrSpec::Relay(url) => seq![1u8] + spec_u16_to_le_bytes(url.len() as u16) + url,
    }
}

/// Encoding of a list of socket addresses, back to back.
pub open spec fn enc_addr_list(addrs: Seq<IpPort>) -> Seq<u8>
    decreases addrs.len(),
{
    if addrs.len() == 0 {
        Seq::empty()
    } else {
        enc_ipport(addrs[0]) + enc_addr_list(addrs.drop_first())
    }
}

/// Encoding of a message body: a tag byte, then the fields.
pub open spec fn enc_msg(m: DiscoMsgSpec) -> Seq<u8> {
    match m {
        DiscoMsgSpec::Ping { tx_id, node_key } => seq![1u8] + tx_id + node_key,
        DiscoMsgSpec::Pong { tx_id, addr } => seq![2u8] + tx_id + enc_send_addr(addr),
        DiscoMsgSpec::CallMeMaybe { addrs } => seq![3u8] + spec_u16_to_le_bytes(addrs.len() as u16)
            + enc_addr_list(addrs),
    }
}

/// Parses a socket address at position `i`; on success also gives the
/// position after it.
pub open spec fn parse_ipport_at(s: Seq<u8>, i: int) -> Option<(IpPort, int)> {
    if !(0 <= i < s.len()) {
        None
    } else if s[i] == 4 {
        if i + 7 <= s.len() {
            Some(
                (
                    IpPort {
                        ip: IpAddress::V4(spec_u32_from_le_bytes(s.subrange(i + 1, i + 5))),
                        port: spec_u16_from_le_bytes(s.subrange(i + 5, i + 7)),
                    },
                    i + 7,
                ),
            )
        } else {
            None
        }
    } else if s[i] == 6 {
        if i + 19 <= s.len() {
            Some(
                (
                    IpPort {
                        ip: IpAddress::V6(spec_u128_from_le_bytes(s.subrange(i + 1, i + 17))),
                        port: spec_u16_from_le_bytes(s.subrange(i + 17, i + 19)),
                    },
                    i + 19,
                ),
            )
        } else {
            None
        }
    } else {
        None
    }
}

/// Parses `n` socket addresses from position `i` to the very end of `s`.
pub open spec fn parse_addr_list(s: Seq<u8>, i: int, n: nat) -> Option<Seq<IpPort>>
    decreases n,
{
    if n == 0 {
        if i == s.len() {
            Some(Seq::empty())
        } else {
            None
        }
    } else {
        match parse_ipport_at(s, i) {
            None => None,
            Some(p) => match parse_addr_list(s, p.1, (n - 1) as nat) {
                None => None,
                Some(rest) => Some(seq![p.0] + rest),
            },
        }
    }
}

/// Parses a send address from position `i` to the very end of `s`.
pub open spec fn parse_send_addr(s: Seq<u8>, i: int) -> Option<SendAddrSpec> {
    if !(0 <= i < s.len()) {
        None
    } else if s[i] == 0 {
        match parse_ipport_at(s, i + 1) {
            Some(p) => if p.1 == s.len() {
                Some(SendAddrSpec::Udp(p.0))
            } else {
                None
            },
            None => None,
        }
    } else if s[i] == 1 {
        if i + 3 <= s.len() {
            let l = spec_u16_from_le_bytes(s.subrange(i + 1, i + 3));
            if s.len() == i + 3 + l {
                Some(SendAddrSpec::Relay(s.subrange(i + 3, s.len() as int)))
            } else {
                None
            }
        } else {
            None
        }
    } else {
        None
    }
}

/// Parses a message body.  `None` exactly when `s` is not the encoding of a
/// well-formed message.
pub open spec fn parse_msg(s: Seq<u8>) -> Option<DiscoMsgSpec> {
    if s.len() < 1 {
        None
    } else if s[0] == 1 {
        if s.len() == 45 {
            Some(DiscoMsgSpec::Ping { tx_id: s.subrange(1, 13), node_key: s.subrange(13, 45) })
        } else {
            None
        }
    } else if s[0] == 2 {
        if s.len() >= 13 {
            match parse_send_addr(s, 13) {
                Some(a) => Some(DiscoMsgSpec::Pong { tx_id: s.subrange(1, 13), addr: a }),
                None => None,
            }
        } else {
            None
        }
    } else if s[0] == 3 {
        if s.len() >= 3 {
            let n = spec_u16_from_le_bytes(s.subrange(1, 3));
            match parse_addr_list(s, 3, n as nat) {
                Some(addrs) => Some(DiscoMsgSpec::CallMeMaybe { addrs }),
                None => None,
            }
        } else {
            None
        }
    } else {
        None
    }
}

/// A socket address parses back out of its encoding, wherever it stands.
proof fn lemma_parse_ipport_encode(s: Seq<u8>, i: int, a: IpPort)
    requires
        0 <= i,
        i + enc_ipport(a).len() <= s.len(),
        s.subrange(i, i + enc_ipport(a).len()) == enc_ipport(a),
    ensures
        parse_ipport_at(s, i) == Some((a, i + enc_ipport(a).len())),
{
    vstd::bytes::lemma_auto_spec_u16_to_from_le_bytes();
    vstd::bytes::lemma_auto_spec_u32_to_from_le_bytes();
    vstd::bytes::lemma_auto_spec_u128_to_from_le_bytes();
    let e = enc_ipport(a);
    assert(forall|k: int| 0 <= k < e.len() ==> s[i + k] == #[trigger] e[k]) by {
        assert(forall|k: int| 0 <= k < e.len() ==> #[trigger] s.subrange(i, i + e.len())[k]
            == e[k]);
    }
    match a.ip {
        IpAddress::V4(x) => {
            assert(e.len() == 7);
            assert(s[i] == e[0]);
            assert(e[0] == 4);
            assert forall|k: int| 0 <= k < 4 implies #[trigger] s.subrange(i + 1, i + 5)[k]
                == spec_u32_to_le_bytes(x)[k] by {
                assert(s[i + (1 + k)] == e[1 + k]);
                assert(e[1 + k] == enc_ip(a.ip)[1 + k]);
                assert(enc_ip(a.ip)[1 + k] == spec_u32_to_le_bytes(x)[k]);
            }
            assert(s.subrange(i + 1, i + 5) =~= spec_u32_to_le_bytes(x));
            assert forall|k: int| 0 <= k < 2 implies #[trigger] s.subrange(i + 5, i + 7)[k]
                == spec_u16_to_le_bytes(a.port)[k] by {
                assert(s[i + (5 + k)] == e[5 + k]);
                assert(e[5 + k] == spec_u16_to_le_bytes(a.port)[k]);
            }
            assert(s.subrange(i + 5, i + 7) =~= spec_u16_to_le_bytes(a.port));
        },
        IpAddress::V6(x) => {
            assert(e.len() == 19);
            assert(s[i] == e[0]);
            assert(e[0] == 6);
            assert(s[i] != 4);
            assert forall|k: int| 0 <= k < 16 implies #[trigger] s.subrange(i + 1, i + 17)[k]
                == spec_u128_to_le_bytes(x)[k] by {
                assert(s[i + (1 + k)] == e[1 + k]);
                assert(e[1 + k] == enc_ip(a.ip)[1 + k]);
                assert(enc_ip(a.ip)[1 + k] == spec_u128_to_le_bytes(x)[k]);
            }
            assert(s.subrange(i + 1, i + 17) =~= spec_u128_to_le_bytes(x));
            assert forall|k: int| 0 <= k < 2 implies #[trigger] s.subrange(i + 17, i + 19)[k]
                == spec_u16_to_le_bytes(a.port)[k] by {
                assert(s[i + (17 + k)] == e[17 + k]);
                assert(e[17 + k] == spec_u16_to_le_bytes(a.port)[k]);
            }
            assert(s.subrange(i + 17, i + 19) =~= spec_u16_to_le_bytes(a.port));
        },
    }
}

/// A list of socket addresses parses back out of its encoding when the
/// encoding runs to the end of the buffer.
proof fn lemma_parse_addr_list_encode(s: Seq<u8>, i: int, addrs: Seq<IpPort>)
    requires
        0 <= i <= s.len(),
        s.subrange(i, s.len() as int) == enc_addr_list(addrs),
    ensures
        parse_addr_list(s, i, addrs.len()) == Some(addrs),
    decreases addrs.len(),
{
    if addrs.len() == 0 {
        assert(enc_addr_list(addrs).len() == 0);
        assert(i == s.len());
        assert(addrs =~= Seq::<IpPort>::empty());
    } else {
        let a = addrs[0];
        let rest = addrs.drop_first();
        let ea = enc_ipport(a);
        assert(s.subrange(i, s.len() as int) == ea + enc_addr_list(rest));
        assert(i + ea.len() <= s.len());
        assert(s.subrange(i, i + ea.len()) =~= ea) by {
            assert forall|k: int| 0 <= k < ea.len() implies s.subrange(i, i + ea.len())[k] == ea[k] by {
                assert(s.subrange(i, s.len() as int)[k] == ea[k]);
            }
        }
        lemma_parse_ipport_encode(s, i, a);
        let j = i + ea.len();
        assert(s.subrange(j, s.len() as int) =~= enc_addr_list(rest)) by {
            assert forall|k: int| 0 <= k < s.len() - j implies s.subrange(j, s.len() as int)[k]
                == enc_addr_list(rest)[k] by {
                assert(s.subrange(i, s.len() as int)[k + ea.len()] == (ea + enc_addr_list(
                    rest,
                ))[k + ea.len()]);
            }
        }
        lemma_parse_addr_list_encode(s, j, rest);
        assert(seq![a] + rest =~= addrs);
    }
}

/// A send address parses back out of its encoding when the encoding runs to
/// the end of the buffer.
proof fn lemma_parse_send_addr_encode(s: Seq<u8>, i: int, addr: SendAddrSpec)
    requires
        0 <= i <= s.len(),
        s.subrange(i, s.len() as int) == enc_send_addr(addr),
        match addr {
            SendAddrSpec::Udp(_) => true,
            SendAddrSpec::Relay(url) => url.len() <= 0xffff,
        },
    ensures
        parse_send_addr(s, i) == Some(addr),
{
    vstd::bytes::lemma_auto_spec_u16_to_from_le_bytes();
    let e = enc_send_addr(addr);
    assert(e.len() >= 1);
    assert(s[i] == e[0]);
    match addr {
        SendAddrSpec::Udp(ap) => {
            assert(e[0] == 0);
            let ea = enc_ipport(ap);
            assert(s.len() == i + 1 + ea.len());
            assert(s.subrange(i + 1, i + 1 + ea.len()) =~= ea) by {
                assert forall|k: int| 0 <= k < ea.len() implies s.subrange(
                    i + 1,
                    i + 1 + ea.len(),
                )[k] == ea[k] by {
                    assert(s.subrange(i, s.len() as int)[k + 1] == (seq![0u8] + ea)[k + 1]);
                }
            }
            lemma_parse_ipport_encode(s, i + 1, ap);
        },
        SendAddrSpec::Relay(url) => {
            assert(e[0] == 1);
            assert(s[i] != 0);
            assert(e.len() == 3 + url.len());
            assert(s.subrange(i + 1, i + 3) =~= spec_u16_to_le_bytes(url.len() as u16)) by {
                assert forall|k: int| 0 <= k < 2 implies #[trigger] s.subrange(i + 1, i + 3)[k]
                    == spec_u16_to_le_bytes(url.len() as u16)[k] by {
                    assert(s.subrange(i, s.len() as int)[k + 1] == e[k + 1]);
                }
            }
            assert(spec_u16_from_le_bytes(s.subrange(i + 1, i + 3)) == url.len());
            assert(s.subrange(i + 3, s.len() as int) =~= url) by {
                assert forall|k: int| 0 <= k < url.len() implies s.subrange(i + 3, s.len() as int)[k]
                    == url[k] by {
                    assert(s.subrange(i, s.len() as int)[k + 3] == e[k + 3]);
                }
            }
        },
    }
}

/// Round trip of the body codec: a well-formed message parses back out of
/// its own encoding.
pub proof fn lemma_parse_msg_encode(m: DiscoMsgSpec)
    requires
        wf_msg(m),
    ensures
        parse_msg(enc_msg(m)) == Some(m),
{
    vstd::bytes::lemma_auto_spec_u16_to_from_le_bytes();
    let s = enc_msg(m);
    match m {
        DiscoMsgSpec::Ping { tx_id, node_key } => {
            assert(s.len() == 45);
            assert(s[0] == 1);
            assert(s.subrange(1, 13) =~= tx_id);
            assert(s.subrange(13, 45) =~= node_key);
        },
        DiscoMsgSpec::Pong { tx_id, addr } => {
            assert(s[0] == 2);
            assert(s[0] != 1);
            assert(s.len() >= 14);
            assert(s.subrange(1, 13) =~= tx_id);
            assert(s.subrange(13, s.len() as int) =~= enc_send_addr(addr)) by {
                assert forall|k: int| 0 <= k < enc_send_addr(addr).len() implies s.subrange(
                    13,
                    s.len() as int,
                )[k] == enc_send_addr(addr)[k] by {
                    assert(s[k + 13] == (seq![2u8] + tx_id + enc_send_addr(addr))[k + 13]);
                }
            }
            lemma_parse_send_addr_encode(s, 13, addr);
        },
        DiscoMsgSpec::CallMeMaybe { addrs } => {
            assert(s[0] == 3);
            assert(s[0] != 1 && s[0] != 2);
            assert(s.len() >= 3);
            assert(s.subrange(1, 3) =~= spec_u16_to_le_bytes(addrs.len() as u16));
            assert(spec_u16_from_le_bytes(s.subrange(1, 3)) == addrs.len());
            assert(s.subrange(3, s.len() as int) =~= enc_addr_list(addrs)) by {
                assert forall|k: int| 0 <= k < enc_addr_list(addrs).len() implies s.subrange(
                    3,
                    s.len() as int,
                )[k] == enc_addr_list(addrs)[k] by {
                    assert(s[k + 3] == (seq![3u8] + spec_u16_to_le_bytes(addrs.len() as u16)
                        + enc_addr_list(addrs))[k + 3]);
                }
            }
            lemma_parse_addr_list_encode(s, 3, addrs);
        },
    }
}

/// Appends the encoding of a socket address to `buf`.
fn push_ipport(buf: &mut Vec<u8>, a: IpPort)
    ensures
        final(buf)@ == old(buf)@ + enc_ipport(a),
{
    let ghost pre = buf@;
    match a.ip {
        IpAddress::V4(x) => {
            buf.push(4u8);
            let mut ip = u32_to_le_bytes(x);
            buf.append(&mut ip);
        },
        IpAddress::V6(x) => {
            buf.push(6u8);
            let mut ip = u128_to_le_bytes(x);
            buf.append(&mut ip);
        },
    }
    let mut port = u16_to_le_bytes(a.port);
    buf.append(&mut port);
    proof {
        assert(buf@ =~= pre + enc_ipport(a));
    }
}

/// Encodes a disco message body.
pub fn encode_message(m: &DiscoMessage) -> (r: Vec<u8>)
    requires
        m.wf(),
    ensures
        r@ == enc_msg(m.model()),
{
    let mut buf: Vec<u8> = Vec::new();
    match m {
        DiscoMessage::Ping { tx_id, node_key } => {
            buf.push(1u8);
            let mut tx = crate::addr::clone_bytes(tx_id);
            buf.append(&mut tx);
            let mut key = crate::addr::clone_bytes(node_key.as_bytes());
            buf.append(&mut key);
            proof {
                assert(buf@ =~= enc_msg(m.model()));
            }
        },
        DiscoMessage::Pong { tx_id, ping_observed_addr } => {
            buf.push(2u8);
            let mut tx = crate::addr::clone_bytes(tx_id);
            buf.append(&mut tx);
            match ping_observed_addr {
                SendAddr::Udp(ap) => {
                    buf.push(0u8);
                    push_ipport(&mut buf, *ap);
                },
                SendAddr::Relay(url) => {
                    buf.push(1u8);
                    let mut l = u16_to_le_bytes(url.as_bytes().len() as u16);
                    buf.append(&mut l);
                    let mut u = crate::addr::clone_bytes(url.as_bytes());
                    buf.append(&mut u);
                },
            }
            proof {
                assert(buf@ =~= enc_msg(m.model()));
            }
        },
        DiscoMessage::CallMeMaybe { my_numbers } => {
            buf.push(3u8);
            let mut n = u16_to_le_bytes(my_numbers.len() as u16);
            buf.append(&mut n);
            let mut i: usize = 0;
            proof {
                assert(my_numbers@.subrange(0, 0) =~= Seq::<IpPort>::empty());
                assert(buf@ =~= seq![3u8] + spec_u16_to_le_bytes(my_numbers@.len() as u16)
                    + enc_addr_list(my_numbers@.subrange(0, 0)));
            }
            while i < my_numbers.len()
                invariant
                    0 <= i <= my_numbers@.len(),
                    buf@ == seq![3u8] + spec_u16_to_le_bytes(my_numbers@.len() as u16)
                        + enc_addr_list(my_numbers@.subrange(0, i as int)),
                decreases my_numbers@.len() - i,
            {
                push_ipport(&mut buf, my_numbers[i]);
                proof {
                    lemma_enc_addr_list_snoc(my_numbers@.subrange(0, i as int), my_numbers@[i as int]);
                    assert(my_numbers@.subrange(0, i as int).push(my_numbers@[i as int])
                        =~= my_numbers@.subrange(0, i + 1 as int));
                    assert(buf@ =~= seq![3u8] + spec_u16_to_le_bytes(my_numbers@.len() as u16)
                        + enc_addr_list(my_numbers@.subrange(0, i + 1 as int)));
                }
                i += 1;
            }
            proof {
                assert(my_numbers@.subrange(0, my_numbers@.len() as int) =~= my_numbers@);
            }
        },
    }
    buf
}

/// Parses a socket address at byte offset `i`.
fn parse_ipport_exec(buf: &Vec<u8>, i: usize) -> (r: Option<(IpPort, usize)>)
    ensures
        match r {
            Some(p) => parse_ipport_at(buf@, i as int) == Some((p.0, p.1 as int)) && i < p.1
                <= buf@.len(),
            None => parse_ipport_at(buf@, i as int) is None,
        },
{
    if i >= buf.len() {
        return None;
    }
    let tag = buf[i];
    if tag == 4 {
        if buf.len() - i >= 7 {
            let ip = u32_from_le_bytes(subvec(buf, i + 1, i + 5).as_slice());
            let port = u16_from_le_bytes(subvec(buf, i + 5, i + 7).as_slice());
            Some((IpPort { ip: IpAddress::V4(ip), port }, i + 7))
        } else {
            None
        }
    } else if tag == 6 {
        if buf.len() - i >= 19 {
            let ip = u128_from_le_bytes(subvec(buf, i + 1, i + 17).as_slice());
            let port = u16_from_le_bytes(subvec(buf, i + 17, i + 19).as_slice());
            Some((IpPort { ip: IpAddress::V6(ip), port }, i + 19))
        } else {
            None
        }
    } else {
        None
    }
}

/// Parses a send address running from byte offset `i` to the end.
fn parse_send_addr_exec(buf: &Vec<u8>, i: usize) -> (r: Option<SendAddr>)
    ensures
        match r {
            Some(a) => parse_send_addr(buf@, i as int) == Some(a.model()),
            None => parse_send_addr(buf@, i as int) is None,
        },
{
    if i >= buf.len() {
        return None;
    }
    let tag = buf[i];
    if tag == 0 {
        match parse_ipport_exec(buf, i + 1) {
            Some(p) => {
                if p.1 == buf.len() {
                    Some(SendAddr::Udp(p.0))
                } else {
                    None
                }
            },
            None => None,
        }
    } else if tag == 1 {
        if buf.len() - i >= 3 {
            let l = u16_from_le_bytes(subvec(buf, i + 1, i + 3).as_slice());
            if buf.len() - i - 3 == l as usize {
                let url = subvec(buf, i + 3, buf.len());
                Some(SendAddr::Relay(RelayUrl::from_bytes(url)))
            } else {
                None
            }
        } else {
            None
        }
    } else {
        None
    }
}

/// Parses a disco message body.
///
/// Returns `Some` exactly when the buffer is the encoding of a well-formed
/// message, and then returns that message.
pub fn parse_message(buf: &Vec<u8>) -> (r: Option<DiscoMessage>)
    ensures
        match r {
            Some(m) => parse_msg(buf@) == Some(m.model()) && m.wf(),
            None => parse_msg(buf@) is None,
        },
{
    if buf.len() < 1 {
        return None;
    }
    let tag = buf[0];
    if tag == 1 {
        if buf.len() != 45 {
            return None;
        }
        let tx_id = subvec(buf, 1, 13);
        let key = subvec(buf, 13, 45);
        Some(DiscoMessage::Ping { tx_id, node_key: NodeKey::from_bytes(key) })
    } else if tag == 2 {
        if buf.len() < 13 {
            return None;
        }
        let tx_id = subvec(buf, 1, 13);
        match parse_send_addr_exec(buf, 13) {
            Some(a) => Some(DiscoMessage::Pong { tx_id, ping_observed_addr: a }),
            None => None,
        }
    } else if tag == 3 {
        if buf.len() < 3 {
            return None;
        }
        let n = u16_from_le_bytes(subvec(buf, 1, 3).as_slice());
        let ghost n_spec = spec_u16_from_le_bytes(buf@.subrange(1, 3)) as nat;
        let mut addrs: Vec<IpPort> = Vec::new();
        let mut pos: usize = 3;
        let mut remaining: usize = n as usize;
        proof {
            assert(addrs@ =~= Seq::<IpPort>::empty());
            if parse_addr_list(buf@, 3, n_spec) is Some {
                let rest = parse_addr_list(buf@, 3, n_spec).unwrap();
                assert(addrs@ + rest =~= rest);
            }
        }
        while remaining > 0
            invariant
                3 <= pos,
                buf@.len() >= 3,
                buf@[0] == 3,
                n_spec == spec_u16_from_le_bytes(buf@.subrange(1, 3)) as nat,
                addrs@.len() + remaining == n_spec,
                match parse_addr_list(buf@, pos as int, remaining as nat) {
                    Some(rest) => parse_addr_list(buf@, 3, n_spec) == Some(addrs@ + rest),
                    None => parse_addr_list(buf@, 3, n_spec) is None,
                },
            decreases remaining,
        {
            match parse_ipport_exec(buf, pos) {
                None => {
                    proof {
                        assert(parse_addr_list(buf@, pos as int, remaining as nat) is None);
                        assert(parse_msg(buf@) is None);
                    }
                    return None;
                },
                Some(p) => {
                    let ghost old_addrs = addrs@;
                    addrs.push(p.0);
                    proof {
                        if parse_addr_list(buf@, p.1 as int, (remaining - 1) as nat) is Some {
                            let rest = parse_addr_list(
                                buf@,
                                p.1 as int,
                                (remaining - 1) as nat,
                            ).unwrap();
                            assert(old_addrs + (seq![p.0] + rest) =~= addrs@ + rest);
                        }
                    }
                    pos = p.1;
                    remaining -= 1;
                },
            }
        }
        if pos != buf.len() {
            proof {
                assert(parse_addr_list(buf@, pos as int, 0) is None);
                assert(parse_msg(buf@) is None);
            }
            return None;
        }
        proof {
            assert(parse_addr_list(buf@, pos as int, 0) == Some(Seq::<IpPort>::empty()));
            assert(addrs@ + Seq::<IpPort>::empty() =~= addrs@);
        }
        Some(DiscoMessage::CallMeMaybe { my_numbers: addrs })
    } else {
        None
    }
}

/// The framing of a disco packet: the magic, the sender's public key, then
/// the sealed message body.
pub open spec fn enc_disco_packet(sender: Seq<u8>, sealed: Seq<u8>) -> Seq<u8> {
    disco_magic() + sender + sealed
}

/// Frames a sealed disco message body for the wire.
pub fn encode_disco_packet(sender: &NodeKey, sealed: &Vec<u8>) -> (r: Vec<u8>)
    requires
        sender.wf(),
    ensures
        r@ == enc_disco_packet(sender@, sealed@),
{
    let mut buf: Vec<u8> = Vec::new();
    buf.push(0x5cu8);
    buf.push(0x84u8);
    buf.push(0xa3u8);
    buf.push(0x1fu8);
    buf.push(0x9eu8);
    buf.push(0x12u8);
    let mut key = crate::addr::clone_bytes(sender.as_bytes());
    buf.append(&mut key);
    let mut body = crate::addr::clone_bytes(sealed);
    buf.append(&mut body);
    proof {
        assert(buf@ =~= enc_disco_packet(sender@, sealed@));
    }
    buf
}

/// A packet is a disco packet exactly when it begins with the disco magic.
pub open spec fn is_disco_packet_spec(p: Seq<u8>) -> bool {
    p.len() >= 6 && p.subrange(0, 6) == disco_magic()
}

/// Reports whether a received packet is a disco packet.
pub fn is_disco_packet(p: &Vec<u8>) -> (r: bool)
    ensures
        r == is_disco_packet_spec(p@),
{
    if p.len() < MAGIC_LEN {
        return false;
    }
    let r = p[0] == 0x5c && p[1] == 0x84 && p[2] == 0xa3 && p[3] == 0x1f && p[4] == 0x9e && p[5]
        == 0x12;
    proof {
        if r {
            assert(p@.subrange(0, 6) =~= disco_magic());
        } else {
            assert(p@.subrange(0, 6) != disco_magic()) by {
                if p@.subrange(0, 6) == disco_magic() {
                    assert(p@[0] == disco_magic()[0]);
                    assert(p@[1] == disco_magic()[1]);
                    assert(p@[2] == disco_magic()[2]);
                    assert(p@[3] == disco_magic()[3]);
                    assert(p@[4] == disco_magic()[4]);
                    assert(p@[5] == disco_magic()[5]);
                }
            }
        }
    }
    r
}

/// Takes a disco packet apart into the sender's key and the sealed body.
///
/// Returns `None` when the packet does not begin with the magic or is too
/// short to hold the header.
pub fn source_and_box(p: &Vec<u8>) -> (r: Option<(NodeKey, Vec<u8>)>)
    ensures
        match r {
            Some(kb) => is_disco_packet_spec(p@) && p@.len() >= HEADER_LEN && kb.0@ == p@.subrange(
                6,
                38,
            ) && kb.0.wf() && kb.1@ == p@.subrange(38, p@.len() as int),
            None => !(is_disco_packet_spec(p@) && p@.len() >= HEADER_LEN),
        },
{
    if !is_disco_packet(p) {
        return None;
    }
    if p.len() < HEADER_LEN {
        return None;
    }
    let key = NodeKey::from_bytes(subvec(p, 6, 38));
    let body = subvec(p, 38, p.len());
    Some((key, body))
}

/// Appending one address to a list appends its encoding.
proof fn lemma_enc_addr_list_snoc(addrs: Seq<IpPort>, a: IpPort)
    ensures
        enc_addr_list(addrs.push(a)) == enc_addr_list(addrs) + enc_ipport(a),
    decreases addrs.len(),
{
    if addrs.len() == 0 {
        assert(addrs.push(a).drop_first() =~= Seq::<IpPort>::empty());
        assert(addrs.push(a)[0] == a);
        assert(enc_addr_list(Seq::<IpPort>::empty()) == Seq::<u8>::empty());
        assert(enc_addr_list(addrs.push(a)) == enc_ipport(a) + Seq::<u8>::empty());
        assert(enc_ipport(a) + Seq::<u8>::empty() =~= enc_ipport(a));
        assert(enc_addr_list(addrs) + enc_ipport(a) =~= enc_ipport(a));
    } else {
        assert(addrs.push(a).drop_first() =~= addrs.drop_first().push(a));
        lemma_enc_addr_list_snoc(addrs.drop_first(), a);
        assert(enc_ipport(addrs[0]) + (enc_addr_list(addrs.drop_first()) + enc_ipport(a))
            =~= enc_addr_list(addrs) + enc_ipport(a));
    }
}

} // verus!

