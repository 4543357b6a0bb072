//! The relay wire protocol: framed messages between a client and a relay
//! server.
//!
//! A frame is a 1-byte type, a big-endian 16-bit payload length, and the
//! payload.  Packet-carrying frames hold the peer's 32-byte public key
//! followed by at most [`MAX_PACKET_SIZE`] bytes of packet; building a frame
//! for anything larger fails.
//!
//! Parsing is proved to agree with the encoding: a frame parses back out of
//! its own bytes, and only valid encodings parse.

use vstd::prelude::*;
use vstd::bytes::{
    spec_u32_to_le_bytes, spec_u32_from_le_bytes, u32_to_le_bytes, u32_from_le_bytes,
};
use crate::addr::{NodeKey, NODE_KEY_LEN};
use crate::split::subvec;

verus! {

/// The largest packet a packet-carrying frame can hold: what remains of a
/// 16-bit frame length after the 32-byte peer key.
pub const MAX_PACKET_SIZE: usize = 65503;

/// A frame of the relay protocol.
#[derive(Debug)]
pub enum Frame {
    /// Client to server: deliver `packet` to the peer with key `dst_key`.
    SendPacket { dst_key: NodeKey, packet: Vec<u8> },
    /// Server to client: the peer with key `src_key` sent `content`.
    RecvPacket { src_key: NodeKey, content: Vec<u8> },
    /// One-way keep-alive, no reply asked for.
    KeepAlive,
    /// Client to server: whether this server is the client's home relay.
    NotePreferred { preferred: bool },
    /// The peer with this key went away.
    PeerGone { peer: NodeKey },
    /// Liveness probe carrying 8 opaque bytes.
    Ping { data: Vec<u8> },
    /// Answer to a ping, echoing its 8 bytes.
    Pong { data: Vec<u8> },
    /// Server to client: the connection's health; the payload describes the
    /// problem, an empty payload means healthy again.
    Health { problem: Vec<u8> },
    /// Server to client: the server restarts; wait `reconnect_in` ms before
    /// reconnecting and keep trying for `try_for` ms.
    Restarting { reconnect_in: u32, try_for: u32 },
}

/// Spec-level value of a [`Frame`].
pub enum FrameSpec {
    SendPacket { dst_key: Seq<u8>, packet: Seq<u8> },
    RecvPacket { src_key: Seq<u8>, content: Seq<u8> },
    KeepAlive,
    NotePreferred { preferred: bool },
    PeerGone { peer: Seq<u8> },
    Ping { data: Seq<u8> },
    Pong { data: Seq<u8> },
    Health { problem: Seq<u8> },
    Restarting { reconnect_in: u32, try_for: u32 },
}

impl Frame {
    /// The spec-level value of this frame.
    pub open spec fn model(&self) -> FrameSpec {
        match self {
            Frame::SendPacket { dst_key, packet } => FrameSpec::SendPacket {
                dst_key: dst_key@,
                packet: packet@,
            },
            Frame::RecvPacket { src_key, content } => FrameSpec::RecvPacket {
                src_key: src_key@,
                content: content@,
            },
            Frame::KeepAlive => FrameSpec::KeepAlive,
            Frame::NotePreferred { preferred } => FrameSpec::NotePreferred {
                preferred: *preferred,
            },
            Frame::PeerGone { peer } => FrameSpec::PeerGone { peer: peer@ },
            Frame::Ping { data } => FrameSpec::Ping { data: data@ },
            Frame::Pong { data } => FrameSpec::Pong { data: data@ },
            Frame::Health { problem } => FrameSpec::Health { problem: problem@ },
            Frame::Restarting { reconnect_in, try_for } => FrameSpec::Restarting {
                reconnect_in: *reconnect_in,
                try_for: *try_for,
            },
        }
    }

    /// Well-formedness of the frame.
    pub open spec fn wf(&self) -> bool {
        wf_frame(self.model())
    }
}

/// Well-formedness: keys have their 32 bytes, ping payloads their 8, and
/// every payload fits the 16-bit length field.
pub open spec fn wf_frame(f: FrameSpec) -> bool {
    match f {
        FrameSpec::SendPacket { dst_key, packet } => dst_key.len() == NODE_KEY_LEN && packet.len()
            <= MAX_PACKET_SIZE,
        FrameSpec::RecvPacket { src_key, content } => src_key.len() == NODE_KEY_LEN && content.len()
            <= MAX_PACKET_SIZE,
        FrameSpec::KeepAlive => true,
        FrameSpec::NotePreferred { .. } => true,
        FrameSpec::PeerGone { peer } => peer.len() == NODE_KEY_LEN,
        FrameSpec::Ping { data } => data.len() == 8,
        FrameSpec::Pong { data } => data.len() == 8,
        FrameSpec::Health { problem } => problem.len() <= 0xffff,
        FrameSpec::Restarting { .. } => true,
    }
}

/// The type byte of a frame.
pub open spec fn frame_type(f: FrameSpec) -> u8 {
    match f {
        FrameSpec::SendPacket { .. } => 4,
        FrameSpec::RecvPacket { .. } => 5,
        FrameSpec::KeepAlive => 6,
        FrameSpec::NotePreferred { .. } => 7,
        FrameSpec::PeerGone { .. } => 8,
        FrameSpec::Ping { .. } => 12,
        FrameSpec::Pong { .. } => 13,
        FrameSpec::Health { .. } => 14,
        FrameSpec::Restarting { .. } => 15,
    }
}

/// The payload bytes of a frame.
pub open spec fn frame_payload(f: FrameSpec) -> Seq<u8> {
    match f {
        FrameSpec::SendPacket { dst_key, packet } => dst_key + packet,
        FrameSpec::RecvPacket { src_key, content } => src_key + content,
        FrameSpec::KeepAlive => Seq::empty(),
        FrameSpec::NotePreferred { preferred } => seq![
            if preferred {
                1u8
            } else {
                0u8
            },
        ],
        FrameSpec::PeerGone { peer } => peer,
        FrameSpec::Ping { data } => data,
        FrameSpec::Pong { data } => data,
        FrameSpec::Health { problem } => problem,
        FrameSpec::Restarting { reconnect_in, try_for } => spec_u32_to_le_bytes(reconnect_in)
            + spec_u32_to_le_bytes(try_for),
    }
}

/// The bytes of a whole frame: type, big-endian 16-bit payload length,
/// payload.
pub open spec fn enc_frame(f: FrameSpec) -> Seq<u8> {
    let p = frame_payload(f);
    seq![frame_type(f), (p.len() / 256) as u8, (p.len() % 256) as u8] + p
}

/// Parses the payload of a frame with the given type byte.  `None` exactly
/// when the payload does not fit that type.
pub open spec fn parse_payload(t: u8, p: Seq<u8>) -> Option<FrameSpec> {
    if t == 4 {
        if p.len() >= NODE_KEY_LEN && p.len() - NODE_KEY_LEN <= MAX_PACKET_SIZE {
            Some(
                FrameSpec::SendPacket {
                    dst_key: p.subrange(0, NODE_KEY_LEN as int),
                    packet: p.subrange(NODE_KEY_LEN as int, p.len() as int),
                },
            )
        } else {
            None
        }
    } else if t == 5 {
        if p.len() >= NODE_KEY_LEN && p.len() - NODE_KEY_LEN <= MAX_PACKET_SIZE {
            Some(
                FrameSpec::RecvPacket {
                    src_key: p.subrange(0, NODE_KEY_LEN as int),
                    content: p.subrange(NODE_KEY_LEN as int, p.len() as int),
                },
            )
        } else {
            None
        }
    } else if t == 6 {
        if p.len() == 0 {
            Some(FrameSpec::KeepAlive)
        } else {
            None
        }
    } else if t == 7 {
        if p.len() == 1 && (p[0] == 0 || p[0] == 1) {
            Some(FrameSpec::NotePreferred { preferred: p[0] == 1 })
        } else {
            None
        }
    } else if t == 8 {
        if p.len() == NODE_KEY_LEN {
            Some(FrameSpec::PeerGone { peer: p })
        } else {
            None
        }
    } else if t == 12 {
        if p.len() == 8 {
            Some(FrameSpec::Ping { data: p })
        } else {
            None
        }
    } else if t == 13 {
        if p.len() == 8 {
            Some(FrameSpec::Pong { data: p })
        } else {
            None
        }
    } else if t == 14 {
        Some(FrameSpec::Health { problem: p })
    } else if t == 15 {
        if p.len() == 8 {
            Some(
                FrameSpec::Restarting {
                    reconnect_in: spec_u32_from_le_bytes(p.subrange(0, 4)),
                    try_for: spec_u32_from_le_bytes(p.subrange(4, 8)),
                },
            )
        } else {
            None
        }
    } else {
        None
    }
}

/// Parses one whole frame.  `None` exactly when the bytes are not the
/// encoding of a well-formed frame.
pub open spec fn parse_frame_spec(s: Seq<u8>) -> Option<FrameSpec> {
    if s.len() < 3 {
        None
    } else {
        let l = 256 * (s[1] as int) + (s[2] as int);
        if s.len() != 3 + l {
            None
        } else {
            parse_payload(s[0], s.subrange(3, s.len() as int))
        }
    }
}

/// Round trip of the frame codec: a well-formed frame parses back out of
/// its own encoding.
pub proof fn lemma_parse_frame_encode(f: FrameSpec)
    requires
        wf_frame(f),
    ensures
        parse_frame_spec(enc_frame(f)) == Some(f),
{
    vstd::bytes::lemma_auto_spec_u32_to_from_le_bytes();
    let p = frame_payload(f);
    let s = enc_frame(f);
    assert(p.len() <= 0xffff) by {
        match f {
            FrameSpec::Restarting { .. } => {},
            _ => {},
        }
    }
    assert(s.len() == 3 + p.len());
    assert(s[0] == frame_type(f));
    assert(s[1] == (p.len() / 256) as u8 && s[2] == (p.len() % 256) as u8);
    assert(256 * (s[1] as int) + (s[2] as int) == p.len());
    assert(s.subrange(3, s.len() as int) =~= p);
    match f {
        FrameSpec::SendPacket { dst_key, packet } => {
            assert(p.subrange(0, NODE_KEY_LEN as int) =~= dst_key);
            assert(p.subrange(NODE_KEY_LEN as int, p.len() as int) =~= packet);
        },
        FrameSpec::RecvPacket { src_key, content } => {
            assert(p.subrange(0, NODE_KEY_LEN as int) =~= src_key);
            assert(p.subrange(NODE_KEY_LEN as int, p.len() as int) =~= content);
        },
        FrameSpec::NotePreferred { preferred } => {
            assert(p.len() == 1);
            assert(parse_payload(frame_type(f), p) == Some(f));
        },
        FrameSpec::Restarting { reconnect_in, try_for } => {
            assert(p.subrange(0, 4) =~= spec_u32_to_le_bytes(reconnect_in));
            assert(p.subrange(4, 8) =~= spec_u32_to_le_bytes(try_for));
        },
        _ => {},
    }
}

/// Encodes a frame for the wire.
pub fn encode_frame(f: &Frame) -> (r: Vec<u8>)
    requires
        f.wf(),
    ensures
        r@ == enc_frame(f.model()),
{
    let mut payload: Vec<u8> = Vec::new();
    match f {
        Frame::SendPacket { dst_key, packet } => {
            let mut k = crate::addr::clone_bytes(dst_key.as_bytes());
            payload.append(&mut k);
            let mut b = crate::addr::clone_bytes(packet);
            payload.append(&mut b);
        },
        Frame::RecvPacket { src_key, content } => {
            let mut k = crate::addr::clone_bytes(src_key.as_bytes());
            payload.append(&mut k);
            let mut b = crate::addr::clone_bytes(content);
            payload.append(&mut b);
        },
        Frame::KeepAlive => {},
        Frame::NotePreferred { preferred } => {
            payload.push(if *preferred {
                1u8
            } else {
                0u8
            });
        },
        Frame::PeerGone { peer } => {
            let mut k = crate::addr::clone_bytes(peer.as_bytes());
            payload.append(&mut k);
        },
        Frame::Ping { data } => {
            let mut b = crate::addr::clone_bytes(data);
            payload.append(&mut b);
        },
        Frame::Pong { data } => {
            let mut b = crate::addr::clone_bytes(data);
            payload.append(&mut b);
        },
        Frame::Health { problem } => {
            let mut b = crate::addr::clone_bytes(problem);
            payload.append(&mut b);
        },
        Frame::Restarting { reconnect_in, try_for } => {
            let mut a = u32_to_le_bytes(*reconnect_in);
            payload.append(&mut a);
            let mut b = u32_to_le_bytes(*try_for);
            payload.append(&mut b);
        },
    }
    proof {
        assert(payload@ =~= frame_payload(f.model()));
    }
    let t: u8 = match f {
        Frame::SendPacket { .. } => 4,
        Frame::RecvPacket { .. } => 5,
        Frame::KeepAlive => 6,
        Frame::NotePreferred { .. } => 7,
        Frame::PeerGone { .. } => 8,
        Frame::Ping { .. } => 12,
        Frame::Pong { .. } => 13,
        Frame::Health { .. } => 14,
        Frame::Restarting { .. } => 15,
    };
    let l = payload.len();
    let mut r: Vec<u8> = Vec::new();
    r.push(t);
    r.push((l / 256) as u8);
    r.push((l % 256) as u8);
    r.append(&mut payload);
    proof {
        assert(r@ =~= enc_frame(f.model()));
    }
    r
}

/// Parses one whole frame, as a websocket transport delivers it.
///
/// Returns `Some` exactly when the buffer is the encoding of a well-formed
/// frame, and then returns that frame.
pub fn parse_frame(buf: &Vec<u8>) -> (r: Option<Frame>)
    ensures
        match r {
            Some(f) => parse_frame_spec(buf@) == Some(f.model()) && f.wf(),
            None => parse_frame_spec(buf@) is None,
        },
{
    if buf.len() < 3 {
        return None;
    }
    let t = buf[0];
    let l: usize = 256 * (buf[1] as usize) + (buf[2] as usize);
    if buf.len() - 3 != l {
        return None;
    }
    let p = subvec(buf, 3, buf.len());
    let ghost ps = buf@.subrange(3, buf@.len() as int);
    if t == 4 || t == 5 {
        if p.len() >= NODE_KEY_LEN && p.len() - NODE_KEY_LEN <= MAX_PACKET_SIZE {
            let key = NodeKey::from_bytes(subvec(&p, 0, NODE_KEY_LEN));
            let body = subvec(&p, NODE_KEY_LEN, p.len());
            if t == 4 {
                Some(Frame::SendPacket { dst_key: key, packet: body })
            } else {
                Some(Frame::RecvPacket { src_key: key, content: body })
            }
        } else {
            None
        }
    } else if t == 6 {
        if p.len() == 0 {
            proof {
                assert(ps =~= Seq::<u8>::empty());
            }
            Some(Frame::KeepAlive)
        } else {
            None
        }
    } else if t == 7 {
        if p.len() == 1 && (p[0] == 0 || p[0] == 1) {
            Some(Frame::NotePreferred { preferred: p[0] == 1 })
        } else {
            None
        }
    } else if t == 8 {
        if p.len() == NODE_KEY_LEN {
            Some(Frame::PeerGone { peer: NodeKey::from_bytes(p) })
        } else {
            None
        }
    } else if t == 12 {
        if p.len() == 8 {
            Some(Frame::Ping { data: p })
        } else {
            None
        }
    } else if t == 13 {
        if p.len() == 8 {
            Some(Frame::Pong { data: p })
        } else {
            None
        }
    } else if t == 14 {
        if p.len() <= 0xffff {
            Some(Frame::Health { problem: p })
        } else {
            proof {
                assert(false);
            }
            None
        }
    } else if t == 15 {
        if p.len() == 8 {
            let reconnect_in = u32_from_le_bytes(subvec(&p, 0, 4).as_slice());
            let try_for = u32_from_le_bytes(subvec(&p, 4, 8).as_slice());
            Some(Frame::Restarting { reconnect_in, try_for })
        } else {
            None
        }
    } else {
        None
    }
}

/// Why building a packet-carrying frame failed.
#[derive(Clone, Copy, Debug, PartialEq, Eq, Structural)]
pub struct PacketTooBig;

/// Builds the frame that sends `packet` to the peer `dst_key` through the
/// relay.
///
/// Succeeds exactly when the packet is at most [`MAX_PACKET_SIZE`] bytes: a
/// packet of exactly that size is framed, one byte more is refused.
pub fn build_send_packet(dst_key: &NodeKey, packet: Vec<u8>) -> (r: Result<Frame, PacketTooBig>)
    requires
        dst_key.wf(),
    ensures
        match r {
            Ok(f) => packet@.len() <= MAX_PACKET_SIZE && f.wf() && f.model()
                == (FrameSpec::SendPacket { dst_key: dst_key@, packet: packet@ }),
            Err(_) => packet@.len() > MAX_PACKET_SIZE,
        },
{
    if packet.len() > MAX_PACKET_SIZE {
        return Err(PacketTooBig);
    }
    Ok(Frame::SendPacket { dst_key: dst_key.duplicate(), packet })
}

/// A message handed up from a relay connection to its owner.
#[derive(Debug)]
pub enum ReceivedMessage {
    /// The peer with key `source` sent `data`.
    ReceivedPacket { source: NodeKey, data: Vec<u8> },
    /// The peer with this key disconnected from the server.
    PeerGone(NodeKey),
    /// The server asks for a pong with these 8 bytes.
    Ping { data: Vec<u8> },
    /// The server answered a ping with these 8 bytes.
    Pong { data: Vec<u8> },
    /// A bare keep-alive.
    KeepAlive,
    /// The connection's health; `None` means healthy again.
    Health { problem: Option<Vec<u8>> },
    /// The server restarts; wait `reconnect_in` ms, keep trying for
    /// `try_for` ms.
    ServerRestarting { reconnect_in: u32, try_for: u32 },
}

/// Why an incoming frame was refused; either way the connection is torn
/// down.
#[derive(Clone, Copy, Debug, PartialEq, Eq, Structural)]
pub enum FrameHandleError {
    /// A frame arrived that a server must not send to a client.
    UnexpectedFrame,
    /// A health frame whose problem text is not valid UTF-8.
    BadHealthText,
}

/// Whether a byte sequence is valid UTF-8.
pub uninterp spec fn is_valid_utf8(b: Seq<u8>) -> bool;

/// Relies on `std::str::from_utf8`: it succeeds exactly on valid UTF-8, a
/// function of the bytes alone; the empty sequence is valid.
#[verifier::external_body]
fn check_utf8(b: &Vec<u8>) -> (r: bool)
    ensures
        r == is_valid_utf8(b@),
        b@.len() == 0 ==> r,
{
    std::str::from_utf8(b.as_slice()).is_ok()
}

/// Turns an incoming frame into the message handed to the connection's
/// owner.
///
/// Frames that only a client sends — `SendPacket`, `NotePreferred` — are
/// rejected; every server-to-client frame maps to its message.  A `Health`
/// problem must be text: its bytes are handed up (always present, even
/// empty) when they are valid UTF-8, and refused otherwise.
pub fn process_incoming_frame(frame: Frame) -> (r: Result<ReceivedMessage, FrameHandleError>)
    ensures
        match frame.model() {
            FrameSpec::KeepAlive => r matches Ok(m) && m matches ReceivedMessage::KeepAlive,
            FrameSpec::PeerGone { peer } => r matches Ok(m) && (m matches ReceivedMessage::PeerGone(
                k,
            ) && k@ == peer),
            FrameSpec::RecvPacket { src_key, content } => r matches Ok(m) && (m matches
                ReceivedMessage::ReceivedPacket { source, data } && source@ == src_key && data@
                == content),
            FrameSpec::Ping { data } => r matches Ok(m) && (m matches ReceivedMessage::Ping {
                data: d,
            } && d@ == data),
            FrameSpec::Pong { data } => r matches Ok(m) && (m matches ReceivedMessage::Pong {
                data: d,
            } && d@ == data),
            FrameSpec::Health { problem } => if is_valid_utf8(problem) {
                r matches Ok(m) && (m matches ReceivedMessage::Health { problem: p } && (p matches
                    Some(b) && b@ == problem))
            } else {
                r == Err::<ReceivedMessage, FrameHandleError>(FrameHandleError::BadHealthText)
            },
            FrameSpec::Restarting { reconnect_in, try_for } => r matches Ok(m) && (m matches
                ReceivedMessage::ServerRestarting { reconnect_in: a, try_for: b } && a
                == reconnect_in && b == try_for),
            FrameSpec::SendPacket { .. } => r == Err::<ReceivedMessage, FrameHandleError>(
                FrameHandleError::UnexpectedFrame,
            ),
            FrameSpec::NotePreferred { .. } => r == Err::<ReceivedMessage, FrameHandleError>(
                FrameHandleError::UnexpectedFrame,
            ),
        },
{
    match frame {
        Frame::KeepAlive => Ok(ReceivedMessage::KeepAlive),
        Frame::PeerGone { peer } => Ok(ReceivedMessage::PeerGone(peer)),
        Frame::RecvPacket { src_key, content } => Ok(
            ReceivedMessage::ReceivedPacket { source: src_key, data: content },
        ),
        Frame::Ping { data } => Ok(ReceivedMessage::Ping { data }),
        Frame::Pong { data } => Ok(ReceivedMessage::Pong { data }),
        Frame::Health { problem } => {
            if check_utf8(&problem) {
                Ok(ReceivedMessage::Health { problem: Some(problem) })
            } else {
                Err(FrameHandleError::BadHealthText)
            }
        },
        Frame::Restarting { reconnect_in, try_for } => Ok(
            ReceivedMessage::ServerRestarting { reconnect_in, try_for },
        ),
        Frame::SendPacket { .. } => Err(FrameHandleError::UnexpectedFrame),
        Frame::NotePreferred { .. } => Err(FrameHandleError::UnexpectedFrame),
    }
}

} // verus!
