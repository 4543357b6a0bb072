//! Splitting and framing of datagram payloads.
//!
//! Two pure jobs on the hot send/receive path:
//!
//! - splitting a transmit that carries a coalesced (GSO) payload into the
//!   individual packets, according to its segment size;
//! - parsing a relay datagram, which is a sequence of packets each prefixed
//!   by a little-endian 16-bit length, into those packets (and building such
//!   a datagram back up).

use vstd::prelude::*;

verus! {

/// The sequence views of a vector of byte vectors.
pub open spec fn views_of(r: Seq<Vec<u8>>) -> Seq<Seq<u8>> {
    r.map_values(|v: Vec<u8>| v@)
}

/// Concatenation of a sequence of byte sequences.
pub open spec fn concat_bytes(ss: Seq<Seq<u8>>) -> Seq<u8>
    decreases ss.len(),
{
    if ss.len() == 0 {
        Seq::empty()
    } else {
        ss[0] + concat_bytes(ss.drop_first())
    }
}

/// The chunks of `s` of length `size`; only the last chunk may be shorter.
/// An empty `s` has no chunks.
pub open spec fn chunks_of(s: Seq<u8>, size: nat) -> Seq<Seq<u8>>
    recommends
        size > 0,
    decreases s.len(),
{
    if size == 0 || s.len() == 0 {
        Seq::empty()
    } else if s.len() <= size {
        seq![s]
    } else {
        seq![s.subrange(0, size as int)] + chunks_of(s.subrange(size as int, s.len() as int), size)
    }
}

/// Concatenating the chunks of `s` gives `s` back, every chunk is non-empty
/// and at most `size` long, and every chunk but the last is exactly `size`
/// long.
pub proof fn lemma_chunks_concat(s: Seq<u8>, size: nat)
    requires
        size > 0,
    ensures
        concat_bytes(chunks_of(s, size)) == s,
        forall|i: int|
            0 <= i < chunks_of(s, size).len() ==> 0 < #[trigger] chunks_of(s, size)[i].len()
                <= size,
        forall|i: int|
            0 <= i < chunks_of(s, size).len() - 1 ==> #[trigger] chunks_of(s, size)[i].len()
                == size,
    decreases s.len(),
{
    if s.len() == 0 {
        assert(concat_bytes(chunks_of(s, size)) =~= s);
    } else if s.len() <= size {
        let one = seq![s];
        assert(chunks_of(s, size) == one);
        assert(one.drop_first() =~= Seq::<Seq<u8>>::empty());
        assert(concat_bytes(one) == one[0] + concat_bytes(one.drop_first()));
        assert(concat_bytes(Seq::<Seq<u8>>::empty()) == Seq::<u8>::empty());
        assert(s + Seq::<u8>::empty() =~= s);
    } else {
        let head = s.subrange(0, size as int);
        let tail = s.subrange(size as int, s.len() as int);
        lemma_chunks_concat(tail, size);
        assert(chunks_of(s, size).drop_first() =~= chunks_of(tail, size));
        assert(concat_bytes(chunks_of(s, size)) =~= head + concat_bytes(chunks_of(tail, size)));
        assert(head + tail =~= s);
    }
}

/// Copies `v[from..to]` into a fresh vector.
pub fn subvec(v: &Vec<u8>, from: usize, to: usize) -> (r: Vec<u8>)
    requires
        from <= to <= v@.len(),
    ensures
        r@ == v@.subrange(from as int, to as int),
{
    let mut r: Vec<u8> = Vec::new();
    let mut i: usize = from;
    while i < to
        invariant
            from <= i <= to <= v@.len(),
            r@ == v@.subrange(from as int, i as int),
        decreases to - i,
    {
        r.push(v[i]);
        assert(r@ =~= v@.subrange(from as int, i + 1 as int));
        i += 1;
    }
    r
}

/// Splits a transmit payload into the packets it carries.
///
/// With a segment size the payload is a GSO batch: it is cut into chunks of
/// that size, the last chunk possibly shorter.  Without one the payload is a
/// single packet and is returned whole.
pub fn split_packets(contents: &Vec<u8>, segment_size: Option<usize>) -> (r: Vec<Vec<u8>>)
    requires
        segment_size matches Some(s) ==> s > 0,
    ensures
        match segment_size {
            Some(s) => views_of(r@) == chunks_of(contents@, s as nat),
            None => views_of(r@) == seq![contents@],
        },
        concat_bytes(views_of(r@)) == contents@,
{
    match segment_size {
        None => {
            let mut r: Vec<Vec<u8>> = Vec::new();
            r.push(subvec(contents, 0, contents.len()));
            assert(contents@.subrange(0, contents@.len() as int) =~= contents@);
            assert(views_of(r@) =~= seq![contents@]);
            assert(concat_bytes(seq![contents@]) =~= contents@) by {
                let one = seq![contents@];
                assert(one.drop_first() =~= Seq::<Seq<u8>>::empty());
                assert(concat_bytes(one) == one[0] + concat_bytes(one.drop_first()));
                assert(concat_bytes(Seq::<Seq<u8>>::empty()) == Seq::<u8>::empty());
                assert(contents@ + Seq::<u8>::empty() =~= contents@);
            }
            r
        },
        Some(s) => {
            let mut r: Vec<Vec<u8>> = Vec::new();
            let mut pos: usize = 0;
            proof {
                assert(views_of(r@) =~= Seq::<Seq<u8>>::empty());
                assert(contents@.subrange(0, contents@.len() as int) =~= contents@);
            }
            while pos < contents.len()
                invariant
                    s > 0,
                    0 <= pos <= contents@.len(),
                    chunks_of(contents@, s as nat) == views_of(r@) + chunks_of(
                        contents@.subrange(pos as int, contents@.len() as int),
                        s as nat,
                    ),
                decreases contents@.len() - pos,
            {
                let ghost suffix = contents@.subrange(pos as int, contents@.len() as int);
                let end: usize = if contents.len() - pos <= s {
                    contents.len()
                } else {
                    pos + s
                };
                let chunk = subvec(contents, pos, end);
                proof {
                    if contents@.len() - pos <= s {
                        assert(chunks_of(suffix, s as nat) == seq![suffix]);
                        assert(chunk@ =~= suffix);
                        assert(chunks_of(
                            contents@.subrange(end as int, contents@.len() as int),
                            s as nat,
                        ) =~= Seq::<Seq<u8>>::empty());
                    } else {
                        assert(chunk@ =~= suffix.subrange(0, s as int));
                        assert(contents@.subrange(end as int, contents@.len() as int) =~= suffix
                            .subrange(s as int, suffix.len() as int));
                    }
                    assert(chunks_of(suffix, s as nat) =~= seq![chunk@] + chunks_of(
                        contents@.subrange(end as int, contents@.len() as int),
                        s as nat,
                    ));
                }
                r.push(chunk);
                proof {
                    assert(views_of(r@) =~= views_of(r@.drop_last()) + seq![chunk@]);
                    assert(views_of(r@) + chunks_of(
                        contents@.subrange(end as int, contents@.len() as int),
                        s as nat,
                    ) =~= (views_of(r@.drop_last()) + seq![chunk@]) + chunks_of(
                        contents@.subrange(end as int, contents@.len() as int),
                        s as nat,
                    ));
                    assert((views_of(r@.drop_last()) + seq![chunk@]) + chunks_of(
                        contents@.subrange(end as int, contents@.len() as int),
                        s as nat,
                    ) =~= views_of(r@.drop_last()) + (seq![chunk@] + chunks_of(
                        contents@.subrange(end as int, contents@.len() as int),
                        s as nat,
                    )));
                }
                pos = end;
            }
            proof {
                assert(contents@.subrange(pos as int, contents@.len() as int) =~= Seq::<
                    u8,
                >::empty());
                assert(chunks_of(Seq::<u8>::empty(), s as nat) =~= Seq::<Seq<u8>>::empty());
                assert(views_of(r@) + Seq::<Seq<u8>>::empty() =~= views_of(r@));
                lemma_chunks_concat(contents@, s as nat);
            }
            r
        },
    }
}

/// A relay datagram failed to parse: a length prefix or a packet body ran
/// past the end of the datagram.
#[derive(Clone, Copy, Debug, PartialEq, Eq, Structural)]
pub struct TruncatedDatagram;

/// The value of a little-endian 16-bit length prefix.
pub open spec fn u16_le(lo: u8, hi: u8) -> int {
    lo + 256 * hi
}

/// The packets of a relay datagram: each packet is prefixed by a
/// little-endian 16-bit length; the datagram is the packets back to back.
/// `None` when a prefix or a body is truncated.
pub open spec fn parse_relay_datagram(s: Seq<u8>) -> Option<Seq<Seq<u8>>>
    decreases s.len(),
{
    if s.len() == 0 {
        Some(Seq::empty())
    } else if s.len() < 2 {
        None
    } else {
        let l = u16_le(s[0], s[1]);
        if s.len() < 2 + l {
            None
        } else {
            match parse_relay_datagram(s.subrange(2 + l, s.len() as int)) {
                Some(rest) => Some(seq![s.subrange(2, 2 + l)] + rest),
                None => None,
            }
        }
    }
}

/// Splits a relay datagram into the packets it carries.
///
/// Fails when the datagram does not parse; nothing is returned then, as the
/// whole datagram is suspect.
pub fn split_relay_datagram(buf: &Vec<u8>) -> (r: Result<Vec<Vec<u8>>, TruncatedDatagram>)
    ensures
        match r {
            Ok(packets) => parse_relay_datagram(buf@) == Some(views_of(packets@)),
            Err(_) => parse_relay_datagram(buf@) is None,
        },
{
    let mut r: Vec<Vec<u8>> = Vec::new();
    let mut pos: usize = 0;
    proof {
        assert(views_of(r@) =~= Seq::<Seq<u8>>::empty());
        assert(buf@.subrange(0, buf@.len() as int) =~= buf@);
    }
    while pos < buf.len()
        invariant
            0 <= pos <= buf@.len(),
            match parse_relay_datagram(buf@.subrange(pos as int, buf@.len() as int)) {
                Some(rest) => parse_relay_datagram(buf@) == Some(views_of(r@) + rest),
                None => parse_relay_datagram(buf@) is None,
            },
        decreases buf@.len() - pos,
    {
        let ghost suffix = buf@.subrange(pos as int, buf@.len() as int);
        if buf.len() - pos < 2 {
            return Err(TruncatedDatagram);
        }
        let lo = buf[pos];
        let hi = buf[pos + 1];
        let l: usize = (lo as usize) + 256 * (hi as usize);
        assert(l == u16_le(suffix[0], suffix[1]));
        if buf.len() - pos - 2 < l {
            assert(suffix.len() < 2 + u16_le(suffix[0], suffix[1]));
            return Err(TruncatedDatagram);
        }
        let body = subvec(buf, pos + 2, pos + 2 + l);
        proof {
            assert(body@ =~= suffix.subrange(2, 2 + l as int));
            assert(buf@.subrange(pos + 2 + l as int, buf@.len() as int) =~= suffix.subrange(
                2 + l as int,
                suffix.len() as int,
            ));
        }
        r.push(body);
        proof {
            assert(views_of(r@) =~= views_of(r@.drop_last()) + seq![body@]);
            if parse_relay_datagram(buf@.subrange(pos + 2 + l as int, buf@.len() as int)) is Some {
                let rest = parse_relay_datagram(
                    buf@.subrange(pos + 2 + l as int, buf@.len() as int),
                ).unwrap();
                assert(views_of(r@.drop_last()) + (seq![body@] + rest) =~= views_of(r@) + rest);
            }
        }
        pos = pos + 2 + l;
    }
    proof {
        assert(buf@.subrange(pos as int, buf@.len() as int) =~= Seq::<u8>::empty());
        assert(views_of(r@) + Seq::<Seq<u8>>::empty() =~= views_of(r@));
    }
    Ok(r)
}

/// The packets of the longest well-formed prefix of a relay datagram, and
/// whether the whole datagram was well-formed: a truncated length prefix or
/// body ends the parse, but the packets before it stand.
pub open spec fn parse_relay_datagram_prefix(s: Seq<u8>) -> (Seq<Seq<u8>>, bool)
    decreases s.len(),
{
    if s.len() == 0 {
        (Seq::empty(), true)
    } else if s.len() < 2 {
        (Seq::empty(), false)
    } else {
        let l = u16_le(s[0], s[1]);
        if s.len() < 2 + l {
            (Seq::empty(), false)
        } else {
            let rest = parse_relay_datagram_prefix(s.subrange(2 + l, s.len() as int));
            (seq![s.subrange(2, 2 + l)] + rest.0, rest.1)
        }
    }
}

/// Splits a relay datagram into the packets it carries, delivering what can
/// be delivered: the packets of the longest well-formed prefix, and — when
/// the datagram ends mid-frame — a truncation error after them.
pub fn split_relay_datagram_prefix(buf: &Vec<u8>) -> (r: (
    Vec<Vec<u8>>,
    Option<TruncatedDatagram>,
))
    ensures
        views_of(r.0@) == parse_relay_datagram_prefix(buf@).0,
        (r.1 is None) == parse_relay_datagram_prefix(buf@).1,
{
    let mut r: Vec<Vec<u8>> = Vec::new();
    let mut pos: usize = 0;
    proof {
        assert(views_of(r@) =~= Seq::<Seq<u8>>::empty());
        assert(buf@.subrange(0, buf@.len() as int) =~= buf@);
    }
    while pos < buf.len()
        invariant
            0 <= pos <= buf@.len(),
            ({
                let rest = parse_relay_datagram_prefix(
                    buf@.subrange(pos as int, buf@.len() as int),
                );
                parse_relay_datagram_prefix(buf@) == (views_of(r@) + rest.0, rest.1)
            }),
        decreases buf@.len() - pos,
    {
        let ghost suffix = buf@.subrange(pos as int, buf@.len() as int);
        if buf.len() - pos < 2 {
            return (r, Some(TruncatedDatagram));
        }
        let lo = buf[pos];
        let hi = buf[pos + 1];
        let l: usize = (lo as usize) + 256 * (hi as usize);
        assert(l == u16_le(suffix[0], suffix[1]));
        if buf.len() - pos - 2 < l {
            assert(suffix.len() < 2 + u16_le(suffix[0], suffix[1]));
            proof {
                assert(views_of(r@) + Seq::<Seq<u8>>::empty() =~= views_of(r@));
            }
            return (r, Some(TruncatedDatagram));
        }
        let body = subvec(buf, pos + 2, pos + 2 + l);
        proof {
            assert(body@ =~= suffix.subrange(2, 2 + l as int));
            assert(buf@.subrange(pos + 2 + l as int, buf@.len() as int) =~= suffix.subrange(
                2 + l as int,
                suffix.len() as int,
            ));
        }
        r.push(body);
        proof {
            let rest = parse_relay_datagram_prefix(
                buf@.subrange(pos + 2 + l as int, buf@.len() as int),
            );
            assert(views_of(r@) =~= views_of(r@.drop_last()) + seq![body@]);
            assert(views_of(r@.drop_last()) + (seq![body@] + rest.0) =~= views_of(r@) + rest.0);
        }
        pos = pos + 2 + l;
    }
    proof {
        assert(buf@.subrange(pos as int, buf@.len() as int) =~= Seq::<u8>::empty());
        assert(views_of(r@) + Seq::<Seq<u8>>::empty() =~= views_of(r@));
    }
    (r, None)
}

/// Builds the relay datagram that carries the given packets: each packet
/// prefixed by its little-endian 16-bit length.
///
/// Fails when a packet is too long for a 16-bit length prefix.
pub fn join_relay_datagram(packets: &Vec<Vec<u8>>) -> (r: Result<Vec<u8>, TruncatedDatagram>)
    ensures
        match r {
            Ok(buf) => parse_relay_datagram(buf@) == Some(views_of(packets@)),
            Err(_) => exists|i: int|
                0 <= i < packets@.len() && #[trigger] packets@[i]@.len() > 0xffff,
        },
{
    let mut buf: Vec<u8> = Vec::new();
    let mut i: usize = 0;
    proof {
        assert(views_of(packets@.subrange(0, 0)) =~= Seq::<Seq<u8>>::empty());
    }
    while i < packets.len()
        invariant
            0 <= i <= packets@.len(),
            parse_relay_datagram(buf@) == Some(views_of(packets@.subrange(0, i as int))),
            forall|j: int| 0 <= j < i ==> #[trigger] packets@[j]@.len() <= 0xffff,
        decreases packets@.len() - i,
    {
        let p = &packets[i];
        if p.len() > 0xffff {
            return Err(TruncatedDatagram);
        }
        let l: usize = p.len();
        let ghost old_buf = buf@;
        buf.push((l % 256) as u8);
        buf.push((l / 256) as u8);
        let mut k: usize = 0;
        while k < p.len()
            invariant
                0 <= k <= p@.len(),
                buf@ == old_buf + seq![(p@.len() % 256) as u8, (p@.len() / 256) as u8]
                    + p@.subrange(0, k as int),
            decreases p@.len() - k,
        {
            buf.push(p[k]);
            assert(buf@ =~= old_buf + seq![(p@.len() % 256) as u8, (p@.len() / 256) as u8]
                + p@.subrange(0, k + 1 as int));
            k += 1;
        }
        proof {
            assert(p@.subrange(0, p@.len() as int) =~= p@);
            lemma_parse_relay_datagram_extend(old_buf, p@);
            assert(views_of(packets@.subrange(0, i as int)).push(p@) =~= views_of(
                packets@.subrange(0, i + 1 as int),
            ));
        }
        i += 1;
    }
    proof {
        assert(packets@.subrange(0, packets@.len() as int) =~= packets@);
    }
    Ok(buf)
}

/// Appending one length-prefixed packet to a datagram that parses extends its
/// parse by that one packet.
proof fn lemma_parse_relay_datagram_extend(buf: Seq<u8>, p: Seq<u8>)
    requires
        parse_relay_datagram(buf) is Some,
        p.len() <= 0xffff,
    ensures
        parse_relay_datagram(buf + seq![(p.len() % 256) as u8, (p.len() / 256) as u8] + p)
            == Some(parse_relay_datagram(buf).unwrap().push(p)),
    decreases buf.len(),
{
    let framed = seq![(p.len() % 256) as u8, (p.len() / 256) as u8] + p;
    let whole = buf + framed;
    assert(framed.len() == 2 + p.len());
    assert(buf + seq![(p.len() % 256) as u8, (p.len() / 256) as u8] + p =~= whole);
    if buf.len() == 0 {
        assert(whole =~= framed);
        assert(u16_le(whole[0], whole[1]) == p.len()) by {
            assert(whole[0] == (p.len() % 256) as u8);
            assert(whole[1] == (p.len() / 256) as u8);
            assert((p.len() % 256) as u8 == p.len() % 256);
            assert((p.len() / 256) as u8 == p.len() / 256);
        }
        let tail = whole.subrange(2 + p.len() as int, whole.len() as int);
        assert(tail =~= Seq::<u8>::empty());
        assert(parse_relay_datagram(Seq::<u8>::empty()) == Some(Seq::<Seq<u8>>::empty()));
        assert(parse_relay_datagram(whole) == Some(
            seq![whole.subrange(2, 2 + p.len() as int)] + Seq::<Seq<u8>>::empty(),
        ));
        assert(whole.subrange(2, 2 + p.len() as int) =~= p);
        assert(seq![p] + Seq::<Seq<u8>>::empty() =~= seq![p]);
        assert(parse_relay_datagram(buf) == Some(Seq::<Seq<u8>>::empty()));
        assert(parse_relay_datagram(buf).unwrap().push(p) =~= seq![p]);
    } else {
        assert(buf.len() >= 2);
        let l = u16_le(buf[0], buf[1]);
        assert(buf.len() >= 2 + l);
        let buf_tail = buf.subrange(2 + l, buf.len() as int);
        assert(parse_relay_datagram(buf) == match parse_relay_datagram(buf_tail) {
            Some(rest) => Some(seq![buf.subrange(2, 2 + l)] + rest),
            None => None,
        });
        let rest = parse_relay_datagram(buf_tail).unwrap();
        assert(parse_relay_datagram(buf).unwrap() == seq![buf.subrange(2, 2 + l)] + rest);
        assert(whole[0] == buf[0] && whole[1] == buf[1]);
        assert(u16_le(whole[0], whole[1]) == l);
        assert(whole.len() >= 2 + l);
        assert(whole.subrange(2 + l, whole.len() as int) =~= buf_tail + framed);
        assert(whole.subrange(2, 2 + l) =~= buf.subrange(2, 2 + l));
        lemma_parse_relay_datagram_extend(buf_tail, p);
        assert(buf_tail + seq![(p.len() % 256) as u8, (p.len() / 256) as u8] + p =~= buf_tail
            + framed);
        assert(parse_relay_datagram(buf_tail + framed) == Some(rest.push(p)));
        assert(parse_relay_datagram(whole) == match parse_relay_datagram(
            whole.subrange(2 + l, whole.len() as int),
        ) {
            Some(r2) => Some(seq![whole.subrange(2, 2 + l)] + r2),
            None => None,
        });
        assert(parse_relay_datagram(whole) == Some(
            seq![buf.subrange(2, 2 + l)] + rest.push(p),
        ));
        assert(seq![buf.subrange(2, 2 + l)] + rest.push(p) =~= (seq![buf.subrange(2, 2 + l)]
            + rest).push(p));
    }
}

} // verus!
