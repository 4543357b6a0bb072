use magicsock::split::{
    join_relay_datagram, split_packets, split_relay_datagram, split_relay_datagram_prefix, subvec,
};

fn to_vecs(parts: &[&str]) -> Vec<Vec<u8>> {
    parts.iter().map(|p| p.as_bytes().to_vec()).collect()
}

#[test]
fn test_split_packets() {
    // no split
    assert_eq!(
        split_packets(&b"hello".to_vec(), None),
        to_vecs(&["hello"])
    );
    // split without rest
    assert_eq!(
        split_packets(&b"helloworld".to_vec(), Some(5)),
        to_vecs(&["hello", "world"])
    );
    // split with rest and second transmit
    assert_eq!(
        split_packets(&b"hello world".to_vec(), Some(5)),
        to_vecs(&["hello", " worl", "d"])
    );
    // split that results in 1 packet
    assert_eq!(
        split_packets(&b"hello world".to_vec(), Some(1000)),
        to_vecs(&["hello world"])
    );
}

#[test]
fn test_split_packets_empty() {
    assert_eq!(split_packets(&Vec::new(), None), vec![Vec::<u8>::new()]);
    assert_eq!(split_packets(&Vec::new(), Some(4)), Vec::<Vec<u8>>::new());
}

#[test]
fn test_relay_datagram_round_trip() {
    let packets = to_vecs(&["alpha", "", "gamma delta"]);
    let buf = join_relay_datagram(&packets).expect("all packets fit");
    let back = split_relay_datagram(&buf).expect("own framing parses");
    assert_eq!(back, packets);
}

#[test]
fn test_relay_datagram_layout() {
    let packets = to_vecs(&["hi"]);
    let buf = join_relay_datagram(&packets).unwrap();
    assert_eq!(buf, vec![2u8, 0u8, b'h', b'i']);
}

#[test]
fn test_relay_datagram_truncated() {
    // length prefix says 5 bytes but only 2 follow
    let buf = vec![5u8, 0u8, b'h', b'i'];
    assert!(split_relay_datagram(&buf).is_err());
    // a lone length byte
    assert!(split_relay_datagram(&vec![3u8]).is_err());
    // empty datagram: zero packets
    assert_eq!(split_relay_datagram(&Vec::new()).unwrap(), Vec::<Vec<u8>>::new());
}

#[test]
fn test_relay_datagram_too_long_packet() {
    let packets = vec![vec![0u8; 70_000]];
    assert!(join_relay_datagram(&packets).is_err());
}

#[test]
fn test_subvec_copies_range() {
    let v = b"abcdef".to_vec();
    assert_eq!(subvec(&v, 2, 5), b"cde".to_vec());
    assert_eq!(subvec(&v, 3, 3), Vec::<u8>::new());
}

#[test]
fn test_relay_datagram_prefix_delivers_what_parses() {
    // two whole packets, then a truncated frame: both packets are
    // delivered, and the truncation is reported after them
    let mut buf = join_relay_datagram(&to_vecs(&["one", "two"])).unwrap();
    buf.extend(vec![9u8, 0u8, b'x']);
    let (packets, err) = split_relay_datagram_prefix(&buf);
    assert_eq!(packets, to_vecs(&["one", "two"]));
    assert!(err.is_some());
    // a whole datagram parses with nothing to report
    let buf = join_relay_datagram(&to_vecs(&["solo"])).unwrap();
    let (packets, err) = split_relay_datagram_prefix(&buf);
    assert_eq!(packets, to_vecs(&["solo"]));
    assert!(err.is_none());
}
