use magicsock::addr::{IpAddress, IpPort, NodeKey, RelayUrl};
use magicsock::disco::{
    encode_disco_packet, encode_message, is_disco_packet, parse_message, source_and_box,
    DiscoMessage, SendAddr,
};
use magicsock::seal::{derive_public, seal_message, unseal_message, DiscoBoxError};
use crypto_box::aead::Aead;

fn key(byte: u8) -> NodeKey {
    NodeKey::from_bytes(vec![byte; 32])
}

fn tx(byte: u8) -> Vec<u8> {
    vec![byte; 12]
}

fn sample_ping() -> DiscoMessage {
    DiscoMessage::Ping { tx_id: tx(7), node_key: key(1) }
}

fn assert_same_message(a: &DiscoMessage, b: &DiscoMessage) {
    match (a, b) {
        (
            DiscoMessage::Ping { tx_id: t1, node_key: k1 },
            DiscoMessage::Ping { tx_id: t2, node_key: k2 },
        ) => {
            assert_eq!(t1, t2);
            assert_eq!(k1.as_bytes(), k2.as_bytes());
        }
        (
            DiscoMessage::Pong { tx_id: t1, ping_observed_addr: a1 },
            DiscoMessage::Pong { tx_id: t2, ping_observed_addr: a2 },
        ) => {
            assert_eq!(t1, t2);
            match (a1, a2) {
                (SendAddr::Udp(x), SendAddr::Udp(y)) => assert_eq!(x, y),
                (SendAddr::Relay(x), SendAddr::Relay(y)) => assert_eq!(x.as_bytes(), y.as_bytes()),
                _ => panic!("send addr kinds differ"),
            }
        }
        (
            DiscoMessage::CallMeMaybe { my_numbers: n1 },
            DiscoMessage::CallMeMaybe { my_numbers: n2 },
        ) => assert_eq!(n1, n2),
        _ => panic!("message kinds differ"),
    }
}

#[test]
fn test_disco_codec_ping_round_trip() {
    let m = sample_ping();
    let bytes = encode_message(&m);
    assert_eq!(bytes.len(), 45);
    assert_eq!(bytes[0], 1);
    let back = parse_message(&bytes).expect("own encoding parses");
    assert_same_message(&m, &back);
}

#[test]
fn test_disco_codec_pong_round_trips() {
    let udp = DiscoMessage::Pong {
        tx_id: tx(9),
        ping_observed_addr: SendAddr::Udp(IpPort { ip: IpAddress::V4(0x7f000001), port: 4242 }),
    };
    let relay = DiscoMessage::Pong {
        tx_id: tx(9),
        ping_observed_addr: SendAddr::Relay(RelayUrl::from_bytes(
            b"https://relay.example".to_vec(),
        )),
    };
    for m in [udp, relay] {
        let bytes = encode_message(&m);
        let back = parse_message(&bytes).expect("own encoding parses");
        assert_same_message(&m, &back);
    }
}

#[test]
fn test_disco_codec_call_me_maybe_round_trip() {
    let m = DiscoMessage::CallMeMaybe {
        my_numbers: vec![
            IpPort { ip: IpAddress::V4(0x0a000001), port: 1000 },
            IpPort { ip: IpAddress::V6(0xfe80_0000_0000_0000_0000_0000_0000_0001), port: 9 },
        ],
    };
    let bytes = encode_message(&m);
    let back = parse_message(&bytes).expect("own encoding parses");
    assert_same_message(&m, &back);

    let empty = DiscoMessage::CallMeMaybe { my_numbers: Vec::new() };
    let bytes = encode_message(&empty);
    let back = parse_message(&bytes).expect("own encoding parses");
    assert_same_message(&empty, &back);
}

#[test]
fn test_disco_codec_rejects_bad_bytes() {
    assert!(parse_message(&Vec::new()).is_none());
    assert!(parse_message(&vec![9u8, 0, 0]).is_none());
    // a ping body one byte short
    let mut bytes = encode_message(&sample_ping());
    bytes.pop();
    assert!(parse_message(&bytes).is_none());
    // trailing garbage after a valid body
    let mut bytes = encode_message(&sample_ping());
    bytes.push(0);
    assert!(parse_message(&bytes).is_none());
}

#[test]
fn test_disco_packet_framing() {
    let sender = key(5);
    let sealed = b"not really sealed".to_vec();
    let pkt = encode_disco_packet(&sender, &sealed);
    assert!(is_disco_packet(&pkt));
    let (src, body) = source_and_box(&pkt).expect("framed packet splits");
    assert_eq!(src.as_bytes(), sender.as_bytes());
    assert_eq!(&body, &sealed);

    assert!(!is_disco_packet(&b"QUIC data".to_vec()));
    assert!(source_and_box(&b"too short".to_vec()).is_none());
    // magic present but header incomplete
    let short = vec![0x5c, 0x84, 0xa3, 0x1f, 0x9e, 0x12, 1, 2, 3];
    assert!(is_disco_packet(&short));
    assert!(source_and_box(&short).is_none());
}

#[test]
fn test_seal_open_round_trip() {
    let a_secret = vec![0x11u8; 32];
    let b_secret = vec![0x22u8; 32];
    let a_public = derive_public(&a_secret);
    let b_public = derive_public(&b_secret);

    let m = sample_ping();
    let sealed = seal_message(&a_secret, &b_public, &m);
    let back = unseal_message(&b_secret, &a_public, &sealed).expect("opens with the right keys");
    assert_same_message(&m, &back);
}

#[test]
fn test_seal_open_wrong_key_is_open_error() {
    let a_secret = vec![0x11u8; 32];
    let b_secret = vec![0x22u8; 32];
    let c_secret = vec![0x33u8; 32];
    let a_public = derive_public(&a_secret);
    let b_public = derive_public(&b_secret);

    let sealed = seal_message(&a_secret, &b_public, &sample_ping());
    // the wrong receiver cannot open it
    assert_eq!(
        unseal_message(&c_secret, &a_public, &sealed).unwrap_err(),
        DiscoBoxError::Open
    );
    // a tampered box does not open either
    let mut bad = sealed.clone();
    let last = bad.len() - 1;
    bad[last] ^= 0xff;
    assert_eq!(
        unseal_message(&b_secret, &a_public, &bad).unwrap_err(),
        DiscoBoxError::Open
    );
    // far too short to even hold a nonce
    assert_eq!(
        unseal_message(&b_secret, &a_public, &vec![1, 2, 3]).unwrap_err(),
        DiscoBoxError::Open
    );
}

#[test]
fn test_seal_open_garbage_is_parse_error() {
    // seal bytes that are no valid message encoding, with the real shared
    // key, so the box opens but decoding fails
    let a_secret = [0x44u8; 32];
    let b_secret = [0x55u8; 32];
    let a_sk = crypto_box::SecretKey::from_bytes(a_secret);
    let b_sk = crypto_box::SecretKey::from_bytes(b_secret);
    let b_pk = b_sk.public_key();
    let bx = crypto_box::ChaChaBox::new(&b_pk, &a_sk);
    let nonce_bytes = [7u8; 24];
    let nonce = crypto_box::Nonce::from_slice(&nonce_bytes);
    let ct = bx.encrypt(nonce, &b"not a disco message"[..]).unwrap();
    let mut sealed = nonce_bytes.to_vec();
    sealed.extend(ct);

    let a_public = derive_public(&a_secret.to_vec());
    assert_eq!(
        unseal_message(&b_secret.to_vec(), &a_public, &sealed).unwrap_err(),
        DiscoBoxError::Parse
    );
}
