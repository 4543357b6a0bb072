use magicsock::addr::{IpAddress, NodeKey, RelayUrl};
use magicsock::relay_actor::{plan_relay_send, RelayActorState};
use magicsock::relay_client::{
    choose_resolved_addr, limiter_gate, prepare_send_packet, proxy_auth_value, url_port, use_tls,
    ClientBuilder, ClientError, ConnectDecision, LimiterDecision, PingTracker, RelayClientState,
    RelayProtocol, RelayRateLimiter, UrlScheme,
};
use magicsock::relay_frames::{
    build_send_packet, encode_frame, parse_frame, process_incoming_frame, Frame, FrameHandleError,
    ReceivedMessage, MAX_PACKET_SIZE,
};

fn key(byte: u8) -> NodeKey {
    NodeKey::from_bytes(vec![byte; 32])
}

fn round_trip(f: &Frame) -> Frame {
    parse_frame(&encode_frame(f)).expect("own encoding parses")
}

#[test]
fn test_frame_codec_round_trips() {
    let f = round_trip(&Frame::SendPacket { dst_key: key(1), packet: b"data".to_vec() });
    match f {
        Frame::SendPacket { dst_key, packet } => {
            assert_eq!(dst_key.as_bytes(), key(1).as_bytes());
            assert_eq!(packet, b"data".to_vec());
        }
        _ => panic!("kind changed"),
    }
    let f = round_trip(&Frame::RecvPacket { src_key: key(2), content: Vec::new() });
    assert!(matches!(f, Frame::RecvPacket { .. }));
    assert!(matches!(round_trip(&Frame::KeepAlive), Frame::KeepAlive));
    let f = round_trip(&Frame::NotePreferred { preferred: true });
    assert!(matches!(f, Frame::NotePreferred { preferred: true }));
    let f = round_trip(&Frame::PeerGone { peer: key(3) });
    assert!(matches!(f, Frame::PeerGone { .. }));
    let f = round_trip(&Frame::Ping { data: vec![9; 8] });
    assert!(matches!(f, Frame::Ping { .. }));
    let f = round_trip(&Frame::Pong { data: vec![8; 8] });
    assert!(matches!(f, Frame::Pong { .. }));
    let f = round_trip(&Frame::Health { problem: b"overloaded".to_vec() });
    assert!(matches!(f, Frame::Health { .. }));
    let f = round_trip(&Frame::Restarting { reconnect_in: 250, try_for: 3000 });
    match f {
        Frame::Restarting { reconnect_in, try_for } => {
            assert_eq!(reconnect_in, 250);
            assert_eq!(try_for, 3000);
        }
        _ => panic!("kind changed"),
    }
}

#[test]
fn test_frame_codec_rejects_bad_bytes() {
    assert!(parse_frame(&Vec::new()).is_none());
    // unknown type byte
    assert!(parse_frame(&vec![99u8, 0, 0]).is_none());
    // length prefix beyond the buffer
    assert!(parse_frame(&vec![6u8, 0, 5]).is_none());
    // a ping payload must be exactly 8 bytes
    assert!(parse_frame(&vec![12u8, 0, 2, 1, 2]).is_none());
}

#[test]
fn test_send_packet_size_boundary() {
    // exactly the limit goes through
    let f = build_send_packet(&key(1), vec![0u8; MAX_PACKET_SIZE]).expect("at the limit");
    let bytes = encode_frame(&f);
    assert_eq!(bytes.len(), 3 + 32 + MAX_PACKET_SIZE);
    // one more byte is refused
    assert!(build_send_packet(&key(1), vec![0u8; MAX_PACKET_SIZE + 1]).is_err());
}

#[test]
fn test_process_incoming_frame_mappings() {
    let m = process_incoming_frame(Frame::KeepAlive).unwrap();
    assert!(matches!(m, ReceivedMessage::KeepAlive));
    let m = process_incoming_frame(Frame::RecvPacket { src_key: key(4), content: b"x".to_vec() })
        .unwrap();
    match m {
        ReceivedMessage::ReceivedPacket { source, data } => {
            assert_eq!(source.as_bytes(), key(4).as_bytes());
            assert_eq!(data, b"x".to_vec());
        }
        _ => panic!("wrong message"),
    }
    // a health problem is always handed up, the empty one included
    let m = process_incoming_frame(Frame::Health { problem: Vec::new() }).unwrap();
    match m {
        ReceivedMessage::Health { problem } => assert_eq!(problem, Some(Vec::new())),
        _ => panic!("wrong message"),
    }
    let m = process_incoming_frame(Frame::Health { problem: b"p".to_vec() }).unwrap();
    assert!(matches!(m, ReceivedMessage::Health { problem: Some(_) }));
    // a health problem that is not text fails the connection
    assert_eq!(
        process_incoming_frame(Frame::Health { problem: vec![0xff, 0xfe] }).unwrap_err(),
        FrameHandleError::BadHealthText
    );
    // frames only a client sends are not accepted from the server
    assert_eq!(
        process_incoming_frame(Frame::SendPacket { dst_key: key(5), packet: Vec::new() })
            .unwrap_err(),
        FrameHandleError::UnexpectedFrame
    );
    assert_eq!(
        process_incoming_frame(Frame::NotePreferred { preferred: false }).unwrap_err(),
        FrameHandleError::UnexpectedFrame
    );
}

#[test]
fn test_client_state_machine() {
    let mut c = RelayClientState::new(false, false);
    assert_eq!(c.connect_decision(), ConnectDecision::Dial);
    c.on_dial_result(true);
    assert_eq!(c.connect_decision(), ConnectDecision::UseExisting);
    assert!(c.is_connected());

    // an unchanged preference sends nothing; a change on a live connection does
    assert!(c.note_preferred(false).is_none());
    let f = c.note_preferred(true).expect("preference changed while connected");
    assert!(matches!(f, Frame::NotePreferred { preferred: true }));

    // a receive failure tears the connection down but keeps the client open
    assert_eq!(c.on_recv_error(), ClientError::Receive);
    assert_eq!(c.connect_decision(), ConnectDecision::Dial);

    // pongs only from a client built for them
    assert_eq!(c.pong_decision(), Err(ClientError::CannotAckPings));
    let c2 = RelayClientState::new(false, true);
    assert_eq!(c2.pong_decision(), Ok(()));

    // closing is final
    c.close();
    assert_eq!(c.connect_decision(), ConnectDecision::Refuse);
    assert_eq!(c.on_recv_error(), ClientError::Closed);
}

#[test]
fn test_client_builder() {
    let b = ClientBuilder::new(RelayUrl::from_bytes(b"https://relay".to_vec()))
        .can_ack_pings(true)
        .is_preferred(true)
        .is_prober(false)
        .protocol(RelayProtocol::Websocket)
        .proxy_url(RelayUrl::from_bytes(b"http://proxy".to_vec()));
    assert_eq!(b.url.as_bytes(), &b"https://relay".to_vec());
    assert_eq!(b.protocol, RelayProtocol::Websocket);
    assert!(b.proxy_url.is_some());
    let state = b.build_state();
    assert!(state.is_preferred);
    assert!(state.can_ack_pings);
    assert!(!state.is_closed && !state.has_conn);

    let b = ClientBuilder::new(RelayUrl::from_bytes(b"https://a".to_vec()))
        .server_url(RelayUrl::from_bytes(b"https://b".to_vec()));
    assert_eq!(b.url.as_bytes(), &b"https://b".to_vec());
    assert_eq!(b.protocol, RelayProtocol::Relay);
}

#[test]
fn test_ping_tracker() {
    let mut t = PingTracker::new();
    t.register(vec![1; 8]);
    t.register(vec![2; 8]);
    assert!(!t.unregister(&vec![3; 8]));
    assert!(t.unregister(&vec![1; 8]));
    assert!(!t.unregister(&vec![1; 8]));
    assert!(t.unregister(&vec![2; 8]));
}

#[test]
fn test_url_helpers() {
    assert_eq!(url_port(UrlScheme::Https, Some(8443)), Some(8443));
    assert_eq!(url_port(UrlScheme::Http, None), Some(80));
    assert_eq!(url_port(UrlScheme::Https, None), Some(443));
    assert_eq!(url_port(UrlScheme::Wss, None), None);
    assert!(use_tls(UrlScheme::Https));
    assert!(use_tls(UrlScheme::Wss));
    assert!(!use_tls(UrlScheme::Http));
    assert!(!use_tls(UrlScheme::Ws));
}

#[test]
fn test_choose_resolved_addr() {
    let v4a = IpAddress::V4(1);
    let v4b = IpAddress::V4(2);
    let v6 = IpAddress::V6(77);
    assert_eq!(choose_resolved_addr(&Vec::new(), false), None);
    assert_eq!(choose_resolved_addr(&vec![v4a, v6], false), Some(v4a));
    assert_eq!(choose_resolved_addr(&vec![v4a, v6], true), Some(v6));
    assert_eq!(choose_resolved_addr(&vec![v4a, v4b], true), Some(v4a));
}

#[test]
fn test_proxy_auth_value() {
    let v = proxy_auth_value(&b"user".to_vec(), &b"pass".to_vec());
    assert_eq!(v, b"Basic dXNlcjpwYXNz".to_vec());
}

#[test]
fn test_rate_limiter_configuration() {
    // zero disables limiting
    assert!(RelayRateLimiter::new(0, 100).unwrap().is_none());
    assert!(RelayRateLimiter::new(100, 0).unwrap().is_none());
    let limiter = RelayRateLimiter::new(1_000_000, 1_000_000).unwrap();
    assert!(limiter.is_some());
    // beyond 32 bits cannot be configured
    assert!(RelayRateLimiter::new(5_000_000_000, 10).is_err());

    // a batch larger than the burst can never pass; one within it gets a
    // clock-dependent answer, but never the can-never-pass one
    let tight = RelayRateLimiter::new(1, 1).unwrap().unwrap();
    assert_eq!(tight.check_n(1000), LimiterDecision::Never);
    assert_eq!(tight.check_n(0), LimiterDecision::Never);
    assert_ne!(tight.check_n(1), LimiterDecision::Never);
}

#[test]
fn test_prepare_send_packet() {
    // no limiter: framed
    let r = prepare_send_packet(&None, &key(6), b"payload".to_vec()).unwrap();
    assert!(r.is_some());
    // too big: an error, limiter or not
    assert!(prepare_send_packet(&None, &key(6), vec![0; MAX_PACKET_SIZE + 1]).is_err());
    // a tight limiter drops the frame instead of erroring
    let tight = RelayRateLimiter::new(1, 1).unwrap();
    let r = prepare_send_packet(&tight, &key(6), b"payload".to_vec()).unwrap();
    assert!(r.is_none());
    // only an Allowed decision passes a frame through
    let f = build_send_packet(&key(6), b"x".to_vec()).unwrap();
    assert!(limiter_gate(f, LimiterDecision::NotNow).is_none());
    let f = build_send_packet(&key(6), b"x".to_vec()).unwrap();
    assert!(limiter_gate(f, LimiterDecision::Allowed).is_some());
}

#[test]
fn test_relay_actor_set_home_marks_one_relay() {
    let mut actor = RelayActorState::new();
    let url_a = RelayUrl::from_bytes(b"https://a".to_vec());
    let url_b = RelayUrl::from_bytes(b"https://b".to_vec());
    let (ia, created_a) = actor.ensure_client(&url_a);
    assert!(created_a);
    let (ib, _) = actor.ensure_client(&url_b);
    actor.on_client_connected(ia, Some(IpAddress::V4(1)));
    actor.on_client_connected(ib, Some(IpAddress::V4(2)));

    let actions = actor.set_home(&url_a);
    assert!(actions
        .iter()
        .any(|a| a.url.as_bytes() == &b"https://a".to_vec() && a.preferred));
    assert!(actions
        .iter()
        .any(|a| a.url.as_bytes() == &b"https://b".to_vec() && !a.preferred));

    // switching homes unmarks the previous one and tells it so
    let actions = actor.set_home(&url_b);
    assert!(actions
        .iter()
        .any(|a| a.url.as_bytes() == &b"https://b".to_vec() && a.preferred));
    assert!(actions
        .iter()
        .any(|a| a.url.as_bytes() == &b"https://a".to_vec() && !a.preferred));
    let preferred: Vec<_> = actor.clients.iter().filter(|c| c.preferred).collect();
    assert_eq!(preferred.len(), 1);
    assert_eq!(preferred[0].url.as_bytes(), &b"https://b".to_vec());
}

#[test]
fn test_relay_actor_close_on_rebind() {
    let mut actor = RelayActorState::new();
    let url_a = RelayUrl::from_bytes(b"https://a".to_vec());
    let url_b = RelayUrl::from_bytes(b"https://b".to_vec());
    let (ia, _) = actor.ensure_client(&url_a);
    let (ib, _) = actor.ensure_client(&url_b);
    actor.on_client_connected(ia, Some(IpAddress::V4(1)));
    actor.on_client_connected(ib, Some(IpAddress::V4(2)));

    // the interface with address 1 is gone after the rebind
    let closed = actor.maybe_close_on_rebind(&vec![IpAddress::V4(2)]);
    assert_eq!(closed.len(), 1);
    assert_eq!(closed[0].as_bytes(), &b"https://a".to_vec());
    assert!(!actor.clients[ia].connected);
    assert!(actor.clients[ib].connected);
}

#[test]
fn test_plan_relay_send() {
    let contents = vec![b"one".to_vec(), b"two".to_vec()];
    let frames = plan_relay_send(&key(7), &contents).unwrap();
    assert_eq!(frames.len(), 2);
    match &frames[1] {
        Frame::SendPacket { dst_key, packet } => {
            assert_eq!(dst_key.as_bytes(), key(7).as_bytes());
            assert_eq!(packet, &b"two".to_vec());
        }
        _ => panic!("expected packet frames"),
    }
    let contents = vec![b"ok".to_vec(), vec![0; MAX_PACKET_SIZE + 1]];
    assert!(plan_relay_send(&key(7), &contents).is_err());
}
