use p2p_relay::endpoint::Endpoint;
use p2p_relay::peer::{
    classify_incoming, classify_input, host_reply, is_punch_reply, lobby_join_request, peer_reply,
    ChatIncoming, ChatOutgoing, PeerReply, classify_typed_line, punch_again, still_listening,
    PUNCH_ATTEMPTS, PUNCH_WAIT_NS,
};
use p2p_relay::relay::{
    classify_request, lobby_create, lobby_joined, HandlerOutcome, MessageType, RelayManager,
    RelayRequest, join_reply_plan, RelayDatagram, JOIN_KEEPALIVES,
};
use p2p_relay::sharecode::{code_from_bytes, code_to_bytes};

fn ep(port: u16) -> Endpoint {
    Endpoint::V4 { ip4: 0x0A00_0001, port }
}

#[test]
fn share_codes_read_most_significant_first() {
    let bytes: Vec<u8> = (1..=16).collect();
    assert_eq!(code_from_bytes(&bytes), Some(0x0102_0304_0506_0708_090A_0B0C_0D0E_0F10));
    assert_eq!(code_from_bytes(&bytes[..15]), None);
    assert_eq!(code_to_bytes(0x0102_0304_0506_0708_090A_0B0C_0D0E_0F10), bytes);
    assert_eq!(code_to_bytes(u128::MAX), vec![0xFF; 16]);
    let uuid = uuid::Uuid::from_u128(0xDEAD_BEEF_0000_1111_2222_3333_4444_5555);
    assert_eq!(code_to_bytes(uuid.as_u128()), uuid.as_bytes().to_vec());
}

#[test]
fn relay_classifies_requests() {
    let mut buf = vec![0u8; 64];
    assert_eq!(classify_request(&buf), RelayRequest::Create);
    let join = lobby_join_request(42);
    assert_eq!(join.len(), 17);
    assert_eq!(join[0], 1);
    buf[..17].copy_from_slice(&join);
    assert_eq!(classify_request(&buf), RelayRequest::Join { code: 42 });
    buf[0] = 2;
    assert_eq!(classify_request(&buf), RelayRequest::Echo);
}

#[test]
fn lobby_create_then_join() {
    let mut m: RelayManager<&'static str> = RelayManager::new();
    match m.handler::<u8>(MessageType::JoinLobby(7, ep(2), 1)) {
        HandlerOutcome::NotFound => {}
        _ => panic!("no lobby yet"),
    }
    match m.handler::<u8>(MessageType::CreateLobby(7, ep(1), "stop-host")) {
        HandlerOutcome::Created => {}
        _ => panic!("expected a new lobby"),
    }
    match m.handler::<u8>(MessageType::JoinLobby(7, ep(2), 9)) {
        HandlerOutcome::Joined { reply_to, host_addr, shutdown } => {
            assert_eq!(reply_to, 9);
            assert_eq!(host_addr, ep(1));
            assert_eq!(shutdown, Some("stop-host"));
        }
        _ => panic!("expected a join"),
    }
    match m.handler::<u8>(MessageType::JoinLobby(7, ep(3), 4)) {
        HandlerOutcome::Joined { host_addr, shutdown, .. } => {
            assert_eq!(host_addr, ep(1));
            assert_eq!(shutdown, None);
        }
        _ => panic!("expected a join"),
    }
}

#[test]
fn lobby_trace_records() {
    let r = lobby_create("1.2.3.4:5", "abc");
    assert_eq!(r.span, "LOBBY.CREATE");
    assert_eq!(r.message, "Lobby Created");
    assert_eq!(r.fields, vec![("CODE", "abc"), ("HOST_IP", "1.2.3.4:5")]);
    let j = lobby_joined("9.9.9.9:1", "abc");
    assert_eq!(j.span, "LOBBY.CREATE");
    assert_eq!(j.message, "Lobby Joined!");
    assert_eq!(j.fields, vec![("IP", "9.9.9.9:1"), ("CODE", "abc")]);
}

#[test]
fn peer_reads_relay_replies() {
    let mut buf = [0u8; 32];
    assert!(matches!(peer_reply(&buf, 1), PeerReply::Echo));
    let text = b"10.0.0.1:4000";
    buf[..text.len()].copy_from_slice(text);
    match peer_reply(&buf, text.len()) {
        PeerReply::Text(t) => assert_eq!(t, "10.0.0.1:4000"),
        _ => panic!("expected text"),
    }
    buf[0] = 0xFF;
    assert!(matches!(peer_reply(&buf, 3), PeerReply::NotText));
    assert_eq!(host_reply(b"1.2.3.4:5"), Some("1.2.3.4:5"));
    assert_eq!(host_reply(&[0xC3]), None);
}

#[test]
fn punch_replies_and_chat_messages() {
    assert!(is_punch_reply(&Some(b"HOLE_PUNCH".to_vec())));
    assert!(is_punch_reply(&Some(b"CONNECTED".to_vec())));
    assert!(!is_punch_reply(&Some(b"HELLO".to_vec())));
    assert!(!is_punch_reply(&None));
    let peer = Endpoint::V4 { ip4: 5, port: 1 };
    let same_ip = Endpoint::V4 { ip4: 5, port: 99 };
    let other = Endpoint::V4 { ip4: 6, port: 1 };
    assert!(matches!(classify_incoming(&other, &peer, Some(b"hi".to_vec())), ChatIncoming::Ignore));
    assert!(matches!(classify_incoming(&same_ip, &peer, Some(b"KEEP_ALIVE".to_vec())), ChatIncoming::Ignore));
    assert!(matches!(classify_incoming(&peer, &peer, Some(b"GOODBYE".to_vec())), ChatIncoming::Goodbye));
    assert!(matches!(classify_incoming(&peer, &peer, Some(b"HOLE_PUNCH".to_vec())), ChatIncoming::PunchNoise));
    assert!(matches!(classify_incoming(&peer, &peer, Some(vec![0xFF, 0xFE])), ChatIncoming::Ignore));
    assert!(matches!(classify_incoming(&peer, &peer, None), ChatIncoming::Ignore));
    match classify_incoming(&peer, &peer, Some("héllo".as_bytes().to_vec())) {
        ChatIncoming::Show(s) => assert_eq!(s, "héllo"),
        _ => panic!("expected a message"),
    }
    assert!(matches!(classify_input("exit"), ChatOutgoing::Exit));
    assert!(matches!(classify_input(""), ChatOutgoing::Skip));
    match classify_input("hey") {
        ChatOutgoing::Send(b) => assert_eq!(b, b"hey".to_vec()),
        _ => panic!("expected a send"),
    }
}

#[test]
fn endpoints_compare_addresses() {
    let a = Endpoint::V4 { ip4: 1, port: 1 };
    assert!(a.same_ip(&Endpoint::V4 { ip4: 1, port: 2 }));
    assert!(!a.same_ip(&Endpoint::V6 { ip6: 1, port: 1, flowinfo: 0, scope_id: 0 }));
    assert_eq!(Endpoint::unspecified(), Endpoint::V4 { ip4: 0, port: 0 });
}

#[test]
fn join_reply_sends_keepalives_then_both_addresses() {
    let joiner = ep(4000);
    let host = ep(5000);
    let plan = join_reply_plan(joiner, host);
    assert_eq!(plan.len(), JOIN_KEEPALIVES + 2);
    for i in 0..JOIN_KEEPALIVES {
        assert_eq!(plan[i], (joiner, RelayDatagram::KeepAlive));
    }
    assert_eq!(plan[5], (joiner, RelayDatagram::AddressOf(host)));
    assert_eq!(plan[6], (host, RelayDatagram::AddressOf(joiner)));
}

#[test]
fn punching_sends_six_and_listens_five_seconds() {
    assert_eq!(PUNCH_ATTEMPTS, 6);
    let mut sent = 0;
    while punch_again(sent) {
        sent += 1;
    }
    assert_eq!(sent, 6);
    assert!(still_listening(0));
    assert!(still_listening(PUNCH_WAIT_NS - 1));
    assert!(!still_listening(PUNCH_WAIT_NS));
}

#[test]
fn typed_lines_are_trimmed_first() {
    assert!(matches!(classify_typed_line("  exit \n"), ChatOutgoing::Exit));
    assert!(matches!(classify_typed_line(" \t\n"), ChatOutgoing::Skip));
    match classify_typed_line("  hi there \r\n") {
        ChatOutgoing::Send(b) => assert_eq!(b, b"hi there".to_vec()),
        _ => panic!("expected a line to send"),
    }
    assert!(matches!(classify_typed_line("exits"), ChatOutgoing::Send(_)));
    assert!(matches!(classify_typed_line("\u{3000}exit\u{85}\u{a0}"), ChatOutgoing::Exit));
    match classify_typed_line("\u{2003}a b\u{200b}") {
        // U+200B is not white space, so it stays
        ChatOutgoing::Send(b) => assert_eq!(b, "a b\u{200b}".as_bytes().to_vec()),
        _ => panic!("expected a line to send"),
    }
}
