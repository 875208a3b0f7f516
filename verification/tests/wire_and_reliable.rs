use p2p_relay::endpoint::Endpoint;
use p2p_relay::reliable::{AckInfo, RecvAction, ReliableOneWayUDP, ReliableOneWayUDPHandle};
use p2p_relay::wire::{deserialize, serialize, Header, Packet, PacketError, PacketType};

fn ep(port: u16) -> Endpoint {
    Endpoint::V4 { ip4: 0x7f00_0001, port }
}

fn datagram(seq: u32, ack: u32, payload: Option<&[u8]>) -> Vec<u8> {
    serialize(&Packet { header: Header { seq, ack }, payload: payload.map(|p| p.to_vec()) })
}

#[test]
fn serialize_lays_out_big_endian_header_then_payload() {
    let p = Packet { header: Header { seq: 0x0102_0304, ack: 0xA0B0_C0D0 }, payload: Some(vec![9, 8, 7]) };
    assert_eq!(serialize(&p), vec![1, 2, 3, 4, 0xA0, 0xB0, 0xC0, 0xD0, 9, 8, 7]);
    let bare = Packet { header: Header { seq: 0, ack: 5 }, payload: None };
    assert_eq!(serialize(&bare), vec![0, 0, 0, 0, 0, 0, 0, 5]);
}

#[test]
fn deserialize_reads_header_and_payload() {
    let p = deserialize(&[0, 0, 1, 0, 0, 0, 0, 2, 0x41, 0x42]).unwrap();
    assert_eq!(p.header, Header { seq: 256, ack: 2 });
    assert_eq!(p.payload, Some(vec![0x41, 0x42]));
    let bare = deserialize(&[0, 0, 0, 7, 0, 0, 0, 9]).unwrap();
    assert_eq!(bare.header, Header { seq: 7, ack: 9 });
    assert_eq!(bare.payload, None);
}

#[test]
fn deserialize_rejects_short_datagrams() {
    assert_eq!(deserialize(&[1, 2, 3]).unwrap_err(), PacketError::TooShort { len: 3 });
    assert_eq!(deserialize(&[]).unwrap_err(), PacketError::TooShort { len: 0 });
}

#[test]
fn wire_roundtrip_both_ways() {
    let p = Packet { header: Header { seq: u32::MAX, ack: 77 }, payload: Some(b"hello".to_vec()) };
    let back = deserialize(&serialize(&p)).unwrap();
    assert_eq!(back.header, p.header);
    assert_eq!(back.payload, p.payload);
    let raw = vec![9u8, 9, 9, 9, 1, 1, 1, 1, 42];
    assert_eq!(serialize(&deserialize(&raw).unwrap()), raw);
    // a present but empty payload comes back absent
    let empty = Packet { header: Header { seq: 1, ack: 1 }, payload: Some(vec![]) };
    assert_eq!(deserialize(&serialize(&empty)).unwrap().payload, None);
}

fn delivered_seqs(actions: &[RecvAction]) -> Vec<u32> {
    actions
        .iter()
        .filter_map(|a| match a {
            RecvAction::Deliver(p) => Some(p.header.seq),
            _ => None,
        })
        .collect()
}

#[test]
fn receiver_hands_on_in_order_after_a_gap() {
    let (mut rx, _tx) = ReliableOneWayUDP::new();
    let peer = ep(9000);
    // 2 and 1 arrive before 0
    let a = rx.recv(peer, peer, &datagram(2, 0, Some(b"c")));
    assert_eq!(a.len(), 1);
    match &a[0] {
        RecvAction::SendAck(bytes) => assert_eq!(bytes, &vec![0, 0, 0, 0, 0, 0, 0, 0]),
        _ => panic!("expected an immediate ack"),
    }
    let b = rx.recv(peer, peer, &datagram(1, 0, Some(b"b")));
    assert!(delivered_seqs(&b).is_empty());
    let c = rx.recv(peer, peer, &datagram(0, 0, Some(b"a")));
    assert_eq!(delivered_seqs(&c), vec![0, 1, 2]);
    match &c[1] {
        RecvAction::NotifyAck(info) => assert_eq!(*info, AckInfo { ack_num: 0, peer_addr: peer }),
        _ => panic!("expected the acknowledgement second"),
    }
    assert_eq!(rx.receiver_acknowledged(), 2);
    // the buffered packets were taken out: a repeat of 1 is now old
    let d = rx.recv(peer, peer, &datagram(1, 0, Some(b"b")));
    assert!(d.is_empty());
}

#[test]
fn receiver_ignores_strangers_and_short_datagrams() {
    let (mut rx, _tx) = ReliableOneWayUDP::new();
    assert!(rx.recv(ep(1), ep(2), &datagram(0, 0, Some(b"x"))).is_empty());
    assert!(rx.recv(ep(1), ep(1), &[0, 0, 0]).is_empty());
    assert_eq!(rx.receiver_acknowledged(), 0);
}

#[test]
fn old_bare_packet_forwards_its_acknowledgement() {
    let (mut rx, _tx) = ReliableOneWayUDP::new();
    let peer = ep(5);
    rx.recv(peer, peer, &datagram(0, 0, Some(b"x")));
    rx.recv(peer, peer, &datagram(1, 0, Some(b"y")));
    let a = rx.recv(peer, peer, &datagram(0, 33, None));
    assert_eq!(a.len(), 1);
    match &a[0] {
        RecvAction::NotifyAck(info) => assert_eq!(info.ack_num, 33),
        _ => panic!("expected an acknowledgement"),
    }
    // an old packet with a payload is just dropped
    assert!(rx.recv(peer, peer, &datagram(0, 33, Some(b"z"))).is_empty());
}

#[test]
fn overflow_check_flags_the_last_sequence_number() {
    let (rx, _tx) = ReliableOneWayUDP::new();
    let peer = ep(5);
    assert!(!rx.recv_would_overflow(peer, peer, &datagram(0, 0, None)));
    assert!(!rx.recv_would_overflow(peer, peer, &datagram(u32::MAX, 0, None)));
    assert!(!rx.recv_would_overflow(peer, ep(6), &datagram(0, 0, None)));
}

#[test]
fn sender_numbers_data_from_one_and_keeps_it() {
    let (_rx, mut tx) = ReliableOneWayUDP::new();
    let d1 = tx.send(PacketType::Data { payload: b"hi".to_vec() }, 4, 100).unwrap();
    assert_eq!(d1, vec![0, 0, 0, 1, 0, 0, 0, 4, b'h', b'i']);
    let d2 = tx.send(PacketType::Data { payload: vec![] }, 4, 100).unwrap();
    assert_eq!(&d2[0..4], &[0, 0, 0, 2]);
    assert_eq!(tx.next_seq(), 2);
    assert!(tx.send(PacketType::Ack { ack: 9 }, 4, 100).is_none());
    assert_eq!(tx.next_seq(), 2);
}

#[test]
fn retransmission_after_the_timeout_only() {
    let (_rx, mut tx) = ReliableOneWayUDP::new();
    tx.send(PacketType::Data { payload: b"a".to_vec() }, 0, 1_000).unwrap();
    tx.send(PacketType::Data { payload: b"b".to_vec() }, 0, 2_500_000_000).unwrap();
    // exactly the timeout is not enough
    assert!(tx.check_retransmission(2_000_001_000).is_empty());
    let mut due = tx.check_retransmission(2_000_001_001);
    due.sort();
    assert_eq!(due.len(), 1);
    assert_eq!(due[0].0, 1);
    assert_eq!(due[0].1, vec![0, 0, 0, 1, 0, 0, 0, 0, b'a']);
    // the packet was stamped with the time of the check
    assert!(tx.check_retransmission(4_000_001_001).is_empty());
    assert_eq!(tx.check_retransmission(4_000_001_002).len(), 1);
    let mut both = tx.check_retransmission(9_000_000_000);
    both.sort();
    assert_eq!(both.iter().map(|e| e.0).collect::<Vec<_>>(), vec![1, 2]);
}

#[test]
fn ack_datagram_carries_the_number() {
    let info = AckInfo { ack_num: 0x0102_0304, peer_addr: ep(1) };
    assert_eq!(ReliableOneWayUDPHandle::periodic_acks(&info), vec![0, 0, 0, 0, 1, 2, 3, 4]);
}

#[test]
fn first_data_packet_is_not_the_one_a_fresh_receiver_awaits() {
    let (mut rx, mut tx) = ReliableOneWayUDP::new();
    let peer = ep(7);
    let d = tx.send(PacketType::Data { payload: b"x".to_vec() }, rx.receiver_acknowledged(), 0).unwrap();
    let a = rx.recv(peer, peer, &d);
    assert!(delivered_seqs(&a).is_empty());
}

#[test]
fn a_second_check_at_the_same_time_resends_nothing() {
    let (_rx, mut tx) = ReliableOneWayUDP::new();
    tx.send(PacketType::Data { payload: b"a".to_vec() }, 0, 0).unwrap();
    assert_eq!(tx.check_retransmission(3_000_000_000).len(), 1);
    assert!(tx.check_retransmission(3_000_000_000).is_empty());
}

#[test]
fn ack_datagrams_go_to_the_sending_side_once_something_was_handed_on() {
    let (mut rx, _tx) = ReliableOneWayUDP::new();
    let peer = ep(11);
    let ack = ReliableOneWayUDPHandle::periodic_acks(&AckInfo { ack_num: 5, peer_addr: peer });
    // a fresh receiver awaits number 0, which an acknowledgement also carries
    assert_eq!(delivered_seqs(&rx.recv(peer, peer, &ack)), vec![0]);
    let a = rx.recv(peer, peer, &ack);
    assert_eq!(a.len(), 1);
    match &a[0] {
        RecvAction::NotifyAck(info) => assert_eq!(*info, AckInfo { ack_num: 5, peer_addr: peer }),
        _ => panic!("expected an acknowledgement"),
    }
}
