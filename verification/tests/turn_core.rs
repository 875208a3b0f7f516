use heapless::spsc::Queue;
use p2p_relay::endpoint::Endpoint;
use p2p_relay::turn::{
    completion_action, completion_len, decode_token, encode_token, shard_index, BufferPool,
    CompletionAction, HandleOutcome, OpType, Packet, Session, SessionTable, Shard, ShardRouter,
    SqeType, BUFFER_SIZE, POOL_SIZE, run_n_continues, RUN_N_TIMEOUT_NS,
};

fn v4(last: u8, port: u16) -> Endpoint {
    Endpoint::V4 { ip4: u32::from_be_bytes([127, 0, 0, last]), port }
}

#[test]
fn shard_test() {
    let total_packet_to_be_sent = 10;
    let shard_q = Box::leak(Box::new(Queue::<Packet, 100>::new()));
    let sqe_q = Box::leak(Box::new(Queue::<SqeType, 100>::new()));
    let (mut shard_producer, shard_consumer) = shard_q.split();
    let (producer_sqe, mut cosumer_sqe) = sqe_q.split();
    let mut shard = Shard::new(0, shard_consumer, producer_sqe);
    let src = v4(1, 9090);
    let dest = v4(1, 9090);
    shard.add_session(Session { host_addr: src, peer_addr: dest });
    let p = Packet { buf_idx: 0, len: 10, src };
    for _i in 0..total_packet_to_be_sent {
        let _ = shard_producer.enqueue(p);
    }
    // The shard's bounded run: handle datagrams until ten are done or the
    // time limit passes.
    let start = std::time::Instant::now();
    let mut finished = 0;
    while run_n_continues(finished, total_packet_to_be_sent, start.elapsed().as_nanos().min(u64::MAX as u128) as u64) {
        if shard.poll_once().is_some() {
            finished += 1;
        }
    }
    assert_eq!(finished, total_packet_to_be_sent);
    let mut processed: usize = 0;
    while let Some(item) = cosumer_sqe.dequeue() {
        assert_eq!(item, (dest, 10, 0));
        processed += 1;
    }
    assert_eq!(processed, total_packet_to_be_sent);
}

#[test]
fn shard_forwards_to_the_other_end() {
    let inbox = Box::leak(Box::new(Queue::<Packet, 8>::new()));
    let outbox = Box::leak(Box::new(Queue::<SqeType, 8>::new()));
    let (_p, c) = inbox.split();
    let (out_p, mut out_c) = outbox.split();
    let mut shard = Shard::new(3, c, out_p);
    let host = v4(1, 1000);
    let peer = v4(2, 2000);
    assert_eq!(shard.handle_packet(Packet { buf_idx: 4, len: 7, src: host }), HandleOutcome::NoSession);
    shard.add_session(Session { host_addr: host, peer_addr: peer });
    assert_eq!(shard.handle_packet(Packet { buf_idx: 4, len: 7, src: host }), HandleOutcome::Queued);
    assert_eq!(shard.handle_packet(Packet { buf_idx: 5, len: 8, src: peer }), HandleOutcome::Queued);
    assert_eq!(out_c.dequeue(), Some((peer, 7, 4)));
    assert_eq!(out_c.dequeue(), Some((host, 8, 5)));
    assert_eq!(shard.poll_once(), None);
}

#[test]
fn shard_reports_a_full_outbox() {
    let inbox = Box::leak(Box::new(Queue::<Packet, 4>::new()));
    let outbox = Box::leak(Box::new(Queue::<SqeType, 2>::new()));
    let (_p, c) = inbox.split();
    let (out_p, _out_c) = outbox.split();
    let mut shard = Shard::new(0, c, out_p);
    let host = v4(1, 1);
    shard.add_session(Session { host_addr: host, peer_addr: v4(2, 2) });
    let pkt = Packet { buf_idx: 0, len: 1, src: host };
    assert_eq!(shard.handle_packet(pkt), HandleOutcome::Queued);
    assert_eq!(shard.handle_packet(pkt), HandleOutcome::QueueFull);
}

#[test]
fn route_to_picks_the_other_side() {
    let s = Session { host_addr: v4(1, 1), peer_addr: v4(2, 2) };
    assert_eq!(s.route_to(&v4(1, 1)), Some(v4(2, 2)));
    assert_eq!(s.route_to(&v4(2, 2)), Some(v4(1, 1)));
    assert_eq!(s.route_to(&v4(1, 2)), None);
}

#[test]
fn session_table_tells_endpoints_apart() {
    let mut t = SessionTable::new();
    let a = Endpoint::V6 { ip6: 1, port: 80, flowinfo: 0, scope_id: 0 };
    let b = Endpoint::V6 { ip6: 1, port: 80, flowinfo: 0, scope_id: 1 };
    let c = Endpoint::V4 { ip4: 1, port: 80 };
    let s1 = Session { host_addr: a, peer_addr: c };
    let s2 = Session { host_addr: b, peer_addr: c };
    t.insert(a, s1);
    assert_eq!(t.get(&a), Some(s1));
    assert_eq!(t.get(&b), None);
    assert_eq!(t.get(&c), None);
    t.insert(b, s2);
    t.insert(a, s2);
    assert_eq!(t.get(&a), Some(s2));
    assert_eq!(t.get(&b), Some(s2));
}

#[test]
fn router_spreads_over_its_shards() {
    let q0 = Box::leak(Box::new(Queue::<Packet, 4>::new()));
    let q1 = Box::leak(Box::new(Queue::<Packet, 4>::new()));
    let (p0, mut c0) = q0.split();
    let (p1, mut c1) = q1.split();
    let mut router = ShardRouter::new(vec![p0, p1]);
    let src = v4(9, 99);
    let first = router.shard_for(&src);
    assert!(first < 2);
    assert_eq!(router.shard_for(&src), first);
    assert_eq!(router.route(Packet { buf_idx: 1, len: 2, src }), (first, true));
    let got = if first == 0 { c0.dequeue() } else { c1.dequeue() };
    assert_eq!(got, Some(Packet { buf_idx: 1, len: 2, src }));
    let other = if first == 0 { c1.dequeue() } else { c0.dequeue() };
    assert_eq!(other, None);
    assert_eq!(shard_index(10, 4), 2);
    assert_eq!(shard_index(u64::MAX, 1), 0);
}

#[test]
fn tokens_pack_operation_and_index() {
    assert_eq!(encode_token(OpType::Recv, 5), 5);
    assert_eq!(encode_token(OpType::Send, 5), (1 << 16) | 5);
    assert_eq!(encode_token(OpType::SendNotif, 0xFFFF), (2 << 16) | 0xFFFF);
    for op in [OpType::Recv, OpType::Send, OpType::SendNotif] {
        for idx in [0u16, 1, 1023, u16::MAX] {
            assert_eq!(decode_token(encode_token(op, idx)), (op, idx));
        }
    }
    // unknown codes read as sends
    assert_eq!(decode_token((7 << 16) | 3), (OpType::Send, 3));
}

#[test]
fn completions_decide_buffer_reuse() {
    assert_eq!(completion_action(OpType::Recv, 2), CompletionAction::RouteRecv);
    assert_eq!(completion_action(OpType::Send, 0), CompletionAction::Release);
    assert_eq!(completion_action(OpType::Send, 2), CompletionAction::Keep);
    assert_eq!(completion_action(OpType::Send, 1), CompletionAction::Release);
    assert_eq!(completion_action(OpType::SendNotif, 2), CompletionAction::Release);
    assert_eq!(completion_len(-11), 0);
    assert_eq!(completion_len(1200), 1200);
}

#[test]
fn buffer_pool_free_list_and_slices() {
    let mut pool = BufferPool::default();
    assert!(!pool.is_registered());
    assert_eq!(pool.acquire(), None);
    pool.seed_free_list();
    pool.set_registered();
    assert!(pool.is_registered());
    assert_eq!(pool.acquire(), Some((POOL_SIZE - 1) as u16));
    assert_eq!(pool.acquire(), Some((POOL_SIZE - 2) as u16));
    assert_eq!(BufferPool::buffer_start(3), 3 * BUFFER_SIZE);
    pool.slice_mut(3)[0..3].copy_from_slice(&[7, 8, 9]);
    assert_eq!(pool.slice(3, 4), &[7, 8, 9, 0]);
    assert_eq!(pool.slice(2, 1), &[0]);
    assert_eq!(pool.slice_mut(3).len(), BUFFER_SIZE);
}

#[test]
fn router_drops_into_a_full_inbox() {
    let q0 = Box::leak(Box::new(Queue::<Packet, 2>::new()));
    let (p0, mut c0) = q0.split();
    let mut router = ShardRouter::new(vec![p0]);
    let src = v4(3, 33);
    assert_eq!(router.route(Packet { buf_idx: 1, len: 5, src }), (0, true));
    assert_eq!(router.route(Packet { buf_idx: 2, len: 6, src }), (0, false));
    assert_eq!(c0.dequeue(), Some(Packet { buf_idx: 1, len: 5, src }));
    assert_eq!(c0.dequeue(), None);
}

#[test]
fn shard_drops_what_it_cannot_route() {
    let inbox = Box::leak(Box::new(Queue::<Packet, 4>::new()));
    let outbox = Box::leak(Box::new(Queue::<SqeType, 4>::new()));
    let (_p, c) = inbox.split();
    let (out_p, mut out_c) = outbox.split();
    let mut shard = Shard::new(1, c, out_p);
    let stranger = v4(7, 7);
    assert_eq!(shard.handle_packet(Packet { buf_idx: 0, len: 3, src: stranger }), HandleOutcome::NoSession);
    assert_eq!(out_c.dequeue(), None);
}

#[test]
fn bounded_runs_stop_on_count_or_time() {
    assert!(run_n_continues(0, 10, 0));
    assert!(run_n_continues(9, 10, RUN_N_TIMEOUT_NS));
    assert!(!run_n_continues(10, 10, 0));
    assert!(!run_n_continues(3, 10, RUN_N_TIMEOUT_NS + 1));
    assert_eq!(RUN_N_TIMEOUT_NS, 5_000_000_000);
}

#[test]
fn fresh_buffer_pool_is_zeroed() {
    let pool = BufferPool::default();
    assert_eq!(pool.slice(0, BUFFER_SIZE), &vec![0u8; BUFFER_SIZE][..]);
    assert_eq!(pool.slice((POOL_SIZE - 1) as u16, BUFFER_SIZE), &vec![0u8; BUFFER_SIZE][..]);
}

#[test]
fn acquire_hands_out_each_buffer_once() {
    let mut pool = BufferPool::default();
    pool.seed_free_list();
    let mut seen = vec![false; POOL_SIZE];
    for _ in 0..POOL_SIZE {
        let idx = pool.acquire().expect("a free buffer") as usize;
        assert!(idx < POOL_SIZE);
        assert!(!seen[idx]);
        seen[idx] = true;
    }
    assert_eq!(pool.acquire(), None);
    assert!(seen.iter().all(|s| *s));
}
