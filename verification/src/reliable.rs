use dashmap::DashMap;
use vstd::prelude::*;

use crate::endpoint::Endpoint;
use crate::trusted::maps::{
    reorder_buffer_contains, reorder_buffer_contents, reorder_buffer_insert, reorder_buffer_new,
    reorder_buffer_remove, unacked_contents, unacked_insert, unacked_keys, unacked_new,
    unacked_remove,
};
use crate::wire::{
    ack_datagram, ack_packet_bytes, deserialize, lemma_deserialize_serialize, read_be_u32, serialize,
    spec_deserialize, spec_serialize, Header, Packet, PacketType, PacketView,
};

verus! {

/// How long a sent packet may stay unacknowledged before it is sent again,
/// in nanoseconds.
pub const RETRANSMIT_TIMEOUT_NS: u64 = 2_000_000_000;

/// An acknowledgement that the receiving side asks the acknowledging task to
/// send: everything up to `ack_num` arrived from `peer_addr`.
#[derive(Clone, Copy, Debug, PartialEq, Eq, Structural)]
pub struct AckInfo {
    pub ack_num: u32,
    pub peer_addr: Endpoint,
}

/// A packet kept for retransmission, with the time it was last sent
/// (nanoseconds on the caller's monotonic clock).
#[derive(Debug)]
pub struct SentPacket {
    pub packet: Packet,
    pub time_sent: u64,
}

pub struct SentPacketView {
    pub packet: PacketView,
    pub time_sent: u64,
}

impl View for SentPacket {
    type V = SentPacketView;

    open spec fn view(&self) -> SentPacketView {
        SentPacketView { packet: self.packet@, time_sent: self.time_sent }
    }
}

/// What the receiving side asks its caller to do after a datagram arrived.
#[derive(Debug)]
pub enum RecvAction {
    /// Hand this packet to the application, in this order.
    Deliver(Packet),
    /// Ask the acknowledging task to acknowledge.
    NotifyAck(AckInfo),
    /// Send this datagram back to where the datagram came from at once.
    SendAck(Vec<u8>),
}

pub enum RecvActionView {
    Deliver(PacketView),
    NotifyAck(AckInfo),
    SendAck(Seq<u8>),
}

impl View for RecvAction {
    type V = RecvActionView;

    open spec fn view(&self) -> RecvActionView {
        match self {
            RecvAction::Deliver(p) => RecvActionView::Deliver(p@),
            RecvAction::NotifyAck(a) => RecvActionView::NotifyAck(*a),
            RecvAction::SendAck(b) => RecvActionView::SendAck(b@),
        }
    }
}

/// The receiving side of the reliable layer: the sequence number it waits
/// for, the last sequence number it handed on, and the packets that came
/// ahead of their turn.
pub struct ReliableOneWayUDP {
    expected_sequence: u32,
    receiver_acknowledged: u32,
    recv_buffer: DashMap<u32, Packet>,
}

pub struct ReceiverView {
    pub expected: u32,
    pub acknowledged: u32,
    pub buffer: Map<u32, PacketView>,
}

impl View for ReliableOneWayUDP {
    type V = ReceiverView;

    closed spec fn view(&self) -> ReceiverView {
        ReceiverView {
            expected: self.expected_sequence,
            acknowledged: self.receiver_acknowledged,
            buffer: reorder_buffer_contents(self.recv_buffer),
        }
    }
}

/// The sending side of the reliable layer: the last sequence number used and
/// the packets sent and not yet acknowledged.
pub struct ReliableOneWayUDPHandle {
    next_seq: u32,
    unacked: DashMap<u32, SentPacket>,
}

pub struct SenderView {
    pub next_seq: u32,
    pub unacked: Map<u32, SentPacketView>,
}

impl View for ReliableOneWayUDPHandle {
    type V = SenderView;

    closed spec fn view(&self) -> SenderView {
        SenderView { next_seq: self.next_seq, unacked: unacked_contents(self.unacked) }
    }
}

/// What a receiver in a reachable state satisfies: every buffered packet is
/// stored under its own sequence number, which lies ahead of the one
/// awaited; and the last number handed on is the one just before it.
pub open spec fn receiver_wf(v: ReceiverView) -> bool {
    &&& forall|k: u32| #[trigger]
        v.buffer.dom().contains(k) ==> k > v.expected && v.buffer[k].seq == k
    &&& (v.acknowledged + 1 == v.expected || (v.expected == 0 && v.acknowledged == 0))
}

/// Every sequence number after `seq` up to the largest one is buffered.
pub open spec fn in_order_run_overflows(buffer: Map<u32, PacketView>, seq: u32) -> bool {
    forall|k: int| seq < k <= u32::MAX ==> #[trigger] buffer.dom().contains(k as u32)
}

/// The datagram would make the receiver count past the largest sequence
/// number: it is the awaited packet, and every later number is buffered.
pub open spec fn recv_overflows(v: ReceiverView, peer: Endpoint, from: Endpoint, bytes: Seq<u8>) -> bool {
    &&& from == peer
    &&& spec_deserialize(bytes) matches Some(p)
    &&& p.seq == v.expected
    &&& in_order_run_overflows(v.buffer, p.seq)
}

/// Receiving can only count past the largest sequence number when that
/// number itself is buffered (or is the one awaited): while it is not, no
/// datagram makes `recv` overflow, however many others are buffered.
pub proof fn lemma_no_overflow_without_last_number(v: ReceiverView, peer: Endpoint, from: Endpoint, bytes: Seq<u8>)
    requires
        v.expected < u32::MAX,
        !v.buffer.dom().contains(u32::MAX),
    ensures
        !recv_overflows(v, peer, from, bytes),
{
    if recv_overflows(v, peer, from, bytes) {
        assert(v.buffer.dom().contains((u32::MAX as int) as u32));
    }
}

/// The datagram overflows only when it is the awaited one from the peer
/// and every later sequence number is buffered; a datagram from anyone
/// else, or one that is not the awaited one, never does.
pub proof fn lemma_overflow_needs_every_later_number(
    v: ReceiverView,
    peer: Endpoint,
    from: Endpoint,
    bytes: Seq<u8>,
    k: int,
)
    requires
        recv_overflows(v, peer, from, bytes),
        v.expected < k <= u32::MAX,
    ensures
        from == peer,
        spec_deserialize(bytes) matches Some(p) && p.seq == v.expected,
        v.buffer.dom().contains(k as u32),
{
}

/// `e` is the first sequence number after `seq` that is not buffered.
pub open spec fn run_end(buffer: Map<u32, PacketView>, seq: u32, e: int) -> bool {
    &&& seq < e <= u32::MAX
    &&& forall|k: int| seq < k < e ==> #[trigger] buffer.dom().contains(k as u32)
    &&& !buffer.dom().contains(e as u32)
}

pub open spec fn numbers_between(lo: u32, hi: int) -> Set<u32> {
    Set::new(|k: u32| lo < k < hi)
}

/// What the receiver does with one datagram from `from` while it talks to
/// `peer`, taking `old` to `new` and asking for `actions`.
///
/// Datagrams from elsewhere, and datagrams shorter than a header, change
/// nothing. The awaited packet is handed on, acknowledged, and followed by
/// every buffered packet that continues it without a gap. A packet ahead of
/// its turn is buffered, and the last number handed on is sent back at once.
/// An old packet is dropped; if it carried no payload, its acknowledgement is
/// passed to the sending side.
pub open spec fn recv_step(
    old: ReceiverView,
    peer: Endpoint,
    from: Endpoint,
    bytes: Seq<u8>,
    new: ReceiverView,
    actions: Seq<RecvActionView>,
) -> bool {
    if from != peer || spec_deserialize(bytes) is None {
        new == old && actions == Seq::<RecvActionView>::empty()
    } else {
        let p = spec_deserialize(bytes).unwrap();
        if p.seq == old.expected {
            let e = new.expected as int;
            &&& run_end(old.buffer, p.seq, e)
            &&& new.acknowledged == e - 1
            &&& new.buffer == old.buffer.remove_keys(numbers_between(p.seq, e))
            &&& actions.len() == e - p.seq + 1
            &&& actions[0] == RecvActionView::Deliver(p)
            &&& actions[1] == RecvActionView::NotifyAck(AckInfo { ack_num: p.seq, peer_addr: from })
            &&& forall|i: int|
                2 <= i < actions.len() ==> #[trigger] actions[i] == RecvActionView::Deliver(
                    old.buffer[(p.seq + i - 1) as u32],
                )
        } else if p.seq > old.expected {
            &&& new == ReceiverView {
                expected: old.expected,
                acknowledged: old.acknowledged,
                buffer: old.buffer.insert(p.seq, p),
            }
            &&& actions == seq![RecvActionView::SendAck(ack_datagram(old.acknowledged))]
        } else {
            &&& new == old
            &&& actions == if p.payload is None || (p.payload matches Some(b) && b.len() == 0) {
                seq![RecvActionView::NotifyAck(AckInfo { ack_num: p.ack, peer_addr: from })]
            } else {
                Seq::<RecvActionView>::empty()
            }
        }
    }
}

/// The packets that `actions` hand to the application, in order.
pub open spec fn deliveries(actions: Seq<RecvActionView>) -> Seq<PacketView>
    decreases actions.len(),
{
    if actions.len() == 0 {
        Seq::empty()
    } else {
        let rest = deliveries(actions.drop_last());
        match actions.last() {
            RecvActionView::Deliver(p) => rest.push(p),
            _ => rest,
        }
    }
}

pub open spec fn is_due(sp: SentPacketView, now: u64) -> bool {
    now >= sp.time_sent && now - sp.time_sent > RETRANSMIT_TIMEOUT_NS
}

/// A kept packet after a retransmission check at `now`: a due one is
/// stamped with `now`, the others stay as they were.
pub open spec fn refreshed(sp: SentPacketView, now: u64) -> SentPacketView {
    if is_due(sp, now) {
        SentPacketView { packet: sp.packet, time_sent: now }
    } else {
        sp
    }
}

/// Every step keeps a receiver well formed: buffered packets stay under
/// their own numbers, ahead of the awaited one, and the last number handed
/// on stays just before the awaited one.
pub proof fn lemma_recv_keeps_wf(
    old: ReceiverView,
    peer: Endpoint,
    from: Endpoint,
    bytes: Seq<u8>,
    new: ReceiverView,
    actions: Seq<RecvActionView>,
)
    requires
        receiver_wf(old),
        recv_step(old, peer, from, bytes, new, actions),
    ensures
        receiver_wf(new),
{
    if from != peer || spec_deserialize(bytes) is None {
    } else {
        let p = spec_deserialize(bytes).unwrap();
        if p.seq == old.expected {
            let e = new.expected as int;
            assert forall|k: u32| #[trigger] new.buffer.dom().contains(k) implies k > new.expected
                && new.buffer[k].seq == k by {
                assert(old.buffer.dom().contains(k));
                assert(!numbers_between(p.seq, e).contains(k));
                if k as int == e {
                    assert(!old.buffer.dom().contains(e as u32));
                }
            }
        } else if p.seq > old.expected {
            assert forall|k: u32| #[trigger] new.buffer.dom().contains(k) implies k > new.expected
                && new.buffer[k].seq == k by {
                if k != p.seq {
                    assert(old.buffer.dom().contains(k));
                }
            }
        }
    }
}

proof fn lemma_deliveries_of_run(
    actions: Seq<RecvActionView>,
    p: PacketView,
    buffer: Map<u32, PacketView>,
    m: int,
)
    requires
        2 <= m <= actions.len(),
        actions[0] == RecvActionView::Deliver(p),
        actions[1] is NotifyAck,
        forall|i: int|
            2 <= i < actions.len() ==> #[trigger] actions[i] == RecvActionView::Deliver(
                buffer[(p.seq + i - 1) as u32],
            ),
        forall|i: int| 2 <= i < actions.len() ==> #[trigger] buffer[(p.seq + i - 1) as u32].seq == p.seq + i - 1,
    ensures
        deliveries(actions.take(m)).len() == m - 1,
        forall|i: int| 0 <= i < m - 1 ==> #[trigger] deliveries(actions.take(m))[i].seq == p.seq + i,
    decreases m,
{
    if m == 2 {
        let a1 = actions.take(1);
        assert(actions.take(2).drop_last() =~= a1);
        assert(a1.drop_last() =~= Seq::<RecvActionView>::empty());
        assert(deliveries(a1.drop_last()) =~= Seq::<PacketView>::empty());
        assert(a1.last() == RecvActionView::Deliver(p));
        assert(deliveries(a1) =~= seq![p]);
        assert(actions.take(2).last() == actions[1]);
        assert(deliveries(actions.take(2)) == deliveries(a1));
    } else {
        lemma_deliveries_of_run(actions, p, buffer, m - 1);
        assert(actions.take(m).drop_last() =~= actions.take(m - 1));
        assert(actions.take(m).last() == actions[m - 1]);
        let q = buffer[(p.seq + (m - 1) - 1) as u32];
        assert(actions[m - 1] == RecvActionView::Deliver(q));
        assert(q.seq == p.seq + (m - 1) - 1);
        assert(deliveries(actions.take(m)) == deliveries(actions.take(m - 1)).push(q));
    }
}

/// In one step the receiver hands on exactly the packets numbered from the
/// awaited one up to (not including) the one it awaits afterwards, in
/// order, and nothing else.
pub proof fn lemma_recv_hands_on_in_order(
    old: ReceiverView,
    peer: Endpoint,
    from: Endpoint,
    bytes: Seq<u8>,
    new: ReceiverView,
    actions: Seq<RecvActionView>,
)
    requires
        receiver_wf(old),
        recv_step(old, peer, from, bytes, new, actions),
    ensures
        old.expected <= new.expected,
        deliveries(actions).len() > 0 ==> from == peer,
        deliveries(actions).len() == new.expected - old.expected,
        forall|i: int|
            0 <= i < deliveries(actions).len() ==> #[trigger] deliveries(actions)[i].seq == old.expected + i,
{
    if from != peer || spec_deserialize(bytes) is None {
        assert(deliveries(actions) =~= Seq::<PacketView>::empty());
    } else {
        let p = spec_deserialize(bytes).unwrap();
        if p.seq == old.expected {
            let e = new.expected as int;
            assert forall|i: int| 2 <= i < actions.len() implies #[trigger] old.buffer[(p.seq + i - 1) as u32].seq
                == p.seq + i - 1 by {
                assert(old.buffer.dom().contains(((p.seq + i - 1) as int) as u32));
            }
            lemma_deliveries_of_run(actions, p, old.buffer, actions.len() as int);
            assert(actions.take(actions.len() as int) =~= actions);
        } else if p.seq > old.expected {
            assert(actions.drop_last() =~= Seq::<RecvActionView>::empty());
            assert(deliveries(actions.drop_last()) =~= Seq::<PacketView>::empty());
            assert(deliveries(actions) =~= Seq::<PacketView>::empty());
        } else {
            if actions.len() > 0 {
                assert(actions.drop_last() =~= Seq::<RecvActionView>::empty());
                assert(deliveries(actions.drop_last()) =~= Seq::<PacketView>::empty());
            }
            assert(deliveries(actions) =~= Seq::<PacketView>::empty());
        }
    }
}

/// A kept packet that was just checked at `now` is not due again at `now`:
/// a check never resends a packet twice within the timeout.
/// A kept packet is due exactly when more than the timeout has passed
/// since it was sent: never at or before `time_sent + RETRANSMIT_TIMEOUT_NS`,
/// always after it.
pub proof fn lemma_due_after_timeout(sp: SentPacketView, now: u64)
    ensures
        now <= sp.time_sent + RETRANSMIT_TIMEOUT_NS ==> !is_due(sp, now),
        now > sp.time_sent + RETRANSMIT_TIMEOUT_NS ==> is_due(sp, now),
{
}

pub proof fn lemma_refreshed_not_due(sp: SentPacketView, now: u64)
    ensures
        !is_due(refreshed(sp, now), now),
{
}

/// Once the receiver has handed anything on, an acknowledgement datagram
/// (as either side sends them) changes nothing and is passed to the sending
/// side as an acknowledgement.
pub proof fn lemma_ack_datagram_is_notified(
    old: ReceiverView,
    peer: Endpoint,
    ack: u32,
    new: ReceiverView,
    actions: Seq<RecvActionView>,
)
    requires
        old.expected > 0,
        recv_step(old, peer, peer, ack_datagram(ack), new, actions),
    ensures
        new == old,
        actions == seq![RecvActionView::NotifyAck(AckInfo { ack_num: ack, peer_addr: peer })],
{
    lemma_deserialize_serialize(PacketView { seq: 0, ack, payload: None });
}

/// Everything a run of steps hands to the application, in order.
pub open spec fn run_deliveries(acts: Seq<Seq<RecvActionView>>) -> Seq<PacketView>
    decreases acts.len(),
{
    if acts.len() == 0 {
        Seq::empty()
    } else {
        run_deliveries(acts.drop_last()) + deliveries(acts.last())
    }
}

/// `states` are the receiver's states along a run in which the datagram
/// `datagrams[i]` from `froms[i]` took `states[i]` to `states[i + 1]` with
/// the actions `acts[i]`, while talking to `peer`.
pub open spec fn is_recv_run(
    states: Seq<ReceiverView>,
    peer: Endpoint,
    froms: Seq<Endpoint>,
    datagrams: Seq<Seq<u8>>,
    acts: Seq<Seq<RecvActionView>>,
) -> bool {
    &&& states.len() == acts.len() + 1
    &&& froms.len() == acts.len()
    &&& datagrams.len() == acts.len()
    &&& forall|i: int|
        0 <= i < acts.len() ==> #[trigger] recv_step(states[i], peer, froms[i], datagrams[i], states[i + 1], acts[i])
}

/// Over any run of datagrams, in any order and with repeats, the receiver
/// hands on the packets numbered from the one it first awaited onwards,
/// each once, in order and without a gap, and only from datagrams of its
/// peer; it ends well formed, awaiting the number after the last one
/// handed on.
pub proof fn lemma_recv_run_in_order(
    states: Seq<ReceiverView>,
    peer: Endpoint,
    froms: Seq<Endpoint>,
    datagrams: Seq<Seq<u8>>,
    acts: Seq<Seq<RecvActionView>>,
)
    requires
        receiver_wf(states[0]),
        is_recv_run(states, peer, froms, datagrams, acts),
    ensures
        receiver_wf(states.last()),
        states[0].expected <= states.last().expected,
        run_deliveries(acts).len() == states.last().expected - states[0].expected,
        forall|j: int|
            0 <= j < run_deliveries(acts).len() ==> #[trigger] run_deliveries(acts)[j].seq == states[0].expected + j,
        forall|i: int| 0 <= i < acts.len() && #[trigger] deliveries(acts[i]).len() > 0 ==> froms[i] == peer,
    decreases acts.len(),
{
    assert forall|i: int| 0 <= i < acts.len() && #[trigger] deliveries(acts[i]).len() > 0 implies froms[i] == peer by {
        assert(recv_step(states[i], peer, froms[i], datagrams[i], states[i + 1], acts[i]));
        if froms[i] != peer {
            assert(deliveries(Seq::<RecvActionView>::empty()) =~= Seq::<PacketView>::empty());
        }
    }
    if acts.len() > 0 {
        let n = acts.len() - 1;
        let (s0, f0, d0, a0) = (states.drop_last(), froms.drop_last(), datagrams.drop_last(), acts.drop_last());
        assert forall|i: int| 0 <= i < a0.len() implies #[trigger] recv_step(s0[i], peer, f0[i], d0[i], s0[i + 1], a0[i]) by {
            assert(recv_step(states[i], peer, froms[i], datagrams[i], states[i + 1], acts[i]));
        }
        lemma_recv_run_in_order(s0, peer, f0, d0, a0);
        assert(recv_step(states[n], peer, froms[n], datagrams[n], states[n + 1], acts[n]));
        lemma_recv_keeps_wf(states[n], peer, froms[n], datagrams[n], states[n + 1], acts[n]);
        lemma_recv_hands_on_in_order(states[n], peer, froms[n], datagrams[n], states[n + 1], acts[n]);
        let before = run_deliveries(a0);
        let step = deliveries(acts[n]);
        assert(run_deliveries(acts) == before + step);
        assert forall|j: int| 0 <= j < run_deliveries(acts).len() implies #[trigger] run_deliveries(acts)[j].seq
            == states[0].expected + j by {
            if j < before.len() {
                assert(run_deliveries(acts)[j] == before[j]);
            } else {
                assert(run_deliveries(acts)[j] == step[j - before.len()]);
            }
        }
    }
}

impl ReliableOneWayUDP {
    /// A fresh pair of sides: nothing awaited but sequence number 0, nothing
    /// buffered, nothing sent.
    pub fn new() -> (r: (ReliableOneWayUDP, ReliableOneWayUDPHandle))
        ensures
            r.0@ == (ReceiverView { expected: 0, acknowledged: 0, buffer: Map::empty() }),
            r.1@ == (SenderView { next_seq: 0, unacked: Map::empty() }),
            receiver_wf(r.0@),
    {
        let receiver = ReliableOneWayUDP {
            expected_sequence: 0,
            receiver_acknowledged: 0,
            recv_buffer: reorder_buffer_new(),
        };
        let handle = ReliableOneWayUDPHandle { next_seq: 0, unacked: unacked_new() };
        assert(receiver@.buffer =~= Map::empty());
        assert(handle@.unacked =~= Map::empty());
        (receiver, handle)
    }

    /// The last sequence number handed on, which the sending side puts in
    /// the packets it sends.
    pub fn receiver_acknowledged(&self) -> (r: u32)
        ensures
            r == self@.acknowledged,
    {
        self.receiver_acknowledged
    }

    /// Whether `recv` would have to count past the largest sequence number
    /// on this datagram.
    pub fn recv_would_overflow(&self, peer_addr: Endpoint, from: Endpoint, datagram: &[u8]) -> (r: bool)
        ensures
            r == recv_overflows(self@, peer_addr, from, datagram@),
            r <==> {
                &&& from == peer_addr
                &&& spec_deserialize(datagram@) is Some
                &&& spec_deserialize(datagram@).unwrap().seq == self@.expected
                &&& forall|k: int| self@.expected < k <= u32::MAX ==> #[trigger] self@.buffer.dom().contains(k as u32)
            },
    {
        if from != peer_addr || datagram.len() < 8 {
            return false;
        }
        let seq = read_be_u32(datagram, 0);
        if seq != self.expected_sequence {
            return false;
        }
        let ghost buffer = self@.buffer;
        let mut k: u32 = seq;
        loop
            invariant
                seq <= k,
                buffer == self@.buffer,
                forall|j: int| seq < j <= k ==> #[trigger] buffer.dom().contains(j as u32),
                seq == spec_deserialize(datagram@).unwrap().seq,
                seq == self@.expected,
                from == peer_addr,
                datagram@.len() >= 8,
            decreases u32::MAX - k,
        {
            if k == u32::MAX {
                return true;
            }
            if !reorder_buffer_contains(&self.recv_buffer, k + 1) {
                assert(!buffer.dom().contains(((k + 1) as int) as u32));
                return false;
            }
            k = k + 1;
        }
    }

    /// Takes one datagram that arrived from `from` while talking to
    /// `peer_addr`, and says what to do about it.
    pub fn recv(&mut self, peer_addr: Endpoint, from: Endpoint, datagram: &[u8]) -> (actions: Vec<RecvAction>)
        requires
            !recv_overflows(old(self)@, peer_addr, from, datagram@),
        ensures
            recv_step(old(self)@, peer_addr, from, datagram@, final(self)@, actions@.map_values(|a: RecvAction| a@)),
            receiver_wf(old(self)@) ==> receiver_wf(final(self)@),
    {
        let ghost old_v = self@;
        let mut actions: Vec<RecvAction> = Vec::new();
        if from != peer_addr {
            assert(actions@.map_values(|a: RecvAction| a@) =~= Seq::<RecvActionView>::empty());
            return actions;
        }
        let packet = match deserialize(datagram) {
            Ok(p) => p,
            Err(_) => {
                assert(actions@.map_values(|a: RecvAction| a@) =~= Seq::<RecvActionView>::empty());
                return actions;
            },
        };
        let ghost p = packet@;
        let seq = packet.header.seq;
        let expected = self.expected_sequence;
        if seq == expected {
            assert(seq < u32::MAX) by {
                if seq == u32::MAX {
                    assert(in_order_run_overflows(old_v.buffer, seq));
                }
            }
            actions.push(RecvAction::Deliver(packet));
            self.expected_sequence = expected + 1;
            self.receiver_acknowledged = seq;
            actions.push(RecvAction::NotifyAck(AckInfo { ack_num: seq, peer_addr: from }));
            let mut next: u32 = seq + 1;
            assert(old_v.buffer.remove_keys(numbers_between(seq, next as int)) =~= old_v.buffer);
            loop
                invariant
                    seq < next <= u32::MAX,
                    seq == p.seq,
                    p == spec_deserialize(datagram@).unwrap(),
                    old_v.expected == seq,
                    !in_order_run_overflows(old_v.buffer, seq),
                    self.expected_sequence == next,
                    self.receiver_acknowledged == next - 1,
                    forall|k: int| seq < k < next ==> #[trigger] old_v.buffer.dom().contains(k as u32),
                    self@.buffer == old_v.buffer.remove_keys(numbers_between(seq, next as int)),
                    actions@.len() == next - seq + 1,
                    actions@[0]@ == RecvActionView::Deliver(p),
                    actions@[1]@ == RecvActionView::NotifyAck(AckInfo { ack_num: seq, peer_addr: from }),
                    forall|i: int|
                        2 <= i < actions@.len() ==> #[trigger] actions@[i]@ == RecvActionView::Deliver(
                            old_v.buffer[(seq + i - 1) as u32],
                        ),
                ensures
                    !old_v.buffer.dom().contains(next),
                    seq < next <= u32::MAX,
                    self.expected_sequence == next,
                    self.receiver_acknowledged == next - 1,
                    forall|k: int| seq < k < next ==> #[trigger] old_v.buffer.dom().contains(k as u32),
                    self@.buffer == old_v.buffer.remove_keys(numbers_between(seq, next as int)),
                    actions@.len() == next - seq + 1,
                    actions@[0]@ == RecvActionView::Deliver(p),
                    actions@[1]@ == RecvActionView::NotifyAck(AckInfo { ack_num: seq, peer_addr: from }),
                    forall|i: int|
                        2 <= i < actions@.len() ==> #[trigger] actions@[i]@ == RecvActionView::Deliver(
                            old_v.buffer[(seq + i - 1) as u32],
                        ),
                decreases u32::MAX - next,
            {
                assert(!numbers_between(seq, next as int).contains(next));
                match reorder_buffer_remove(&mut self.recv_buffer, next) {
                    Some(q) => {
                        assert(old_v.buffer.dom().contains(((next as int) as u32)));
                        assert(next < u32::MAX) by {
                            if next == u32::MAX {
                                assert forall|k: int| seq < k <= u32::MAX implies #[trigger] old_v.buffer.dom().contains(k as u32) by {
                                    if k < next {
                                    } else {
                                        assert(k as u32 == next);
                                    }
                                }
                            }
                        }
                        let ghost before = actions@;
                        actions.push(RecvAction::Deliver(q));
                        self.receiver_acknowledged = self.receiver_acknowledged + 1;
                        self.expected_sequence = self.expected_sequence + 1;
                        next = next + 1;
                        assert(self@.buffer =~= old_v.buffer.remove_keys(numbers_between(seq, next as int)));
                        assert forall|i: int|
                            2 <= i < actions@.len() implies #[trigger] actions@[i]@ == RecvActionView::Deliver(
                                old_v.buffer[(seq + i - 1) as u32],
                            ) by {
                            if i < actions@.len() - 1 {
                                assert(actions@[i] == before[i]);
                            }
                        }
                    },
                    None => {
                        break;
                    },
                }
            }
            proof {
                let acts = actions@.map_values(|a: RecvAction| a@);
                assert(run_end(old_v.buffer, seq, next as int));
                assert forall|i: int| 2 <= i < acts.len() implies #[trigger] acts[i] == RecvActionView::Deliver(
                    old_v.buffer[(seq + i - 1) as u32],
                ) by {
                    assert(acts[i] == actions@[i]@);
                }
            }
        } else if seq > expected {
            let ack = self.receiver_acknowledged;
            reorder_buffer_insert(&mut self.recv_buffer, seq, packet);
            actions.push(RecvAction::SendAck(ack_packet_bytes(ack)));
            assert(actions@.map_values(|a: RecvAction| a@) =~= seq![RecvActionView::SendAck(ack_datagram(ack))]);
        } else {
            let no_payload = match &packet.payload {
                None => true,
                Some(b) => b.len() == 0,
            };
            if no_payload {
                actions.push(RecvAction::NotifyAck(AckInfo { ack_num: packet.header.ack, peer_addr: from }));
                assert(actions@.map_values(|a: RecvAction| a@) =~= seq![RecvActionView::NotifyAck(AckInfo { ack_num: p.ack, peer_addr: from })]);
            } else {
                assert(actions@.map_values(|a: RecvAction| a@) =~= Seq::<RecvActionView>::empty());
            }
        }
        proof {
            if receiver_wf(old_v) {
                lemma_recv_keeps_wf(old_v, peer_addr, from, datagram@, self@, actions@.map_values(|a: RecvAction| a@));
            }
        }
        actions
    }
}

proof fn lemma_take_one_more(s: Seq<u32>, i: int, x: u32)
    requires
        0 <= i < s.len(),
    ensures
        s.take(i + 1).contains(x) <==> (s.take(i).contains(x) || s[i] == x),
{
    if s.take(i + 1).contains(x) {
        let m = choose|m: int| 0 <= m < i + 1 && #[trigger] s.take(i + 1)[m] == x;
        if m < i {
            assert(s.take(i)[m] == x);
        }
    }
    if s.take(i).contains(x) {
        let m = choose|m: int| 0 <= m < i && #[trigger] s.take(i)[m] == x;
        assert(s.take(i + 1)[m] == x);
    }
    if s[i] == x {
        assert(s.take(i + 1)[i] == x);
    }
}

impl ReliableOneWayUDPHandle {
    /// The last sequence number used for a data packet (0 before the first).
    pub fn next_seq(&self) -> (r: u32)
        ensures
            r == self@.next_seq,
    {
        self.next_seq
    }

    /// Takes what the application wants sent. Data gets the next sequence
    /// number and the receiving side's last handed-on number as its
    /// acknowledgement, is kept for retransmission with the time `now`, and
    /// its datagram is returned for sending. An acknowledgement request
    /// sends nothing.
    pub fn send(&mut self, packet_type: PacketType, receiver_acknowledged: u32, now: u64) -> (datagram: Option<Vec<u8>>)
        requires
            packet_type is Data ==> old(self)@.next_seq < u32::MAX,
        ensures
            match packet_type {
                PacketType::Ack { .. } => datagram is None && final(self)@ == old(self)@,
                PacketType::Data { payload } => {
                    let pv = PacketView {
                        seq: (old(self)@.next_seq + 1) as u32,
                        ack: receiver_acknowledged,
                        payload: Some(payload@),
                    };
                    &&& datagram matches Some(d)
                    &&& d@ == spec_serialize(pv)
                    &&& final(self)@.next_seq == old(self)@.next_seq + 1
                    &&& final(self)@.unacked == old(self)@.unacked.insert(
                        pv.seq,
                        SentPacketView { packet: pv, time_sent: now },
                    )
                },
            },
    {
        match packet_type {
            PacketType::Ack { .. } => None,
            PacketType::Data { payload } => {
                let seq = self.next_seq + 1;
                self.next_seq = seq;
                let p = Packet {
                    header: Header { seq, ack: receiver_acknowledged },
                    payload: Some(payload),
                };
                let bytes = serialize(&p);
                unacked_insert(&mut self.unacked, seq, SentPacket { packet: p, time_sent: now });
                Some(bytes)
            },
        }
    }

    /// Looks for kept packets that went unacknowledged for longer than the
    /// timeout at `now`: each is stamped with `now` and its datagram is
    /// returned, with its sequence number, for sending again. The order is
    /// the one the table happens to be walked in.
    pub fn check_retransmission(&mut self, now: u64) -> (out: Vec<(u32, Vec<u8>)>)
        ensures
            final(self)@.next_seq == old(self)@.next_seq,
            final(self)@.unacked.dom() == old(self)@.unacked.dom(),
            forall|k: u32| #[trigger]
                old(self)@.unacked.dom().contains(k) ==> final(self)@.unacked[k] == refreshed(
                    old(self)@.unacked[k],
                    now,
                ),
            out@.map_values(|e: (u32, Vec<u8>)| e.0).no_duplicates(),
            forall|j: int|
                0 <= j < out@.len() ==> {
                    let k = #[trigger] out@[j].0;
                    &&& old(self)@.unacked.dom().contains(k)
                    &&& is_due(old(self)@.unacked[k], now)
                    &&& out@[j].1@ == spec_serialize(old(self)@.unacked[k].packet)
                },
            forall|k: u32| #[trigger]
                old(self)@.unacked.dom().contains(k) && is_due(old(self)@.unacked[k], now) ==> exists|j: int|
                    0 <= j < out@.len() && #[trigger] out@[j].0 == k,
    {
        let ghost old_map = self@.unacked;
        let keys = unacked_keys(&self.unacked);
        let mut out: Vec<(u32, Vec<u8>)> = Vec::new();
        let mut i: usize = 0;
        while i < keys.len()
            invariant
                i <= keys@.len(),
                keys@.no_duplicates(),
                keys@.to_set() == old_map.dom(),
                self@.next_seq == old(self)@.next_seq,
                old_map == old(self)@.unacked,
                self@.unacked.dom() == old_map.dom(),
                forall|k: u32| #[trigger]
                    old_map.dom().contains(k) ==> self@.unacked[k] == if keys@.take(i as int).contains(k) {
                        refreshed(old_map[k], now)
                    } else {
                        old_map[k]
                    },
                out@.map_values(|e: (u32, Vec<u8>)| e.0).no_duplicates(),
                forall|j: int|
                    0 <= j < out@.len() ==> {
                        let k = #[trigger] out@[j].0;
                        &&& keys@.take(i as int).contains(k)
                        &&& old_map.dom().contains(k)
                        &&& is_due(old_map[k], now)
                        &&& out@[j].1@ == spec_serialize(old_map[k].packet)
                    },
                forall|k: u32| #[trigger]
                    keys@.take(i as int).contains(k) && is_due(old_map[k], now) ==> exists|j: int|
                        0 <= j < out@.len() && #[trigger] out@[j].0 == k,
            decreases keys@.len() - i,
        {
            let k = keys[i];
            assert(keys@.to_set().contains(k));
            assert(!keys@.take(i as int).contains(k)) by {
                if keys@.take(i as int).contains(k) {
                    let m = choose|m: int| 0 <= m < i && keys@.take(i as int)[m] == k;
                    assert(keys@[m] == keys@[i as int]);
                }
            }
            assert forall|kk: u32| #[trigger] keys@.take(i + 1).contains(kk) <==> (keys@.take(i as int).contains(kk) || kk == k) by {
                lemma_take_one_more(keys@, i as int, kk);
            }
            let ghost before_map = self@.unacked;
            let ghost before_out = out@;
            match unacked_remove(&mut self.unacked, k) {
                Some(sp) => {
                    let due = now >= sp.time_sent && now - sp.time_sent > RETRANSMIT_TIMEOUT_NS;
                    if due {
                        let bytes = serialize(&sp.packet);
                        out.push((k, bytes));
                        unacked_insert(&mut self.unacked, k, SentPacket { packet: sp.packet, time_sent: now });
                        assert(out@.map_values(|e: (u32, Vec<u8>)| e.0) =~= before_out.map_values(|e: (u32, Vec<u8>)| e.0).push(k));
                        assert forall|kk: u32| #[trigger]
                            keys@.take(i + 1).contains(kk) && is_due(old_map[kk], now) implies exists|j: int|
                                0 <= j < out@.len() && #[trigger] out@[j].0 == kk by {
                            if kk == k {
                                assert(out@[out@.len() - 1].0 == kk);
                            } else {
                                assert(keys@.take(i as int).contains(kk));
                                let j = choose|j: int| 0 <= j < before_out.len() && #[trigger] before_out[j].0 == kk;
                                assert(out@[j].0 == kk);
                            }
                        }
                        assert forall|j: int| 0 <= j < out@.len() implies {
                            let kk = #[trigger] out@[j].0;
                            &&& keys@.take(i + 1).contains(kk)
                            &&& old_map.dom().contains(kk)
                            &&& is_due(old_map[kk], now)
                            &&& out@[j].1@ == spec_serialize(old_map[kk].packet)
                        } by {
                            if j < before_out.len() {
                                assert(out@[j] == before_out[j]);
                            }
                        }
                        assert(out@.map_values(|e: (u32, Vec<u8>)| e.0).no_duplicates()) by {
                            let ks = out@.map_values(|e: (u32, Vec<u8>)| e.0);
                            assert forall|a: int, b: int| 0 <= a < ks.len() && 0 <= b < ks.len() && a != b implies ks[a] != ks[b] by {
                                if a < before_out.len() && b < before_out.len() {
                                    assert(ks[a] == before_out.map_values(|e: (u32, Vec<u8>)| e.0)[a]);
                                    assert(ks[b] == before_out.map_values(|e: (u32, Vec<u8>)| e.0)[b]);
                                } else if a < before_out.len() {
                                    assert(ks[a] == before_out[a].0);
                                    assert(keys@.take(i as int).contains(before_out[a].0));
                                } else {
                                    assert(ks[b] == before_out[b].0);
                                    assert(keys@.take(i as int).contains(before_out[b].0));
                                }
                            }
                        }
                    } else {
                        unacked_insert(&mut self.unacked, k, sp);
                        assert forall|kk: u32| #[trigger]
                            keys@.take(i + 1).contains(kk) && is_due(old_map[kk], now) implies exists|j: int|
                                0 <= j < out@.len() && #[trigger] out@[j].0 == kk by {
                            assert(kk != k);
                            assert(keys@.take(i as int).contains(kk));
                        }
                    }
                    assert(self@.unacked.dom() =~= old_map.dom());
                    assert forall|kk: u32| #[trigger]
                        old_map.dom().contains(kk) implies self@.unacked[kk] == if keys@.take(i + 1).contains(kk) {
                            refreshed(old_map[kk], now)
                        } else {
                            old_map[kk]
                        } by {
                        if kk != k {
                            assert(self@.unacked[kk] == before_map[kk]);
                        }
                    }
                },
                None => {
                    assert(false);
                },
            }
            i = i + 1;
        }
        assert(keys@.take(keys@.len() as int) =~= keys@);
        assert forall|k: u32| #[trigger] old_map.dom().contains(k) implies keys@.contains(k) by {
            assert(keys@.to_set().contains(k));
        }
        out
    }

    /// The datagram that carries one acknowledgement, for the task that
    /// sends acknowledgements as the receiving side asks for them.
    pub fn periodic_acks(ack_info: &AckInfo) -> (datagram: Vec<u8>)
        ensures
            datagram@ == ack_datagram(ack_info.ack_num),
    {
        ack_packet_bytes(ack_info.ack_num)
    }
}

} // verus!
