use heapless::spsc::{Consumer, Producer};
use std::collections::HashMap;
use vstd::prelude::*;
use vstd::arithmetic::div_mod::lemma_fundamental_div_mod_converse;

use crate::endpoint::Endpoint;
use crate::trusted::hashing::endpoint_ahash;
use crate::trusted::queues::{queue_dequeue, queue_enqueue};
use crate::trusted::uring::cqe_more;

verus! {

broadcast use vstd::std_specs::hash::group_hash_axioms;

/// Shards of the forwarding core, one per core ideally.
pub const NUM_SHARDS: usize = 1;

/// Size of one packet buffer: the usual MTU.
pub const BUFFER_SIZE: usize = 1500;

/// Buffers in the pool.
pub const POOL_SIZE: usize = 1024;

/// A send request from a shard to the ring loop: destination, length, and
/// the buffer that holds the bytes.
pub type SqeType = (Endpoint, usize, u16);

/// A datagram that arrived: which buffer holds it, how long it is, and who
/// sent it.
#[derive(Clone, Copy, Debug, PartialEq, Eq, Structural)]
pub struct Packet {
    pub buf_idx: u16,
    pub len: usize,
    pub src: Endpoint,
}

/// One relayed pair: whatever one side sends goes to the other.
#[derive(Clone, Copy, Debug, PartialEq, Eq, Structural)]
pub struct Session {
    pub host_addr: Endpoint,
    pub peer_addr: Endpoint,
}

/// Where a datagram from `src` goes within `s`, if `src` is one of its ends.
pub open spec fn spec_route_to(s: Session, src: Endpoint) -> Option<Endpoint> {
    if src == s.host_addr {
        Some(s.peer_addr)
    } else if src == s.peer_addr {
        Some(s.host_addr)
    } else {
        None
    }
}

impl Session {
    /// The other end of the session, seen from `src`.
    pub fn route_to(&self, src: &Endpoint) -> (r: Option<Endpoint>)
        ensures
            r == spec_route_to(*self, *src),
    {
        if *src == self.host_addr {
            Some(self.peer_addr)
        } else if *src == self.peer_addr {
            Some(self.host_addr)
        } else {
            None
        }
    }
}

// ------------------------------------------------------------------
// Session table, keyed by endpoint through two integer keys.
// ------------------------------------------------------------------

/// First key of an endpoint: its address.
pub open spec fn key_hi(e: Endpoint) -> u128 {
    match e {
        Endpoint::V4 { ip4, .. } => ip4 as u128,
        Endpoint::V6 { ip6, .. } => ip6,
    }
}

/// Second key of an endpoint: its port (and, for IPv6, a marker bit above
/// the flow label and scope).
pub open spec fn key_lo(e: Endpoint) -> u128 {
    match e {
        Endpoint::V4 { port, .. } => port as u128,
        Endpoint::V6 { port, flowinfo, scope_id, .. } => (0x1_0000_0000_0000_0000_0000_0000
            + port * 0x1_0000_0000_0000_0000 + flowinfo * 0x1_0000_0000 + scope_id) as u128,
    }
}

proof fn lemma_keys_identify(a: Endpoint, b: Endpoint)
    requires
        key_hi(a) == key_hi(b),
        key_lo(a) == key_lo(b),
    ensures
        a == b,
{
    match (a, b) {
        (Endpoint::V6 { port: p1, flowinfo: f1, scope_id: s1, .. }, Endpoint::V6 { port: p2, flowinfo: f2, scope_id: s2, .. }) => {
            let x1 = p1 * 0x1_0000_0000_0000_0000 + f1 * 0x1_0000_0000 + s1;
            let x2 = p2 * 0x1_0000_0000_0000_0000 + f2 * 0x1_0000_0000 + s2;
            assert(x1 == x2);
            lemma_fundamental_div_mod_converse(x1, 0x1_0000_0000_0000_0000, p1 as int, f1 * 0x1_0000_0000 + s1);
            lemma_fundamental_div_mod_converse(x2, 0x1_0000_0000_0000_0000, p2 as int, f2 * 0x1_0000_0000 + s2);
            lemma_fundamental_div_mod_converse(f1 * 0x1_0000_0000 + s1, 0x1_0000_0000, f1 as int, s1 as int);
            lemma_fundamental_div_mod_converse(f2 * 0x1_0000_0000 + s2, 0x1_0000_0000, f2 as int, s2 as int);
        },
        _ => {},
    }
}

fn endpoint_key_hi(e: &Endpoint) -> (k: u128)
    ensures
        k == key_hi(*e),
{
    match *e {
        Endpoint::V4 { ip4, .. } => ip4 as u128,
        Endpoint::V6 { ip6, .. } => ip6,
    }
}

fn endpoint_key_lo(e: &Endpoint) -> (k: u128)
    ensures
        k == key_lo(*e),
{
    match *e {
        Endpoint::V4 { port, .. } => port as u128,
        Endpoint::V6 { port, flowinfo, scope_id, .. } => 0x1_0000_0000_0000_0000_0000_0000u128
            + (port as u128) * 0x1_0000_0000_0000_0000u128 + (flowinfo as u128) * 0x1_0000_0000u128
            + (scope_id as u128),
    }
}

/// Sessions by the endpoints they relay for.
pub struct SessionTable {
    by_ip: HashMap<u128, HashMap<u128, Session>>,
}

impl View for SessionTable {
    type V = Map<Endpoint, Session>;

    closed spec fn view(&self) -> Map<Endpoint, Session> {
        Map::new(
            |e: Endpoint|
                self.by_ip@.contains_key(key_hi(e)) && self.by_ip@[key_hi(e)]@.contains_key(key_lo(e)),
            |e: Endpoint| self.by_ip@[key_hi(e)]@[key_lo(e)],
        )
    }
}

impl SessionTable {
    pub fn new() -> (t: SessionTable)
        ensures
            t@ == Map::<Endpoint, Session>::empty(),
    {
        let t = SessionTable { by_ip: HashMap::new() };
        assert(t@ =~= Map::<Endpoint, Session>::empty());
        t
    }

    /// The session registered for `e`, if any.
    pub fn get(&self, e: &Endpoint) -> (r: Option<Session>)
        ensures
            r == (if self@.contains_key(*e) {
                Some(self@[*e])
            } else {
                None
            }),
    {
        let hi = endpoint_key_hi(e);
        let lo = endpoint_key_lo(e);
        match self.by_ip.get(&hi) {
            None => None,
            Some(inner) => match inner.get(&lo) {
                Some(s) => Some(*s),
                None => None,
            },
        }
    }

    /// Registers `s` for `e`, replacing what was there.
    pub fn insert(&mut self, e: Endpoint, s: Session)
        ensures
            final(self)@ == old(self)@.insert(e, s),
    {
        let hi = endpoint_key_hi(&e);
        let lo = endpoint_key_lo(&e);
        let ghost old_outer = self.by_ip@;
        let mut inner = match self.by_ip.remove(&hi) {
            Some(m) => m,
            None => HashMap::new(),
        };
        let ghost old_inner = inner@;
        inner.insert(lo, s);
        self.by_ip.insert(hi, inner);
        assert forall|x: Endpoint| #![auto] true implies (final(self)@.contains_key(x) == old(self)@.insert(e, s).contains_key(x)) && (final(self)@.contains_key(x) ==> final(self)@[x] == old(self)@.insert(e, s)[x]) by {
            if key_hi(x) == key_hi(e) && key_lo(x) == key_lo(e) {
                lemma_keys_identify(x, e);
            }
        }
        assert(final(self)@ =~= old(self)@.insert(e, s));
    }
}

// ------------------------------------------------------------------
// Shards.
// ------------------------------------------------------------------

/// How long a bounded run of a shard may last, in nanoseconds.
pub const RUN_N_TIMEOUT_NS: u64 = 5_000_000_000;

/// Whether a run that is to handle `n` datagrams goes on after it handled
/// `finished` of them in `elapsed_ns`: while some are left and the time
/// limit has not passed.
pub fn run_n_continues(finished: usize, n: usize, elapsed_ns: u64) -> (r: bool)
    ensures
        r == (finished < n && elapsed_ns <= RUN_N_TIMEOUT_NS),
{
    finished < n && elapsed_ns <= RUN_N_TIMEOUT_NS
}

/// What became of one datagram handed to a shard.
#[derive(Clone, Copy, Debug, PartialEq, Eq, Structural)]
pub enum HandleOutcome {
    /// No session knows the sender: dropped.
    NoSession,
    /// A session knows the sender but does not route it: dropped.
    Unroutable,
    /// The send request was queued for the ring loop.
    Queued,
    /// The send request could not be queued: the queue was full.
    QueueFull,
}

/// The sessions of a table are registered under their own ends.
pub open spec fn table_wf(t: Map<Endpoint, Session>) -> bool {
    forall|e: Endpoint| #[trigger]
        t.contains_key(e) ==> e == t[e].host_addr || e == t[e].peer_addr
}

/// The send request for `p` that a table routes it to, if any.
pub open spec fn spec_route_packet(t: Map<Endpoint, Session>, p: Packet) -> Option<SqeType> {
    if t.contains_key(p.src) {
        match spec_route_to(t[p.src], p.src) {
            Some(dst) => Some((dst, p.len, p.buf_idx)),
            None => None,
        }
    } else {
        None
    }
}

/// The producing end of a shard queue, with the log of every item offered
/// to it and the history of every item it queued. The items leave the
/// queue on another thread, so the history is what was handed over, not
/// what the queue still holds.
#[verifier::reject_recursive_types(T)]
pub struct Outbox<'a, T> {
    producer: Producer<'a, T>,
    source: Ghost<Producer<'a, T>>,
    offered: Ghost<Seq<T>>,
    queued: Ghost<Seq<T>>,
}

impl<'a, T> Outbox<'a, T> {
    /// Everything queued through this end so far, oldest first.
    pub closed spec fn history(&self) -> Seq<T> {
        self.queued@
    }

    /// The producing end this outbox was made from, which names the queue
    /// its items go to.
    pub closed spec fn source(&self) -> Producer<'a, T> {
        self.source@
    }

    /// Everything offered to the queue so far, whether or not it was taken,
    /// oldest first.
    pub closed spec fn offers(&self) -> Seq<T> {
        self.offered@
    }

    /// A producing end that has been offered nothing yet.
    pub fn new(producer: Producer<'a, T>) -> (o: Self)
        ensures
            o.source() == producer,
            o.history() == Seq::<T>::empty(),
            o.offers() == Seq::<T>::empty(),
    {
        let ghost source = producer;
        Outbox { producer, source: Ghost(source), offered: Ghost(Seq::empty()), queued: Ghost(Seq::empty()) }
    }

    /// Offers `item` to the queue, which logs the offer: on success it is
    /// appended to the history; when the queue is full it comes back
    /// unchanged and nothing is queued.
    pub fn offer(&mut self, item: T) -> (r: Result<(), T>)
        ensures
            final(self).source() == old(self).source(),
            final(self).offers() == old(self).offers().push(item),
            match r {
                Ok(()) => final(self).history() == old(self).history().push(item),
                Err(back) => back == item && final(self).history() == old(self).history(),
            },
    {
        let ghost it = item;
        proof {
            self.offered = Ghost(self.offered@.push(it));
        }
        let r = queue_enqueue(&mut self.producer, item);
        match r {
            Ok(()) => {
                proof {
                    self.queued = Ghost(self.queued@.push(it));
                }
                Ok(())
            },
            Err(back) => Err(back),
        }
    }
}

/// The consuming end of a shard's inbox, with the log of every item taken
/// from it. The inbox is filled by another thread, so what it holds is not
/// known here; what was taken out is.
#[verifier::reject_recursive_types(T)]
pub struct Inbox<'a, T> {
    consumer: Consumer<'a, T>,
    taken: Ghost<Seq<T>>,
}

impl<'a, T> Inbox<'a, T> {
    /// Everything taken from the inbox so far, oldest first.
    pub closed spec fn taken(&self) -> Seq<T> {
        self.taken@
    }

    /// An inbox from which nothing has been taken yet.
    pub fn new(consumer: Consumer<'a, T>) -> (i: Self)
        ensures
            i.taken() == Seq::<T>::empty(),
    {
        Inbox { consumer, taken: Ghost(Seq::empty()) }
    }

    /// Takes the oldest waiting item, if any; an item that comes out is
    /// logged, and `None` leaves the log as it was.
    pub fn take(&mut self) -> (r: Option<T>)
        ensures
            match r {
                Some(item) => final(self).taken() == old(self).taken().push(item),
                None => final(self).taken() == old(self).taken(),
            },
    {
        let r = queue_dequeue(&mut self.consumer);
        match r {
            Some(item) => {
                proof {
                    self.taken = Ghost(self.taken@.push(item));
                }
                Some(item)
            },
            None => None,
        }
    }
}

/// What handling `p` with table `t` may come to: dropped exactly when no
/// session knows the sender, unroutable exactly when the session does not
/// route it, and otherwise queued or refused by a full queue.
pub open spec fn outcome_fits(t: Map<Endpoint, Session>, p: Packet, o: HandleOutcome) -> bool {
    &&& (!t.contains_key(p.src) <==> o == HandleOutcome::NoSession)
    &&& ((t.contains_key(p.src) && spec_route_packet(t, p) is None) <==> o == HandleOutcome::Unroutable)
    &&& (spec_route_packet(t, p) is Some <==> (o == HandleOutcome::Queued || o == HandleOutcome::QueueFull))
}

/// The offer log after `p` was handled with table `t`: the routed send
/// request is offered once, and an unrouted datagram offers nothing.
pub open spec fn offers_after(t: Map<Endpoint, Session>, p: Packet, before: Seq<SqeType>) -> Seq<SqeType> {
    match spec_route_packet(t, p) {
        Some(req) => before.push(req),
        None => before,
    }
}

/// Handling `p` with table `t` came to `o`, took the offer log from
/// `offers_before` to `offers_after` and the outbox history from `before`
/// to `after`: the routed send request, and nothing else, is offered;
/// exactly that request is queued when the outcome is `Queued`, and nothing
/// is queued otherwise.
pub open spec fn forwarded(
    t: Map<Endpoint, Session>,
    p: Packet,
    o: HandleOutcome,
    offers_before: Seq<SqeType>,
    offers_now: Seq<SqeType>,
    before: Seq<SqeType>,
    after: Seq<SqeType>,
) -> bool {
    &&& outcome_fits(t, p, o)
    &&& offers_now == offers_after(t, p, offers_before)
    &&& match spec_route_packet(t, p) {
        Some(req) => if o == HandleOutcome::Queued {
            after == before.push(req)
        } else {
            after == before
        },
        None => after == before,
    }
}

/// A forwarding shard: it takes datagrams from its inbox, looks their
/// senders up in its own session table, and queues send requests to the
/// other end for the ring loop. Nothing in it is shared, so it needs no
/// locks.
pub struct Shard<'a> {
    pub id: usize,
    recv: Inbox<'a, Packet>,
    session_table: SessionTable,
    tx_out: Outbox<'a, SqeType>,
}

impl<'a> Shard<'a> {
    pub closed spec fn sessions(&self) -> Map<Endpoint, Session> {
        self.session_table@
    }

    pub closed spec fn shard_id(&self) -> usize {
        self.id
    }

    /// Every datagram this shard took from its inbox, oldest first.
    pub closed spec fn taken(&self) -> Seq<Packet> {
        self.recv.taken()
    }

    /// Every send request this shard queued for the ring loop, oldest first.
    pub closed spec fn queued(&self) -> Seq<SqeType> {
        self.tx_out.history()
    }

    /// Every send request this shard offered to the ring loop's queue,
    /// taken or not, oldest first.
    pub closed spec fn offered(&self) -> Seq<SqeType> {
        self.tx_out.offers()
    }

    /// A shard with no sessions.
    pub fn new(id: usize, recv: Consumer<'a, Packet>, tx_out: Producer<'a, SqeType>) -> (s: Self)
        ensures
            s.shard_id() == id,
            s.sessions() == Map::<Endpoint, Session>::empty(),
            table_wf(s.sessions()),
            s.queued() == Seq::<SqeType>::empty(),
            s.offered() == Seq::<SqeType>::empty(),
            s.taken() == Seq::<Packet>::empty(),
    {
        Shard { id, recv: Inbox::new(recv), session_table: SessionTable::new(), tx_out: Outbox::new(tx_out) }
    }

    /// Registers a session under both of its ends.
    pub fn add_session(&mut self, session: Session)
        ensures
            final(self).shard_id() == old(self).shard_id(),
            final(self).sessions() == old(self).sessions().insert(session.host_addr, session).insert(
                session.peer_addr,
                session,
            ),
            table_wf(old(self).sessions()) ==> table_wf(final(self).sessions()),
            final(self).queued() == old(self).queued(),
            final(self).offered() == old(self).offered(),
            final(self).taken() == old(self).taken(),
    {
        self.session_table.insert(session.host_addr, session);
        self.session_table.insert(session.peer_addr, session);
    }

    /// The send request a datagram turns into, if its sender belongs to a
    /// session.
    pub fn route_packet(&self, packet: &Packet) -> (r: Option<SqeType>)
        ensures
            r == spec_route_packet(self.sessions(), *packet),
    {
        match self.session_table.get(&packet.src) {
            Some(session) => match session.route_to(&packet.src) {
                Some(dst) => Some((dst, packet.len, packet.buf_idx)),
                None => None,
            },
            None => None,
        }
    }

    /// Forwards one datagram: its send request, if it has one, is offered
    /// to the ring loop's queue, and queued unless that queue is full.
    pub fn handle_packet(&mut self, packet: Packet) -> (r: HandleOutcome)
        ensures
            final(self).shard_id() == old(self).shard_id(),
            final(self).sessions() == old(self).sessions(),
            final(self).taken() == old(self).taken(),
            forwarded(
                old(self).sessions(),
                packet,
                r,
                old(self).offered(),
                final(self).offered(),
                old(self).queued(),
                final(self).queued(),
            ),
    {
        match self.route_packet(&packet) {
            Some(request) => match self.tx_out.offer(request) {
                Ok(()) => HandleOutcome::Queued,
                Err(_) => HandleOutcome::QueueFull,
            },
            None => match self.session_table.get(&packet.src) {
                Some(_) => HandleOutcome::Unroutable,
                None => HandleOutcome::NoSession,
            },
        }
    }

    /// Takes the next datagram from the inbox, if one is waiting, and
    /// forwards it; returns the datagram with what became of it. Whether a
    /// datagram is waiting is up to the thread that fills the inbox, so
    /// `None` is never ruled out; what happens to a datagram that came out
    /// is `handle_packet`'s contract.
    pub fn poll_once(&mut self) -> (r: Option<(Packet, HandleOutcome)>)
        ensures
            final(self).shard_id() == old(self).shard_id(),
            final(self).sessions() == old(self).sessions(),
            r is None ==> final(self).queued() == old(self).queued() && final(self).offered() == old(
                self,
            ).offered() && final(self).taken() == old(self).taken(),
            r matches Some((p, o)) ==> final(self).taken() == old(self).taken().push(p),
            r matches Some((p, o)) ==> forwarded(
                old(self).sessions(),
                p,
                o,
                old(self).offered(),
                final(self).offered(),
                old(self).queued(),
                final(self).queued(),
            ),
    {
        match self.recv.take() {
            Some(packet) => {
                let outcome = self.handle_packet(packet);
                Some((packet, outcome))
            },
            None => None,
        }
    }
}

/// A datagram from a registered endpoint of a well-formed table is always
/// routed, to the other end of its session.
pub proof fn lemma_registered_sender_is_routed(t: Map<Endpoint, Session>, p: Packet)
    requires
        table_wf(t),
        t.contains_key(p.src),
    ensures
        spec_route_packet(t, p) matches Some(r) && r.1 == p.len && r.2 == p.buf_idx && (if p.src
            == t[p.src].host_addr {
            r.0 == t[p.src].peer_addr
        } else {
            r.0 == t[p.src].host_addr
        }),
{
}

/// After a session is added, each of its ends is routed to the other one
/// (to itself when both ends are the same).
pub proof fn lemma_added_session_routes_both_ways(t: Map<Endpoint, Session>, s: Session, len: usize, buf_idx: u16)
    ensures
        ({
            let t2 = t.insert(s.host_addr, s).insert(s.peer_addr, s);
            &&& spec_route_packet(t2, Packet { buf_idx, len, src: s.host_addr }) == Some((s.peer_addr, len, buf_idx))
            &&& spec_route_packet(t2, Packet { buf_idx, len, src: s.peer_addr }) == Some((s.host_addr, len, buf_idx))
        }),
{
}

// ------------------------------------------------------------------
// Shard router.
// ------------------------------------------------------------------

/// The shard a hash picks among `n`.
pub open spec fn spec_shard_index(hash: u64, n: usize) -> usize
    recommends
        n > 0,
{
    ((hash as usize) % n) as usize
}

/// The shard a hash picks among `n`: the hash, taken as a machine word,
/// modulo `n`.
pub fn shard_index(hash: u64, n: usize) -> (r: usize)
    requires
        n > 0,
    ensures
        r == spec_shard_index(hash, n),
        r < n,
{
    (hash as usize) % n
}

/// Hands each datagram to a shard by a hash of its sender, so that all
/// traffic of one sender lands on the same shard.
pub struct ShardRouter<'a> {
    senders: Vec<Outbox<'a, Packet>>,
}

impl<'a> ShardRouter<'a> {
    pub closed spec fn shard_count(&self) -> nat {
        self.senders@.len()
    }

    /// What was queued to each shard so far, by shard index.
    pub closed spec fn histories(&self) -> Seq<Seq<Packet>> {
        self.senders@.map_values(|o: Outbox<'a, Packet>| o.history())
    }

    /// The producing end behind each shard index, in the order the router
    /// was given them.
    pub closed spec fn sources(&self) -> Seq<Producer<'a, Packet>> {
        self.senders@.map_values(|o: Outbox<'a, Packet>| o.source())
    }

    /// What was offered to each shard so far, taken or not, by shard index.
    pub closed spec fn offer_logs(&self) -> Seq<Seq<Packet>> {
        self.senders@.map_values(|o: Outbox<'a, Packet>| o.offers())
    }

    /// A router over the given shard inboxes, in that order, with nothing
    /// queued yet.
    pub fn new(senders: Vec<Producer<'a, Packet>>) -> (r: Self)
        ensures
            r.shard_count() == senders@.len(),
            r.sources() == senders@,
            forall|i: int| 0 <= i < r.shard_count() ==> #[trigger] r.histories()[i] == Seq::<Packet>::empty(),
            forall|i: int| 0 <= i < r.shard_count() ==> #[trigger] r.offer_logs()[i] == Seq::<Packet>::empty(),
    {
        let ghost given = senders@;
        let mut senders = senders;
        let ghost n = senders@.len();
        let mut outboxes: Vec<Outbox<'a, Packet>> = Vec::new();
        while senders.len() > 0
            invariant
                outboxes@.len() + senders@.len() == n,
                n == given.len(),
                senders@ == given.subrange(outboxes@.len() as int, n as int),
                forall|i: int| 0 <= i < outboxes@.len() ==> #[trigger] outboxes@[i].source() == given[i],
                forall|i: int| 0 <= i < outboxes@.len() ==> #[trigger] outboxes@[i].history() == Seq::<Packet>::empty(),
                forall|i: int| 0 <= i < outboxes@.len() ==> #[trigger] outboxes@[i].offers() == Seq::<Packet>::empty(),
            decreases senders@.len(),
        {
            let ghost done = outboxes@.len();
            let p = senders.remove(0);
            assert(p == given[done as int]);
            outboxes.push(Outbox::new(p));
            assert(senders@ =~= given.subrange(outboxes@.len() as int, n as int));
        }
        let r = ShardRouter { senders: outboxes };
        assert(r.sources() =~= given);
        r
    }

    /// The shard for datagrams from `addr`: `shard_index` of the address's
    /// ahash, whose value this process's hasher seeds decide, so only the
    /// range of the result is stated.
    pub fn shard_for(&self, addr: &Endpoint) -> (r: usize)
        requires
            self.shard_count() > 0,
        ensures
            r < self.shard_count(),
    {
        let h = endpoint_ahash(addr);
        shard_index(h, self.senders.len())
    }

    /// Offers a datagram to the inbox of its shard (the one `shard_for`
    /// picks) and returns that shard's index, with whether the datagram was
    /// queued; when the inbox is full it is dropped. The offer itself is
    /// always made and logged; no other inbox is touched.
    pub fn route(&mut self, packet: Packet) -> (r: (usize, bool))
        requires
            old(self).shard_count() > 0,
        ensures
            final(self).shard_count() == old(self).shard_count(),
            final(self).sources() == old(self).sources(),
            r.0 < old(self).shard_count(),
            forall|j: int| 0 <= j < old(self).shard_count() && j != r.0 ==> #[trigger] final(self).histories()[j]
                == old(self).histories()[j],
            forall|j: int| 0 <= j < old(self).shard_count() && j != r.0 ==> #[trigger] final(self).offer_logs()[j]
                == old(self).offer_logs()[j],
            final(self).offer_logs()[r.0 as int] == old(self).offer_logs()[r.0 as int].push(packet),
            r.1 ==> final(self).histories()[r.0 as int] == old(self).histories()[r.0 as int].push(packet),
            !r.1 ==> final(self).histories()[r.0 as int] == old(self).histories()[r.0 as int],
    {
        let idx = self.shard_for(&packet.src);
        let channel = &mut self.senders[idx];
        let queued = match channel.offer(packet) {
            Ok(()) => true,
            Err(_) => false,
        };
        (idx, queued)
    }
}

// ------------------------------------------------------------------
// Completion tokens.
// ------------------------------------------------------------------

/// The kind of ring operation a completion belongs to.
#[derive(Clone, Copy, Debug, PartialEq, Eq, Structural)]
pub enum OpType {
    Recv,
    Send,
    SendNotif,
}

pub open spec fn op_code(op: OpType) -> u64 {
    match op {
        OpType::Recv => 0,
        OpType::Send => 1,
        OpType::SendNotif => 2,
    }
}

/// The 64-bit user data of a submission: the operation's code above the
/// low 16 bits, the buffer index in them.
pub open spec fn spec_encode_token(op: OpType, buf_idx: u16) -> u64 {
    (op_code(op) * 0x1_0000 + buf_idx) as u64
}

/// What a token says: the operation (any unknown code reads as a send) and
/// the buffer index in the low 16 bits.
pub open spec fn spec_decode_token(token: u64) -> (OpType, u16) {
    let op = if token / 0x1_0000 == 0 {
        OpType::Recv
    } else if token / 0x1_0000 == 1 {
        OpType::Send
    } else if token / 0x1_0000 == 2 {
        OpType::SendNotif
    } else {
        OpType::Send
    };
    (op, (token % 0x1_0000) as u16)
}

/// Packs an operation and a buffer index into a token.
pub fn encode_token(op: OpType, buf_idx: u16) -> (t: u64)
    ensures
        t == spec_encode_token(op, buf_idx),
        t % 0x1_0000 == buf_idx,
        op == OpType::Recv ==> t / 0x1_0000 == 0,
        op == OpType::Send ==> t / 0x1_0000 == 1,
        op == OpType::SendNotif ==> t / 0x1_0000 == 2,
{
    let op_bits: u64 = match op {
        OpType::Recv => 0u64,
        OpType::Send => 1u64,
        OpType::SendNotif => 2u64,
    };
    let idx = buf_idx as u64;
    assert((op_bits << 16u64) | idx == op_bits * 0x1_0000 + idx) by (bit_vector)
        requires
            op_bits <= 2,
            idx < 0x1_0000,
    ;
    (op_bits << 16u64) | idx
}

/// Unpacks a token.
pub fn decode_token(token: u64) -> (r: (OpType, u16))
    ensures
        r == spec_decode_token(token),
        r.1 == token % 0x1_0000,
        token / 0x1_0000 == 0 <==> r.0 == OpType::Recv,
        token / 0x1_0000 == 2 <==> r.0 == OpType::SendNotif,
{
    let high = token >> 16u64;
    let low = token & 0xFFFFu64;
    assert(token >> 16u64 == token / 0x1_0000 && token & 0xFFFFu64 == token % 0x1_0000) by (bit_vector);
    let op = if high == 0 {
        OpType::Recv
    } else if high == 1 {
        OpType::Send
    } else if high == 2 {
        OpType::SendNotif
    } else {
        OpType::Send
    };
    (op, low as u16)
}

/// Decoding a token gives back what was encoded in it.
pub proof fn lemma_decode_encode(op: OpType, buf_idx: u16)
    ensures
        spec_decode_token(spec_encode_token(op, buf_idx)) == (op, buf_idx),
{
    let t = spec_encode_token(op, buf_idx);
    lemma_fundamental_div_mod_converse(t as int, 0x1_0000, op_code(op) as int, buf_idx as int);
}

/// Encoding what a token says gives the token back, for every token whose
/// operation code is one of the three known ones.
pub proof fn lemma_encode_decode(token: u64)
    requires
        token / 0x1_0000 <= 2,
    ensures
        spec_encode_token(spec_decode_token(token).0, spec_decode_token(token).1) == token,
{
}

// ------------------------------------------------------------------
// Completions.
// ------------------------------------------------------------------

/// What the ring loop does with one completion.
#[derive(Clone, Copy, Debug, PartialEq, Eq, Structural)]
pub enum CompletionAction {
    /// A datagram arrived in the buffer: route it to its shard.
    RouteRecv,
    /// The buffer is free again: post a new receive into it.
    Release,
    /// More completions of the same send follow: keep the buffer.
    Keep,
}

pub open spec fn spec_completion_action(op: OpType, flags: u32) -> CompletionAction {
    match op {
        OpType::Recv => CompletionAction::RouteRecv,
        OpType::Send => if flags & 2u32 != 0u32 {
            CompletionAction::Keep
        } else {
            CompletionAction::Release
        },
        OpType::SendNotif => CompletionAction::Release,
    }
}

/// A send completion is decided by the `MORE` bit alone: any other bit of
/// its flags (such as the zero-copy notification bit) changes nothing, and
/// only a completion that promises more keeps the buffer.
pub proof fn lemma_send_completion_reads_only_more(flags: u32, other: u32)
    requires
        flags & 2u32 == other & 2u32,
    ensures
        spec_completion_action(OpType::Send, flags) == spec_completion_action(OpType::Send, other),
        spec_completion_action(OpType::Send, flags) == CompletionAction::Keep <==> flags & 2u32 != 0u32,
{
}

/// Only a receive completion is routed to a shard; a buffer is released by
/// a send completion that promises no more, or by a notification.
pub proof fn lemma_release_only_after_final_send(op: OpType, flags: u32)
    ensures
        spec_completion_action(op, flags) == CompletionAction::RouteRecv <==> op == OpType::Recv,
        spec_completion_action(op, flags) == CompletionAction::Release <==> (op == OpType::SendNotif || (op
            == OpType::Send && flags & 2u32 == 0u32)),
{
}

/// Decides what to do with a completion of operation `op` with `flags`.
pub fn completion_action(op: OpType, flags: u32) -> (r: CompletionAction)
    ensures
        r == spec_completion_action(op, flags),
        op == OpType::Recv <==> r == CompletionAction::RouteRecv,
        op == OpType::Send ==> (r == CompletionAction::Keep <==> flags & 2u32 != 0u32),
        op == OpType::Send ==> (r == CompletionAction::Release <==> flags & 2u32 == 0u32),
        op == OpType::SendNotif ==> r == CompletionAction::Release,
{
    match op {
        OpType::Recv => CompletionAction::RouteRecv,
        OpType::Send => if cqe_more(flags) {
            CompletionAction::Keep
        } else {
            CompletionAction::Release
        },
        OpType::SendNotif => CompletionAction::Release,
    }
}

/// The byte count of a completion: its result, with errors (negative
/// results) read as zero.
pub fn completion_len(result: i32) -> (n: usize)
    ensures
        n == (if result < 0 {
            0
        } else {
            result as int
        }),
{
    if result < 0 {
        0
    } else {
        result as usize
    }
}

// ------------------------------------------------------------------
// Buffer pool.
// ------------------------------------------------------------------

/// Pre-allocated packet buffers, one slab cut into `POOL_SIZE` buffers of
/// `BUFFER_SIZE` bytes, the indices of the free ones, and (in the proof
/// only) the indices handed out so far. A handed-out buffer goes round
/// receive, shard and send and is posted for the next receive again; it
/// never comes back to the free list.
pub struct BufferPool {
    memory: Vec<u8>,
    in_flight: usize,
    registered: bool,
    free_list: Vec<u16>,
    in_use: Ghost<Set<u16>>,
}

pub struct BufferPoolView {
    pub memory: Seq<u8>,
    pub registered: bool,
    pub free_list: Seq<u16>,
    pub in_use: Set<u16>,
}

impl View for BufferPool {
    type V = BufferPoolView;

    closed spec fn view(&self) -> BufferPoolView {
        BufferPoolView {
            memory: self.memory@,
            registered: self.registered,
            free_list: self.free_list@,
            in_use: self.in_use@,
        }
    }
}

/// The slab has its full size and every free index names a buffer in it.
pub open spec fn pool_wf(p: BufferPoolView) -> bool {
    &&& p.memory.len() == POOL_SIZE * BUFFER_SIZE
    &&& forall|i: int| 0 <= i < p.free_list.len() ==> #[trigger] p.free_list[i] < POOL_SIZE
}

/// No buffer is free twice over, and no free buffer is in use: whatever
/// `acquire` hands out is in no one else's hands.
pub open spec fn lifecycle_sound(p: BufferPoolView) -> bool {
    &&& p.free_list.no_duplicates()
    &&& forall|i: int| 0 <= i < p.free_list.len() ==> !p.in_use.contains(#[trigger] p.free_list[i])
}

/// Where buffer `idx` starts in the slab.
pub open spec fn spec_buffer_start(idx: u16) -> int {
    idx * BUFFER_SIZE
}

impl BufferPool {
    /// A zeroed slab, nothing free yet, not registered with the kernel.
    pub fn default() -> (p: Self)
        ensures
            p@.memory.len() == POOL_SIZE * BUFFER_SIZE,
            forall|i: int| 0 <= i < p@.memory.len() ==> #[trigger] p@.memory[i] == 0,
            p@.free_list == Seq::<u16>::empty(),
            p@.in_use == Set::<u16>::empty(),
            !p@.registered,
            pool_wf(p@),
            lifecycle_sound(p@),
    {
        BufferPool {
            memory: vec![0u8; POOL_SIZE * BUFFER_SIZE],
            in_flight: 0,
            registered: false,
            free_list: Vec::new(),
            in_use: Ghost(Set::empty()),
        }
    }

    /// Puts every buffer index on the free list, in increasing order, as
    /// the buffers are handed to the kernel.
    pub fn seed_free_list(&mut self)
        requires
            pool_wf(old(self)@),
        ensures
            final(self)@.memory == old(self)@.memory,
            final(self)@.registered == old(self)@.registered,
            final(self)@.free_list.len() == old(self)@.free_list.len() + POOL_SIZE,
            final(self)@.free_list.subrange(0, old(self)@.free_list.len() as int) == old(self)@.free_list,
            forall|i: int| 0 <= i < POOL_SIZE ==> #[trigger] final(self)@.free_list[old(self)@.free_list.len() + i] == i,
            final(self)@.in_use == old(self)@.in_use,
            pool_wf(final(self)@),
            old(self)@.free_list.len() == 0 && old(self)@.in_use.is_empty() ==> lifecycle_sound(final(self)@),
    {
        let ghost start = self.free_list@;
        let mut i: usize = 0;
        while i < POOL_SIZE
            invariant
                i <= POOL_SIZE,
                self.memory@ == old(self)@.memory,
                self.registered == old(self)@.registered,
                self.in_use@ == old(self)@.in_use,
                start == old(self)@.free_list,
                self.free_list@.len() == start.len() + i,
                self.free_list@.subrange(0, start.len() as int) == start,
                forall|j: int| 0 <= j < i ==> #[trigger] self.free_list@[start.len() + j] == j,
                pool_wf(self@),
            decreases POOL_SIZE - i,
        {
            let ghost before = self.free_list@;
            let ghost old_pool = self@;
            assert(old_pool.free_list == before);
            assert((i as u16) as int == i as int);
            self.free_list.push(i as u16);
            assert(self.free_list@.subrange(0, start.len() as int) =~= before.subrange(0, start.len() as int));
            assert forall|j: int| 0 <= j < self.free_list@.len() implies #[trigger] self.free_list@[j] < POOL_SIZE by {
                if j < before.len() {
                    assert(old_pool.free_list[j] < POOL_SIZE);
                    assert(self.free_list@[j] == before[j]);
                } else {
                    assert(self.free_list@[j] == i as u16);
                }
            }
            i = i + 1;
        }
        proof {
            if start.len() == 0 && self.in_use@.is_empty() {
                assert forall|a: int, b: int| 0 <= a < b < self.free_list@.len() implies self.free_list@[a]
                    != self.free_list@[b] by {
                    assert(self.free_list@[start.len() + a] == a);
                    assert(self.free_list@[start.len() + b] == b);
                }
            }
        }
    }

    /// Records that the kernel accepted the buffers.
    pub fn set_registered(&mut self)
        ensures
            final(self)@ == (BufferPoolView { registered: true, ..old(self)@ }),
    {
        self.registered = true;
    }

    /// Whether the kernel accepted the buffers.
    pub fn is_registered(&self) -> (r: bool)
        ensures
            r == self@.registered,
    {
        self.registered
    }

    /// Takes the most recently freed buffer index, if any; it is in use from
    /// then on. From a sound pool it is a buffer that nobody holds.
    pub fn acquire(&mut self) -> (r: Option<u16>)
        requires
            pool_wf(old(self)@),
        ensures
            pool_wf(final(self)@),
            final(self)@.memory == old(self)@.memory,
            final(self)@.registered == old(self)@.registered,
            old(self)@.free_list.len() == 0 ==> r is None && final(self)@.free_list == old(self)@.free_list,
            old(self)@.free_list.len() > 0 ==> r == Some(old(self)@.free_list.last())
                && final(self)@.free_list == old(self)@.free_list.drop_last(),
            r matches Some(idx) ==> idx < POOL_SIZE,
            r matches Some(idx) ==> final(self)@.in_use == old(self)@.in_use.insert(idx),
            r is None ==> final(self)@.in_use == old(self)@.in_use,
            lifecycle_sound(old(self)@) ==> lifecycle_sound(final(self)@),
            lifecycle_sound(old(self)@) ==> (r matches Some(idx) ==> !old(self)@.in_use.contains(idx)
                && !final(self)@.free_list.contains(idx)),
    {
        let r = self.free_list.pop();
        if let Some(idx) = r {
            proof {
                self.in_use = Ghost(self.in_use@.insert(idx));
            }
        }
        r
    }

    /// Where buffer `idx` starts in the slab.
    pub fn buffer_start(idx: u16) -> (r: usize)
        requires
            idx < POOL_SIZE,
        ensures
            r == spec_buffer_start(idx),
            r + BUFFER_SIZE <= POOL_SIZE * BUFFER_SIZE,
    {
        idx as usize * BUFFER_SIZE
    }

    /// The first `len` bytes of buffer `idx`.
    pub fn slice(&self, idx: u16, len: usize) -> (r: &[u8])
        requires
            pool_wf(self@),
            idx as int * BUFFER_SIZE + len <= POOL_SIZE * BUFFER_SIZE,
        ensures
            r@ == self@.memory.subrange(spec_buffer_start(idx), spec_buffer_start(idx) + len),
    {
        let start = idx as usize * BUFFER_SIZE;
        &self.memory.as_slice()[start..start + len]
    }
    /// The whole of buffer `idx`, to be filled or handed to the kernel.
    pub fn slice_mut(&mut self, idx: u16) -> (r: &mut [u8])
        requires
            pool_wf(old(self)@),
            idx < POOL_SIZE,
        ensures
            r@ == old(self)@.memory.subrange(spec_buffer_start(idx), spec_buffer_start(idx) + BUFFER_SIZE),
            final(self)@.memory == old(self)@.memory.subrange(0, spec_buffer_start(idx)) + final(r)@
                + old(self)@.memory.subrange(spec_buffer_start(idx) + BUFFER_SIZE, POOL_SIZE * BUFFER_SIZE),
            final(self)@.free_list == old(self)@.free_list,
            final(self)@.registered == old(self)@.registered,
            final(self)@.in_use == old(self)@.in_use,
    {
        let start = idx as usize * BUFFER_SIZE;
        let all = self.memory.as_mut_slice();
        let (_, rest) = all.split_at_mut(start);
        let (buf, _) = rest.split_at_mut(BUFFER_SIZE);
        buf
    }
}

} // verus!
