use std::collections::HashMap;
use vstd::prelude::*;

use crate::endpoint::Endpoint;
use crate::sharecode::{be_value, code_from_bytes};

verus! {

broadcast use vstd::std_specs::hash::group_hash_axioms;

/// First byte of a datagram that asks the relay for a new lobby.
pub const LOBBY_CREATE: u8 = 0;

/// First byte of a datagram that asks to join a lobby; the share code
/// follows in the next sixteen bytes.
pub const LOBBY_JOIN: u8 = 1;

/// A request to the relay, as a structured message.
#[derive(Clone, Copy, Debug, PartialEq, Eq, Structural)]
pub enum RelayEvent {
    LobbyCreate,
    LobbyJoin { lobby_id: u128 },
}

/// An answer of the relay, as a structured message.
#[derive(Clone, Copy, Debug, PartialEq, Eq, Structural)]
pub enum RelayResponse {
    LobbyCreated { lobby_id: u128 },
    LobbyJoined,
    LobbyNotFound,
}

/// What one datagram to the relay asks for.
#[derive(Clone, Copy, Debug, PartialEq, Eq, Structural)]
pub enum RelayRequest {
    Create,
    Join { code: u128 },
    /// Anything else: a keep-alive echo, dropped.
    Echo,
}

/// Reads a datagram that landed at the start of the relay's receive
/// buffer. The buffer is longer than any share code, and the code is read
/// from it whatever the datagram's length.
pub fn classify_request(buf: &[u8]) -> (r: RelayRequest)
    requires
        buf@.len() >= 17,
    ensures
        buf@[0] == LOBBY_CREATE ==> r == RelayRequest::Create,
        buf@[0] == LOBBY_JOIN ==> r == (RelayRequest::Join { code: be_value(buf@.subrange(1, 17)) as u128 }),
        buf@[0] != LOBBY_CREATE && buf@[0] != LOBBY_JOIN ==> r == RelayRequest::Echo,
{
    if buf[0] == LOBBY_CREATE {
        RelayRequest::Create
    } else if buf[0] == LOBBY_JOIN {
        match code_from_bytes(&buf[1..17]) {
            Some(code) => RelayRequest::Join { code },
            None => RelayRequest::Echo,
        }
    } else {
        RelayRequest::Echo
    }
}

/// A join request that lands at the start of the relay's buffer is read as
/// a join with the code it carries.
pub proof fn lemma_join_request_read_back(code: u128, request: Seq<u8>, buf: Seq<u8>)
    requires
        request.len() == 17,
        request[0] == LOBBY_JOIN,
        be_value(request.subrange(1, 17)) == code,
        buf.len() >= 17,
        buf.subrange(0, 17) == request,
    ensures
        buf[0] == LOBBY_JOIN,
        be_value(buf.subrange(1, 17)) as u128 == code,
{
    assert(buf[0] == buf.subrange(0, 17)[0]);
    assert(buf.subrange(1, 17) =~= request.subrange(1, 17));
}

/// A message to the lobby manager. `S` is the handle that ends a host's
/// keep-alive; `R` is where the answer to a join goes.
pub enum MessageType<S, R> {
    CreateLobby(u128, Endpoint, S),
    JoinLobby(u128, Endpoint, R),
}

/// A lobby: its host, the handle that ends the host's keep-alive (until it
/// is taken), and who joined.
pub struct Session<S> {
    pub host_addr: Endpoint,
    pub shutdown_channel: Option<S>,
    pub client_addr: Option<Vec<Endpoint>>,
}

pub struct SessionView<S> {
    pub host_addr: Endpoint,
    pub shutdown_channel: Option<S>,
    pub client_addr: Option<Seq<Endpoint>>,
}

impl<S> View for Session<S> {
    type V = SessionView<S>;

    open spec fn view(&self) -> SessionView<S> {
        SessionView {
            host_addr: self.host_addr,
            shutdown_channel: self.shutdown_channel,
            client_addr: match self.client_addr {
                Some(v) => Some(v@),
                None => None,
            },
        }
    }
}

/// What the lobby manager did with a message.
pub enum HandlerOutcome<S, R> {
    /// A lobby was opened (or reopened) under the code.
    Created,
    /// No lobby has the code; the answer channel is dropped unanswered.
    NotFound,
    /// Someone joined: answer `reply_to` with the host's address, and end
    /// the host's keep-alive through `shutdown` when there is one.
    Joined { reply_to: R, host_addr: Endpoint, shutdown: Option<S> },
}

/// The lobbies, by share code.
pub struct RelayManager<S> {
    session: HashMap<u128, Session<S>>,
}

/// What the manager's lobbies become after `msg`, and what it answers.
pub open spec fn spec_handler<S, R>(
    lobbies: Map<u128, SessionView<S>>,
    msg: MessageType<S, R>,
) -> (Map<u128, SessionView<S>>, HandlerOutcome<S, R>) {
    match msg {
        MessageType::CreateLobby(code, addr, tx) => (
            lobbies.insert(
                code,
                SessionView { host_addr: addr, shutdown_channel: Some(tx), client_addr: None },
            ),
            HandlerOutcome::Created,
        ),
        MessageType::JoinLobby(code, addr, channel) => if lobbies.contains_key(code) {
            let s = lobbies[code];
            (
                lobbies.insert(
                    code,
                    SessionView { host_addr: s.host_addr, shutdown_channel: None, client_addr: Some(seq![addr]) },
                ),
                HandlerOutcome::Joined {
                    reply_to: channel,
                    host_addr: s.host_addr,
                    shutdown: s.shutdown_channel,
                },
            )
        } else {
            (lobbies, HandlerOutcome::NotFound)
        },
    }
}

/// The share code a message is about.
pub open spec fn message_code<S, R>(msg: MessageType<S, R>) -> u128 {
    match msg {
        MessageType::CreateLobby(code, _, _) => code,
        MessageType::JoinLobby(code, _, _) => code,
    }
}

impl<S> RelayManager<S> {
    pub closed spec fn lobbies(&self) -> Map<u128, SessionView<S>> {
        self.session@.map_values(|s: Session<S>| s@)
    }

    /// A manager with no lobbies.
    pub fn new() -> (m: Self)
        ensures
            m.lobbies() == Map::<u128, SessionView<S>>::empty(),
    {
        let m = RelayManager { session: HashMap::new() };
        assert(m.lobbies() =~= Map::<u128, SessionView<S>>::empty());
        m
    }

    /// Handles one message to the lobby manager: a creation opens the lobby
    /// of its code; a join answers with the host of its code's lobby, if
    /// there is one. Lobbies of other codes stay as they were.
    pub fn handler<R>(&mut self, msg: MessageType<S, R>) -> (r: HandlerOutcome<S, R>)
        ensures
            (final(self).lobbies(), r) == spec_handler(old(self).lobbies(), msg),
            forall|c: u128| c != message_code(msg) ==> {
                &&& #[trigger] final(self).lobbies().contains_key(c) == old(self).lobbies().contains_key(c)
                &&& old(self).lobbies().contains_key(c) ==> final(self).lobbies()[c] == old(self).lobbies()[c]
            },
            msg matches MessageType::CreateLobby(code, addr, tx) ==> {
                &&& r == HandlerOutcome::<S, R>::Created
                &&& final(self).lobbies().contains_key(code)
                &&& final(self).lobbies()[code].host_addr == addr
                &&& final(self).lobbies()[code].shutdown_channel == Some(tx)
            },
            msg matches MessageType::JoinLobby(code, addr, channel) ==> {
                &&& old(self).lobbies().contains_key(code) ==> r == HandlerOutcome::<S, R>::Joined {
                    reply_to: channel,
                    host_addr: old(self).lobbies()[code].host_addr,
                    shutdown: old(self).lobbies()[code].shutdown_channel,
                } && final(self).lobbies().contains_key(code) && final(self).lobbies()[code].host_addr
                    == old(self).lobbies()[code].host_addr
                &&& !old(self).lobbies().contains_key(code) ==> r == HandlerOutcome::<S, R>::NotFound
                    && final(self).lobbies() == old(self).lobbies()
            },
    {
        match msg {
            MessageType::CreateLobby(code, addr, tx) => {
                self.session.insert(
                    code,
                    Session { host_addr: addr, client_addr: None, shutdown_channel: Some(tx) },
                );
                assert(final(self).lobbies() =~= old(self).lobbies().insert(
                    code,
                    SessionView { host_addr: addr, shutdown_channel: Some(tx), client_addr: None },
                ));
                HandlerOutcome::Created
            },
            MessageType::JoinLobby(code, addr, channel) => {
                match self.session.remove(&code) {
                    Some(session) => {
                        let host_addr = session.host_addr;
                        let shutdown = session.shutdown_channel;
                        let clients = vec![addr];
                        let ghost cl = clients@;
                        self.session.insert(
                            code,
                            Session { host_addr, shutdown_channel: None, client_addr: Some(clients) },
                        );
                        assert(cl =~= seq![addr]);
                        assert(final(self).lobbies() =~= old(self).lobbies().insert(
                            code,
                            SessionView { host_addr, shutdown_channel: None, client_addr: Some(seq![addr]) },
                        ));
                        HandlerOutcome::Joined { reply_to: channel, host_addr, shutdown }
                    },
                    None => HandlerOutcome::NotFound,
                }
            },
        }
    }
}

/// A join with the code of a lobby just created is answered with the
/// creator's address, and hands over the creator's keep-alive handle; a
/// second join still gets the address, but no handle.
pub proof fn lemma_join_after_create<S, R>(
    lobbies: Map<u128, SessionView<S>>,
    code: u128,
    host: Endpoint,
    tx: S,
    client: Endpoint,
    reply: R,
    second_client: Endpoint,
    second_reply: R,
)
    ensures
        ({
            let (l1, _) = spec_handler(lobbies, MessageType::<S, R>::CreateLobby(code, host, tx));
            let (l2, o2) = spec_handler(l1, MessageType::<S, R>::JoinLobby(code, client, reply));
            let (_, o3) = spec_handler(l2, MessageType::<S, R>::JoinLobby(code, second_client, second_reply));
            &&& o2 == HandlerOutcome::<S, R>::Joined { reply_to: reply, host_addr: host, shutdown: Some(tx) }
            &&& o3 == HandlerOutcome::<S, R>::Joined { reply_to: second_reply, host_addr: host, shutdown: None }
        }),
{
}

/// A message about one share code leaves the lobby of every other code as
/// it was.
pub proof fn lemma_other_lobbies_untouched<S, R>(
    lobbies: Map<u128, SessionView<S>>,
    msg: MessageType<S, R>,
    other: u128,
)
    requires
        other != message_code(msg),
    ensures
        spec_handler(lobbies, msg).0.contains_key(other) == lobbies.contains_key(other),
        lobbies.contains_key(other) ==> spec_handler(lobbies, msg).0[other] == lobbies[other],
{
}

/// Lobbies live side by side: after lobby `a` and then lobby `b` are
/// created, a join with `a`'s code is answered with `a`'s host and hands
/// over `a`'s keep-alive handle.
pub proof fn lemma_lobbies_coexist<S, R>(
    lobbies: Map<u128, SessionView<S>>,
    a: u128,
    host_a: Endpoint,
    tx_a: S,
    b: u128,
    host_b: Endpoint,
    tx_b: S,
    joiner: Endpoint,
    reply: R,
)
    requires
        a != b,
    ensures
        ({
            let (l1, _) = spec_handler(lobbies, MessageType::<S, R>::CreateLobby(a, host_a, tx_a));
            let (l2, _) = spec_handler(l1, MessageType::<S, R>::CreateLobby(b, host_b, tx_b));
            let (_, o) = spec_handler(l2, MessageType::<S, R>::JoinLobby(a, joiner, reply));
            o == HandlerOutcome::<S, R>::Joined { reply_to: reply, host_addr: host_a, shutdown: Some(tx_a) }
        }),
{
}

/// A join with a code that no lobby has is answered with nothing and
/// changes nothing.
pub proof fn lemma_join_unknown_code<S, R>(
    lobbies: Map<u128, SessionView<S>>,
    code: u128,
    client: Endpoint,
    reply: R,
)
    requires
        !lobbies.contains_key(code),
    ensures
        spec_handler(lobbies, MessageType::<S, R>::JoinLobby(code, client, reply)) == (
            lobbies,
            HandlerOutcome::<S, R>::NotFound,
        ),
{
}

/// A datagram the relay sends once a join succeeded.
#[derive(Clone, Copy, Debug, PartialEq, Eq, Structural)]
pub enum RelayDatagram {
    /// The single byte 0, which keeps the joiner's NAT mapping open.
    KeepAlive,
    /// The text of an endpoint's address, such as `10.0.0.1:4000`.
    AddressOf(Endpoint),
}

/// How many keep-alive datagrams go to a joiner before the addresses.
pub const JOIN_KEEPALIVES: usize = 5;

/// What the relay sends, and to whom, once `joiner` joined the lobby of
/// `host`, in sending order: keep-alives to the joiner, then the host's
/// address to the joiner, then the joiner's address to the host.
pub fn join_reply_plan(joiner: Endpoint, host: Endpoint) -> (plan: Vec<(Endpoint, RelayDatagram)>)
    ensures
        plan@.len() == JOIN_KEEPALIVES + 2,
        forall|i: int| 0 <= i < JOIN_KEEPALIVES ==> #[trigger] plan@[i] == (joiner, RelayDatagram::KeepAlive),
        plan@[JOIN_KEEPALIVES as int] == (joiner, RelayDatagram::AddressOf(host)),
        plan@[JOIN_KEEPALIVES + 1] == (host, RelayDatagram::AddressOf(joiner)),
{
    let mut plan: Vec<(Endpoint, RelayDatagram)> = Vec::new();
    let mut sent: usize = 0;
    while sent < JOIN_KEEPALIVES
        invariant
            sent <= JOIN_KEEPALIVES,
            plan@.len() == sent,
            forall|i: int| 0 <= i < sent ==> #[trigger] plan@[i] == (joiner, RelayDatagram::KeepAlive),
        decreases JOIN_KEEPALIVES - sent,
    {
        plan.push((joiner, RelayDatagram::KeepAlive));
        sent = sent + 1;
    }
    plan.push((joiner, RelayDatagram::AddressOf(host)));
    plan.push((host, RelayDatagram::AddressOf(joiner)));
    plan
}

/// A log record: the span it is emitted in, its message, and its fields.
pub struct TraceRecord<'a> {
    pub span: &'static str,
    pub message: &'static str,
    pub fields: Vec<(&'static str, &'a str)>,
}

/// The record of a lobby opened by `ip` under `code`.
pub fn lobby_create<'a>(ip: &'a str, code: &'a str) -> (r: TraceRecord<'a>)
    ensures
        r.span@ == "LOBBY.CREATE"@,
        r.message@ == "Lobby Created"@,
        r.fields@.len() == 2,
        r.fields@[0].0@ == "CODE"@ && r.fields@[0].1@ == code@,
        r.fields@[1].0@ == "HOST_IP"@ && r.fields@[1].1@ == ip@,
{
    let mut fields: Vec<(&'static str, &'a str)> = Vec::new();
    fields.push(("CODE", code));
    fields.push(("HOST_IP", ip));
    TraceRecord { span: "LOBBY.CREATE", message: "Lobby Created", fields }
}

/// The record of `ip` joining the lobby `code` (emitted in the same span
/// as the lobby's creation).
pub fn lobby_joined<'a>(ip: &'a str, code: &'a str) -> (r: TraceRecord<'a>)
    ensures
        r.span@ == "LOBBY.CREATE"@,
        r.message@ == "Lobby Joined!"@,
        r.fields@.len() == 2,
        r.fields@[0].0@ == "IP"@ && r.fields@[0].1@ == ip@,
        r.fields@[1].0@ == "CODE"@ && r.fields@[1].1@ == code@,
{
    let mut fields: Vec<(&'static str, &'a str)> = Vec::new();
    fields.push(("IP", ip));
    fields.push(("CODE", code));
    TraceRecord { span: "LOBBY.CREATE", message: "Lobby Joined!", fields }
}

} // verus!
