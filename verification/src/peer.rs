use vstd::prelude::*;
use vstd::string::StringSliceAdditionalSpecFns;
use vstd::utf8::{decode_utf8, encode_utf8, valid_utf8};

use crate::endpoint::Endpoint;
use crate::relay::LOBBY_JOIN;
use crate::sharecode::{be_value, code_to_bytes};
use crate::trusted::text::{str_from_utf8, str_trim, string_from_utf8, spec_trim};

verus! {

/// What a peer sends back to the relay's keep-alive datagrams.
pub const ECHO_REPLY: u8 = 2;

/// The payload both peers send while punching through their NATs:
/// `HOLE_PUNCH` in ASCII.
pub const HOLE_PUNCH: [u8; 10] = [72u8, 79, 76, 69, 95, 80, 85, 78, 67, 72];

/// The payload that confirms a punched connection: `CONNECTED` in ASCII.
pub const CONNECTED: [u8; 9] = [67u8, 79, 78, 78, 69, 67, 84, 69, 68];

/// The payload that keeps a chat's NAT mappings open: `KEEP_ALIVE` in
/// ASCII.
pub const KEEP_ALIVE: [u8; 10] = [75u8, 69, 69, 80, 95, 65, 76, 73, 86, 69];

/// The payload that ends a chat: `GOODBYE` in ASCII.
pub const GOODBYE: [u8; 7] = [71u8, 79, 79, 68, 66, 89, 69];

/// The line that ends a chat when typed: `exit` in ASCII.
pub const EXIT_COMMAND: [u8; 4] = [101u8, 120, 105, 116];

/// Whether two byte strings are equal.
pub fn bytes_eq(a: &[u8], b: &[u8]) -> (r: bool)
    ensures
        r == (a@ == b@),
{
    if a.len() != b.len() {
        return false;
    }
    let mut i: usize = 0;
    while i < a.len()
        invariant
            i <= a@.len(),
            a@.len() == b@.len(),
            forall|j: int| 0 <= j < i ==> a@[j] == b@[j],
        decreases a@.len() - i,
    {
        if a[i] != b[i] {
            return false;
        }
        i = i + 1;
    }
    assert(a@ =~= b@);
    true
}

/// The datagram a joining peer sends to the relay: the join marker and the
/// share code, most significant byte first.
pub fn lobby_join_request(code: u128) -> (r: Vec<u8>)
    ensures
        r@.len() == 17,
        r@[0] == LOBBY_JOIN,
        be_value(r@.subrange(1, 17)) == code,
{
    let mut r: Vec<u8> = Vec::new();
    r.push(LOBBY_JOIN);
    let mut code_bytes = code_to_bytes(code);
    let ghost cb = code_bytes@;
    r.append(&mut code_bytes);
    assert(r@.subrange(1, 17) =~= cb);
    r
}

/// What a joining peer makes of a datagram while it waits for the host's
/// address: the first byte of its receive buffer is looked at whatever the
/// datagram's length.
pub enum PeerReply<'a> {
    /// A keep-alive of the relay: answer it with `ECHO_REPLY`.
    Echo,
    /// Text that should name the host's address.
    Text(&'a str),
    /// Bytes that are not text: ignored.
    NotText,
}

/// Reads the datagram of `len` bytes at the start of `buf`.
pub fn peer_reply(buf: &[u8], len: usize) -> (r: PeerReply<'_>)
    requires
        1 <= buf@.len(),
        len <= buf@.len(),
    ensures
        buf@[0] == 0 ==> r is Echo,
        buf@[0] != 0 && valid_utf8(buf@.subrange(0, len as int)) ==> (r matches PeerReply::Text(t)
            && t.spec_bytes() == buf@.subrange(0, len as int)),
        buf@[0] != 0 && !valid_utf8(buf@.subrange(0, len as int)) ==> r is NotText,
{
    if buf[0] == 0 {
        PeerReply::Echo
    } else {
        match str_from_utf8(&buf[0..len]) {
            Some(t) => PeerReply::Text(t),
            None => PeerReply::NotText,
        }
    }
}

/// What a host makes of a datagram while it waits for the joining peer's
/// address: text that may name it, or else a keep-alive to echo.
pub fn host_reply(datagram: &[u8]) -> (r: Option<&str>)
    ensures
        r is Some <==> valid_utf8(datagram@),
        r matches Some(t) ==> t.spec_bytes() == datagram@,
{
    str_from_utf8(datagram)
}

/// Whether a packet that arrived while punching shows that the other side
/// is there: its payload is the punch or the confirmation.
pub fn is_punch_reply(payload: &Option<Vec<u8>>) -> (r: bool)
    ensures
        r == (payload matches Some(p) && (p@ == HOLE_PUNCH@ || p@ == CONNECTED@)),
{
    match payload {
        Some(p) => bytes_eq(p.as_slice(), &HOLE_PUNCH) || bytes_eq(p.as_slice(), &CONNECTED),
        None => false,
    }
}

/// How many punch datagrams a peer sends.
pub const PUNCH_ATTEMPTS: u32 = 6;

/// The pause between two punch datagrams, in milliseconds.
pub const PUNCH_INTERVAL_MS: u64 = 50;

/// How long a peer listens for the other side while punching, in
/// nanoseconds.
pub const PUNCH_WAIT_NS: u64 = 5_000_000_000;

/// How long one wait for a punch reply lasts before the time is checked
/// again, in milliseconds.
pub const PUNCH_POLL_MS: u64 = 10;

/// Whether another punch datagram goes out after `sent` of them.
pub fn punch_again(sent: u32) -> (r: bool)
    ensures
        r == (sent < PUNCH_ATTEMPTS),
{
    sent < PUNCH_ATTEMPTS
}

/// Whether a peer still listens for the other side `elapsed_ns` after it
/// began punching.
pub fn still_listening(elapsed_ns: u64) -> (r: bool)
    ensures
        r == (elapsed_ns < PUNCH_WAIT_NS),
{
    elapsed_ns < PUNCH_WAIT_NS
}

/// What the chat makes of a packet handed on by the reliable layer.
pub enum ChatIncoming {
    /// Nothing to show: another address, no payload, not text, or a
    /// keep-alive.
    Ignore,
    /// A leftover of hole punching.
    PunchNoise,
    /// The other side left.
    Goodbye,
    /// A message to show.
    Show(String),
}

/// Sorts a packet from `from` while chatting with `peer`.
pub fn classify_incoming(from: &Endpoint, peer: &Endpoint, payload: Option<Vec<u8>>) -> (r: ChatIncoming)
    ensures
        from.spec_ip() != peer.spec_ip() ==> r is Ignore,
        from.spec_ip() == peer.spec_ip() ==> match payload {
            None => r is Ignore,
            Some(p) => if !valid_utf8(p@) || p@ == KEEP_ALIVE@ {
                r is Ignore
            } else if p@ == GOODBYE@ {
                r is Goodbye
            } else if p@ == CONNECTED@ || p@ == HOLE_PUNCH@ {
                r is PunchNoise
            } else {
                r matches ChatIncoming::Show(s) && s@ == decode_utf8(p@)
            },
        },
{
    if !from.same_ip(peer) {
        return ChatIncoming::Ignore;
    }
    match payload {
        None => ChatIncoming::Ignore,
        Some(p) => {
            let keep_alive = bytes_eq(p.as_slice(), &KEEP_ALIVE);
            let goodbye = bytes_eq(p.as_slice(), &GOODBYE);
            let noise = bytes_eq(p.as_slice(), &CONNECTED) || bytes_eq(p.as_slice(), &HOLE_PUNCH);
            match string_from_utf8(p) {
                None => ChatIncoming::Ignore,
                Some(s) => if keep_alive {
                    ChatIncoming::Ignore
                } else if goodbye {
                    ChatIncoming::Goodbye
                } else if noise {
                    ChatIncoming::PunchNoise
                } else {
                    ChatIncoming::Show(s)
                },
            }
        },
    }
}

/// What the chat does with a typed line (already trimmed).
pub enum ChatOutgoing {
    /// Send `GOODBYE` and stop.
    Exit,
    /// Nothing typed.
    Skip,
    /// Send these bytes.
    Send(Vec<u8>),
}

/// Sorts a typed line.
pub fn classify_input(line: &str) -> (r: ChatOutgoing)
    ensures
        line.spec_bytes() == EXIT_COMMAND@ ==> r is Exit,
        line.spec_bytes() != EXIT_COMMAND@ && line@.len() == 0 ==> r is Skip,
        line.spec_bytes() != EXIT_COMMAND@ && line@.len() != 0 ==> (r matches ChatOutgoing::Send(b)
            && b@ == line.spec_bytes()),
{
    let bytes = line.as_bytes();
    if bytes_eq(bytes, &EXIT_COMMAND) {
        ChatOutgoing::Exit
    } else if line.is_empty() {
        ChatOutgoing::Skip
    } else {
        let mut out: Vec<u8> = Vec::new();
        let mut i: usize = 0;
        while i < bytes.len()
            invariant
                i <= bytes@.len(),
                out@ == bytes@.subrange(0, i as int),
            decreases bytes@.len() - i,
        {
            out.push(bytes[i]);
            i = i + 1;
            assert(out@ =~= bytes@.subrange(0, i as int));
        }
        assert(bytes@.subrange(0, bytes@.len() as int) =~= bytes@);
        ChatOutgoing::Send(out)
    }
}

/// Sorts a line as it was typed: its leading and trailing white space is
/// trimmed first.
pub fn classify_typed_line(raw: &str) -> (r: ChatOutgoing)
    ensures
        encode_utf8(spec_trim(raw@)) == EXIT_COMMAND@ ==> r is Exit,
        encode_utf8(spec_trim(raw@)) != EXIT_COMMAND@ && spec_trim(raw@).len() == 0 ==> r is Skip,
        encode_utf8(spec_trim(raw@)) != EXIT_COMMAND@ && spec_trim(raw@).len() != 0 ==> (r matches ChatOutgoing::Send(b)
            && b@ == encode_utf8(spec_trim(raw@))),
{
    let line = str_trim(raw);
    classify_input(line)
}

} // verus!
