use vstd::prelude::*;
use vstd::arithmetic::div_mod::lemma_fundamental_div_mod_converse;

verus! {

/// The two header words of a datagram of the reliable layer.
#[derive(Clone, Copy, Debug, PartialEq, Eq, Structural)]
pub struct Header {
    /// Sequence number of the datagram.
    pub seq: u32,
    /// Cumulative acknowledgement carried by the datagram.
    pub ack: u32,
}

/// A datagram of the reliable layer: a header and an optional payload.
#[derive(Debug)]
pub struct Packet {
    pub header: Header,
    pub payload: Option<Vec<u8>>,
}

/// What a packet holds, as mathematical values.
pub struct PacketView {
    pub seq: u32,
    pub ack: u32,
    pub payload: Option<Seq<u8>>,
}

impl View for Packet {
    type V = PacketView;

    open spec fn view(&self) -> PacketView {
        PacketView {
            seq: self.header.seq,
            ack: self.header.ack,
            payload: match self.payload {
                Some(p) => Some(p@),
                None => None,
            },
        }
    }
}

/// What the application hands to the sending side.
pub enum PacketType {
    Ack { ack: u32 },
    Data { payload: Vec<u8> },
}

/// Why a datagram could not be read as a packet.
#[derive(Debug, PartialEq, Eq, Structural)]
pub enum PacketError {
    /// Fewer than the eight header bytes arrived.
    TooShort { len: usize },
}

/// The four bytes of `x`, most significant first.
pub open spec fn be_bytes_u32(x: u32) -> Seq<u8> {
    seq![
        (x / 0x100_0000) as u8,
        ((x / 0x1_0000) % 0x100) as u8,
        ((x / 0x100) % 0x100) as u8,
        (x % 0x100) as u8,
    ]
}

/// The number whose big-endian bytes are the first four of `s`.
pub open spec fn be_u32(s: Seq<u8>) -> u32 {
    (s[0] * 0x100_0000 + s[1] * 0x1_0000 + s[2] * 0x100 + s[3]) as u32
}

pub open spec fn payload_bytes(p: Option<Seq<u8>>) -> Seq<u8> {
    match p {
        Some(b) => b,
        None => Seq::empty(),
    }
}

/// The datagram that acknowledges everything up to `ack`: sequence number 0,
/// no payload.
pub open spec fn ack_datagram(ack: u32) -> Seq<u8> {
    spec_serialize(PacketView { seq: 0, ack, payload: None })
}

/// The wire form of a packet: sequence number and acknowledgement, each as
/// four big-endian bytes, followed by the payload bytes, if any.
pub open spec fn spec_serialize(p: PacketView) -> Seq<u8> {
    be_bytes_u32(p.seq) + be_bytes_u32(p.ack) + payload_bytes(p.payload)
}

/// The packet a datagram holds: none under eight bytes; the payload is
/// absent when the datagram is exactly the header.
pub open spec fn spec_deserialize(b: Seq<u8>) -> Option<PacketView> {
    if b.len() < 8 {
        None
    } else {
        Some(
            PacketView {
                seq: be_u32(b.subrange(0, 4)),
                ack: be_u32(b.subrange(4, 8)),
                payload: if b.len() > 8 {
                    Some(b.subrange(8, b.len() as int))
                } else {
                    None
                },
            },
        )
    }
}

proof fn lemma_be_roundtrip(x: u32)
    ensures
        be_u32(be_bytes_u32(x)) == x,
{
    let b = be_bytes_u32(x);
    assert(b[0] * 0x100_0000 + b[1] * 0x1_0000 + b[2] * 0x100 + b[3] == x as int);
}

proof fn lemma_be_bytes_of_be(s: Seq<u8>)
    requires
        s.len() == 4,
    ensures
        be_bytes_u32(be_u32(s)) == s,
{
    let (a, b, c, d) = (s[0] as int, s[1] as int, s[2] as int, s[3] as int);
    let x = a * 0x100_0000 + b * 0x1_0000 + c * 0x100 + d;
    assert(x == be_u32(s));
    lemma_fundamental_div_mod_converse(x, 0x100_0000, a, b * 0x1_0000 + c * 0x100 + d);
    lemma_fundamental_div_mod_converse(x, 0x1_0000, a * 0x100 + b, c * 0x100 + d);
    lemma_fundamental_div_mod_converse(a * 0x100 + b, 0x100, a, b);
    lemma_fundamental_div_mod_converse(x, 0x100, a * 0x1_0000 + b * 0x100 + c, d);
    lemma_fundamental_div_mod_converse(a * 0x1_0000 + b * 0x100 + c, 0x100, a * 0x100 + b, c);
    assert(be_bytes_u32(be_u32(s)) =~= s);
}

fn push_be_u32(buf: &mut Vec<u8>, x: u32)
    ensures
        final(buf)@ == old(buf)@ + be_bytes_u32(x),
{
    buf.push((x / 0x100_0000) as u8);
    buf.push(((x / 0x1_0000) % 0x100) as u8);
    buf.push(((x / 0x100) % 0x100) as u8);
    buf.push((x % 0x100) as u8);
    assert(final(buf)@ =~= old(buf)@ + be_bytes_u32(x));
}

pub(crate) fn read_be_u32(b: &[u8], at: usize) -> (r: u32)
    requires
        at + 4 <= b@.len(),
    ensures
        r == be_u32(b@.subrange(at as int, at + 4)),
{
    let v: u32 = (b[at] as u32) * 0x100_0000 + (b[at + 1] as u32) * 0x1_0000 + (b[at + 2] as u32)
        * 0x100 + (b[at + 3] as u32);
    v
}

/// Lays out a packet for the wire.
pub fn serialize(packet: &Packet) -> (buf: Vec<u8>)
    ensures
        buf@ == spec_serialize(packet@),
{
    let mut buf: Vec<u8> = Vec::new();
    push_be_u32(&mut buf, packet.header.seq);
    push_be_u32(&mut buf, packet.header.ack);
    match &packet.payload {
        Some(payload) => {
            let ghost start = buf@;
            let mut i: usize = 0;
            while i < payload.len()
                invariant
                    i <= payload@.len(),
                    buf@ == start + payload@.subrange(0, i as int),
                decreases payload@.len() - i,
            {
                buf.push(payload[i]);
                i = i + 1;
                assert(buf@ =~= start + payload@.subrange(0, i as int));
            }
            assert(payload@.subrange(0, payload@.len() as int) =~= payload@);
        },
        None => {
            assert(buf@ =~= buf@ + Seq::<u8>::empty());
        },
    }
    buf
}

/// Reads a datagram as a packet.
pub fn deserialize(buf: &[u8]) -> (r: Result<Packet, PacketError>)
    ensures
        match r {
            Ok(p) => spec_deserialize(buf@) == Some(p@),
            Err(e) => spec_deserialize(buf@) is None && e == (PacketError::TooShort { len: buf@.len() as usize }),
        },
{
    if buf.len() < 8 {
        return Err(PacketError::TooShort { len: buf.len() });
    }
    let seq = read_be_u32(buf, 0);
    let ack = read_be_u32(buf, 4);
    let payload = if buf.len() > 8 {
        let mut v: Vec<u8> = Vec::new();
        let mut i: usize = 8;
        while i < buf.len()
            invariant
                8 <= i <= buf@.len(),
                v@ == buf@.subrange(8, i as int),
            decreases buf@.len() - i,
        {
            v.push(buf[i]);
            i = i + 1;
            assert(v@ =~= buf@.subrange(8, i as int));
        }
        Some(v)
    } else {
        None
    };
    Ok(Packet { header: Header { seq, ack }, payload })
}

/// The datagram that acknowledges everything up to `ack`.
pub fn ack_packet_bytes(ack: u32) -> (buf: Vec<u8>)
    ensures
        buf@ == ack_datagram(ack),
{
    serialize(&Packet { header: Header { seq: 0, ack }, payload: None })
}

/// Reading back what was laid out gives the same packet, unless the payload
/// is present but empty: that one comes back without a payload.
pub proof fn lemma_deserialize_serialize(p: PacketView)
    requires
        !(p.payload matches Some(b) && b.len() == 0),
    ensures
        spec_deserialize(spec_serialize(p)) == Some(p),
{
    let s = spec_serialize(p);
    lemma_be_roundtrip(p.seq);
    lemma_be_roundtrip(p.ack);
    assert(s.subrange(0, 4) =~= be_bytes_u32(p.seq));
    assert(s.subrange(4, 8) =~= be_bytes_u32(p.ack));
    match p.payload {
        Some(b) => {
            assert(s.subrange(8, s.len() as int) =~= b);
        },
        None => {},
    }
}

/// Laying out a packet that was read from a datagram gives the datagram back.
pub proof fn lemma_serialize_deserialize(b: Seq<u8>)
    requires
        b.len() >= 8,
    ensures
        spec_serialize(spec_deserialize(b).unwrap()) == b,
{
    let p = spec_deserialize(b).unwrap();
    lemma_be_bytes_of_be(b.subrange(0, 4));
    lemma_be_bytes_of_be(b.subrange(4, 8));
    assert(spec_serialize(p) =~= b);
}

} // verus!
