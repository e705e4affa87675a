//! Serverbound packets of the Handshake state.

use vstd::prelude::*;
use vstd::utf8::{decode_utf8, valid_utf8};

use crate::byte_stream::ByteCursor;
use crate::error::{DecodeError, ItemPathPart};
use crate::primitives::{
    ByteArray, DeserializeFor, Identifier, NetString, SerializeInto, SizedCodec,
    TrailingByteArray, Uuid, VarInt,
};

verus! {

/// The opening packet: protocol version, server address, port, and the state to move to.
#[derive(Debug, Clone)]
pub struct Handshake {
    /// The `version` field.
    pub version: VarInt,
    /// The `server_addr` field.
    pub server_addr: NetString,
    /// The `port` field.
    pub port: u16,
    /// The `next_state` field.
    pub next_state: VarInt,
}

/// The mathematical value of a `Handshake` body.
#[verifier::ext_equal]
pub struct HandshakeV {
    /// The `version` field.
    pub version: i32,
    /// The `server_addr` field.
    pub server_addr: Seq<u8>,
    /// The `port` field.
    pub port: u16,
    /// The `next_state` field.
    pub next_state: i32,
}

impl DeepView for Handshake {
    type V = HandshakeV;

    open spec fn deep_view(&self) -> HandshakeV {
        HandshakeV {
            version: self.version.deep_view(),
            server_addr: self.server_addr.deep_view(),
            port: self.port.deep_view(),
            next_state: self.next_state.deep_view(),
        }
    }
}

/// Parses one `Handshake` body.
pub open spec fn handshake_dec(s: Seq<u8>, at: int) -> Option<(HandshakeV, int)> {
    match crate::primitives::varint_dec(s, at) {
        Some((v0, e0)) => match crate::primitives::netstring_dec(s, e0, Some(255u32)) {
        Some((v1, e1)) => match crate::primitives::u16_dec(s, e1) {
        Some((v2, e2)) => match crate::primitives::varint_dec(s, e2) {
        Some((v3, e3)) => Some((HandshakeV { version: v0, server_addr: v1, port: v2, next_state: v3 }, e3)),
        None => None,
    },
        None => None,
    },
        None => None,
    },
        None => None,
    }
}

/// The wire bytes of one `Handshake` body.
pub open spec fn handshake_enc(v: HandshakeV) -> Seq<u8> {
    crate::primitives::varint_enc(v.version) + crate::primitives::netstring_enc(v.server_addr) + crate::primitives::be_bytes(v.port as nat, 2) + crate::primitives::varint_enc(v.next_state)
}

/// Values a `Handshake` can hold.
pub open spec fn handshake_wf(v: HandshakeV) -> bool {
    valid_utf8(v.server_addr)
}

/// Which `Handshake` values serialize successfully.
pub open spec fn handshake_encodable(v: HandshakeV) -> bool {
    v.server_addr.len() <= 0x7fff_ffff && decode_utf8(v.server_addr).len() <= 255
}

impl Handshake {
    /// Decodes one `Handshake` body.
    pub fn decode(cursor: &mut ByteCursor, args: ()) -> (r: Result<Self, DecodeError>)
        requires
            old(cursor).wf(),
        ensures
            final(cursor).wf(),
            final(cursor).original@ == old(cursor).original@,
            match r {
                Ok(v) => handshake_dec(old(cursor).original@, old(cursor).pos as int) == Some(
                    (v.deep_view(), final(cursor).pos as int),
                ) && handshake_wf(v.deep_view()),
                Err(_) => handshake_dec(old(cursor).original@, old(cursor).pos as int) is None,
            },
    {
        let version = DecodeError::pathed(
            ItemPathPart::Named("version"),
            crate::primitives::VarInt::decode(cursor, ()),
        )?;
        let server_addr = DecodeError::pathed(
            ItemPathPart::Named("server_addr"),
            crate::primitives::NetString::decode(cursor, Some(255u32)),
        )?;
        let port = DecodeError::pathed(
            ItemPathPart::Named("port"),
            u16::decode(cursor, ()),
        )?;
        let next_state = DecodeError::pathed(
            ItemPathPart::Named("next_state"),
            crate::primitives::VarInt::decode(cursor, ()),
        )?;
        Ok(Handshake { version, server_addr, port, next_state })
    }

    /// Appends the wire bytes of this `Handshake` body.
    pub fn serialize(&self, out: &mut Vec<u8>, args: ()) -> (r: Result<(), DecodeError>)
        requires
            handshake_wf(self.deep_view()),
        ensures
            r is Ok <==> handshake_encodable(self.deep_view()),
            match r {
                Ok(_) => final(out)@ == old(out)@ + handshake_enc(self.deep_view()),
                Err(_) => final(out)@ == old(out)@,
            },
    {
        let mut tmp: Vec<u8> = Vec::new();
        self.version.serialize(&mut tmp, ())?;
        self.server_addr.serialize(&mut tmp, Some(255u32))?;
        self.port.serialize(&mut tmp, ())?;
        self.next_state.serialize(&mut tmp, ())?;
        let ghost base = out@;
        out.append(&mut tmp);
        proof {
            assert(out@ =~= base + handshake_enc(self.deep_view()));
        }
        Ok(())
    }

    /// How many bytes `serialize` would append.
    pub fn size(&self, args: ()) -> (r: usize)
        requires
            handshake_wf(self.deep_view()),
            handshake_encodable(self.deep_view()),
        ensures
            r == handshake_enc(self.deep_view()).len(),
    {
        let mut tmp: Vec<u8> = Vec::new();
        match self.serialize(&mut tmp, args) {
            Ok(_) => tmp.len(),
            Err(_) => {
                proof {
                    assert(false);
                }
                0
            },
        }
    }
}

/// The packets a peer may send in this state, by id.
#[derive(Debug)]
pub enum Packet {
    /// Id 0.
    Handshake(Handshake),
}

/// The mathematical value of a packet in this state.
pub enum PacketV {
    /// Id 0.
    Handshake(HandshakeV),
}

impl DeepView for Packet {
    type V = PacketV;

    open spec fn deep_view(&self) -> PacketV {
        match self {
            Packet::Handshake(p) => PacketV::Handshake(p.deep_view()),
        }
    }
}

/// Parses a frame body in this state: a packet id, then the matching
/// shape. An id outside the declared set parses to nothing.
pub open spec fn packet_dec(s: Seq<u8>, at: int) -> Option<(PacketV, int)> {
    match crate::primitives::varint_dec(s, at) {
        Some((id, e)) => if id == 0 {
            match handshake_dec(s, e) {
                Some((v, e2)) => Some((PacketV::Handshake(v), e2)),
                None => None,
            }
        } else {
            None
        },
        None => None,
    }
}

/// The wire bytes of a packet in this state: its id, then its body.
pub open spec fn packet_enc(v: PacketV) -> Seq<u8> {
    match v {
        PacketV::Handshake(p) => crate::primitives::varint_enc(0) + handshake_enc(p),
    }
}

/// Which packet values serialize successfully.
pub open spec fn packet_encodable(v: PacketV) -> bool {
    match v {
        PacketV::Handshake(p) => handshake_encodable(p),
    }
}

/// Values the packet type can hold.
pub open spec fn packet_wf(v: PacketV) -> bool {
    match v {
        PacketV::Handshake(p) => handshake_wf(p),
    }
}

impl Packet {
    /// Reads the packet id and dispatches to the matching shape's decode.
    ///
    /// An id with no shape in this state is a fatal unknown-packet error,
    /// even when that id names a shape of a different state.
    pub fn decode(cursor: &mut ByteCursor) -> (r: Result<Packet, DecodeError>)
        requires
            old(cursor).wf(),
        ensures
            final(cursor).wf(),
            final(cursor).original@ == old(cursor).original@,
            crate::primitives::varint_dec(old(cursor).original@, old(cursor).pos as int)
                matches Some((idv, e)) ==> ((idv != 0) ==> (r matches Err(err)
                && err.item_kind == Some("packet id") && (err.message
                matches crate::error::ErrorText::Owned(m) && vstd::utf8::encode_utf8(m@)
                == crate::error::unknown_packet_bytes(idv as int, ("Handshake")@)))),
            match r {
                Ok(p) => packet_dec(old(cursor).original@, old(cursor).pos as int) == Some(
                    (p.deep_view(), final(cursor).pos as int),
                ) && packet_wf(p.deep_view()),
                Err(_) => packet_dec(old(cursor).original@, old(cursor).pos as int) is None,
            },
    {
        let id = VarInt::decode(cursor, ())?;
        if id.0 == 0 {
            let p = Handshake::decode(cursor, ())?;
            return Ok(Packet::Handshake(p));
        }
        Err(crate::error::unknown_packet(id.0, "Handshake", cursor.pos()))
    }

    /// Decodes one whole frame body.
    pub fn decode_bytes(body: &[u8]) -> (r: Result<Packet, DecodeError>)
        ensures
            match r {
                Ok(p) => packet_dec(body@, 0) matches Some((v, e)) && v == p.deep_view()
                    && packet_wf(p.deep_view()),
                Err(_) => packet_dec(body@, 0) is None,
            },
    {
        let mut cursor = ByteCursor::new(body);
        Packet::decode(&mut cursor)
    }

    /// Appends the id and body of this packet.
    pub fn encode(&self, out: &mut Vec<u8>) -> (r: Result<(), DecodeError>)
        requires
            packet_wf(self.deep_view()),
        ensures
            r is Ok <==> packet_encodable(self.deep_view()),
            match r {
                Ok(_) => final(out)@ == old(out)@ + packet_enc(self.deep_view()),
                Err(_) => final(out)@ == old(out)@,
            },
    {
        match self {
            Packet::Handshake(p) => {
                let mut tmp: Vec<u8> = Vec::new();
                p.serialize(&mut tmp, ())?;
                let ghost base = out@;
                crate::var_int::encode_var_u32(out, 0);
                out.append(&mut tmp);
                proof {
                    assert(out@ =~= base + packet_enc(self.deep_view()));
                }
                Ok(())
            },
        }
    }

    /// How many bytes `encode` would append.
    pub fn size(&self) -> (r: usize)
        requires
            packet_wf(self.deep_view()),
            packet_encodable(self.deep_view()),
        ensures
            r == packet_enc(self.deep_view()).len(),
    {
        let mut tmp: Vec<u8> = Vec::new();
        match self.encode(&mut tmp) {
            Ok(_) => tmp.len(),
            Err(_) => {
                proof {
                    assert(false);
                }
                0
            },
        }
    }
}




// === Two-phase decode: summary and lazy view === //

/// The validated field offsets of one handshake body: where each field
/// starts, computed once during [`Handshake::summarize`]. A summary is
/// meaningful only together with the exact buffer it was produced from;
/// [`HandshakeView`] keeps the two paired.
#[derive(Debug, Copy, Clone, PartialEq, Eq, Structural)]
pub struct HandshakeSummary {
    /// Where the record starts.
    pub start: usize,
    /// Where `server_addr` starts: the end of `version`.
    pub addr_at: usize,
    /// Where `port` starts: the end of `server_addr`.
    pub port_at: usize,
    /// Where `next_state` starts: the end of `port`.
    pub next_at: usize,
    /// Where the record ends.
    pub end: usize,
}

/// The stored offsets are exactly the ends of sequentially parsing each
/// prior field from the record's start.
pub open spec fn summary_matches(s: Seq<u8>, m: HandshakeSummary) -> bool {
    &&& crate::primitives::varint_dec(s, m.start as int) matches Some((v0, e1)) && e1
        == m.addr_at as int
    &&& crate::primitives::netstring_dec(s, m.addr_at as int, Some(255u32)) matches Some(
        (a, e2),
    ) && e2 == m.port_at as int
    &&& crate::primitives::u16_dec(s, m.port_at as int) matches Some((p, e3)) && e3
        == m.next_at as int
    &&& crate::primitives::varint_dec(s, m.next_at as int) matches Some((n, e4)) && e4
        == m.end as int
}

/// Offset replay agrees with eager decoding: when a handshake body
/// parses, the start offset of each field equals the end of sequentially
/// parsing every field before it, and the field values reached that way
/// are the eagerly decoded ones.
pub proof fn lemma_handshake_offsets(s: Seq<u8>, at: int)
    ensures
        handshake_dec(s, at) matches Some((v, end)) ==> {
            &&& crate::primitives::varint_dec(s, at) matches Some((v0, e1)) && v0 == v.version
                && (crate::primitives::netstring_dec(s, e1, Some(255u32)) matches Some((a, e2))
                && a == v.server_addr && (crate::primitives::u16_dec(s, e2) matches Some(
                (p, e3),
            ) && p == v.port && (crate::primitives::varint_dec(s, e3) matches Some((n, e4))
                && n == v.next_state && e4 == end)))
        },
{
}

impl Handshake {
    /// Validates one handshake body and records each field's offset,
    /// leaving the cursor at the record's end.
    pub fn summarize(cursor: &mut ByteCursor) -> (r: Result<HandshakeSummary, DecodeError>)
        requires
            old(cursor).wf(),
        ensures
            final(cursor).wf(),
            final(cursor).original@ == old(cursor).original@,
            match r {
                Ok(m) => {
                    &&& m.start == old(cursor).pos
                    &&& summary_matches(old(cursor).original@, m)
                    &&& handshake_dec(old(cursor).original@, old(cursor).pos as int)
                        matches Some((v, end)) && end == m.end as int
                    &&& final(cursor).pos == m.end
                },
                Err(_) => handshake_dec(old(cursor).original@, old(cursor).pos as int) is None,
            },
    {
        let start = cursor.pos();
        let _version = VarInt::decode(cursor, ())?;
        let addr_at = cursor.pos();
        let _addr = NetString::decode(cursor, Some(255u32))?;
        let port_at = cursor.pos();
        let _port = u16::decode(cursor, ())?;
        let next_at = cursor.pos();
        let _next = VarInt::decode(cursor, ())?;
        let end = cursor.pos();
        Ok(HandshakeSummary { start, addr_at, port_at, next_at, end })
    }
}

/// A lazy, read-only projection of a validated handshake body: each
/// accessor re-enters the buffer at its field's recorded offset, without
/// re-validating. Holding the cursor inside the view keeps the summary
/// paired with the exact buffer it came from.
#[derive(Debug, Clone)]
pub struct HandshakeView<'a> {
    /// The validated offsets.
    pub summary: HandshakeSummary,
    /// A cursor over the buffer the summary was produced from.
    pub cursor: ByteCursor<'a>,
}

impl<'a> HandshakeView<'a> {
    /// The summary belongs to this exact buffer.
    pub open spec fn wf(self) -> bool {
        &&& self.cursor.wf()
        &&& summary_matches(self.cursor.original@, self.summary)
    }

    /// Pairs a summary with a cursor over the buffer it was produced
    /// from. Construction demands the match, so a summary can never be
    /// replayed over a different buffer.
    pub fn view(summary: HandshakeSummary, cursor: ByteCursor<'a>) -> (r: Self)
        requires
            cursor.wf(),
            summary_matches(cursor.original@, summary),
        ensures
            r.wf(),
            r.summary == summary,
            r.cursor.original@ == cursor.original@,
    {
        HandshakeView { summary, cursor }
    }

    /// The `version` field, re-read from its offset.
    pub fn version(&self) -> (r: VarInt)
        requires
            self.wf(),
        ensures
            crate::primitives::varint_dec(
                self.cursor.original@,
                self.summary.start as int,
            ) matches Some((v, e)) && r.0 == v,
    {
        let mut c = self.cursor.with_pos(self.summary.start);
        match VarInt::decode(&mut c, ()) {
            Ok(v) => v,
            Err(_) => {
                proof {
                    assert(false);
                }
                VarInt(0)
            },
        }
    }

    /// The `server_addr` field, re-read from its offset.
    pub fn server_addr(&self) -> (r: NetString)
        requires
            self.wf(),
        ensures
            crate::primitives::netstring_dec(
                self.cursor.original@,
                self.summary.addr_at as int,
                Some(255u32),
            ) matches Some((v, e)) && r.data@ == v,
    {
        proof {
            crate::var_int::lemma_vu32_dec_bounds(
                self.cursor.original@,
                self.summary.addr_at as int,
            );
        }
        let mut c = self.cursor.with_pos(self.summary.addr_at);
        match NetString::decode(&mut c, Some(255u32)) {
            Ok(v) => v,
            Err(_) => {
                proof {
                    assert(false);
                }
                NetString { data: Vec::new() }
            },
        }
    }

    /// The `port` field, re-read from its offset.
    pub fn port(&self) -> (r: u16)
        requires
            self.wf(),
        ensures
            crate::primitives::u16_dec(self.cursor.original@, self.summary.port_at as int)
                matches Some((v, e)) && r == v,
    {
        let mut c = self.cursor.with_pos(self.summary.port_at);
        match u16::decode(&mut c, ()) {
            Ok(v) => v,
            Err(_) => {
                proof {
                    assert(false);
                }
                0
            },
        }
    }

    /// The `next_state` field, re-read from its offset.
    pub fn next_state(&self) -> (r: VarInt)
        requires
            self.wf(),
        ensures
            crate::primitives::varint_dec(
                self.cursor.original@,
                self.summary.next_at as int,
            ) matches Some((v, e)) && r.0 == v,
    {
        let mut c = self.cursor.with_pos(self.summary.next_at);
        match VarInt::decode(&mut c, ()) {
            Ok(v) => v,
            Err(_) => {
                proof {
                    assert(false);
                }
                VarInt(0)
            },
        }
    }

    /// Converts the view into an owned record by reifying every field.
    ///
    /// The result equals what eager decoding of the whole record yields.
    pub fn reify(&self) -> (r: Handshake)
        requires
            self.wf(),
        ensures
            handshake_dec(self.cursor.original@, self.summary.start as int) matches Some(
                (v, end),
            ) && r.deep_view() == v,
    {
        proof {
            lemma_handshake_offsets(self.cursor.original@, self.summary.start as int);
        }
        let version = self.version();
        let server_addr = self.server_addr();
        let port = self.port();
        let next_state = self.next_state();
        let r = Handshake { version, server_addr, port, next_state };
        proof {
            match handshake_dec(self.cursor.original@, self.summary.start as int) {
                Some((v, end)) => {
                    assert(r.deep_view() =~~= v);
                },
                None => {},
            }
        }
        r
    }
}


/// End-to-end round trip for the Handshake registry: encoding any
/// well-formed, encodable handshake packet and decoding the bytes in the
/// Handshake state yields the same value and consumes every byte.
#[verifier::rlimit(100)]
pub proof fn lemma_handshake_packet_round_trip(v: HandshakeV)
    requires
        handshake_wf(v),
        handshake_encodable(v),
    ensures
        packet_dec(packet_enc(PacketV::Handshake(v)), 0) == Some(
            (PacketV::Handshake(v), packet_enc(PacketV::Handshake(v)).len() as int),
        ),
{
    let s = packet_enc(PacketV::Handshake(v));
    crate::primitives::lemma_be_bytes_len(v.port as nat, 2);
    let id_b = crate::primitives::varint_enc(0);
    let f1 = crate::primitives::varint_enc(v.version);
    let f2 = crate::primitives::netstring_enc(v.server_addr);
    let f3 = crate::primitives::be_bytes(v.port as nat, 2);
    let f4 = crate::primitives::varint_enc(v.next_state);
    assert(s =~= id_b + (f1 + f2 + f3 + f4));
    assert(s.subrange(0, s.len() as int) =~= s);
    assert(f1 + f2 + f3 + f4 =~= f1 + (f2 + (f3 + f4)));
    assert(s.subrange(0, s.len() as int) == id_b + (f1 + (f2 + (f3 + f4))));
    crate::primitives::lemma_concat_split(s, 0, id_b, f1 + (f2 + (f3 + f4)));
    crate::primitives::lemma_varint_dec_enc(s, 0, 0);
    let e0 = id_b.len() as int;
    crate::primitives::lemma_concat_split(s, e0, f1, f2 + (f3 + f4));
    crate::primitives::lemma_varint_dec_enc(s, e0, v.version);
    let e1 = e0 + f1.len();
    crate::primitives::lemma_concat_split(s, e1, f2, f3 + f4);
    crate::primitives::lemma_netstring_dec_enc(s, e1, v.server_addr, Some(255u32));
    let e2 = e1 + f2.len();
    crate::primitives::lemma_concat_split(s, e2, f3, f4);
    crate::primitives::lemma_u16_dec_enc(s, e2, v.port);
    let e3 = e2 + f3.len();
    assert(s.subrange(e3, e3 + f4.len()) == f4);
    crate::primitives::lemma_varint_dec_enc(s, e3, v.next_state);
    let e4 = e3 + f4.len();
    assert(e4 == s.len());
    assert(handshake_dec(s, e0) == Some((v, e4))) by {
        match handshake_dec(s, e0) {
            Some((got, end)) => {
                assert(got =~~= v);
            },
            None => {},
        }
    }
}

} // verus!
