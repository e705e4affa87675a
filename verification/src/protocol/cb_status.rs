//! Clientbound packets of the Status state.

use vstd::prelude::*;
use vstd::utf8::{decode_utf8, valid_utf8};

use crate::byte_stream::ByteCursor;
use crate::error::{DecodeError, ItemPathPart};
use crate::primitives::{
    ByteArray, DeserializeFor, Identifier, NetString, SerializeInto, SizedCodec,
    TrailingByteArray, Uuid, VarInt,
};

verus! {

/// The server's status document, as JSON text.
#[derive(Debug, Clone)]
pub struct StatusResponse {
    /// The `json_resp` field.
    pub json_resp: NetString,
}

/// The mathematical value of a `StatusResponse` body.
#[verifier::ext_equal]
pub struct StatusResponseV {
    /// The `json_resp` field.
    pub json_resp: Seq<u8>,
}

impl DeepView for StatusResponse {
    type V = StatusResponseV;

    open spec fn deep_view(&self) -> StatusResponseV {
        StatusResponseV {
            json_resp: self.json_resp.deep_view(),
        }
    }
}

/// Parses one `StatusResponse` body.
pub open spec fn statusresponse_dec(s: Seq<u8>, at: int) -> Option<(StatusResponseV, int)> {
    match crate::primitives::netstring_dec(s, at, None) {
        Some((v0, e0)) => Some((StatusResponseV { json_resp: v0 }, e0)),
        None => None,
    }
}

/// The wire bytes of one `StatusResponse` body.
pub open spec fn statusresponse_enc(v: StatusResponseV) -> Seq<u8> {
    crate::primitives::netstring_enc(v.json_resp)
}

/// Values a `StatusResponse` can hold.
pub open spec fn statusresponse_wf(v: StatusResponseV) -> bool {
    valid_utf8(v.json_resp)
}

/// Which `StatusResponse` values serialize successfully.
pub open spec fn statusresponse_encodable(v: StatusResponseV) -> bool {
    v.json_resp.len() <= 0x7fff_ffff
}

impl StatusResponse {
    /// Decodes one `StatusResponse` body.
    pub fn decode(cursor: &mut ByteCursor, args: ()) -> (r: Result<Self, DecodeError>)
        requires
            old(cursor).wf(),
        ensures
            final(cursor).wf(),
            final(cursor).original@ == old(cursor).original@,
            match r {
                Ok(v) => statusresponse_dec(old(cursor).original@, old(cursor).pos as int) == Some(
                    (v.deep_view(), final(cursor).pos as int),
                ) && statusresponse_wf(v.deep_view()),
                Err(_) => statusresponse_dec(old(cursor).original@, old(cursor).pos as int) is None,
            },
    {
        let json_resp = DecodeError::pathed(
            ItemPathPart::Named("json_resp"),
            crate::primitives::NetString::decode(cursor, None),
        )?;
        Ok(StatusResponse { json_resp })
    }

    /// Appends the wire bytes of this `StatusResponse` body.
    pub fn serialize(&self, out: &mut Vec<u8>, args: ()) -> (r: Result<(), DecodeError>)
        requires
            statusresponse_wf(self.deep_view()),
        ensures
            r is Ok <==> statusresponse_encodable(self.deep_view()),
            match r {
                Ok(_) => final(out)@ == old(out)@ + statusresponse_enc(self.deep_view()),
                Err(_) => final(out)@ == old(out)@,
            },
    {
        let mut tmp: Vec<u8> = Vec::new();
        self.json_resp.serialize(&mut tmp, None)?;
        let ghost base = out@;
        out.append(&mut tmp);
        proof {
            assert(out@ =~= base + statusresponse_enc(self.deep_view()));
        }
        Ok(())
    }

    /// How many bytes `serialize` would append.
    pub fn size(&self, args: ()) -> (r: usize)
        requires
            statusresponse_wf(self.deep_view()),
            statusresponse_encodable(self.deep_view()),
        ensures
            r == statusresponse_enc(self.deep_view()).len(),
    {
        let mut tmp: Vec<u8> = Vec::new();
        match self.serialize(&mut tmp, args) {
            Ok(_) => tmp.len(),
            Err(_) => {
                proof {
                    assert(false);
                }
                0
            },
        }
    }
}

/// Echoes a ping payload.
#[derive(Debug, Clone)]
pub struct PingResponse {
    /// The `payload` field.
    pub payload: i64,
}

/// The mathematical value of a `PingResponse` body.
#[verifier::ext_equal]
pub struct PingResponseV {
    /// The `payload` field.
    pub payload: i64,
}

impl DeepView for PingResponse {
    type V = PingResponseV;

    open spec fn deep_view(&self) -> PingResponseV {
        PingResponseV {
            payload: self.payload.deep_view(),
        }
    }
}

/// Parses one `PingResponse` body.
pub open spec fn pingresponse_dec(s: Seq<u8>, at: int) -> Option<(PingResponseV, int)> {
    match crate::primitives::i64_dec(s, at) {
        Some((v0, e0)) => Some((PingResponseV { payload: v0 }, e0)),
        None => None,
    }
}

/// The wire bytes of one `PingResponse` body.
pub open spec fn pingresponse_enc(v: PingResponseV) -> Seq<u8> {
    crate::primitives::be_bytes(crate::bits::spec_i64_to_u64_2c(v.payload) as nat, 8)
}

/// Values a `PingResponse` can hold.
pub open spec fn pingresponse_wf(v: PingResponseV) -> bool {
    true
}

/// Which `PingResponse` values serialize successfully.
pub open spec fn pingresponse_encodable(v: PingResponseV) -> bool {
    true
}

impl PingResponse {
    /// Decodes one `PingResponse` body.
    pub fn decode(cursor: &mut ByteCursor, args: ()) -> (r: Result<Self, DecodeError>)
        requires
            old(cursor).wf(),
        ensures
            final(cursor).wf(),
            final(cursor).original@ == old(cursor).original@,
            match r {
                Ok(v) => pingresponse_dec(old(cursor).original@, old(cursor).pos as int) == Some(
                    (v.deep_view(), final(cursor).pos as int),
                ) && pingresponse_wf(v.deep_view()),
                Err(_) => pingresponse_dec(old(cursor).original@, old(cursor).pos as int) is None,
            },
    {
        let payload = DecodeError::pathed(
            ItemPathPart::Named("payload"),
            i64::decode(cursor, ()),
        )?;
        Ok(PingResponse { payload })
    }

    /// Appends the wire bytes of this `PingResponse` body.
    pub fn serialize(&self, out: &mut Vec<u8>, args: ()) -> (r: Result<(), DecodeError>)
        requires
            pingresponse_wf(self.deep_view()),
        ensures
            r is Ok <==> pingresponse_encodable(self.deep_view()),
            match r {
                Ok(_) => final(out)@ == old(out)@ + pingresponse_enc(self.deep_view()),
                Err(_) => final(out)@ == old(out)@,
            },
    {
        let mut tmp: Vec<u8> = Vec::new();
        self.payload.serialize(&mut tmp, ())?;
        let ghost base = out@;
        out.append(&mut tmp);
        proof {
            assert(out@ =~= base + pingresponse_enc(self.deep_view()));
        }
        Ok(())
    }

    /// How many bytes `serialize` would append.
    pub fn size(&self, args: ()) -> (r: usize)
        requires
            pingresponse_wf(self.deep_view()),
            pingresponse_encodable(self.deep_view()),
        ensures
            r == pingresponse_enc(self.deep_view()).len(),
    {
        let mut tmp: Vec<u8> = Vec::new();
        match self.serialize(&mut tmp, args) {
            Ok(_) => tmp.len(),
            Err(_) => {
                proof {
                    assert(false);
                }
                0
            },
        }
    }
}

/// The packets a peer may send in this state, by id.
#[derive(Debug)]
pub enum Packet {
    /// Id 0.
    StatusResponse(StatusResponse),
    /// Id 1.
    PingResponse(PingResponse),
}

/// The mathematical value of a packet in this state.
pub enum PacketV {
    /// Id 0.
    StatusResponse(StatusResponseV),
    /// Id 1.
    PingResponse(PingResponseV),
}

impl DeepView for Packet {
    type V = PacketV;

    open spec fn deep_view(&self) -> PacketV {
        match self {
            Packet::StatusResponse(p) => PacketV::StatusResponse(p.deep_view()),
            Packet::PingResponse(p) => PacketV::PingResponse(p.deep_view()),
        }
    }
}

/// Parses a frame body in this state: a packet id, then the matching
/// shape. An id outside the declared set parses to nothing.
pub open spec fn packet_dec(s: Seq<u8>, at: int) -> Option<(PacketV, int)> {
    match crate::primitives::varint_dec(s, at) {
        Some((id, e)) => if id == 0 {
            match statusresponse_dec(s, e) {
                Some((v, e2)) => Some((PacketV::StatusResponse(v), e2)),
                None => None,
            }
        } else if id == 1 {
            match pingresponse_dec(s, e) {
                Some((v, e2)) => Some((PacketV::PingResponse(v), e2)),
                None => None,
            }
        } else {
            None
        },
        None => None,
    }
}

/// The wire bytes of a packet in this state: its id, then its body.
pub open spec fn packet_enc(v: PacketV) -> Seq<u8> {
    match v {
        PacketV::StatusResponse(p) => crate::primitives::varint_enc(0) + statusresponse_enc(p),
        PacketV::PingResponse(p) => crate::primitives::varint_enc(1) + pingresponse_enc(p),
    }
}

/// Which packet values serialize successfully.
pub open spec fn packet_encodable(v: PacketV) -> bool {
    match v {
        PacketV::StatusResponse(p) => statusresponse_encodable(p),
        PacketV::PingResponse(p) => pingresponse_encodable(p),
    }
}

/// Values the packet type can hold.
pub open spec fn packet_wf(v: PacketV) -> bool {
    match v {
        PacketV::StatusResponse(p) => statusresponse_wf(p),
        PacketV::PingResponse(p) => pingresponse_wf(p),
    }
}

impl Packet {
    /// Reads the packet id and dispatches to the matching shape's decode.
    ///
    /// An id with no shape in this state is a fatal unknown-packet error,
    /// even when that id names a shape of a different state.
    pub fn decode(cursor: &mut ByteCursor) -> (r: Result<Packet, DecodeError>)
        requires
            old(cursor).wf(),
        ensures
            final(cursor).wf(),
            final(cursor).original@ == old(cursor).original@,
            crate::primitives::varint_dec(old(cursor).original@, old(cursor).pos as int)
                matches Some((idv, e)) ==> ((idv != 0 && idv != 1) ==> (r matches Err(err)
                && err.item_kind == Some("packet id") && (err.message
                matches crate::error::ErrorText::Owned(m) && vstd::utf8::encode_utf8(m@)
                == crate::error::unknown_packet_bytes(idv as int, ("Status")@)))),
            match r {
                Ok(p) => packet_dec(old(cursor).original@, old(cursor).pos as int) == Some(
                    (p.deep_view(), final(cursor).pos as int),
                ) && packet_wf(p.deep_view()),
                Err(_) => packet_dec(old(cursor).original@, old(cursor).pos as int) is None,
            },
    {
        let id = VarInt::decode(cursor, ())?;
        if id.0 == 0 {
            let p = StatusResponse::decode(cursor, ())?;
            return Ok(Packet::StatusResponse(p));
        }
        if id.0 == 1 {
            let p = PingResponse::decode(cursor, ())?;
            return Ok(Packet::PingResponse(p));
        }
        Err(crate::error::unknown_packet(id.0, "Status", cursor.pos()))
    }

    /// Decodes one whole frame body.
    pub fn decode_bytes(body: &[u8]) -> (r: Result<Packet, DecodeError>)
        ensures
            match r {
                Ok(p) => packet_dec(body@, 0) matches Some((v, e)) && v == p.deep_view()
                    && packet_wf(p.deep_view()),
                Err(_) => packet_dec(body@, 0) is None,
            },
    {
        let mut cursor = ByteCursor::new(body);
        Packet::decode(&mut cursor)
    }

    /// Appends the id and body of this packet.
    pub fn encode(&self, out: &mut Vec<u8>) -> (r: Result<(), DecodeError>)
        requires
            packet_wf(self.deep_view()),
        ensures
            r is Ok <==> packet_encodable(self.deep_view()),
            match r {
                Ok(_) => final(out)@ == old(out)@ + packet_enc(self.deep_view()),
                Err(_) => final(out)@ == old(out)@,
            },
    {
        match self {
            Packet::StatusResponse(p) => {
                let mut tmp: Vec<u8> = Vec::new();
                p.serialize(&mut tmp, ())?;
                let ghost base = out@;
                crate::var_int::encode_var_u32(out, 0);
                out.append(&mut tmp);
                proof {
                    assert(out@ =~= base + packet_enc(self.deep_view()));
                }
                Ok(())
            },
            Packet::PingResponse(p) => {
                let mut tmp: Vec<u8> = Vec::new();
                p.serialize(&mut tmp, ())?;
                let ghost base = out@;
                crate::var_int::encode_var_u32(out, 1);
                out.append(&mut tmp);
                proof {
                    assert(out@ =~= base + packet_enc(self.deep_view()));
                }
                Ok(())
            },
        }
    }

    /// How many bytes `encode` would append.
    pub fn size(&self) -> (r: usize)
        requires
            packet_wf(self.deep_view()),
            packet_encodable(self.deep_view()),
        ensures
            r == packet_enc(self.deep_view()).len(),
    {
        let mut tmp: Vec<u8> = Vec::new();
        match self.encode(&mut tmp) {
            Ok(_) => tmp.len(),
            Err(_) => {
                proof {
                    assert(false);
                }
                0
            },
        }
    }
}



} // verus!
