//! Serverbound packets of the Status state.

use vstd::prelude::*;
use vstd::utf8::{decode_utf8, valid_utf8};

use crate::byte_stream::ByteCursor;
use crate::error::{DecodeError, ItemPathPart};
use crate::primitives::{
    ByteArray, DeserializeFor, Identifier, NetString, SerializeInto, SizedCodec,
    TrailingByteArray, Uuid, VarInt,
};

verus! {

/// Asks for the server's status document.
#[derive(Debug, Clone)]
pub struct StatusRequest {}

/// The mathematical value of a `StatusRequest` body.
#[verifier::ext_equal]
pub struct StatusRequestV {}

impl DeepView for StatusRequest {
    type V = StatusRequestV;

    open spec fn deep_view(&self) -> StatusRequestV {
        StatusRequestV {}
    }
}

/// Parses one `StatusRequest` body.
pub open spec fn statusrequest_dec(s: Seq<u8>, at: int) -> Option<(StatusRequestV, int)> {
    if 0 <= at <= s.len() { Some((StatusRequestV {}, at)) } else { None }
}

/// The wire bytes of one `StatusRequest` body.
pub open spec fn statusrequest_enc(v: StatusRequestV) -> Seq<u8> {
    Seq::<u8>::empty()
}

/// Values a `StatusRequest` can hold.
pub open spec fn statusrequest_wf(v: StatusRequestV) -> bool {
    true
}

/// Which `StatusRequest` values serialize successfully.
pub open spec fn statusrequest_encodable(v: StatusRequestV) -> bool {
    true
}

impl StatusRequest {
    /// Decodes one `StatusRequest` body.
    pub fn decode(cursor: &mut ByteCursor, args: ()) -> (r: Result<Self, DecodeError>)
        requires
            old(cursor).wf(),
        ensures
            final(cursor).wf(),
            final(cursor).original@ == old(cursor).original@,
            match r {
                Ok(v) => statusrequest_dec(old(cursor).original@, old(cursor).pos as int) == Some(
                    (v.deep_view(), final(cursor).pos as int),
                ) && statusrequest_wf(v.deep_view()),
                Err(_) => statusrequest_dec(old(cursor).original@, old(cursor).pos as int) is None,
            },
    {

        Ok(StatusRequest { })
    }

    /// Appends the wire bytes of this `StatusRequest` body.
    pub fn serialize(&self, out: &mut Vec<u8>, args: ()) -> (r: Result<(), DecodeError>)
        requires
            statusrequest_wf(self.deep_view()),
        ensures
            r is Ok <==> statusrequest_encodable(self.deep_view()),
            match r {
                Ok(_) => final(out)@ == old(out)@ + statusrequest_enc(self.deep_view()),
                Err(_) => final(out)@ == old(out)@,
            },
    {
        let mut tmp: Vec<u8> = Vec::new();

        let ghost base = out@;
        out.append(&mut tmp);
        proof {
            assert(out@ =~= base + statusrequest_enc(self.deep_view()));
        }
        Ok(())
    }

    /// How many bytes `serialize` would append.
    pub fn size(&self, args: ()) -> (r: usize)
        requires
            statusrequest_wf(self.deep_view()),
            statusrequest_encodable(self.deep_view()),
        ensures
            r == statusrequest_enc(self.deep_view()).len(),
    {
        let mut tmp: Vec<u8> = Vec::new();
        match self.serialize(&mut tmp, args) {
            Ok(_) => tmp.len(),
            Err(_) => {
                proof {
                    assert(false);
                }
                0
            },
        }
    }
}

/// Asks the server to echo a payload.
#[derive(Debug, Clone)]
pub struct PingRequest {
    /// The `payload` field.
    pub payload: i64,
}

/// The mathematical value of a `PingRequest` body.
#[verifier::ext_equal]
pub struct PingRequestV {
    /// The `payload` field.
    pub payload: i64,
}

impl DeepView for PingRequest {
    type V = PingRequestV;

    open spec fn deep_view(&self) -> PingRequestV {
        PingRequestV {
            payload: self.payload.deep_view(),
        }
    }
}

/// Parses one `PingRequest` body.
pub open spec fn pingrequest_dec(s: Seq<u8>, at: int) -> Option<(PingRequestV, int)> {
    match crate::primitives::i64_dec(s, at) {
        Some((v0, e0)) => Some((PingRequestV { payload: v0 }, e0)),
        None => None,
    }
}

/// The wire bytes of one `PingRequest` body.
pub open spec fn pingrequest_enc(v: PingRequestV) -> Seq<u8> {
    crate::primitives::be_bytes(crate::bits::spec_i64_to_u64_2c(v.payload) as nat, 8)
}

/// Values a `PingRequest` can hold.
pub open spec fn pingrequest_wf(v: PingRequestV) -> bool {
    true
}

/// Which `PingRequest` values serialize successfully.
pub open spec fn pingrequest_encodable(v: PingRequestV) -> bool {
    true
}

impl PingRequest {
    /// Decodes one `PingRequest` body.
    pub fn decode(cursor: &mut ByteCursor, args: ()) -> (r: Result<Self, DecodeError>)
        requires
            old(cursor).wf(),
        ensures
            final(cursor).wf(),
            final(cursor).original@ == old(cursor).original@,
            match r {
                Ok(v) => pingrequest_dec(old(cursor).original@, old(cursor).pos as int) == Some(
                    (v.deep_view(), final(cursor).pos as int),
                ) && pingrequest_wf(v.deep_view()),
                Err(_) => pingrequest_dec(old(cursor).original@, old(cursor).pos as int) is None,
            },
    {
        let payload = DecodeError::pathed(
            ItemPathPart::Named("payload"),
            i64::decode(cursor, ()),
        )?;
        Ok(PingRequest { payload })
    }

    /// Appends the wire bytes of this `PingRequest` body.
    pub fn serialize(&self, out: &mut Vec<u8>, args: ()) -> (r: Result<(), DecodeError>)
        requires
            pingrequest_wf(self.deep_view()),
        ensures
            r is Ok <==> pingrequest_encodable(self.deep_view()),
            match r {
                Ok(_) => final(out)@ == old(out)@ + pingrequest_enc(self.deep_view()),
                Err(_) => final(out)@ == old(out)@,
            },
    {
        let mut tmp: Vec<u8> = Vec::new();
        self.payload.serialize(&mut tmp, ())?;
        let ghost base = out@;
        out.append(&mut tmp);
        proof {
            assert(out@ =~= base + pingrequest_enc(self.deep_view()));
        }
        Ok(())
    }

    /// How many bytes `serialize` would append.
    pub fn size(&self, args: ()) -> (r: usize)
        requires
            pingrequest_wf(self.deep_view()),
            pingrequest_encodable(self.deep_view()),
        ensures
            r == pingrequest_enc(self.deep_view()).len(),
    {
        let mut tmp: Vec<u8> = Vec::new();
        match self.serialize(&mut tmp, args) {
            Ok(_) => tmp.len(),
            Err(_) => {
                proof {
                    assert(false);
                }
                0
            },
        }
    }
}

/// The packets a peer may send in this state, by id.
#[derive(Debug)]
pub enum Packet {
    /// Id 0.
    StatusRequest(StatusRequest),
    /// Id 1.
    PingRequest(PingRequest),
}

/// The mathematical value of a packet in this state.
pub enum PacketV {
    /// Id 0.
    StatusRequest(StatusRequestV),
    /// Id 1.
    PingRequest(PingRequestV),
}

impl DeepView for Packet {
    type V = PacketV;

    open spec fn deep_view(&self) -> PacketV {
        match self {
            Packet::StatusRequest(p) => PacketV::StatusRequest(p.deep_view()),
            Packet::PingRequest(p) => PacketV::PingRequest(p.deep_view()),
        }
    }
}

/// Parses a frame body in this state: a packet id, then the matching
/// shape. An id outside the declared set parses to nothing.
pub open spec fn packet_dec(s: Seq<u8>, at: int) -> Option<(PacketV, int)> {
    match crate::primitives::varint_dec(s, at) {
        Some((id, e)) => if id == 0 {
            match statusrequest_dec(s, e) {
                Some((v, e2)) => Some((PacketV::StatusRequest(v), e2)),
                None => None,
            }
        } else if id == 1 {
            match pingrequest_dec(s, e) {
                Some((v, e2)) => Some((PacketV::PingRequest(v), e2)),
                None => None,
            }
        } else {
            None
        },
        None => None,
    }
}

/// The wire bytes of a packet in this state: its id, then its body.
pub open spec fn packet_enc(v: PacketV) -> Seq<u8> {
    match v {
        PacketV::StatusRequest(p) => crate::primitives::varint_enc(0) + statusrequest_enc(p),
        PacketV::PingRequest(p) => crate::primitives::varint_enc(1) + pingrequest_enc(p),
    }
}

/// Which packet values serialize successfully.
pub open spec fn packet_encodable(v: PacketV) -> bool {
    match v {
        PacketV::StatusRequest(p) => statusrequest_encodable(p),
        PacketV::PingRequest(p) => pingrequest_encodable(p),
    }
}

/// Values the packet type can hold.
pub open spec fn packet_wf(v: PacketV) -> bool {
    match v {
        PacketV::StatusRequest(p) => statusrequest_wf(p),
        PacketV::PingRequest(p) => pingrequest_wf(p),
    }
}

impl Packet {
    /// Reads the packet id and dispatches to the matching shape's decode.
    ///
    /// An id with no shape in this state is a fatal unknown-packet error,
    /// even when that id names a shape of a different state.
    pub fn decode(cursor: &mut ByteCursor) -> (r: Result<Packet, DecodeError>)
        requires
            old(cursor).wf(),
        ensures
            final(cursor).wf(),
            final(cursor).original@ == old(cursor).original@,
            crate::primitives::varint_dec(old(cursor).original@, old(cursor).pos as int)
                matches Some((idv, e)) ==> ((idv != 0 && idv != 1) ==> (r matches Err(err)
                && err.item_kind == Some("packet id") && (err.message
                matches crate::error::ErrorText::Owned(m) && vstd::utf8::encode_utf8(m@)
                == crate::error::unknown_packet_bytes(idv as int, ("Status")@)))),
            match r {
                Ok(p) => packet_dec(old(cursor).original@, old(cursor).pos as int) == Some(
                    (p.deep_view(), final(cursor).pos as int),
                ) && packet_wf(p.deep_view()),
                Err(_) => packet_dec(old(cursor).original@, old(cursor).pos as int) is None,
            },
    {
        let id = VarInt::decode(cursor, ())?;
        if id.0 == 0 {
            let p = StatusRequest::decode(cursor, ())?;
            return Ok(Packet::StatusRequest(p));
        }
        if id.0 == 1 {
            let p = PingRequest::decode(cursor, ())?;
            return Ok(Packet::PingRequest(p));
        }
        Err(crate::error::unknown_packet(id.0, "Status", cursor.pos()))
    }

    /// Decodes one whole frame body.
    pub fn decode_bytes(body: &[u8]) -> (r: Result<Packet, DecodeError>)
        ensures
            match r {
                Ok(p) => packet_dec(body@, 0) matches Some((v, e)) && v == p.deep_view()
                    && packet_wf(p.deep_view()),
                Err(_) => packet_dec(body@, 0) is None,
            },
    {
        let mut cursor = ByteCursor::new(body);
        Packet::decode(&mut cursor)
    }

    /// Appends the id and body of this packet.
    pub fn encode(&self, out: &mut Vec<u8>) -> (r: Result<(), DecodeError>)
        requires
            packet_wf(self.deep_view()),
        ensures
            r is Ok <==> packet_encodable(self.deep_view()),
            match r {
                Ok(_) => final(out)@ == old(out)@ + packet_enc(self.deep_view()),
                Err(_) => final(out)@ == old(out)@,
            },
    {
        match self {
            Packet::StatusRequest(p) => {
                let mut tmp: Vec<u8> = Vec::new();
                p.serialize(&mut tmp, ())?;
                let ghost base = out@;
                crate::var_int::encode_var_u32(out, 0);
                out.append(&mut tmp);
                proof {
                    assert(out@ =~= base + packet_enc(self.deep_view()));
                }
                Ok(())
            },
            Packet::PingRequest(p) => {
                let mut tmp: Vec<u8> = Vec::new();
                p.serialize(&mut tmp, ())?;
                let ghost base = out@;
                crate::var_int::encode_var_u32(out, 1);
                out.append(&mut tmp);
                proof {
                    assert(out@ =~= base + packet_enc(self.deep_view()));
                }
                Ok(())
            },
        }
    }

    /// How many bytes `encode` would append.
    pub fn size(&self) -> (r: usize)
        requires
            packet_wf(self.deep_view()),
            packet_encodable(self.deep_view()),
        ensures
            r == packet_enc(self.deep_view()).len(),
    {
        let mut tmp: Vec<u8> = Vec::new();
        match self.encode(&mut tmp) {
            Ok(_) => tmp.len(),
            Err(_) => {
                proof {
                    assert(false);
                }
                0
            },
        }
    }
}



} // verus!
