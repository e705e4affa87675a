//! Serverbound packets of the Login state.

use vstd::prelude::*;
use vstd::utf8::{decode_utf8, valid_utf8};

use crate::byte_stream::ByteCursor;
use crate::error::{DecodeError, ItemPathPart};
use crate::primitives::{
    ByteArray, DeserializeFor, Identifier, NetString, SerializeInto, SizedCodec,
    TrailingByteArray, Uuid, VarInt,
};

verus! {

/// Starts a login with a player name and an optional id.
#[derive(Debug, Clone)]
pub struct LoginStart {
    /// The `name` field.
    pub name: NetString,
    /// The `player_uuid` field.
    pub player_uuid: Option<Uuid>,
}

/// The mathematical value of a `LoginStart` body.
#[verifier::ext_equal]
pub struct LoginStartV {
    /// The `name` field.
    pub name: Seq<u8>,
    /// The `player_uuid` field.
    pub player_uuid: Option<u128>,
}

impl DeepView for LoginStart {
    type V = LoginStartV;

    open spec fn deep_view(&self) -> LoginStartV {
        LoginStartV {
            name: self.name.deep_view(),
            player_uuid: self.player_uuid.deep_view(),
        }
    }
}

/// Parses one `LoginStart` body.
pub open spec fn loginstart_dec(s: Seq<u8>, at: int) -> Option<(LoginStartV, int)> {
    match crate::primitives::netstring_dec(s, at, Some(16u32)) {
        Some((v0, e0)) => match crate::primitives::opt_uuid_dec(s, e0) {
        Some((v1, e1)) => Some((LoginStartV { name: v0, player_uuid: v1 }, e1)),
        None => None,
    },
        None => None,
    }
}

/// The wire bytes of one `LoginStart` body.
pub open spec fn loginstart_enc(v: LoginStartV) -> Seq<u8> {
    crate::primitives::netstring_enc(v.name) + crate::primitives::opt_uuid_enc(v.player_uuid)
}

/// Values a `LoginStart` can hold.
pub open spec fn loginstart_wf(v: LoginStartV) -> bool {
    valid_utf8(v.name)
}

/// Which `LoginStart` values serialize successfully.
pub open spec fn loginstart_encodable(v: LoginStartV) -> bool {
    v.name.len() <= 0x7fff_ffff && decode_utf8(v.name).len() <= 16
}

impl LoginStart {
    /// Decodes one `LoginStart` body.
    pub fn decode(cursor: &mut ByteCursor, args: ()) -> (r: Result<Self, DecodeError>)
        requires
            old(cursor).wf(),
        ensures
            final(cursor).wf(),
            final(cursor).original@ == old(cursor).original@,
            match r {
                Ok(v) => loginstart_dec(old(cursor).original@, old(cursor).pos as int) == Some(
                    (v.deep_view(), final(cursor).pos as int),
                ) && loginstart_wf(v.deep_view()),
                Err(_) => loginstart_dec(old(cursor).original@, old(cursor).pos as int) is None,
            },
    {
        let name = DecodeError::pathed(
            ItemPathPart::Named("name"),
            crate::primitives::NetString::decode(cursor, Some(16u32)),
        )?;
        let player_uuid = DecodeError::pathed(
            ItemPathPart::Named("player_uuid"),
            crate::primitives::decode_opt_uuid(cursor),
        )?;
        Ok(LoginStart { name, player_uuid })
    }

    /// Appends the wire bytes of this `LoginStart` body.
    pub fn serialize(&self, out: &mut Vec<u8>, args: ()) -> (r: Result<(), DecodeError>)
        requires
            loginstart_wf(self.deep_view()),
        ensures
            r is Ok <==> loginstart_encodable(self.deep_view()),
            match r {
                Ok(_) => final(out)@ == old(out)@ + loginstart_enc(self.deep_view()),
                Err(_) => final(out)@ == old(out)@,
            },
    {
        let mut tmp: Vec<u8> = Vec::new();
        self.name.serialize(&mut tmp, Some(16u32))?;
        crate::primitives::serialize_opt_uuid(&self.player_uuid, &mut tmp)?;
        let ghost base = out@;
        out.append(&mut tmp);
        proof {
            assert(out@ =~= base + loginstart_enc(self.deep_view()));
        }
        Ok(())
    }

    /// How many bytes `serialize` would append.
    pub fn size(&self, args: ()) -> (r: usize)
        requires
            loginstart_wf(self.deep_view()),
            loginstart_encodable(self.deep_view()),
        ensures
            r == loginstart_enc(self.deep_view()).len(),
    {
        let mut tmp: Vec<u8> = Vec::new();
        match self.serialize(&mut tmp, args) {
            Ok(_) => tmp.len(),
            Err(_) => {
                proof {
                    assert(false);
                }
                0
            },
        }
    }
}

/// Answers an encryption request.
#[derive(Debug)]
pub struct EncryptionResponse {
    /// The `shared_secret` field.
    pub shared_secret: ByteArray,
    /// The `verify_token` field.
    pub verify_token: ByteArray,
}

/// The mathematical value of a `EncryptionResponse` body.
#[verifier::ext_equal]
pub struct EncryptionResponseV {
    /// The `shared_secret` field.
    pub shared_secret: Seq<u8>,
    /// The `verify_token` field.
    pub verify_token: Seq<u8>,
}

impl DeepView for EncryptionResponse {
    type V = EncryptionResponseV;

    open spec fn deep_view(&self) -> EncryptionResponseV {
        EncryptionResponseV {
            shared_secret: self.shared_secret.deep_view(),
            verify_token: self.verify_token.deep_view(),
        }
    }
}

/// Parses one `EncryptionResponse` body.
pub open spec fn encryptionresponse_dec(s: Seq<u8>, at: int) -> Option<(EncryptionResponseV, int)> {
    match crate::primitives::bytearray_dec(s, at) {
        Some((v0, e0)) => match crate::primitives::bytearray_dec(s, e0) {
        Some((v1, e1)) => Some((EncryptionResponseV { shared_secret: v0, verify_token: v1 }, e1)),
        None => None,
    },
        None => None,
    }
}

/// The wire bytes of one `EncryptionResponse` body.
pub open spec fn encryptionresponse_enc(v: EncryptionResponseV) -> Seq<u8> {
    crate::primitives::bytearray_enc(v.shared_secret) + crate::primitives::bytearray_enc(v.verify_token)
}

/// Values a `EncryptionResponse` can hold.
pub open spec fn encryptionresponse_wf(v: EncryptionResponseV) -> bool {
    true
}

/// Which `EncryptionResponse` values serialize successfully.
pub open spec fn encryptionresponse_encodable(v: EncryptionResponseV) -> bool {
    
    &&& v.shared_secret.len() <= 0x7fff_ffff
    &&& v.verify_token.len() <= 0x7fff_ffff
}

impl EncryptionResponse {
    /// Decodes one `EncryptionResponse` body.
    pub fn decode(cursor: &mut ByteCursor, args: ()) -> (r: Result<Self, DecodeError>)
        requires
            old(cursor).wf(),
        ensures
            final(cursor).wf(),
            final(cursor).original@ == old(cursor).original@,
            match r {
                Ok(v) => encryptionresponse_dec(old(cursor).original@, old(cursor).pos as int) == Some(
                    (v.deep_view(), final(cursor).pos as int),
                ) && encryptionresponse_wf(v.deep_view()),
                Err(_) => encryptionresponse_dec(old(cursor).original@, old(cursor).pos as int) is None,
            },
    {
        let shared_secret = DecodeError::pathed(
            ItemPathPart::Named("shared_secret"),
            crate::primitives::ByteArray::decode(cursor, ()),
        )?;
        let verify_token = DecodeError::pathed(
            ItemPathPart::Named("verify_token"),
            crate::primitives::ByteArray::decode(cursor, ()),
        )?;
        Ok(EncryptionResponse { shared_secret, verify_token })
    }

    /// Appends the wire bytes of this `EncryptionResponse` body.
    pub fn serialize(&self, out: &mut Vec<u8>, args: ()) -> (r: Result<(), DecodeError>)
        requires
            encryptionresponse_wf(self.deep_view()),
        ensures
            r is Ok <==> encryptionresponse_encodable(self.deep_view()),
            match r {
                Ok(_) => final(out)@ == old(out)@ + encryptionresponse_enc(self.deep_view()),
                Err(_) => final(out)@ == old(out)@,
            },
    {
        let mut tmp: Vec<u8> = Vec::new();
        self.shared_secret.serialize(&mut tmp, ())?;
        self.verify_token.serialize(&mut tmp, ())?;
        let ghost base = out@;
        out.append(&mut tmp);
        proof {
            assert(out@ =~= base + encryptionresponse_enc(self.deep_view()));
        }
        Ok(())
    }

    /// How many bytes `serialize` would append.
    pub fn size(&self, args: ()) -> (r: usize)
        requires
            encryptionresponse_wf(self.deep_view()),
            encryptionresponse_encodable(self.deep_view()),
        ensures
            r == encryptionresponse_enc(self.deep_view()).len(),
    {
        let mut tmp: Vec<u8> = Vec::new();
        match self.serialize(&mut tmp, args) {
            Ok(_) => tmp.len(),
            Err(_) => {
                proof {
                    assert(false);
                }
                0
            },
        }
    }
}

/// Answers a plugin request, optionally with data.
#[derive(Debug)]
pub struct LoginPluginResponse {
    /// The `message_id` field.
    pub message_id: VarInt,
    /// The `data` field.
    pub data: Option<TrailingByteArray>,
}

/// The mathematical value of a `LoginPluginResponse` body.
#[verifier::ext_equal]
pub struct LoginPluginResponseV {
    /// The `message_id` field.
    pub message_id: i32,
    /// The `data` field.
    pub data: Option<Seq<u8>>,
}

impl DeepView for LoginPluginResponse {
    type V = LoginPluginResponseV;

    open spec fn deep_view(&self) -> LoginPluginResponseV {
        LoginPluginResponseV {
            message_id: self.message_id.deep_view(),
            data: self.data.deep_view(),
        }
    }
}

/// Parses one `LoginPluginResponse` body.
pub open spec fn loginpluginresponse_dec(s: Seq<u8>, at: int) -> Option<(LoginPluginResponseV, int)> {
    match crate::primitives::varint_dec(s, at) {
        Some((v0, e0)) => match crate::primitives::opt_trailing_dec(s, e0) {
        Some((v1, e1)) => Some((LoginPluginResponseV { message_id: v0, data: v1 }, e1)),
        None => None,
    },
        None => None,
    }
}

/// The wire bytes of one `LoginPluginResponse` body.
pub open spec fn loginpluginresponse_enc(v: LoginPluginResponseV) -> Seq<u8> {
    crate::primitives::varint_enc(v.message_id) + crate::primitives::opt_trailing_enc(v.data)
}

/// Values a `LoginPluginResponse` can hold.
pub open spec fn loginpluginresponse_wf(v: LoginPluginResponseV) -> bool {
    true
}

/// Which `LoginPluginResponse` values serialize successfully.
pub open spec fn loginpluginresponse_encodable(v: LoginPluginResponseV) -> bool {
    true
}

impl LoginPluginResponse {
    /// Decodes one `LoginPluginResponse` body.
    pub fn decode(cursor: &mut ByteCursor, args: ()) -> (r: Result<Self, DecodeError>)
        requires
            old(cursor).wf(),
        ensures
            final(cursor).wf(),
            final(cursor).original@ == old(cursor).original@,
            match r {
                Ok(v) => loginpluginresponse_dec(old(cursor).original@, old(cursor).pos as int) == Some(
                    (v.deep_view(), final(cursor).pos as int),
                ) && loginpluginresponse_wf(v.deep_view()),
                Err(_) => loginpluginresponse_dec(old(cursor).original@, old(cursor).pos as int) is None,
            },
    {
        let message_id = DecodeError::pathed(
            ItemPathPart::Named("message_id"),
            crate::primitives::VarInt::decode(cursor, ()),
        )?;
        let data = DecodeError::pathed(
            ItemPathPart::Named("data"),
            crate::primitives::decode_opt_trailing(cursor),
        )?;
        Ok(LoginPluginResponse { message_id, data })
    }

    /// Appends the wire bytes of this `LoginPluginResponse` body.
    pub fn serialize(&self, out: &mut Vec<u8>, args: ()) -> (r: Result<(), DecodeError>)
        requires
            loginpluginresponse_wf(self.deep_view()),
        ensures
            r is Ok <==> loginpluginresponse_encodable(self.deep_view()),
            match r {
                Ok(_) => final(out)@ == old(out)@ + loginpluginresponse_enc(self.deep_view()),
                Err(_) => final(out)@ == old(out)@,
            },
    {
        let mut tmp: Vec<u8> = Vec::new();
        self.message_id.serialize(&mut tmp, ())?;
        crate::primitives::serialize_opt_trailing(&self.data, &mut tmp)?;
        let ghost base = out@;
        out.append(&mut tmp);
        proof {
            assert(out@ =~= base + loginpluginresponse_enc(self.deep_view()));
        }
        Ok(())
    }

    /// How many bytes `serialize` would append.
    pub fn size(&self, args: ()) -> (r: usize)
        requires
            loginpluginresponse_wf(self.deep_view()),
            loginpluginresponse_encodable(self.deep_view()),
        ensures
            r == loginpluginresponse_enc(self.deep_view()).len(),
    {
        let mut tmp: Vec<u8> = Vec::new();
        match self.serialize(&mut tmp, args) {
            Ok(_) => tmp.len(),
            Err(_) => {
                proof {
                    assert(false);
                }
                0
            },
        }
    }
}

/// The packets a peer may send in this state, by id.
#[derive(Debug)]
pub enum Packet {
    /// Id 0.
    LoginStart(LoginStart),
    /// Id 1.
    EncryptionResponse(EncryptionResponse),
    /// Id 2.
    LoginPluginResponse(LoginPluginResponse),
}

/// The mathematical value of a packet in this state.
pub enum PacketV {
    /// Id 0.
    LoginStart(LoginStartV),
    /// Id 1.
    EncryptionResponse(EncryptionResponseV),
    /// Id 2.
    LoginPluginResponse(LoginPluginResponseV),
}

impl DeepView for Packet {
    type V = PacketV;

    open spec fn deep_view(&self) -> PacketV {
        match self {
            Packet::LoginStart(p) => PacketV::LoginStart(p.deep_view()),
            Packet::EncryptionResponse(p) => PacketV::EncryptionResponse(p.deep_view()),
            Packet::LoginPluginResponse(p) => PacketV::LoginPluginResponse(p.deep_view()),
        }
    }
}

/// Parses a frame body in this state: a packet id, then the matching
/// shape. An id outside the declared set parses to nothing.
pub open spec fn packet_dec(s: Seq<u8>, at: int) -> Option<(PacketV, int)> {
    match crate::primitives::varint_dec(s, at) {
        Some((id, e)) => if id == 0 {
            match loginstart_dec(s, e) {
                Some((v, e2)) => Some((PacketV::LoginStart(v), e2)),
                None => None,
            }
        } else if id == 1 {
            match encryptionresponse_dec(s, e) {
                Some((v, e2)) => Some((PacketV::EncryptionResponse(v), e2)),
                None => None,
            }
        } else if id == 2 {
            match loginpluginresponse_dec(s, e) {
                Some((v, e2)) => Some((PacketV::LoginPluginResponse(v), e2)),
                None => None,
            }
        } else {
            None
        },
        None => None,
    }
}

/// The wire bytes of a packet in this state: its id, then its body.
pub open spec fn packet_enc(v: PacketV) -> Seq<u8> {
    match v {
        PacketV::LoginStart(p) => crate::primitives::varint_enc(0) + loginstart_enc(p),
        PacketV::EncryptionResponse(p) => crate::primitives::varint_enc(1) + encryptionresponse_enc(p),
        PacketV::LoginPluginResponse(p) => crate::primitives::varint_enc(2) + loginpluginresponse_enc(p),
    }
}

/// Which packet values serialize successfully.
pub open spec fn packet_encodable(v: PacketV) -> bool {
    match v {
        PacketV::LoginStart(p) => loginstart_encodable(p),
        PacketV::EncryptionResponse(p) => encryptionresponse_encodable(p),
        PacketV::LoginPluginResponse(p) => loginpluginresponse_encodable(p),
    }
}

/// Values the packet type can hold.
pub open spec fn packet_wf(v: PacketV) -> bool {
    match v {
        PacketV::LoginStart(p) => loginstart_wf(p),
        PacketV::EncryptionResponse(p) => encryptionresponse_wf(p),
        PacketV::LoginPluginResponse(p) => loginpluginresponse_wf(p),
    }
}

impl Packet {
    /// Reads the packet id and dispatches to the matching shape's decode.
    ///
    /// An id with no shape in this state is a fatal unknown-packet error,
    /// even when that id names a shape of a different state.
    pub fn decode(cursor: &mut ByteCursor) -> (r: Result<Packet, DecodeError>)
        requires
            old(cursor).wf(),
        ensures
            final(cursor).wf(),
            final(cursor).original@ == old(cursor).original@,
            crate::primitives::varint_dec(old(cursor).original@, old(cursor).pos as int)
                matches Some((idv, e)) ==> ((idv != 0 && idv != 1 && idv != 2) ==> (r matches Err(err)
                && err.item_kind == Some("packet id") && (err.message
                matches crate::error::ErrorText::Owned(m) && vstd::utf8::encode_utf8(m@)
                == crate::error::unknown_packet_bytes(idv as int, ("Login")@)))),
            match r {
                Ok(p) => packet_dec(old(cursor).original@, old(cursor).pos as int) == Some(
                    (p.deep_view(), final(cursor).pos as int),
                ) && packet_wf(p.deep_view()),
                Err(_) => packet_dec(old(cursor).original@, old(cursor).pos as int) is None,
            },
    {
        let id = VarInt::decode(cursor, ())?;
        if id.0 == 0 {
            let p = LoginStart::decode(cursor, ())?;
            return Ok(Packet::LoginStart(p));
        }
        if id.0 == 1 {
            let p = EncryptionResponse::decode(cursor, ())?;
            return Ok(Packet::EncryptionResponse(p));
        }
        if id.0 == 2 {
            let p = LoginPluginResponse::decode(cursor, ())?;
            return Ok(Packet::LoginPluginResponse(p));
        }
        Err(crate::error::unknown_packet(id.0, "Login", cursor.pos()))
    }

    /// Decodes one whole frame body.
    pub fn decode_bytes(body: &[u8]) -> (r: Result<Packet, DecodeError>)
        ensures
            match r {
                Ok(p) => packet_dec(body@, 0) matches Some((v, e)) && v == p.deep_view()
                    && packet_wf(p.deep_view()),
                Err(_) => packet_dec(body@, 0) is None,
            },
    {
        let mut cursor = ByteCursor::new(body);
        Packet::decode(&mut cursor)
    }

    /// Appends the id and body of this packet.
    pub fn encode(&self, out: &mut Vec<u8>) -> (r: Result<(), DecodeError>)
        requires
            packet_wf(self.deep_view()),
        ensures
            r is Ok <==> packet_encodable(self.deep_view()),
            match r {
                Ok(_) => final(out)@ == old(out)@ + packet_enc(self.deep_view()),
                Err(_) => final(out)@ == old(out)@,
            },
    {
        match self {
            Packet::LoginStart(p) => {
                let mut tmp: Vec<u8> = Vec::new();
                p.serialize(&mut tmp, ())?;
                let ghost base = out@;
                crate::var_int::encode_var_u32(out, 0);
                out.append(&mut tmp);
                proof {
                    assert(out@ =~= base + packet_enc(self.deep_view()));
                }
                Ok(())
            },
            Packet::EncryptionResponse(p) => {
                let mut tmp: Vec<u8> = Vec::new();
                p.serialize(&mut tmp, ())?;
                let ghost base = out@;
                crate::var_int::encode_var_u32(out, 1);
                out.append(&mut tmp);
                proof {
                    assert(out@ =~= base + packet_enc(self.deep_view()));
                }
                Ok(())
            },
            Packet::LoginPluginResponse(p) => {
                let mut tmp: Vec<u8> = Vec::new();
                p.serialize(&mut tmp, ())?;
                let ghost base = out@;
                crate::var_int::encode_var_u32(out, 2);
                out.append(&mut tmp);
                proof {
                    assert(out@ =~= base + packet_enc(self.deep_view()));
                }
                Ok(())
            },
        }
    }

    /// How many bytes `encode` would append.
    pub fn size(&self) -> (r: usize)
        requires
            packet_wf(self.deep_view()),
            packet_encodable(self.deep_view()),
        ensures
            r == packet_enc(self.deep_view()).len(),
    {
        let mut tmp: Vec<u8> = Vec::new();
        match self.encode(&mut tmp) {
            Ok(_) => tmp.len(),
            Err(_) => {
                proof {
                    assert(false);
                }
                0
            },
        }
    }
}



} // verus!
