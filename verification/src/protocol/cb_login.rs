//! Clientbound packets of the Login state.

use vstd::prelude::*;
use vstd::utf8::{decode_utf8, valid_utf8};

use crate::byte_stream::ByteCursor;
use crate::chat::Json;
use crate::error::{DecodeError, ItemPathPart};
use crate::primitives::{
    ByteArray, DeserializeFor, Identifier, NetString, SerializeInto, SizedCodec,
    TrailingByteArray, Uuid, VarInt,
};

verus! {

/// One profile property of a successful login.
#[derive(Debug, Clone)]
pub struct Property {
    /// The `name` field.
    pub name: NetString,
    /// The `value` field.
    pub value: NetString,
    /// The `signature` field.
    pub signature: Option<NetString>,
}

/// The mathematical value of a `Property` body.
#[verifier::ext_equal]
pub struct PropertyV {
    /// The `name` field.
    pub name: Seq<u8>,
    /// The `value` field.
    pub value: Seq<u8>,
    /// The `signature` field.
    pub signature: Option<Seq<u8>>,
}

impl DeepView for Property {
    type V = PropertyV;

    open spec fn deep_view(&self) -> PropertyV {
        PropertyV {
            name: self.name.deep_view(),
            value: self.value.deep_view(),
            signature: self.signature.deep_view(),
        }
    }
}

/// Parses one `Property` body.
pub open spec fn property_dec(s: Seq<u8>, at: int) -> Option<(PropertyV, int)> {
    match crate::primitives::netstring_dec(s, at, Some(32767u32)) {
        Some((v0, e0)) => match crate::primitives::netstring_dec(s, e0, Some(32767u32)) {
        Some((v1, e1)) => match crate::primitives::opt_netstring_dec(s, e1, Some(32767u32)) {
        Some((v2, e2)) => Some((PropertyV { name: v0, value: v1, signature: v2 }, e2)),
        None => None,
    },
        None => None,
    },
        None => None,
    }
}

/// The wire bytes of one `Property` body.
pub open spec fn property_enc(v: PropertyV) -> Seq<u8> {
    crate::primitives::netstring_enc(v.name) + crate::primitives::netstring_enc(v.value) + crate::primitives::opt_netstring_enc(v.signature)
}

/// Values a `Property` can hold.
pub open spec fn property_wf(v: PropertyV) -> bool {
    
    &&& valid_utf8(v.name)
    &&& valid_utf8(v.value)
    &&& match v.signature { Some(t) => valid_utf8(t), None => true }
}

/// Which `Property` values serialize successfully.
pub open spec fn property_encodable(v: PropertyV) -> bool {
    
    &&& v.name.len() <= 0x7fff_ffff && decode_utf8(v.name).len() <= 32767
    &&& v.value.len() <= 0x7fff_ffff && decode_utf8(v.value).len() <= 32767
    &&& crate::primitives::opt_netstring_encodable(v.signature, Some(32767u32))
}

impl Property {
    /// Decodes one `Property` body.
    pub fn decode(cursor: &mut ByteCursor, args: ()) -> (r: Result<Self, DecodeError>)
        requires
            old(cursor).wf(),
        ensures
            final(cursor).wf(),
            final(cursor).original@ == old(cursor).original@,
            match r {
                Ok(v) => property_dec(old(cursor).original@, old(cursor).pos as int) == Some(
                    (v.deep_view(), final(cursor).pos as int),
                ) && property_wf(v.deep_view()),
                Err(_) => property_dec(old(cursor).original@, old(cursor).pos as int) is None,
            },
    {
        let name = DecodeError::pathed(
            ItemPathPart::Named("name"),
            NetString::decode(cursor, Some(32767u32)),
        )?;
        let value = DecodeError::pathed(
            ItemPathPart::Named("value"),
            NetString::decode(cursor, Some(32767u32)),
        )?;
        let signature = DecodeError::pathed(
            ItemPathPart::Named("signature"),
            crate::primitives::decode_opt_netstring(cursor, Some(32767u32)),
        )?;
        Ok(Property { name, value, signature })
    }

    /// Appends the wire bytes of this `Property` body.
    pub fn serialize(&self, out: &mut Vec<u8>, args: ()) -> (r: Result<(), DecodeError>)
        requires
            property_wf(self.deep_view()),
        ensures
            r is Ok <==> property_encodable(self.deep_view()),
            match r {
                Ok(_) => final(out)@ == old(out)@ + property_enc(self.deep_view()),
                Err(_) => final(out)@ == old(out)@,
            },
    {
        let mut tmp: Vec<u8> = Vec::new();
        self.name.serialize(&mut tmp, Some(32767u32))?;
        self.value.serialize(&mut tmp, Some(32767u32))?;
        crate::primitives::serialize_opt_netstring(&self.signature, &mut tmp, Some(32767u32))?;
        let ghost base = out@;
        out.append(&mut tmp);
        proof {
            assert(out@ =~= base + property_enc(self.deep_view()));
        }
        Ok(())
    }

    /// How many bytes `serialize` would append.
    pub fn size(&self, args: ()) -> (r: usize)
        requires
            property_wf(self.deep_view()),
            property_encodable(self.deep_view()),
        ensures
            r == property_enc(self.deep_view()).len(),
    {
        let mut tmp: Vec<u8> = Vec::new();
        match self.serialize(&mut tmp, args) {
            Ok(_) => tmp.len(),
            Err(_) => {
                proof {
                    assert(false);
                }
                0
            },
        }
    }
}

/// Starts encryption: a server id and key material.
#[derive(Debug)]
pub struct EncryptionRequest {
    /// The `server_id` field.
    pub server_id: NetString,
    /// The `public_key` field.
    pub public_key: ByteArray,
    /// The `verify_token` field.
    pub verify_token: ByteArray,
}

/// The mathematical value of a `EncryptionRequest` body.
#[verifier::ext_equal]
pub struct EncryptionRequestV {
    /// The `server_id` field.
    pub server_id: Seq<u8>,
    /// The `public_key` field.
    pub public_key: Seq<u8>,
    /// The `verify_token` field.
    pub verify_token: Seq<u8>,
}

impl DeepView for EncryptionRequest {
    type V = EncryptionRequestV;

    open spec fn deep_view(&self) -> EncryptionRequestV {
        EncryptionRequestV {
            server_id: self.server_id.deep_view(),
            public_key: self.public_key.deep_view(),
            verify_token: self.verify_token.deep_view(),
        }
    }
}

/// Parses one `EncryptionRequest` body.
pub open spec fn encryptionrequest_dec(s: Seq<u8>, at: int) -> Option<(EncryptionRequestV, int)> {
    match crate::primitives::netstring_dec(s, at, Some(20u32)) {
        Some((v0, e0)) => match crate::primitives::bytearray_dec(s, e0) {
        Some((v1, e1)) => match crate::primitives::bytearray_dec(s, e1) {
        Some((v2, e2)) => Some((EncryptionRequestV { server_id: v0, public_key: v1, verify_token: v2 }, e2)),
        None => None,
    },
        None => None,
    },
        None => None,
    }
}

/// The wire bytes of one `EncryptionRequest` body.
pub open spec fn encryptionrequest_enc(v: EncryptionRequestV) -> Seq<u8> {
    crate::primitives::netstring_enc(v.server_id) + crate::primitives::bytearray_enc(v.public_key) + crate::primitives::bytearray_enc(v.verify_token)
}

/// Values a `EncryptionRequest` can hold.
pub open spec fn encryptionrequest_wf(v: EncryptionRequestV) -> bool {
    valid_utf8(v.server_id)
}

/// Which `EncryptionRequest` values serialize successfully.
pub open spec fn encryptionrequest_encodable(v: EncryptionRequestV) -> bool {
    
    &&& v.server_id.len() <= 0x7fff_ffff && decode_utf8(v.server_id).len() <= 20
    &&& v.public_key.len() <= 0x7fff_ffff
    &&& v.verify_token.len() <= 0x7fff_ffff
}

impl EncryptionRequest {
    /// Decodes one `EncryptionRequest` body.
    pub fn decode(cursor: &mut ByteCursor, args: ()) -> (r: Result<Self, DecodeError>)
        requires
            old(cursor).wf(),
        ensures
            final(cursor).wf(),
            final(cursor).original@ == old(cursor).original@,
            match r {
                Ok(v) => encryptionrequest_dec(old(cursor).original@, old(cursor).pos as int) == Some(
                    (v.deep_view(), final(cursor).pos as int),
                ) && encryptionrequest_wf(v.deep_view()),
                Err(_) => encryptionrequest_dec(old(cursor).original@, old(cursor).pos as int) is None,
            },
    {
        let server_id = DecodeError::pathed(
            ItemPathPart::Named("server_id"),
            NetString::decode(cursor, Some(20u32)),
        )?;
        let public_key = DecodeError::pathed(
            ItemPathPart::Named("public_key"),
            ByteArray::decode(cursor, ()),
        )?;
        let verify_token = DecodeError::pathed(
            ItemPathPart::Named("verify_token"),
            ByteArray::decode(cursor, ()),
        )?;
        Ok(EncryptionRequest { server_id, public_key, verify_token })
    }

    /// Appends the wire bytes of this `EncryptionRequest` body.
    pub fn serialize(&self, out: &mut Vec<u8>, args: ()) -> (r: Result<(), DecodeError>)
        requires
            encryptionrequest_wf(self.deep_view()),
        ensures
            r is Ok <==> encryptionrequest_encodable(self.deep_view()),
            match r {
                Ok(_) => final(out)@ == old(out)@ + encryptionrequest_enc(self.deep_view()),
                Err(_) => final(out)@ == old(out)@,
            },
    {
        let mut tmp: Vec<u8> = Vec::new();
        self.server_id.serialize(&mut tmp, Some(20u32))?;
        self.public_key.serialize(&mut tmp, ())?;
        self.verify_token.serialize(&mut tmp, ())?;
        let ghost base = out@;
        out.append(&mut tmp);
        proof {
            assert(out@ =~= base + encryptionrequest_enc(self.deep_view()));
        }
        Ok(())
    }

    /// How many bytes `serialize` would append.
    pub fn size(&self, args: ()) -> (r: usize)
        requires
            encryptionrequest_wf(self.deep_view()),
            encryptionrequest_encodable(self.deep_view()),
        ensures
            r == encryptionrequest_enc(self.deep_view()).len(),
    {
        let mut tmp: Vec<u8> = Vec::new();
        match self.serialize(&mut tmp, args) {
            Ok(_) => tmp.len(),
            Err(_) => {
                proof {
                    assert(false);
                }
                0
            },
        }
    }
}


// === Property arrays === //

/// Parses `n` consecutive properties.
pub open spec fn prop_seq_dec(s: Seq<u8>, at: int, n: nat) -> Option<(Seq<PropertyV>, int)>
    decreases n,
{
    if n == 0 {
        Some((Seq::empty(), at))
    } else {
        match property_dec(s, at) {
            Some((v, e)) => match prop_seq_dec(s, e, (n - 1) as nat) {
                Some((rest, e2)) => Some((seq![v] + rest, e2)),
                None => None,
            },
            None => None,
        }
    }
}

/// Serializes consecutive properties.
pub open spec fn prop_seq_enc(vs: Seq<PropertyV>) -> Seq<u8>
    decreases vs.len(),
{
    if vs.len() == 0 {
        Seq::<u8>::empty()
    } else {
        property_enc(vs[0]) + prop_seq_enc(vs.drop_first())
    }
}

/// Values a property list can hold.
pub open spec fn prop_seq_wf(vs: Seq<PropertyV>) -> bool {
    forall|i: int| 0 <= i < vs.len() ==> property_wf(#[trigger] vs[i])
}

/// Which property lists serialize successfully.
pub open spec fn prop_seq_encodable(vs: Seq<PropertyV>) -> bool {
    vs.len() <= 0x7fff_ffff && forall|i: int|
        0 <= i < vs.len() ==> property_encodable(#[trigger] vs[i])
}

/// Parses a length-prefixed property list.
pub open spec fn properties_dec(s: Seq<u8>, at: int) -> Option<(Seq<PropertyV>, int)> {
    match crate::primitives::varuint_dec(s, at) {
        Some((n, e)) => prop_seq_dec(s, e, n as nat),
        None => None,
    }
}

/// The wire bytes of a property list: its count, then its entries.
pub open spec fn properties_enc(vs: Seq<PropertyV>) -> Seq<u8> {
    crate::primitives::varuint_enc(vs.len() as u32) + prop_seq_enc(vs)
}

/// Decodes a length-prefixed property list.
pub fn decode_properties(cursor: &mut ByteCursor) -> (r: Result<Vec<Property>, DecodeError>)
    requires
        old(cursor).wf(),
    ensures
        final(cursor).wf(),
        final(cursor).original@ == old(cursor).original@,
        match r {
            Ok(v) => properties_dec(old(cursor).original@, old(cursor).pos as int) == Some(
                (v.deep_view(), final(cursor).pos as int),
            ) && prop_seq_wf(v.deep_view()),
            Err(_) => properties_dec(old(cursor).original@, old(cursor).pos as int) is None,
        },
{
    let ghost s = cursor.original@;
    let ghost at0 = cursor.pos as int;
    let count = crate::primitives::VarUint::decode(cursor, ())?;
    let ghost e0 = cursor.pos as int;
    let n = count.0;
    let mut out: Vec<Property> = Vec::new();
    let mut i: u32 = 0;
    proof {
        assert(out.deep_view() =~= Seq::<PropertyV>::empty());
    }
    while i < n
        invariant
            s == old(cursor).original@,
            at0 == old(cursor).pos as int,
            crate::primitives::varuint_dec(s, at0) == Some((n, e0)),
            cursor.wf(),
            cursor.original@ == s,
            i <= n,
            out.deep_view().len() == i,
            forall|j: int| 0 <= j < i ==> property_wf(#[trigger] out.deep_view()[j]),
            (prop_seq_dec(s, e0, n as nat) is Some) <==> (prop_seq_dec(
                s,
                cursor.pos as int,
                (n - i) as nat,
            ) is Some),
            prop_seq_dec(s, e0, n as nat) matches Some((all, e)) ==> (prop_seq_dec(
                s,
                cursor.pos as int,
                (n - i) as nat,
            ) matches Some((rest, e2)) && all == out.deep_view() + rest && e == e2),
        decreases n - i,
    {
        let ghost pos_before = cursor.pos as int;
        match Property::decode(cursor, ()) {
            Ok(v) => {
                let ghost vd = v.deep_view();
                let ghost before = out.deep_view();
                out.push(v);
                proof {
                    assert(out.deep_view() =~~= before.push(vd));
                    match prop_seq_dec(s, pos_before, (n - i) as nat) {
                        Some((r1, re)) => {
                            match prop_seq_dec(s, cursor.pos as int, (n - i - 1) as nat) {
                                Some((r2, re2)) => {
                                    assert(r1 =~= seq![vd] + r2);
                                    assert(before + r1 =~= before.push(vd) + r2);
                                },
                                None => {},
                            }
                        },
                        None => {},
                    }
                }
            },
            Err(e) => {
                return Err(e);
            },
        }
        i = i + 1;
    }
    proof {
        assert(prop_seq_dec(s, cursor.pos as int, 0) == Some(
            (Seq::<PropertyV>::empty(), cursor.pos as int),
        ));
        match prop_seq_dec(s, e0, n as nat) {
            Some((all, e)) => {
                assert(all =~= out.deep_view());
            },
            None => {
                assert(false);
            },
        }
    }
    Ok(out)
}

/// Appends a length-prefixed property list.
pub fn serialize_properties(v: &Vec<Property>, out: &mut Vec<u8>) -> (r: Result<(), DecodeError>)
    requires
        prop_seq_wf(v.deep_view()),
    ensures
        r is Ok <==> prop_seq_encodable(v.deep_view()),
        match r {
            Ok(_) => final(out)@ == old(out)@ + properties_enc(v.deep_view()),
            Err(_) => final(out)@ == old(out)@,
        },
{
    if v.len() > 0x7fff_ffff {
        return Err(DecodeError::new_static("array is too long for its length prefix"));
    }
    let mut tmp: Vec<u8> = Vec::new();
    let n = v.len();
    let mut i: usize = 0;
    let ghost vs = v.deep_view();
    proof {
        assert(vs.subrange(0, 0) =~= Seq::<PropertyV>::empty());
        assert(tmp@ =~= prop_seq_enc(vs.subrange(0, 0)));
    }
    while i < n
        invariant
            n == v@.len(),
            vs == v.deep_view(),
            vs.len() == n,
            i <= n,
            forall|j: int| 0 <= j < vs.len() ==> property_wf(#[trigger] vs[j]),
            tmp@ == prop_seq_enc(vs.subrange(0, i as int)),
            forall|j: int| 0 <= j < i ==> property_encodable(#[trigger] vs[j]),
        decreases n - i,
    {
        proof {
            assert(vs[i as int] == v@[i as int].deep_view());
        }
        match v[i].serialize(&mut tmp, ()) {
            Ok(_) => {},
            Err(e) => {
                return Err(e);
            },
        }
        proof {
            lemma_prop_seq_enc_snoc(vs, i as int);
        }
        i = i + 1;
    }
    proof {
        assert(vs.subrange(0, n as int) =~= vs);
    }
    let ghost base = out@;
    crate::var_int::encode_var_u32_raw(out, n as u32);
    out.append(&mut tmp);
    proof {
        assert(out@ =~= base + (crate::primitives::varuint_enc(vs.len() as u32)
            + prop_seq_enc(vs)));
    }
    Ok(())
}

/// Serializing one more property appends its bytes.
proof fn lemma_prop_seq_enc_snoc(vs: Seq<PropertyV>, i: int)
    requires
        0 <= i < vs.len(),
    ensures
        prop_seq_enc(vs.subrange(0, i + 1)) == prop_seq_enc(vs.subrange(0, i)) + property_enc(
            vs[i],
        ),
    decreases i,
{
    if i == 0 {
        let sub01 = vs.subrange(0, 1);
        assert(sub01.len() == 1);
        assert(sub01[0] == vs[0]);
        assert(prop_seq_enc(sub01) == property_enc(sub01[0]) + prop_seq_enc(sub01.drop_first()));
        assert(sub01.drop_first() =~= Seq::<PropertyV>::empty());
        assert(sub01.drop_first() == Seq::<PropertyV>::empty());
        assert(prop_seq_enc(Seq::empty()) == Seq::<u8>::empty());
        assert(vs.subrange(0, 0) =~= Seq::<PropertyV>::empty());
        assert(vs.subrange(0, 0) == Seq::<PropertyV>::empty());
        assert(prop_seq_enc(sub01) =~= prop_seq_enc(vs.subrange(0, 0)) + property_enc(vs[0]));
    } else {
        let a = vs.subrange(0, i + 1);
        let b = vs.subrange(0, i);
        assert(a[0] == vs[0] && b[0] == vs[0]);
        assert(a.drop_first() =~= vs.subrange(1, vs.len() as int).subrange(0, i));
        assert(b.drop_first() =~= vs.subrange(1, vs.len() as int).subrange(0, i - 1));
        lemma_prop_seq_enc_snoc(vs.subrange(1, vs.len() as int), i - 1);
        assert(vs.subrange(1, vs.len() as int)[i - 1] == vs[i]);
    }
}

/// Completes a login with the player's id, name and properties.
#[derive(Debug, Clone)]
pub struct LoginSuccess {
    /// The `uuid` field.
    pub uuid: Uuid,
    /// The `username` field.
    pub username: NetString,
    /// The `properties` field.
    pub properties: Vec<Property>,
}

/// The mathematical value of a `LoginSuccess` body.
#[verifier::ext_equal]
pub struct LoginSuccessV {
    /// The `uuid` field.
    pub uuid: u128,
    /// The `username` field.
    pub username: Seq<u8>,
    /// The `properties` field.
    pub properties: Seq<PropertyV>,
}

impl DeepView for LoginSuccess {
    type V = LoginSuccessV;

    open spec fn deep_view(&self) -> LoginSuccessV {
        LoginSuccessV {
            uuid: self.uuid.deep_view(),
            username: self.username.deep_view(),
            properties: self.properties.deep_view(),
        }
    }
}

/// Parses one `LoginSuccess` body.
pub open spec fn loginsuccess_dec(s: Seq<u8>, at: int) -> Option<(LoginSuccessV, int)> {
    match crate::primitives::u128_dec(s, at) {
        Some((v0, e0)) => match crate::primitives::netstring_dec(s, e0, Some(16u32)) {
        Some((v1, e1)) => match properties_dec(s, e1) {
        Some((v2, e2)) => Some((LoginSuccessV { uuid: v0, username: v1, properties: v2 }, e2)),
        None => None,
    },
        None => None,
    },
        None => None,
    }
}

/// The wire bytes of one `LoginSuccess` body.
pub open spec fn loginsuccess_enc(v: LoginSuccessV) -> Seq<u8> {
    crate::primitives::be_bytes(v.uuid as nat, 16) + crate::primitives::netstring_enc(v.username) + properties_enc(v.properties)
}

/// Values a `LoginSuccess` can hold.
pub open spec fn loginsuccess_wf(v: LoginSuccessV) -> bool {
    
    &&& valid_utf8(v.username)
    &&& prop_seq_wf(v.properties)
}

/// Which `LoginSuccess` values serialize successfully.
pub open spec fn loginsuccess_encodable(v: LoginSuccessV) -> bool {
    
    &&& v.username.len() <= 0x7fff_ffff && decode_utf8(v.username).len() <= 16
    &&& prop_seq_encodable(v.properties)
}

impl LoginSuccess {
    /// Decodes one `LoginSuccess` body.
    pub fn decode(cursor: &mut ByteCursor, args: ()) -> (r: Result<Self, DecodeError>)
        requires
            old(cursor).wf(),
        ensures
            final(cursor).wf(),
            final(cursor).original@ == old(cursor).original@,
            match r {
                Ok(v) => loginsuccess_dec(old(cursor).original@, old(cursor).pos as int) == Some(
                    (v.deep_view(), final(cursor).pos as int),
                ) && loginsuccess_wf(v.deep_view()),
                Err(_) => loginsuccess_dec(old(cursor).original@, old(cursor).pos as int) is None,
            },
    {
        let uuid = DecodeError::pathed(
            ItemPathPart::Named("uuid"),
            Uuid::decode(cursor, ()),
        )?;
        let username = DecodeError::pathed(
            ItemPathPart::Named("username"),
            NetString::decode(cursor, Some(16u32)),
        )?;
        let properties = DecodeError::pathed(
            ItemPathPart::Named("properties"),
            decode_properties(cursor),
        )?;
        Ok(LoginSuccess { uuid, username, properties })
    }

    /// Appends the wire bytes of this `LoginSuccess` body.
    pub fn serialize(&self, out: &mut Vec<u8>, args: ()) -> (r: Result<(), DecodeError>)
        requires
            loginsuccess_wf(self.deep_view()),
        ensures
            r is Ok <==> loginsuccess_encodable(self.deep_view()),
            match r {
                Ok(_) => final(out)@ == old(out)@ + loginsuccess_enc(self.deep_view()),
                Err(_) => final(out)@ == old(out)@,
            },
    {
        let mut tmp: Vec<u8> = Vec::new();
        self.uuid.serialize(&mut tmp, ())?;
        self.username.serialize(&mut tmp, Some(16u32))?;
        serialize_properties(&self.properties, &mut tmp)?;
        let ghost base = out@;
        out.append(&mut tmp);
        proof {
            assert(out@ =~= base + loginsuccess_enc(self.deep_view()));
        }
        Ok(())
    }

    /// How many bytes `serialize` would append.
    pub fn size(&self, args: ()) -> (r: usize)
        requires
            loginsuccess_wf(self.deep_view()),
            loginsuccess_encodable(self.deep_view()),
        ensures
            r == loginsuccess_enc(self.deep_view()).len(),
    {
        let mut tmp: Vec<u8> = Vec::new();
        match self.serialize(&mut tmp, args) {
            Ok(_) => tmp.len(),
            Err(_) => {
                proof {
                    assert(false);
                }
                0
            },
        }
    }
}

/// Announces a compression threshold (an extension point; frames here are never compressed).
#[derive(Debug, Clone)]
pub struct SetCompression {
    /// The `threshold` field.
    pub threshold: VarInt,
}

/// The mathematical value of a `SetCompression` body.
#[verifier::ext_equal]
pub struct SetCompressionV {
    /// The `threshold` field.
    pub threshold: i32,
}

impl DeepView for SetCompression {
    type V = SetCompressionV;

    open spec fn deep_view(&self) -> SetCompressionV {
        SetCompressionV {
            threshold: self.threshold.deep_view(),
        }
    }
}

/// Parses one `SetCompression` body.
pub open spec fn setcompression_dec(s: Seq<u8>, at: int) -> Option<(SetCompressionV, int)> {
    match crate::primitives::varint_dec(s, at) {
        Some((v0, e0)) => Some((SetCompressionV { threshold: v0 }, e0)),
        None => None,
    }
}

/// The wire bytes of one `SetCompression` body.
pub open spec fn setcompression_enc(v: SetCompressionV) -> Seq<u8> {
    crate::primitives::varint_enc(v.threshold)
}

/// Values a `SetCompression` can hold.
pub open spec fn setcompression_wf(v: SetCompressionV) -> bool {
    true
}

/// Which `SetCompression` values serialize successfully.
pub open spec fn setcompression_encodable(v: SetCompressionV) -> bool {
    true
}

impl SetCompression {
    /// Decodes one `SetCompression` body.
    pub fn decode(cursor: &mut ByteCursor, args: ()) -> (r: Result<Self, DecodeError>)
        requires
            old(cursor).wf(),
        ensures
            final(cursor).wf(),
            final(cursor).original@ == old(cursor).original@,
            match r {
                Ok(v) => setcompression_dec(old(cursor).original@, old(cursor).pos as int) == Some(
                    (v.deep_view(), final(cursor).pos as int),
                ) && setcompression_wf(v.deep_view()),
                Err(_) => setcompression_dec(old(cursor).original@, old(cursor).pos as int) is None,
            },
    {
        let threshold = DecodeError::pathed(
            ItemPathPart::Named("threshold"),
            VarInt::decode(cursor, ()),
        )?;
        Ok(SetCompression { threshold })
    }

    /// Appends the wire bytes of this `SetCompression` body.
    pub fn serialize(&self, out: &mut Vec<u8>, args: ()) -> (r: Result<(), DecodeError>)
        requires
            setcompression_wf(self.deep_view()),
        ensures
            r is Ok <==> setcompression_encodable(self.deep_view()),
            match r {
                Ok(_) => final(out)@ == old(out)@ + setcompression_enc(self.deep_view()),
                Err(_) => final(out)@ == old(out)@,
            },
    {
        let mut tmp: Vec<u8> = Vec::new();
        self.threshold.serialize(&mut tmp, ())?;
        let ghost base = out@;
        out.append(&mut tmp);
        proof {
            assert(out@ =~= base + setcompression_enc(self.deep_view()));
        }
        Ok(())
    }

    /// How many bytes `serialize` would append.
    pub fn size(&self, args: ()) -> (r: usize)
        requires
            setcompression_wf(self.deep_view()),
            setcompression_encodable(self.deep_view()),
        ensures
            r == setcompression_enc(self.deep_view()).len(),
    {
        let mut tmp: Vec<u8> = Vec::new();
        match self.serialize(&mut tmp, args) {
            Ok(_) => tmp.len(),
            Err(_) => {
                proof {
                    assert(false);
                }
                0
            },
        }
    }
}

/// Asks the client to answer on a plugin channel.
#[derive(Debug)]
pub struct LoadPluginRequest {
    /// The `message_id` field.
    pub message_id: VarInt,
    /// The `channel` field.
    pub channel: Identifier,
    /// The `data` field.
    pub data: TrailingByteArray,
}

/// The mathematical value of a `LoadPluginRequest` body.
#[verifier::ext_equal]
pub struct LoadPluginRequestV {
    /// The `message_id` field.
    pub message_id: i32,
    /// The `channel` field.
    pub channel: Seq<u8>,
    /// The `data` field.
    pub data: Seq<u8>,
}

impl DeepView for LoadPluginRequest {
    type V = LoadPluginRequestV;

    open spec fn deep_view(&self) -> LoadPluginRequestV {
        LoadPluginRequestV {
            message_id: self.message_id.deep_view(),
            channel: self.channel.deep_view(),
            data: self.data.deep_view(),
        }
    }
}

/// Parses one `LoadPluginRequest` body.
pub open spec fn loadpluginrequest_dec(s: Seq<u8>, at: int) -> Option<(LoadPluginRequestV, int)> {
    match crate::primitives::varint_dec(s, at) {
        Some((v0, e0)) => match crate::primitives::netstring_dec(s, e0, Some(32767)) {
        Some((v1, e1)) => match crate::primitives::trailing_dec(s, e1) {
        Some((v2, e2)) => Some((LoadPluginRequestV { message_id: v0, channel: v1, data: v2 }, e2)),
        None => None,
    },
        None => None,
    },
        None => None,
    }
}

/// The wire bytes of one `LoadPluginRequest` body.
pub open spec fn loadpluginrequest_enc(v: LoadPluginRequestV) -> Seq<u8> {
    crate::primitives::varint_enc(v.message_id) + crate::primitives::netstring_enc(v.channel) + v.data
}

/// Values a `LoadPluginRequest` can hold.
pub open spec fn loadpluginrequest_wf(v: LoadPluginRequestV) -> bool {
    valid_utf8(v.channel)
}

/// Which `LoadPluginRequest` values serialize successfully.
pub open spec fn loadpluginrequest_encodable(v: LoadPluginRequestV) -> bool {
    v.channel.len() <= 0x7fff_ffff && decode_utf8(v.channel).len() <= 32767
}

impl LoadPluginRequest {
    /// Decodes one `LoadPluginRequest` body.
    pub fn decode(cursor: &mut ByteCursor, args: ()) -> (r: Result<Self, DecodeError>)
        requires
            old(cursor).wf(),
        ensures
            final(cursor).wf(),
            final(cursor).original@ == old(cursor).original@,
            match r {
                Ok(v) => loadpluginrequest_dec(old(cursor).original@, old(cursor).pos as int) == Some(
                    (v.deep_view(), final(cursor).pos as int),
                ) && loadpluginrequest_wf(v.deep_view()),
                Err(_) => loadpluginrequest_dec(old(cursor).original@, old(cursor).pos as int) is None,
            },
    {
        let message_id = DecodeError::pathed(
            ItemPathPart::Named("message_id"),
            VarInt::decode(cursor, ()),
        )?;
        let channel = DecodeError::pathed(
            ItemPathPart::Named("channel"),
            Identifier::decode(cursor, ()),
        )?;
        let data = DecodeError::pathed(
            ItemPathPart::Named("data"),
            TrailingByteArray::decode(cursor, ()),
        )?;
        Ok(LoadPluginRequest { message_id, channel, data })
    }

    /// Appends the wire bytes of this `LoadPluginRequest` body.
    pub fn serialize(&self, out: &mut Vec<u8>, args: ()) -> (r: Result<(), DecodeError>)
        requires
            loadpluginrequest_wf(self.deep_view()),
        ensures
            r is Ok <==> loadpluginrequest_encodable(self.deep_view()),
            match r {
                Ok(_) => final(out)@ == old(out)@ + loadpluginrequest_enc(self.deep_view()),
                Err(_) => final(out)@ == old(out)@,
            },
    {
        let mut tmp: Vec<u8> = Vec::new();
        self.message_id.serialize(&mut tmp, ())?;
        self.channel.serialize(&mut tmp, ())?;
        self.data.serialize(&mut tmp, ())?;
        let ghost base = out@;
        out.append(&mut tmp);
        proof {
            assert(out@ =~= base + loadpluginrequest_enc(self.deep_view()));
        }
        Ok(())
    }

    /// How many bytes `serialize` would append.
    pub fn size(&self, args: ()) -> (r: usize)
        requires
            loadpluginrequest_wf(self.deep_view()),
            loadpluginrequest_encodable(self.deep_view()),
        ensures
            r == loadpluginrequest_enc(self.deep_view()).len(),
    {
        let mut tmp: Vec<u8> = Vec::new();
        match self.serialize(&mut tmp, args) {
            Ok(_) => tmp.len(),
            Err(_) => {
                proof {
                    assert(false);
                }
                0
            },
        }
    }
}


/// Ends a login attempt, carrying the reason as a chat-text JSON field.
#[derive(Clone)]
pub struct Disconnect {
    /// Why the peer is being disconnected.
    pub reason: Json,
}

impl DeepView for Disconnect {
    type V = crate::chat::ChatRootV;

    open spec fn deep_view(&self) -> crate::chat::ChatRootV {
        self.reason.root.deep_view()
    }
}

impl Disconnect {
    /// Decodes the reason field: the JSON string layer and the JSON
    /// grammar exactly; a reason whose text is not well-formed JSON is
    /// rejected here. The chat schema's acceptance of the parsed document
    /// is decided by [`crate::chat::ChatRoot::validate_deep`].
    pub fn decode(cursor: &mut ByteCursor) -> (r: Result<Self, DecodeError>)
        requires
            old(cursor).wf(),
        ensures
            final(cursor).wf(),
            final(cursor).original@ == old(cursor).original@,
            crate::primitives::netstring_dec(
                old(cursor).original@,
                old(cursor).pos as int,
                Some(crate::chat::CHAT_MAX_LEN),
            ) is None ==> r is Err,
            (crate::primitives::netstring_dec(
                old(cursor).original@,
                old(cursor).pos as int,
                Some(crate::chat::CHAT_MAX_LEN),
            ) matches Some((text, end))
                && !crate::json_document::json_text_wf(text)) ==> r is Err,
            crate::primitives::netstring_dec(
                old(cursor).original@,
                old(cursor).pos as int,
                Some(crate::chat::CHAT_MAX_LEN),
            ) matches Some((text, end)) ==> ((r is Err
                && crate::json_document::json_text_wf(text))
                ==> crate::chat::schema_refused_witness(text)),
            match r {
                Ok(p) => (crate::primitives::netstring_dec(
                    old(cursor).original@,
                    old(cursor).pos as int,
                    Some(crate::chat::CHAT_MAX_LEN),
                ) matches Some((text, end)) && final(cursor).pos == end
                    && crate::json_document::json_text_wf(text)) && ({
                    let (d, sc) = p.reason.summary@;
                    &&& d.wf()
                    &&& crate::json_document::doc_arrays_complete(d)
                    &&& crate::chat::chat_root_valid(d, sc)
                    &&& p.deep_view() == crate::chat::spec_reify_root(d, sc)
                }),
                Err(_) => true,
            },
    {
        let reason = DecodeError::pathed(ItemPathPart::Named("reason"), Json::decode(cursor))?;
        Ok(Disconnect { reason })
    }

    /// Appends the reason field.
    pub fn serialize(&self, out: &mut Vec<u8>) -> (r: Result<(), DecodeError>)
        ensures
            r is Ok <==> crate::chat::json_field_encodable(self.deep_view()),
            match r {
                Ok(_) => final(out)@ == old(out)@ + disconnect_enc(self.deep_view()),
                Err(_) => final(out)@ == old(out)@,
            },
    {
        self.reason.serialize(out)
    }
}

/// The wire bytes of one `Disconnect` body.
pub open spec fn disconnect_enc(v: crate::chat::ChatRootV) -> Seq<u8> {
    crate::primitives::netstring_enc(crate::chat::chat_root_json(v))
}


/// The packets the server may send in the Login state, by id.
pub enum Packet {
    /// Id 0.
    Disconnect(Disconnect),
    /// Id 1.
    EncryptionRequest(EncryptionRequest),
    /// Id 2.
    LoginSuccess(LoginSuccess),
    /// Id 3.
    SetCompression(SetCompression),
    /// Id 4.
    LoadPluginRequest(LoadPluginRequest),
}

/// The mathematical value of a packet in this state.
pub enum PacketV {
    /// Id 0.
    Disconnect(crate::chat::ChatRootV),
    /// Id 1.
    EncryptionRequest(EncryptionRequestV),
    /// Id 2.
    LoginSuccess(LoginSuccessV),
    /// Id 3.
    SetCompression(SetCompressionV),
    /// Id 4.
    LoadPluginRequest(LoadPluginRequestV),
}

impl DeepView for Packet {
    type V = PacketV;

    open spec fn deep_view(&self) -> PacketV {
        match self {
            Packet::Disconnect(p) => PacketV::Disconnect(p.deep_view()),
            Packet::EncryptionRequest(p) => PacketV::EncryptionRequest(p.deep_view()),
            Packet::LoginSuccess(p) => PacketV::LoginSuccess(p.deep_view()),
            Packet::SetCompression(p) => PacketV::SetCompression(p.deep_view()),
            Packet::LoadPluginRequest(p) => PacketV::LoadPluginRequest(p.deep_view()),
        }
    }
}

/// What a frame body in this state parses to, up to the JSON layer: the
/// Disconnect arm carries the reason's raw text, whose chat-schema
/// reading is decided at run time.
pub enum PacketWire {
    /// Id 0, with its well-formed reason text.
    Disconnect(Seq<u8>),
    /// Id 1.
    EncryptionRequest(EncryptionRequestV),
    /// Id 2.
    LoginSuccess(LoginSuccessV),
    /// Id 3.
    SetCompression(SetCompressionV),
    /// Id 4.
    LoadPluginRequest(LoadPluginRequestV),
}

/// Parses a frame body in this state: a packet id, then the matching
/// shape. An id outside the declared set parses to nothing.
pub open spec fn packet_dec(s: Seq<u8>, at: int) -> Option<(PacketWire, int)> {
    match crate::primitives::varint_dec(s, at) {
        Some((id, e)) => if id == 0 {
            match crate::primitives::netstring_dec(s, e, Some(crate::chat::CHAT_MAX_LEN)) {
                Some((text, e2)) => Some((PacketWire::Disconnect(text), e2)),
                None => None,
            }
        } else if id == 1 {
            match encryptionrequest_dec(s, e) {
                Some((v, e2)) => Some((PacketWire::EncryptionRequest(v), e2)),
                None => None,
            }
        } else if id == 2 {
            match loginsuccess_dec(s, e) {
                Some((v, e2)) => Some((PacketWire::LoginSuccess(v), e2)),
                None => None,
            }
        } else if id == 3 {
            match setcompression_dec(s, e) {
                Some((v, e2)) => Some((PacketWire::SetCompression(v), e2)),
                None => None,
            }
        } else if id == 4 {
            match loadpluginrequest_dec(s, e) {
                Some((v, e2)) => Some((PacketWire::LoadPluginRequest(v), e2)),
                None => None,
            }
        } else {
            None
        },
        None => None,
    }
}

/// A decoded packet agrees with its wire-level reading; for the
/// Disconnect arm the reason text is well-formed JSON.
pub open spec fn wire_matches(v: PacketV, w: PacketWire) -> bool {
    match (v, w) {
        (PacketV::Disconnect(_), PacketWire::Disconnect(text)) => crate::json_document::json_text_wf(
            text,
        ),
        (PacketV::EncryptionRequest(a), PacketWire::EncryptionRequest(b)) => a == b,
        (PacketV::LoginSuccess(a), PacketWire::LoginSuccess(b)) => a == b,
        (PacketV::SetCompression(a), PacketWire::SetCompression(b)) => a == b,
        (PacketV::LoadPluginRequest(a), PacketWire::LoadPluginRequest(b)) => a == b,
        _ => false,
    }
}

/// The wire bytes of a packet in this state: its id, then its body.
pub open spec fn packet_enc(v: PacketV) -> Seq<u8> {
    match v {
        PacketV::Disconnect(p) => crate::primitives::varint_enc(0) + disconnect_enc(p),
        PacketV::EncryptionRequest(p) => crate::primitives::varint_enc(1)
            + encryptionrequest_enc(p),
        PacketV::LoginSuccess(p) => crate::primitives::varint_enc(2) + loginsuccess_enc(p),
        PacketV::SetCompression(p) => crate::primitives::varint_enc(3) + setcompression_enc(p),
        PacketV::LoadPluginRequest(p) => crate::primitives::varint_enc(4)
            + loadpluginrequest_enc(p),
    }
}

/// Which packet values serialize successfully.
pub open spec fn packet_encodable(v: PacketV) -> bool {
    match v {
        PacketV::Disconnect(p) => crate::chat::json_field_encodable(p),
        PacketV::EncryptionRequest(p) => encryptionrequest_encodable(p),
        PacketV::LoginSuccess(p) => loginsuccess_encodable(p),
        PacketV::SetCompression(p) => setcompression_encodable(p),
        PacketV::LoadPluginRequest(p) => loadpluginrequest_encodable(p),
    }
}

/// Values the packet type can hold.
pub open spec fn packet_wf(v: PacketV) -> bool {
    match v {
        PacketV::Disconnect(p) => true,
        PacketV::EncryptionRequest(p) => encryptionrequest_wf(p),
        PacketV::LoginSuccess(p) => loginsuccess_wf(p),
        PacketV::SetCompression(p) => setcompression_wf(p),
        PacketV::LoadPluginRequest(p) => loadpluginrequest_wf(p),
    }
}

impl Packet {
    /// Reads the packet id and dispatches to the matching shape's decode.
    ///
    /// An id with no shape in this state is a fatal unknown-packet error.
    /// Success is owed for every shape but Disconnect, whose JSON reason
    /// must additionally pass the chat schema at run time; a reason that
    /// is not well-formed JSON is refused here.
    pub fn decode(cursor: &mut ByteCursor) -> (r: Result<Packet, DecodeError>)
        requires
            old(cursor).wf(),
        ensures
            final(cursor).wf(),
            final(cursor).original@ == old(cursor).original@,
            crate::primitives::varint_dec(old(cursor).original@, old(cursor).pos as int)
                matches Some((idv, e)) ==> ((idv != 0 && idv != 1 && idv != 2 && idv != 3 && idv != 4) ==> (r matches Err(err)
                && err.item_kind == Some("packet id") && (err.message
                matches crate::error::ErrorText::Owned(m) && vstd::utf8::encode_utf8(m@)
                == crate::error::unknown_packet_bytes(idv as int, ("Login")@)))),
            packet_dec(old(cursor).original@, old(cursor).pos as int) is None ==> r is Err,
            (packet_dec(old(cursor).original@, old(cursor).pos as int) matches Some((pv, end))
                && !(pv is Disconnect)) ==> r is Ok,
            (packet_dec(old(cursor).original@, old(cursor).pos as int) matches Some((pv, end))
                && (pv matches PacketWire::Disconnect(text)
                && !crate::json_document::json_text_wf(text))) ==> r is Err,
            match r {
                Ok(p) => packet_dec(old(cursor).original@, old(cursor).pos as int)
                    matches Some((pv, end)) && final(cursor).pos == end && wire_matches(
                    p.deep_view(),
                    pv,
                ) && packet_wf(p.deep_view()),
                Err(_) => true,
            },
    {
        let id = VarInt::decode(cursor, ())?;
        if id.0 == 0 {
            let p = Disconnect::decode(cursor)?;
            return Ok(Packet::Disconnect(p));
        }
        if id.0 == 1 {
            let p = EncryptionRequest::decode(cursor, ())?;
            return Ok(Packet::EncryptionRequest(p));
        }
        if id.0 == 2 {
            let p = LoginSuccess::decode(cursor, ())?;
            return Ok(Packet::LoginSuccess(p));
        }
        if id.0 == 3 {
            let p = SetCompression::decode(cursor, ())?;
            return Ok(Packet::SetCompression(p));
        }
        if id.0 == 4 {
            let p = LoadPluginRequest::decode(cursor, ())?;
            return Ok(Packet::LoadPluginRequest(p));
        }
        Err(crate::error::unknown_packet(id.0, "Login", cursor.pos()))
    }

    /// Decodes one whole frame body.
    pub fn decode_bytes(body: &[u8]) -> (r: Result<Packet, DecodeError>)
        ensures
            packet_dec(body@, 0) is None ==> r is Err,
            (packet_dec(body@, 0) matches Some((pv, end)) && !(pv is Disconnect)) ==> r is Ok,
            match r {
                Ok(p) => packet_dec(body@, 0) matches Some((pv, end)) && wire_matches(
                    p.deep_view(),
                    pv,
                ) && packet_wf(p.deep_view()),
                Err(_) => true,
            },
    {
        let mut cursor = ByteCursor::new(body);
        Packet::decode(&mut cursor)
    }

    /// Appends the id and body of this packet.
    pub fn encode(&self, out: &mut Vec<u8>) -> (r: Result<(), DecodeError>)
        requires
            packet_wf(self.deep_view()),
        ensures
            r is Ok <==> packet_encodable(self.deep_view()),
            match r {
                Ok(_) => final(out)@ == old(out)@ + packet_enc(self.deep_view()),
                Err(_) => final(out)@ == old(out)@,
            },
    {
        match self {
            Packet::Disconnect(p) => {
                let mut tmp: Vec<u8> = Vec::new();
                p.serialize(&mut tmp)?;
                let ghost base = out@;
                crate::var_int::encode_var_u32(out, 0);
                out.append(&mut tmp);
                proof {
                    assert(out@ =~= base + packet_enc(self.deep_view()));
                }
                Ok(())
            },
            Packet::EncryptionRequest(p) => {
                let mut tmp: Vec<u8> = Vec::new();
                p.serialize(&mut tmp, ())?;
                let ghost base = out@;
                crate::var_int::encode_var_u32(out, 1);
                out.append(&mut tmp);
                proof {
                    assert(out@ =~= base + packet_enc(self.deep_view()));
                }
                Ok(())
            },
            Packet::LoginSuccess(p) => {
                let mut tmp: Vec<u8> = Vec::new();
                p.serialize(&mut tmp, ())?;
                let ghost base = out@;
                crate::var_int::encode_var_u32(out, 2);
                out.append(&mut tmp);
                proof {
                    assert(out@ =~= base + packet_enc(self.deep_view()));
                }
                Ok(())
            },
            Packet::SetCompression(p) => {
                let mut tmp: Vec<u8> = Vec::new();
                p.serialize(&mut tmp, ())?;
                let ghost base = out@;
                crate::var_int::encode_var_u32(out, 3);
                out.append(&mut tmp);
                proof {
                    assert(out@ =~= base + packet_enc(self.deep_view()));
                }
                Ok(())
            },
            Packet::LoadPluginRequest(p) => {
                let mut tmp: Vec<u8> = Vec::new();
                p.serialize(&mut tmp, ())?;
                let ghost base = out@;
                crate::var_int::encode_var_u32(out, 4);
                out.append(&mut tmp);
                proof {
                    assert(out@ =~= base + packet_enc(self.deep_view()));
                }
                Ok(())
            },
        }
    }

    /// How many bytes `encode` would append.
    pub fn size(&self) -> (r: usize)
        requires
            packet_wf(self.deep_view()),
            packet_encodable(self.deep_view()),
        ensures
            r == packet_enc(self.deep_view()).len(),
    {
        let mut tmp: Vec<u8> = Vec::new();
        match self.encode(&mut tmp) {
            Ok(_) => tmp.len(),
            Err(_) => {
                proof {
                    assert(false);
                }
                0
            },
        }
    }
}


} // verus!
