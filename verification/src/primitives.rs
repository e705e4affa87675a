//! The wire types and their decode/encode contracts.
//!
//! Every wire type states one parsing function over byte sequences
//! ([`DeserializeFor::sdec`]) and one serialization function
//! ([`SerializeInto::senc`]); the executable decoder and encoder are
//! verified against them. Multi-byte integers travel big-endian; variable
//! length numbers use the 7-bit group scheme of [`crate::var_int`];
//! strings are length-prefixed UTF-8 with an optional codepoint bound.

use vstd::arithmetic::power2::{lemma2_to64, lemma_pow2_adds, lemma_pow2_pos, pow2};
use vstd::prelude::*;
use vstd::slice::slice_to_vec;
use vstd::utf8::{decode_utf8, encode_utf8, encode_utf8_valid_utf8, valid_utf8};

use crate::byte_stream::ByteCursor;
use crate::bytes_integration::{bytes_as_slice, bytes_copy_from_slice, bytes_len, bytes_view};
use crate::error::{located, DecodeError, ErrorText};
use crate::text::scan_utf8;
use crate::var_int::{
    decode_var_i32_streaming, decode_var_i64_streaming, encode_var_u32_raw, encode_var_u64_raw,
    vnum_enc, vu32_dec, vu64_dec, VarDec,
};
use crate::bits::{
    spec_i32_from_u32_2c, spec_i32_to_u32_2c, spec_i64_from_u64_2c, spec_i64_to_u64_2c,
};

verus! {

/// The value of a big-endian byte run.
pub open spec fn be_val(s: Seq<u8>) -> nat
    decreases s.len(),
{
    if s.len() == 0 {
        0
    } else {
        (be_val(s.drop_last()) * 256 + s.last()) as nat
    }
}

/// The `n` low-order bytes of `v`, most significant first.
pub open spec fn be_bytes(v: nat, n: nat) -> Seq<u8>
    decreases n,
{
    if n == 0 {
        Seq::<u8>::empty()
    } else {
        be_bytes(v / 256, (n - 1) as nat) + seq![(v % 256) as u8]
    }
}

/// A big-endian run of `n` bytes holds a value below `2^(8n)`.
pub proof fn lemma_be_val_bound(s: Seq<u8>)
    ensures
        be_val(s) < pow2(8 * s.len()),
    decreases s.len(),
{
    lemma2_to64();
    if s.len() == 0 {
    } else {
        lemma_be_val_bound(s.drop_last());
        lemma_pow2_adds(8 * (s.len() - 1) as nat, 8);
        assert(be_val(s.drop_last()) * 256 + 255 < pow2(8 * (s.len() - 1) as nat) * 256)
            by (nonlinear_arith)
            requires
                be_val(s.drop_last()) < pow2(8 * (s.len() - 1) as nat),
        ;
    }
}

/// Writing and re-reading `n` big-endian bytes preserves any value they
/// can hold.
pub proof fn lemma_be_round_trip(v: nat, n: nat)
    requires
        v < pow2(8 * n),
    ensures
        be_bytes(v, n).len() == n,
        be_val(be_bytes(v, n)) == v,
    decreases n,
{
    lemma2_to64();
    if n == 0 {
        assert(pow2(0) == 1);
    } else {
        lemma_pow2_adds(8 * (n - 1) as nat, 8);
        assert(v / 256 < pow2(8 * (n - 1) as nat)) by (nonlinear_arith)
            requires
                v < pow2(8 * n),
                pow2(8 * n) == pow2(8 * (n - 1) as nat) * 256,
        ;
        lemma_be_round_trip(v / 256, (n - 1) as nat);
        let e = be_bytes(v, n);
        assert(e.drop_last() =~= be_bytes(v / 256, (n - 1) as nat));
        assert(e.last() == (v % 256) as u8);
        vstd::arithmetic::div_mod::lemma_fundamental_div_mod(v as int, 256);
    }
}

/// Reads `count` big-endian bytes into an accumulator.
pub fn read_be_bytes(cursor: &mut ByteCursor, count: usize, kind: &'static str) -> (r: Result<
    u128,
    DecodeError,
>)
    requires
        old(cursor).wf(),
        count <= 16,
    ensures
        final(cursor).wf(),
        final(cursor).original@ == old(cursor).original@,
        match r {
            Ok(v) => {
                &&& old(cursor).pos + count <= old(cursor).original@.len()
                &&& v as nat == be_val(
                    old(cursor).original@.subrange(
                        old(cursor).pos as int,
                        old(cursor).pos + count,
                    ),
                )
                &&& final(cursor).pos == old(cursor).pos + count
            },
            Err(_) => {
                &&& old(cursor).pos + count > old(cursor).original@.len()
                &&& final(cursor).pos == old(cursor).pos
            },
        },
{
    let ghost s = cursor.original@;
    let ghost start = cursor.pos as int;
    if cursor.len() < count {
        return Err(DecodeError::kinded_new(kind, cursor.pos()));
    }
    let mut acc: u128 = 0;
    let mut j: usize = 0;
    proof {
        lemma2_to64();
        assert(s.subrange(start, start) =~= Seq::<u8>::empty());
    }
    while j < count
        invariant
            s == old(cursor).original@,
            start == old(cursor).pos as int,
            cursor.wf(),
            cursor.original@ == s,
            cursor.pos == start + j,
            j <= count,
            count <= 16,
            start + count <= s.len(),
            acc as nat == be_val(s.subrange(start, start + j)),
            (acc as nat) < pow2(8 * j as nat),
        decreases count - j,
    {
        let b = match cursor.read() {
            Some(b) => b,
            None => {
                proof {
                    assert(false);
                }
                return Err(DecodeError::kinded_new(kind, cursor.pos()));
            },
        };
        proof {
            lemma2_to64();
            lemma_pow2_adds(8 * j as nat, 8);
            assert(pow2(8 * j as nat) <= pow2(120)) by {
                if 8 * (j as nat) < 120 {
                    vstd::arithmetic::power2::lemma_pow2_strictly_increases(8 * j as nat, 120);
                }
                vstd::arithmetic::power2::lemma2_to64_rest();
                lemma_pow2_adds(64, 56);
            }
            assert((acc as nat) * 256 + 255 < pow2(8 * j as nat) * 256) by (nonlinear_arith)
                requires
                    (acc as nat) < pow2(8 * j as nat),
            ;
            assert(pow2(120) * 256 <= 0x1_0000_0000_0000_0000_0000_0000_0000_0000) by {
                vstd::arithmetic::power2::lemma2_to64_rest();
                lemma_pow2_adds(64, 56);
                lemma_pow2_adds(120, 8);
                lemma_pow2_adds(64, 64);
            }
            assert(s.subrange(start, start + j + 1).drop_last() =~= s.subrange(start, start + j));
            assert(s.subrange(start, start + j + 1).last() == b);
        }
        acc = acc * 256 + (b as u128);
        j = j + 1;
    }
    proof {
        assert(s.subrange(start, start + count) =~= s.subrange(start, start + j));
    }
    Ok(acc)
}

/// Appends the `n` low-order bytes of `v`, most significant first.
pub fn push_be_bytes(out: &mut Vec<u8>, v: u128, n: usize)
    requires
        n <= 16,
    ensures
        final(out)@ == old(out)@ + be_bytes(v as nat, n as nat),
{
    let ghost base = old(out)@;
    let mut tmp: Vec<u8> = Vec::new();
    let mut x = v;
    let mut j: usize = 0;
    while j < n
        invariant
            j <= n,
            tmp@.len() == j,
            be_bytes(v as nat, n as nat) == be_bytes(x as nat, (n - j) as nat) + tmp@.reverse(),
        decreases n - j,
    {
        proof {
            assert(x & 0xff == x % 256 && x % 256 < 256 && (x >> 8) == x / 256) by (bit_vector);
        }
        let d: u8 = (x & 0xff) as u8;
        let ghost old_tmp = tmp@;
        tmp.push(d);
        proof {
            assert(tmp@.reverse() =~= seq![d] + old_tmp.reverse());
            assert(be_bytes(x as nat, (n - j) as nat) == be_bytes((x as nat) / 256, (n - j - 1) as nat)
                + seq![((x as nat) % 256) as u8]);
            assert(be_bytes(x as nat, (n - j) as nat) + old_tmp.reverse() =~= be_bytes(
                (x as nat) / 256,
                (n - j - 1) as nat,
            ) + tmp@.reverse());
        }
        x = x >> 8;
        j = j + 1;
    }
    proof {
        assert(be_bytes(x as nat, 0) =~= Seq::<u8>::empty());
        assert(be_bytes(v as nat, n as nat) =~= tmp@.reverse());
    }
    let mut k = tmp.len();
    proof {
        assert(tmp@.subrange(k as int, tmp@.len() as int) =~= Seq::<u8>::empty());
        assert(out@ =~= base + tmp@.subrange(k as int, tmp@.len() as int).reverse());
    }
    while k > 0
        invariant
            k <= tmp@.len(),
            out@ == base + tmp@.subrange(k as int, tmp@.len() as int).reverse(),
        decreases k,
    {
        k = k - 1;
        let d = tmp[k];
        out.push(d);
        proof {
            assert(out@ =~= base + tmp@.subrange(k as int, tmp@.len() as int).reverse());
        }
    }
    proof {
        assert(tmp@.subrange(0, tmp@.len() as int) =~= tmp@);
        assert(out@ =~= base + be_bytes(v as nat, n as nat));
    }
}

/// A value that can be read from the wire under arguments `A` (for
/// strings, the codepoint bound).
///
/// `sdec` is the parsing function: `Some((value, end))` exactly when the
/// bytes at `at` form a well-formed encoding, with `end` the start of the
/// next field. The executable decoder is verified against it, byte for
/// byte.
pub trait DeserializeFor<A>: Sized + DeepView {
    /// What the bytes at `at` parse to, if anything.
    spec fn sdec(s: Seq<u8>, at: int, args: A) -> Option<(Self::V, int)>;

    /// Values this type can hold (a decoded value always satisfies it).
    spec fn wf_value(v: Self::V) -> bool;

    /// Decodes one value, advancing the cursor past it.
    fn decode(cursor: &mut ByteCursor, args: A) -> (r: Result<Self, DecodeError>)
        requires
            old(cursor).wf(),
        ensures
            final(cursor).wf(),
            final(cursor).original@ == old(cursor).original@,
            match r {
                Ok(v) => Self::sdec(old(cursor).original@, old(cursor).pos as int, args) == Some(
                    (v.deep_view(), final(cursor).pos as int),
                ) && Self::wf_value(v.deep_view()),
                Err(_) => Self::sdec(old(cursor).original@, old(cursor).pos as int, args)
                    is None,
            },
    ;
}

/// A value that can be written to the wire under arguments `A`.
///
/// `senc` is the serialization function; `encodable` says exactly which
/// values serialize successfully (strings can be refused for exceeding
/// their bound).
pub trait SerializeInto<A>: Sized + DeepView {
    /// The wire bytes of `v`.
    spec fn senc(v: Self::V, args: A) -> Seq<u8>;

    /// Which values serialize successfully.
    spec fn encodable(v: Self::V, args: A) -> bool;

    /// Values this type can hold; serialization is specified for them.
    spec fn wf_enc_value(v: Self::V) -> bool;

    /// Appends the wire bytes of `self` to `out`.
    fn serialize(&self, out: &mut Vec<u8>, args: A) -> (r: Result<(), DecodeError>)
        requires
            Self::wf_enc_value(self.deep_view()),
        ensures
            r is Ok <==> Self::encodable(self.deep_view(), args),
            match r {
                Ok(_) => final(out)@ == old(out)@ + Self::senc(self.deep_view(), args),
                Err(_) => final(out)@ == old(out)@,
            },
    ;
}

/// A value whose serialized size can be measured before writing.
pub trait SizedCodec<A>: SerializeInto<A> {
    /// How many bytes `serialize` would append.
    fn size(&self, args: A) -> (r: usize)
        requires
            Self::wf_enc_value(self.deep_view()),
            Self::encodable(self.deep_view(), args),
        ensures
            r == Self::senc(self.deep_view(), args).len(),
    ;
}

impl DecodeError {
    /// A truncated-input error naming the wire kind being read.
    pub fn kinded_new(kind: &'static str, pos: usize) -> (r: Self)
        ensures
            r.item_kind == Some(kind),
    {
        located("unexpected end of input", pos).with_kind(kind)
    }
}

// === bool === //

/// The wire form of a boolean: one byte, `0x00` or `0x01`.
pub open spec fn bool_enc(v: bool) -> Seq<u8> {
    if v {
        seq![1u8]
    } else {
        seq![0u8]
    }
}

/// Parses a boolean; any byte other than `0x00`/`0x01` is malformed.
pub open spec fn bool_dec(s: Seq<u8>, at: int) -> Option<(bool, int)> {
    if 0 <= at < s.len() {
        if s[at] == 0 {
            Some((false, at + 1))
        } else if s[at] == 1 {
            Some((true, at + 1))
        } else {
            None
        }
    } else {
        None
    }
}

impl DeserializeFor<()> for bool {
    open spec fn sdec(s: Seq<u8>, at: int, args: ()) -> Option<(bool, int)> {
        bool_dec(s, at)
    }

    open spec fn wf_value(v: bool) -> bool {
        true
    }

    fn decode(cursor: &mut ByteCursor, args: ()) -> (r: Result<Self, DecodeError>) {
        match cursor.read() {
            Some(b) => {
                if b == 0 {
                    Ok(false)
                } else if b == 1 {
                    Ok(true)
                } else {
                    Err(
                        located("invalid variant for boolean: expected 0 or 1", cursor.pos())
                            .with_kind("boolean"),
                    )
                }
            },
            None => Err(DecodeError::kinded_new("boolean", cursor.pos())),
        }
    }
}

impl SerializeInto<()> for bool {
    open spec fn senc(v: bool, args: ()) -> Seq<u8> {
        bool_enc(v)
    }

    open spec fn encodable(v: bool, args: ()) -> bool {
        true
    }

    open spec fn wf_enc_value(v: bool) -> bool {
        true
    }

    fn serialize(&self, out: &mut Vec<u8>, args: ()) -> (r: Result<(), DecodeError>) {
        let ghost base = out@;
        if *self {
            out.push(1);
        } else {
            out.push(0);
        }
        proof {
            assert(out@ =~= base + bool_enc(*self));
        }
        Ok(())
    }
}

impl SizedCodec<()> for bool {
    fn size(&self, args: ()) -> (r: usize) {
        1
    }
}

// === u16 === //

/// Parses a big-endian `u16`.
pub open spec fn u16_dec(s: Seq<u8>, at: int) -> Option<(u16, int)> {
    if 0 <= at && at + 2 <= s.len() {
        Some(((be_val(s.subrange(at, at + 2)) as u16), at + 2))
    } else {
        None
    }
}

impl DeserializeFor<()> for u16 {
    open spec fn sdec(s: Seq<u8>, at: int, args: ()) -> Option<(u16, int)> {
        u16_dec(s, at)
    }

    open spec fn wf_value(v: u16) -> bool {
        true
    }

    fn decode(cursor: &mut ByteCursor, args: ()) -> (r: Result<Self, DecodeError>) {
        let v = read_be_bytes(cursor, 2, "u16")?;
        proof {
            lemma_be_val_bound(
                old(cursor).original@.subrange(old(cursor).pos as int, old(cursor).pos + 2),
            );
            lemma2_to64();
        }
        Ok(v as u16)
    }
}

impl SerializeInto<()> for u16 {
    open spec fn senc(v: u16, args: ()) -> Seq<u8> {
        be_bytes(v as nat, 2)
    }

    open spec fn encodable(v: u16, args: ()) -> bool {
        true
    }

    open spec fn wf_enc_value(v: u16) -> bool {
        true
    }

    fn serialize(&self, out: &mut Vec<u8>, args: ()) -> (r: Result<(), DecodeError>) {
        push_be_bytes(out, *self as u128, 2);
        Ok(())
    }
}

impl SizedCodec<()> for u16 {
    fn size(&self, args: ()) -> (r: usize) {
        proof {
            lemma_be_bytes_len(*self as nat, 2);
        }
        2
    }
}

/// The encoding of `n` bytes has length `n`.
pub proof fn lemma_be_bytes_len(v: nat, n: nat)
    ensures
        be_bytes(v, n).len() == n,
    decreases n,
{
    if n > 0 {
        lemma_be_bytes_len(v / 256, (n - 1) as nat);
    }
}

// === u64 / i64 / u128 === //

/// Parses a big-endian `u64`.
pub open spec fn u64_dec(s: Seq<u8>, at: int) -> Option<(u64, int)> {
    if 0 <= at && at + 8 <= s.len() {
        Some(((be_val(s.subrange(at, at + 8)) as u64), at + 8))
    } else {
        None
    }
}

impl DeserializeFor<()> for u64 {
    open spec fn sdec(s: Seq<u8>, at: int, args: ()) -> Option<(u64, int)> {
        u64_dec(s, at)
    }

    open spec fn wf_value(v: u64) -> bool {
        true
    }

    fn decode(cursor: &mut ByteCursor, args: ()) -> (r: Result<Self, DecodeError>) {
        let v = read_be_bytes(cursor, 8, "u64")?;
        proof {
            lemma_be_val_bound(
                old(cursor).original@.subrange(old(cursor).pos as int, old(cursor).pos + 8),
            );
            lemma2_to64();
        }
        Ok(v as u64)
    }
}

impl SerializeInto<()> for u64 {
    open spec fn senc(v: u64, args: ()) -> Seq<u8> {
        be_bytes(v as nat, 8)
    }

    open spec fn encodable(v: u64, args: ()) -> bool {
        true
    }

    open spec fn wf_enc_value(v: u64) -> bool {
        true
    }

    fn serialize(&self, out: &mut Vec<u8>, args: ()) -> (r: Result<(), DecodeError>) {
        push_be_bytes(out, *self as u128, 8);
        Ok(())
    }
}

impl SizedCodec<()> for u64 {
    fn size(&self, args: ()) -> (r: usize) {
        proof {
            lemma_be_bytes_len(*self as nat, 8);
        }
        8
    }
}

/// Parses a big-endian `i64`: the eight bytes are the two's-complement
/// bit pattern of the value.
pub open spec fn i64_dec(s: Seq<u8>, at: int) -> Option<(i64, int)> {
    if 0 <= at && at + 8 <= s.len() {
        Some(((spec_i64_from_u64_2c(be_val(s.subrange(at, at + 8)) as u64) as i64), at + 8))
    } else {
        None
    }
}

impl DeserializeFor<()> for i64 {
    open spec fn sdec(s: Seq<u8>, at: int, args: ()) -> Option<(i64, int)> {
        i64_dec(s, at)
    }

    open spec fn wf_value(v: i64) -> bool {
        true
    }

    fn decode(cursor: &mut ByteCursor, args: ()) -> (r: Result<Self, DecodeError>) {
        let v = read_be_bytes(cursor, 8, "i64")?;
        proof {
            lemma_be_val_bound(
                old(cursor).original@.subrange(old(cursor).pos as int, old(cursor).pos + 8),
            );
            lemma2_to64();
        }
        Ok(crate::bits::i64_from_u64_2c(v as u64))
    }
}

impl SerializeInto<()> for i64 {
    open spec fn senc(v: i64, args: ()) -> Seq<u8> {
        be_bytes(spec_i64_to_u64_2c(v) as nat, 8)
    }

    open spec fn encodable(v: i64, args: ()) -> bool {
        true
    }

    open spec fn wf_enc_value(v: i64) -> bool {
        true
    }

    fn serialize(&self, out: &mut Vec<u8>, args: ()) -> (r: Result<(), DecodeError>) {
        let u = crate::bits::i64_to_u64_2c(*self);
        push_be_bytes(out, u as u128, 8);
        Ok(())
    }
}

impl SizedCodec<()> for i64 {
    fn size(&self, args: ()) -> (r: usize) {
        proof {
            lemma_be_bytes_len(spec_i64_to_u64_2c(*self) as nat, 8);
        }
        8
    }
}

/// Parses a big-endian `u128`.
pub open spec fn u128_dec(s: Seq<u8>, at: int) -> Option<(u128, int)> {
    if 0 <= at && at + 16 <= s.len() {
        Some(((be_val(s.subrange(at, at + 16)) as u128), at + 16))
    } else {
        None
    }
}

impl DeserializeFor<()> for u128 {
    open spec fn sdec(s: Seq<u8>, at: int, args: ()) -> Option<(u128, int)> {
        u128_dec(s, at)
    }

    open spec fn wf_value(v: u128) -> bool {
        true
    }

    fn decode(cursor: &mut ByteCursor, args: ()) -> (r: Result<Self, DecodeError>) {
        let v = read_be_bytes(cursor, 16, "u128")?;
        Ok(v)
    }
}

impl SerializeInto<()> for u128 {
    open spec fn senc(v: u128, args: ()) -> Seq<u8> {
        be_bytes(v as nat, 16)
    }

    open spec fn encodable(v: u128, args: ()) -> bool {
        true
    }

    open spec fn wf_enc_value(v: u128) -> bool {
        true
    }

    fn serialize(&self, out: &mut Vec<u8>, args: ()) -> (r: Result<(), DecodeError>) {
        push_be_bytes(out, *self, 16);
        Ok(())
    }
}

impl SizedCodec<()> for u128 {
    fn size(&self, args: ()) -> (r: usize) {
        proof {
            lemma_be_bytes_len(*self as nat, 16);
        }
        16
    }
}

// === Variable-length numbers === //

/// A 32-bit integer carried in variable-length form.
#[derive(Debug, Copy, Clone, PartialEq, Eq, Structural)]
pub struct VarInt(pub i32);

impl DeepView for VarInt {
    type V = i32;

    open spec fn deep_view(&self) -> i32 {
        self.0
    }
}

/// Parses a variable-length 32-bit number as a signed value.
pub open spec fn varint_dec(s: Seq<u8>, at: int) -> Option<(i32, int)> {
    match vu32_dec(s, at) {
        VarDec::Done { value, end } => Some(
            ((spec_i32_from_u32_2c(value as u32) as i32), end),
        ),
        _ => None,
    }
}

/// The wire bytes of a variable-length signed 32-bit number.
pub open spec fn varint_enc(v: i32) -> Seq<u8> {
    vnum_enc(spec_i32_to_u32_2c(v) as nat)
}

impl DeserializeFor<()> for VarInt {
    open spec fn sdec(s: Seq<u8>, at: int, args: ()) -> Option<(i32, int)> {
        varint_dec(s, at)
    }

    open spec fn wf_value(v: i32) -> bool {
        true
    }

    fn decode(cursor: &mut ByteCursor, args: ()) -> (r: Result<Self, DecodeError>) {
        match decode_var_i32_streaming(cursor) {
            Ok(Some(v)) => {
                proof {
                    match vu32_dec(old(cursor).original@, old(cursor).pos as int) {
                        VarDec::Done { value, end } => {
                            assert(v as int == spec_i32_from_u32_2c(value as u32));
                            assert(v == spec_i32_from_u32_2c(value as u32) as i32);
                        },
                        _ => {},
                    }
                }
                Ok(VarInt(v))
            },
            Ok(None) => Err(DecodeError::kinded_new("VarInt", cursor.pos())),
            Err(e) => Err(e.with_kind("VarInt")),
        }
    }
}

impl SerializeInto<()> for VarInt {
    open spec fn senc(v: i32, args: ()) -> Seq<u8> {
        varint_enc(v)
    }

    open spec fn encodable(v: i32, args: ()) -> bool {
        true
    }

    open spec fn wf_enc_value(v: i32) -> bool {
        true
    }

    fn serialize(&self, out: &mut Vec<u8>, args: ()) -> (r: Result<(), DecodeError>) {
        crate::var_int::encode_var_u32(out, self.0);
        Ok(())
    }
}

impl SizedCodec<()> for VarInt {
    fn size(&self, args: ()) -> (r: usize) {
        let mut tmp: Vec<u8> = Vec::new();
        crate::var_int::encode_var_u32(&mut tmp, self.0);
        proof {
            assert(tmp@ =~= varint_enc(self.0));
        }
        tmp.len()
    }
}

/// A non-negative 32-bit integer carried in variable-length form.
#[derive(Debug, Copy, Clone, PartialEq, Eq, Structural)]
pub struct VarUint(pub u32);

impl DeepView for VarUint {
    type V = u32;

    open spec fn deep_view(&self) -> u32 {
        self.0
    }
}

/// Parses a variable-length 32-bit number, rejecting values whose signed
/// reading would be negative.
pub open spec fn varuint_dec(s: Seq<u8>, at: int) -> Option<(u32, int)> {
    match vu32_dec(s, at) {
        VarDec::Done { value, end } => if value <= 0x7fff_ffff {
            Some(((value as u32), end))
        } else {
            None
        },
        _ => None,
    }
}

/// The wire bytes of a variable-length non-negative number.
pub open spec fn varuint_enc(v: u32) -> Seq<u8> {
    vnum_enc(v as nat)
}

impl DeserializeFor<()> for VarUint {
    open spec fn sdec(s: Seq<u8>, at: int, args: ()) -> Option<(u32, int)> {
        varuint_dec(s, at)
    }

    open spec fn wf_value(v: u32) -> bool {
        v <= 0x7fff_ffff
    }

    fn decode(cursor: &mut ByteCursor, args: ()) -> (r: Result<Self, DecodeError>) {
        match decode_var_i32_streaming(cursor) {
            Ok(Some(v)) => {
                proof {
                    crate::var_int::lemma_vu32_dec_bounds(
                        old(cursor).original@,
                        old(cursor).pos as int,
                    );
                    match vu32_dec(old(cursor).original@, old(cursor).pos as int) {
                        VarDec::Done { value, end } => {
                            if v >= 0 {
                                assert(value <= 0x7fff_ffff);
                                assert(v as u32 == value as u32);
                            } else {
                                assert(value > 0x7fff_ffff);
                                assert(varuint_dec(
                                    old(cursor).original@,
                                    old(cursor).pos as int,
                                ) is None);
                            }
                        },
                        _ => {},
                    }
                }
                if v < 0 {
                    return Err(
                        located(
                            "encountered a negative value for what should have been a positive VarInt",
                            cursor.pos(),
                        ).with_kind("VarUint"),
                    );
                }
                Ok(VarUint(v as u32))
            },
            Ok(None) => Err(DecodeError::kinded_new("VarUint", cursor.pos())),
            Err(e) => Err(e.with_kind("VarUint")),
        }
    }
}

impl SerializeInto<()> for VarUint {
    open spec fn senc(v: u32, args: ()) -> Seq<u8> {
        varuint_enc(v)
    }

    open spec fn encodable(v: u32, args: ()) -> bool {
        v <= 0x7fff_ffff
    }

    open spec fn wf_enc_value(v: u32) -> bool {
        true
    }

    fn serialize(&self, out: &mut Vec<u8>, args: ()) -> (r: Result<(), DecodeError>) {
        if self.0 > 0x7fff_ffff {
            return Err(DecodeError::new_static("attempted to send an oversized VarUint"));
        }
        encode_var_u32_raw(out, self.0);
        Ok(())
    }
}

impl SizedCodec<()> for VarUint {
    fn size(&self, args: ()) -> (r: usize) {
        let mut tmp: Vec<u8> = Vec::new();
        encode_var_u32_raw(&mut tmp, self.0);
        tmp.len()
    }
}

/// A 64-bit integer carried in variable-length form.
#[derive(Debug, Copy, Clone, PartialEq, Eq, Structural)]
pub struct VarLong(pub i64);

impl DeepView for VarLong {
    type V = i64;

    open spec fn deep_view(&self) -> i64 {
        self.0
    }
}

/// Parses a variable-length 64-bit number as a signed value.
pub open spec fn varlong_dec(s: Seq<u8>, at: int) -> Option<(i64, int)> {
    match vu64_dec(s, at) {
        VarDec::Done { value, end } => Some(
            ((spec_i64_from_u64_2c(value as u64) as i64), end),
        ),
        _ => None,
    }
}

/// The wire bytes of a variable-length signed 64-bit number.
pub open spec fn varlong_enc(v: i64) -> Seq<u8> {
    vnum_enc(spec_i64_to_u64_2c(v) as nat)
}

impl DeserializeFor<()> for VarLong {
    open spec fn sdec(s: Seq<u8>, at: int, args: ()) -> Option<(i64, int)> {
        varlong_dec(s, at)
    }

    open spec fn wf_value(v: i64) -> bool {
        true
    }

    fn decode(cursor: &mut ByteCursor, args: ()) -> (r: Result<Self, DecodeError>) {
        match decode_var_i64_streaming(cursor) {
            Ok(Some(v)) => {
                proof {
                    match vu64_dec(old(cursor).original@, old(cursor).pos as int) {
                        VarDec::Done { value, end } => {
                            assert(v as int == spec_i64_from_u64_2c(value as u64));
                            assert(v == spec_i64_from_u64_2c(value as u64) as i64);
                        },
                        _ => {},
                    }
                }
                Ok(VarLong(v))
            },
            Ok(None) => Err(DecodeError::kinded_new("VarLong", cursor.pos())),
            Err(e) => Err(e.with_kind("VarLong")),
        }
    }
}

impl SerializeInto<()> for VarLong {
    open spec fn senc(v: i64, args: ()) -> Seq<u8> {
        varlong_enc(v)
    }

    open spec fn encodable(v: i64, args: ()) -> bool {
        true
    }

    open spec fn wf_enc_value(v: i64) -> bool {
        true
    }

    fn serialize(&self, out: &mut Vec<u8>, args: ()) -> (r: Result<(), DecodeError>) {
        crate::var_int::encode_var_u64(out, self.0);
        Ok(())
    }
}

impl SizedCodec<()> for VarLong {
    fn size(&self, args: ()) -> (r: usize) {
        let mut tmp: Vec<u8> = Vec::new();
        crate::var_int::encode_var_u64(&mut tmp, self.0);
        tmp.len()
    }
}

// === Uuid === //

/// A 128-bit identifier, carried big-endian.
#[derive(Debug, Copy, Clone, PartialEq, Eq, Structural)]
pub struct Uuid(pub u128);

impl DeepView for Uuid {
    type V = u128;

    open spec fn deep_view(&self) -> u128 {
        self.0
    }
}

impl DeserializeFor<()> for Uuid {
    open spec fn sdec(s: Seq<u8>, at: int, args: ()) -> Option<(u128, int)> {
        u128_dec(s, at)
    }

    open spec fn wf_value(v: u128) -> bool {
        true
    }

    fn decode(cursor: &mut ByteCursor, args: ()) -> (r: Result<Self, DecodeError>) {
        let v = read_be_bytes(cursor, 16, "Uuid")?;
        Ok(Uuid(v))
    }
}

impl SerializeInto<()> for Uuid {
    open spec fn senc(v: u128, args: ()) -> Seq<u8> {
        be_bytes(v as nat, 16)
    }

    open spec fn encodable(v: u128, args: ()) -> bool {
        true
    }

    open spec fn wf_enc_value(v: u128) -> bool {
        true
    }

    fn serialize(&self, out: &mut Vec<u8>, args: ()) -> (r: Result<(), DecodeError>) {
        push_be_bytes(out, self.0, 16);
        Ok(())
    }
}

impl SizedCodec<()> for Uuid {
    fn size(&self, args: ()) -> (r: usize) {
        proof {
            lemma_be_bytes_len(self.0 as nat, 16);
        }
        16
    }
}

// === NetString === //

/// A length-prefixed UTF-8 string: a byte-length VarNum, then that many
/// bytes of text.
#[derive(Debug, Clone)]
pub struct NetString {
    /// The UTF-8 bytes of the text.
    pub data: Vec<u8>,
}

impl DeepView for NetString {
    type V = Seq<u8>;

    open spec fn deep_view(&self) -> Seq<u8> {
        self.data@
    }
}

impl NetString {
    /// The text is well-formed UTF-8.
    pub open spec fn wf(self) -> bool {
        valid_utf8(self.data@)
    }

    /// A string holding the text of `s`.
    pub fn from_string(s: &String) -> (r: Self)
        ensures
            r.data@ == encode_utf8(s@),
            r.wf(),
    {
        proof {
            encode_utf8_valid_utf8(s@);
        }
        NetString { data: slice_to_vec(s.as_str().as_bytes()) }
    }

    /// A string holding the text of `s`.
    pub fn from_static_str(s: &'static str) -> (r: Self)
        ensures
            r.data@ == encode_utf8(s@),
            r.wf(),
    {
        proof {
            encode_utf8_valid_utf8(s@);
        }
        NetString { data: slice_to_vec(s.as_bytes()) }
    }

    /// A string from raw bytes; rejected unless they are valid UTF-8.
    pub fn from_bytes(data: Vec<u8>) -> (r: Result<Self, DecodeError>)
        ensures
            r is Ok <==> valid_utf8(data@),
            match r {
                Ok(v) => v.data@ == data@ && v.wf(),
                Err(_) => true,
            },
    {
        match scan_utf8(data.as_slice()) {
            Some(_) => Ok(NetString { data }),
            None => Err(DecodeError::new_static("buffer contained invalid UTF-8")),
        }
    }

    /// The UTF-8 bytes of the text.
    pub fn bytes(&self) -> (r: &Vec<u8>)
        ensures
            r@ == self.data@,
    {
        &self.data
    }

    /// The UTF-8 bytes of the text, owned.
    pub fn into_bytes(self) -> (r: Vec<u8>)
        ensures
            r@ == self.data@,
    {
        self.data
    }

    /// The text as an owned `String`.
    pub fn to_text(&self) -> (r: String)
        requires
            self.wf(),
        ensures
            r@ == decode_utf8(self.data@),
    {
        crate::text::string_from_utf8(self.data.as_slice())
    }

    /// How many codepoints the text holds.
    pub fn codepoints(&self) -> (r: usize)
        requires
            self.wf(),
        ensures
            r == decode_utf8(self.data@).len(),
    {
        match scan_utf8(self.data.as_slice()) {
            Some(c) => c.codepoints,
            None => {
                proof {
                    assert(false);
                }
                0
            },
        }
    }
}

/// Parses a length-prefixed UTF-8 string under an optional codepoint
/// bound `max`: the byte length must read as a non-negative VarNum, stay
/// within four bytes per allowed codepoint (a fail-fast check that only
/// applies while `4 * max` is itself representable in the length prefix;
/// past that it can exclude nothing), the bytes must be present and
/// valid UTF-8, and the codepoint count must stay within the bound.
pub open spec fn netstring_dec(s: Seq<u8>, at: int, max: Option<u32>) -> Option<(Seq<u8>, int)> {
    match vu32_dec(s, at) {
        VarDec::Done { value, end } => {
            if value <= 0x7fff_ffff && (match max {
                Some(m) => 4 * (m as nat) <= 0x7fff_ffff ==> value <= 4 * (m as nat),
                None => true,
            }) && end + value <= s.len() && valid_utf8(s.subrange(end, end + value)) && (
            match max {
                Some(m) => decode_utf8(s.subrange(end, end + value)).len() <= m as nat,
                None => true,
            }) {
                Some((s.subrange(end, end + value), end + value))
            } else {
                None
            }
        },
        _ => None,
    }
}

/// The wire bytes of a string: its byte length, then its text.
pub open spec fn netstring_enc(v: Seq<u8>) -> Seq<u8> {
    vnum_enc(v.len()) + v
}

impl DeserializeFor<Option<u32>> for NetString {
    open spec fn sdec(s: Seq<u8>, at: int, max: Option<u32>) -> Option<(Seq<u8>, int)> {
        netstring_dec(s, at, max)
    }

    open spec fn wf_value(v: Seq<u8>) -> bool {
        valid_utf8(v)
    }

    fn decode(cursor: &mut ByteCursor, max: Option<u32>) -> (r: Result<Self, DecodeError>) {
        let ghost s0 = cursor.original@;
        let ghost at0 = cursor.pos as int;
        let n_signed = match decode_var_i32_streaming(cursor) {
            Ok(Some(v)) => v,
            Ok(None) => {
                return Err(DecodeError::kinded_new("string", cursor.pos()));
            },
            Err(e) => {
                return Err(e.with_kind("string"));
            },
        };
        proof {
            crate::var_int::lemma_vu32_dec_bounds(s0, at0);
            match vu32_dec(s0, at0) {
                VarDec::Done { value, end } => {
                    if n_signed >= 0 {
                        assert(value <= 0x7fff_ffff);
                        assert(n_signed as u32 == value as u32);
                        assert(value == (n_signed as u32) as nat);
                    } else {
                        assert(value > 0x7fff_ffff);
                    }
                },
                _ => {},
            }
        }
        if n_signed < 0 {
            return Err(
                located("string byte length was negative", cursor.pos()).with_kind("string"),
            );
        }
        let n = n_signed as u32;
        match max {
            Some(m) => {
                // the fail-fast byte bound applies only while 4 * m fits
                // the length prefix; past that no representable length
                // can exceed it
                if m <= 0x1fff_ffff && n > m * 4 {
                    return Err(
                        located("string byte stream is too long", cursor.pos()).with_kind(
                            "string",
                        ),
                    );
                }
            },
            None => {},
        }
        let data_slice = match cursor.read_slice(n as usize) {
            Some(sl) => sl,
            None => {
                return Err(
                    located(
                        "packet did not contain the necessary bytes to form the string",
                        cursor.pos(),
                    ).with_kind("string"),
                );
            },
        };
        let counts = match scan_utf8(data_slice) {
            Some(c) => c,
            None => {
                return Err(
                    located("string byte data was not valid UTF-8", cursor.pos()).with_kind(
                        "string",
                    ),
                );
            },
        };
        match max {
            Some(m) => {
                if counts.codepoints > m as usize {
                    return Err(
                        located("string is too long", cursor.pos()).with_kind("string"),
                    );
                }
            },
            None => {},
        }
        Ok(NetString { data: slice_to_vec(data_slice) })
    }
}

impl SerializeInto<Option<u32>> for NetString {
    open spec fn senc(v: Seq<u8>, max: Option<u32>) -> Seq<u8> {
        netstring_enc(v)
    }

    open spec fn encodable(v: Seq<u8>, max: Option<u32>) -> bool {
        v.len() <= 0x7fff_ffff && (match max {
            Some(m) => decode_utf8(v).len() <= m as nat,
            None => true,
        })
    }

    open spec fn wf_enc_value(v: Seq<u8>) -> bool {
        valid_utf8(v)
    }

    fn serialize(&self, out: &mut Vec<u8>, max: Option<u32>) -> (r: Result<(), DecodeError>) {
        let counts = match scan_utf8(self.data.as_slice()) {
            Some(c) => c,
            None => {
                proof {
                    assert(false);
                }
                return Err(DecodeError::new_static("string holds invalid UTF-8"));
            },
        };
        match max {
            Some(m) => {
                if counts.codepoints > m as usize {
                    return Err(
                        DecodeError::new_static("string exceeds its codepoint bound").with_kind(
                            "string",
                        ),
                    );
                }
            },
            None => {},
        }
        if self.data.len() > 0x7fff_ffff {
            return Err(DecodeError::new_static("string byte length overflows the prefix"));
        }
        let ghost base = out@;
        encode_var_u32_raw(out, self.data.len() as u32);
        let b = self.data.as_slice();
        out.extend_from_slice(b);
        proof {
            assert(out@ =~= base + netstring_enc(self.data@));
        }
        Ok(())
    }
}

impl SizedCodec<Option<u32>> for NetString {
    fn size(&self, max: Option<u32>) -> (r: usize) {
        let mut tmp: Vec<u8> = Vec::new();
        match self.serialize(&mut tmp, max) {
            Ok(_) => tmp.len(),
            Err(_) => {
                proof {
                    assert(false);
                }
                0
            },
        }
    }
}

// === Byte arrays === //

/// A length-prefixed run of raw bytes.
#[derive(Debug)]
pub struct ByteArray(pub bytes::Bytes);

impl ByteArray {
    /// A second handle onto the same contents.
    pub fn duplicate(&self) -> (r: Self)
        ensures
            r.deep_view() == self.deep_view(),
    {
        ByteArray(crate::bytes_integration::bytes_clone(&self.0))
    }
}

impl DeepView for ByteArray {
    type V = Seq<u8>;

    open spec fn deep_view(&self) -> Seq<u8> {
        bytes_view(self.0)
    }
}

/// Parses a length-prefixed byte array.
pub open spec fn bytearray_dec(s: Seq<u8>, at: int) -> Option<(Seq<u8>, int)> {
    match vu32_dec(s, at) {
        VarDec::Done { value, end } => {
            if value <= 0x7fff_ffff && end + value <= s.len() {
                Some((s.subrange(end, end + value), end + value))
            } else {
                None
            }
        },
        _ => None,
    }
}

/// The wire bytes of a byte array: its length, then its bytes.
pub open spec fn bytearray_enc(v: Seq<u8>) -> Seq<u8> {
    vnum_enc(v.len()) + v
}

impl DeserializeFor<()> for ByteArray {
    open spec fn sdec(s: Seq<u8>, at: int, args: ()) -> Option<(Seq<u8>, int)> {
        bytearray_dec(s, at)
    }

    open spec fn wf_value(v: Seq<u8>) -> bool {
        true
    }

    fn decode(cursor: &mut ByteCursor, args: ()) -> (r: Result<Self, DecodeError>) {
        let n_signed = match decode_var_i32_streaming(cursor) {
            Ok(Some(v)) => v,
            Ok(None) => {
                return Err(DecodeError::kinded_new("byte array", cursor.pos()));
            },
            Err(e) => {
                return Err(e.with_kind("byte array"));
            },
        };
        proof {
            crate::var_int::lemma_vu32_dec_bounds(
                old(cursor).original@,
                old(cursor).pos as int,
            );
            match vu32_dec(old(cursor).original@, old(cursor).pos as int) {
                VarDec::Done { value, end } => {
                    if n_signed >= 0 {
                        assert(value <= 0x7fff_ffff);
                        assert(n_signed as u32 == value as u32);
                        assert(value == (n_signed as u32) as nat);
                    } else {
                        assert(value > 0x7fff_ffff);
                    }
                },
                _ => {},
            }
        }
        if n_signed < 0 {
            return Err(
                located("byte array length was negative", cursor.pos()).with_kind("byte array"),
            );
        }
        let data_slice = match cursor.read_slice(n_signed as u32 as usize) {
            Some(sl) => sl,
            None => {
                return Err(
                    located("byte array ran past the end of the input", cursor.pos()).with_kind(
                        "byte array",
                    ),
                );
            },
        };
        Ok(ByteArray(bytes_copy_from_slice(data_slice)))
    }
}

impl SerializeInto<()> for ByteArray {
    open spec fn senc(v: Seq<u8>, args: ()) -> Seq<u8> {
        bytearray_enc(v)
    }

    open spec fn encodable(v: Seq<u8>, args: ()) -> bool {
        v.len() <= 0x7fff_ffff
    }

    open spec fn wf_enc_value(v: Seq<u8>) -> bool {
        true
    }

    fn serialize(&self, out: &mut Vec<u8>, args: ()) -> (r: Result<(), DecodeError>) {
        let b = bytes_as_slice(&self.0);
        if b.len() > 0x7fff_ffff {
            return Err(DecodeError::new_static("byte array length overflows the prefix"));
        }
        let ghost base = out@;
        encode_var_u32_raw(out, b.len() as u32);
        out.extend_from_slice(b);
        proof {
            assert(out@ =~= base + bytearray_enc(bytes_view(self.0)));
        }
        Ok(())
    }
}

impl SizedCodec<()> for ByteArray {
    fn size(&self, args: ()) -> (r: usize) {
        let mut tmp: Vec<u8> = Vec::new();
        match self.serialize(&mut tmp, args) {
            Ok(_) => tmp.len(),
            Err(_) => {
                proof {
                    assert(false);
                }
                0
            },
        }
    }
}

/// The raw bytes from here to the end of the frame, with no length prefix.
#[derive(Debug)]
pub struct TrailingByteArray(pub bytes::Bytes);

impl TrailingByteArray {
    /// A second handle onto the same contents.
    pub fn duplicate(&self) -> (r: Self)
        ensures
            r.deep_view() == self.deep_view(),
    {
        TrailingByteArray(crate::bytes_integration::bytes_clone(&self.0))
    }
}

impl DeepView for TrailingByteArray {
    type V = Seq<u8>;

    open spec fn deep_view(&self) -> Seq<u8> {
        bytes_view(self.0)
    }
}

/// Parses a trailing byte array: everything that remains.
pub open spec fn trailing_dec(s: Seq<u8>, at: int) -> Option<(Seq<u8>, int)> {
    if 0 <= at <= s.len() {
        Some((s.subrange(at, s.len() as int), s.len() as int))
    } else {
        None
    }
}

impl DeserializeFor<()> for TrailingByteArray {
    open spec fn sdec(s: Seq<u8>, at: int, args: ()) -> Option<(Seq<u8>, int)> {
        trailing_dec(s, at)
    }

    open spec fn wf_value(v: Seq<u8>) -> bool {
        true
    }

    fn decode(cursor: &mut ByteCursor, args: ()) -> (r: Result<Self, DecodeError>) {
        let n = cursor.len();
        let data_slice = match cursor.read_slice(n) {
            Some(sl) => sl,
            None => {
                proof {
                    assert(false);
                }
                return Err(DecodeError::kinded_new("trailing bytes", cursor.pos()));
            },
        };
        Ok(TrailingByteArray(bytes_copy_from_slice(data_slice)))
    }
}

impl SerializeInto<()> for TrailingByteArray {
    open spec fn senc(v: Seq<u8>, args: ()) -> Seq<u8> {
        v
    }

    open spec fn encodable(v: Seq<u8>, args: ()) -> bool {
        true
    }

    open spec fn wf_enc_value(v: Seq<u8>) -> bool {
        true
    }

    fn serialize(&self, out: &mut Vec<u8>, args: ()) -> (r: Result<(), DecodeError>) {
        let b = bytes_as_slice(&self.0);
        out.extend_from_slice(b);
        Ok(())
    }
}

impl SizedCodec<()> for TrailingByteArray {
    fn size(&self, args: ()) -> (r: usize) {
        bytes_len(&self.0)
    }
}

// === Optional fields === //

/// Parses an optional field: a boolean presence flag, then the value.
pub open spec fn opt_uuid_dec(s: Seq<u8>, at: int) -> Option<(Option<u128>, int)> {
    match bool_dec(s, at) {
        Some((false, e)) => Some((None, e)),
        Some((true, e)) => match u128_dec(s, e) {
            Some((v, e2)) => Some((Some(v), e2)),
            None => None,
        },
        None => None,
    }
}

/// Decodes an optional identifier field.
pub fn decode_opt_uuid(cursor: &mut ByteCursor) -> (r: Result<Option<Uuid>, DecodeError>)
    requires
        old(cursor).wf(),
    ensures
        final(cursor).wf(),
        final(cursor).original@ == old(cursor).original@,
        match r {
            Ok(v) => opt_uuid_dec(old(cursor).original@, old(cursor).pos as int) == Some(
                (v.deep_view(), final(cursor).pos as int),
            ),
            Err(_) => opt_uuid_dec(old(cursor).original@, old(cursor).pos as int) is None,
        },
{
    let flag = bool::decode(cursor, ())?;
    if flag {
        let inner = Uuid::decode(cursor, ())?;
        Ok(Some(inner))
    } else {
        Ok(None)
    }
}

/// The wire bytes of an optional identifier: the flag, then the value if
/// present.
pub open spec fn opt_uuid_enc(v: Option<u128>) -> Seq<u8> {
    match v {
        None => bool_enc(false),
        Some(x) => bool_enc(true) + be_bytes(x as nat, 16),
    }
}

/// Appends an optional identifier field.
pub fn serialize_opt_uuid(v: &Option<Uuid>, out: &mut Vec<u8>) -> (r: Result<(), DecodeError>)
    ensures
        r is Ok,
        final(out)@ == old(out)@ + opt_uuid_enc(v.deep_view()),
{
    let ghost base = out@;
    match v {
        None => {
            out.push(0);
            proof {
                assert(out@ =~= base + opt_uuid_enc(v.deep_view()));
            }
            Ok(())
        },
        Some(x) => {
            out.push(1);
            push_be_bytes(out, x.0, 16);
            proof {
                assert(out@ =~= base + opt_uuid_enc(v.deep_view()));
            }
            Ok(())
        },
    }
}

/// Parses an optional trailing byte run: a presence flag, then the rest of
/// the frame.
pub open spec fn opt_trailing_dec(s: Seq<u8>, at: int) -> Option<(Option<Seq<u8>>, int)> {
    match bool_dec(s, at) {
        Some((false, e)) => Some((None, e)),
        Some((true, e)) => match trailing_dec(s, e) {
            Some((v, e2)) => Some((Some(v), e2)),
            None => None,
        },
        None => None,
    }
}

/// Decodes an optional trailing byte run.
pub fn decode_opt_trailing(cursor: &mut ByteCursor) -> (r: Result<
    Option<TrailingByteArray>,
    DecodeError,
>)
    requires
        old(cursor).wf(),
    ensures
        final(cursor).wf(),
        final(cursor).original@ == old(cursor).original@,
        match r {
            Ok(v) => opt_trailing_dec(old(cursor).original@, old(cursor).pos as int) == Some(
                (v.deep_view(), final(cursor).pos as int),
            ),
            Err(_) => opt_trailing_dec(old(cursor).original@, old(cursor).pos as int) is None,
        },
{
    let flag = bool::decode(cursor, ())?;
    if flag {
        let inner = TrailingByteArray::decode(cursor, ())?;
        Ok(Some(inner))
    } else {
        Ok(None)
    }
}

/// The wire bytes of an optional trailing byte run.
pub open spec fn opt_trailing_enc(v: Option<Seq<u8>>) -> Seq<u8> {
    match v {
        None => bool_enc(false),
        Some(x) => bool_enc(true) + x,
    }
}

/// Appends an optional trailing byte run.
pub fn serialize_opt_trailing(v: &Option<TrailingByteArray>, out: &mut Vec<u8>) -> (r: Result<
    (),
    DecodeError,
>)
    ensures
        r is Ok,
        final(out)@ == old(out)@ + opt_trailing_enc(v.deep_view()),
{
    let ghost base = out@;
    match v {
        None => {
            out.push(0);
            proof {
                assert(out@ =~= base + opt_trailing_enc(v.deep_view()));
            }
            Ok(())
        },
        Some(x) => {
            out.push(1);
            let b = bytes_as_slice(&x.0);
            out.extend_from_slice(b);
            proof {
                assert(out@ =~= base + opt_trailing_enc(v.deep_view()));
            }
            Ok(())
        },
    }
}

/// Parses an optional string field: a presence flag, then a bounded string.
pub open spec fn opt_netstring_dec(s: Seq<u8>, at: int, max: Option<u32>) -> Option<
    (Option<Seq<u8>>, int),
> {
    match bool_dec(s, at) {
        Some((false, e)) => Some((None, e)),
        Some((true, e)) => match netstring_dec(s, e, max) {
            Some((v, e2)) => Some((Some(v), e2)),
            None => None,
        },
        None => None,
    }
}

/// Decodes an optional string field under a codepoint bound.
pub fn decode_opt_netstring(cursor: &mut ByteCursor, max: Option<u32>) -> (r: Result<
    Option<NetString>,
    DecodeError,
>)
    requires
        old(cursor).wf(),
    ensures
        final(cursor).wf(),
        final(cursor).original@ == old(cursor).original@,
        match r {
            Ok(v) => opt_netstring_dec(old(cursor).original@, old(cursor).pos as int, max)
                == Some((v.deep_view(), final(cursor).pos as int)) && (match v {
                Some(t) => valid_utf8(t.data@),
                None => true,
            }),
            Err(_) => opt_netstring_dec(
                old(cursor).original@,
                old(cursor).pos as int,
                max,
            ) is None,
        },
{
    let flag = bool::decode(cursor, ())?;
    if flag {
        let inner = NetString::decode(cursor, max)?;
        Ok(Some(inner))
    } else {
        Ok(None)
    }
}

/// The wire bytes of an optional string field.
pub open spec fn opt_netstring_enc(v: Option<Seq<u8>>) -> Seq<u8> {
    match v {
        None => bool_enc(false),
        Some(x) => bool_enc(true) + netstring_enc(x),
    }
}

/// Which optional strings fit under a codepoint bound.
pub open spec fn opt_netstring_encodable(v: Option<Seq<u8>>, max: Option<u32>) -> bool {
    match v {
        Some(t) => t.len() <= 0x7fff_ffff && (match max {
            Some(m) => decode_utf8(t).len() <= m as nat,
            None => true,
        }),
        None => true,
    }
}

/// Appends an optional string field.
pub fn serialize_opt_netstring(v: &Option<NetString>, out: &mut Vec<u8>, max: Option<u32>) -> (r:
    Result<(), DecodeError>)
    requires
        match v {
            Some(t) => valid_utf8(t.data@),
            None => true,
        },
    ensures
        r is Ok <==> opt_netstring_encodable(v.deep_view(), max),
        match r {
            Ok(_) => final(out)@ == old(out)@ + opt_netstring_enc(v.deep_view()),
            Err(_) => final(out)@ == old(out)@,
        },
{
    match v {
        None => {
            let ghost base = out@;
            out.push(0);
            proof {
                assert(out@ =~= base + opt_netstring_enc(v.deep_view()));
            }
            Ok(())
        },
        Some(x) => {
            let mut tmp: Vec<u8> = Vec::new();
            match x.serialize(&mut tmp, max) {
                Ok(_) => {
                    let ghost base = out@;
                    out.push(1);
                    out.append(&mut tmp);
                    proof {
                        assert(out@ =~= base + opt_netstring_enc(v.deep_view()));
                    }
                    Ok(())
                },
                Err(e) => Err(e),
            }
        },
    }
}

// === Identifier === //

/// A namespaced identifier string, bounded at 32767 codepoints.
#[derive(Debug, Clone)]
pub struct Identifier(pub NetString);

impl DeepView for Identifier {
    type V = Seq<u8>;

    open spec fn deep_view(&self) -> Seq<u8> {
        self.0.data@
    }
}

impl DeserializeFor<()> for Identifier {
    open spec fn sdec(s: Seq<u8>, at: int, args: ()) -> Option<(Seq<u8>, int)> {
        netstring_dec(s, at, Some(32767))
    }

    open spec fn wf_value(v: Seq<u8>) -> bool {
        valid_utf8(v)
    }

    fn decode(cursor: &mut ByteCursor, args: ()) -> (r: Result<Self, DecodeError>) {
        let inner = NetString::decode(cursor, Some(32767))?;
        Ok(Identifier(inner))
    }
}

impl SerializeInto<()> for Identifier {
    open spec fn senc(v: Seq<u8>, args: ()) -> Seq<u8> {
        netstring_enc(v)
    }

    open spec fn encodable(v: Seq<u8>, args: ()) -> bool {
        v.len() <= 0x7fff_ffff && decode_utf8(v).len() <= 32767
    }

    open spec fn wf_enc_value(v: Seq<u8>) -> bool {
        valid_utf8(v)
    }

    fn serialize(&self, out: &mut Vec<u8>, args: ()) -> (r: Result<(), DecodeError>) {
        self.0.serialize(out, Some(32767))
    }
}

impl SizedCodec<()> for Identifier {
    fn size(&self, args: ()) -> (r: usize) {
        let mut tmp: Vec<u8> = Vec::new();
        match self.serialize(&mut tmp, args) {
            Ok(_) => tmp.len(),
            Err(_) => {
                proof {
                    assert(false);
                }
                0
            },
        }
    }
}

// === Decoding an encoding recovers the value === //

/// Booleans round-trip anywhere in a byte run.
pub proof fn lemma_bool_dec_enc(s: Seq<u8>, at: int, v: bool)
    requires
        0 <= at,
        at + 1 <= s.len(),
        s.subrange(at, at + 1) == bool_enc(v),
    ensures
        bool_dec(s, at) == Some((v, at + 1)),
{
    assert(s[at] == bool_enc(v)[0]) by {
        assert(s.subrange(at, at + 1)[0] == s[at]);
    }
}

/// Big-endian `u16` values round-trip anywhere in a byte run.
pub proof fn lemma_u16_dec_enc(s: Seq<u8>, at: int, v: u16)
    requires
        0 <= at,
        at + 2 <= s.len(),
        s.subrange(at, at + 2) == be_bytes(v as nat, 2),
    ensures
        u16_dec(s, at) == Some((v, at + 2)),
{
    lemma2_to64();
    lemma_be_round_trip(v as nat, 2);
}

/// Big-endian `i64` values round-trip anywhere in a byte run.
pub proof fn lemma_i64_dec_enc(s: Seq<u8>, at: int, v: i64)
    requires
        0 <= at,
        at + 8 <= s.len(),
        s.subrange(at, at + 8) == be_bytes(spec_i64_to_u64_2c(v) as nat, 8),
    ensures
        i64_dec(s, at) == Some((v, at + 8)),
{
    lemma2_to64();
    lemma_be_round_trip(spec_i64_to_u64_2c(v) as nat, 8);
    crate::bits::lemma_u64_2c_round_trip(v);
}

/// Big-endian `u128` values round-trip anywhere in a byte run.
pub proof fn lemma_u128_dec_enc(s: Seq<u8>, at: int, v: u128)
    requires
        0 <= at,
        at + 16 <= s.len(),
        s.subrange(at, at + 16) == be_bytes(v as nat, 16),
    ensures
        u128_dec(s, at) == Some((v, at + 16)),
{
    lemma2_to64();
    vstd::arithmetic::power2::lemma2_to64_rest();
    assert(pow2(128) == pow2(64) * pow2(64)) by {
        lemma_pow2_adds(64, 64);
    }
    lemma_be_round_trip(v as nat, 16);
}

/// Variable-length signed 32-bit values round-trip anywhere in a byte run.
pub proof fn lemma_varint_dec_enc(s: Seq<u8>, at: int, v: i32)
    requires
        0 <= at,
        at + varint_enc(v).len() <= s.len(),
        s.subrange(at, at + varint_enc(v).len() as int) == varint_enc(v),
    ensures
        varint_dec(s, at) == Some((v, at + varint_enc(v).len())),
{
    let u = spec_i32_to_u32_2c(v) as u32;
    crate::var_int::lemma_vu32_round_trip(s, at, u);
    crate::bits::lemma_u32_2c_round_trip(v);
}

/// Variable-length non-negative values round-trip anywhere in a byte run.
pub proof fn lemma_varuint_dec_enc(s: Seq<u8>, at: int, v: u32)
    requires
        0 <= at,
        v <= 0x7fff_ffff,
        at + varuint_enc(v).len() <= s.len(),
        s.subrange(at, at + varuint_enc(v).len() as int) == varuint_enc(v),
    ensures
        varuint_dec(s, at) == Some((v, at + varuint_enc(v).len())),
{
    crate::var_int::lemma_vu32_round_trip(s, at, v);
}

/// Strings within their codepoint bound round-trip byte-for-byte anywhere
/// in a byte run.
pub proof fn lemma_netstring_dec_enc(s: Seq<u8>, at: int, v: Seq<u8>, max: Option<u32>)
    requires
        0 <= at,
        valid_utf8(v),
        v.len() <= 0x7fff_ffff,
        match max {
            Some(m) => decode_utf8(v).len() <= m as nat,
            None => true,
        },
        at + netstring_enc(v).len() <= s.len(),
        s.subrange(at, at + netstring_enc(v).len() as int) == netstring_enc(v),
    ensures
        netstring_dec(s, at, max) == Some((v, at + netstring_enc(v).len())),
{
    let lenb = vnum_enc(v.len());
    let total = netstring_enc(v);
    assert(total.len() == lenb.len() + v.len());
    assert(s.subrange(at, at + lenb.len() as int) == lenb) by {
        assert forall|k: int| 0 <= k < lenb.len() implies s.subrange(
            at,
            at + lenb.len() as int,
        )[k] == lenb[k] by {
            assert(s.subrange(at, at + total.len() as int)[k] == s[at + k]);
            assert(total[k] == lenb[k]);
        }
        assert(s.subrange(at, at + lenb.len() as int) =~= lenb);
    }
    crate::var_int::lemma_vu32_round_trip(s, at, v.len() as u32);
    let e = at + lenb.len();
    assert(s.subrange(e, e + v.len() as int) == v) by {
        assert forall|k: int| 0 <= k < v.len() implies s.subrange(e, e + v.len() as int)[k]
            == v[k] by {
            assert(s.subrange(at, at + total.len() as int)[lenb.len() + k] == s[e + k]);
            assert(total[lenb.len() + k] == v[k]);
        }
        assert(s.subrange(e, e + v.len() as int) =~= v);
    }
    match max {
        Some(m) => {
            crate::text::lemma_utf8_len_le_4_codepoints(v);
        },
        None => {},
    }
}

/// Byte arrays round-trip anywhere in a byte run.
pub proof fn lemma_bytearray_dec_enc(s: Seq<u8>, at: int, v: Seq<u8>)
    requires
        0 <= at,
        v.len() <= 0x7fff_ffff,
        at + bytearray_enc(v).len() <= s.len(),
        s.subrange(at, at + bytearray_enc(v).len() as int) == bytearray_enc(v),
    ensures
        bytearray_dec(s, at) == Some((v, at + bytearray_enc(v).len())),
{
    let lenb = vnum_enc(v.len());
    let total = bytearray_enc(v);
    assert(total.len() == lenb.len() + v.len());
    assert(s.subrange(at, at + lenb.len() as int) == lenb) by {
        assert forall|k: int| 0 <= k < lenb.len() implies s.subrange(
            at,
            at + lenb.len() as int,
        )[k] == lenb[k] by {
            assert(s.subrange(at, at + total.len() as int)[k] == s[at + k]);
            assert(total[k] == lenb[k]);
        }
        assert(s.subrange(at, at + lenb.len() as int) =~= lenb);
    }
    crate::var_int::lemma_vu32_round_trip(s, at, v.len() as u32);
    let e = at + lenb.len();
    assert(s.subrange(e, e + v.len() as int) == v) by {
        assert forall|k: int| 0 <= k < v.len() implies s.subrange(e, e + v.len() as int)[k]
            == v[k] by {
            assert(s.subrange(at, at + total.len() as int)[lenb.len() + k] == s[e + k]);
            assert(total[lenb.len() + k] == v[k]);
        }
        assert(s.subrange(e, e + v.len() as int) =~= v);
    }
}

/// Splitting a region known to hold a concatenation yields each part at
/// its own offsets.
pub proof fn lemma_concat_split(s: Seq<u8>, at: int, a: Seq<u8>, b: Seq<u8>)
    requires
        0 <= at,
        at + a.len() + b.len() <= s.len(),
        s.subrange(at, at + a.len() + b.len()) == a + b,
    ensures
        s.subrange(at, at + a.len() as int) == a,
        s.subrange(at + a.len(), at + a.len() + b.len()) == b,
{
    assert forall|k: int| 0 <= k < a.len() implies s.subrange(at, at + a.len() as int)[k]
        == a[k] by {
        assert(s.subrange(at, at + a.len() + b.len())[k] == s[at + k]);
        assert((a + b)[k] == a[k]);
    }
    assert(s.subrange(at, at + a.len() as int) =~= a);
    assert forall|k: int| 0 <= k < b.len() implies s.subrange(
        at + a.len(),
        at + a.len() + b.len(),
    )[k] == b[k] by {
        assert(s.subrange(at, at + a.len() + b.len())[a.len() + k] == s[at + a.len() + k]);
        assert((a + b)[a.len() + k] == b[k]);
    }
    assert(s.subrange(at + a.len(), at + a.len() + b.len()) =~= b);
}

} // verus!
