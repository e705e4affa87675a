//! The variable-length integer codec.
//!
//! Values travel as 7-bit groups, least-significant group first, one group
//! per byte, with the high bit of every byte but the last set. A 32-bit
//! value may span at most 5 bytes and a 64-bit value at most 10; a longer
//! continuation chain is a fatal malformed-input error, while a chain cut
//! short by the end of the input is merely incomplete. Signed values are
//! carried by reinterpreting their two's-complement bit pattern as
//! unsigned.

use vstd::arithmetic::div_mod::lemma_small_mod;
use vstd::arithmetic::power2::{lemma2_to64, lemma_pow2_adds, lemma_pow2_pos, pow2};
use vstd::bits::lemma_u64_shl_is_mul;
use vstd::prelude::*;

use crate::bits::{
    i32_from_u32_2c, i64_from_u64_2c, spec_i32_from_u32_2c, spec_i32_to_u32_2c,
    spec_i64_from_u64_2c, spec_i64_to_u64_2c,
};
use crate::byte_stream::ByteCursor;
use crate::error::{located, DecodeError};

verus! {

/// The wire encoding of `v`: 7-bit groups, least-significant first, the
/// continuation bit set on every byte but the last.
pub open spec fn vnum_enc(v: nat) -> Seq<u8>
    decreases v,
{
    if v < 128 {
        seq![v as u8]
    } else {
        seq![(128 + v % 128) as u8] + vnum_enc(v / 128)
    }
}

/// What reading one variable-length number from a byte sequence yields.
pub enum VarDec {
    /// A complete number: its value and the index just past its last byte.
    Done { value: nat, end: int },
    /// The input ended inside a continuation chain; more bytes may follow.
    Incomplete,
    /// The continuation chain exceeds the widest encoding the type admits.
    TooLong,
}

/// Reads a variable-length number from `s` starting at `i`, with `acc`
/// already holding the groups below `shift`. A group at or above
/// `max_bits` ends the chain as too long; accepted bits past `max_bits`
/// are discarded, as the accumulator of the matching width would drop
/// them.
pub open spec fn vnum_dec_at(s: Seq<u8>, i: int, shift: nat, acc: nat, max_bits: nat) -> VarDec
    decreases s.len() - i,
{
    if i < 0 || i >= s.len() {
        VarDec::Incomplete
    } else {
        let b = s[i];
        let acc2 = acc + (b as nat % 128) * pow2(shift);
        if b < 128 {
            VarDec::Done { value: acc2 % pow2(max_bits), end: i + 1 }
        } else if shift + 7 >= max_bits {
            VarDec::TooLong
        } else {
            vnum_dec_at(s, i + 1, shift + 7, acc2, max_bits)
        }
    }
}

/// Reading a 32-bit variable-length number at `at`.
pub open spec fn vu32_dec(s: Seq<u8>, at: int) -> VarDec {
    vnum_dec_at(s, at, 0, 0, 32)
}

/// Reading a 64-bit variable-length number at `at`.
pub open spec fn vu64_dec(s: Seq<u8>, at: int) -> VarDec {
    vnum_dec_at(s, at, 0, 0, 64)
}

/// Decodes a 32-bit unsigned variable-length number from the cursor.
///
/// `Ok(None)` reports a chain cut short by the end of the input;
/// the error reports a chain longer than 5 bytes.
pub fn decode_var_u32_streaming(cursor: &mut ByteCursor) -> (r: Result<Option<u32>, DecodeError>)
    requires
        old(cursor).wf(),
    ensures
        final(cursor).wf(),
        final(cursor).original@ == old(cursor).original@,
        match r {
            Ok(Some(v)) => vu32_dec(old(cursor).original@, old(cursor).pos as int)
                matches VarDec::Done { value, end } && value == v as nat && final(cursor).pos
                == end,
            Ok(None) => vu32_dec(old(cursor).original@, old(cursor).pos as int)
                is Incomplete && final(cursor).pos == old(cursor).original@.len(),
            Err(_) => vu32_dec(old(cursor).original@, old(cursor).pos as int) is TooLong,
        },
{
    let ghost s = cursor.original@;
    let ghost start = cursor.pos as int;
    let mut shift: u64 = 0;
    let mut accum: u64 = 0;
    proof {
        lemma2_to64();
    }

    loop
        invariant
            s == old(cursor).original@,
            start == old(cursor).pos as int,
            cursor.wf(),
            cursor.original@ == s,
            start <= cursor.pos <= s.len(),
            shift == 7 * (cursor.pos - start),
            shift <= 28,
            (accum as nat) < pow2(shift as nat),
            vnum_dec_at(s, start, 0, 0, 32) == vnum_dec_at(
                s,
                cursor.pos as int,
                shift as nat,
                accum as nat,
                32,
            ),
        decreases s.len() - cursor.pos,
    {
        let ghost i = cursor.pos as int;
        let b = match cursor.read() {
            Some(b) => b,
            None => {
                return Ok(None);
            },
        };
        let g: u64 = (b & 0x7f) as u64;
        proof {
            lemma2_to64();
            assert(b & 0x7f == b % 128) by (bit_vector);
            if shift < 28 {
                vstd::arithmetic::power2::lemma_pow2_strictly_increases(shift as nat, 28);
            }
            assert(pow2(shift as nat) <= pow2(28));
            lemma_u64_shl_is_mul(1u64, shift);
            assert(g * pow2(shift as nat) <= 127 * pow2(28)) by (nonlinear_arith)
                requires
                    g <= 127,
                    pow2(shift as nat) <= pow2(28),
                    0 < pow2(shift as nat),
            ;
            lemma_u64_shl_is_mul(g, shift);
            assert(accum < (1u64 << shift));
            assert((accum | (g << shift)) == accum + (g << shift)) by (bit_vector)
                requires
                    accum < (1u64 << shift),
                    shift <= 28,
            ;
        }
        let accum2: u64 = accum | (g << shift);
        proof {
            assert(accum2 as nat == accum as nat + (b as nat % 128) * pow2(shift as nat));
            assert((accum2 as nat) < pow2((shift as nat) + 7)) by {
                lemma_pow2_adds(shift as nat, 7);
                assert((b as nat % 128) * pow2(shift as nat) <= 127 * pow2(shift as nat))
                    by (nonlinear_arith)
                    requires
                        0 < pow2(shift as nat),
                ;
            }
        }

        if b & 0x80 == 0 {
            proof {
                assert(b & 0x80 == 0 ==> b < 128) by (bit_vector);
            }
            proof {
                assert((#[verifier::truncate] (accum2 as u32)) as u64 == accum2
                    % 0x1_0000_0000u64) by (bit_vector);
                assert(pow2(32) == 0x1_0000_0000);
            }
            let v: u32 = #[verifier::truncate] (accum2 as u32);
            return Ok(Some(v));
        }
        proof {
            assert(b & 0x80 != 0 ==> b >= 128) by (bit_vector);
        }

        if shift >= 25 {
            // the next group would start at bit 32 or beyond
            return Err(located("VarInt is too long to fit an i32", cursor.pos()));
        }
        accum = accum2;
        shift = shift + 7;
    }
}

/// Decodes a 32-bit signed variable-length number, reinterpreting the
/// accumulated bits as two's complement.
pub fn decode_var_i32_streaming(cursor: &mut ByteCursor) -> (r: Result<Option<i32>, DecodeError>)
    requires
        old(cursor).wf(),
    ensures
        final(cursor).wf(),
        final(cursor).original@ == old(cursor).original@,
        match r {
            Ok(Some(v)) => vu32_dec(old(cursor).original@, old(cursor).pos as int)
                matches VarDec::Done { value, end } && v as int == spec_i32_from_u32_2c(
                value as u32,
            ) && final(cursor).pos == end,
            Ok(None) => vu32_dec(old(cursor).original@, old(cursor).pos as int)
                is Incomplete && final(cursor).pos == old(cursor).original@.len(),
            Err(_) => vu32_dec(old(cursor).original@, old(cursor).pos as int) is TooLong,
        },
{
    match decode_var_u32_streaming(cursor) {
        Ok(Some(v)) => Ok(Some(i32_from_u32_2c(v))),
        Ok(None) => Ok(None),
        Err(e) => Err(e),
    }
}

/// Decodes a 64-bit unsigned variable-length number from the cursor.
pub fn decode_var_u64_streaming(cursor: &mut ByteCursor) -> (r: Result<Option<u64>, DecodeError>)
    requires
        old(cursor).wf(),
    ensures
        final(cursor).wf(),
        final(cursor).original@ == old(cursor).original@,
        match r {
            Ok(Some(v)) => vu64_dec(old(cursor).original@, old(cursor).pos as int)
                matches VarDec::Done { value, end } && value == v as nat && final(cursor).pos
                == end,
            Ok(None) => vu64_dec(old(cursor).original@, old(cursor).pos as int)
                is Incomplete && final(cursor).pos == old(cursor).original@.len(),
            Err(_) => vu64_dec(old(cursor).original@, old(cursor).pos as int) is TooLong,
        },
{
    let ghost s = cursor.original@;
    let ghost start = cursor.pos as int;
    let mut shift: u64 = 0;
    let mut accum: u64 = 0;
    proof {
        lemma2_to64();
    }

    loop
        invariant
            s == old(cursor).original@,
            start == old(cursor).pos as int,
            cursor.wf(),
            cursor.original@ == s,
            start <= cursor.pos <= s.len(),
            shift == 7 * (cursor.pos - start),
            shift <= 63,
            (accum as nat) < pow2(shift as nat),
            vnum_dec_at(s, start, 0, 0, 64) == vnum_dec_at(
                s,
                cursor.pos as int,
                shift as nat,
                accum as nat,
                64,
            ),
        decreases s.len() - cursor.pos,
    {
        let b = match cursor.read() {
            Some(b) => b,
            None => {
                return Ok(None);
            },
        };
        let g: u64 = (b & 0x7f) as u64;
        let ghost acc2: nat = accum as nat + (b as nat % 128) * pow2(shift as nat);
        proof {
            lemma2_to64();
            vstd::arithmetic::power2::lemma2_to64_rest();
            assert(b & 0x7f == b % 128) by (bit_vector);
        }
        let accum2: u64;
        if shift <= 56 {
            proof {
                if shift < 56 {
                    vstd::arithmetic::power2::lemma_pow2_strictly_increases(shift as nat, 56);
                }
                assert(pow2(shift as nat) <= pow2(56));
                lemma_u64_shl_is_mul(1u64, shift);
                assert(g * pow2(shift as nat) <= 127 * pow2(56)) by (nonlinear_arith)
                    requires
                        g <= 127,
                        pow2(shift as nat) <= pow2(56),
                        0 < pow2(shift as nat),
                ;
                lemma_u64_shl_is_mul(g, shift);
                assert(accum < (1u64 << shift));
                assert((accum | (g << shift)) == accum + (g << shift)) by (bit_vector)
                    requires
                        accum < (1u64 << shift),
                        shift <= 56,
                ;
            }
            accum2 = accum | (g << shift);
            proof {
                assert(accum2 as nat == acc2);
                assert(acc2 < pow2((shift as nat) + 7)) by {
                    lemma_pow2_adds(shift as nat, 7);
                    assert((b as nat % 128) * pow2(shift as nat) <= 127 * pow2(shift as nat))
                        by (nonlinear_arith)
                        requires
                            0 < pow2(shift as nat),
                    ;
                }
                assert(acc2 < pow2(64)) by {
                    vstd::arithmetic::power2::lemma_pow2_strictly_increases(
                        (shift as nat) + 7,
                        64,
                    );
                }
                lemma_small_mod(acc2, pow2(64));
            }
        } else {
            // the tenth group lands at bit 63; only its low bit is kept
            proof {
                assert(shift == 63);
                assert(g << 63u64 == (g % 2) * 0x8000_0000_0000_0000) by (bit_vector)
                    requires
                        g <= 127,
                ;
                lemma_u64_shl_is_mul(1u64, 63);
                assert(accum < (1u64 << 63u64));
                assert((accum | (g << 63u64)) == accum + (g << 63u64)) by (bit_vector)
                    requires
                        accum < (1u64 << 63u64),
                ;
            }
            accum2 = accum | (g << shift);
            proof {
                // acc2 mod 2^64 keeps the group's low bit at position 63
                let gn = b as nat % 128;
                lemma_pow2_adds(63, 1);
                assert(pow2(63) == 0x8000_0000_0000_0000);
                assert(pow2(64) == 0x1_0000_0000_0000_0000);
                assert(gn * pow2(63) == (gn / 2) * pow2(64) + (gn % 2) * pow2(63))
                    by (nonlinear_arith)
                    requires
                        pow2(64) == 2 * pow2(63),
                ;
                assert(accum2 as nat == accum as nat + (gn % 2) * pow2(63));
                assert(acc2 == (accum as nat + (gn % 2) * pow2(63)) + (gn / 2) * pow2(64));
                assert(accum as nat + (gn % 2) * pow2(63) < pow2(64));
                vstd::arithmetic::div_mod::lemma_mod_multiples_vanish(
                    (gn / 2) as int,
                    (accum as nat + (gn % 2) * pow2(63)) as int,
                    pow2(64) as int,
                );
                lemma_small_mod((accum as nat + (gn % 2) * pow2(63)) as nat, pow2(64));
                assert(acc2 % pow2(64) == accum2 as nat);
            }
        }

        if b & 0x80 == 0 {
            proof {
                assert(b & 0x80 == 0 ==> b < 128) by (bit_vector);
                assert(acc2 % pow2(64) == accum2 as nat);
            }
            return Ok(Some(accum2));
        }
        proof {
            assert(b & 0x80 != 0 ==> b >= 128) by (bit_vector);
        }

        if shift >= 57 {
            // the next group would start at bit 64 or beyond
            return Err(located("VarLong is too long to fit an i64", cursor.pos()));
        }
        accum = accum2;
        shift = shift + 7;
    }
}

/// Decodes a 64-bit signed variable-length number.
pub fn decode_var_i64_streaming(cursor: &mut ByteCursor) -> (r: Result<Option<i64>, DecodeError>)
    requires
        old(cursor).wf(),
    ensures
        final(cursor).wf(),
        final(cursor).original@ == old(cursor).original@,
        match r {
            Ok(Some(v)) => vu64_dec(old(cursor).original@, old(cursor).pos as int)
                matches VarDec::Done { value, end } && v as int == spec_i64_from_u64_2c(
                value as u64,
            ) && final(cursor).pos == end,
            Ok(None) => vu64_dec(old(cursor).original@, old(cursor).pos as int)
                is Incomplete && final(cursor).pos == old(cursor).original@.len(),
            Err(_) => vu64_dec(old(cursor).original@, old(cursor).pos as int) is TooLong,
        },
{
    match decode_var_u64_streaming(cursor) {
        Ok(Some(v)) => Ok(Some(i64_from_u64_2c(v))),
        Ok(None) => Ok(None),
        Err(e) => Err(e),
    }
}

/// Appends the encoding of the unsigned value `value` to `out`.
pub fn encode_var_u32_raw(out: &mut Vec<u8>, value: u32)
    ensures
        final(out)@ == old(out)@ + vnum_enc(value as nat),
{
    let ghost base = old(out)@;
    let mut x: u32 = value;
    let mut finished = false;
    while !finished
        invariant
            out@.len() >= base.len(),
            out@.subrange(0, base.len() as int) == base,
            !finished ==> base + vnum_enc(value as nat) == out@ + vnum_enc(x as nat),
            finished ==> out@ == base + vnum_enc(value as nat),
        decreases x, (if finished {
            0int
        } else {
            1int
        }),
    {
        proof {
            assert(x & 0x7f == x % 128 && x % 128 < 128) by (bit_vector);
        }
        let b: u8 = (x & 0x7f) as u8;
        if x >= 128 {
            proof {
                assert((x >> 7) < x && (x >> 7) == x / 128) by (bit_vector)
                    requires
                        x >= 128,
                ;
                assert(b | 0x80 == 128 + (x % 128)) by (bit_vector)
                    requires
                        b == x % 128,
                ;
                assert(vnum_enc(x as nat) == seq![(128 + (x as nat) % 128) as u8] + vnum_enc(
                    (x as nat) / 128,
                ));
            }
            let ghost before = out@;
            out.push(b | 0x80);
            proof {
                assert(out@ =~= before + seq![(128 + (x as nat) % 128) as u8]);
                assert(base + vnum_enc(value as nat) =~= out@ + vnum_enc((x as nat) / 128));
                assert(out@.subrange(0, base.len() as int) =~= base);
            }
            x = x >> 7;
        } else {
            proof {
                assert(b == x) by (bit_vector)
                    requires
                        x < 128,
                        b == x % 128,
                ;
                assert(vnum_enc(x as nat) == seq![x as u8]);
            }
            let ghost before = out@;
            out.push(b);
            proof {
                assert(out@ =~= before + seq![b]);
                assert(out@ =~= base + vnum_enc(value as nat));
                assert(out@.subrange(0, base.len() as int) =~= base);
            }
            finished = true;
        }
    }
}

/// Appends the encoding of the unsigned value `value` to `out`.
pub fn encode_var_u64_raw(out: &mut Vec<u8>, value: u64)
    ensures
        final(out)@ == old(out)@ + vnum_enc(value as nat),
{
    let ghost base = old(out)@;
    let mut x: u64 = value;
    let mut finished = false;
    while !finished
        invariant
            out@.len() >= base.len(),
            out@.subrange(0, base.len() as int) == base,
            !finished ==> base + vnum_enc(value as nat) == out@ + vnum_enc(x as nat),
            finished ==> out@ == base + vnum_enc(value as nat),
        decreases x, (if finished {
            0int
        } else {
            1int
        }),
    {
        proof {
            assert(x & 0x7f == x % 128 && x % 128 < 128) by (bit_vector);
        }
        let b: u8 = (x & 0x7f) as u8;
        if x >= 128 {
            proof {
                assert((x >> 7) < x && (x >> 7) == x / 128) by (bit_vector)
                    requires
                        x >= 128,
                ;
                assert(b | 0x80 == 128 + (x % 128)) by (bit_vector)
                    requires
                        b == x % 128,
                ;
                assert(vnum_enc(x as nat) == seq![(128 + (x as nat) % 128) as u8] + vnum_enc(
                    (x as nat) / 128,
                ));
            }
            let ghost before = out@;
            out.push(b | 0x80);
            proof {
                assert(out@ =~= before + seq![(128 + (x as nat) % 128) as u8]);
                assert(base + vnum_enc(value as nat) =~= out@ + vnum_enc((x as nat) / 128));
                assert(out@.subrange(0, base.len() as int) =~= base);
            }
            x = x >> 7;
        } else {
            proof {
                assert(b == x) by (bit_vector)
                    requires
                        x < 128,
                        b == x % 128,
                ;
                assert(vnum_enc(x as nat) == seq![x as u8]);
            }
            let ghost before = out@;
            out.push(b);
            proof {
                assert(out@ =~= before + seq![b]);
                assert(out@ =~= base + vnum_enc(value as nat));
                assert(out@.subrange(0, base.len() as int) =~= base);
            }
            finished = true;
        }
    }
}

/// Decoding an encoding embedded in any surrounding bytes yields the
/// encoded value, however the accumulator stands: the groups of `v` land
/// above `shift` on top of `acc`.
pub proof fn lemma_vnum_dec_enc(s: Seq<u8>, i: int, shift: nat, acc: nat, max_bits: nat, v: nat)
    requires
        0 <= i,
        i + vnum_enc(v).len() <= s.len(),
        s.subrange(i, i + vnum_enc(v).len() as int) == vnum_enc(v),
        acc < pow2(shift),
        acc + v * pow2(shift) < pow2(max_bits),
    ensures
        vnum_dec_at(s, i, shift, acc, max_bits) == (VarDec::Done {
            value: acc + v * pow2(shift),
            end: i + vnum_enc(v).len(),
        }),
    decreases v,
{
    lemma2_to64();
    lemma_pow2_pos(shift);
    lemma_pow2_pos(max_bits);
    let e = vnum_enc(v);
    assert(s[i] == e[0]) by {
        assert(s.subrange(i, i + e.len() as int)[0] == s[i]);
    }
    if v < 128 {
        assert(e == seq![v as u8]);
        assert(s[i] == v as u8);
        vstd::arithmetic::div_mod::lemma_small_mod(v, 128);
        vstd::arithmetic::div_mod::lemma_small_mod(acc + v * pow2(shift), pow2(max_bits));
    } else {
        assert(e == seq![(128 + v % 128) as u8] + vnum_enc(v / 128));
        let b = s[i];
        assert(b == (128 + v % 128) as u8);
        assert(v % 128 < 128);
        assert(b as nat == 128 + v % 128);
        assert(b as nat % 128 == v % 128) by {
            vstd::arithmetic::div_mod::lemma_mod_multiples_vanish(1, (v % 128) as int, 128);
            vstd::arithmetic::div_mod::lemma_small_mod(v % 128, 128);
        }
        lemma_pow2_adds(shift, 7);
        // a chain this long cannot be refused: v has at least one more group
        assert(128 * pow2(shift) <= v * pow2(shift)) by (nonlinear_arith)
            requires
                v >= 128,
                0 < pow2(shift),
        ;
        assert(pow2(shift + 7) == pow2(shift) * 128);
        if shift + 7 >= max_bits {
            if max_bits < shift + 7 {
                vstd::arithmetic::power2::lemma_pow2_strictly_increases(max_bits, shift + 7);
            }
            assert(pow2(max_bits) <= pow2(shift + 7));
            assert(false);
        }
        let v2 = v / 128;
        let acc2 = acc + (v % 128) * pow2(shift);
        assert(acc2 < pow2(shift + 7)) by (nonlinear_arith)
            requires
                acc < pow2(shift),
                v % 128 < 128,
                acc2 == acc + (v % 128) * pow2(shift),
                pow2(shift + 7) == pow2(shift) * 128,
                0 < pow2(shift),
        ;
        vstd::arithmetic::div_mod::lemma_fundamental_div_mod(v as int, 128);
        assert(acc2 + v2 * pow2(shift + 7) == acc + v * pow2(shift)) by (nonlinear_arith)
            requires
                v == 128 * v2 + v % 128,
                acc2 == acc + (v % 128) * pow2(shift),
                pow2(shift + 7) == pow2(shift) * 128,
        ;
        assert(s.subrange(i + 1, i + 1 + vnum_enc(v2).len() as int) == vnum_enc(v2)) by {
            assert forall|k: int| 0 <= k < vnum_enc(v2).len() implies s.subrange(
                i + 1,
                i + 1 + vnum_enc(v2).len() as int,
            )[k] == vnum_enc(v2)[k] by {
                assert(s.subrange(i, i + e.len() as int)[k + 1] == s[i + 1 + k]);
                assert(e[k + 1] == vnum_enc(v2)[k]);
            }
            assert(s.subrange(i + 1, i + 1 + vnum_enc(v2).len() as int) =~= vnum_enc(v2));
        }
        lemma_vnum_dec_enc(s, i + 1, shift + 7, acc2, max_bits, v2);
    }
}

/// VarNum round trip, 32-bit form: decoding an encoded `u32` anywhere in a
/// byte run yields the value back and stops just past its last byte.
pub proof fn lemma_vu32_round_trip(s: Seq<u8>, at: int, v: u32)
    requires
        0 <= at,
        at + vnum_enc(v as nat).len() <= s.len(),
        s.subrange(at, at + vnum_enc(v as nat).len() as int) == vnum_enc(v as nat),
    ensures
        vu32_dec(s, at) == (VarDec::Done {
            value: v as nat,
            end: at + vnum_enc(v as nat).len(),
        }),
{
    lemma2_to64();
    lemma_vnum_dec_enc(s, at, 0, 0, 32, v as nat);
}

/// VarNum round trip, 64-bit form.
pub proof fn lemma_vu64_round_trip(s: Seq<u8>, at: int, v: u64)
    requires
        0 <= at,
        at + vnum_enc(v as nat).len() <= s.len(),
        s.subrange(at, at + vnum_enc(v as nat).len() as int) == vnum_enc(v as nat),
    ensures
        vu64_dec(s, at) == (VarDec::Done {
            value: v as nat,
            end: at + vnum_enc(v as nat).len(),
        }),
{
    lemma2_to64();
    vstd::arithmetic::power2::lemma2_to64_rest();
    lemma_vnum_dec_enc(s, at, 0, 0, 64, v as nat);
}

/// VarNum round trip for signed 32-bit values: decoding the encoding of
/// `v`'s two's-complement bit pattern recovers `v`.
pub proof fn lemma_vi32_round_trip(v: i32)
    ensures
        vu32_dec(vnum_enc(spec_i32_to_u32_2c(v) as nat), 0) matches VarDec::Done {
            value,
            end,
        } && spec_i32_from_u32_2c(value as u32) == v as int && end == vnum_enc(
            spec_i32_to_u32_2c(v) as nat,
        ).len(),
{
    let u = spec_i32_to_u32_2c(v) as u32;
    let e = vnum_enc(u as nat);
    assert(e.subrange(0, e.len() as int) =~= e);
    lemma_vu32_round_trip(e, 0, u);
    crate::bits::lemma_u32_2c_round_trip(v);
}

/// VarNum round trip for signed 64-bit values.
pub proof fn lemma_vi64_round_trip(v: i64)
    ensures
        vu64_dec(vnum_enc(spec_i64_to_u64_2c(v) as nat), 0) matches VarDec::Done {
            value,
            end,
        } && spec_i64_from_u64_2c(value as u64) == v as int && end == vnum_enc(
            spec_i64_to_u64_2c(v) as nat,
        ).len(),
{
    let u = spec_i64_to_u64_2c(v) as u64;
    let e = vnum_enc(u as nat);
    assert(e.subrange(0, e.len() as int) =~= e);
    lemma_vu64_round_trip(e, 0, u);
    crate::bits::lemma_u64_2c_round_trip(v);
}

/// Number of binary digits of `v`.
pub open spec fn bit_len(v: nat) -> nat
    decreases v,
{
    if v == 0 {
        0
    } else {
        1 + bit_len(v / 2)
    }
}

/// `bit_len` brackets its argument between consecutive powers of two.
pub proof fn lemma_bit_len_bound(v: nat)
    ensures
        v < pow2(bit_len(v)),
        v > 0 ==> pow2((bit_len(v) - 1) as nat) <= v,
    decreases v,
{
    lemma2_to64();
    if v > 0 {
        lemma_bit_len_bound(v / 2);
        lemma_pow2_adds((bit_len(v) - 1) as nat, 1);
        assert(pow2(bit_len(v)) == pow2((bit_len(v) - 1) as nat) * 2);
        if v / 2 > 0 {
            lemma_pow2_adds((bit_len(v) - 2) as nat, 1);
        }
    }
}

/// Dropping seven low binary digits drops seven from the digit count.
proof fn lemma_bit_len_div128(v: nat)
    requires
        v >= 128,
    ensures
        bit_len(v) == 7 + bit_len(v / 128),
{
    assert(v / 2 / 2 == v / 4 && v / 4 / 2 == v / 8 && v / 8 / 2 == v / 16 && v / 16 / 2 == v / 32
        && v / 32 / 2 == v / 64 && v / 64 / 2 == v / 128) by (nonlinear_arith);
    assert(v / 64 >= 2) by (nonlinear_arith)
        requires
            v >= 128,
    ;
    assert(v / 32 >= v / 64 && v / 16 >= v / 32 && v / 8 >= v / 16 && v / 4 >= v / 8 && v / 2 >= v
        / 4) by (nonlinear_arith);
    assert(bit_len(v) == 1 + bit_len(v / 2));
    assert(bit_len(v / 2) == 1 + bit_len(v / 4));
    assert(bit_len(v / 4) == 1 + bit_len(v / 8));
    assert(bit_len(v / 8) == 1 + bit_len(v / 16));
    assert(bit_len(v / 16) == 1 + bit_len(v / 32));
    assert(bit_len(v / 32) == 1 + bit_len(v / 64));
    assert(bit_len(v / 64) == 1 + bit_len(v / 128));
}

/// The encoding of `v` takes one byte per seven binary digits, rounded up,
/// and at least one byte.
pub proof fn lemma_vnum_enc_len(v: nat)
    ensures
        vnum_enc(v).len() == if v == 0 {
            1int
        } else {
            (bit_len(v) + 6) as int / 7
        },
    decreases v,
{
    if v < 128 {
        if v > 0 {
            lemma_bit_len_bound(v);
            lemma2_to64();
            if bit_len(v) > 7 {
                vstd::arithmetic::power2::lemma_pow2_strictly_increases(7, (bit_len(v) - 1) as nat);
                assert(false);
            }
            assert(bit_len(v) >= 1);
        }
    } else {
        lemma_vnum_enc_len(v / 128);
        lemma_bit_len_div128(v);
        assert(v / 128 > 0) by (nonlinear_arith)
            requires
                v >= 128,
        ;
        let y = (bit_len(v / 128) + 6) as int;
        vstd::arithmetic::div_mod::lemma_div_plus_one(y, 7);
        assert((7 + y) / 7 == 1 + y / 7);
    }
}

/// A continuation chain of five bytes does not fit a 32-bit value: the
/// decoder refuses it as too long.
pub proof fn lemma_vu32_too_long(s: Seq<u8>, at: int)
    requires
        0 <= at,
        at + 5 <= s.len(),
        forall|k: int| 0 <= k < 5 ==> #[trigger] s[at + k] >= 128,
    ensures
        vu32_dec(s, at) is TooLong,
{
    assert(s[at + 0] >= 128 && s[at + 1] >= 128 && s[at + 2] >= 128 && s[at + 3] >= 128 && s[at
        + 4] >= 128);
    lemma_vnum_step(s, at, 0, 0, 32);
    let a1 = 0 + (s[at] as nat % 128) * pow2(0);
    lemma_vnum_step(s, at + 1, 7, a1, 32);
    let a2 = a1 + (s[at + 1] as nat % 128) * pow2(7);
    lemma_vnum_step(s, at + 2, 14, a2, 32);
    let a3 = a2 + (s[at + 2] as nat % 128) * pow2(14);
    lemma_vnum_step(s, at + 3, 21, a3, 32);
    let a4 = a3 + (s[at + 3] as nat % 128) * pow2(21);
    assert(vnum_dec_at(s, at + 4, 28, a4, 32) is TooLong);
}

/// One continuation step of the decoder's recursion.
proof fn lemma_vnum_step(s: Seq<u8>, i: int, shift: nat, acc: nat, max_bits: nat)
    requires
        0 <= i < s.len(),
        s[i] >= 128,
        shift + 7 < max_bits,
    ensures
        vnum_dec_at(s, i, shift, acc, max_bits) == vnum_dec_at(
            s,
            i + 1,
            shift + 7,
            acc + (s[i] as nat % 128) * pow2(shift),
            max_bits,
        ),
{
}

/// A continuation chain of ten bytes does not fit a 64-bit value.
pub proof fn lemma_vu64_too_long(s: Seq<u8>, at: int)
    requires
        0 <= at,
        at + 10 <= s.len(),
        forall|k: int| 0 <= k < 10 ==> #[trigger] s[at + k] >= 128,
    ensures
        vu64_dec(s, at) is TooLong,
{
    assert(s[at + 0] >= 128 && s[at + 1] >= 128 && s[at + 2] >= 128 && s[at + 3] >= 128 && s[at
        + 4] >= 128 && s[at + 5] >= 128 && s[at + 6] >= 128 && s[at + 7] >= 128 && s[at + 8] >= 128
        && s[at + 9] >= 128);
    lemma_vnum_step(s, at, 0, 0, 64);
    let a1 = 0 + (s[at] as nat % 128) * pow2(0);
    lemma_vnum_step(s, at + 1, 7, a1, 64);
    let a2 = a1 + (s[at + 1] as nat % 128) * pow2(7);
    lemma_vnum_step(s, at + 2, 14, a2, 64);
    let a3 = a2 + (s[at + 2] as nat % 128) * pow2(14);
    lemma_vnum_step(s, at + 3, 21, a3, 64);
    let a4 = a3 + (s[at + 3] as nat % 128) * pow2(21);
    lemma_vnum_step(s, at + 4, 28, a4, 64);
    let a5 = a4 + (s[at + 4] as nat % 128) * pow2(28);
    lemma_vnum_step(s, at + 5, 35, a5, 64);
    let a6 = a5 + (s[at + 5] as nat % 128) * pow2(35);
    lemma_vnum_step(s, at + 6, 42, a6, 64);
    let a7 = a6 + (s[at + 6] as nat % 128) * pow2(42);
    lemma_vnum_step(s, at + 7, 49, a7, 64);
    let a8 = a7 + (s[at + 7] as nat % 128) * pow2(49);
    lemma_vnum_step(s, at + 8, 56, a8, 64);
    let a9 = a8 + (s[at + 8] as nat % 128) * pow2(56);
    assert(vnum_dec_at(s, at + 9, 63, a9, 64) is TooLong);
}

/// A chain cut short by the end of the input is incomplete, not malformed.
proof fn lemma_vnum_truncated_rec(s: Seq<u8>, i: int, shift: nat, acc: nat, max_bits: nat)
    requires
        0 <= i <= s.len(),
        forall|j: int| i <= j < s.len() ==> s[j] >= 128,
        shift + 7 * (s.len() - i) < max_bits,
    ensures
        vnum_dec_at(s, i, shift, acc, max_bits) is Incomplete,
    decreases s.len() - i,
{
    if i < s.len() {
        lemma_vnum_truncated_rec(
            s,
            i + 1,
            shift + 7,
            acc + (s[i] as nat % 128) * pow2(shift),
            max_bits,
        );
    }
}

/// Truncated 32-bit chain: every available byte asks for another, and
/// fewer than five are available.
pub proof fn lemma_vu32_truncated(s: Seq<u8>, at: int)
    requires
        0 <= at <= s.len(),
        s.len() - at <= 4,
        forall|j: int| at <= j < s.len() ==> s[j] >= 128,
    ensures
        vu32_dec(s, at) is Incomplete,
{
    lemma_vnum_truncated_rec(s, at, 0, 0, 32);
}

/// Truncated 64-bit chain: every available byte asks for another, and
/// fewer than ten are available.
pub proof fn lemma_vu64_truncated(s: Seq<u8>, at: int)
    requires
        0 <= at <= s.len(),
        s.len() - at <= 9,
        forall|j: int| at <= j < s.len() ==> s[j] >= 128,
    ensures
        vu64_dec(s, at) is Incomplete,
{
    lemma_vnum_truncated_rec(s, at, 0, 0, 64);
}

/// Appends the encoding of the two's-complement bit pattern of `value` to
/// `out`.
pub fn encode_var_u64(out: &mut Vec<u8>, value: i64)
    ensures
        final(out)@ == old(out)@ + vnum_enc(spec_i64_to_u64_2c(value) as nat),
{
    let v = crate::bits::i64_to_u64_2c(value);
    encode_var_u64_raw(out, v);
}

/// Appends the encoding of the two's-complement bit pattern of `value` to
/// `out`.
pub fn encode_var_u32(out: &mut Vec<u8>, value: i32)
    ensures
        final(out)@ == old(out)@ + vnum_enc(spec_i32_to_u32_2c(value) as nat),
{
    let v = crate::bits::i32_to_u32_2c(value);
    encode_var_u32_raw(out, v);
}

/// A completed read stays within the byte run and yields a value the
/// matching accumulator width can hold.
pub proof fn lemma_vnum_dec_bounds(s: Seq<u8>, i: int, shift: nat, acc: nat, max_bits: nat)
    ensures
        vnum_dec_at(s, i, shift, acc, max_bits) matches VarDec::Done { value, end } ==> value
            < pow2(max_bits) && i < end <= s.len(),
    decreases s.len() - i,
{
    lemma_pow2_pos(max_bits);
    if 0 <= i && i < s.len() {
        let b = s[i];
        let acc2 = acc + (b as nat % 128) * pow2(shift);
        if b < 128 {
            vstd::arithmetic::div_mod::lemma_mod_bound(acc2 as int, pow2(max_bits) as int);
        } else if shift + 7 >= max_bits {
        } else {
            lemma_vnum_dec_bounds(s, i + 1, shift + 7, acc2, max_bits);
        }
    }
}

/// Bounds of a completed 32-bit read.
pub proof fn lemma_vu32_dec_bounds(s: Seq<u8>, at: int)
    ensures
        vu32_dec(s, at) matches VarDec::Done { value, end } ==> value < 0x1_0000_0000 && at < end
            <= s.len(),
{
    lemma2_to64();
    lemma_vnum_dec_bounds(s, at, 0, 0, 32);
}

/// Bounds of a completed 64-bit read.
pub proof fn lemma_vu64_dec_bounds(s: Seq<u8>, at: int)
    ensures
        vu64_dec(s, at) matches VarDec::Done { value, end } ==> value < 0x1_0000_0000_0000_0000
            && at < end <= s.len(),
{
    lemma2_to64();
    lemma_vnum_dec_bounds(s, at, 0, 0, 64);
}

} // verus!
