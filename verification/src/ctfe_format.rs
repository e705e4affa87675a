//! A fixed-capacity decimal formatter.
//!
//! Error locations and protocol diagnostics need decimal renderings of
//! integers without the standard formatting machinery. [`dec_digits`] is the
//! mathematical decimal form of a number; [`CtfeFormatter`] accumulates text
//! into a capacity-bounded buffer, dropping whole writes once the capacity
//! would be passed.

use vstd::prelude::*;
use vstd::string::StringSliceAdditionalSpecFns;
use vstd::utf8::{decode_utf8, encode_utf8_decode_utf8, encode_utf8_valid_utf8, valid_utf8};

use crate::text::{
    lemma_ascii_bytes_valid_utf8, lemma_decode_utf8_concat, push_str_bytes, string_from_utf8,
};

verus! {

/// The ASCII bytes of the decimal rendering of `v`, most significant digit
/// first, with no leading zeros (`0` itself is the single byte `b'0'`).
pub open spec fn dec_digits(v: nat) -> Seq<u8>
    decreases v,
{
    if v < 10 {
        seq![(48 + v) as u8]
    } else {
        dec_digits(v / 10) + seq![(48 + (v % 10)) as u8]
    }
}

/// Every byte of a decimal rendering is an ASCII digit.
pub proof fn lemma_dec_digits_ascii(v: nat)
    ensures
        forall|i: int| 0 <= i < dec_digits(v).len() ==> 48 <= #[trigger] dec_digits(v)[i] <= 57,
    decreases v,
{
    if v < 10 {
        assert(dec_digits(v) =~= seq![(48 + v) as u8]);
    } else {
        lemma_dec_digits_ascii(v / 10);
        assert(dec_digits(v) =~= dec_digits(v / 10) + seq![(48 + (v % 10)) as u8]);
        assert forall|i: int| 0 <= i < dec_digits(v).len() implies 48 <= #[trigger] dec_digits(
            v,
        )[i] <= 57 by {
            if i < dec_digits(v / 10).len() {
                assert(dec_digits(v)[i] == dec_digits(v / 10)[i]);
            } else {
                assert(dec_digits(v)[i] == (48 + (v % 10)) as u8);
            }
        }
    }
}

/// Appends the decimal rendering of `v` to `out`.
pub fn push_decimal(out: &mut Vec<u8>, v: u128)
    ensures
        final(out)@ == old(out)@ + dec_digits(v as nat),
{
    let ghost base = out@;
    if v == 0 {
        out.push(48);
        proof {
            assert(out@ =~= base + dec_digits(0));
        }
        return ;
    }

    let mut tmp: Vec<u8> = Vec::new();
    let mut x = v;
    while x > 0
        invariant
            x > 0 ==> dec_digits(v as nat) == dec_digits(x as nat) + tmp@.reverse(),
            x == 0 ==> dec_digits(v as nat) == tmp@.reverse(),
            v > 0,
        decreases x,
    {
        let d: u8 = (x % 10) as u8 + 48;
        let ghost old_tmp = tmp@;
        tmp.push(d);
        proof {
            assert(tmp@.reverse() =~= seq![d] + old_tmp.reverse());
            if x >= 10 {
                assert(dec_digits(x as nat) == dec_digits((x as nat) / 10) + seq![
                    (48 + ((x as nat) % 10)) as u8,
                ]);
                assert(dec_digits(x as nat) + old_tmp.reverse() =~= dec_digits((x as nat) / 10)
                    + tmp@.reverse());
            } else {
                assert(dec_digits(x as nat) =~= seq![d]);
                assert(dec_digits(x as nat) + old_tmp.reverse() =~= tmp@.reverse());
            }
        }
        x = x / 10;
    }

    let mut k = tmp.len();
    proof {
        assert(tmp@.subrange(k as int, tmp@.len() as int) =~= Seq::<u8>::empty());
        assert(out@ =~= base + tmp@.subrange(k as int, tmp@.len() as int).reverse());
    }
    while k > 0
        invariant
            k <= tmp@.len(),
            out@ == base + tmp@.subrange(k as int, tmp@.len() as int).reverse(),
        decreases k,
    {
        k = k - 1;
        let d = tmp[k];
        out.push(d);
        proof {
            assert(out@ =~= base + tmp@.subrange(k as int, tmp@.len() as int).reverse());
        }
    }
    proof {
        assert(tmp@.subrange(0, tmp@.len() as int) =~= tmp@);
        assert(out@ == base + dec_digits(v as nat));
    }
}

/// The absolute value of a signed 128-bit integer.
pub open spec fn i128_magnitude(v: i128) -> nat {
    if v >= 0 {
        v as nat
    } else {
        (-(v as int)) as nat
    }
}

/// A bounded text buffer: writes that would pass the capacity are dropped
/// whole and the formatter is marked overflowed.
pub struct CtfeFormatter<const CAP: usize> {
    /// The accumulated bytes, always valid UTF-8 and within `CAP`.
    pub buffer: Vec<u8>,
    /// Set once a write did not fit; later writes are ignored.
    pub overflowed: bool,
}

impl<const CAP: usize> CtfeFormatter<CAP> {
    /// The buffer stays within capacity and holds well-formed text.
    pub open spec fn wf(self) -> bool {
        &&& self.buffer@.len() <= CAP
        &&& valid_utf8(self.buffer@)
    }

    /// An empty formatter.
    pub fn new() -> (r: Self)
        ensures
            r.wf(),
            r.buffer@ == Seq::<u8>::empty(),
            !r.overflowed,
    {
        let r = CtfeFormatter { buffer: Vec::new(), overflowed: false };
        proof {
            assert(valid_utf8(r.buffer@));
        }
        r
    }

    /// Appends the text of `s`, or marks the formatter overflowed if it
    /// does not fit.
    pub fn write_str(&mut self, s: &str)
        requires
            old(self).wf(),
        ensures
            final(self).wf(),
            old(self).overflowed ==> *final(self) == *old(self),
            (!old(self).overflowed && old(self).buffer@.len() + s.spec_bytes().len() <= CAP) ==> (
            final(self).buffer@ == old(self).buffer@ + s.spec_bytes() && !final(self).overflowed),
            (!old(self).overflowed && old(self).buffer@.len() + s.spec_bytes().len() > CAP) ==> (
            final(self).buffer@ == old(self).buffer@ && final(self).overflowed),
    {
        if self.overflowed {
            return ;
        }
        let bytes = s.as_bytes();
        if bytes.len() > CAP - self.buffer.len() {
            self.overflowed = true;
            return ;
        }
        proof {
            encode_utf8_valid_utf8(s@);
            lemma_decode_utf8_concat(self.buffer@, s.spec_bytes());
        }
        push_str_bytes(&mut self.buffer, s);
    }

    /// Appends the UTF-8 encoding of one character, or marks the formatter
    /// overflowed if it does not fit.
    pub fn write_char(&mut self, ch: char)
        requires
            old(self).wf(),
        ensures
            final(self).wf(),
            old(self).overflowed ==> *final(self) == *old(self),
            (!old(self).overflowed && old(self).buffer@.len() + vstd::utf8::encode_utf8(
                seq![ch],
            ).len() <= CAP) ==> (final(self).buffer@ == old(self).buffer@
                + vstd::utf8::encode_utf8(seq![ch]) && !final(self).overflowed),
    {
        if self.overflowed {
            return ;
        }
        proof {
            vstd::utf8::char_is_scalar(ch);
        }
        let u = ch as u32;
        let mut enc: Vec<u8> = Vec::new();
        if u < 0x80 {
            proof {
                assert(u & 0x7F < 256) by (bit_vector);
                assert(u < 0x80 ==> u & 0x7F == u) by (bit_vector);
            }
            enc.push((u & 0x7F) as u8);
        } else if u < 0x800 {
            proof {
                assert((u >> 6) & 0x1F < 256 && u & 0x3F < 256) by (bit_vector);
            }
            enc.push(0xC0 | ((u >> 6) & 0x1F) as u8);
            enc.push(0x80 | (u & 0x3F) as u8);
        } else if u < 0x10000 {
            proof {
                assert((u >> 12) & 0x0F < 256 && (u >> 6) & 0x3F < 256 && u & 0x3F < 256)
                    by (bit_vector);
            }
            enc.push(0xE0 | ((u >> 12) & 0x0F) as u8);
            enc.push(0x80 | ((u >> 6) & 0x3F) as u8);
            enc.push(0x80 | (u & 0x3F) as u8);
        } else {
            proof {
                assert((u >> 18) & 0x7 < 256 && (u >> 12) & 0x3F < 256 && (u >> 6) & 0x3F < 256 && u
                    & 0x3F < 256) by (bit_vector);
            }
            enc.push(0xF0 | ((u >> 18) & 0x7) as u8);
            enc.push(0x80 | ((u >> 12) & 0x3F) as u8);
            enc.push(0x80 | ((u >> 6) & 0x3F) as u8);
            enc.push(0x80 | (u & 0x3F) as u8);
        }
        proof {
            assert(seq![ch].drop_first() =~= Seq::<char>::empty());
            assert(vstd::utf8::encode_utf8(Seq::<char>::empty()) =~= Seq::<u8>::empty());
            assert(enc@ =~= vstd::utf8::encode_scalar(u));
            assert(vstd::utf8::encode_utf8(seq![ch]) =~= vstd::utf8::encode_scalar(u));
        }
        if enc.len() > CAP - self.buffer.len() {
            self.overflowed = true;
            return ;
        }
        proof {
            encode_utf8_valid_utf8(seq![ch]);
            lemma_decode_utf8_concat(self.buffer@, enc@);
        }
        self.buffer.append(&mut enc);
    }

    /// Appends the decimal rendering of `val`, or marks the formatter
    /// overflowed if it does not fit.
    pub fn write_u128(&mut self, val: u128)
        requires
            old(self).wf(),
        ensures
            final(self).wf(),
            old(self).overflowed ==> *final(self) == *old(self),
            (!old(self).overflowed && old(self).buffer@.len() + dec_digits(val as nat).len()
                <= CAP) ==> (final(self).buffer@ == old(self).buffer@ + dec_digits(val as nat)
                && !final(self).overflowed),
            (!old(self).overflowed && old(self).buffer@.len() + dec_digits(val as nat).len() > CAP)
                ==> (final(self).buffer@ == old(self).buffer@ && final(self).overflowed),
    {
        if self.overflowed {
            return ;
        }
        let mut digits: Vec<u8> = Vec::new();
        push_decimal(&mut digits, val);
        proof {
            assert(digits@ =~= dec_digits(val as nat));
        }
        if digits.len() > CAP - self.buffer.len() {
            self.overflowed = true;
            return ;
        }
        proof {
            lemma_dec_digits_ascii(val as nat);
            lemma_ascii_bytes_valid_utf8(digits@);
            lemma_decode_utf8_concat(self.buffer@, digits@);
        }
        self.buffer.append(&mut digits);
    }

    /// Appends a minus sign for negative values, then the decimal rendering
    /// of the magnitude; on a capacity miss the formatter keeps whatever
    /// whole pieces fit and is marked overflowed.
    pub fn write_i128(&mut self, val: i128)
        requires
            old(self).wf(),
        ensures
            final(self).wf(),
            old(self).overflowed ==> *final(self) == *old(self),
            (!old(self).overflowed && val >= 0 && old(self).buffer@.len() + dec_digits(
                val as nat,
            ).len() <= CAP) ==> (final(self).buffer@ == old(self).buffer@ + dec_digits(val as nat)
                && !final(self).overflowed),
            (!old(self).overflowed && val >= 0 && old(self).buffer@.len() + dec_digits(
                val as nat,
            ).len() > CAP) ==> (final(self).buffer@ == old(self).buffer@ && final(self).overflowed),
            (!old(self).overflowed && val < 0 && old(self).buffer@.len() + 1 + dec_digits(
                i128_magnitude(val),
            ).len() <= CAP) ==> (final(self).buffer@ == old(self).buffer@ + seq![45u8]
                + dec_digits(i128_magnitude(val)) && !final(self).overflowed),
            (!old(self).overflowed && val < 0 && old(self).buffer@.len() + 1 <= CAP && old(self).buffer@.len() + 1 + dec_digits(i128_magnitude(val)).len() > CAP) ==> (final(self).buffer@ == old(self).buffer@ + seq![45u8] && final(self).overflowed),
            (!old(self).overflowed && val < 0 && old(self).buffer@.len() + 1 > CAP) ==> (final(self).buffer@ == old(self).buffer@ && final(self).overflowed),
    {
        if self.overflowed {
            return ;
        }
        if val < 0 {
            if 1 > CAP - self.buffer.len() {
                self.overflowed = true;
            } else {
                proof {
                    crate::text::lemma_ascii_bytes_valid_utf8(seq![45u8]);
                    lemma_decode_utf8_concat(self.buffer@, seq![45u8]);
                }
                self.buffer.push(45);
                proof {
                    assert(self.buffer@ =~= old(self).buffer@ + seq![45u8]);
                }
            }
        }
        let magnitude: u128 = if val < 0 {
            if val == i128::MIN {
                0x8000_0000_0000_0000_0000_0000_0000_0000u128
            } else {
                (-val) as u128
            }
        } else {
            val as u128
        };
        proof {
            if val < 0 {
                assert(magnitude as nat == i128_magnitude(val));
            }
        }
        self.write_u128(magnitude);
    }

    /// The accumulated text.
    pub fn finish(&self) -> (r: String)
        requires
            self.wf(),
        ensures
            r@ == decode_utf8(self.buffer@),
    {
        string_from_utf8(self.buffer.as_slice())
    }
}

} // verus!
