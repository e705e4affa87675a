//! UTF-8 validation and codepoint counting over raw bytes.
//!
//! String fields on the wire arrive as length-prefixed byte runs. Before one
//! is accepted it must be proved valid UTF-8 and its codepoint count checked
//! against the field's declared bound. The scanner here does both in one
//! bounds-checked pass, verified against `vstd::utf8`'s model of the
//! encoding.

use vstd::prelude::*;
use vstd::string::StringSliceAdditionalSpecFns;
use vstd::utf8::*;

verus! {

/// Number of UTF-16 code units needed for the text encoded by `s`:
/// scalars on the supplementary planes (4-byte UTF-8 sequences) take a
/// surrogate pair, all others a single unit.
pub open spec fn utf16_len_bytes(s: Seq<u8>) -> nat
    recommends
        valid_utf8(s),
    decreases s.len(),
    when valid_utf8(s)
{
    if s.len() == 0 {
        0
    } else {
        (if length_of_first_scalar(s) == 4 {
            2nat
        } else {
            1nat
        }) + utf16_len_bytes(pop_first_scalar(s))
    }
}

/// Splitting a valid encoding between two whole scalar runs splits the
/// UTF-16 unit count.
pub proof fn lemma_utf16_len_bytes_concat(a: Seq<u8>, b: Seq<u8>)
    requires
        valid_utf8(a),
        valid_utf8(b),
    ensures
        valid_utf8(a + b),
        utf16_len_bytes(a + b) == utf16_len_bytes(a) + utf16_len_bytes(b),
    decreases a.len(),
{
    valid_utf8_concat(a, b);
    if a.len() == 0 {
        assert(a + b =~= b);
    } else {
        let rest = pop_first_scalar(a);
        assert(rest.len() < a.len());
        lemma_utf16_len_bytes_concat(rest, b);
        assert(pop_first_scalar(a + b) =~= rest + b);
        assert(length_of_first_scalar(a + b) == length_of_first_scalar(a));
    }
}

/// Concatenating two valid encodings decodes to the concatenation of their
/// texts.
pub proof fn lemma_decode_utf8_concat(a: Seq<u8>, b: Seq<u8>)
    requires
        valid_utf8(a),
        valid_utf8(b),
    ensures
        valid_utf8(a + b),
        decode_utf8(a + b) == decode_utf8(a) + decode_utf8(b),
{
    valid_utf8_concat(a, b);
    assert((a + b).subrange(0, a.len() as int) =~= a);
    assert(partial_valid_utf8(a + b, a.len() as int));
    lemma_char_boundary_from_prefix(a + b, a.len() as int);
    decode_utf8_split(a + b, a.len() as int);
    assert((a + b).subrange(a.len() as int, (a + b).len() as int) =~= b);
}

/// All bytes below `0x80` form a valid (ASCII) UTF-8 encoding.
pub proof fn lemma_ascii_bytes_valid_utf8(s: Seq<u8>)
    requires
        forall|i: int| 0 <= i < s.len() ==> s[i] < 0x80,
    ensures
        valid_utf8(s),
{
    assert(s.subrange(0, 0) =~= Seq::<u8>::empty());
    assert(partial_valid_utf8(s, 0));
    partial_valid_utf8_extend_ascii_block(s, 0, s.len() as int);
    assert(s.subrange(0, s.len() as int) =~= s);
}

/// A UTF-8 encoding never takes more than four bytes per codepoint.
pub proof fn lemma_utf8_len_le_4_codepoints(s: Seq<u8>)
    requires
        valid_utf8(s),
    ensures
        s.len() <= 4 * decode_utf8(s).len(),
    decreases s.len(),
{
    if s.len() != 0 {
        let rest = pop_first_scalar(s);
        assert(rest.len() < s.len());
        assert(length_of_first_scalar(s) <= 4);
        lemma_utf8_len_le_4_codepoints(rest);
        assert(decode_utf8(s).len() == 1 + decode_utf8(rest).len());
    }
}

/// The counts produced by one scan of a byte run.
pub struct Utf8Counts {
    /// Number of Unicode scalars encoded.
    pub codepoints: usize,
    /// Number of UTF-16 code units the same text would take.
    pub utf16_units: usize,
}

/// Validates `s` as UTF-8 and counts its codepoints in one pass.
///
/// Returns `None` exactly when the bytes are not a valid UTF-8 encoding.
pub fn scan_utf8(s: &[u8]) -> (r: Option<Utf8Counts>)
    ensures
        r.is_some() == valid_utf8(s@),
        match r {
            Some(c) => {
                &&& c.codepoints == decode_utf8(s@).len()
                &&& c.utf16_units == utf16_len_bytes(s@)
            },
            None => true,
        },
{
    let len = s.len();
    let mut i: usize = 0;
    let mut cp: usize = 0;
    let mut units: usize = 0;

    while i < len
        invariant
            len == s@.len(),
            i <= len,
            cp <= i,
            units <= i,
            partial_valid_utf8(s@, i as int),
            cp == decode_utf8(s@.subrange(0, i as int)).len(),
            units == utf16_len_bytes(s@.subrange(0, i as int)),
        decreases len - i,
    {
        let ghost rest = s@.subrange(i as int, len as int);
        let b0 = s[i];
        assert(rest[0] == b0);

        let w: usize;
        if b0 < 0x80 {
            w = 1;
            proof {
                assert(is_leading_byte_width_1(b0));
                assert(valid_first_scalar(rest));
                assert(length_of_first_scalar(rest) == 1);
            }
        } else if 0xc2 <= b0 && b0 <= 0xdf {
            if len - i < 2 {
                proof {
                    assert(!valid_leading_and_continuation_bytes_first_codepoint(rest));
                    lemma_rest_invalid(s@, i as int);
                }
                return None;
            }
            let b1 = s[i + 1];
            assert(rest[1] == b1);
            if !(0x80 <= b1 && b1 <= 0xbf) {
                proof {
                    assert(!valid_leading_and_continuation_bytes_first_codepoint(rest));
                    lemma_rest_invalid(s@, i as int);
                }
                return None;
            }
            w = 2;
            proof {
                assert(decode_first_codepoint(rest) == codepoint_width_2(b0, b1));
                assert({
                    let c = ((b0 & 0x1F) as u32) << 6 | ((b1 & 0x3F) as u32);
                    0x80 <= c <= 0x7ff
                }) by (bit_vector)
                    requires
                        0xc2 <= b0 <= 0xdf,
                        0x80 <= b1 <= 0xbf,
                ;
                assert(valid_first_scalar(rest));
                assert(length_of_first_scalar(rest) == 2);
            }
        } else if 0xe0 <= b0 && b0 <= 0xef {
            if len - i < 3 {
                proof {
                    assert(!valid_leading_and_continuation_bytes_first_codepoint(rest));
                    lemma_rest_invalid(s@, i as int);
                }
                return None;
            }
            let b1 = s[i + 1];
            let b2 = s[i + 2];
            assert(rest[1] == b1 && rest[2] == b2);
            if !(0x80 <= b1 && b1 <= 0xbf) || !(0x80 <= b2 && b2 <= 0xbf) {
                proof {
                    assert(!valid_leading_and_continuation_bytes_first_codepoint(rest));
                    lemma_rest_invalid(s@, i as int);
                }
                return None;
            }
            proof {
                assert(decode_first_codepoint(rest) == codepoint_width_3(b0, b1, b2));
            }
            if b0 == 0xe0 && b1 < 0xa0 {
                proof {
                    assert({
                        let c = ((b0 & 0x0F) as u32) << 12 | ((b1 & 0x3F) as u32) << 6 | ((b2
                            & 0x3F) as u32);
                        c < 0x800
                    }) by (bit_vector)
                        requires
                            b0 == 0xe0,
                            0x80 <= b1 < 0xa0,
                            0x80 <= b2 <= 0xbf,
                    ;
                    assert(!valid_first_scalar(rest));
                    lemma_rest_invalid(s@, i as int);
                }
                return None;
            }
            if b0 == 0xed && b1 >= 0xa0 {
                proof {
                    assert({
                        let c = ((b0 & 0x0F) as u32) << 12 | ((b1 & 0x3F) as u32) << 6 | ((b2
                            & 0x3F) as u32);
                        0xd800 <= c <= 0xdfff
                    }) by (bit_vector)
                        requires
                            b0 == 0xed,
                            0xa0 <= b1 <= 0xbf,
                            0x80 <= b2 <= 0xbf,
                    ;
                    assert(!valid_first_scalar(rest));
                    lemma_rest_invalid(s@, i as int);
                }
                return None;
            }
            w = 3;
            proof {
                assert({
                    let c = ((b0 & 0x0F) as u32) << 12 | ((b1 & 0x3F) as u32) << 6 | ((b2
                        & 0x3F) as u32);
                    &&& (b0 != 0xe0 || b1 >= 0xa0) ==> 0x800 <= c
                    &&& (b0 != 0xed || b1 < 0xa0) ==> !(0xd800 <= c <= 0xdfff)
                    &&& c <= 0xffff
                }) by (bit_vector)
                    requires
                        0xe0 <= b0 <= 0xef,
                        0x80 <= b1 <= 0xbf,
                        0x80 <= b2 <= 0xbf,
                ;
                assert(valid_first_scalar(rest));
                assert(length_of_first_scalar(rest) == 3);
            }
        } else if 0xf0 <= b0 && b0 <= 0xf4 {
            if len - i < 4 {
                proof {
                    assert(!valid_leading_and_continuation_bytes_first_codepoint(rest));
                    lemma_rest_invalid(s@, i as int);
                }
                return None;
            }
            let b1 = s[i + 1];
            let b2 = s[i + 2];
            let b3 = s[i + 3];
            assert(rest[1] == b1 && rest[2] == b2 && rest[3] == b3);
            if !(0x80 <= b1 && b1 <= 0xbf) || !(0x80 <= b2 && b2 <= 0xbf) || !(0x80 <= b3 && b3
                <= 0xbf) {
                proof {
                    assert(!valid_leading_and_continuation_bytes_first_codepoint(rest));
                    lemma_rest_invalid(s@, i as int);
                }
                return None;
            }
            proof {
                assert(decode_first_codepoint(rest) == codepoint_width_4(b0, b1, b2, b3));
            }
            if (b0 == 0xf0 && b1 < 0x90) || (b0 == 0xf4 && b1 >= 0x90) {
                proof {
                    assert({
                        let c = ((b0 & 0x07) as u32) << 18 | ((b1 & 0x3F) as u32) << 12 | ((b2
                            & 0x3F) as u32) << 6 | ((b3 & 0x3F) as u32);
                        !(0x10000 <= c <= 0x10ffff)
                    }) by (bit_vector)
                        requires
                            (b0 == 0xf0 && 0x80 <= b1 < 0x90) || (b0 == 0xf4 && 0x90 <= b1 <= 0xbf),
                            0x80 <= b2 <= 0xbf,
                            0x80 <= b3 <= 0xbf,
                    ;
                    assert(!valid_first_scalar(rest));
                    lemma_rest_invalid(s@, i as int);
                }
                return None;
            }
            w = 4;
            proof {
                assert({
                    let c = ((b0 & 0x07) as u32) << 18 | ((b1 & 0x3F) as u32) << 12 | ((b2
                        & 0x3F) as u32) << 6 | ((b3 & 0x3F) as u32);
                    0x10000 <= c <= 0x10ffff
                }) by (bit_vector)
                    requires
                        0xf0 <= b0 <= 0xf4,
                        b0 == 0xf0 ==> b1 >= 0x90,
                        b0 == 0xf4 ==> b1 < 0x90,
                        0x80 <= b1 <= 0xbf,
                        0x80 <= b2 <= 0xbf,
                        0x80 <= b3 <= 0xbf,
                ;
                assert(valid_first_scalar(rest));
                assert(length_of_first_scalar(rest) == 4);
            }
        } else {
            // 0x80..=0xc1 and 0xf5..=0xff can never begin a scalar: bare
            // continuation bytes and 0xf8..=0xff match no leading pattern,
            // 0xc0/0xc1 would be overlong, and 0xf5..=0xf7 would exceed
            // the last Unicode plane.
            proof {
                if 0xc0 <= b0 && b0 <= 0xc1 {
                    if rest.len() >= 2 && is_continuation_byte(rest[1]) {
                        let b1 = rest[1];
                        assert(decode_first_codepoint(rest) == codepoint_width_2(b0, b1));
                        assert({
                            let c = ((b0 & 0x1F) as u32) << 6 | ((b1 & 0x3F) as u32);
                            c < 0x80
                        }) by (bit_vector)
                            requires
                                0xc0 <= b0 <= 0xc1,
                                0x80 <= b1 <= 0xbf,
                        ;
                        assert(!valid_first_scalar(rest));
                    } else {
                        assert(!valid_leading_and_continuation_bytes_first_codepoint(rest));
                    }
                } else if 0xf5 <= b0 && b0 <= 0xf7 {
                    if rest.len() >= 4 && is_continuation_byte(rest[1]) && is_continuation_byte(
                        rest[2],
                    ) && is_continuation_byte(rest[3]) {
                        let b1 = rest[1];
                        let b2 = rest[2];
                        let b3 = rest[3];
                        assert(decode_first_codepoint(rest) == codepoint_width_4(b0, b1, b2, b3));
                        assert({
                            let c = ((b0 & 0x07) as u32) << 18 | ((b1 & 0x3F) as u32) << 12 | ((b2
                                & 0x3F) as u32) << 6 | ((b3 & 0x3F) as u32);
                            c > 0x10ffff
                        }) by (bit_vector)
                            requires
                                0xf5 <= b0 <= 0xf7,
                                0x80 <= b1 <= 0xbf,
                                0x80 <= b2 <= 0xbf,
                                0x80 <= b3 <= 0xbf,
                        ;
                        assert(!valid_first_scalar(rest));
                    } else {
                        assert(!valid_leading_and_continuation_bytes_first_codepoint(rest));
                    }
                } else {
                    assert(!valid_leading_and_continuation_bytes_first_codepoint(rest));
                }
                lemma_rest_invalid(s@, i as int);
            }
            return None;
        }

        proof {
            lemma_scan_step(s@, i as int, w as int);
        }
        cp = cp + 1;
        if w == 4 {
            units = units + 2;
        } else {
            units = units + 1;
        }
        i = i + w;
    }

    proof {
        assert(s@.subrange(0, len as int) =~= s@);
    }
    Some(Utf8Counts { codepoints: cp, utf16_units: units })
}

/// A whole byte run is invalid once a valid prefix is followed by an
/// invalid first scalar.
proof fn lemma_rest_invalid(s: Seq<u8>, i: int)
    requires
        partial_valid_utf8(s, i),
        i < s.len(),
        !valid_first_scalar(s.subrange(i, s.len() as int)),
    ensures
        !valid_utf8(s),
{
    assert(!valid_utf8(s.subrange(i, s.len() as int)));
    partial_valid_partial_invalid_utf8(s, i);
}

/// Extending a valid prefix by one whole scalar extends the counts by that
/// scalar's contribution.
proof fn lemma_scan_step(s: Seq<u8>, i: int, w: int)
    requires
        partial_valid_utf8(s, i),
        i + w <= s.len(),
        valid_first_scalar(s.subrange(i, s.len() as int)),
        w == length_of_first_scalar(s.subrange(i, s.len() as int)),
    ensures
        partial_valid_utf8(s, i + w),
        decode_utf8(s.subrange(0, i + w)).len() == decode_utf8(s.subrange(0, i)).len() + 1,
        utf16_len_bytes(s.subrange(0, i + w)) == utf16_len_bytes(s.subrange(0, i)) + (
        if w == 4 {
            2int
        } else {
            1int
        }),
{
    let rest = s.subrange(i, s.len() as int);
    let pre = s.subrange(0, i);
    let mid = s.subrange(i, i + w);
    partial_valid_utf8_extend(s, i);

    assert(mid =~= rest.subrange(0, w));
    assert(mid.len() == w);
    assert(mid[0] == rest[0]);
    assert(w >= 2 ==> mid[1] == rest[1]);
    assert(w >= 3 ==> mid[2] == rest[2]);
    assert(w >= 4 ==> mid[3] == rest[3]);
    assert(valid_leading_and_continuation_bytes_first_codepoint(mid));
    assert(decode_first_codepoint(mid) == decode_first_codepoint(rest));
    assert(length_of_first_codepoint(mid) == length_of_first_codepoint(rest));
    assert(valid_first_scalar(mid));
    assert(length_of_first_scalar(mid) == w);
    assert(pop_first_scalar(mid) =~= Seq::<u8>::empty());
    assert(pop_first_scalar(mid) == Seq::<u8>::empty());
    assert(valid_utf8(Seq::<u8>::empty()));
    assert(valid_utf8(mid));
    assert(decode_utf8(Seq::<u8>::empty()) == Seq::<char>::empty());
    assert(decode_utf8(mid) == seq![decode_first_scalar(mid) as char] + decode_utf8(
        Seq::<u8>::empty(),
    ));
    assert(decode_utf8(mid).len() == 1);
    assert(utf16_len_bytes(Seq::<u8>::empty()) == 0);
    assert(utf16_len_bytes(mid) == if w == 4 {
        2int
    } else {
        1int
    });

    assert(valid_utf8(pre));
    lemma_utf16_len_bytes_concat(pre, mid);
    assert(pre + mid =~= s.subrange(0, i + w));

    is_char_boundary_start_end_of_seq(s.subrange(0, i + w));
    assert(valid_utf8(s.subrange(0, i + w)));
    is_char_boundary_iff_not_is_continuation_byte(s.subrange(0, i + w), i);
    assert(s.subrange(0, i + w)[i] == rest[0]);
    assert(!is_continuation_byte(rest[0]));
    assert(is_char_boundary(s.subrange(0, i + w), i));
    decode_utf8_split(s.subrange(0, i + w), i);
    assert(s.subrange(0, i + w).subrange(0, i) =~= pre);
    assert(s.subrange(0, i + w).subrange(i, i + w) =~= mid);
}

/// Appends the UTF-8 encoding of one Unicode scalar value.
pub fn push_utf8_scalar(out: &mut Vec<u8>, u: u32)
    requires
        is_scalar(u),
    ensures
        final(out)@ == old(out)@ + encode_scalar(u),
{
    let ghost base = out@;
    if u < 0x80 {
        proof {
            assert(u & 0x7F < 256) by (bit_vector);
        }
        out.push((u & 0x7F) as u8);
    } else if u < 0x800 {
        proof {
            assert((u >> 6) & 0x1F < 256 && u & 0x3F < 256) by (bit_vector);
        }
        out.push(0xC0 | ((u >> 6) & 0x1F) as u8);
        out.push(0x80 | (u & 0x3F) as u8);
    } else if u < 0x10000 {
        proof {
            assert((u >> 12) & 0x0F < 256 && (u >> 6) & 0x3F < 256 && u & 0x3F < 256)
                by (bit_vector);
        }
        out.push(0xE0 | ((u >> 12) & 0x0F) as u8);
        out.push(0x80 | ((u >> 6) & 0x3F) as u8);
        out.push(0x80 | (u & 0x3F) as u8);
    } else {
        proof {
            assert((u >> 18) & 0x7 < 256 && (u >> 12) & 0x3F < 256 && (u >> 6) & 0x3F < 256 && u
                & 0x3F < 256) by (bit_vector);
        }
        out.push(0xF0 | ((u >> 18) & 0x7) as u8);
        out.push(0x80 | ((u >> 12) & 0x3F) as u8);
        out.push(0x80 | ((u >> 6) & 0x3F) as u8);
        out.push(0x80 | (u & 0x3F) as u8);
    }
    proof {
        assert(out@ =~= base + encode_scalar(u));
    }
}

/// Relies on `str::from_utf8`: it returns `Ok` exactly on valid UTF-8 and
/// then views the same bytes as text.
#[verifier::external_body]
pub fn bytes_as_str(v: &[u8]) -> (r: Option<&str>)
    ensures
        r.is_some() == valid_utf8(v@),
        match r {
            Some(s) => s.spec_bytes() == v@,
            None => true,
        },
{
    core::str::from_utf8(v).ok()
}

/// Copies valid UTF-8 bytes into an owned string.
pub fn string_from_utf8(v: &[u8]) -> (r: String)
    requires
        valid_utf8(v@),
    ensures
        r@ == decode_utf8(v@),
{
    let s = bytes_as_str(v);
    match s {
        Some(s) => {
            proof {
                encode_utf8_decode_utf8(s@);
            }
            s.to_owned()
        },
        None => {
            proof {
                assert(false);
            }
            String::new()
        },
    }
}

/// The UTF-8 bytes of `s`, owned.
pub fn text_bytes(s: &str) -> (r: Vec<u8>)
    ensures
        r@ == s.spec_bytes(),
{
    vstd::slice::slice_to_vec(s.as_bytes())
}

/// A copy of a byte buffer.
pub fn clone_bytes(v: &Vec<u8>) -> (r: Vec<u8>)
    ensures
        r@ == v@,
{
    vstd::slice::slice_to_vec(v.as_slice())
}

/// Appends the UTF-8 bytes of `s` to `out`.
pub fn push_str_bytes(out: &mut Vec<u8>, s: &str)
    ensures
        final(out)@ == old(out)@ + s.spec_bytes(),
{
    let b = s.as_bytes();
    out.extend_from_slice(b);
}

/// Counts the UTF-16 code units of `text`, giving up once the running count
/// passes `stop_counting_after`.
///
/// The result equals the exact unit count whenever that count is within the
/// bound; past the bound only the overshoot is promised.
pub fn utf16_codepoints(text: &str, stop_counting_after: usize) -> (r: usize)
    ensures
        utf16_len_bytes(text.spec_bytes()) <= stop_counting_after ==> r == utf16_len_bytes(
            text.spec_bytes(),
        ),
        utf16_len_bytes(text.spec_bytes()) > stop_counting_after ==> r > stop_counting_after,
{
    proof {
        encode_utf8_valid_utf8(text@);
    }
    let bytes = text.as_bytes();
    let len = bytes.len();
    let mut i: usize = 0;
    let mut units: usize = 0;

    while i < len
        invariant
            len == bytes@.len(),
            bytes@ == text.spec_bytes(),
            valid_utf8(bytes@),
            i <= len,
            units <= stop_counting_after,
            partial_valid_utf8(bytes@, i as int),
            units == utf16_len_bytes(bytes@.subrange(0, i as int)),
            units <= i,
        decreases len - i,
    {
        let ghost rest = bytes@.subrange(i as int, len as int);
        proof {
            is_char_boundary_start_end_of_seq(bytes@);
            lemma_valid_utf8_tail(bytes@, i as int);
        }
        let b0 = bytes[i];
        assert(rest[0] == b0);
        let w: usize;
        if b0 < 0x80 {
            w = 1;
        } else if b0 < 0xe0 {
            w = 2;
        } else if b0 < 0xf0 {
            w = 3;
        } else {
            w = 4;
        }
        proof {
            assert(valid_first_scalar(rest));
            assert(length_of_first_scalar(rest) == w);
            lemma_scan_step(bytes@, i as int, w as int);
        }
        let step: usize = if w == 4 {
            2
        } else {
            1
        };
        if units + step > stop_counting_after {
            proof {
                lemma_utf16_prefix_monotone(bytes@, i + w, len as int);
            }
            return units + step;
        }
        units = units + step;
        i = i + w;
    }
    proof {
        assert(bytes@.subrange(0, len as int) =~= bytes@);
    }
    units
}

/// In a valid encoding, the run from any scalar boundary onward is itself
/// valid.
proof fn lemma_valid_utf8_tail(s: Seq<u8>, i: int)
    requires
        valid_utf8(s),
        partial_valid_utf8(s, i),
        i <= s.len(),
    ensures
        valid_utf8(s.subrange(i, s.len() as int)),
        i < s.len() ==> valid_first_scalar(s.subrange(i, s.len() as int)),
{
    lemma_char_boundary_from_prefix(s, i);
    valid_utf8_split(s, i);
    if i < s.len() {
        assert(valid_utf8(s.subrange(i, s.len() as int)));
        assert(s.subrange(i, s.len() as int).len() != 0);
    }
}

/// A position with a valid prefix is a character boundary of the whole
/// valid sequence.
proof fn lemma_char_boundary_from_prefix(s: Seq<u8>, i: int)
    requires
        valid_utf8(s),
        partial_valid_utf8(s, i),
        0 <= i <= s.len(),
    ensures
        is_char_boundary(s, i),
    decreases s.len(),
{
    if i == 0 {
    } else {
        let pre = s.subrange(0, i);
        assert(valid_utf8(pre));
        assert(pre.len() != 0);
        let k = length_of_first_scalar(pre);
        assert(valid_first_scalar(pre));
        assert(valid_first_scalar(s)) by {
            assert(s.len() != 0);
        }
        assert(length_of_first_scalar(s) == k) by {
            lemma_first_scalar_same_prefix(pre, s);
        }
        let s2 = pop_first_scalar(s);
        let pre2 = pop_first_scalar(pre);
        assert(pre2 =~= s2.subrange(0, i - k));
        assert(partial_valid_utf8(s2, i - k));
        lemma_char_boundary_from_prefix(s2, i - k);
    }
}

/// The first scalar of a sequence is decided by its leading bytes alone, so
/// a prefix long enough to hold it agrees with the full sequence.
proof fn lemma_first_scalar_same_prefix(pre: Seq<u8>, s: Seq<u8>)
    requires
        valid_first_scalar(pre),
        pre.len() <= s.len(),
        forall|j: int| 0 <= j < pre.len() ==> pre[j] == s[j],
    ensures
        valid_first_scalar(s),
        length_of_first_scalar(s) == length_of_first_scalar(pre),
        decode_first_codepoint(s) == decode_first_codepoint(pre),
{
    assert(pre.len() >= length_of_first_codepoint(pre));
    assert(pre[0] == s[0]);
    assert(pre.len() >= 2 ==> pre[1] == s[1]);
    assert(pre.len() >= 3 ==> pre[2] == s[2]);
    assert(pre.len() >= 4 ==> pre[3] == s[3]);
}

/// Unit counts only grow as more of a valid encoding is taken.
proof fn lemma_utf16_prefix_monotone(s: Seq<u8>, i: int, j: int)
    requires
        valid_utf8(s),
        partial_valid_utf8(s, i),
        i <= j <= s.len(),
        j == s.len(),
    ensures
        utf16_len_bytes(s) >= utf16_len_bytes(s.subrange(0, i)),
{
    lemma_char_boundary_from_prefix(s, i);
    valid_utf8_split(s, i);
    lemma_utf16_len_bytes_concat(s.subrange(0, i), s.subrange(i, s.len() as int));
    assert(s.subrange(0, i) + s.subrange(i, s.len() as int) =~= s);
}

} // verus!
