//! The decode-error type.
//!
//! Every malformed-input failure carries a human-readable message, an
//! optional item kind (set by the outermost wrapping call, e.g. "VarInt" or
//! "string"), and a dotted field path from the outermost record to the
//! failing leaf, accumulated innermost-first as the error propagates
//! outward.

use vstd::prelude::*;
use vstd::string::StringSliceAdditionalSpecFns;
use vstd::utf8::{
    decode_utf8, encode_utf8, encode_utf8_decode_utf8, encode_utf8_valid_utf8, valid_utf8,
};

use crate::ctfe_format::{dec_digits, lemma_dec_digits_ascii, push_decimal};
use crate::text::{
    lemma_ascii_bytes_valid_utf8, lemma_decode_utf8_concat, push_str_bytes, string_from_utf8,
};

verus! {

/// One step of the field path from the outermost record to a failing leaf.
#[derive(Debug, Copy, Clone)]
pub enum ItemPathPart {
    /// A named record field.
    Named(&'static str),
    /// An index into a repeated field.
    Indexed(usize),
}

/// An error message: either borrowed static text or owned text built at
/// failure time.
#[derive(Debug, Clone)]
pub enum ErrorText {
    /// A fixed message.
    Fixed(&'static str),
    /// A message rendered for one failure.
    Owned(String),
}

impl ErrorText {
    /// The UTF-8 bytes of the message.
    pub open spec fn bytes(self) -> Seq<u8> {
        match self {
            ErrorText::Fixed(s) => s.spec_bytes(),
            ErrorText::Owned(s) => encode_utf8(s@),
        }
    }
}

/// The UTF-8 bytes of one rendered path part.
pub open spec fn part_bytes(p: ItemPathPart) -> Seq<u8> {
    match p {
        ItemPathPart::Named(s) => s.spec_bytes(),
        ItemPathPart::Indexed(n) => dec_digits(n as nat),
    }
}

/// The rendered form of the first `k` parts of a path, outermost-last, so
/// display order is innermost-last: parts `k-1` down to `0`, dot-separated.
pub open spec fn path_render(path: Seq<ItemPathPart>, k: int) -> Seq<u8>
    decreases k,
{
    if k <= 0 {
        Seq::<u8>::empty()
    } else {
        part_bytes(path[k - 1]) + (if k > 1 {
            seq![46u8]
        } else {
            Seq::<u8>::empty()
        }) + path_render(path, k - 1)
    }
}

/// A precise, localized decode failure.
#[derive(Debug, Clone)]
pub struct DecodeError {
    /// Field path, innermost part first.
    pub item_path: Vec<ItemPathPart>,
    /// The wire kind being read when the failure happened.
    pub item_kind: Option<&'static str>,
    /// What went wrong.
    pub message: ErrorText,
}

impl DecodeError {
    /// The UTF-8 bytes of the full rendered description.
    pub open spec fn describe_bytes(self) -> Seq<u8> {
        ("error while reading ").spec_bytes() + (match self.item_kind {
            Some(k) => k.spec_bytes() + (" at ").spec_bytes(),
            None => Seq::<u8>::empty(),
        }) + ("`").spec_bytes() + path_render(self.item_path@, self.item_path@.len() as int) + (
        "`: ").spec_bytes() + self.message.bytes()
    }

    /// An error with the given message and no kind or path yet.
    pub fn new_cow(message: ErrorText) -> (r: Self)
        ensures
            r.item_path@ == Seq::<ItemPathPart>::empty(),
            r.item_kind is None,
            r.message == message,
    {
        DecodeError { item_path: Vec::new(), item_kind: None, message }
    }

    /// An error with a fixed message.
    pub fn new_static(message: &'static str) -> (r: Self)
        ensures
            r.item_path@ == Seq::<ItemPathPart>::empty(),
            r.item_kind is None,
            r.message == ErrorText::Fixed(message),
    {
        Self::new_cow(ErrorText::Fixed(message))
    }

    /// An error with a message rendered at failure time.
    pub fn new_string(message: String) -> (r: Self)
        ensures
            r.item_path@ == Seq::<ItemPathPart>::empty(),
            r.item_kind is None,
            r.message == ErrorText::Owned(message),
    {
        Self::new_cow(ErrorText::Owned(message))
    }

    /// Sets the item kind.
    pub fn set_kind(&mut self, kind: &'static str)
        ensures
            final(self).item_kind == Some(kind),
            final(self).item_path == old(self).item_path,
            final(self).message == old(self).message,
    {
        self.item_kind = Some(kind);
    }

    /// This error with the item kind set.
    pub fn with_kind(self, kind: &'static str) -> (r: Self)
        ensures
            r.item_kind == Some(kind),
            r.item_path == self.item_path,
            r.message == self.message,
    {
        let mut e = self;
        e.set_kind(kind);
        e
    }

    /// Pushes one more path part, one level further out.
    pub fn push_path(&mut self, scope: ItemPathPart)
        ensures
            final(self).item_path@ == old(self).item_path@.push(scope),
            final(self).item_kind == old(self).item_kind,
            final(self).message == old(self).message,
    {
        self.item_path.push(scope);
    }

    /// This error with one more path part pushed.
    pub fn with_path(self, scope: ItemPathPart) -> (r: Self)
        ensures
            r.item_path@ == self.item_path@.push(scope),
            r.item_kind == self.item_kind,
            r.message == self.message,
    {
        let mut e = self;
        e.push_path(scope);
        e
    }

    /// Stamps the item kind onto the error of a completed decode step.
    pub fn kinded<R>(kind: &'static str, r: Result<R, DecodeError>) -> (out: Result<
        R,
        DecodeError,
    >)
        ensures
            match r {
                Ok(_) => out == r,
                Err(e) => out matches Err(oe) && oe.item_kind == Some(kind) && oe.item_path
                    == e.item_path && oe.message == e.message,
            },
    {
        match r {
            Ok(v) => Ok(v),
            Err(e) => Err(e.with_kind(kind)),
        }
    }

    /// Stamps one path part onto the error of a completed decode step.
    pub fn pathed<R>(scope: ItemPathPart, r: Result<R, DecodeError>) -> (out: Result<
        R,
        DecodeError,
    >)
        ensures
            match r {
                Ok(_) => out == r,
                Err(e) => out matches Err(oe) && oe.item_path@ == e.item_path@.push(scope)
                    && oe.item_kind == e.item_kind && oe.message == e.message,
            },
    {
        match r {
            Ok(v) => Ok(v),
            Err(e) => Err(e.with_path(scope)),
        }
    }

    /// Renders the full description, e.g.
    /// ``error while reading VarInt at `a.b`: too big``.
    pub fn describe(&self) -> (r: String)
        ensures
            valid_utf8(self.describe_bytes()),
            r@ == decode_utf8(self.describe_bytes()),
    {
        let mut buf: Vec<u8> = Vec::new();
        proof {
            assert(buf@ =~= Seq::<u8>::empty());
            lit_valid("error while reading ");
        }
        push_str_bytes(&mut buf, "error while reading ");
        proof {
            assert(buf@ =~= ("error while reading ").spec_bytes());
        }
        match self.item_kind {
            Some(k) => {
                proof {
                    lit_valid(k);
                    lit_valid(" at ");
                    lemma_decode_utf8_concat(buf@, k.spec_bytes());
                    lemma_decode_utf8_concat(buf@ + k.spec_bytes(), (" at ").spec_bytes());
                }
                push_str_bytes(&mut buf, k);
                push_str_bytes(&mut buf, " at ");
            },
            None => {},
        }
        proof {
            lit_valid("`");
            lemma_decode_utf8_concat(buf@, ("`").spec_bytes());
        }
        push_str_bytes(&mut buf, "`");

        let ghost mid = buf@;
        let n = self.item_path.len();
        let mut k = n;
        proof {
            assert(path_render(self.item_path@, 0) =~= Seq::<u8>::empty());
            assert(path_render(self.item_path@, n as int) =~= path_render(
                self.item_path@,
                n as int,
            ) + path_render(self.item_path@, 0));
        }
        while k > 0
            invariant
                k <= n,
                n == self.item_path@.len(),
                valid_utf8(buf@),
                mid + path_render(self.item_path@, n as int) =~= buf@ + path_render(
                    self.item_path@,
                    k as int,
                ),
            decreases k,
        {
            let ghost before = buf@;
            match self.item_path[k - 1] {
                ItemPathPart::Named(s) => {
                    proof {
                        lit_valid(s);
                        lemma_decode_utf8_concat(buf@, s.spec_bytes());
                    }
                    push_str_bytes(&mut buf, s);
                },
                ItemPathPart::Indexed(idx) => {
                    let mut digits: Vec<u8> = Vec::new();
                    push_decimal(&mut digits, idx as u128);
                    proof {
                        assert(digits@ =~= dec_digits(idx as nat));
                        lemma_dec_digits_ascii(idx as nat);
                        lemma_ascii_bytes_valid_utf8(digits@);
                        lemma_decode_utf8_concat(buf@, digits@);
                    }
                    buf.append(&mut digits);
                },
            }
            proof {
                assert(before + part_bytes(self.item_path@[k - 1]) =~= buf@);
            }
            if k > 1 {
                proof {
                    lemma_ascii_bytes_valid_utf8(seq![46u8]);
                    lemma_decode_utf8_concat(buf@, seq![46u8]);
                }
                buf.push(46);
            }
            proof {
                let kk = k as int;
                let p = self.item_path@;
                assert(path_render(p, kk) == part_bytes(p[kk - 1]) + (if kk > 1 {
                    seq![46u8]
                } else {
                    Seq::<u8>::empty()
                }) + path_render(p, kk - 1));
                if k > 1 {
                    assert(buf@ =~= before + part_bytes(p[kk - 1]) + seq![46u8]);
                } else {
                    assert(buf@ =~= before + part_bytes(p[kk - 1]));
                }
                assert(before + path_render(p, kk) =~= buf@ + path_render(p, kk - 1));
                assert(mid + path_render(p, n as int) =~= buf@ + path_render(p, kk - 1));
            }
            k = k - 1;
        }
        proof {
            assert(path_render(self.item_path@, 0) =~= Seq::<u8>::empty());
            assert(buf@ =~= mid + path_render(self.item_path@, n as int));
            lit_valid("`: ");
            lemma_decode_utf8_concat(buf@, ("`: ").spec_bytes());
        }
        push_str_bytes(&mut buf, "`: ");
        match &self.message {
            ErrorText::Fixed(s) => {
                proof {
                    lit_valid(*s);
                    lemma_decode_utf8_concat(buf@, s.spec_bytes());
                }
                push_str_bytes(&mut buf, s);
            },
            ErrorText::Owned(s) => {
                proof {
                    encode_utf8_valid_utf8(s@);
                    lemma_decode_utf8_concat(buf@, encode_utf8(s@));
                }
                push_str_bytes(&mut buf, s.as_str());
            },
        }
        proof {
            assert(buf@ =~= self.describe_bytes());
        }
        string_from_utf8(buf.as_slice())
    }
}

/// The UTF-8 bytes of any text are a valid encoding.
proof fn lit_valid(s: &str)
    ensures
        valid_utf8(s.spec_bytes()),
{
    encode_utf8_valid_utf8(s@);
}

/// The message bytes produced by [`located`].
pub open spec fn located_bytes(prefix: &str, pos: nat) -> Seq<u8> {
    prefix.spec_bytes() + (" (location: ").spec_bytes() + dec_digits(pos) + (
    " byte(s) from the packet frame start).").spec_bytes()
}

/// An error whose message names the byte offset at which decoding failed.
pub fn located(prefix: &'static str, pos: usize) -> (r: DecodeError)
    ensures
        r.item_path@ == Seq::<ItemPathPart>::empty(),
        r.item_kind is None,
        r.message matches ErrorText::Owned(m) && encode_utf8(m@) == located_bytes(
            prefix,
            pos as nat,
        ),
{
    let mut buf: Vec<u8> = Vec::new();
    proof {
        assert(buf@ =~= Seq::<u8>::empty());
        lit_valid(prefix);
        assert(Seq::<u8>::empty() + prefix.spec_bytes() =~= prefix.spec_bytes());
    }
    push_str_bytes(&mut buf, prefix);
    proof {
        lit_valid(" (location: ");
        lemma_decode_utf8_concat(buf@, (" (location: ").spec_bytes());
    }
    push_str_bytes(&mut buf, " (location: ");
    let mut digits: Vec<u8> = Vec::new();
    push_decimal(&mut digits, pos as u128);
    proof {
        assert(digits@ =~= dec_digits(pos as nat));
        lemma_dec_digits_ascii(pos as nat);
        lemma_ascii_bytes_valid_utf8(digits@);
        lemma_decode_utf8_concat(buf@, digits@);
    }
    buf.append(&mut digits);
    proof {
        lit_valid(" byte(s) from the packet frame start).");
        lemma_decode_utf8_concat(buf@, (" byte(s) from the packet frame start).").spec_bytes());
    }
    push_str_bytes(&mut buf, " byte(s) from the packet frame start).");
    proof {
        assert(buf@ =~= located_bytes(prefix, pos as nat));
    }
    let message = string_from_utf8(buf.as_slice());
    proof {
        vstd::utf8::decode_utf8_encode_utf8(buf@);
    }
    DecodeError::new_string(message)
}

/// The message bytes produced by [`unknown_packet`]: the offending id
/// and the name of the connection state whose registry refused it.
pub open spec fn unknown_packet_bytes(id: int, state: Seq<char>) -> Seq<u8> {
    ("unknown packet id ").spec_bytes() + (if id < 0 {
        seq![45u8]
    } else {
        Seq::<u8>::empty()
    }) + dec_digits(if id < 0 {
        (-id) as nat
    } else {
        id as nat
    }) + (" in the ").spec_bytes() + encode_utf8(state) + (" state").spec_bytes()
}

/// An unknown-packet error naming the offending id and the connection
/// state whose registry refused it.
pub fn unknown_packet(id: i32, state: &'static str, pos: usize) -> (r: DecodeError)
    ensures
        r.item_path@ == Seq::<ItemPathPart>::empty(),
        r.item_kind == Some("packet id"),
        r.message matches ErrorText::Owned(m) && encode_utf8(m@) == unknown_packet_bytes(
            id as int,
            state@,
        ),
{
    let mut buf: Vec<u8> = Vec::new();
    proof {
        assert(buf@ =~= Seq::<u8>::empty());
        lit_valid("unknown packet id ");
        assert(Seq::<u8>::empty() + ("unknown packet id ").spec_bytes() =~= (
        "unknown packet id ").spec_bytes());
    }
    push_str_bytes(&mut buf, "unknown packet id ");
    if id < 0 {
        let ghost b0 = buf@;
        proof {
            lemma_ascii_bytes_valid_utf8(seq![45u8]);
            lemma_decode_utf8_concat(buf@, seq![45u8]);
        }
        buf.push(45);
        proof {
            assert(buf@ =~= b0 + seq![45u8]);
        }
    }
    let magnitude: u128 = if id < 0 {
        if id == i32::MIN {
            0x8000_0000u128
        } else {
            (-id) as u128
        }
    } else {
        id as u128
    };
    let mut digits: Vec<u8> = Vec::new();
    push_decimal(&mut digits, magnitude);
    proof {
        assert(digits@ =~= dec_digits(magnitude as nat));
        lemma_dec_digits_ascii(magnitude as nat);
        lemma_ascii_bytes_valid_utf8(digits@);
        lemma_decode_utf8_concat(buf@, digits@);
    }
    buf.append(&mut digits);
    proof {
        lit_valid(" in the ");
        lemma_decode_utf8_concat(buf@, (" in the ").spec_bytes());
    }
    push_str_bytes(&mut buf, " in the ");
    proof {
        lit_valid(state);
        lemma_decode_utf8_concat(buf@, state.spec_bytes());
    }
    push_str_bytes(&mut buf, state);
    proof {
        lit_valid(" state");
        lemma_decode_utf8_concat(buf@, (" state").spec_bytes());
    }
    push_str_bytes(&mut buf, " state");
    proof {
        assert(buf@ =~= unknown_packet_bytes(id as int, state@));
    }
    let message = string_from_utf8(buf.as_slice());
    proof {
        vstd::utf8::decode_utf8_encode_utf8(buf@);
    }
    DecodeError::new_string(message).with_kind("packet id")
}

} // verus!
