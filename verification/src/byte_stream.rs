//! A bounds-checked read cursor over a borrowed byte slice, and byte-sink
//! helpers used by encoders.
//!
//! A [`ByteCursor`] is an immutable, cheaply-cloned read position: every
//! read either returns data and advances, or returns `None` when too few
//! bytes remain, letting streaming callers report "need more input" rather
//! than failing. Position can be saved and restored, which is how composite
//! records re-enter a field from a stored offset.

use vstd::prelude::*;
use vstd::slice::{slice_subrange, slice_to_vec};
use vstd::string::StringSliceAdditionalSpecFns;
use vstd::utf8::{decode_utf8, valid_utf8};

use crate::ctfe_format::{dec_digits, lemma_dec_digits_ascii, push_decimal};
use crate::text::{
    lemma_ascii_bytes_valid_utf8, lemma_decode_utf8_concat, push_str_bytes, scan_utf8,
    string_from_utf8, utf16_len_bytes, Utf8Counts,
};

verus! {

/// A read position over a borrowed byte slice.
///
/// Reads advance the position monotonically; `set_pos` alone can move it
/// back, which decoders use to replay a validated region.
#[derive(Debug, Clone, Copy)]
pub struct ByteCursor<'a> {
    /// The whole backing buffer.
    pub original: &'a [u8],
    /// How many bytes have been consumed.
    pub pos: usize,
}

impl<'a> ByteCursor<'a> {
    /// The position never passes the end of the buffer.
    pub open spec fn wf(self) -> bool {
        self.pos <= self.original@.len()
    }

    /// The bytes not yet consumed.
    pub open spec fn remaining_view(self) -> Seq<u8> {
        self.original@.subrange(self.pos as int, self.original@.len() as int)
    }

    /// A cursor at the start of `buf`.
    pub fn new(buf: &'a [u8]) -> (r: Self)
        ensures
            r.wf(),
            r.original@ == buf@,
            r.pos == 0,
    {
        ByteCursor { original: buf, pos: 0 }
    }

    /// The whole backing buffer.
    pub fn original(&self) -> (r: &'a [u8])
        ensures
            r@ == self.original@,
    {
        self.original
    }

    /// The bytes not yet consumed.
    pub fn remaining(&self) -> (r: &'a [u8])
        requires
            self.wf(),
        ensures
            r@ == self.remaining_view(),
    {
        slice_subrange(self.original, self.pos, self.original.len())
    }

    /// How many bytes have been consumed.
    pub fn pos(&self) -> (r: usize)
        ensures
            r == self.pos,
    {
        self.pos
    }

    /// Moves the read position to `pos`.
    pub fn set_pos(&mut self, pos: usize)
        requires
            pos <= old(self).original@.len(),
        ensures
            final(self).original@ == old(self).original@,
            final(self).pos == pos,
            final(self).wf(),
    {
        self.pos = pos;
    }

    /// This cursor with the read position moved to `pos`.
    pub fn with_pos(&self, pos: usize) -> (r: Self)
        requires
            pos <= self.original@.len(),
        ensures
            r.original@ == self.original@,
            r.pos == pos,
            r.wf(),
    {
        ByteCursor { original: self.original, pos }
    }

    /// How many bytes remain.
    pub fn len(&self) -> (r: usize)
        requires
            self.wf(),
        ensures
            r == self.remaining_view().len(),
    {
        self.original.len() - self.pos
    }

    /// Whether no bytes remain.
    pub fn is_empty(&self) -> (r: bool)
        requires
            self.wf(),
        ensures
            r == (self.remaining_view().len() == 0),
    {
        self.len() == 0
    }

    /// Consumes everything that remains.
    pub fn advance_remaining(&mut self)
        requires
            old(self).wf(),
        ensures
            final(self).original@ == old(self).original@,
            final(self).pos == old(self).original@.len(),
            final(self).wf(),
    {
        self.pos = self.original.len();
    }

    /// Reads one byte, or `None` if the cursor is exhausted.
    pub fn read(&mut self) -> (r: Option<u8>)
        requires
            old(self).wf(),
        ensures
            final(self).original@ == old(self).original@,
            final(self).wf(),
            match r {
                Some(b) => {
                    &&& old(self).pos < old(self).original@.len()
                    &&& b == old(self).original@[old(self).pos as int]
                    &&& final(self).pos == old(self).pos + 1
                },
                None => {
                    &&& old(self).pos == old(self).original@.len()
                    &&& final(self).pos == old(self).pos
                },
            },
    {
        if self.pos < self.original.len() {
            let b = self.original[self.pos];
            self.pos = self.pos + 1;
            Some(b)
        } else {
            None
        }
    }

    /// Reads `count` bytes as a borrowed slice, or `None` if fewer remain.
    pub fn read_slice(&mut self, count: usize) -> (r: Option<&'a [u8]>)
        requires
            old(self).wf(),
        ensures
            final(self).original@ == old(self).original@,
            final(self).wf(),
            match r {
                Some(s) => {
                    &&& old(self).pos + count <= old(self).original@.len()
                    &&& s@ == old(self).original@.subrange(
                        old(self).pos as int,
                        old(self).pos + count,
                    )
                    &&& final(self).pos == old(self).pos + count
                },
                None => {
                    &&& old(self).pos + count > old(self).original@.len()
                    &&& final(self).pos == old(self).pos
                },
            },
    {
        if count <= self.original.len() - self.pos {
            let s = slice_subrange(self.original, self.pos, self.pos + count);
            self.pos = self.pos + count;
            Some(s)
        } else {
            None
        }
    }

    /// Reads `count` bytes into an owned buffer, or `None` if fewer remain.
    pub fn read_arr(&mut self, count: usize) -> (r: Option<Vec<u8>>)
        requires
            old(self).wf(),
        ensures
            final(self).original@ == old(self).original@,
            final(self).wf(),
            match r {
                Some(v) => {
                    &&& old(self).pos + count <= old(self).original@.len()
                    &&& v@ == old(self).original@.subrange(
                        old(self).pos as int,
                        old(self).pos + count,
                    )
                    &&& final(self).pos == old(self).pos + count
                },
                None => {
                    &&& old(self).pos + count > old(self).original@.len()
                    &&& final(self).pos == old(self).pos
                },
            },
    {
        match self.read_slice(count) {
            Some(s) => Some(slice_to_vec(s)),
            None => None,
        }
    }

    /// Describes the read position, as "N byte(s) from the packet frame
    /// start".
    pub fn format_location(&self) -> (r: String)
        ensures
            r@ == decode_utf8(dec_digits(self.pos as nat)) + (
            " byte(s) from the packet frame start")@,
    {
        let mut buf: Vec<u8> = Vec::new();
        push_decimal(&mut buf, self.pos as u128);
        proof {
            lemma_dec_digits_ascii(self.pos as nat);
            lemma_ascii_bytes_valid_utf8(buf@);
            vstd::utf8::encode_utf8_valid_utf8((" byte(s) from the packet frame start")@);
            lemma_decode_utf8_concat(
                buf@,
                (" byte(s) from the packet frame start").spec_bytes(),
            );
            vstd::utf8::encode_utf8_decode_utf8((" byte(s) from the packet frame start")@);
        }
        push_str_bytes(&mut buf, " byte(s) from the packet frame start");
        string_from_utf8(buf.as_slice())
    }
}

/// A byte sink that only counts what is written to it.
pub struct WriteByteCounter {
    /// Total bytes seen.
    pub count: usize,
}

impl WriteByteCounter {
    /// A fresh counter at zero.
    pub fn new() -> (r: Self)
        ensures
            r.count == 0,
    {
        WriteByteCounter { count: 0 }
    }

    /// Counts `buf` as written.
    pub fn write(&mut self, buf: &[u8])
        requires
            old(self).count + buf@.len() <= usize::MAX,
        ensures
            final(self).count == old(self).count + buf@.len(),
    {
        self.count = self.count + buf.len();
    }
}

/// A byte sink that retains what is written and can report how many
/// codepoints the accumulated text holds.
pub struct WriteCodepointCounter {
    /// Everything written so far.
    pub data: Vec<u8>,
}

impl WriteCodepointCounter {
    /// A fresh, empty counter.
    pub fn new() -> (r: Self)
        ensures
            r.data@ == Seq::<u8>::empty(),
    {
        WriteCodepointCounter { data: Vec::new() }
    }

    /// Appends `buf` to the accumulated text.
    pub fn write(&mut self, buf: &[u8])
        ensures
            final(self).data@ == old(self).data@ + buf@,
    {
        self.data.extend_from_slice(buf);
    }

    /// The codepoint count of the accumulated bytes, or `None` when they
    /// are not valid UTF-8.
    pub fn codepoints(&self) -> (r: Option<usize>)
        ensures
            r.is_some() == valid_utf8(self.data@),
            match r {
                Some(n) => n == decode_utf8(self.data@).len(),
                None => true,
            },
    {
        match scan_utf8(self.data.as_slice()) {
            Some(c) => Some(c.codepoints),
            None => None,
        }
    }

    /// The UTF-16 unit count of the accumulated bytes, or `None` when they
    /// are not valid UTF-8.
    pub fn utf16_units(&self) -> (r: Option<usize>)
        ensures
            r.is_some() == valid_utf8(self.data@),
            match r {
                Some(n) => n == utf16_len_bytes(self.data@),
                None => true,
            },
    {
        match scan_utf8(self.data.as_slice()) {
            Some(c) => Some(c.utf16_units),
            None => None,
        }
    }

    /// How many bytes have been written.
    pub fn bytes(&self) -> (r: usize)
        ensures
            r == self.data@.len(),
    {
        self.data.len()
    }
}

} // verus!
