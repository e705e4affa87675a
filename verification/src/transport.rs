//! The length-prefixed packet framing codec.
//!
//! A frame is a variable-length number holding the body length, then that
//! many body bytes. Decoding never consumes a partial frame: too few bytes
//! report "need more input" and leave the receive buffer untouched, while
//! a declared length past the configured maximum (itself capped by the
//! hard protocol ceiling) is a fatal error before any body byte is
//! consumed. The frame body is sliced out of the receive buffer without
//! copying.

use vstd::prelude::*;

use crate::bytes_integration::{bytes_as_slice, bytes_slice_range, bytes_view};
use crate::error::{located, DecodeError};
use crate::var_int::{vnum_enc, vu32_dec, VarDec};

verus! {

/// The hard maximum on the size of either a serverbound or clientbound
/// packet: a transport-level ceiling independent of any per-codec
/// configured limit.
pub const HARD_MAX_PACKET_LEN_INCL: u32 = 0x20_0000;

/// What one decode attempt over a receive buffer yields.
pub enum FrameParse {
    /// Not enough bytes yet; wait for more input.
    NeedMore,
    /// The declared length cannot be accepted; the connection is dead.
    Refused,
    /// A whole frame: its body spans `start..end`, and exactly `end`
    /// bytes of the buffer belong to this frame.
    Frame {
        /// Where the body begins.
        start: int,
        /// Where the body ends.
        end: int,
    },
}

/// Reads one frame from the start of `s` under the length bound `max`.
pub open spec fn frame_dec(s: Seq<u8>, max: u32) -> FrameParse {
    match vu32_dec(s, 0) {
        VarDec::Incomplete => FrameParse::NeedMore,
        VarDec::TooLong => FrameParse::Refused,
        VarDec::Done { value, end } => {
            if value > 0x7fff_ffff || value > max as nat {
                FrameParse::Refused
            } else if end + value > s.len() {
                FrameParse::NeedMore
            } else {
                FrameParse::Frame { start: end, end: end + value }
            }
        },
    }
}

/// One decoded frame: a zero-copy slice of the receive buffer, and how
/// many buffer bytes (prefix and body) it accounts for.
#[derive(Debug)]
pub struct Frame {
    /// The frame body, sharing the receive buffer's allocation.
    pub body: bytes::Bytes,
    /// How many bytes of the receive buffer this frame consumed.
    pub consumed: usize,
}

/// The framing codec configuration for one connection.
///
/// `compression_threshold` is an extension point: compressed framing is
/// not implemented, and a codec configured with a threshold refuses to
/// run rather than guessing a format.
#[derive(Debug, Copy, Clone)]
pub struct MinecraftCodec {
    /// The largest frame body this codec accepts; never above
    /// [`HARD_MAX_PACKET_LEN_INCL`].
    pub max_recv_len: u32,
    /// Compressed-frame threshold; unsupported, must stay `None`.
    pub compression_threshold: Option<u32>,
}

impl MinecraftCodec {
    /// The configured maximum never passes the hard ceiling and
    /// compression stays unconfigured.
    pub open spec fn wf(self) -> bool {
        &&& self.max_recv_len <= HARD_MAX_PACKET_LEN_INCL
        &&& self.compression_threshold is None
    }

    /// A codec accepting frames up to `max_recv_len`, capped at the hard
    /// ceiling.
    pub fn new(max_recv_len: u32) -> (r: Self)
        ensures
            r.wf(),
            r.max_recv_len == if max_recv_len <= HARD_MAX_PACKET_LEN_INCL {
                max_recv_len
            } else {
                HARD_MAX_PACKET_LEN_INCL
            },
    {
        let capped = if max_recv_len <= HARD_MAX_PACKET_LEN_INCL {
            max_recv_len
        } else {
            HARD_MAX_PACKET_LEN_INCL
        };
        MinecraftCodec { max_recv_len: capped, compression_threshold: None }
    }

    /// Lowers or raises the accepted frame size, capped at the hard
    /// ceiling.
    pub fn set_max_recv_len(&mut self, len: u32)
        ensures
            final(self).max_recv_len == if len <= HARD_MAX_PACKET_LEN_INCL {
                len
            } else {
                HARD_MAX_PACKET_LEN_INCL
            },
            final(self).compression_threshold == old(self).compression_threshold,
    {
        self.max_recv_len = if len <= HARD_MAX_PACKET_LEN_INCL {
            len
        } else {
            HARD_MAX_PACKET_LEN_INCL
        };
    }

    /// Attempts to find one frame at the start of the receive buffer,
    /// without copying or consuming anything.
    ///
    /// `Ok(None)` asks the caller to read more input and retry with a
    /// longer buffer. An oversized declared length is fatal before any
    /// body byte is read. On success the body spans the returned
    /// `start..end` of the buffer, and `end` bytes belong to the frame.
    pub fn decode_slice(&self, buf: &[u8]) -> (r: Result<Option<(usize, usize)>, DecodeError>)
        requires
            self.wf(),
        ensures
            match r {
                Ok(None) => frame_dec(buf@, self.max_recv_len) is NeedMore,
                Ok(Some((body_start, body_end))) => frame_dec(buf@, self.max_recv_len)
                    matches FrameParse::Frame { start, end } && body_start == start && body_end
                    == end,
                Err(e) => frame_dec(buf@, self.max_recv_len) is Refused && e.item_kind == Some(
                    "frame length",
                ),
            },
    {
        let mut cursor = crate::byte_stream::ByteCursor::new(buf);
        let length = match crate::var_int::decode_var_i32_streaming(&mut cursor) {
            Ok(Some(v)) => v,
            Ok(None) => {
                return Ok(None);
            },
            Err(e) => {
                return Err(e.with_kind("frame length"));
            },
        };
        proof {
            crate::var_int::lemma_vu32_dec_bounds(buf@, 0);
        }
        if length < 0 {
            return Err(
                located("received a frame with a negative declared length", cursor.pos())
                    .with_kind("frame length"),
            );
        }
        let length = length as u32;
        if length > self.max_recv_len {
            return Err(
                located(
                    "received a frame longer than the codec accepts",
                    cursor.pos(),
                ).with_kind("frame length"),
            );
        }
        let header = cursor.pos();
        let avail = buf.len() - header;
        if (length as usize) > avail {
            return Ok(None);
        }
        Ok(Some((header, header + length as usize)))
    }

    /// Attempts to slice one frame out of the receive buffer.
    ///
    /// `Ok(None)` asks the caller to read more input and retry with a
    /// longer buffer; nothing is consumed. An oversized declared length
    /// is fatal before any body byte is read.
    pub fn decode(&self, stream: &bytes::Bytes) -> (r: Result<Option<Frame>, DecodeError>)
        requires
            self.wf(),
        ensures
            match r {
                Ok(None) => frame_dec(bytes_view(*stream), self.max_recv_len) is NeedMore,
                Ok(Some(f)) => frame_dec(bytes_view(*stream), self.max_recv_len)
                    matches FrameParse::Frame { start, end } && bytes_view(f.body) == bytes_view(
                    *stream,
                ).subrange(start, end) && f.consumed == end,
                Err(e) => frame_dec(bytes_view(*stream), self.max_recv_len)
                    is Refused && e.item_kind == Some("frame length"),
            },
    {
        let buf = bytes_as_slice(stream);
        match self.decode_slice(buf) {
            Ok(Some((start, end))) => {
                let body = bytes_slice_range(stream, start, end);
                Ok(Some(Frame { body, consumed: end }))
            },
            Ok(None) => Ok(None),
            Err(e) => Err(e),
        }
    }

    /// How many buffer bytes the next frame will occupy, once its length
    /// prefix is readable and acceptable: the prefix plus the declared
    /// body. The caller can reserve capacity for this ahead of further
    /// reads; `None` while even the prefix is incomplete, or when the
    /// declared length is refused.
    pub fn required_len(&self, buf: &[u8]) -> (r: Option<usize>)
        requires
            self.wf(),
        ensures
            match crate::var_int::vu32_dec(buf@, 0) {
                crate::var_int::VarDec::Done { value, end } => {
                    &&& (value <= self.max_recv_len && end + value <= usize::MAX) ==> (r
                        matches Some(n) && n == end + value)
                    &&& value > self.max_recv_len ==> r is None
                },
                _ => r is None,
            },
    {
        let mut cursor = crate::byte_stream::ByteCursor::new(buf);
        let length = match crate::var_int::decode_var_i32_streaming(&mut cursor) {
            Ok(Some(v)) => v,
            _ => {
                return None;
            },
        };
        proof {
            crate::var_int::lemma_vu32_dec_bounds(buf@, 0);
        }
        if length < 0 {
            return None;
        }
        let length = length as u32;
        if length > self.max_recv_len {
            return None;
        }
        if cursor.pos() > usize::MAX - length as usize {
            return None;
        }
        Some(cursor.pos() + length as usize)
    }

    /// Appends a frame holding `body`: the length, then the body.
    ///
    /// A body longer than the hard ceiling is an outbound programming
    /// error and is refused with the output untouched.
    pub fn encode_frame(&self, body: &[u8], out: &mut Vec<u8>) -> (r: Result<(), DecodeError>)
        requires
            self.wf(),
        ensures
            r is Ok <==> body@.len() <= HARD_MAX_PACKET_LEN_INCL,
            match r {
                Ok(_) => final(out)@ == old(out)@ + vnum_enc(body@.len()) + body@,
                Err(_) => final(out)@ == old(out)@,
            },
    {
        if body.len() > HARD_MAX_PACKET_LEN_INCL as usize {
            return Err(DecodeError::new_static("attempted to send an oversized frame"));
        }
        let ghost base = out@;
        crate::var_int::encode_var_u32_raw(out, body.len() as u32);
        out.extend_from_slice(body);
        proof {
            assert(out@ =~= base + vnum_enc(body@.len()) + body@);
        }
        Ok(())
    }
}

/// A packet shape that can stand alone in a frame: the registry enum of
/// one state and direction.
pub trait FramedPacket {

}

/// A packet shape that wraps itself into its state's registry enum before
/// framing.
pub trait UnframedPacket {
    /// The registry enum this shape belongs to.
    type Framed;

    /// Wraps this shape into its registry enum.
    fn frame(self) -> Self::Framed;
}

impl FramedPacket for crate::protocol::sb_handshake::Packet {

}

impl FramedPacket for crate::protocol::sb_status::Packet {

}

impl FramedPacket for crate::protocol::cb_status::Packet {

}

impl FramedPacket for crate::protocol::sb_login::Packet {

}

impl FramedPacket for crate::protocol::cb_login::Packet {

}

impl UnframedPacket for crate::protocol::sb_handshake::Handshake {
    type Framed = crate::protocol::sb_handshake::Packet;

    fn frame(self) -> Self::Framed {
        crate::protocol::sb_handshake::Packet::Handshake(self)
    }
}

impl UnframedPacket for crate::protocol::sb_status::StatusRequest {
    type Framed = crate::protocol::sb_status::Packet;

    fn frame(self) -> Self::Framed {
        crate::protocol::sb_status::Packet::StatusRequest(self)
    }
}

impl UnframedPacket for crate::protocol::sb_status::PingRequest {
    type Framed = crate::protocol::sb_status::Packet;

    fn frame(self) -> Self::Framed {
        crate::protocol::sb_status::Packet::PingRequest(self)
    }
}

impl UnframedPacket for crate::protocol::cb_status::StatusResponse {
    type Framed = crate::protocol::cb_status::Packet;

    fn frame(self) -> Self::Framed {
        crate::protocol::cb_status::Packet::StatusResponse(self)
    }
}

impl UnframedPacket for crate::protocol::cb_status::PingResponse {
    type Framed = crate::protocol::cb_status::Packet;

    fn frame(self) -> Self::Framed {
        crate::protocol::cb_status::Packet::PingResponse(self)
    }
}

impl UnframedPacket for crate::protocol::sb_login::LoginStart {
    type Framed = crate::protocol::sb_login::Packet;

    fn frame(self) -> Self::Framed {
        crate::protocol::sb_login::Packet::LoginStart(self)
    }
}

impl UnframedPacket for crate::protocol::sb_login::EncryptionResponse {
    type Framed = crate::protocol::sb_login::Packet;

    fn frame(self) -> Self::Framed {
        crate::protocol::sb_login::Packet::EncryptionResponse(self)
    }
}

impl UnframedPacket for crate::protocol::sb_login::LoginPluginResponse {
    type Framed = crate::protocol::sb_login::Packet;

    fn frame(self) -> Self::Framed {
        crate::protocol::sb_login::Packet::LoginPluginResponse(self)
    }
}

impl UnframedPacket for crate::protocol::cb_login::Disconnect {
    type Framed = crate::protocol::cb_login::Packet;

    fn frame(self) -> Self::Framed {
        crate::protocol::cb_login::Packet::Disconnect(self)
    }
}

impl UnframedPacket for crate::protocol::cb_login::EncryptionRequest {
    type Framed = crate::protocol::cb_login::Packet;

    fn frame(self) -> Self::Framed {
        crate::protocol::cb_login::Packet::EncryptionRequest(self)
    }
}

impl UnframedPacket for crate::protocol::cb_login::LoginSuccess {
    type Framed = crate::protocol::cb_login::Packet;

    fn frame(self) -> Self::Framed {
        crate::protocol::cb_login::Packet::LoginSuccess(self)
    }
}

impl UnframedPacket for crate::protocol::cb_login::SetCompression {
    type Framed = crate::protocol::cb_login::Packet;

    fn frame(self) -> Self::Framed {
        crate::protocol::cb_login::Packet::SetCompression(self)
    }
}

impl UnframedPacket for crate::protocol::cb_login::LoadPluginRequest {
    type Framed = crate::protocol::cb_login::Packet;

    fn frame(self) -> Self::Framed {
        crate::protocol::cb_login::Packet::LoadPluginRequest(self)
    }
}


/// Frame round trip: a frame built by `encode_frame` decodes back to
/// exactly its body, with every prefixed byte accounted for.
pub proof fn lemma_frame_round_trip(body: Seq<u8>, max: u32)
    requires
        body.len() <= max,
        max <= HARD_MAX_PACKET_LEN_INCL,
    ensures
        frame_dec(vnum_enc(body.len()) + body, max) matches FrameParse::Frame { start, end }
            && start == vnum_enc(body.len()).len() && end == (vnum_enc(body.len()) + body).len()
            && (vnum_enc(body.len()) + body).subrange(start, end) == body,
{
    let lenb = vnum_enc(body.len());
    let s = lenb + body;
    assert(s.subrange(0, s.len() as int) =~= s);
    crate::primitives::lemma_concat_split(s, 0, lenb, body);
    crate::var_int::lemma_vu32_round_trip(s, 0, body.len() as u32);
}

} // verus!
