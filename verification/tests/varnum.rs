//! Variable-length number round trips and malformed chains.

use raft_proto::byte_stream::ByteCursor;
use raft_proto::var_int::{
    decode_var_i32_streaming, decode_var_i64_streaming, decode_var_u32_streaming,
    encode_var_u32, encode_var_u32_raw, encode_var_u64,
};

fn round_trip_i32(v: i32) -> (i32, usize) {
    let mut buf: Vec<u8> = Vec::new();
    encode_var_u32(&mut buf, v);
    let len = buf.len();
    let mut cursor = ByteCursor::new(&buf);
    let got = decode_var_i32_streaming(&mut cursor)
        .expect("well-formed")
        .expect("complete");
    assert_eq!(cursor.pos(), len, "decoding must consume the whole encoding");
    (got, len)
}

fn round_trip_i64(v: i64) -> (i64, usize) {
    let mut buf: Vec<u8> = Vec::new();
    encode_var_u64(&mut buf, v);
    let len = buf.len();
    let mut cursor = ByteCursor::new(&buf);
    let got = decode_var_i64_streaming(&mut cursor)
        .expect("well-formed")
        .expect("complete");
    (got, len)
}

fn expected_len_u64(u: u64) -> usize {
    let bits = 64 - u.leading_zeros() as usize;
    if bits == 0 {
        1
    } else {
        (bits + 6) / 7
    }
}

#[test]
fn varint_round_trips() {
    for &v in &[
        0i32,
        1,
        2,
        127,
        128,
        255,
        300,
        760,
        25565,
        0x07ff_ffff,
        i32::MAX,
        -1,
        -2,
        -127,
        -128,
        i32::MIN,
    ] {
        let (got, len) = round_trip_i32(v);
        assert_eq!(got, v);
        assert_eq!(len, expected_len_u64(v as u32 as u64));
    }
}

#[test]
fn varlong_round_trips() {
    for &v in &[
        0i64,
        1,
        127,
        128,
        300,
        0x7fff_ffff_ffff_ffff,
        -1,
        -300,
        i64::MIN,
    ] {
        let (got, len) = round_trip_i64(v);
        assert_eq!(got, v);
        assert_eq!(len, expected_len_u64(v as u64));
    }
}

#[test]
fn varint_known_encodings() {
    let mut buf: Vec<u8> = Vec::new();
    encode_var_u32(&mut buf, 0);
    assert_eq!(buf, vec![0x00]);

    let mut buf: Vec<u8> = Vec::new();
    encode_var_u32(&mut buf, 300);
    assert_eq!(buf, vec![0xac, 0x02]);

    let mut buf: Vec<u8> = Vec::new();
    encode_var_u32(&mut buf, -1);
    assert_eq!(buf, vec![0xff, 0xff, 0xff, 0xff, 0x0f]);

    let mut buf: Vec<u8> = Vec::new();
    encode_var_u32_raw(&mut buf, 760);
    assert_eq!(buf, vec![0xf8, 0x05]);
}

#[test]
fn varint_too_long_is_rejected() {
    let buf = [0x80u8, 0x80, 0x80, 0x80, 0x80, 0x01];
    let mut cursor = ByteCursor::new(&buf);
    let r = decode_var_i32_streaming(&mut cursor);
    assert!(r.is_err(), "a five-byte continuation chain does not fit an i32");
}

#[test]
fn varlong_too_long_is_rejected() {
    let buf = [0x80u8; 11];
    let mut cursor = ByteCursor::new(&buf);
    let r = decode_var_i64_streaming(&mut cursor);
    assert!(r.is_err(), "a ten-byte continuation chain does not fit an i64");
}

#[test]
fn truncated_chain_is_incomplete_not_an_error() {
    let buf = [0x80u8, 0x80, 0x80];
    let mut cursor = ByteCursor::new(&buf);
    let r = decode_var_u32_streaming(&mut cursor).expect("incomplete input is not fatal");
    assert!(r.is_none(), "a truncated chain asks for more input");
}

#[test]
fn non_minimal_encoding_still_decodes() {
    let buf = [0x80u8, 0x00];
    let mut cursor = ByteCursor::new(&buf);
    let r = decode_var_i32_streaming(&mut cursor)
        .expect("well-formed")
        .expect("complete");
    assert_eq!(r, 0);
    assert_eq!(cursor.pos(), 2);
}
