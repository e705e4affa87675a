//! String field bounds, UTF-8 scanning, and the decimal formatter.

use raft_proto::byte_stream::{ByteCursor, WriteCodepointCounter};
use raft_proto::ctfe_format::CtfeFormatter;
use raft_proto::primitives::{DeserializeFor, NetString, SerializeInto};
use raft_proto::text::{scan_utf8, utf16_codepoints};
use raft_proto::error::{DecodeError, ItemPathPart};
use raft_proto::var_int::encode_var_u32_raw;

fn decode_string(bytes: &[u8], max: Option<u32>) -> Result<NetString, raft_proto::error::DecodeError> {
    let mut cursor = ByteCursor::new(bytes);
    NetString::decode(&mut cursor, max)
}

#[test]
fn string_round_trips_byte_for_byte() {
    for text in ["", "localhost", "hi", "na\u{ef}ve \u{1F600} text"] {
        let ns = NetString::from_static_str(text);
        let mut wire: Vec<u8> = Vec::new();
        ns.serialize(&mut wire, Some(255)).expect("within bounds");
        let back = decode_string(&wire, Some(255)).expect("round trip");
        assert_eq!(back.bytes(), &text.as_bytes().to_vec());
    }
}

#[test]
fn declared_oversized_string_is_rejected_before_the_payload() {
    // declare 9 bytes under a 2-codepoint bound: 9 > 4 * 2, and no payload
    // bytes are even present to read
    let mut wire: Vec<u8> = Vec::new();
    encode_var_u32_raw(&mut wire, 9);
    let r = decode_string(&wire, Some(2));
    assert!(r.is_err(), "the byte bound must fail before the payload is read");
}

#[test]
fn string_over_its_codepoint_bound_is_rejected() {
    let ns = NetString::from_static_str("abc");
    let mut wire: Vec<u8> = Vec::new();
    ns.serialize(&mut wire, None).expect("unbounded encode");
    let r = decode_string(&wire, Some(2));
    assert!(r.is_err(), "three codepoints exceed a bound of two");
    assert!(decode_string(&wire, Some(3)).is_ok());
}

#[test]
fn huge_codepoint_bounds_still_round_trip() {
    // a bound so large that four bytes per codepoint overflows the length
    // prefix: the fail-fast byte check can exclude nothing, and decoding
    // proceeds on the codepoint count alone
    let ns = NetString::from_static_str("abc");
    for bound in [0x2000_0000u32, 0x7fff_ffff, u32::MAX] {
        let mut wire: Vec<u8> = Vec::new();
        ns.serialize(&mut wire, Some(bound)).expect("within bounds");
        let back = decode_string(&wire, Some(bound)).expect("round trip");
        assert_eq!(back.bytes(), &b"abc".to_vec());
    }
}

#[test]
fn invalid_utf8_string_is_rejected() {
    let mut wire: Vec<u8> = Vec::new();
    encode_var_u32_raw(&mut wire, 2);
    wire.push(0xc3);
    wire.push(0x28);
    let r = decode_string(&wire, None);
    assert!(r.is_err(), "invalid UTF-8 must be rejected");
}

#[test]
fn truncated_string_payload_is_rejected() {
    let mut wire: Vec<u8> = Vec::new();
    encode_var_u32_raw(&mut wire, 5);
    wire.push(b'h');
    wire.push(b'i');
    let r = decode_string(&wire, None);
    assert!(r.is_err(), "a declared length past the input is rejected");
}

#[test]
fn oversized_outbound_string_is_refused() {
    let ns = NetString::from_static_str("abcd");
    let mut wire: Vec<u8> = Vec::new();
    let r = ns.serialize(&mut wire, Some(3));
    assert!(r.is_err());
    assert!(wire.is_empty(), "a refused encode leaves the output untouched");
}

#[test]
fn utf8_scan_counts_codepoints_and_units() {
    let c = scan_utf8("a\u{e9}\u{4e2d}\u{1F600}".as_bytes()).expect("valid text");
    assert_eq!(c.codepoints, 4);
    assert_eq!(c.utf16_units, 5, "one supplementary-plane scalar takes a surrogate pair");
    assert!(scan_utf8(&[0xff]).is_none());
    assert!(scan_utf8(&[0xe0, 0x80, 0x80]).is_none(), "overlong encodings are invalid");
    assert!(scan_utf8(&[0xed, 0xa0, 0x80]).is_none(), "surrogates are invalid");
    let empty = scan_utf8(&[]).expect("empty is valid");
    assert_eq!(empty.codepoints, 0);
}

#[test]
fn utf16_codepoint_counter_matches() {
    assert_eq!(utf16_codepoints("hello", 100), 5);
    assert_eq!(utf16_codepoints("\u{1F600}", 100), 2);
    assert!(utf16_codepoints("hello", 3) > 3, "counting stops just past the bound");
}

#[test]
fn codepoint_counter_accumulates_writes() {
    let mut counter = WriteCodepointCounter::new();
    counter.write("he".as_bytes());
    counter.write("llo".as_bytes());
    assert_eq!(counter.bytes(), 5);
    assert_eq!(counter.codepoints(), Some(5));
    let mut bad = WriteCodepointCounter::new();
    bad.write(&[0xff]);
    assert_eq!(bad.codepoints(), None);
}

#[test]
fn write_number() {
    fn check_num(v: u128) {
        let mut f = CtfeFormatter::<48>::new();
        f.write_u128(v);
        assert_eq!(f.finish(), v.to_string());
    }

    check_num(0);
    check_num(1);
    check_num(7);
    check_num(10);
    check_num(11);
    check_num(10003);
    check_num(u128::MAX);
    check_num(u128::MAX - 1);
}

#[test]
fn formatter_writes_text_and_signs() {
    let mut f = CtfeFormatter::<32>::new();
    f.write_str("x = ");
    f.write_i128(-42);
    f.write_char('!');
    assert_eq!(f.finish(), "x = -42!");
}

#[test]
fn formatter_drops_writes_past_capacity() {
    let mut f = CtfeFormatter::<4>::new();
    f.write_str("abcd");
    f.write_str("e");
    assert_eq!(f.finish(), "abcd");
}

#[test]
fn cursor_reads_are_bounds_checked() {
    let buf = [1u8, 2, 3, 4, 5];
    let mut cursor = ByteCursor::new(&buf);
    assert_eq!(cursor.read(), Some(1));
    assert_eq!(cursor.read_slice(2), Some(&buf[1..3]));
    assert_eq!(cursor.read_arr(2), Some(vec![4u8, 5]));
    assert_eq!(cursor.read(), None, "an exhausted cursor reports no data");
    assert!(cursor.is_empty());
    let replay = cursor.with_pos(3);
    assert_eq!(replay.remaining(), &buf[3..]);
    assert_eq!(replay.pos(), 3);
    let mut c2 = ByteCursor::new(&buf);
    assert_eq!(c2.len(), 5);
    c2.advance_remaining();
    assert!(c2.is_empty());
    assert_eq!(c2.original(), &buf);
    let mut short = ByteCursor::new(&buf);
    assert_eq!(short.read_slice(9), None, "a short read consumes nothing");
    assert_eq!(short.pos(), 0);
}

#[test]
fn format_location_names_the_offset() {
    let buf = [0u8; 8];
    let mut cursor = ByteCursor::new(&buf);
    cursor.set_pos(5);
    assert_eq!(
        cursor.format_location(),
        "5 byte(s) from the packet frame start"
    );
}

#[test]
fn describe_renders_kind_path_and_message() {
    let e = DecodeError::new_static("too big")
        .with_kind("VarInt")
        .with_path(ItemPathPart::Named("version"))
        .with_path(ItemPathPart::Named("handshake"));
    assert_eq!(
        e.describe(),
        "error while reading VarInt at `handshake.version`: too big"
    );
}
