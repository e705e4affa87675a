//! Packet dispatch, composite offsets, framing, and the end-to-end flow.

use raft_proto::byte_stream::ByteCursor;
use raft_proto::bytes_integration::{bytes_as_slice, bytes_copy_from_slice};
use raft_proto::driver_core::{handle_handshake, handle_status_packet, PeerState};
use raft_proto::primitives::{ByteArray, DeserializeFor, NetString, Uuid, VarInt};
use raft_proto::protocol::{cb_status, sb_handshake, sb_login, sb_status};
use raft_proto::transport::{MinecraftCodec, HARD_MAX_PACKET_LEN_INCL};
use raft_proto::var_int::encode_var_u32_raw;

fn handshake(next_state: i32) -> sb_handshake::Handshake {
    sb_handshake::Handshake {
        version: VarInt(760),
        server_addr: NetString::from_static_str("localhost"),
        port: 25565,
        next_state: VarInt(next_state),
    }
}

fn encode_packet_sb_handshake(p: &sb_handshake::Packet) -> Vec<u8> {
    let mut out: Vec<u8> = Vec::new();
    p.encode(&mut out).expect("encodable");
    out
}

#[test]
fn handshake_round_trips_through_its_registry() {
    let original = handshake(1);
    let body = encode_packet_sb_handshake(&sb_handshake::Packet::Handshake(original));
    let decoded = sb_handshake::Packet::decode_bytes(&body).expect("round trip");
    let sb_handshake::Packet::Handshake(h) = decoded;
    assert_eq!(h.version.0, 760);
    assert_eq!(h.server_addr.bytes(), &b"localhost".to_vec());
    assert_eq!(h.port, 25565);
    assert_eq!(h.next_state.0, 1);
}

#[test]
fn handshake_wire_bytes_are_exact() {
    let body = encode_packet_sb_handshake(&sb_handshake::Packet::Handshake(handshake(1)));
    let mut expected: Vec<u8> = vec![0x00];
    expected.extend_from_slice(&[0xf8, 0x05]);
    expected.push(9);
    expected.extend_from_slice(b"localhost");
    expected.extend_from_slice(&[0x63, 0xdd]);
    expected.push(0x01);
    assert_eq!(body, expected);
}

#[test]
fn invalid_boolean_flag_is_rejected() {
    // a LoginStart whose optional-id flag is neither 0 nor 1
    let mut body: Vec<u8> = Vec::new();
    encode_var_u32_raw(&mut body, 0);
    body.push(5);
    body.extend_from_slice(b"steve");
    body.push(2);
    assert!(sb_login::Packet::decode_bytes(&body).is_err());
}

#[test]
fn dispatch_moves_to_the_state_the_handshake_selects() {
    for (next, expect) in [(1, PeerState::Status), (2, PeerState::Login)] {
        let p = sb_handshake::Packet::Handshake(handshake(next));
        assert_eq!(handle_handshake(&p).expect("legal next state"), expect);
    }
    let p = sb_handshake::Packet::Handshake(handshake(3));
    assert!(handle_handshake(&p).is_err(), "any other target state is a violation");
}

#[test]
fn unknown_packet_error_names_the_id_and_the_state() {
    let ping = sb_status::Packet::PingRequest(sb_status::PingRequest { payload: 7 });
    let mut body: Vec<u8> = Vec::new();
    ping.encode(&mut body).expect("encodable");
    let err = sb_handshake::Packet::decode_bytes(&body).expect_err("no such shape here");
    let text = err.describe();
    assert!(text.contains("unknown packet id 1"), "the id is named: {}", text);
    assert!(text.contains("Handshake"), "the state is named: {}", text);
    assert!(text.contains("packet id"), "the kind tag is set: {}", text);
}

#[test]
fn required_len_reports_the_declared_frame_size() {
    let codec = MinecraftCodec::new(HARD_MAX_PACKET_LEN_INCL);
    assert_eq!(codec.required_len(&[5, 1, 2]), Some(6));
    assert_eq!(codec.required_len(&[]), None);
    let small = MinecraftCodec::new(4);
    assert_eq!(small.required_len(&[5, 1, 2]), None, "a refused length gives no hint");
    assert_eq!(codec.decode_slice(&[2, 7, 8, 9]).unwrap(), Some((1, 3)));
}

#[test]
fn unknown_packet_id_for_the_state_is_fatal() {
    // a ping request (id 1) is not a shape of the Handshake state
    let ping = sb_status::Packet::PingRequest(sb_status::PingRequest { payload: 7 });
    let mut body: Vec<u8> = Vec::new();
    ping.encode(&mut body).expect("encodable");
    assert!(sb_handshake::Packet::decode_bytes(&body).is_err());

    // a handshake body does not decode in the Status state either: its id
    // names StatusRequest there, whose empty shape accepts it, so cross
    // registry confusion shows up one packet later; id 1 against
    // Handshake is refused outright
    let mut unknown: Vec<u8> = Vec::new();
    encode_var_u32_raw(&mut unknown, 9);
    assert!(sb_handshake::Packet::decode_bytes(&unknown).is_err());
    assert!(sb_status::Packet::decode_bytes(&unknown).is_err());
    assert!(sb_login::Packet::decode_bytes(&unknown).is_err());
}

#[test]
fn login_start_decodes_against_its_own_registry_only() {
    let login = sb_login::Packet::LoginStart(sb_login::LoginStart {
        name: NetString::from_static_str("steve"),
        player_uuid: Some(Uuid(42)),
    });
    let mut body: Vec<u8> = Vec::new();
    login.encode(&mut body).expect("encodable");
    match sb_login::Packet::decode_bytes(&body).expect("own registry accepts it") {
        sb_login::Packet::LoginStart(p) => {
            assert_eq!(p.name.bytes(), &b"steve".to_vec());
            assert_eq!(p.player_uuid.map(|u| u.0), Some(42));
        },
        other => panic!("wrong shape: {:?}", other),
    }
    // the same bytes carry id 0 with a string body; the Handshake
    // registry's only shape demands more fields and refuses it
    assert!(sb_handshake::Packet::decode_bytes(&body).is_err());
}

#[test]
fn lazy_view_fields_match_eager_decode() {
    let original = handshake(2);
    let body = encode_packet_sb_handshake(&sb_handshake::Packet::Handshake(original));

    // skip the packet id, then summarize the record once
    let mut cursor = ByteCursor::new(&body);
    let _id = VarInt::decode(&mut cursor, ()).expect("id");
    let record_start = cursor.pos();
    let summary = sb_handshake::Handshake::summarize(&mut cursor).expect("valid record");
    assert_eq!(summary.start, record_start);
    assert_eq!(cursor.pos(), summary.end);

    let view = sb_handshake::HandshakeView::view(summary, ByteCursor::new(&body));
    assert_eq!(view.version().0, 760);
    assert_eq!(view.server_addr().bytes(), &b"localhost".to_vec());
    assert_eq!(view.port(), 25565);
    assert_eq!(view.next_state().0, 2);

    let eager = view.reify();
    assert_eq!(eager.version.0, 760);
    assert_eq!(eager.server_addr.bytes(), &b"localhost".to_vec());
    assert_eq!(eager.port, 25565);
    assert_eq!(eager.next_state.0, 2);
}

#[test]
fn byte_arrays_round_trip() {
    let packet = sb_login::Packet::EncryptionResponse(sb_login::EncryptionResponse {
        shared_secret: ByteArray(bytes_copy_from_slice(&[1, 2, 3, 4])),
        verify_token: ByteArray(bytes_copy_from_slice(&[9, 8])),
    });
    let mut body: Vec<u8> = Vec::new();
    packet.encode(&mut body).expect("encodable");
    match sb_login::Packet::decode_bytes(&body).expect("round trip") {
        sb_login::Packet::EncryptionResponse(p) => {
            assert_eq!(bytes_as_slice(&p.shared_secret.0), &[1, 2, 3, 4]);
            assert_eq!(bytes_as_slice(&p.verify_token.0), &[9, 8]);
            let copy = p.shared_secret.duplicate();
            assert_eq!(bytes_as_slice(&copy.0), &[1, 2, 3, 4]);
        },
        other => panic!("wrong shape: {:?}", other),
    }
}

#[test]
fn frame_decode_waits_for_the_whole_frame() {
    let codec = MinecraftCodec::new(HARD_MAX_PACKET_LEN_INCL);
    // an empty buffer, then a length with a missing body
    let empty = bytes_copy_from_slice(&[]);
    assert!(codec.decode(&empty).expect("not fatal").is_none());
    let partial = bytes_copy_from_slice(&[5, 1, 2]);
    assert!(codec.decode(&partial).expect("not fatal").is_none());
}

#[test]
fn frame_longer_than_the_ceiling_is_rejected_before_its_body() {
    let codec = MinecraftCodec::new(HARD_MAX_PACKET_LEN_INCL);
    // declare a length one past the hard ceiling, with no body bytes at all
    let mut wire: Vec<u8> = Vec::new();
    encode_var_u32_raw(&mut wire, HARD_MAX_PACKET_LEN_INCL + 1);
    let stream = bytes_copy_from_slice(&wire);
    assert!(codec.decode(&stream).is_err());

    // a codec configured lower refuses lower
    let small = MinecraftCodec::new(4);
    let mut wire: Vec<u8> = Vec::new();
    encode_var_u32_raw(&mut wire, 5);
    wire.extend_from_slice(&[0; 5]);
    assert!(small.decode(&bytes_copy_from_slice(&wire)).is_err());
    let mut wire: Vec<u8> = Vec::new();
    encode_var_u32_raw(&mut wire, 4);
    wire.extend_from_slice(&[7; 4]);
    let frame = small
        .decode(&bytes_copy_from_slice(&wire))
        .expect("within bound")
        .expect("complete");
    assert_eq!(bytes_as_slice(&frame.body), &[7, 7, 7, 7]);
    assert_eq!(frame.consumed, 5);
}

#[test]
fn oversized_outbound_frame_is_refused() {
    let codec = MinecraftCodec::new(HARD_MAX_PACKET_LEN_INCL);
    let body = vec![0u8; HARD_MAX_PACKET_LEN_INCL as usize + 1];
    let mut out: Vec<u8> = Vec::new();
    assert!(codec.encode_frame(&body, &mut out).is_err());
    assert!(out.is_empty());
}

#[test]
fn end_to_end_handshake_then_status() {
    // encode, frame, decode the frame, dispatch, and answer
    let codec = MinecraftCodec::new(HARD_MAX_PACKET_LEN_INCL);
    let original = sb_handshake::Packet::Handshake(handshake(1));
    let body = encode_packet_sb_handshake(&original);
    let mut wire: Vec<u8> = Vec::new();
    codec.encode_frame(&body, &mut wire).expect("frames");

    let stream = bytes_copy_from_slice(&wire);
    let frame = codec.decode(&stream).expect("well-formed").expect("complete");
    assert_eq!(frame.consumed, wire.len());

    let decoded = sb_handshake::Packet::decode_bytes(bytes_as_slice(&frame.body))
        .expect("dispatches");
    let state = handle_handshake(&decoded).expect("legal");
    assert_eq!(state, PeerState::Status);

    // a status request now gets the configured document back
    let config = NetString::from_static_str("{\"motd\":\"hello\"}");
    let request = sb_status::Packet::StatusRequest(sb_status::StatusRequest {});
    match handle_status_packet(&request, &config) {
        cb_status::Packet::StatusResponse(resp) => {
            assert_eq!(resp.json_resp.bytes(), &b"{\"motd\":\"hello\"}".to_vec());
        },
        other => panic!("wrong reply: {:?}", other),
    }
    let ping = sb_status::Packet::PingRequest(sb_status::PingRequest { payload: -7 });
    match handle_status_packet(&ping, &config) {
        cb_status::Packet::PingResponse(resp) => assert_eq!(resp.payload, -7),
        other => panic!("wrong reply: {:?}", other),
    }
}
