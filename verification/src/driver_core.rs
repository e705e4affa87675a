//! The pure per-connection state machine.
//!
//! A connection starts in Handshake and moves to Status or Login as the
//! handshake packet directs; any other target is a protocol violation.
//! The decisions here are pure functions from decoded packets to replies
//! and next states; performing the I/O around them is the caller's job.

use vstd::prelude::*;
use vstd::string::StringSliceAdditionalSpecFns;

use crate::chat::{ChatComponent, ChatComponentV, ChatRoot, ChatRootV, Json};
use crate::error::DecodeError;
use crate::primitives::NetString;
use crate::protocol::{cb_login, cb_status, sb_handshake, sb_status};

verus! {

/// Which phase of the protocol a connection is in.
#[derive(Debug, Copy, Clone, PartialEq, Eq, Structural)]
pub enum PeerState {
    /// Waiting for the opening handshake.
    Handshake,
    /// Serving status and ping requests.
    Status,
    /// Performing a login.
    Login,
    /// In play; no packet shapes are declared yet, so any packet here is
    /// unsupported.
    Play,
}

/// The state a handshake's `next_state` field selects: status is 1 and
/// login is 2; every other value is a protocol violation.
pub fn next_state_for(next_state: i32) -> (r: Result<PeerState, DecodeError>)
    ensures
        next_state == 1 ==> r == Ok::<PeerState, DecodeError>(PeerState::Status),
        next_state == 2 ==> r == Ok::<PeerState, DecodeError>(PeerState::Login),
        (next_state != 1 && next_state != 2) ==> r is Err,
{
    if next_state == 1 {
        Ok(PeerState::Status)
    } else if next_state == 2 {
        Ok(PeerState::Login)
    } else {
        Err(DecodeError::new_static("invalid handshake target state"))
    }
}

/// Applies a decoded handshake: the connection moves to the state its
/// `next_state` field selects.
pub fn handle_handshake(p: &sb_handshake::Packet) -> (r: Result<PeerState, DecodeError>)
    ensures
        match p {
            sb_handshake::Packet::Handshake(h) => {
                &&& h.next_state.0 == 1 ==> r == Ok::<PeerState, DecodeError>(PeerState::Status)
                &&& h.next_state.0 == 2 ==> r == Ok::<PeerState, DecodeError>(PeerState::Login)
                &&& (h.next_state.0 != 1 && h.next_state.0 != 2) ==> r is Err
            },
        },
{
    match p {
        sb_handshake::Packet::Handshake(h) => next_state_for(h.next_state.0),
    }
}

/// Answers one Status-state packet: a status request gets the configured
/// status document, a ping gets its payload echoed.
pub fn handle_status_packet(p: &sb_status::Packet, status_json: &NetString) -> (r:
    cb_status::Packet)
    ensures
        match p {
            sb_status::Packet::StatusRequest(_) => r matches cb_status::Packet::StatusResponse(
                resp,
            ) && resp.json_resp.data@ == status_json.data@,
            sb_status::Packet::PingRequest(q) => r matches cb_status::Packet::PingResponse(resp)
                && resp.payload == q.payload,
        },
{
    match p {
        sb_status::Packet::StatusRequest(_) => cb_status::Packet::StatusResponse(
            cb_status::StatusResponse { json_resp: NetString { data: crate::text::clone_bytes(&status_json.data) } },
        ),
        sb_status::Packet::PingRequest(q) => cb_status::Packet::PingResponse(
            cb_status::PingResponse { payload: q.payload },
        ),
    }
}

/// The chat message sent when a login is rejected: the peer's address in
/// white bold between red text, then an italic dark-red line.
pub open spec fn login_rejection_v(addr: Seq<u8>) -> ChatRootV {
    ChatRootV::Many(
        seq![
            plain_component_v(("Your IP is ").spec_bytes(), ("red").spec_bytes(), None, None),
            plain_component_v(addr, ("white").spec_bytes(), Some(true), None),
            plain_component_v((".").spec_bytes(), ("red").spec_bytes(), None, None),
            plain_component_v(
                ("\n\nRun.").spec_bytes(),
                ("dark_red").spec_bytes(),
                None,
                Some(true),
            ),
        ],
    )
}

/// A component carrying only text, a color, and optional bold and italic
/// flags.
pub open spec fn plain_component_v(
    text: Seq<u8>,
    color: Seq<u8>,
    bold: Option<bool>,
    italic: Option<bool>,
) -> ChatComponentV {
    ChatComponentV {
        text: Some(text),
        translate: None,
        keybind: None,
        font: None,
        color: Some(color),
        insertion: None,
        bold,
        italic,
        underlined: None,
        strikethrough: None,
        obfuscated: None,
        click_event: None,
        hover_event: None,
    }
}

/// Builds one plain chat component.
fn plain_component(text: Vec<u8>, color: Vec<u8>, bold: Option<bool>, italic: Option<bool>) -> (r:
    ChatComponent)
    ensures
        r.deep_view() == plain_component_v(text@, color@, bold, italic),
{
    let r = ChatComponent {
        text: Some(text),
        translate: None,
        keybind: None,
        font: None,
        color: Some(color),
        insertion: None,
        bold,
        italic,
        underlined: None,
        strikethrough: None,
        obfuscated: None,
        click_event: None,
        hover_event: None,
    };
    proof {
        assert(r.deep_view() =~~= plain_component_v(
            r.text.deep_view().unwrap(),
            r.color.deep_view().unwrap(),
            bold,
            italic,
        ));
    }
    r
}

/// The reply to a login attempt: this server rejects every login with a
/// chat message naming the peer's address.
pub fn handle_login_start(peer_addr: &NetString) -> (r: cb_login::Packet)
    ensures
        r matches cb_login::Packet::Disconnect(d) && d.deep_view() == login_rejection_v(
            peer_addr.data@,
        ),
{
    let mut parts: Vec<ChatComponent> = Vec::new();
    parts.push(
        plain_component(
            crate::text::text_bytes("Your IP is "),
            crate::text::text_bytes("red"),
            None,
            None,
        ),
    );
    parts.push(
        plain_component(
            crate::text::clone_bytes(&peer_addr.data),
            crate::text::text_bytes("white"),
            Some(true),
            None,
        ),
    );
    parts.push(plain_component(crate::text::text_bytes("."), crate::text::text_bytes("red"), None, None));
    parts.push(
        plain_component(
            crate::text::text_bytes("\n\nRun."),
            crate::text::text_bytes("dark_red"),
            None,
            Some(true),
        ),
    );
    let d = cb_login::Disconnect { reason: Json::new(ChatRoot::Many(parts)) };
    proof {
        assert(d.deep_view() =~~= login_rejection_v(peer_addr.data@));
    }
    cb_login::Packet::Disconnect(d)
}

} // verus!
