//! The JSON document model, the chat schema, and the chat wire field.

use raft_proto::byte_stream::ByteCursor;
use raft_proto::chat::{
    ChatComponent, ChatComponentView, ChatRoot, Json, CHAT_MAX_LEN,
};
use raft_proto::driver_core::handle_login_start;
use raft_proto::json_document::{JsonDocument, JsonNumber, JsonValue};
use raft_proto::primitives::{DeserializeFor, NetString, SerializeInto};
use raft_proto::interner::Interner;
use raft_proto::protocol::cb_login;

fn parse(text: &str) -> JsonDocument {
    JsonDocument::parse(text.as_bytes()).expect("well-formed document")
}

fn component_view(doc: &JsonDocument) -> ChatComponentView {
    ChatComponentView::make_shortcut(doc, Some(doc.root())).expect("an object")
}

#[test]
fn schema_round_trip_on_a_small_document() {
    let doc = parse("{\"text\":\"hi\",\"bold\":true}");
    let view = component_view(&doc);
    view.validate_deep(&doc).expect("matches the schema");
    let c = view.try_reify(&doc).expect("reifies");
    assert_eq!(c.text, Some(b"hi".to_vec()));
    assert_eq!(c.bold, Some(true));
    assert_eq!(c.italic, None);
    assert_eq!(c.color, None);
}

#[test]
fn wrong_kind_fails_validation_with_the_field_named() {
    let doc = parse("{\"text\":\"hi\",\"bold\":\"yes\"}");
    let view = component_view(&doc);
    let err = view.validate_deep(&doc).expect_err("a string is not a boolean");
    let text = err.describe();
    assert!(text.contains("bold"), "the failing field is named: {}", text);
}

#[test]
fn missing_required_field_fails_validation() {
    let doc = parse("{\"click_event\":{\"action\":\"run\"}}");
    let view = component_view(&doc);
    let err = view.validate_deep(&doc).expect_err("value is required");
    let text = err.describe();
    assert!(text.contains("click_event"), "the failing path is named: {}", text);
}

#[test]
fn nested_events_validate_and_reify() {
    let doc = parse(
        "{\"text\":\"go\",\"click_event\":{\"action\":\"open_url\",\"value\":\"x\"},\
         \"hover_event\":{\"show_item\":{\"id\":\"apple\",\"count\":3}}}",
    );
    let view = component_view(&doc);
    view.validate_deep(&doc).expect("valid");
    let c = view.try_reify(&doc).expect("reifies");
    let click = c.click_event.expect("click");
    assert_eq!(click.action, b"open_url".to_vec());
    assert_eq!(click.value, b"x".to_vec());
    let item = c.hover_event.expect("hover").show_item.expect("item");
    assert_eq!(item.id, b"apple".to_vec());
    assert_eq!(item.count, 3);
    assert_eq!(item.tag, None);
}

#[test]
fn document_lookups_and_values() {
    let doc = parse("{\"a\":[1,-2,null],\"b\":{\"x\":\"y\"},\"dup\":\"y\"}");
    let root = match doc.root() {
        JsonValue::Object(o) => o,
        other => panic!("expected an object, got {:?}", other),
    };
    let arr = match doc.object_field(root, b"a") {
        Some(JsonValue::Array(a)) => a,
        other => panic!("expected an array, got {:?}", other),
    };
    assert_eq!(arr.len, 3);
    match doc.array_element(arr, 0) {
        Some(JsonValue::Number(JsonNumber::U64(1))) => {},
        other => panic!("unexpected element: {:?}", other),
    }
    match doc.array_element(arr, 1) {
        Some(JsonValue::Number(JsonNumber::I64(-2))) => {},
        other => panic!("unexpected element: {:?}", other),
    }
    match doc.array_element(arr, 2) {
        Some(JsonValue::Null) => {},
        other => panic!("unexpected element: {:?}", other),
    }
    assert!(doc.array_element(arr, 3).is_none());
    assert!(doc.object_field(root, b"missing").is_none());
}

#[test]
fn repeated_keys_keep_the_last_value() {
    let doc = parse("{\"a\":1,\"a\":2}");
    let root = match doc.root() {
        JsonValue::Object(o) => o,
        other => panic!("expected an object, got {:?}", other),
    };
    match doc.object_field(root, b"a") {
        Some(JsonValue::Number(JsonNumber::U64(2))) => {},
        other => panic!("unexpected value: {:?}", other),
    }
}

#[test]
fn parser_rejects_malformed_documents() {
    assert!(JsonDocument::parse(b"{").is_err());
    assert!(JsonDocument::parse(b"{\"a\":}").is_err());
    assert!(JsonDocument::parse(b"[1,]").is_err());
    assert!(JsonDocument::parse(b"{} trailing").is_err());
    assert!(JsonDocument::parse(b"\"lone\\u0041 high \\ud800\"").is_err());
    assert!(JsonDocument::parse(b"1.5").is_err(), "this codec carries no floats");
}

#[test]
fn parser_decodes_escapes_and_surrogate_pairs() {
    let doc = parse("{\"text\":\"a\\n\\\"b\\\"\\u0041\\ud83d\\ude00\"}");
    let view = component_view(&doc);
    let c = view.try_reify(&doc).expect("reifies");
    assert_eq!(c.text, Some("a\n\"b\"A\u{1F600}".as_bytes().to_vec()));
}

#[test]
fn chat_wire_field_round_trips() {
    let reply = handle_login_start(&NetString::from_static_str("203.0.113.9:1024"));
    let packet_bytes = {
        let mut out: Vec<u8> = Vec::new();
        match &reply {
            cb_login::Packet::Disconnect(d) => d.serialize(&mut out).expect("encodable"),
            _ => panic!("wrong reply: not a disconnect"),
        }
        out
    };
    let mut cursor = ByteCursor::new(&packet_bytes);
    let back = Json::decode(&mut cursor).expect("round trip");
    match back.root {
        ChatRoot::Many(parts) => {
            assert_eq!(parts.len(), 4);
            assert_eq!(parts[0].text, Some(b"Your IP is ".to_vec()));
            assert_eq!(parts[0].color, Some(b"red".to_vec()));
            assert_eq!(parts[1].text, Some(b"203.0.113.9:1024".to_vec()));
            assert_eq!(parts[1].bold, Some(true));
            assert_eq!(parts[3].italic, Some(true));
            assert_eq!(parts[3].color, Some(b"dark_red".to_vec()));
        },
        other => panic!("expected an array form, got {:?}", other),
    }
}

#[test]
fn chat_text_is_escaped_on_the_way_out() {
    let c = ChatComponent {
        text: Some(b"say \"hi\"\\".to_vec()),
        translate: None,
        keybind: None,
        font: None,
        color: None,
        insertion: None,
        bold: None,
        italic: None,
        underlined: None,
        strikethrough: None,
        obfuscated: None,
        click_event: None,
        hover_event: None,
    };
    let json = Json::new(ChatRoot::One(c));
    let mut out: Vec<u8> = Vec::new();
    json.serialize(&mut out).expect("encodable");
    let mut cursor = ByteCursor::new(&out);
    let text = NetString::decode(&mut cursor, Some(CHAT_MAX_LEN)).expect("a string field");
    assert_eq!(
        text.bytes(),
        &b"{\"text\":\"say \\\"hi\\\"\\\\\"}".to_vec()
    );
    let mut cursor = ByteCursor::new(&out);
    let back = Json::decode(&mut cursor).expect("parses back");
    match back.root {
        ChatRoot::One(comp) => assert_eq!(comp.text, Some(b"say \"hi\"\\".to_vec())),
        other => panic!("expected one component, got {:?}", other),
    }
}

#[test]
fn chat_root_accepts_object_or_array_only() {
    let doc = parse("\"bare\"");
    assert!(ChatRoot::make_shortcut(&doc, doc.root()).is_err());
    let doc = parse("[{\"text\":\"a\"},{\"text\":\"b\"}]");
    let sc = ChatRoot::make_shortcut(&doc, doc.root()).expect("array form");
    ChatRoot::validate_deep(&doc, sc).expect("both components valid");
    match ChatRoot::try_reify(&doc, sc).expect("reifies") {
        ChatRoot::Many(parts) => {
            assert_eq!(parts.len(), 2);
            assert_eq!(parts[1].text, Some(b"b".to_vec()));
        },
        other => panic!("expected the array form, got {:?}", other),
    }
    let doc = parse("[{\"text\":\"a\"},3]");
    let sc = ChatRoot::make_shortcut(&doc, doc.root()).expect("array form");
    assert!(ChatRoot::validate_deep(&doc, sc).is_err());
}

#[test]
fn chat_decode_rejects_schema_refused_documents() {
    // well-formed JSON whose shape the chat schema refuses
    for text in ["[3]", "\"bare\"", "{\"text\":3}", "[{\"text\":\"a\"},null]"] {
        let ns = NetString::from_static_str(text);
        let mut wire: Vec<u8> = Vec::new();
        ns.serialize(&mut wire, Some(CHAT_MAX_LEN)).expect("within bounds");
        let mut cursor = ByteCursor::new(&wire);
        assert!(Json::decode(&mut cursor).is_err(), "accepted: {}", text);
    }
    // the same wire layer with an accepted shape still decodes
    let ns = NetString::from_static_str("{\"text\":\"ok\"}");
    let mut wire: Vec<u8> = Vec::new();
    ns.serialize(&mut wire, Some(CHAT_MAX_LEN)).expect("within bounds");
    let mut cursor = ByteCursor::new(&wire);
    let j = Json::decode(&mut cursor).expect("accepted shape");
    match j.root {
        ChatRoot::One(c) => assert_eq!(c.text, Some(b"ok".to_vec())),
        other => panic!("expected one component, got {:?}", other),
    }
}

#[test]
fn interner_deduplicates_keys() {
    let mut interner = Interner::new();
    let a = interner.intern(b"text").expect("interned");
    let b = interner.intern(b"bold").expect("interned");
    let a2 = interner.intern(b"text").expect("interned");
    assert_eq!(a.id(), a2.id());
    assert_ne!(a.id(), b.id());
    assert_eq!(interner.decode(a), &b"text".to_vec());
    assert_eq!(interner.find_intern(b"bold").map(|i| i.id()), Some(b.id()));
    assert_eq!(interner.find_intern(b"missing"), None);
}
