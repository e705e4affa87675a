//! Schema-shaped access to a parsed JSON document.
//!
//! Mirroring the wire codec's two phases, a schema type first asserts the
//! shape of a node (`make_shortcut`, a cheap handle), then exposes
//! fallible per-field accessors over that handle; `validate_deep` walks
//! every declared field so the whole subtree is known to match before any
//! value is reified. Absent keys and keys of the wrong JSON kind are
//! distinguished error cases.

use vstd::prelude::*;
use vstd::string::StringSliceAdditionalSpecFns;

use crate::error::{DecodeError, ItemPathPart};
use crate::interner::Intern;
use crate::json_document::{JsonArray, JsonDocument, JsonObject, JsonValue};

verus! {

/// The text behind an intern handle of this document.
pub open spec fn text_of(doc: JsonDocument, i: Intern) -> Seq<u8> {
    doc.interner.texts()[i.id as int]
}

/// An optional string field: absent or null reads as `None`, a string
/// reads as its handle, any other kind is a mismatch.
pub open spec fn s_opt_string(doc: JsonDocument, obj: JsonObject, key: Seq<u8>) -> Option<
    Option<Intern>,
> {
    match doc.spec_object_field(obj, key) {
        None => Some(None),
        Some(JsonValue::Null) => Some(None),
        Some(JsonValue::Text(i)) => Some(Some(i)),
        Some(_) => None,
    }
}

/// A required string field: anything but a string is a mismatch.
pub open spec fn s_req_string(doc: JsonDocument, obj: JsonObject, key: Seq<u8>) -> Option<
    Intern,
> {
    match doc.spec_object_field(obj, key) {
        Some(JsonValue::Text(i)) => Some(i),
        _ => None,
    }
}

/// An optional boolean field.
pub open spec fn s_opt_bool(doc: JsonDocument, obj: JsonObject, key: Seq<u8>) -> Option<
    Option<bool>,
> {
    match doc.spec_object_field(obj, key) {
        None => Some(None),
        Some(JsonValue::Null) => Some(None),
        Some(JsonValue::Boolean(b)) => Some(Some(b)),
        Some(_) => None,
    }
}

/// An optional object-valued field.
pub open spec fn s_opt_object(doc: JsonDocument, obj: JsonObject, key: Seq<u8>) -> Option<
    Option<JsonObject>,
> {
    match doc.spec_object_field(obj, key) {
        None => Some(None),
        Some(JsonValue::Null) => Some(None),
        Some(JsonValue::Object(o)) => Some(Some(o)),
        Some(_) => None,
    }
}

/// A required unsigned byte field.
pub open spec fn s_req_u8(doc: JsonDocument, obj: JsonObject, key: Seq<u8>) -> Option<u8> {
    match doc.spec_object_field(obj, key) {
        Some(JsonValue::Number(crate::json_document::JsonNumber::U64(v))) => if v <= 255 {
            Some(v as u8)
        } else {
            None
        },
        _ => None,
    }
}

/// Reads an optional string field.
pub fn get_opt_string(doc: &JsonDocument, obj: JsonObject, key: &str) -> (r: Result<
    Option<Intern>,
    DecodeError,
>)
    requires
        doc.wf(),
    ensures
        match r {
            Ok(v) => s_opt_string(*doc, obj, key.spec_bytes()) == Some(v) && (match v {
                Some(i) => (i.id as int) < doc.interner.texts().len(),
                None => true,
            }),
            Err(_) => s_opt_string(*doc, obj, key.spec_bytes()) is None,
        },
{
    match doc.object_field(obj, key.as_bytes()) {
        None => Ok(None),
        Some(JsonValue::Null) => Ok(None),
        Some(JsonValue::Text(i)) => Ok(Some(i)),
        Some(_) => Err(DecodeError::new_static("expected a string")),
    }
}

/// Reads a required string field.
pub fn get_req_string(doc: &JsonDocument, obj: JsonObject, key: &str) -> (r: Result<
    Intern,
    DecodeError,
>)
    requires
        doc.wf(),
    ensures
        match r {
            Ok(i) => s_req_string(*doc, obj, key.spec_bytes()) == Some(i) && (i.id as int)
                < doc.interner.texts().len(),
            Err(_) => s_req_string(*doc, obj, key.spec_bytes()) is None,
        },
{
    match doc.object_field(obj, key.as_bytes()) {
        Some(JsonValue::Text(i)) => Ok(i),
        Some(_) => Err(DecodeError::new_static("expected a string")),
        None => Err(DecodeError::new_static("missing required field")),
    }
}

/// Reads an optional boolean field.
pub fn get_opt_bool(doc: &JsonDocument, obj: JsonObject, key: &str) -> (r: Result<
    Option<bool>,
    DecodeError,
>)
    requires
        doc.wf(),
    ensures
        match r {
            Ok(v) => s_opt_bool(*doc, obj, key.spec_bytes()) == Some(v),
            Err(_) => s_opt_bool(*doc, obj, key.spec_bytes()) is None,
        },
{
    match doc.object_field(obj, key.as_bytes()) {
        None => Ok(None),
        Some(JsonValue::Null) => Ok(None),
        Some(JsonValue::Boolean(b)) => Ok(Some(b)),
        Some(_) => Err(DecodeError::new_static("expected a boolean")),
    }
}

/// Reads an optional object-valued field.
pub fn get_opt_object(doc: &JsonDocument, obj: JsonObject, key: &str) -> (r: Result<
    Option<JsonObject>,
    DecodeError,
>)
    requires
        doc.wf(),
    ensures
        match r {
            Ok(v) => s_opt_object(*doc, obj, key.spec_bytes()) == Some(v),
            Err(_) => s_opt_object(*doc, obj, key.spec_bytes()) is None,
        },
{
    match doc.object_field(obj, key.as_bytes()) {
        None => Ok(None),
        Some(JsonValue::Null) => Ok(None),
        Some(JsonValue::Object(o)) => Ok(Some(o)),
        Some(_) => Err(DecodeError::new_static("expected an object")),
    }
}

/// Reads a required unsigned byte field.
pub fn get_req_u8(doc: &JsonDocument, obj: JsonObject, key: &str) -> (r: Result<
    u8,
    DecodeError,
>)
    requires
        doc.wf(),
    ensures
        match r {
            Ok(v) => s_req_u8(*doc, obj, key.spec_bytes()) == Some(v),
            Err(_) => s_req_u8(*doc, obj, key.spec_bytes()) is None,
        },
{
    match doc.object_field(obj, key.as_bytes()) {
        Some(JsonValue::Number(crate::json_document::JsonNumber::U64(v))) => if v <= 255 {
            Ok(v as u8)
        } else {
            Err(DecodeError::new_static("number does not fit a byte"))
        },
        Some(_) => Err(DecodeError::new_static("expected a number")),
        None => Err(DecodeError::new_static("missing required field")),
    }
}

/// Copies the text behind an intern handle out of the document.
pub fn reify_text(doc: &JsonDocument, i: Intern) -> (r: Vec<u8>)
    requires
        doc.wf(),
        (i.id as int) < doc.interner.texts().len(),
    ensures
        r@ == text_of(*doc, i),
{
    vstd::slice::slice_to_vec(doc.string_value(i).as_slice())
}

/// Stamps a field name onto a failed schema access.
pub fn at_field<R>(name: &'static str, r: Result<R, DecodeError>) -> (out: Result<
    R,
    DecodeError,
>)
    ensures
        out is Ok <==> r is Ok,
        match r {
            Ok(_) => out == r,
            Err(e) => out matches Err(oe) && oe.item_path@ == e.item_path@.push(
                ItemPathPart::Named(name),
            ) && oe.item_kind == e.item_kind && oe.message == e.message,
        },
{
    DecodeError::pathed(ItemPathPart::Named(name), r)
}

} // verus!
