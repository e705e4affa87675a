//! The JSON document model and its single-pass parser.
//!
//! A document is a flat, id-keyed graph: object and array containers get
//! incrementing generation ids, and every `(container id, key or index)`
//! pair maps to exactly one child value in one hash map, so field lookups
//! are map lookups rather than pointer chasing. String content (keys and
//! values alike) is interned per document.
//!
//! The parser makes one pass over UTF-8 bytes. Its lexing is a supplied
//! primitive of the codec: the verified contracts start at the document
//! model it produces (well-formed ids, exact lookup behaviour), on which
//! the schema layer in [`crate::json_schema`] is specified precisely.

use vstd::hash_map::HashMapWithView;
use vstd::prelude::*;

use crate::byte_stream::ByteCursor;
use crate::error::{located, DecodeError};
use crate::interner::{spec_find_text, Intern, Interner};
use crate::text::push_utf8_scalar;

verus! {

/// A handle to one JSON object in a document.
#[derive(Debug, Copy, Clone, PartialEq, Eq, Structural)]
pub struct JsonObject(pub u32);

/// A handle to one JSON array in a document, with its element count.
#[derive(Debug, Copy, Clone, PartialEq, Eq, Structural)]
pub struct JsonArray {
    /// The container's generation id.
    pub id: u32,
    /// How many elements the array holds.
    pub len: u32,
}

impl JsonArray {
    /// How many elements the array holds.
    pub fn len(self) -> (r: u32)
        ensures
            r == self.len,
    {
        self.len
    }
}

/// A JSON number: non-negative integers parse unsigned, negative ones
/// signed. Numbers with a fraction or exponent are not accepted by this
/// codec, which never carries floating-point values.
#[derive(Debug, Copy, Clone, PartialEq, Eq, Structural)]
pub enum JsonNumber {
    /// A non-negative integer.
    U64(u64),
    /// A negative integer.
    I64(i64),
}

impl JsonNumber {
    /// The number as an unsigned integer; negative values are refused.
    pub fn as_uint(self) -> (r: Result<u64, DecodeError>)
        ensures
            match self {
                JsonNumber::U64(v) => r == Ok::<u64, DecodeError>(v),
                JsonNumber::I64(v) => if v >= 0 {
                    r == Ok::<u64, DecodeError>(v as u64)
                } else {
                    r is Err
                },
            },
    {
        match self {
            JsonNumber::U64(v) => Ok(v),
            JsonNumber::I64(v) => if v >= 0 {
                Ok(v as u64)
            } else {
                Err(DecodeError::new_static("expected a non-negative number"))
            },
        }
    }

    /// The number as a signed integer; values past `i64::MAX` are refused.
    pub fn as_int(self) -> (r: Result<i64, DecodeError>)
        ensures
            match self {
                JsonNumber::U64(v) => if v <= 0x7fff_ffff_ffff_ffff {
                    r == Ok::<i64, DecodeError>(v as i64)
                } else {
                    r is Err
                },
                JsonNumber::I64(v) => r == Ok::<i64, DecodeError>(v),
            },
    {
        match self {
            JsonNumber::U64(v) => if v <= 0x7fff_ffff_ffff_ffff {
                Ok(v as i64)
            } else {
                Err(DecodeError::new_static("number does not fit a signed integer"))
            },
            JsonNumber::I64(v) => Ok(v),
        }
    }
}

/// One JSON value: containers by id, strings by intern handle, and plain
/// scalars inline.
#[derive(Debug, Copy, Clone, PartialEq, Eq, Structural)]
pub enum JsonValue {
    /// An object, by container id.
    Object(JsonObject),
    /// An array, by container id.
    Array(JsonArray),
    /// A string, by intern handle.
    Text(Intern),
    /// A number.
    Number(JsonNumber),
    /// A boolean.
    Boolean(bool),
    /// The null value.
    Null,
}

/// The map key of the child under `key` in container `parent`.
pub open spec fn key_pack(parent: u32, key: u32) -> u64 {
    (parent * 0x1_0000_0000 + key) as u64
}

/// Packs a container id and a key id into one map key.
pub fn pack_key(parent: u32, key: u32) -> (r: u64)
    ensures
        r == key_pack(parent, key),
{
    proof {
        assert(((parent as u64) << 32u64 | key as u64) == (parent as u64) * 0x1_0000_0000 + key
            as u64) by (bit_vector);
    }
    ((parent as u64) << 32u64) | key as u64
}


/// The parent container a child key names.
pub open spec fn key_parent(k: u64) -> u64 {
    k / 0x1_0000_0000
}

/// Packing is invertible: the parent (and the key) can be read back.
pub proof fn lemma_key_pack_parts(parent: u32, key: u32)
    ensures
        key_parent(key_pack(parent, key)) == parent,
{
    assert(((parent as u64) * 0x1_0000_0000 + (key as u64)) / 0x1_0000_0000 == parent as u64)
        by (nonlinear_arith)
        requires
            (key as u64) < 0x1_0000_0000,
    ;
}

/// The map holds an element entry for an array exactly below its stored
/// length.
pub open spec fn array_complete(m: Map<u64, JsonValue>, a: JsonArray) -> bool {
    forall|i: u32| m.dom().contains(key_pack(a.id, i)) <==> (i as int) < a.len
}

/// An array value's stored length is exact, and its id is one the
/// document has handed out.
pub open spec fn value_arrays_ok(m: Map<u64, JsonValue>, gen: u32, v: JsonValue) -> bool {
    match v {
        JsonValue::Array(a) => array_complete(m, a) && a.id <= gen,
        _ => true,
    }
}

/// Every array value in the document (stored or at the root) has an
/// exact length, and every child key names a container the document has
/// handed out.
pub open spec fn doc_arrays_complete(d: JsonDocument) -> bool {
    &&& forall|k: u64|
        d.map@.dom().contains(k) ==> value_arrays_ok(d.map@, d.gen, #[trigger] d.map@[k])
    &&& value_arrays_ok(d.map@, d.gen, d.root)
    &&& forall|k: u64| #[trigger] d.map@.dom().contains(k) ==> key_parent(k) <= d.gen as u64
}


/// For any array value of a parsed document (stored or at the root), an
/// element is present exactly below the stored length: `array_element`
/// answers `Some` iff the index is in range of `len`.
pub proof fn lemma_array_len_exact(d: JsonDocument, a: JsonArray, i: u32)
    requires
        doc_arrays_complete(d),
        d.root == JsonValue::Array(a) || exists|k: u64|
            #[trigger] d.map@.dom().contains(k) && d.map@[k] == JsonValue::Array(a),
    ensures
        d.spec_array_element(a, i) is Some <==> (i as int) < a.len,
{
    if d.root == JsonValue::Array(a) {
        assert(value_arrays_ok(d.map@, d.gen, d.root));
    } else {
        let k = choose|k: u64| #[trigger] d.map@.dom().contains(k) && d.map@[k]
            == JsonValue::Array(a);
        assert(value_arrays_ok(d.map@, d.gen, d.map@[k]));
    }
}

/// A larger id space keeps the document's arrays exact.
proof fn lemma_arrays_complete_gen_mono(a: JsonDocument, b: JsonDocument)
    requires
        doc_arrays_complete(a),
        b.map@ == a.map@,
        b.root == a.root,
        a.gen <= b.gen,
    ensures
        doc_arrays_complete(b),
{
}

/// A parsed, immutable JSON document.
pub struct JsonDocument {
    /// The per-document string table.
    pub interner: Interner,
    /// The flat child map: `(container id, key or index)` to value.
    pub map: HashMapWithView<u64, JsonValue>,
    /// The document's top value.
    pub root: JsonValue,
    /// The last container id handed out.
    pub gen: u32,
}

impl JsonDocument {
    /// Whether a value's handles stay inside this document's tables.
    pub open spec fn value_ok(self, v: JsonValue) -> bool {
        match v {
            JsonValue::Text(it) => (it.id as int) < self.interner.texts().len(),
            _ => true,
        }
    }

    /// The tables are well-formed and every stored value points into them.
    pub open spec fn wf(self) -> bool {
        &&& self.interner.wf()
        &&& self.value_ok(self.root)
        &&& forall|k: u64| self.map@.dom().contains(k) ==> self.value_ok(#[trigger] self.map@[k])
    }

    /// The value under `key` in object `obj`, if the key text is interned
    /// and the pair is present.
    pub open spec fn spec_object_field(self, obj: JsonObject, key: Seq<u8>) -> Option<JsonValue> {
        match spec_find_text(self.interner.texts(), key) {
            Some(id) => if self.map@.dom().contains(key_pack(obj.0, id as u32)) {
                Some(self.map@[key_pack(obj.0, id as u32)])
            } else {
                None
            },
            None => None,
        }
    }

    /// The element at `idx` in array `arr`, if present.
    pub open spec fn spec_array_element(self, arr: JsonArray, idx: u32) -> Option<JsonValue> {
        if self.map@.dom().contains(key_pack(arr.id, idx)) {
            Some(self.map@[key_pack(arr.id, idx)])
        } else {
            None
        }
    }

    /// The document's top value.
    pub fn root(&self) -> (r: JsonValue)
        ensures
            r == self.root,
    {
        self.root
    }

    /// Looks up the value under `key` in object `obj`.
    pub fn object_field(&self, obj: JsonObject, key: &[u8]) -> (r: Option<JsonValue>)
        requires
            self.wf(),
        ensures
            r == self.spec_object_field(obj, key@),
            match r {
                Some(v) => self.value_ok(v),
                None => true,
            },
    {
        match self.interner.find_intern(key) {
            Some(it) => {
                proof {
                    crate::interner::lemma_spec_find_text(self.interner.texts(), key@);
                }
                let k = pack_key(obj.0, it.id());
                match self.map.get(&k) {
                    Some(v) => Some(*v),
                    None => None,
                }
            },
            None => None,
        }
    }

    /// Looks up the element at `idx` in array `arr`.
    pub fn array_element(&self, arr: JsonArray, idx: u32) -> (r: Option<JsonValue>)
        requires
            self.wf(),
        ensures
            r == self.spec_array_element(arr, idx),
            match r {
                Some(v) => self.value_ok(v),
                None => true,
            },
    {
        let k = pack_key(arr.id, idx);
        match self.map.get(&k) {
            Some(v) => Some(*v),
            None => None,
        }
    }

    /// The text of an interned string value.
    pub fn string_value(&self, it: Intern) -> (r: &Vec<u8>)
        requires
            self.wf(),
            (it.id as int) < self.interner.texts().len(),
        ensures
            r@ == self.interner.texts()[it.id as int],
    {
        self.interner.decode(it)
    }

    /// Parses a self-contained JSON text into a document.
    ///
    /// Succeeds exactly on well-formed text (of a length the document's
    /// ids can cover): optional whitespace, one value, optional
    /// whitespace, nothing else, with every construct inside well-formed
    /// under [`json_text_wf`]'s grammar.
    pub fn parse(text: &[u8]) -> (r: Result<JsonDocument, DecodeError>)
        ensures
            r is Ok <==> (text@.len() <= 0xffff_ffff && json_text_wf(text@)),
            match r {
                Ok(d) => d.wf() && doc_arrays_complete(d) && (d.root is Object <==> text@[
                    ws_end(text@, 0)
                ] == 0x7b) && (d.root is Array <==> text@[ws_end(text@, 0)] == 0x5b),
                Err(_) => true,
            },
    {
        broadcast use vstd::std_specs::hash::axiom_u64_obeys_hash_table_key_model;

        if text.len() > 0xffff_ffff {
            return Err(
                DecodeError::new_static("document is too long for its id space").with_kind(
                    "JSON",
                ),
            );
        }
        let mut doc = JsonDocument {
            interner: Interner::new(),
            map: HashMapWithView::<u64, JsonValue>::new(),
            root: JsonValue::Null,
            gen: 0,
        };
        let mut cursor = ByteCursor::new(text);
        skip_ws(&mut cursor);
        let ghost w0 = cursor.pos as int;
        proof {
            lemma_ws_end_bounds(text@, 0);
            assert(doc_arrays_complete(doc));
        }
        let v = match parse_value(&mut doc, &mut cursor) {
            Ok(v) => v,
            Err(err) => {
                return Err(err);
            },
        };
        let ghost e = cursor.pos as int;
        proof {
            lemma_value_end_bounds(text@, w0);
        }
        skip_ws(&mut cursor);
        if !cursor.is_empty() {
            return Err(
                located("unexpected bytes after the end of the document", cursor.pos()).with_kind(
                    "JSON",
                ),
            );
        }
        doc.root = v;
        Ok(doc)
    }
}


// === The JSON grammar, as a specification === //
//
// The functions below define which byte runs this codec accepts as JSON,
// as a deterministic recursive-descent reading that returns where each
// construct ends. The executable parser is verified two-sided against
// them: it succeeds exactly on well-formed text. Positions only are
// defined here; the parsed value lives in the document the parser builds.
//
// Recursions that re-enter at a computed position carry a strictness
// guard (`<= at` yields `None`); parsing always advances, so the guard
// never fires on reachable inputs, and it makes termination evident.

/// JSON whitespace.
pub open spec fn is_json_ws(b: u8) -> bool {
    b == 0x20 || b == 0x09 || b == 0x0a || b == 0x0d
}

/// The first position at or after `at` holding something other than
/// whitespace (or the end of the text).
pub open spec fn ws_end(s: Seq<u8>, at: int) -> int
    decreases s.len() - at,
{
    if 0 <= at && at < s.len() && is_json_ws(s[at]) {
        ws_end(s, at + 1)
    } else {
        at
    }
}

/// The value of one hex digit.
pub open spec fn hex_nibble(b: u8) -> Option<u8> {
    if 0x30 <= b && b <= 0x39 {
        Some((b - 0x30) as u8)
    } else if 0x61 <= b && b <= 0x66 {
        Some((b - 0x61 + 10) as u8)
    } else if 0x41 <= b && b <= 0x46 {
        Some((b - 0x41 + 10) as u8)
    } else {
        None
    }
}

/// The value of four hex digits at `at`.
pub open spec fn hex4_val(s: Seq<u8>, at: int) -> Option<u16> {
    if 0 <= at && at + 4 <= s.len() {
        match (hex_nibble(s[at]), hex_nibble(s[at + 1]), hex_nibble(s[at + 2]), hex_nibble(
            s[at + 3],
        )) {
            (Some(a), Some(b), Some(c), Some(d)) => Some(
                ((a as u16) * 0x1000 + (b as u16) * 0x100 + (c as u16) * 0x10 + (d as u16)) as u16,
            ),
            _ => None,
        }
    } else {
        None
    }
}

/// Where the escape starting at `at` (just past the backslash) ends.
pub open spec fn escape_end(s: Seq<u8>, at: int) -> Option<int> {
    if 0 <= at && at < s.len() {
        let e = s[at];
        if e == 0x22 || e == 0x5c || e == 0x2f || e == 0x62 || e == 0x66 || e == 0x6e || e == 0x72
            || e == 0x74 {
            Some(at + 1)
        } else if e == 0x75 {
            match hex4_val(s, at + 1) {
                Some(hi) => {
                    if 0xd800 <= hi && hi <= 0xdbff {
                        // a high surrogate must pair with a low one
                        if at + 7 <= s.len() && s[at + 5] == 0x5c && s[at + 6] == 0x75 {
                            match hex4_val(s, at + 7) {
                                Some(lo) => if 0xdc00 <= lo && lo <= 0xdfff {
                                    Some(at + 11)
                                } else {
                                    None
                                },
                                None => None,
                            }
                        } else {
                            None
                        }
                    } else if 0xdc00 <= hi && hi <= 0xdfff {
                        None
                    } else {
                        Some(at + 5)
                    }
                },
                None => None,
            }
        } else {
            None
        }
    } else {
        None
    }
}

/// Where the string content starting at `at` (just past the opening
/// quote) ends, one past the closing quote.
pub open spec fn string_end(s: Seq<u8>, at: int) -> Option<int>
    decreases s.len() - at,
{
    if 0 <= at && at < s.len() {
        let b = s[at];
        if b == 0x22 {
            Some(at + 1)
        } else if b == 0x5c {
            match escape_end(s, at + 1) {
                Some(e) => if e <= at || e > s.len() {
                    None
                } else {
                    string_end(s, e)
                },
                None => None,
            }
        } else if b < 0x20 {
            None
        } else {
            string_end(s, at + 1)
        }
    } else {
        None
    }
}

/// The end of the maximal digit run starting at `at`.
pub open spec fn digit_run_end(s: Seq<u8>, at: int) -> int
    decreases s.len() - at,
{
    if 0 <= at && at < s.len() && 0x30 <= s[at] && s[at] <= 0x39 {
        digit_run_end(s, at + 1)
    } else {
        at
    }
}

/// The numeric value of the digits in `a..b`.
pub open spec fn digit_run_val(s: Seq<u8>, a: int, b: int) -> nat
    decreases b - a,
{
    if b <= a {
        0
    } else {
        digit_run_val(s, a, b - 1) * 10 + (s[b - 1] - 0x30) as nat
    }
}

/// Where the number starting at `at` ends. Numbers with a fraction or
/// exponent, or whose magnitude the matching accumulator cannot hold,
/// are not accepted by this codec.
pub open spec fn number_end(s: Seq<u8>, at: int) -> Option<int> {
    if 0 <= at && at < s.len() {
        let neg = s[at] == 0x2d;
        let d0 = if neg {
            at + 1
        } else {
            at
        };
        let de = digit_run_end(s, d0);
        if de == d0 {
            None
        } else if de < s.len() && (s[de] == 0x2e || s[de] == 0x65 || s[de] == 0x45) {
            None
        } else {
            let v = digit_run_val(s, d0, de);
            if neg {
                if v <= 0x8000_0000_0000_0000 {
                    Some(de)
                } else {
                    None
                }
            } else {
                if v <= 0xffff_ffff_ffff_ffff {
                    Some(de)
                } else {
                    None
                }
            }
        }
    } else {
        None
    }
}

/// Where the value starting at `at` ends.
pub open spec fn value_end(s: Seq<u8>, at: int) -> Option<int>
    decreases s.len() - at, 0int,
{
    if 0 <= at && at < s.len() {
        let b = s[at];
        if b == 0x7b {
            object_tail_end(s, at + 1)
        } else if b == 0x5b {
            array_tail_end(s, at + 1)
        } else if b == 0x22 {
            string_end(s, at + 1)
        } else if b == 0x74 {
            if at + 4 <= s.len() && s[at + 1] == 0x72 && s[at + 2] == 0x75 && s[at + 3] == 0x65 {
                Some(at + 4)
            } else {
                None
            }
        } else if b == 0x66 {
            if at + 5 <= s.len() && s[at + 1] == 0x61 && s[at + 2] == 0x6c && s[at + 3] == 0x73
                && s[at + 4] == 0x65 {
                Some(at + 5)
            } else {
                None
            }
        } else if b == 0x6e {
            if at + 4 <= s.len() && s[at + 1] == 0x75 && s[at + 2] == 0x6c && s[at + 3] == 0x6c {
                Some(at + 4)
            } else {
                None
            }
        } else if b == 0x2d || (0x30 <= b && b <= 0x39) {
            number_end(s, at)
        } else {
            None
        }
    } else {
        None
    }
}

/// Where the object whose opening brace sat just before `at` ends.
pub open spec fn object_tail_end(s: Seq<u8>, at: int) -> Option<int>
    decreases s.len() - at, 2int,
{
    if 0 <= at && at <= s.len() {
        let p = ws_end(s, at);
        if p < s.len() && s[p] == 0x7d {
            Some(p + 1)
        } else {
            object_run_end(s, at)
        }
    } else {
        None
    }
}

/// One or more `"key": value` members starting at `at`, up to and past
/// the closing brace.
pub open spec fn object_run_end(s: Seq<u8>, at: int) -> Option<int>
    decreases s.len() - at, 1int,
{
    if 0 <= at && at <= s.len() {
        let p = ws_end(s, at);
        if !(p < s.len() && s[p] == 0x22) {
            None
        } else {
            match string_end(s, p + 1) {
                Some(k) => {
                    let c = ws_end(s, k);
                    if !(c < s.len() && s[c] == 0x3a) {
                        None
                    } else {
                        let v0 = ws_end(s, c + 1);
                        if v0 <= at || v0 > s.len() {
                            None
                        } else {
                            match value_end(s, v0) {
                                Some(e) => {
                                    let q = ws_end(s, e);
                                    if q < s.len() && s[q] == 0x2c {
                                        if q + 1 <= at {
                                            None
                                        } else {
                                            object_run_end(s, q + 1)
                                        }
                                    } else if q < s.len() && s[q] == 0x7d {
                                        Some(q + 1)
                                    } else {
                                        None
                                    }
                                },
                                None => None,
                            }
                        }
                    }
                },
                None => None,
            }
        }
    } else {
        None
    }
}

/// Where the array whose opening bracket sat just before `at` ends.
pub open spec fn array_tail_end(s: Seq<u8>, at: int) -> Option<int>
    decreases s.len() - at, 2int,
{
    if 0 <= at && at <= s.len() {
        let p = ws_end(s, at);
        if p < s.len() && s[p] == 0x5d {
            Some(p + 1)
        } else {
            array_run_end(s, at)
        }
    } else {
        None
    }
}

/// One or more elements starting at `at`, up to and past the closing
/// bracket.
pub open spec fn array_run_end(s: Seq<u8>, at: int) -> Option<int>
    decreases s.len() - at, 1int,
{
    if 0 <= at && at <= s.len() {
        let v0 = ws_end(s, at);
        if v0 < at || v0 > s.len() {
            None
        } else {
            match value_end(s, v0) {
                Some(e) => {
                    let q = ws_end(s, e);
                    if q < s.len() && s[q] == 0x2c {
                        if q + 1 <= at {
                            None
                        } else {
                            array_run_end(s, q + 1)
                        }
                    } else if q < s.len() && s[q] == 0x5d {
                        Some(q + 1)
                    } else {
                        None
                    }
                },
                None => None,
            }
        }
    } else {
        None
    }
}

/// A whole well-formed JSON text: optional whitespace, one value,
/// optional whitespace, nothing else.
pub open spec fn json_text_wf(t: Seq<u8>) -> bool {
    match value_end(t, ws_end(t, 0)) {
        Some(e) => ws_end(t, e) == t.len(),
        None => false,
    }
}


/// Whitespace skipping stays within the text and never moves backward.
pub proof fn lemma_ws_end_bounds(s: Seq<u8>, at: int)
    requires
        0 <= at <= s.len(),
    ensures
        at <= ws_end(s, at) <= s.len(),
    decreases s.len() - at,
{
    if at < s.len() && is_json_ws(s[at]) {
        lemma_ws_end_bounds(s, at + 1);
    }
}

/// A recognized string body ends past its start and within the text.
pub proof fn lemma_string_end_bounds(s: Seq<u8>, at: int)
    ensures
        string_end(s, at) matches Some(e) ==> at < e <= s.len(),
    decreases s.len() - at,
{
    if 0 <= at && at < s.len() {
        let b = s[at];
        if b == 0x5c {
            match escape_end(s, at + 1) {
                Some(e) => {
                    if at < e <= s.len() {
                        lemma_string_end_bounds(s, e);
                    }
                },
                None => {},
            }
        } else if b != 0x22 && b >= 0x20 {
            lemma_string_end_bounds(s, at + 1);
        }
    }
}

/// A digit run stays within the text and never moves backward.
pub proof fn lemma_digit_run_end_bounds(s: Seq<u8>, at: int)
    requires
        0 <= at <= s.len(),
    ensures
        at <= digit_run_end(s, at) <= s.len(),
    decreases s.len() - at,
{
    if at < s.len() && 0x30 <= s[at] && s[at] <= 0x39 {
        lemma_digit_run_end_bounds(s, at + 1);
    }
}

/// A digit run's value only grows as more digits are taken.
pub proof fn lemma_digit_run_val_mono(s: Seq<u8>, a: int, m: int, n: int)
    requires
        a <= m <= n,
    ensures
        digit_run_val(s, a, m) <= digit_run_val(s, a, n),
    decreases n - m,
{
    if m < n {
        lemma_digit_run_val_mono(s, a, m, n - 1);
    }
}

/// A recognized value ends past its start and within the text.
pub proof fn lemma_value_end_bounds(s: Seq<u8>, at: int)
    ensures
        value_end(s, at) matches Some(e) ==> at < e <= s.len(),
    decreases s.len() - at, 0int,
{
    if 0 <= at && at < s.len() {
        let b = s[at];
        if b == 0x7b {
            lemma_object_tail_end_bounds(s, at + 1);
        } else if b == 0x5b {
            lemma_array_tail_end_bounds(s, at + 1);
        } else if b == 0x22 {
            lemma_string_end_bounds(s, at + 1);
        } else if b == 0x2d || (0x30 <= b && b <= 0x39) {
            match number_end(s, at) {
                Some(e) => {
                    let d0 = if s[at] == 0x2d {
                        at + 1
                    } else {
                        at
                    };
                    lemma_digit_run_end_bounds(s, d0);
                },
                None => {},
            }
        }
    }
}

/// A recognized object tail ends past its start and within the text.
pub proof fn lemma_object_tail_end_bounds(s: Seq<u8>, at: int)
    ensures
        object_tail_end(s, at) matches Some(e) ==> at < e <= s.len(),
    decreases s.len() - at, 2int,
{
    if 0 <= at && at <= s.len() {
        lemma_ws_end_bounds(s, at);
        lemma_object_run_end_bounds(s, at);
    }
}

/// A recognized member run ends past its start and within the text.
pub proof fn lemma_object_run_end_bounds(s: Seq<u8>, at: int)
    ensures
        object_run_end(s, at) matches Some(e) ==> at < e <= s.len(),
    decreases s.len() - at, 1int,
{
    if 0 <= at && at <= s.len() {
        let p = ws_end(s, at);
        lemma_ws_end_bounds(s, at);
        if p < s.len() && s[p] == 0x22 {
            lemma_string_end_bounds(s, p + 1);
            match string_end(s, p + 1) {
                Some(k) => {
                    let c = ws_end(s, k);
                    lemma_ws_end_bounds(s, k);
                    if c < s.len() && s[c] == 0x3a {
                        let v0 = ws_end(s, c + 1);
                        lemma_ws_end_bounds(s, c + 1);
                        if at < v0 <= s.len() {
                            lemma_value_end_bounds(s, v0);
                            match value_end(s, v0) {
                                Some(e) => {
                                    let q = ws_end(s, e);
                                    lemma_ws_end_bounds(s, e);
                                    if q < s.len() && s[q] == 0x2c && q + 1 > at {
                                        lemma_object_run_end_bounds(s, q + 1);
                                    }
                                },
                                None => {},
                            }
                        }
                    }
                },
                None => {},
            }
        }
    }
}

/// A recognized array tail ends past its start and within the text.
pub proof fn lemma_array_tail_end_bounds(s: Seq<u8>, at: int)
    ensures
        array_tail_end(s, at) matches Some(e) ==> at < e <= s.len(),
    decreases s.len() - at, 2int,
{
    if 0 <= at && at <= s.len() {
        lemma_ws_end_bounds(s, at);
        lemma_array_run_end_bounds(s, at);
    }
}

/// A recognized element run ends past its start and within the text.
pub proof fn lemma_array_run_end_bounds(s: Seq<u8>, at: int)
    ensures
        array_run_end(s, at) matches Some(e) ==> at < e <= s.len(),
    decreases s.len() - at, 1int,
{
    if 0 <= at && at <= s.len() {
        let v0 = ws_end(s, at);
        lemma_ws_end_bounds(s, at);
        if at <= v0 <= s.len() {
            lemma_value_end_bounds(s, v0);
            match value_end(s, v0) {
                Some(e) => {
                    let q = ws_end(s, e);
                    lemma_ws_end_bounds(s, e);
                    if q < s.len() && s[q] == 0x2c && q + 1 > at {
                        lemma_array_run_end_bounds(s, q + 1);
                    }
                },
                None => {},
            }
        }
    }
}

/// Skipping whitespace is idempotent.
pub proof fn lemma_ws_end_fixed(s: Seq<u8>, at: int)
    requires
        0 <= at <= s.len(),
    ensures
        ws_end(s, ws_end(s, at)) == ws_end(s, at),
    decreases s.len() - at,
{
    if at < s.len() && is_json_ws(s[at]) {
        lemma_ws_end_fixed(s, at + 1);
    }
}

/// A member run reads the same from anywhere inside its leading
/// whitespace.
pub proof fn lemma_object_run_ws(s: Seq<u8>, at: int)
    requires
        0 <= at <= s.len(),
    ensures
        object_run_end(s, at) == object_run_end(s, ws_end(s, at)),
{
    lemma_ws_end_bounds(s, at);
    lemma_ws_end_fixed(s, at);
    let w = ws_end(s, at);
    if w < s.len() && s[w] == 0x22 {
        match string_end(s, w + 1) {
            Some(k) => {
                lemma_string_end_bounds(s, w + 1);
                let c = ws_end(s, k);
                lemma_ws_end_bounds(s, k);
                if c < s.len() && s[c] == 0x3a {
                    let v0 = ws_end(s, c + 1);
                    lemma_ws_end_bounds(s, c + 1);
                    if at < v0 <= s.len() {
                        match value_end(s, v0) {
                            Some(e) => {
                                lemma_value_end_bounds(s, v0);
                                lemma_ws_end_bounds(s, e);
                            },
                            None => {},
                        }
                    }
                }
            },
            None => {},
        }
    }
}

/// An element run reads the same from anywhere inside its leading
/// whitespace.
pub proof fn lemma_array_run_ws(s: Seq<u8>, at: int)
    requires
        0 <= at <= s.len(),
    ensures
        array_run_end(s, at) == array_run_end(s, ws_end(s, at)),
{
    lemma_ws_end_bounds(s, at);
    lemma_ws_end_fixed(s, at);
    let w = ws_end(s, at);
    if at <= w <= s.len() {
        match value_end(s, w) {
            Some(e) => {
                lemma_value_end_bounds(s, w);
                lemma_ws_end_bounds(s, e);
            },
            None => {},
        }
    }
}

/// Advances exactly past JSON whitespace.
fn skip_ws(cursor: &mut ByteCursor)
    requires
        old(cursor).wf(),
    ensures
        final(cursor).wf(),
        final(cursor).original@ == old(cursor).original@,
        final(cursor).pos == ws_end(old(cursor).original@, old(cursor).pos as int),
{
    loop
        invariant
            cursor.wf(),
            cursor.original@ == old(cursor).original@,
            old(cursor).pos <= cursor.pos,
            ws_end(cursor.original@, old(cursor).pos as int) == ws_end(
                cursor.original@,
                cursor.pos as int,
            ),
        decreases cursor.original@.len() - cursor.pos,
    {
        if cursor.pos() >= cursor.original().len() {
            return ;
        }
        let b = cursor.original()[cursor.pos()];
        if b == 0x20 || b == 0x09 || b == 0x0a || b == 0x0d {
            let p = cursor.pos();
            let n = cursor.original().len();
            cursor.set_pos(p + 1);
        } else {
            return ;
        }
    }
}

/// Parses one JSON value at the cursor.
fn parse_value(doc: &mut JsonDocument, cursor: &mut ByteCursor) -> (r: Result<
    JsonValue,
    DecodeError,
>)
    requires
        old(doc).wf(),
        old(cursor).wf(),
        old(cursor).original@.len() <= 0xffff_ffff,
        2 * old(doc).interner.texts().len() <= old(cursor).pos,
        old(doc).gen as int <= old(cursor).pos,
        doc_arrays_complete(*old(doc)),
    ensures
        final(doc).wf(),
        final(cursor).wf(),
        final(cursor).original@ == old(cursor).original@,
        final(cursor).pos >= old(cursor).pos,
        old(doc).interner.texts().len() <= final(doc).interner.texts().len(),
        2 * final(doc).interner.texts().len() <= final(cursor).pos,
        final(doc).gen as int <= final(cursor).pos,
        old(doc).gen <= final(doc).gen,
        final(doc).root == old(doc).root,
        forall|k: u64|
            #[trigger] old(doc).map@.dom().contains(k) ==> final(doc).map@.dom().contains(k)
                && final(doc).map@[k] == old(doc).map@[k],
        forall|k: u64|
            !old(doc).map@.dom().contains(k) && #[trigger] final(doc).map@.dom().contains(k)
                ==> key_parent(k) > old(doc).gen as u64 && (final(doc).map@[k]
                matches JsonValue::Array(a) ==> a.id > old(doc).gen),
        doc_arrays_complete(*final(doc)),
        r is Ok <==> value_end(old(cursor).original@, old(cursor).pos as int) is Some,
        match r {
            Ok(v) => final(doc).value_ok(v) && (value_end(
                old(cursor).original@,
                old(cursor).pos as int,
            ) matches Some(e) && final(cursor).pos == e) && (v is Object <==> old(
                cursor,
            ).original@[old(cursor).pos as int] == 0x7b) && (v is Array <==> old(
                cursor,
            ).original@[old(cursor).pos as int] == 0x5b) && value_arrays_ok(final(doc).map@, final(doc).gen, v) && (
            v matches JsonValue::Array(a) ==> a.id > old(doc).gen),
            Err(_) => true,
        },
    decreases old(cursor).original@.len() - old(cursor).pos, 0int,
{
    let ghost s = cursor.original@;
    let ghost at0 = cursor.pos as int;
    let b = match peek(cursor) {
        Some(b) => b,
        None => {
            return Err(located("expected a value, found end of input", cursor.pos()).with_kind(
                "JSON",
            ));
        },
    };
    if b == 0x7b {
        // '{'
        advance(cursor);
        match parse_object_body(doc, cursor) {
            Ok(obj) => Ok(JsonValue::Object(obj)),
            Err(err) => Err(err),
        }
    } else if b == 0x5b {
        // '['
        advance(cursor);
        match parse_array_body(doc, cursor) {
            Ok(arr) => Ok(JsonValue::Array(arr)),
            Err(err) => Err(err),
        }
    } else if b == 0x22 {
        // '"'
        match parse_string(doc, cursor) {
            Ok(it) => Ok(JsonValue::Text(it)),
            Err(err) => Err(err),
        }
    } else if b == 0x74 {
        // 't'
        advance(cursor);
        expect3(cursor, 0x72, 0x75, 0x65)?;
        Ok(JsonValue::Boolean(true))
    } else if b == 0x66 {
        // 'f'
        advance(cursor);
        expect3(cursor, 0x61, 0x6c, 0x73)?;
        expect1(cursor, 0x65)?;
        Ok(JsonValue::Boolean(false))
    } else if b == 0x6e {
        // 'n'
        advance(cursor);
        expect3(cursor, 0x75, 0x6c, 0x6c)?;
        Ok(JsonValue::Null)
    } else if b == 0x2d || (0x30 <= b && b <= 0x39) {
        match parse_number(cursor) {
            Ok(n) => Ok(JsonValue::Number(n)),
            Err(err) => Err(err),
        }
    } else {
        Err(located("unexpected byte at the start of a value", cursor.pos()).with_kind("JSON"))
    }
}

/// The byte at the cursor, without consuming it.
fn peek(cursor: &ByteCursor) -> (r: Option<u8>)
    requires
        cursor.wf(),
    ensures
        match r {
            Some(b) => cursor.pos < cursor.original@.len() && b == cursor.original@[
                cursor.pos as int
            ],
            None => cursor.pos == cursor.original@.len(),
        },
{
    if cursor.pos() < cursor.original().len() {
        Some(cursor.original()[cursor.pos()])
    } else {
        None
    }
}

/// Consumes one byte.
fn advance(cursor: &mut ByteCursor)
    requires
        old(cursor).wf(),
        old(cursor).pos < old(cursor).original@.len(),
    ensures
        final(cursor).wf(),
        final(cursor).original@ == old(cursor).original@,
        final(cursor).pos == old(cursor).pos + 1,
{
    let p = cursor.pos();
    let n = cursor.original().len();
    proof {
        assert(p < n);
    }
    cursor.set_pos(p + 1);
}

/// Consumes one byte that must equal `a`.
fn expect1(cursor: &mut ByteCursor, a: u8) -> (r: Result<(), DecodeError>)
    requires
        old(cursor).wf(),
    ensures
        final(cursor).wf(),
        final(cursor).original@ == old(cursor).original@,
        final(cursor).pos >= old(cursor).pos,
        r is Ok <==> (old(cursor).pos < old(cursor).original@.len() && old(cursor).original@[
            old(cursor).pos as int
        ] == a),
        r is Ok ==> final(cursor).pos == old(cursor).pos + 1,
{
    match cursor.read() {
        Some(b) if b == a => Ok(()),
        _ => Err(located("malformed literal", cursor.pos()).with_kind("JSON")),
    }
}

/// Consumes three bytes that must equal `a`, `b`, `c`.
fn expect3(cursor: &mut ByteCursor, a: u8, b: u8, c: u8) -> (r: Result<(), DecodeError>)
    requires
        old(cursor).wf(),
    ensures
        final(cursor).wf(),
        final(cursor).original@ == old(cursor).original@,
        final(cursor).pos >= old(cursor).pos,
        r is Ok <==> (old(cursor).pos + 3 <= old(cursor).original@.len() && old(cursor).original@[old(cursor).pos as int] == a && old(cursor).original@[old(cursor).pos + 1]
            == b && old(cursor).original@[old(cursor).pos + 2] == c),
        r is Ok ==> final(cursor).pos == old(cursor).pos + 3,
{
    expect1(cursor, a)?;
    expect1(cursor, b)?;
    expect1(cursor, c)?;
    Ok(())
}

/// Parses one escape sequence, with the cursor on the byte after the
/// backslash, appending the decoded content.
fn parse_escape(cursor: &mut ByteCursor, content: &mut Vec<u8>) -> (r: Result<(), DecodeError>)
    requires
        old(cursor).wf(),
    ensures
        final(cursor).wf(),
        final(cursor).original@ == old(cursor).original@,
        final(cursor).pos >= old(cursor).pos,
        r is Ok <==> escape_end(old(cursor).original@, old(cursor).pos as int) is Some,
        match r {
            Ok(_) => escape_end(old(cursor).original@, old(cursor).pos as int) matches Some(e)
                && final(cursor).pos == e && old(cursor).pos < e <= old(
                cursor,
            ).original@.len(),
            Err(_) => true,
        },
{
    let ghost s = cursor.original@;
    let ghost at0 = cursor.pos as int;
    let e = match cursor.read() {
        Some(e) => e,
        None => {
            return Err(located("unterminated escape", cursor.pos()).with_kind("JSON"));
        },
    };
    if e == 0x22 || e == 0x5c || e == 0x2f {
        content.push(e);
        Ok(())
    } else if e == 0x62 {
        content.push(0x08);
        Ok(())
    } else if e == 0x66 {
        content.push(0x0c);
        Ok(())
    } else if e == 0x6e {
        content.push(0x0a);
        Ok(())
    } else if e == 0x72 {
        content.push(0x0d);
        Ok(())
    } else if e == 0x74 {
        content.push(0x09);
        Ok(())
    } else if e == 0x75 {
        let hi = parse_hex4(cursor)?;
        if 0xd800 <= hi && hi <= 0xdbff {
            // high surrogate: a low surrogate escape must follow
            let b1 = match cursor.read() {
                Some(b) => b,
                None => {
                    return Err(located("lone high surrogate", cursor.pos()).with_kind("JSON"));
                },
            };
            let b2 = match cursor.read() {
                Some(b) => b,
                None => {
                    return Err(located("lone high surrogate", cursor.pos()).with_kind("JSON"));
                },
            };
            if b1 != 0x5c || b2 != 0x75 {
                return Err(located("lone high surrogate", cursor.pos()).with_kind("JSON"));
            }
            let lo = parse_hex4(cursor)?;
            if !(0xdc00 <= lo && lo <= 0xdfff) {
                return Err(located("invalid low surrogate", cursor.pos()).with_kind("JSON"));
            }
            let scalar: u32 = 0x10000 + (((hi - 0xd800) as u32) * 0x400) + ((lo - 0xdc00) as u32);
            proof {
                assert(vstd::utf8::is_scalar(scalar));
            }
            push_utf8_scalar(content, scalar);
            proof {
                assert(escape_end(s, at0) == Some(at0 + 11));
            }
            Ok(())
        } else if 0xdc00 <= hi && hi <= 0xdfff {
            Err(located("lone low surrogate", cursor.pos()).with_kind("JSON"))
        } else {
            let scalar: u32 = hi as u32;
            proof {
                assert(vstd::utf8::is_scalar(scalar));
            }
            push_utf8_scalar(content, scalar);
            proof {
                assert(escape_end(s, at0) == Some(at0 + 5));
            }
            Ok(())
        }
    } else {
        Err(located("unknown escape", cursor.pos()).with_kind("JSON"))
    }
}

/// Parses a quoted string with escapes and interns its decoded content.
fn parse_string(doc: &mut JsonDocument, cursor: &mut ByteCursor) -> (r: Result<
    Intern,
    DecodeError,
>)
    requires
        old(doc).wf(),
        old(cursor).wf(),
        old(cursor).original@.len() <= 0xffff_ffff,
        2 * old(doc).interner.texts().len() <= old(cursor).pos,
        doc_arrays_complete(*old(doc)),
    ensures
        final(doc).wf(),
        final(cursor).wf(),
        final(cursor).original@ == old(cursor).original@,
        final(cursor).pos >= old(cursor).pos,
        old(doc).interner.texts().len() <= final(doc).interner.texts().len(),
        2 * final(doc).interner.texts().len() <= final(cursor).pos,
        final(doc).map@ == old(doc).map@,
        final(doc).root == old(doc).root,
        final(doc).gen == old(doc).gen,
        doc_arrays_complete(*final(doc)),
        r is Ok <==> (old(cursor).pos < old(cursor).original@.len() && old(cursor).original@[
            old(cursor).pos as int
        ] == 0x22 && string_end(old(cursor).original@, old(cursor).pos + 1) is Some),
        match r {
            Ok(it) => (it.id as int) < final(doc).interner.texts().len() && (string_end(
                old(cursor).original@,
                old(cursor).pos + 1,
            ) matches Some(e) && final(cursor).pos == e),
            Err(_) => true,
        },
{
    let ghost s = cursor.original@;
    let ghost at0 = cursor.pos as int;
    let open = match cursor.read() {
        Some(b) => b,
        None => {
            return Err(located("expected a string", cursor.pos()).with_kind("JSON"));
        },
    };
    if open != 0x22 {
        return Err(located("expected an opening quote", cursor.pos()).with_kind("JSON"));
    }
    let mut content: Vec<u8> = Vec::new();
    loop
        invariant
            s == old(cursor).original@,
            at0 == old(cursor).pos as int,
            doc.wf(),
            cursor.wf(),
            cursor.original@ == s,
            s.len() <= 0xffff_ffff,
            0 <= at0 < s.len() && s[at0] == 0x22,
            cursor.pos > at0,
            doc.interner.texts() == old(doc).interner.texts(),
            2 * doc.interner.texts().len() <= at0,
            doc.map@ == old(doc).map@,
            doc.root == old(doc).root,
            doc.gen == old(doc).gen,
            doc_arrays_complete(*doc),
            string_end(s, at0 + 1) == string_end(s, cursor.pos as int),
        decreases s.len() - cursor.pos,
    {
        let ghost bs = cursor.pos as int;
        let b = match cursor.read() {
            Some(b) => b,
            None => {
                proof {
                    assert(string_end(s, bs) is None);
                }
                return Err(located("unterminated string", cursor.pos()).with_kind("JSON"));
            },
        };
        if b == 0x22 {
            // closing quote
            proof {
                assert(string_end(s, bs) == Some(bs + 1));
                assert(doc.interner.texts().len() < 0xffff_ffff);
            }
            match doc.interner.intern(content.as_slice()) {
                Ok(it) => {
                    proof {
                        lemma_value_ok_monotone(*old(doc), *doc);
                    }
                    return Ok(it);
                },
                Err(_) => {
                    proof {
                        assert(false);
                    }
                    return Err(
                        located("too many distinct strings in one document", cursor.pos())
                            .with_kind("JSON"),
                    );
                },
            }
        } else if b == 0x5c {
            // backslash
            match parse_escape(cursor, &mut content) {
                Ok(_) => {
                    proof {
                        assert(string_end(s, bs) == string_end(s, cursor.pos as int));
                    }
                },
                Err(err) => {
                    proof {
                        assert(string_end(s, bs) is None);
                    }
                    return Err(err);
                },
            }
        } else if b < 0x20 {
            proof {
                assert(string_end(s, bs) is None);
            }
            return Err(
                located("control byte inside a string must be escaped", cursor.pos()).with_kind(
                    "JSON",
                ),
            );
        } else {
            content.push(b);
            proof {
                assert(string_end(s, bs) == string_end(s, bs + 1));
            }
        }
    }
}

/// The value of one hex digit, if the byte is one.
fn hex_digit_value(b: u8) -> (r: Option<u8>)
    ensures
        r == hex_nibble(b),
{
    if 0x30 <= b && b <= 0x39 {
        Some(b - 0x30)
    } else if 0x61 <= b && b <= 0x66 {
        Some(b - 0x61 + 10)
    } else if 0x41 <= b && b <= 0x46 {
        Some(b - 0x41 + 10)
    } else {
        None
    }
}

/// Parses four hex digits.
fn parse_hex4(cursor: &mut ByteCursor) -> (r: Result<u16, DecodeError>)
    requires
        old(cursor).wf(),
    ensures
        final(cursor).wf(),
        final(cursor).original@ == old(cursor).original@,
        final(cursor).pos >= old(cursor).pos,
        r is Ok <==> hex4_val(old(cursor).original@, old(cursor).pos as int) is Some,
        match r {
            Ok(v) => hex4_val(old(cursor).original@, old(cursor).pos as int) == Some(v) && final(cursor).pos == old(cursor).pos + 4,
            Err(_) => true,
        },
{
    let b0 = match cursor.read() {
        Some(b) => b,
        None => {
            return Err(located("truncated escape", cursor.pos()).with_kind("JSON"));
        },
    };
    let b1 = match cursor.read() {
        Some(b) => b,
        None => {
            return Err(located("truncated escape", cursor.pos()).with_kind("JSON"));
        },
    };
    let b2 = match cursor.read() {
        Some(b) => b,
        None => {
            return Err(located("truncated escape", cursor.pos()).with_kind("JSON"));
        },
    };
    let b3 = match cursor.read() {
        Some(b) => b,
        None => {
            return Err(located("truncated escape", cursor.pos()).with_kind("JSON"));
        },
    };
    let d0 = match hex_digit_value(b0) {
        Some(d) => d,
        None => {
            return Err(located("invalid hex digit", cursor.pos()).with_kind("JSON"));
        },
    };
    let d1 = match hex_digit_value(b1) {
        Some(d) => d,
        None => {
            return Err(located("invalid hex digit", cursor.pos()).with_kind("JSON"));
        },
    };
    let d2 = match hex_digit_value(b2) {
        Some(d) => d,
        None => {
            return Err(located("invalid hex digit", cursor.pos()).with_kind("JSON"));
        },
    };
    let d3 = match hex_digit_value(b3) {
        Some(d) => d,
        None => {
            return Err(located("invalid hex digit", cursor.pos()).with_kind("JSON"));
        },
    };
    Ok((d0 as u16) * 0x1000 + (d1 as u16) * 0x100 + (d2 as u16) * 0x10 + (d3 as u16))
}

/// Parses an integer number. Fractions and exponents are refused, as are
/// magnitudes the matching accumulator cannot hold: this codec never
/// carries floating-point values.
fn parse_number(cursor: &mut ByteCursor) -> (r: Result<JsonNumber, DecodeError>)
    requires
        old(cursor).wf(),
    ensures
        final(cursor).wf(),
        final(cursor).original@ == old(cursor).original@,
        final(cursor).pos >= old(cursor).pos,
        r is Ok <==> number_end(old(cursor).original@, old(cursor).pos as int) is Some,
        match r {
            Ok(_) => number_end(old(cursor).original@, old(cursor).pos as int) matches Some(e)
                && final(cursor).pos == e,
            Err(_) => true,
        },
{
    let ghost s = cursor.original@;
    let ghost at0 = cursor.pos as int;
    let mut negative = false;
    match peek(cursor) {
        Some(0x2d) => {
            advance(cursor);
            negative = true;
        },
        _ => {},
    }
    let ghost d0 = cursor.pos as int;
    let mut acc: u64 = 0;
    let mut saw_digit = false;
    loop
        invariant
            s == old(cursor).original@,
            at0 == old(cursor).pos as int,
            cursor.wf(),
            cursor.original@ == s,
            at0 <= d0 <= cursor.pos,
            negative <==> (at0 < s.len() && s[at0] == 0x2d),
            negative ==> d0 == at0 + 1,
            !negative ==> d0 == at0,
            digit_run_end(s, d0) == digit_run_end(s, cursor.pos as int),
            acc as nat == digit_run_val(s, d0, cursor.pos as int),
            saw_digit <==> cursor.pos > d0,
        decreases s.len() - cursor.pos,
    {
        let b = match peek(cursor) {
            Some(b) => b,
            None => {
                proof {
                    assert(digit_run_end(s, cursor.pos as int) == cursor.pos as int);
                }
                return finish_number(cursor, negative, acc, saw_digit, Ghost(s), Ghost(at0), Ghost(d0));
            },
        };
        if 0x30 <= b && b <= 0x39 {
            let d = (b - 0x30) as u64;
            if acc > 0x1999_9999_9999_9999 || (acc == 0x1999_9999_9999_9999 && d > 5) {
                proof {
                    let p = cursor.pos as int;
                    lemma_digit_run_end_bounds(s, p + 1);
                    lemma_digit_run_val_mono(s, d0, p + 1, digit_run_end(s, d0));
                    assert(digit_run_val(s, d0, p + 1) > 0xffff_ffff_ffff_ffff);
                }
                return Err(located("number is too large", cursor.pos()).with_kind("JSON"));
            }
            acc = acc * 10 + d;
            advance(cursor);
            saw_digit = true;
        } else if b == 0x2e || b == 0x65 || b == 0x45 {
            proof {
                assert(digit_run_end(s, cursor.pos as int) == cursor.pos as int);
            }
            return Err(
                located(
                    "numbers with a fraction or exponent are not supported by this codec",
                    cursor.pos(),
                ).with_kind("JSON"),
            );
        } else {
            proof {
                assert(digit_run_end(s, cursor.pos as int) == cursor.pos as int);
            }
            return finish_number(cursor, negative, acc, saw_digit, Ghost(s), Ghost(at0), Ghost(d0));
        }
    }
}

/// Classifies a completed digit run as a number, mirroring
/// [`number_end`]'s value bounds.
fn finish_number(
    cursor: &mut ByteCursor,
    negative: bool,
    acc: u64,
    saw_digit: bool,
    Ghost(s): Ghost<Seq<u8>>,
    Ghost(at0): Ghost<int>,
    Ghost(d0): Ghost<int>,
) -> (r: Result<JsonNumber, DecodeError>)
    requires
        old(cursor).wf(),
        old(cursor).original@ == s,
        at0 <= d0 <= old(cursor).pos,
        0 <= at0,
        negative <==> (at0 < s.len() && s[at0] == 0x2d),
        negative ==> d0 == at0 + 1,
        !negative ==> d0 == at0,
        digit_run_end(s, d0) == old(cursor).pos as int,
        acc as nat == digit_run_val(s, d0, old(cursor).pos as int),
        saw_digit <==> old(cursor).pos > d0,
        old(cursor).pos < s.len() ==> !(s[old(cursor).pos as int] == 0x2e || s[old(
            cursor,
        ).pos as int] == 0x65 || s[old(cursor).pos as int] == 0x45),
    ensures
        final(cursor).wf(),
        final(cursor).original@ == s,
        final(cursor).pos == old(cursor).pos,
        r is Ok <==> number_end(s, at0) is Some,
        match r {
            Ok(_) => number_end(s, at0) matches Some(e) && final(cursor).pos == e,
            Err(_) => true,
        },
{
    if !saw_digit {
        return Err(located("expected digits", cursor.pos()).with_kind("JSON"));
    }
    if negative {
        if acc > 0x8000_0000_0000_0000 {
            return Err(located("number is too small", cursor.pos()).with_kind("JSON"));
        }
        if acc == 0x8000_0000_0000_0000 {
            return Ok(JsonNumber::I64(i64::MIN));
        }
        let m = acc as i64;
        Ok(JsonNumber::I64(-m))
    } else {
        Ok(JsonNumber::U64(acc))
    }
}


/// Inserting one child under an unfinished container keeps every stored
/// array's recorded length exact: no stored array shares the container's
/// id, so no stored array gains or loses an element entry.
proof fn lemma_insert_keeps_arrays(
    pre: JsonDocument,
    post: JsonDocument,
    id: u32,
    child: u32,
    v: JsonValue,
)
    requires
        doc_arrays_complete(pre),
        post.map@ == pre.map@.insert(key_pack(id, child), v),
        post.gen == pre.gen,
        post.root == pre.root,
        id <= pre.gen,
        forall|k: u64|
            #[trigger] pre.map@.dom().contains(k) ==> (pre.map@[k] matches JsonValue::Array(a)
                ==> a.id != id),
        pre.root matches JsonValue::Array(a) ==> a.id != id,
        value_arrays_ok(pre.map@, pre.gen, v),
        v matches JsonValue::Array(a) ==> a.id != id,
    ensures
        doc_arrays_complete(post),
{
    let kk = key_pack(id, child);
    lemma_key_pack_parts(id, child);
    assert forall|k: u64| post.map@.dom().contains(k) implies value_arrays_ok(
        post.map@,
        post.gen,
        #[trigger] post.map@[k],
    ) by {
        match post.map@[k] {
            JsonValue::Array(a) => {
                if k == kk {
                    lemma_array_untouched(pre.map@, post.map@, kk, a);
                } else {
                    assert(pre.map@.dom().contains(k) && pre.map@[k] == post.map@[k]);
                    lemma_array_untouched(pre.map@, post.map@, kk, a);
                }
            },
            _ => {},
        }
    }
    match post.root {
        JsonValue::Array(a) => {
            lemma_array_untouched(pre.map@, post.map@, kk, a);
        },
        _ => {},
    }
    assert forall|k: u64| #[trigger] post.map@.dom().contains(k) implies key_parent(k)
        <= post.gen as u64 by {
        if k != kk {
            assert(pre.map@.dom().contains(k));
        }
    }
}

/// An array whose id differs from the inserted child's container keeps
/// exactly its element entries.
proof fn lemma_array_untouched(
    pre_m: Map<u64, JsonValue>,
    post_m: Map<u64, JsonValue>,
    kk: u64,
    a: JsonArray,
)
    requires
        exists|vv: JsonValue| post_m == #[trigger] pre_m.insert(kk, vv),
        key_parent(kk) != a.id as u64,
        array_complete(pre_m, a),
    ensures
        array_complete(post_m, a),
{
    assert forall|i: u32| #[trigger] post_m.dom().contains(key_pack(a.id, i)) <==> (
    i as int) < a.len by {
        lemma_key_pack_parts(a.id, i);
        assert(key_pack(a.id, i) != kk);
    }
}

/// Values that point into a document stay valid as its tables grow.
proof fn lemma_value_ok_monotone(a: JsonDocument, b: JsonDocument)
    requires
        a.interner.texts().len() <= b.interner.texts().len(),
    ensures
        forall|v: JsonValue| a.value_ok(v) ==> #[trigger] b.value_ok(v),
{
}

/// Parses the members of an object whose opening brace was consumed.
#[verifier::rlimit(100)]
fn parse_object_body(doc: &mut JsonDocument, cursor: &mut ByteCursor) -> (r: Result<
    JsonObject,
    DecodeError,
>)
    requires
        old(doc).wf(),
        old(cursor).wf(),
        old(cursor).original@.len() <= 0xffff_ffff,
        2 * old(doc).interner.texts().len() <= old(cursor).pos,
        (old(doc).gen as int) < old(cursor).pos,
        doc_arrays_complete(*old(doc)),
    ensures
        final(doc).wf(),
        final(cursor).wf(),
        final(cursor).original@ == old(cursor).original@,
        final(cursor).pos >= old(cursor).pos,
        old(doc).interner.texts().len() <= final(doc).interner.texts().len(),
        2 * final(doc).interner.texts().len() <= final(cursor).pos,
        final(doc).gen as int <= final(cursor).pos,
        old(doc).gen <= final(doc).gen,
        final(doc).root == old(doc).root,
        forall|k: u64|
            #[trigger] old(doc).map@.dom().contains(k) ==> final(doc).map@.dom().contains(k)
                && final(doc).map@[k] == old(doc).map@[k],
        forall|k: u64|
            !old(doc).map@.dom().contains(k) && #[trigger] final(doc).map@.dom().contains(k)
                ==> key_parent(k) > old(doc).gen as u64 && (final(doc).map@[k]
                matches JsonValue::Array(a) ==> a.id > old(doc).gen),
        doc_arrays_complete(*final(doc)),
        r is Ok <==> object_tail_end(old(cursor).original@, old(cursor).pos as int) is Some,
        match r {
            Ok(o) => (object_tail_end(old(cursor).original@, old(cursor).pos as int)
                matches Some(e) && final(cursor).pos == e) && o.0 > old(doc).gen,
            Err(_) => true,
        },
    decreases old(cursor).original@.len() - old(cursor).pos, 1int,
{
    let ghost s = cursor.original@;
    let ghost at0 = cursor.pos as int;
    // the id space cannot exhaust: every container id is backed by one
    // consumed opening byte of a text no longer than the ids
    proof {
        assert(doc.gen < 0xffff_ffff);
    }
    let ghost before_alloc = *doc;
    let id = doc.gen + 1;
    doc.gen = id;
    proof {
        lemma_arrays_complete_gen_mono(before_alloc, *doc);
    }

    skip_ws(cursor);
    let ghost p = cursor.pos as int;
    proof {
        lemma_ws_end_bounds(s, at0);
    }
    match peek(cursor) {
        Some(0x7d) => {
            // '}': empty object
            advance(cursor);
            proof {
                assert(object_tail_end(s, at0) == Some(p + 1));
            }
            return Ok(JsonObject(id));
        },
        _ => {},
    }
    proof {
        assert(object_tail_end(s, at0) == object_run_end(s, at0));
        lemma_object_run_ws(s, at0);
    }
    loop
        invariant
            s == old(cursor).original@,
            at0 == old(cursor).pos as int,
            doc.wf(),
            cursor.wf(),
            cursor.original@ == s,
            s.len() <= 0xffff_ffff,
            0 <= at0 <= cursor.pos <= s.len(),
            old(doc).interner.texts().len() <= doc.interner.texts().len(),
            2 * doc.interner.texts().len() <= cursor.pos,
            doc.gen as int <= cursor.pos,
            old(doc).gen <= doc.gen,
            id == old(doc).gen + 1,
            id <= doc.gen,
            doc_arrays_complete(*old(doc)),
            doc_arrays_complete(*doc),
            forall|k: u64|
                #[trigger] old(doc).map@.dom().contains(k) ==> doc.map@.dom().contains(k)
                    && doc.map@[k] == old(doc).map@[k],
            forall|k: u64|
                !old(doc).map@.dom().contains(k) && #[trigger] doc.map@.dom().contains(k)
                    ==> key_parent(k) > old(doc).gen as u64 && (doc.map@[k]
                    matches JsonValue::Array(a) ==> a.id > old(doc).gen),
            forall|k: u64|
                #[trigger] doc.map@.dom().contains(k) ==> (doc.map@[k]
                    matches JsonValue::Array(a) ==> a.id != id),
            doc.root == old(doc).root,
            doc.root matches JsonValue::Array(a) ==> a.id != id,
            (object_tail_end(s, at0) is Some) <==> (object_run_end(s, cursor.pos as int)
                is Some),
            object_tail_end(s, at0) matches Some(e) ==> object_run_end(s, cursor.pos as int)
                == Some(e),
        decreases s.len() - cursor.pos,
    {
        let ghost run0 = cursor.pos as int;
        skip_ws(cursor);
        let ghost pp = cursor.pos as int;
        proof {
            lemma_ws_end_bounds(s, run0);
        }
        let key = match parse_string(doc, cursor) {
            Ok(k) => k,
            Err(err) => {
                proof {
                    assert(object_run_end(s, run0) is None);
                }
                return Err(err);
            },
        };
        let ghost kk = cursor.pos as int;
        proof {
            lemma_string_end_bounds(s, pp + 1);
        }
        skip_ws(cursor);
        let ghost cc = cursor.pos as int;
        proof {
            lemma_ws_end_bounds(s, kk);
        }
        match cursor.read() {
            Some(0x3a) => {},
            _ => {
                proof {
                    assert(object_run_end(s, run0) is None);
                }
                return Err(located("expected a colon after an object key", cursor.pos())
                    .with_kind("JSON"));
            },
        }
        skip_ws(cursor);
        let ghost v0 = cursor.pos as int;
        proof {
            lemma_ws_end_bounds(s, cc + 1);
        }
        let v = match parse_value(doc, cursor) {
            Ok(v) => v,
            Err(err) => {
                proof {
                    assert(object_run_end(s, run0) is None);
                }
                return Err(err);
            },
        };
        let ghost ee = cursor.pos as int;
        proof {
            lemma_value_end_bounds(s, v0);
        }
        let k = pack_key(id, key.id());
        let ghost pre = *doc;
        doc.map.insert(k, v);
        proof {
            lemma_key_pack_parts(id, key.id);
            assert forall|kk2: u64| doc.map@.dom().contains(kk2) implies doc.value_ok(
                #[trigger] doc.map@[kk2],
            ) by {}
            lemma_insert_keeps_arrays(pre, *doc, id, key.id, v);
        }
        skip_ws(cursor);
        let ghost qq = cursor.pos as int;
        proof {
            lemma_ws_end_bounds(s, ee);
        }
        match cursor.read() {
            Some(0x2c) => {
                proof {
                    assert(object_run_end(s, run0) == object_run_end(s, qq + 1));
                }
            },
            Some(0x7d) => {
                proof {
                    assert(object_run_end(s, run0) == Some(qq + 1));
                }
                return Ok(JsonObject(id));
            },
            _ => {
                proof {
                    assert(object_run_end(s, run0) is None);
                }
                return Err(
                    located("expected a comma or closing brace", cursor.pos()).with_kind("JSON"),
                );
            },
        }
    }
}

/// Parses the elements of an array whose opening bracket was consumed.
#[verifier::rlimit(100)]
fn parse_array_body(doc: &mut JsonDocument, cursor: &mut ByteCursor) -> (r: Result<
    JsonArray,
    DecodeError,
>)
    requires
        old(doc).wf(),
        old(cursor).wf(),
        old(cursor).original@.len() <= 0xffff_ffff,
        2 * old(doc).interner.texts().len() <= old(cursor).pos,
        (old(doc).gen as int) < old(cursor).pos,
        doc_arrays_complete(*old(doc)),
    ensures
        final(doc).wf(),
        final(cursor).wf(),
        final(cursor).original@ == old(cursor).original@,
        final(cursor).pos >= old(cursor).pos,
        old(doc).interner.texts().len() <= final(doc).interner.texts().len(),
        2 * final(doc).interner.texts().len() <= final(cursor).pos,
        final(doc).gen as int <= final(cursor).pos,
        old(doc).gen <= final(doc).gen,
        final(doc).root == old(doc).root,
        forall|k: u64|
            #[trigger] old(doc).map@.dom().contains(k) ==> final(doc).map@.dom().contains(k)
                && final(doc).map@[k] == old(doc).map@[k],
        forall|k: u64|
            !old(doc).map@.dom().contains(k) && #[trigger] final(doc).map@.dom().contains(k)
                ==> key_parent(k) > old(doc).gen as u64 && (final(doc).map@[k]
                matches JsonValue::Array(a) ==> a.id > old(doc).gen),
        doc_arrays_complete(*final(doc)),
        r is Ok <==> array_tail_end(old(cursor).original@, old(cursor).pos as int) is Some,
        match r {
            Ok(a) => (array_tail_end(old(cursor).original@, old(cursor).pos as int)
                matches Some(e) && final(cursor).pos == e) && array_complete(final(doc).map@, a)
                && a.id > old(doc).gen && a.id <= final(doc).gen,
            Err(_) => true,
        },
    decreases old(cursor).original@.len() - old(cursor).pos, 1int,
{
    let ghost s = cursor.original@;
    let ghost at0 = cursor.pos as int;
    proof {
        assert(doc.gen < 0xffff_ffff);
    }
    let ghost before_alloc = *doc;
    let id = doc.gen + 1;
    doc.gen = id;
    proof {
        lemma_arrays_complete_gen_mono(before_alloc, *doc);
    }

    skip_ws(cursor);
    let ghost p = cursor.pos as int;
    proof {
        lemma_ws_end_bounds(s, at0);
    }
    match peek(cursor) {
        Some(0x5d) => {
            // ']': empty array
            advance(cursor);
            proof {
                assert(array_tail_end(s, at0) == Some(p + 1));
            }
            return Ok(JsonArray { id, len: 0 });
        },
        _ => {},
    }
    proof {
        assert(array_tail_end(s, at0) == array_run_end(s, at0));
        lemma_array_run_ws(s, at0);
    }
    let mut count: u32 = 0;
    loop
        invariant
            s == old(cursor).original@,
            at0 == old(cursor).pos as int,
            doc.wf(),
            cursor.wf(),
            cursor.original@ == s,
            s.len() <= 0xffff_ffff,
            0 <= at0 <= cursor.pos <= s.len(),
            old(doc).interner.texts().len() <= doc.interner.texts().len(),
            2 * doc.interner.texts().len() <= cursor.pos,
            doc.gen as int <= cursor.pos,
            old(doc).gen <= doc.gen,
            count as int <= cursor.pos - at0,
            id == old(doc).gen + 1,
            id <= doc.gen,
            doc_arrays_complete(*old(doc)),
            doc_arrays_complete(*doc),
            forall|k: u64|
                #[trigger] old(doc).map@.dom().contains(k) ==> doc.map@.dom().contains(k)
                    && doc.map@[k] == old(doc).map@[k],
            forall|k: u64|
                !old(doc).map@.dom().contains(k) && #[trigger] doc.map@.dom().contains(k)
                    ==> key_parent(k) > old(doc).gen as u64 && (doc.map@[k]
                    matches JsonValue::Array(a) ==> a.id > old(doc).gen),
            forall|k: u64|
                #[trigger] doc.map@.dom().contains(k) ==> (doc.map@[k]
                    matches JsonValue::Array(a) ==> a.id != id),
            doc.root == old(doc).root,
            doc.root matches JsonValue::Array(a) ==> a.id != id,
            forall|i: u32| #[trigger]
                doc.map@.dom().contains(key_pack(id, i)) <==> (i as int) < count,
            (array_tail_end(s, at0) is Some) <==> (array_run_end(s, cursor.pos as int)
                is Some),
            array_tail_end(s, at0) matches Some(e) ==> array_run_end(s, cursor.pos as int)
                == Some(e),
        decreases s.len() - cursor.pos,
    {
        let ghost run0 = cursor.pos as int;
        let ghost top_map = doc.map@;
        let ghost top_gen = doc.gen;
        proof {
            assert(forall|i: u32| #[trigger]
                top_map.dom().contains(key_pack(id, i)) <==> (i as int) < count);
        }
        skip_ws(cursor);
        let ghost v0 = cursor.pos as int;
        proof {
            lemma_ws_end_bounds(s, run0);
        }
        let v = match parse_value(doc, cursor) {
            Ok(v) => v,
            Err(err) => {
                proof {
                    assert(array_run_end(s, run0) is None);
                }
                return Err(err);
            },
        };
        let ghost ee = cursor.pos as int;
        proof {
            lemma_value_end_bounds(s, v0);
            assert(count < 0xffff_ffff);
        }
        let k = pack_key(id, count);
        let ghost pre = *doc;
        doc.map.insert(k, v);
        proof {
            lemma_key_pack_parts(id, count);
            assert forall|kk2: u64| doc.map@.dom().contains(kk2) implies doc.value_ok(
                #[trigger] doc.map@[kk2],
            ) by {}
            lemma_insert_keeps_arrays(pre, *doc, id, count, v);
            assert forall|i: u32| #[trigger] doc.map@.dom().contains(key_pack(id, i)) <==> (
            i as int) < count + 1 by {
                lemma_key_pack_parts(id, i);
                let kp = key_pack(id, i);
                if (i as int) < count + 1 {
                    if (i as int) < count {
                        assert(top_map.dom().contains(kp));
                        assert(pre.map@.dom().contains(kp));
                    } else {
                        assert(i == count);
                        assert(kp == k);
                    }
                    assert(doc.map@.dom().contains(kp));
                } else {
                    assert(i != count);
                    assert(kp != k);
                    if pre.map@.dom().contains(kp) {
                        // the nested parse only added keys of fresher
                        // containers, so this element key would have to
                        // predate the loop, where the count was exact
                        if top_map.dom().contains(kp) {
                            assert((i as int) < count);
                        } else {
                            assert(key_parent(kp) > top_gen as u64);
                        }
                        assert(false);
                    }
                    assert(!doc.map@.dom().contains(kp));
                }
            }
        }
        count = count + 1;
        skip_ws(cursor);
        let ghost qq = cursor.pos as int;
        proof {
            lemma_ws_end_bounds(s, ee);
        }
        match cursor.read() {
            Some(0x2c) => {
                proof {
                    assert(array_run_end(s, run0) == array_run_end(s, qq + 1));
                }
            },
            Some(0x5d) => {
                proof {
                    assert(array_run_end(s, run0) == Some(qq + 1));
                }
                return Ok(JsonArray { id, len: count });
            },
            _ => {
                proof {
                    assert(array_run_end(s, run0) is None);
                }
                return Err(
                    located("expected a comma or closing bracket", cursor.pos()).with_kind(
                        "JSON",
                    ),
                );
            },
        }
    }
}

// === JSON text output === //

/// The hex digit for a value below 16.
pub open spec fn hex_digit(n: u8) -> u8 {
    if n < 10 {
        (0x30 + n) as u8
    } else {
        (0x57 + n) as u8
    }
}

/// The escaped form of one string byte: quotes and backslashes get a
/// backslash, control bytes a `\u00XX` escape, everything else passes
/// through.
pub open spec fn json_escape_byte(b: u8) -> Seq<u8> {
    if b == 0x22 {
        seq![0x5cu8, 0x22u8]
    } else if b == 0x5c {
        seq![0x5cu8, 0x5cu8]
    } else if b < 0x20 {
        seq![0x5cu8, 0x75u8, 0x30u8, 0x30u8, hex_digit(b / 16), hex_digit(b % 16)]
    } else {
        seq![b]
    }
}

/// The escaped form of string content.
pub open spec fn json_escape(s: Seq<u8>) -> Seq<u8>
    decreases s.len(),
{
    if s.len() == 0 {
        Seq::<u8>::empty()
    } else {
        json_escape(s.drop_last()) + json_escape_byte(s.last())
    }
}

/// Appends a quoted, escaped JSON string literal holding `s`.
pub fn write_json_string(out: &mut Vec<u8>, s: &[u8])
    ensures
        final(out)@ == old(out)@ + seq![0x22u8] + json_escape(s@) + seq![0x22u8],
{
    let ghost base = old(out)@;
    out.push(0x22);
    let n = s.len();
    let mut i: usize = 0;
    proof {
        assert(s@.subrange(0, 0) =~= Seq::<u8>::empty());
        assert(out@ =~= base + seq![0x22u8] + json_escape(s@.subrange(0, 0)));
    }
    while i < n
        invariant
            n == s@.len(),
            i <= n,
            out@ == base + seq![0x22u8] + json_escape(s@.subrange(0, i as int)),
        decreases n - i,
    {
        let b = s[i];
        let ghost before = out@;
        if b == 0x22 {
            out.push(0x5c);
            out.push(0x22);
        } else if b == 0x5c {
            out.push(0x5c);
            out.push(0x5c);
        } else if b < 0x20 {
            out.push(0x5c);
            out.push(0x75);
            out.push(0x30);
            out.push(0x30);
            proof {
                assert(b / 16 < 16 && b % 16 < 16);
            }
            let hi = b / 16;
            let lo = b % 16;
            out.push(if hi < 10 {
                0x30 + hi
            } else {
                0x57 + hi
            });
            out.push(if lo < 10 {
                0x30 + lo
            } else {
                0x57 + lo
            });
        } else {
            out.push(b);
        }
        proof {
            assert(out@ =~= before + json_escape_byte(b));
            assert(s@.subrange(0, i + 1).drop_last() =~= s@.subrange(0, i as int));
            assert(s@.subrange(0, i + 1).last() == b);
            assert(json_escape(s@.subrange(0, i + 1)) == json_escape(s@.subrange(0, i as int))
                + json_escape_byte(b));
            assert(out@ =~= base + seq![0x22u8] + json_escape(s@.subrange(0, i + 1)));
        }
        i = i + 1;
    }
    proof {
        assert(s@.subrange(0, n as int) =~= s@);
    }
    out.push(0x22);
    proof {
        assert(out@ =~= base + seq![0x22u8] + json_escape(s@) + seq![0x22u8]);
    }
}

} // verus!
