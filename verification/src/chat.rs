//! The chat-text JSON schema.
//!
//! A chat message is either one component object or an array of them.
//! Every field of a component is optional except inside the nested event
//! objects, whose required fields are listed by the protocol. The schema
//! follows the two-phase shape of [`crate::json_schema`]: assert the node
//! kind once, then validate or reify the whole subtree.

use vstd::prelude::*;
use vstd::string::StringSliceAdditionalSpecFns;

use crate::byte_stream::ByteCursor;
use crate::error::DecodeError;
use crate::json_document::{JsonArray, JsonDocument, JsonObject, JsonValue};
use crate::json_schema::{
    at_field, get_opt_bool, get_opt_object, get_opt_string, get_req_string, get_req_u8,
    reify_text, s_opt_bool, s_opt_object, s_opt_string, s_req_string, s_req_u8, text_of,
};

verus! {

/// The codepoint bound of a chat string field on the wire.
pub const CHAT_MAX_LEN: u32 = 262144;

/// An item shown by a hover event.
#[derive(Debug, Clone)]
pub struct ChatShownItem {
    /// The item id.
    pub id: Vec<u8>,
    /// The stack count.
    pub count: u8,
    /// Optional item tag data.
    pub tag: Option<Vec<u8>>,
}

/// The mathematical value of a [`ChatShownItem`].
#[verifier::ext_equal]
pub struct ChatShownItemV {
    /// The item id.
    pub id: Seq<u8>,
    /// The stack count.
    pub count: u8,
    /// Optional item tag data.
    pub tag: Option<Seq<u8>>,
}

impl DeepView for ChatShownItem {
    type V = ChatShownItemV;

    open spec fn deep_view(&self) -> ChatShownItemV {
        ChatShownItemV { id: self.id.deep_view(), count: self.count, tag: self.tag.deep_view() }
    }
}

/// A click action attached to a component.
#[derive(Debug, Clone)]
pub struct ChatClickEvent {
    /// What the click does.
    pub action: Vec<u8>,
    /// The action's argument.
    pub value: Vec<u8>,
}

/// The mathematical value of a [`ChatClickEvent`].
#[verifier::ext_equal]
pub struct ChatClickEventV {
    /// What the click does.
    pub action: Seq<u8>,
    /// The action's argument.
    pub value: Seq<u8>,
}

impl DeepView for ChatClickEvent {
    type V = ChatClickEventV;

    open spec fn deep_view(&self) -> ChatClickEventV {
        ChatClickEventV { action: self.action.deep_view(), value: self.value.deep_view() }
    }
}

/// A hover action attached to a component.
#[derive(Debug, Clone)]
pub struct ChatHoverEvent {
    /// Text to show.
    pub show_text: Option<Vec<u8>>,
    /// An item to show.
    pub show_item: Option<ChatShownItem>,
    /// An entity to show.
    pub show_entity: Option<Vec<u8>>,
}

/// The mathematical value of a [`ChatHoverEvent`].
#[verifier::ext_equal]
pub struct ChatHoverEventV {
    /// Text to show.
    pub show_text: Option<Seq<u8>>,
    /// An item to show.
    pub show_item: Option<ChatShownItemV>,
    /// An entity to show.
    pub show_entity: Option<Seq<u8>>,
}

impl DeepView for ChatHoverEvent {
    type V = ChatHoverEventV;

    open spec fn deep_view(&self) -> ChatHoverEventV {
        ChatHoverEventV {
            show_text: self.show_text.deep_view(),
            show_item: self.show_item.deep_view(),
            show_entity: self.show_entity.deep_view(),
        }
    }
}

/// One chat component.
#[derive(Debug, Clone)]
pub struct ChatComponent {
    /// The `text` member, when present.
    pub text: Option<Vec<u8>>,
    /// The `translate` member, when present.
    pub translate: Option<Vec<u8>>,
    /// The `keybind` member, when present.
    pub keybind: Option<Vec<u8>>,
    /// The `font` member, when present.
    pub font: Option<Vec<u8>>,
    /// The `color` member, when present.
    pub color: Option<Vec<u8>>,
    /// The `insertion` member, when present.
    pub insertion: Option<Vec<u8>>,
    /// The `bold` flag, when present.
    pub bold: Option<bool>,
    /// The `italic` flag, when present.
    pub italic: Option<bool>,
    /// The `underlined` flag, when present.
    pub underlined: Option<bool>,
    /// The `strikethrough` flag, when present.
    pub strikethrough: Option<bool>,
    /// The `obfuscated` flag, when present.
    pub obfuscated: Option<bool>,
    /// A click action.
    pub click_event: Option<ChatClickEvent>,
    /// A hover action.
    pub hover_event: Option<ChatHoverEvent>,
}

/// The mathematical value of a [`ChatComponent`].
#[verifier::ext_equal]
pub struct ChatComponentV {
    /// The `text` member, when present.
    pub text: Option<Seq<u8>>,
    /// The `translate` member, when present.
    pub translate: Option<Seq<u8>>,
    /// The `keybind` member, when present.
    pub keybind: Option<Seq<u8>>,
    /// The `font` member, when present.
    pub font: Option<Seq<u8>>,
    /// The `color` member, when present.
    pub color: Option<Seq<u8>>,
    /// The `insertion` member, when present.
    pub insertion: Option<Seq<u8>>,
    /// The `bold` flag, when present.
    pub bold: Option<bool>,
    /// The `italic` flag, when present.
    pub italic: Option<bool>,
    /// The `underlined` flag, when present.
    pub underlined: Option<bool>,
    /// The `strikethrough` flag, when present.
    pub strikethrough: Option<bool>,
    /// The `obfuscated` flag, when present.
    pub obfuscated: Option<bool>,
    /// A click action.
    pub click_event: Option<ChatClickEventV>,
    /// A hover action.
    pub hover_event: Option<ChatHoverEventV>,
}

impl DeepView for ChatComponent {
    type V = ChatComponentV;

    open spec fn deep_view(&self) -> ChatComponentV {
        ChatComponentV {
            text: self.text.deep_view(),
            translate: self.translate.deep_view(),
            keybind: self.keybind.deep_view(),
            font: self.font.deep_view(),
            color: self.color.deep_view(),
            insertion: self.insertion.deep_view(),
            bold: self.bold,
            italic: self.italic,
            underlined: self.underlined,
            strikethrough: self.strikethrough,
            obfuscated: self.obfuscated,
            click_event: self.click_event.deep_view(),
            hover_event: self.hover_event.deep_view(),
        }
    }
}

/// The value of an optional string field read.
pub open spec fn opt_text_val(doc: JsonDocument, r: Option<Option<crate::interner::Intern>>) -> Option<Seq<u8>> {
    match r {
        Some(Some(i)) => Some(text_of(doc, i)),
        _ => None,
    }
}

/// The value of an optional boolean field read.
pub open spec fn opt_bool_val(r: Option<Option<bool>>) -> Option<bool> {
    match r {
        Some(Some(b)) => Some(b),
        _ => None,
    }
}

/// A shown item subtree matches its schema.
pub open spec fn shown_item_valid(doc: JsonDocument, o: JsonObject) -> bool {
    &&& s_req_string(doc, o, ("id").spec_bytes()) is Some
    &&& s_req_u8(doc, o, ("count").spec_bytes()) is Some
    &&& s_opt_string(doc, o, ("tag").spec_bytes()) is Some
}

/// The reified shown item, for a valid subtree.
pub open spec fn spec_reify_shown_item(doc: JsonDocument, o: JsonObject) -> ChatShownItemV {
    ChatShownItemV {
        id: match s_req_string(doc, o, ("id").spec_bytes()) {
            Some(i) => text_of(doc, i),
            None => Seq::empty(),
        },
        count: match s_req_u8(doc, o, ("count").spec_bytes()) {
            Some(c) => c,
            None => 0,
        },
        tag: opt_text_val(doc, s_opt_string(doc, o, ("tag").spec_bytes())),
    }
}

/// A click event subtree matches its schema.
pub open spec fn click_valid(doc: JsonDocument, o: JsonObject) -> bool {
    &&& s_req_string(doc, o, ("action").spec_bytes()) is Some
    &&& s_req_string(doc, o, ("value").spec_bytes()) is Some
}

/// The reified click event, for a valid subtree.
pub open spec fn spec_reify_click(doc: JsonDocument, o: JsonObject) -> ChatClickEventV {
    ChatClickEventV {
        action: match s_req_string(doc, o, ("action").spec_bytes()) {
            Some(i) => text_of(doc, i),
            None => Seq::empty(),
        },
        value: match s_req_string(doc, o, ("value").spec_bytes()) {
            Some(i) => text_of(doc, i),
            None => Seq::empty(),
        },
    }
}

/// A hover event subtree matches its schema.
pub open spec fn hover_valid(doc: JsonDocument, o: JsonObject) -> bool {
    &&& s_opt_string(doc, o, ("show_text").spec_bytes()) is Some
    &&& match s_opt_object(doc, o, ("show_item").spec_bytes()) {
        Some(None) => true,
        Some(Some(io)) => shown_item_valid(doc, io),
        None => false,
    }
    &&& s_opt_string(doc, o, ("show_entity").spec_bytes()) is Some
}

/// The reified hover event, for a valid subtree.
pub open spec fn spec_reify_hover(doc: JsonDocument, o: JsonObject) -> ChatHoverEventV {
    ChatHoverEventV {
        show_text: opt_text_val(doc, s_opt_string(doc, o, ("show_text").spec_bytes())),
        show_item: match s_opt_object(doc, o, ("show_item").spec_bytes()) {
            Some(Some(io)) => Some(spec_reify_shown_item(doc, io)),
            _ => None,
        },
        show_entity: opt_text_val(doc, s_opt_string(doc, o, ("show_entity").spec_bytes())),
    }
}

/// A component subtree matches its schema.
pub open spec fn component_valid(doc: JsonDocument, o: JsonObject) -> bool {
    &&& s_opt_string(doc, o, ("text").spec_bytes()) is Some
    &&& s_opt_string(doc, o, ("translate").spec_bytes()) is Some
    &&& s_opt_string(doc, o, ("keybind").spec_bytes()) is Some
    &&& s_opt_string(doc, o, ("font").spec_bytes()) is Some
    &&& s_opt_string(doc, o, ("color").spec_bytes()) is Some
    &&& s_opt_string(doc, o, ("insertion").spec_bytes()) is Some
    &&& s_opt_bool(doc, o, ("bold").spec_bytes()) is Some
    &&& s_opt_bool(doc, o, ("italic").spec_bytes()) is Some
    &&& s_opt_bool(doc, o, ("underlined").spec_bytes()) is Some
    &&& s_opt_bool(doc, o, ("strikethrough").spec_bytes()) is Some
    &&& s_opt_bool(doc, o, ("obfuscated").spec_bytes()) is Some
    &&& match s_opt_object(doc, o, ("click_event").spec_bytes()) {
        Some(None) => true,
        Some(Some(co)) => click_valid(doc, co),
        None => false,
    }
    &&& match s_opt_object(doc, o, ("hover_event").spec_bytes()) {
        Some(None) => true,
        Some(Some(ho)) => hover_valid(doc, ho),
        None => false,
    }
}

/// The reified component, for a valid subtree.
pub open spec fn spec_reify_component(doc: JsonDocument, o: JsonObject) -> ChatComponentV {
    ChatComponentV {
        text: opt_text_val(doc, s_opt_string(doc, o, ("text").spec_bytes())),
        translate: opt_text_val(doc, s_opt_string(doc, o, ("translate").spec_bytes())),
        keybind: opt_text_val(doc, s_opt_string(doc, o, ("keybind").spec_bytes())),
        font: opt_text_val(doc, s_opt_string(doc, o, ("font").spec_bytes())),
        color: opt_text_val(doc, s_opt_string(doc, o, ("color").spec_bytes())),
        insertion: opt_text_val(doc, s_opt_string(doc, o, ("insertion").spec_bytes())),
        bold: opt_bool_val(s_opt_bool(doc, o, ("bold").spec_bytes())),
        italic: opt_bool_val(s_opt_bool(doc, o, ("italic").spec_bytes())),
        underlined: opt_bool_val(s_opt_bool(doc, o, ("underlined").spec_bytes())),
        strikethrough: opt_bool_val(s_opt_bool(doc, o, ("strikethrough").spec_bytes())),
        obfuscated: opt_bool_val(s_opt_bool(doc, o, ("obfuscated").spec_bytes())),
        click_event: match s_opt_object(doc, o, ("click_event").spec_bytes()) {
            Some(Some(co)) => Some(spec_reify_click(doc, co)),
            _ => None,
        },
        hover_event: match s_opt_object(doc, o, ("hover_event").spec_bytes()) {
            Some(Some(ho)) => Some(spec_reify_hover(doc, ho)),
            _ => None,
        },
    }
}

/// A validating view over one shown-item object.
#[derive(Debug, Copy, Clone)]
pub struct ChatShownItemView {
    /// The object handle.
    pub shortcut: JsonObject,
}

impl ChatShownItemView {
    /// Asserts that `node` is an object and wraps it.
    pub fn make_shortcut(doc: &JsonDocument, node: Option<JsonValue>) -> (r: Result<
        Self,
        DecodeError,
    >)
        ensures
            r is Ok <==> (node matches Some(v) && v is Object),
            match (r, node) {
                (Ok(view), Some(JsonValue::Object(o))) => view.shortcut == o,
                _ => true,
            },
    {
        match node {
            Some(JsonValue::Object(o)) => Ok(ChatShownItemView { shortcut: o }),
            _ => Err(DecodeError::new_static("expected an object")),
        }
    }

    /// Checks every declared field of the subtree.
    pub fn validate_deep(&self, doc: &JsonDocument) -> (r: Result<(), DecodeError>)
        requires
            doc.wf(),
        ensures
            r is Ok <==> shown_item_valid(*doc, self.shortcut),
    {
        at_field("id", get_req_string(doc, self.shortcut, "id"))?;
        at_field("count", get_req_u8(doc, self.shortcut, "count"))?;
        at_field("tag", get_opt_string(doc, self.shortcut, "tag"))?;
        Ok(())
    }

    /// Reifies the subtree into an owned value.
    pub fn try_reify(&self, doc: &JsonDocument) -> (r: Result<ChatShownItem, DecodeError>)
        requires
            doc.wf(),
        ensures
            r is Ok <==> shown_item_valid(*doc, self.shortcut),
            match r {
                Ok(v) => v.deep_view() == spec_reify_shown_item(*doc, self.shortcut),
                Err(_) => true,
            },
    {
        let id_i = at_field("id", get_req_string(doc, self.shortcut, "id"))?;
        let count = at_field("count", get_req_u8(doc, self.shortcut, "count"))?;
        let tag_i = at_field("tag", get_opt_string(doc, self.shortcut, "tag"))?;
        let id = reify_text(doc, id_i);
        let tag = match tag_i {
            Some(i) => Some(reify_text(doc, i)),
            None => None,
        };
        let result = ChatShownItem { id, count, tag };
        proof {
            assert(result.deep_view() =~~= spec_reify_shown_item(*doc, self.shortcut));
        }
        Ok(result)
    }
}

/// A validating view over one click-event object.
#[derive(Debug, Copy, Clone)]
pub struct ChatClickEventView {
    /// The object handle.
    pub shortcut: JsonObject,
}

impl ChatClickEventView {
    /// Asserts that `node` is an object and wraps it.
    pub fn make_shortcut(doc: &JsonDocument, node: Option<JsonValue>) -> (r: Result<
        Self,
        DecodeError,
    >)
        ensures
            r is Ok <==> (node matches Some(v) && v is Object),
            match (r, node) {
                (Ok(view), Some(JsonValue::Object(o))) => view.shortcut == o,
                _ => true,
            },
    {
        match node {
            Some(JsonValue::Object(o)) => Ok(ChatClickEventView { shortcut: o }),
            _ => Err(DecodeError::new_static("expected an object")),
        }
    }

    /// Checks every declared field of the subtree.
    pub fn validate_deep(&self, doc: &JsonDocument) -> (r: Result<(), DecodeError>)
        requires
            doc.wf(),
        ensures
            r is Ok <==> click_valid(*doc, self.shortcut),
    {
        at_field("action", get_req_string(doc, self.shortcut, "action"))?;
        at_field("value", get_req_string(doc, self.shortcut, "value"))?;
        Ok(())
    }

    /// Reifies the subtree into an owned value.
    pub fn try_reify(&self, doc: &JsonDocument) -> (r: Result<ChatClickEvent, DecodeError>)
        requires
            doc.wf(),
        ensures
            r is Ok <==> click_valid(*doc, self.shortcut),
            match r {
                Ok(v) => v.deep_view() == spec_reify_click(*doc, self.shortcut),
                Err(_) => true,
            },
    {
        let action_i = at_field("action", get_req_string(doc, self.shortcut, "action"))?;
        let value_i = at_field("value", get_req_string(doc, self.shortcut, "value"))?;
        let result = ChatClickEvent {
            action: reify_text(doc, action_i),
            value: reify_text(doc, value_i),
        };
        proof {
            assert(result.deep_view() =~~= spec_reify_click(*doc, self.shortcut));
        }
        Ok(result)
    }
}

/// A validating view over one hover-event object.
#[derive(Debug, Copy, Clone)]
pub struct ChatHoverEventView {
    /// The object handle.
    pub shortcut: JsonObject,
}

impl ChatHoverEventView {
    /// Asserts that `node` is an object and wraps it.
    pub fn make_shortcut(doc: &JsonDocument, node: Option<JsonValue>) -> (r: Result<
        Self,
        DecodeError,
    >)
        ensures
            r is Ok <==> (node matches Some(v) && v is Object),
            match (r, node) {
                (Ok(view), Some(JsonValue::Object(o))) => view.shortcut == o,
                _ => true,
            },
    {
        match node {
            Some(JsonValue::Object(o)) => Ok(ChatHoverEventView { shortcut: o }),
            _ => Err(DecodeError::new_static("expected an object")),
        }
    }

    /// Checks every declared field of the subtree.
    pub fn validate_deep(&self, doc: &JsonDocument) -> (r: Result<(), DecodeError>)
        requires
            doc.wf(),
        ensures
            r is Ok <==> hover_valid(*doc, self.shortcut),
    {
        at_field("show_text", get_opt_string(doc, self.shortcut, "show_text"))?;
        let item = at_field("show_item", get_opt_object(doc, self.shortcut, "show_item"))?;
        match item {
            Some(io) => {
                let view = ChatShownItemView { shortcut: io };
                at_field("show_item", view.validate_deep(doc))?;
            },
            None => {},
        }
        at_field("show_entity", get_opt_string(doc, self.shortcut, "show_entity"))?;
        Ok(())
    }

    /// Reifies the subtree into an owned value.
    pub fn try_reify(&self, doc: &JsonDocument) -> (r: Result<ChatHoverEvent, DecodeError>)
        requires
            doc.wf(),
        ensures
            r is Ok <==> hover_valid(*doc, self.shortcut),
            match r {
                Ok(v) => v.deep_view() == spec_reify_hover(*doc, self.shortcut),
                Err(_) => true,
            },
    {
        let text_i = at_field("show_text", get_opt_string(doc, self.shortcut, "show_text"))?;
        let item_o = at_field("show_item", get_opt_object(doc, self.shortcut, "show_item"))?;
        let entity_i = at_field(
            "show_entity",
            get_opt_string(doc, self.shortcut, "show_entity"),
        )?;
        let show_item = match item_o {
            Some(io) => {
                let view = ChatShownItemView { shortcut: io };
                Some(at_field("show_item", view.try_reify(doc))?)
            },
            None => None,
        };
        let show_text = match text_i {
            Some(i) => Some(reify_text(doc, i)),
            None => None,
        };
        let show_entity = match entity_i {
            Some(i) => Some(reify_text(doc, i)),
            None => None,
        };
        let result = ChatHoverEvent { show_text, show_item, show_entity };
        proof {
            assert(result.deep_view() =~~= spec_reify_hover(*doc, self.shortcut));
        }
        Ok(result)
    }
}

/// A validating view over one chat-component object.
#[derive(Debug, Copy, Clone)]
pub struct ChatComponentView {
    /// The object handle.
    pub shortcut: JsonObject,
}

impl ChatComponentView {
    /// Asserts that `node` is an object and wraps it.
    pub fn make_shortcut(doc: &JsonDocument, node: Option<JsonValue>) -> (r: Result<
        Self,
        DecodeError,
    >)
        ensures
            r is Ok <==> (node matches Some(v) && v is Object),
            match (r, node) {
                (Ok(view), Some(JsonValue::Object(o))) => view.shortcut == o,
                _ => true,
            },
    {
        match node {
            Some(JsonValue::Object(o)) => Ok(ChatComponentView { shortcut: o }),
            _ => Err(DecodeError::new_static("expected an object")),
        }
    }

    /// Checks every declared field of the subtree.
    #[verifier::rlimit(100)]
    pub fn validate_deep(&self, doc: &JsonDocument) -> (r: Result<(), DecodeError>)
        requires
            doc.wf(),
        ensures
            r is Ok <==> component_valid(*doc, self.shortcut),
    {
        at_field("text", get_opt_string(doc, self.shortcut, "text"))?;
        at_field("translate", get_opt_string(doc, self.shortcut, "translate"))?;
        at_field("keybind", get_opt_string(doc, self.shortcut, "keybind"))?;
        at_field("font", get_opt_string(doc, self.shortcut, "font"))?;
        at_field("color", get_opt_string(doc, self.shortcut, "color"))?;
        at_field("insertion", get_opt_string(doc, self.shortcut, "insertion"))?;
        at_field("bold", get_opt_bool(doc, self.shortcut, "bold"))?;
        at_field("italic", get_opt_bool(doc, self.shortcut, "italic"))?;
        at_field("underlined", get_opt_bool(doc, self.shortcut, "underlined"))?;
        at_field("strikethrough", get_opt_bool(doc, self.shortcut, "strikethrough"))?;
        at_field("obfuscated", get_opt_bool(doc, self.shortcut, "obfuscated"))?;
        let click = at_field("click_event", get_opt_object(doc, self.shortcut, "click_event"))?;
        match click {
            Some(co) => {
                let view = ChatClickEventView { shortcut: co };
                at_field("click_event", view.validate_deep(doc))?;
            },
            None => {},
        }
        let hover = at_field("hover_event", get_opt_object(doc, self.shortcut, "hover_event"))?;
        match hover {
            Some(ho) => {
                let view = ChatHoverEventView { shortcut: ho };
                at_field("hover_event", view.validate_deep(doc))?;
            },
            None => {},
        }
        Ok(())
    }

    /// Reifies the subtree into an owned value.
    #[verifier::rlimit(100)]
    pub fn try_reify(&self, doc: &JsonDocument) -> (r: Result<ChatComponent, DecodeError>)
        requires
            doc.wf(),
        ensures
            r is Ok <==> component_valid(*doc, self.shortcut),
            match r {
                Ok(v) => v.deep_view() == spec_reify_component(*doc, self.shortcut),
                Err(_) => true,
            },
    {
        let text_i = at_field("text", get_opt_string(doc, self.shortcut, "text"))?;
        let translate_i = at_field("translate", get_opt_string(doc, self.shortcut, "translate"))?;
        let keybind_i = at_field("keybind", get_opt_string(doc, self.shortcut, "keybind"))?;
        let font_i = at_field("font", get_opt_string(doc, self.shortcut, "font"))?;
        let color_i = at_field("color", get_opt_string(doc, self.shortcut, "color"))?;
        let insertion_i = at_field("insertion", get_opt_string(doc, self.shortcut, "insertion"))?;
        let bold = at_field("bold", get_opt_bool(doc, self.shortcut, "bold"))?;
        let italic = at_field("italic", get_opt_bool(doc, self.shortcut, "italic"))?;
        let underlined = at_field("underlined", get_opt_bool(doc, self.shortcut, "underlined"))?;
        let strikethrough = at_field("strikethrough", get_opt_bool(doc, self.shortcut, "strikethrough"))?;
        let obfuscated = at_field("obfuscated", get_opt_bool(doc, self.shortcut, "obfuscated"))?;
        let click_o = at_field("click_event", get_opt_object(doc, self.shortcut, "click_event"))?;
        let hover_o = at_field("hover_event", get_opt_object(doc, self.shortcut, "hover_event"))?;
        let click_event = match click_o {
            Some(co) => {
                let view = ChatClickEventView { shortcut: co };
                Some(at_field("click_event", view.try_reify(doc))?)
            },
            None => None,
        };
        let hover_event = match hover_o {
            Some(ho) => {
                let view = ChatHoverEventView { shortcut: ho };
                Some(at_field("hover_event", view.try_reify(doc))?)
            },
            None => None,
        };
        let text = match text_i {
            Some(i) => Some(reify_text(doc, i)),
            None => None,
        };
        let translate = match translate_i {
            Some(i) => Some(reify_text(doc, i)),
            None => None,
        };
        let keybind = match keybind_i {
            Some(i) => Some(reify_text(doc, i)),
            None => None,
        };
        let font = match font_i {
            Some(i) => Some(reify_text(doc, i)),
            None => None,
        };
        let color = match color_i {
            Some(i) => Some(reify_text(doc, i)),
            None => None,
        };
        let insertion = match insertion_i {
            Some(i) => Some(reify_text(doc, i)),
            None => None,
        };
        let result = ChatComponent {
            text,
            translate,
            keybind,
            font,
            color,
            insertion,
            bold,
            italic,
            underlined,
            strikethrough,
            obfuscated,
            click_event,
            hover_event,
        };
        proof {
            assert(result.deep_view() =~~= spec_reify_component(*doc, self.shortcut));
        }
        Ok(result)
    }
}

/// A chat message: one component, or an array of components.
#[derive(Debug, Clone)]
pub enum ChatRoot {
    /// A single component.
    One(ChatComponent),
    /// An array of components, merged in order.
    Many(Vec<ChatComponent>),
}

/// The mathematical value of a [`ChatRoot`].
#[verifier::ext_equal]
pub enum ChatRootV {
    /// A single component.
    One(ChatComponentV),
    /// An array of components.
    Many(Seq<ChatComponentV>),
}

impl DeepView for ChatRoot {
    type V = ChatRootV;

    open spec fn deep_view(&self) -> ChatRootV {
        match self {
            ChatRoot::One(c) => ChatRootV::One(c.deep_view()),
            ChatRoot::Many(cs) => ChatRootV::Many(cs.deep_view()),
        }
    }
}

/// The shape found at the root of a chat document.
#[derive(Debug, Copy, Clone)]
pub enum ChatRootShortcut {
    /// One component object.
    One(JsonObject),
    /// An array of component objects.
    Many(JsonArray),
}

/// The whole chat document matches the schema.
pub open spec fn chat_root_valid(doc: JsonDocument, sc: ChatRootShortcut) -> bool {
    match sc {
        ChatRootShortcut::One(o) => component_valid(doc, o),
        ChatRootShortcut::Many(a) => forall|i: int|
            0 <= i < a.len ==> match #[trigger] doc.spec_array_element(a, i as u32) {
                Some(JsonValue::Object(o)) => component_valid(doc, o),
                _ => false,
            },
    }
}

/// The whole document is accepted by the chat schema: its root is an
/// object or an array, and every component in it matches the schema.
pub open spec fn chat_doc_accepted(d: JsonDocument) -> bool {
    match d.root {
        JsonValue::Object(o) => chat_root_valid(d, ChatRootShortcut::One(o)),
        JsonValue::Array(a) => chat_root_valid(d, ChatRootShortcut::Many(a)),
        _ => false,
    }
}

/// Some well-formed document with complete arrays and the root kind the
/// text announces is refused by the chat schema.
pub open spec fn schema_refused_witness(text: Seq<u8>) -> bool {
    exists|d: JsonDocument|
        (#[trigger] d.wf()) && crate::json_document::doc_arrays_complete(d) && (
        d.root is Object <==> text[crate::json_document::ws_end(text, 0)] == 0x7b) && (
        d.root is Array <==> text[crate::json_document::ws_end(text, 0)] == 0x5b)
        && !chat_doc_accepted(d)
}

/// The reified chat message, for a valid document.
pub open spec fn spec_reify_root(doc: JsonDocument, sc: ChatRootShortcut) -> ChatRootV {
    match sc {
        ChatRootShortcut::One(o) => ChatRootV::One(spec_reify_component(doc, o)),
        ChatRootShortcut::Many(a) => ChatRootV::Many(
            Seq::new(
                a.len as nat,
                |i: int|
                    match doc.spec_array_element(a, i as u32) {
                        Some(JsonValue::Object(o)) => spec_reify_component(doc, o),
                        _ => spec_reify_component(doc, JsonObject(0)),
                    },
            ),
        ),
    }
}

impl ChatRoot {
    /// Asserts that the root node is an object or an array.
    pub fn make_shortcut(doc: &JsonDocument, node: JsonValue) -> (r: Result<
        ChatRootShortcut,
        DecodeError,
    >)
        ensures
            r is Ok <==> (node is Object || node is Array),
            node matches JsonValue::Object(no) ==> (r matches Ok(sc) && sc
                == ChatRootShortcut::One(no)),
            node matches JsonValue::Array(na) ==> (r matches Ok(sc) && sc
                == ChatRootShortcut::Many(na)),
    {
        match node {
            JsonValue::Object(o) => Ok(ChatRootShortcut::One(o)),
            JsonValue::Array(a) => Ok(ChatRootShortcut::Many(a)),
            _ => Err(DecodeError::new_static("expected an object or an array")),
        }
    }

    /// Checks the whole document against the schema.
    #[verifier::rlimit(100)]
    pub fn validate_deep(doc: &JsonDocument, sc: ChatRootShortcut) -> (r: Result<
        (),
        DecodeError,
    >)
        requires
            doc.wf(),
        ensures
            r is Ok <==> chat_root_valid(*doc, sc),
    {
        match sc {
            ChatRootShortcut::One(o) => {
                let view = ChatComponentView { shortcut: o };
                view.validate_deep(doc)
            },
            ChatRootShortcut::Many(a) => {
                let n = a.len;
                let mut i: u32 = 0;
                while i < n
                    invariant
                        doc.wf(),
                        sc == ChatRootShortcut::Many(a),
                        n == a.len,
                        i <= n,
                        forall|j: int|
                            0 <= j < i ==> match #[trigger] doc.spec_array_element(a, j as u32) {
                                Some(JsonValue::Object(o)) => component_valid(*doc, o),
                                _ => false,
                            },
                    decreases n - i,
                {
                    match doc.array_element(a, i) {
                        Some(JsonValue::Object(o)) => {
                            let view = ChatComponentView { shortcut: o };
                            let checked = crate::error::DecodeError::pathed(
                                crate::error::ItemPathPart::Indexed(i as usize),
                                view.validate_deep(doc),
                            );
                            match checked {
                                Ok(_) => {},
                                Err(e) => {
                                    proof {
                                        lemma_root_many_counterexample(*doc, a, i as int);
                                    }
                                    return Err(e);
                                },
                            }
                        },
                        _ => {
                            proof {
                                lemma_root_many_counterexample(*doc, a, i as int);
                            }
                            return Err(
                                DecodeError::new_static(
                                    "expected an array of component objects",
                                ).with_path(crate::error::ItemPathPart::Indexed(i as usize)),
                            );
                        },
                    }
                    i = i + 1;
                }
                Ok(())
            },
        }
    }

    /// Reifies the whole document into an owned chat message.
    #[verifier::rlimit(100)]
    pub fn try_reify(doc: &JsonDocument, sc: ChatRootShortcut) -> (r: Result<
        ChatRoot,
        DecodeError,
    >)
        requires
            doc.wf(),
        ensures
            r is Ok <==> chat_root_valid(*doc, sc),
            match r {
                Ok(v) => v.deep_view() == spec_reify_root(*doc, sc),
                Err(_) => true,
            },
    {
        match sc {
            ChatRootShortcut::One(o) => {
                let view = ChatComponentView { shortcut: o };
                let c = view.try_reify(doc)?;
                Ok(ChatRoot::One(c))
            },
            ChatRootShortcut::Many(a) => {
                let n = a.len;
                let mut out: Vec<ChatComponent> = Vec::new();
                let mut i: u32 = 0;
                proof {
                    assert(out.deep_view() =~= Seq::<ChatComponentV>::empty());
                }
                while i < n
                    invariant
                        doc.wf(),
                        sc == ChatRootShortcut::Many(a),
                        n == a.len,
                        i <= n,
                        out.deep_view().len() == i,
                        forall|j: int|
                            0 <= j < i ==> match #[trigger] doc.spec_array_element(a, j as u32) {
                                Some(JsonValue::Object(o)) => component_valid(*doc, o)
                                    && out.deep_view()[j] == spec_reify_component(*doc, o),
                                _ => false,
                            },
                    decreases n - i,
                {
                    match doc.array_element(a, i) {
                        Some(JsonValue::Object(o)) => {
                            let view = ChatComponentView { shortcut: o };
                            let got = crate::error::DecodeError::pathed(
                                crate::error::ItemPathPart::Indexed(i as usize),
                                view.try_reify(doc),
                            );
                            match got {
                                Ok(c) => {
                                    out.push(c);
                                },
                                Err(e) => {
                                    proof {
                                        lemma_root_many_counterexample(*doc, a, i as int);
                                    }
                                    return Err(e);
                                },
                            }
                        },
                        _ => {
                            proof {
                                lemma_root_many_counterexample(*doc, a, i as int);
                            }
                            return Err(
                                DecodeError::new_static(
                                    "expected an array of component objects",
                                ).with_path(crate::error::ItemPathPart::Indexed(i as usize)),
                            );
                        },
                    }
                    i = i + 1;
                }
                proof {
                    match spec_reify_root(*doc, sc) {
                        ChatRootV::Many(expect) => {
                            assert(out.deep_view() =~= expect);
                        },
                        _ => {},
                    }
                }
                Ok(ChatRoot::Many(out))
            },
        }
    }
}


/// One failing element refutes validity of the whole array.
proof fn lemma_root_many_counterexample(doc: JsonDocument, a: JsonArray, i: int)
    requires
        0 <= i < a.len,
        !(match doc.spec_array_element(a, i as u32) {
            Some(JsonValue::Object(o)) => component_valid(doc, o),
            _ => false,
        }),
    ensures
        !chat_root_valid(doc, ChatRootShortcut::Many(a)),
{
    if chat_root_valid(doc, ChatRootShortcut::Many(a)) {
        assert(match doc.spec_array_element(a, i as u32) {
            Some(JsonValue::Object(o)) => component_valid(doc, o),
            _ => false,
        });
    }
}


// === Chat as JSON text === //

/// A quoted, escaped JSON string literal.
pub open spec fn qstr(s: Seq<u8>) -> Seq<u8> {
    seq![34u8] + crate::json_document::json_escape(s) + seq![34u8]
}

/// One object member: quoted name, colon, value text.
pub open spec fn member(name: Seq<u8>, value: Seq<u8>) -> Seq<u8> {
    qstr(name) + seq![58u8] + value
}

/// The JSON text of a boolean.
pub open spec fn bool_json(b: bool) -> Seq<u8> {
    if b {
        seq![116u8, 114u8, 117u8, 101u8]
    } else {
        seq![102u8, 97u8, 108u8, 115u8, 101u8]
    }
}

/// Members joined with commas.
pub open spec fn join_members(parts: Seq<Seq<u8>>) -> Seq<u8>
    decreases parts.len(),
{
    if parts.len() == 0 {
        Seq::<u8>::empty()
    } else if parts.len() == 1 {
        parts[0]
    } else {
        join_members(parts.drop_last()) + seq![44u8] + parts.last()
    }
}

/// An object built from its members.
pub open spec fn obj_json(parts: Seq<Seq<u8>>) -> Seq<u8> {
    seq![123u8] + join_members(parts) + seq![125u8]
}

/// The member list contribution of an optional string field.
pub open spec fn opt_str_member(name: Seq<u8>, v: Option<Seq<u8>>) -> Seq<Seq<u8>> {
    match v {
        Some(t) => seq![member(name, qstr(t))],
        None => Seq::<Seq<u8>>::empty(),
    }
}

/// The member list contribution of an optional boolean field.
pub open spec fn opt_bool_member(name: Seq<u8>, v: Option<bool>) -> Seq<Seq<u8>> {
    match v {
        Some(b) => seq![member(name, bool_json(b))],
        None => Seq::<Seq<u8>>::empty(),
    }
}

/// The JSON text of a shown item.
pub open spec fn shown_item_json(v: ChatShownItemV) -> Seq<u8> {
    obj_json(
        seq![
            member(("id").spec_bytes(), qstr(v.id)),
            member(("count").spec_bytes(), crate::ctfe_format::dec_digits(v.count as nat)),
        ] + opt_str_member(("tag").spec_bytes(), v.tag),
    )
}

/// The JSON text of a click event.
pub open spec fn click_json(v: ChatClickEventV) -> Seq<u8> {
    obj_json(
        seq![
            member(("action").spec_bytes(), qstr(v.action)),
            member(("value").spec_bytes(), qstr(v.value)),
        ],
    )
}

/// The JSON text of a hover event.
pub open spec fn hover_json(v: ChatHoverEventV) -> Seq<u8> {
    obj_json(
        opt_str_member(("show_text").spec_bytes(), v.show_text) + (match v.show_item {
            Some(it) => seq![member(("show_item").spec_bytes(), shown_item_json(it))],
            None => Seq::<Seq<u8>>::empty(),
        }) + opt_str_member(("show_entity").spec_bytes(), v.show_entity),
    )
}

/// The member list of a component object.
pub open spec fn component_parts(v: ChatComponentV) -> Seq<Seq<u8>> {
    opt_str_member(("text").spec_bytes(), v.text) + opt_str_member(("translate").spec_bytes(), v.translate) + opt_str_member(("keybind").spec_bytes(), v.keybind) + opt_str_member(("font").spec_bytes(), v.font) + opt_str_member(("color").spec_bytes(), v.color) + opt_str_member(("insertion").spec_bytes(), v.insertion) + opt_bool_member(("bold").spec_bytes(), v.bold) + opt_bool_member(("italic").spec_bytes(), v.italic) + opt_bool_member(("underlined").spec_bytes(), v.underlined) + opt_bool_member(("strikethrough").spec_bytes(), v.strikethrough) + opt_bool_member(("obfuscated").spec_bytes(), v.obfuscated) + (match v.click_event {
        Some(cv) => seq![member(("click_event").spec_bytes(), click_json(cv))],
        None => Seq::<Seq<u8>>::empty(),
    }) + (match v.hover_event {
        Some(hv) => seq![member(("hover_event").spec_bytes(), hover_json(hv))],
        None => Seq::<Seq<u8>>::empty(),
    })
}

/// The JSON text of a component.
pub open spec fn component_json(v: ChatComponentV) -> Seq<u8> {
    obj_json(component_parts(v))
}

/// The JSON text of a whole chat message.
pub open spec fn chat_root_json(v: ChatRootV) -> Seq<u8> {
    match v {
        ChatRootV::One(c) => component_json(c),
        ChatRootV::Many(cs) => seq![91u8] + join_members(
            Seq::new(cs.len(), |i: int| component_json(cs[i])),
        ) + seq![93u8],
    }
}

/// Appends a quoted name, a colon and `value` as one collected member.
fn push_raw_member(parts: &mut Vec<Vec<u8>>, name: &str, value: &Vec<u8>)
    ensures
        final(parts).deep_view() == old(parts).deep_view().push(
            member(name.spec_bytes(), value@),
        ),
{
    let mut m: Vec<u8> = Vec::new();
    crate::json_document::write_json_string(&mut m, name.as_bytes());
    m.push(58);
    m.extend_from_slice(value.as_slice());
    proof {
        assert(m@ =~= member(name.spec_bytes(), value@));
    }
    parts.push(m);
    proof {
        assert(parts.deep_view() =~~= old(parts).deep_view().push(
            member(name.spec_bytes(), value@),
        ));
    }
}

/// Collects the member of an optional string field, when present.
fn push_str_member(parts: &mut Vec<Vec<u8>>, name: &str, v: &Option<Vec<u8>>)
    ensures
        final(parts).deep_view() == old(parts).deep_view() + opt_str_member(
            name.spec_bytes(),
            v.deep_view(),
        ),
{
    match v {
        Some(t) => {
            let mut q: Vec<u8> = Vec::new();
            crate::json_document::write_json_string(&mut q, t.as_slice());
            proof {
                assert(q@ =~= qstr(t@));
                assert(t@ =~= t.deep_view());
            }
            push_raw_member(parts, name, &q);
            proof {
                assert(parts.deep_view() =~~= old(parts).deep_view() + opt_str_member(
                    name.spec_bytes(),
                    v.deep_view(),
                ));
            }
        },
        None => {
            proof {
                assert(parts.deep_view() =~~= old(parts).deep_view() + opt_str_member(
                    name.spec_bytes(),
                    v.deep_view(),
                ));
            }
        },
    }
}

/// Collects the member of an optional boolean field, when present.
fn push_bool_member(parts: &mut Vec<Vec<u8>>, name: &str, v: Option<bool>)
    ensures
        final(parts).deep_view() == old(parts).deep_view() + opt_bool_member(
            name.spec_bytes(),
            v,
        ),
{
    match v {
        Some(b) => {
            let mut t: Vec<u8> = Vec::new();
            if b {
                t.push(116);
                t.push(114);
                t.push(117);
                t.push(101);
            } else {
                t.push(102);
                t.push(97);
                t.push(108);
                t.push(115);
                t.push(101);
            }
            proof {
                assert(t@ =~= bool_json(b));
            }
            push_raw_member(parts, name, &t);
            proof {
                assert(parts.deep_view() =~~= old(parts).deep_view() + opt_bool_member(
                    name.spec_bytes(),
                    v,
                ));
            }
        },
        None => {
            proof {
                assert(parts.deep_view() =~~= old(parts).deep_view() + opt_bool_member(
                    name.spec_bytes(),
                    v,
                ));
            }
        },
    }
}

/// Writes collected members as one JSON object.
fn write_object(out: &mut Vec<u8>, parts: &Vec<Vec<u8>>)
    ensures
        final(out)@ == old(out)@ + obj_json(parts.deep_view()),
{
    let ghost base = old(out)@;
    out.push(123);
    let n = parts.len();
    let mut k: usize = 0;
    proof {
        assert(parts.deep_view().subrange(0, 0) =~= Seq::<Seq<u8>>::empty());
        assert(out@ =~= base + seq![123u8] + join_members(parts.deep_view().subrange(0, 0)));
    }
    while k < n
        invariant
            base == old(out)@,
            n == parts.deep_view().len(),
            n == parts@.len(),
            k <= n,
            out@ == base + seq![123u8] + join_members(parts.deep_view().subrange(0, k as int)),
        decreases n - k,
    {
        if k > 0 {
            out.push(44);
        }
        out.extend_from_slice(parts[k].as_slice());
        proof {
            let pv = parts.deep_view();
            assert(parts[k as int].deep_view() =~= parts[k as int]@);
            assert(pv[k as int] == parts[k as int].deep_view());
            assert(pv.subrange(0, k + 1).drop_last() =~= pv.subrange(0, k as int));
            assert(pv.subrange(0, k + 1).last() == pv[k as int]);
            if k > 0 {
                assert(join_members(pv.subrange(0, k + 1)) == join_members(
                    pv.subrange(0, k as int),
                ) + seq![44u8] + pv[k as int]);
                assert(out@ =~= base + seq![123u8] + join_members(pv.subrange(0, k + 1)));
            } else {
                assert(pv.subrange(0, 1).len() == 1);
                assert(join_members(pv.subrange(0, k + 1)) =~= pv[0]);
                assert(out@ =~= base + seq![123u8] + join_members(pv.subrange(0, k + 1)));
            }
        }
        k = k + 1;
    }
    proof {
        assert(parts.deep_view().subrange(0, n as int) =~= parts.deep_view());
    }
    out.push(125);
    proof {
        assert(out@ =~= base + obj_json(parts.deep_view()));
    }
}

/// The JSON text of a shown item.
pub fn shown_item_to_json(v: &ChatShownItem) -> (r: Vec<u8>)
    ensures
        r@ == shown_item_json(v.deep_view()),
{
    let mut parts: Vec<Vec<u8>> = Vec::new();
    proof {
        assert(parts.deep_view() =~~= Seq::<Seq<u8>>::empty());
    }
    let mut q: Vec<u8> = Vec::new();
    crate::json_document::write_json_string(&mut q, v.id.as_slice());
    proof {
        assert(q@ =~= qstr(v.id@));
    }
    push_raw_member(&mut parts, "id", &q);
    let mut num: Vec<u8> = Vec::new();
    crate::ctfe_format::push_decimal(&mut num, v.count as u128);
    proof {
        assert(num@ =~= crate::ctfe_format::dec_digits(v.count as nat));
    }
    push_raw_member(&mut parts, "count", &num);
    push_str_member(&mut parts, "tag", &v.tag);
    proof {
        assert(v.id@ =~= v.id.deep_view());
        assert(parts.deep_view() =~~= seq![
            member(("id").spec_bytes(), qstr(v.deep_view().id)),
            member(
                ("count").spec_bytes(),
                crate::ctfe_format::dec_digits(v.deep_view().count as nat),
            ),
        ] + opt_str_member(("tag").spec_bytes(), v.deep_view().tag));
    }
    let mut out: Vec<u8> = Vec::new();
    write_object(&mut out, &parts);
    proof {
        assert(out@ =~= shown_item_json(v.deep_view()));
    }
    out
}

/// The JSON text of a click event.
pub fn click_to_json(v: &ChatClickEvent) -> (r: Vec<u8>)
    ensures
        r@ == click_json(v.deep_view()),
{
    let mut parts: Vec<Vec<u8>> = Vec::new();
    proof {
        assert(parts.deep_view() =~~= Seq::<Seq<u8>>::empty());
    }
    let mut qa: Vec<u8> = Vec::new();
    crate::json_document::write_json_string(&mut qa, v.action.as_slice());
    push_raw_member(&mut parts, "action", &qa);
    let mut qv: Vec<u8> = Vec::new();
    crate::json_document::write_json_string(&mut qv, v.value.as_slice());
    push_raw_member(&mut parts, "value", &qv);
    proof {
        assert(qa@ =~= qstr(v.action@));
        assert(qv@ =~= qstr(v.value@));
        assert(v.action@ =~= v.deep_view().action);
        assert(v.value@ =~= v.deep_view().value);
        assert(parts.deep_view() =~~= seq![
            member(("action").spec_bytes(), qstr(v.deep_view().action)),
            member(("value").spec_bytes(), qstr(v.deep_view().value)),
        ]);
    }
    let mut out: Vec<u8> = Vec::new();
    write_object(&mut out, &parts);
    proof {
        assert(out@ =~= click_json(v.deep_view()));
    }
    out
}

/// The JSON text of a hover event.
pub fn hover_to_json(v: &ChatHoverEvent) -> (r: Vec<u8>)
    ensures
        r@ == hover_json(v.deep_view()),
{
    let mut parts: Vec<Vec<u8>> = Vec::new();
    proof {
        assert(parts.deep_view() =~~= Seq::<Seq<u8>>::empty());
    }
    push_str_member(&mut parts, "show_text", &v.show_text);
    match &v.show_item {
        Some(it) => {
            let body = shown_item_to_json(it);
            push_raw_member(&mut parts, "show_item", &body);
        },
        None => {},
    }
    push_str_member(&mut parts, "show_entity", &v.show_entity);
    proof {
        assert(parts.deep_view() =~~= opt_str_member(
            ("show_text").spec_bytes(),
            v.deep_view().show_text,
        ) + (match v.deep_view().show_item {
            Some(it) => seq![member(("show_item").spec_bytes(), shown_item_json(it))],
            None => Seq::<Seq<u8>>::empty(),
        }) + opt_str_member(("show_entity").spec_bytes(), v.deep_view().show_entity));
    }
    let mut out: Vec<u8> = Vec::new();
    write_object(&mut out, &parts);
    proof {
        assert(out@ =~= hover_json(v.deep_view()));
    }
    out
}

/// The JSON text of a component.
#[verifier::rlimit(100)]
pub fn component_to_json(c: &ChatComponent) -> (r: Vec<u8>)
    ensures
        r@ == component_json(c.deep_view()),
{
    let mut parts: Vec<Vec<u8>> = Vec::new();
    proof {
        assert(parts.deep_view() =~~= Seq::<Seq<u8>>::empty());
    }
    push_str_member(&mut parts, "text", &c.text);
    push_str_member(&mut parts, "translate", &c.translate);
    push_str_member(&mut parts, "keybind", &c.keybind);
    push_str_member(&mut parts, "font", &c.font);
    push_str_member(&mut parts, "color", &c.color);
    push_str_member(&mut parts, "insertion", &c.insertion);
    push_bool_member(&mut parts, "bold", c.bold);
    push_bool_member(&mut parts, "italic", c.italic);
    push_bool_member(&mut parts, "underlined", c.underlined);
    push_bool_member(&mut parts, "strikethrough", c.strikethrough);
    push_bool_member(&mut parts, "obfuscated", c.obfuscated);
    match &c.click_event {
        Some(cv) => {
            let body = click_to_json(cv);
            push_raw_member(&mut parts, "click_event", &body);
        },
        None => {},
    }
    match &c.hover_event {
        Some(hv) => {
            let body = hover_to_json(hv);
            push_raw_member(&mut parts, "hover_event", &body);
        },
        None => {},
    }
    proof {
        assert(parts.deep_view() =~~= component_parts(c.deep_view()));
    }
    let mut out: Vec<u8> = Vec::new();
    write_object(&mut out, &parts);
    proof {
        assert(out@ =~= component_json(c.deep_view()));
    }
    out
}

/// The JSON text of a whole chat message.
pub fn chat_root_to_json(v: &ChatRoot) -> (r: Vec<u8>)
    ensures
        r@ == chat_root_json(v.deep_view()),
{
    match v {
        ChatRoot::One(c) => component_to_json(c),
        ChatRoot::Many(cs) => {
            let mut parts: Vec<Vec<u8>> = Vec::new();
            let n = cs.len();
            let mut i: usize = 0;
            proof {
                assert(parts.deep_view() =~~= Seq::<Seq<u8>>::empty());
            }
            while i < n
                invariant
                    n == cs@.len(),
                    i <= n,
                    cs.deep_view().len() == n,
                    parts.deep_view().len() == i,
                    forall|j: int|
                        0 <= j < i ==> #[trigger] parts.deep_view()[j] == component_json(
                            cs.deep_view()[j],
                        ),
                decreases n - i,
            {
                let body = component_to_json(&cs[i]);
                proof {
                    assert(cs.deep_view()[i as int] == cs[i as int].deep_view());
                }
                let ghost before = parts.deep_view();
                let ghost body_bytes = body@;
                parts.push(body);
                proof {
                    assert(parts.deep_view() =~~= before.push(body_bytes));
                }
                i = i + 1;
            }
            let ghost expected = Seq::new(
                cs.deep_view().len(),
                |j: int| component_json(cs.deep_view()[j]),
            );
            proof {
                assert(parts.deep_view() =~~= expected);
            }
            let mut inner: Vec<u8> = Vec::new();
            write_object(&mut inner, &parts);
            let inner_len = inner.len();
            proof {
                assert(inner@ == Seq::<u8>::empty() + obj_json(parts.deep_view()));
                assert(inner@.len() >= 2);
            }
            let body = vstd::slice::slice_subrange(inner.as_slice(), 1, inner_len - 1);
            let ghost join = join_members(parts.deep_view());
            proof {
                assert(inner@ =~= seq![123u8] + join + seq![125u8]);
                assert(body@ =~= join);
            }
            let mut out: Vec<u8> = Vec::new();
            out.push(91);
            out.extend_from_slice(body);
            out.push(93);
            proof {
                assert(out@ =~= seq![91u8] + join_members(expected) + seq![93u8]);
                assert(out@ =~= chat_root_json(v.deep_view()));
            }
            out
        },
    }
}


// === Chat as a wire field === //

/// A chat message carried as a length-prefixed JSON string field.
///
/// A decoded value keeps, as a ghost summary, the parsed document and
/// the shortcut it was validated against, so its contract can pin the
/// reified message to a schema-valid reading.
#[derive(Clone)]
pub struct Json {
    /// The reified chat message.
    pub root: ChatRoot,
    /// The document and shortcut a decoded message was validated
    /// against.
    pub summary: Ghost<(crate::json_document::JsonDocument, ChatRootShortcut)>,
}

impl DeepView for Json {
    type V = ChatRootV;

    open spec fn deep_view(&self) -> ChatRootV {
        self.root.deep_view()
    }
}

impl Json {
    /// Wraps an outbound chat message; the summary is unused on the
    /// encode side.
    pub fn new(root: ChatRoot) -> (r: Self)
        ensures
            r.root == root,
    {
        Json { root, summary: Ghost(vstd::pervasive::arbitrary()) }
    }
}

/// Which chat values fit the wire field: their JSON text must be valid
/// UTF-8 within the field's codepoint bound and length prefix.
pub open spec fn json_field_encodable(v: ChatRootV) -> bool {
    &&& vstd::utf8::valid_utf8(chat_root_json(v))
    &&& chat_root_json(v).len() <= 0x7fff_ffff
    &&& vstd::utf8::decode_utf8(chat_root_json(v)).len() <= CHAT_MAX_LEN
}

impl Json {
    /// Decodes a chat field: the JSON string layer and the JSON grammar
    /// exactly, then deep schema validation of the parsed document. A
    /// frame whose text is not well-formed JSON is rejected here, at
    /// packet-decode time. Which well-formed documents the chat schema
    /// then accepts is decided by the document-level validation
    /// ([`ChatRoot::validate_deep`], itself exactly specified); that
    /// acceptance is not restated over the raw bytes; a refused document
    /// is witnessed instead.
    #[verifier::rlimit(100)]
    pub fn decode(cursor: &mut ByteCursor) -> (r: Result<Self, DecodeError>)
        requires
            old(cursor).wf(),
        ensures
            final(cursor).wf(),
            final(cursor).original@ == old(cursor).original@,
            crate::primitives::netstring_dec(
                old(cursor).original@,
                old(cursor).pos as int,
                Some(CHAT_MAX_LEN),
            ) is None ==> r is Err,
            (crate::primitives::netstring_dec(
                old(cursor).original@,
                old(cursor).pos as int,
                Some(CHAT_MAX_LEN),
            ) matches Some((text, end))
                && !crate::json_document::json_text_wf(text)) ==> r is Err,
            crate::primitives::netstring_dec(
                old(cursor).original@,
                old(cursor).pos as int,
                Some(CHAT_MAX_LEN),
            ) matches Some((text, end)) ==> ((r is Err
                && crate::json_document::json_text_wf(text)) ==> schema_refused_witness(
                text,
            )),
            match r {
                Ok(j) => (crate::primitives::netstring_dec(
                    old(cursor).original@,
                    old(cursor).pos as int,
                    Some(CHAT_MAX_LEN),
                ) matches Some((text, end)) && final(cursor).pos == end
                    && crate::json_document::json_text_wf(text)) && ({
                    let (d, sc) = j.summary@;
                    &&& d.wf()
                    &&& crate::json_document::doc_arrays_complete(d)
                    &&& chat_root_valid(d, sc)
                    &&& j.deep_view() == spec_reify_root(d, sc)
                }),
                Err(_) => true,
            },
    {
        let ns = <crate::primitives::NetString as crate::primitives::DeserializeFor<Option<u32>>>::decode(
            cursor,
            Some(CHAT_MAX_LEN),
        )?;
        let out = Self::from_text(ns.bytes().as_slice());
        proof {
            match crate::primitives::netstring_dec(
                old(cursor).original@,
                old(cursor).pos as int,
                Some(CHAT_MAX_LEN),
            ) {
                Some((text, end)) => {
                    assert(ns.deep_view() == text);
                    match crate::var_int::vu32_dec(
                        old(cursor).original@,
                        old(cursor).pos as int,
                    ) {
                        crate::var_int::VarDec::Done { value, end: e2 } => {
                            crate::var_int::lemma_vu32_dec_bounds(
                                old(cursor).original@,
                                old(cursor).pos as int,
                            );
                            assert(value <= 0x7fff_ffff);
                            assert(text == old(cursor).original@.subrange(
                                e2,
                                e2 + value,
                            ));
                            assert(text.len() <= 0x7fff_ffff);
                        },
                        _ => {
                            assert(false);
                        },
                    }
                },
                None => {},
            }
        }
        out
    }

    /// Parses and schema-validates one chat text. A failure past a
    /// well-formed text of document size is pinned by a refused witness
    /// document.
    #[verifier::rlimit(100)]
    fn from_text(text: &[u8]) -> (r: Result<Self, DecodeError>)
        ensures
            r is Ok ==> (text@.len() <= 0xffff_ffff && crate::json_document::json_text_wf(
                text@,
            )),
            (text@.len() <= 0xffff_ffff && crate::json_document::json_text_wf(text@) && r
                is Err) ==> schema_refused_witness(text@),
            match r {
                Ok(j) => crate::json_document::json_text_wf(text@) && ({
                    let (d, sc) = j.summary@;
                    &&& d.wf()
                    &&& crate::json_document::doc_arrays_complete(d)
                    &&& chat_root_valid(d, sc)
                    &&& j.deep_view() == spec_reify_root(d, sc)
                }),
                Err(_) => true,
            },
    {
        let doc = match crate::json_document::JsonDocument::parse(text) {
            Ok(d) => d,
            Err(e) => {
                return Err(e.with_kind("chat JSON"));
            },
        };
        let root = doc.root();
        let sc = match ChatRoot::make_shortcut(&doc, root) {
            Ok(sc) => sc,
            Err(e) => {
                proof {
                    assert(!chat_doc_accepted(doc));
                    assert(doc.wf() && crate::json_document::doc_arrays_complete(doc));
                    assert(schema_refused_witness(text@));
                }
                return Err(e.with_kind("chat JSON"));
            },
        };
        match ChatRoot::validate_deep(&doc, sc) {
            Ok(_) => {},
            Err(e) => {
                proof {
                    assert(!chat_doc_accepted(doc));
                    assert(doc.wf() && crate::json_document::doc_arrays_complete(doc));
                    assert(schema_refused_witness(text@));
                }
                return Err(e.with_kind("chat JSON"));
            },
        }
        let reified = match ChatRoot::try_reify(&doc, sc) {
            Ok(v) => v,
            Err(e) => {
                return Err(e.with_kind("chat JSON"));
            },
        };
        Ok(Json { root: reified, summary: Ghost((doc, sc)) })
    }

    /// Appends the chat message as a length-prefixed JSON string field.
    pub fn serialize(&self, out: &mut Vec<u8>) -> (r: Result<(), DecodeError>)
        ensures
            r is Ok <==> json_field_encodable(self.deep_view()),
            match r {
                Ok(_) => final(out)@ == old(out)@ + crate::primitives::netstring_enc(
                    chat_root_json(self.deep_view()),
                ),
                Err(_) => final(out)@ == old(out)@,
            },
    {
        let text = chat_root_to_json(&self.root);
        let counts = match crate::text::scan_utf8(text.as_slice()) {
            Some(c) => c,
            None => {
                return Err(DecodeError::new_static("chat JSON text is not valid UTF-8"));
            },
        };
        if counts.codepoints > CHAT_MAX_LEN as usize {
            return Err(DecodeError::new_static("chat JSON text exceeds its codepoint bound"));
        }
        if text.len() > 0x7fff_ffff {
            return Err(DecodeError::new_static("chat JSON text overflows the length prefix"));
        }
        let ghost base = out@;
        crate::var_int::encode_var_u32_raw(out, text.len() as u32);
        out.extend_from_slice(text.as_slice());
        proof {
            assert(out@ =~= base + crate::primitives::netstring_enc(
                chat_root_json(self.deep_view()),
            ));
        }
        Ok(())
    }
}

} // verus!
