//! Type descriptors written as JSON: `serde_json` parses the text, and the
//! tree that it gives is read as a descriptor.

use crate::names::name_eq;
use crate::v_types::Descr;
use crate::v_types::TypeDescr;
use vstd::prelude::*;
use vstd::string::*;

verus! {

broadcast use vstd::map::group_map_axioms;

/// A JSON value as a mathematical value. Of a number only this is held:
/// which unsigned number of 64 bits it is, if it is one.
pub enum Json {
    Null,
    Bool(bool),
    Number(Option<u64>),
    Text(Seq<char>),
    List(Seq<Json>),
    Object(Map<Seq<char>, Json>),
}

/// `serde_json::Value`, a parsed JSON value. Nothing of it is seen but
/// through the functions below.
#[verifier::external_type_specification]
#[verifier::external_body]
pub struct ExValue(serde_json::Value);

/// The value that `serde_json` reads from a text, if it can parse it.
pub uninterp spec fn json_layout(text: Seq<char>) -> Option<Json>;

/// The value that a parsed JSON value holds.
pub uninterp spec fn json_held(v: serde_json::Value) -> Json;

/// `serde_json::from_str` for `serde_json::Value`: parses the text; what the
/// result holds is a function of the text.
#[verifier::external_body]
fn json_parse(text: &str) -> (r: Option<serde_json::Value>)
    ensures
        r is Some <==> json_layout(text@) is Some,
        r matches Some(v) ==> json_held(v) == json_layout(text@).unwrap(),
{
    serde_json::from_str::<serde_json::Value>(text).ok()
}

/// `serde_json::Value::as_object` and `serde_json::Map::get`: the value under
/// `key` of an object that has this key.
#[verifier::external_body]
fn json_member<'a>(v: &'a serde_json::Value, key: &str) -> (r: Option<&'a serde_json::Value>)
    ensures
        match r {
            Some(f) => member(json_held(*v), key@) == Some(json_held(*f)),
            None => member(json_held(*v), key@) is None,
        },
{
    v.as_object()?.get(key)
}

/// `serde_json::Value::as_str`: the text of a string value.
#[verifier::external_body]
fn json_text(v: &serde_json::Value) -> (r: Option<String>)
    ensures
        match r {
            Some(s) => json_held(*v) == Json::Text(s@),
            None => !(json_held(*v) is Text),
        },
{
    v.as_str().map(String::from)
}

/// `serde_json::Value::as_u64`: the number, if the value is an integer that
/// is not negative and fits in 64 bits.
#[verifier::external_body]
fn json_u64(v: &serde_json::Value) -> (r: Option<u64>)
    ensures
        match r {
            Some(n) => json_held(*v) == Json::Number(Some(n)),
            None => !(json_held(*v) matches Json::Number(Some(_))),
        },
{
    v.as_u64()
}

/// The value under `key` of an object that has this key.
pub open spec fn member(j: Json, key: Seq<char>) -> Option<Json> {
    match j {
        Json::Object(m) => if m.contains_key(key) {
            Some(m[key])
        } else {
            None
        },
        _ => None,
    }
}

/// The text under `key`.
pub open spec fn text_at(j: Json, key: Seq<char>) -> Option<Seq<char>> {
    match member(j, key) {
        Some(Json::Text(s)) => Some(s),
        _ => None,
    }
}

/// The unsigned number under `key`.
pub open spec fn number_at(j: Json, key: Seq<char>) -> Option<u64> {
    match member(j, key) {
        Some(Json::Number(Some(n))) => Some(n),
        _ => None,
    }
}

/// The number under `key` if it fits in eight bits.
pub open spec fn byte_at(j: Json, key: Seq<char>) -> Option<u8> {
    match number_at(j, key) {
        Some(n) => if n <= 255 {
            Some(n as u8)
        } else {
            None
        },
        None => None,
    }
}

/// The descriptor under `key`.
pub open spec fn descr_at(j: Json, key: Seq<char>) -> Option<Descr>
    decreases j, 0nat,
{
    match j {
        Json::Object(m) => if m.contains_key(key) {
            descr_of_json(m[key])
        } else {
            None
        },
        _ => None,
    }
}

/// The type descriptor that a JSON value stands for: an object whose text
/// under `kind` names the variant, and which has under the names of the
/// variant's fields what the fields hold. Other keys are not looked at.
pub open spec fn descr_of_json(j: Json) -> Option<Descr>
    decreases j, 1nat,
{
    match text_at(j, "kind"@) {
        None => None,
        Some(k) => if k == "array"@ {
            match (number_at(j, "count"@), descr_at(j, "subtype"@)) {
                (Some(count), Some(d)) => Some(Descr::Array { count, subtype: Box::new(d) }),
                _ => None,
            }
        } else if k == "base"@ {
            match text_at(j, "name"@) {
                Some(name) => Some(Descr::Base { name }),
                None => None,
            }
        } else if k == "bitfield"@ {
            match (byte_at(j, "bit_position"@), byte_at(j, "bit_length"@), descr_at(j, "type"@)) {
                (Some(bit_position), Some(bit_length), Some(d)) => Some(
                    Descr::Bitfield { bit_position, bit_length, inner: Box::new(d) },
                ),
                _ => None,
            }
        } else if k == "enum"@ {
            match text_at(j, "name"@) {
                Some(name) => Some(Descr::Enum { name }),
                None => None,
            }
        } else if k == "function"@ {
            Some(Descr::Function)
        } else if k == "pointer"@ {
            match descr_at(j, "subtype"@) {
                Some(d) => Some(Descr::Pointer { subtype: Box::new(d) }),
                None => None,
            }
        } else if k == "struct"@ {
            match text_at(j, "name"@) {
                Some(name) => Some(Descr::Struct { name }),
                None => None,
            }
        } else if k == "union"@ {
            match text_at(j, "name"@) {
                Some(name) => Some(Descr::Union { name }),
                None => None,
            }
        } else {
            None
        },
    }
}

fn text_under(v: &serde_json::Value, key: &str) -> (r: Option<String>)
    ensures
        match r {
            Some(s) => text_at(json_held(*v), key@) == Some(s@),
            None => text_at(json_held(*v), key@) is None,
        },
{
    match json_member(v, key) {
        Some(f) => json_text(f),
        None => None,
    }
}

fn number_under(v: &serde_json::Value, key: &str) -> (r: Option<u64>)
    ensures
        r == number_at(json_held(*v), key@),
{
    match json_member(v, key) {
        Some(f) => json_u64(f),
        None => None,
    }
}

fn byte_under(v: &serde_json::Value, key: &str) -> (r: Option<u8>)
    ensures
        r == byte_at(json_held(*v), key@),
{
    match number_under(v, key) {
        Some(n) => if n <= 255 {
            Some(n as u8)
        } else {
            None
        },
        None => None,
    }
}

impl TypeDescr {
    /// The type descriptor under `key` of a JSON object.
    fn under(v: &serde_json::Value, key: &str) -> (r: Option<TypeDescr>)
        ensures
            match r {
                Some(d) => descr_at(json_held(*v), key@) == Some(d@),
                None => descr_at(json_held(*v), key@) is None,
            },
        decreases json_held(*v), 0nat,
    {
        match json_member(v, key) {
            Some(f) => TypeDescr::from_json(f),
            None => None,
        }
    }

    /// The type descriptor that a JSON value stands for.
    pub fn from_json(v: &serde_json::Value) -> (r: Option<TypeDescr>)
        ensures
            match r {
                Some(d) => descr_of_json(json_held(*v)) == Some(d@),
                None => descr_of_json(json_held(*v)) is None,
            },
        decreases json_held(*v), 1nat,
    {
        let kind = match text_under(v, "kind") {
            Some(kind) => kind,
            None => {
                return None;
            },
        };
        let k = kind.as_str();
        if name_eq(k, "array") {
            match (number_under(v, "count"), TypeDescr::under(v, "subtype")) {
                (Some(count), Some(d)) => Some(TypeDescr::Array { count, subtype: Box::new(d) }),
                _ => None,
            }
        } else if name_eq(k, "base") {
            match text_under(v, "name") {
                Some(name) => Some(TypeDescr::Base { name }),
                None => None,
            }
        } else if name_eq(k, "bitfield") {
            match (
                byte_under(v, "bit_position"),
                byte_under(v, "bit_length"),
                TypeDescr::under(v, "type"),
            ) {
                (Some(bit_position), Some(bit_length), Some(d)) => Some(
                    TypeDescr::Bitfield { bit_position, bit_length, type_: Box::new(d) },
                ),
                _ => None,
            }
        } else if name_eq(k, "enum") {
            match text_under(v, "name") {
                Some(name) => Some(TypeDescr::Enum { name }),
                None => None,
            }
        } else if name_eq(k, "function") {
            Some(TypeDescr::Function)
        } else if name_eq(k, "pointer") {
            match TypeDescr::under(v, "subtype") {
                Some(d) => Some(TypeDescr::Pointer { subtype: Box::new(d) }),
                None => None,
            }
        } else if name_eq(k, "struct") {
            match text_under(v, "name") {
                Some(name) => Some(TypeDescr::Struct { name }),
                None => None,
            }
        } else if name_eq(k, "union") {
            match text_under(v, "name") {
                Some(name) => Some(TypeDescr::Union { name }),
                None => None,
            }
        } else {
            None
        }
    }

    /// The type descriptor that a JSON text stands for.
    pub fn from_json_text(text: &str) -> (r: Option<TypeDescr>)
        ensures
            match r {
                Some(d) => json_layout(text@) matches Some(j) && descr_of_json(j) == Some(d@),
                None => json_layout(text@) matches Some(j) ==> descr_of_json(j) is None,
            },
    {
        match json_parse(text) {
            Some(v) => TypeDescr::from_json(&v),
            None => None,
        }
    }
}

} // verus!
