//! The gateway's own representation of a parsed JSON document, and the
//! trusted bridge to the `serde_json` parser.

use vstd::prelude::*;

verus! {

/// A parsed JSON value as the pipeline works on it.
///
/// A floating-point number is carried as its IEEE 754 bit pattern in a
/// `u64`, so the pipeline itself never computes on such numbers; consumers
/// reinterpret the bits at the boundary.
pub enum JsonValue {
    Null,
    Bool(bool),
    Int(i64),
    Float(u64),
    Str(String),
    Arr(Vec<JsonValue>),
    Obj(Vec<(String, JsonValue)>),
}

/// The mathematical model of a `JsonValue`: strings become `Seq<char>`,
/// vectors become `Seq`.
pub enum JVal {
    Null,
    Bool(bool),
    Int(i64),
    Float(u64),
    Str(Seq<char>),
    Arr(Seq<JVal>),
    Obj(Seq<(Seq<char>, JVal)>),
}

/// The model of a `JsonValue`: the same tree with every `String` read as its
/// character sequence and every `Vec` as a `Seq`.
pub open spec fn jval_of(v: JsonValue) -> JVal
    decreases v,
{
    match v {
        JsonValue::Null => JVal::Null,
        JsonValue::Bool(b) => JVal::Bool(b),
        JsonValue::Int(i) => JVal::Int(i),
        JsonValue::Float(bits) => JVal::Float(bits),
        JsonValue::Str(s) => JVal::Str(s@),
        JsonValue::Arr(a) => JVal::Arr(
            Seq::new(
                a.len() as nat,
                |i: int| if 0 <= i < a.len() { jval_of(a[i]) } else { JVal::Null },
            ),
        ),
        JsonValue::Obj(o) => JVal::Obj(
            Seq::new(
                o.len() as nat,
                |i: int|
                    if 0 <= i < o.len() {
                        (o[i].0@, jval_of(o[i].1))
                    } else {
                        (Seq::<char>::empty(), JVal::Null)
                    },
            ),
        ),
    }
}

impl View for JsonValue {
    type V = JVal;

    open spec fn view(&self) -> JVal {
        jval_of(*self)
    }
}

#[verifier::external_type_specification]
#[verifier::external_body]
pub struct ExSerdeValue(serde_json::Value);

/// What `serde_json` makes of a byte sequence: `None` when the bytes are not
/// one well-formed JSON document, otherwise the parsed value. The result is a
/// function of the bytes alone.
pub uninterp spec fn parsed_json(bytes: Seq<u8>) -> Option<JVal>;

/// Relies on `serde_json::from_slice::<serde_json::Value>`: whether it
/// returns `Ok`, and which value it parses, depend on the bytes alone;
/// `parsed_json` names that outcome.
#[verifier::external_body]
pub fn parse_bytes(bytes: &[u8]) -> (r: Option<JsonValue>)
    ensures
        match r {
            Some(v) => parsed_json(bytes@) == Some(v@),
            None => parsed_json(bytes@) is None,
        },
{
    match serde_json::from_slice::<serde_json::Value>(bytes) {
        Ok(v) => Some(from_serde(v)),
        Err(_) => None,
    }
}

/// Carries a `serde_json::Value` over into the gateway's `JsonValue`, variant
/// for variant; called only from `parse_bytes`. Relies on
/// `serde_json::Value`'s accessors: `Number::as_i64` is `Some` exactly for
/// integers in `i64` range, and any other JSON number is available through
/// `Number::as_f64`, whose bit pattern is kept.
#[verifier::external_body]
fn from_serde(v: serde_json::Value) -> JsonValue {
    match v {
        serde_json::Value::Null => JsonValue::Null,
        serde_json::Value::Bool(b) => JsonValue::Bool(b),
        serde_json::Value::Number(n) => match (n.as_i64(), n.as_f64()) {
            (Some(i), _) => JsonValue::Int(i),
            (None, Some(x)) => JsonValue::Float(x.to_bits()),
            (None, None) => JsonValue::Null,
        },
        serde_json::Value::String(s) => JsonValue::Str(s),
        serde_json::Value::Array(a) => JsonValue::Arr(a.into_iter().map(from_serde).collect()),
        serde_json::Value::Object(m) => JsonValue::Obj(
            m.into_iter().map(|(k, w)| (k, from_serde(w))).collect(),
        ),
    }
}

} // verus!
