use vstd::prelude::*;

use crate::codec::{decode_http_front, decode_order, encode_order, DecodeError};
use crate::json::Json;
use crate::messages::{HttpFront, Order};

verus! {

// ---------------------------------------------------------------------------
// The wire side of the codec.  serde_json reads and writes the JSON
// text; everything it hands back is rebuilt as a `Json` value by
// `value_to_json`, and only then does the verified decoder interpret
// it.  What a given text parses to is only a name (`json_of_text`),
// as is what a value prints to: the meaning of an order lives
// entirely in `codec`.
// ---------------------------------------------------------------------------

/// What JSON text parses and rebuilds to: a function of the text
/// alone.
pub uninterp spec fn json_of_text(s: Seq<char>) -> Option<Json>;

/// What a JSON value prints to: a function of the value alone.
pub uninterp spec fn text_of_json(j: Json) -> Seq<char>;

#[verifier::external_type_specification]
#[verifier::external_body]
pub struct ExJsonValue(serde_json::Value);

/// Relies on serde_json::from_str: parses JSON text, `None` on a
/// syntax error; the parse is deterministic and the rebuild pure, so
/// the result is a function of the text and gets the name
/// `json_of_text`.
#[verifier::external_body]
fn parse_json(s: &str) -> (r: Option<Json>)
    ensures
        r == json_of_text(s@),
{
    match serde_json::from_str::<serde_json::Value>(s) {
        Ok(v) => value_to_json(&v, CONVERT_DEPTH),
        Err(_) => None,
    }
}

/// Relies on serde_json::to_string: prints a JSON value, which cannot
/// fail on a value tree (all object keys are strings); deterministic,
/// so the text gets the name `text_of_json`.
#[verifier::external_body]
fn print_json(j: &Json) -> (r: String)
    ensures
        r@ == text_of_json(*j),
{
    match serde_json::to_string(&json_to_value(j)) {
        Ok(text) => text,
        Err(_) => String::new(),
    }
}

/// Relies on serde_json::Value::is_null.
#[verifier::external_body]
fn jv_is_null(v: &serde_json::Value) -> bool {
    v.is_null()
}

/// Relies on serde_json::Value::as_bool.
#[verifier::external_body]
fn jv_as_bool(v: &serde_json::Value) -> Option<bool> {
    v.as_bool()
}

/// Relies on serde_json::Value::as_u64: the number, when it is an
/// unsigned integer.
#[verifier::external_body]
fn jv_as_u64(v: &serde_json::Value) -> Option<u64> {
    v.as_u64()
}

/// Relies on serde_json::Value::as_str.
#[verifier::external_body]
fn jv_as_string(v: &serde_json::Value) -> Option<String> {
    match v.as_str() {
        Some(s) => Some(s.to_owned()),
        None => None,
    }
}

/// Relies on serde_json::Value::as_array.
#[verifier::external_body]
fn jv_as_array<'a>(v: &'a serde_json::Value) -> Option<&'a Vec<serde_json::Value>> {
    v.as_array()
}

/// Relies on serde_json::Value::as_object: the entries in the order
/// the map holds them.
#[verifier::external_body]
fn jv_entries(v: &serde_json::Value) -> Option<Vec<(String, serde_json::Value)>> {
    match v.as_object() {
        Some(m) => Some(m.iter().map(|(k, x)| (k.clone(), x.clone())).collect()),
        None => None,
    }
}

/// Relies on serde_json::Value::Null.
#[verifier::external_body]
fn jv_null() -> serde_json::Value {
    serde_json::Value::Null
}

/// Relies on serde_json::Value::Bool.
#[verifier::external_body]
fn jv_bool(b: bool) -> serde_json::Value {
    serde_json::Value::Bool(b)
}

/// Relies on serde_json::Number::from for u64.
#[verifier::external_body]
fn jv_u64(n: u64) -> serde_json::Value {
    serde_json::Value::Number(serde_json::Number::from(n))
}

/// Relies on serde_json::Value::String.
#[verifier::external_body]
fn jv_string(s: String) -> serde_json::Value {
    serde_json::Value::String(s)
}

/// Relies on serde_json::Value::Array.
#[verifier::external_body]
fn jv_array(items: Vec<serde_json::Value>) -> serde_json::Value {
    serde_json::Value::Array(items)
}

/// Relies on serde_json::Map::from_iter: builds an object from keyed
/// entries.
#[verifier::external_body]
fn jv_object(entries: Vec<(String, serde_json::Value)>) -> serde_json::Value {
    serde_json::Value::Object(serde_json::Map::from_iter(entries))
}

/// How deep a nested order may reasonably be; the orders themselves
/// use three levels.
const CONVERT_DEPTH: u32 = 64;

/// Rebuilds a parsed JSON value as the codec's own `Json`.  `None`
/// when the value nests deeper than `fuel` or holds a number that is
/// not an unsigned integer.
#[verifier::loop_isolation(false)]
fn value_to_json(v: &serde_json::Value, fuel: u32) -> (r: Option<Json>)
    decreases fuel,
{
    if fuel == 0 {
        return None;
    }
    if jv_is_null(v) {
        return Some(Json::Null);
    }
    if let Some(b) = jv_as_bool(v) {
        return Some(Json::Bool(b));
    }
    if let Some(n) = jv_as_u64(v) {
        return Some(Json::UInt(n));
    }
    if let Some(s) = jv_as_string(v) {
        return Some(Json::Str(s));
    }
    if let Some(items) = jv_as_array(v) {
        let mut out: Vec<Json> = Vec::new();
        let mut i: usize = 0;
        while i < items.len()
            decreases items.len() - i,
        {
            match value_to_json(&items[i], fuel - 1) {
                Some(x) => out.push(x),
                None => {
                    return None;
                },
            }
            i = i + 1;
        }
        return Some(Json::Arr(out));
    }
    if let Some(entries) = jv_entries(v) {
        let mut out: Vec<(String, Json)> = Vec::new();
        let mut i: usize = 0;
        while i < entries.len()
            decreases entries.len() - i,
        {
            match value_to_json(&entries[i].1, fuel - 1) {
                Some(x) => out.push((entries[i].0.clone(), x)),
                None => {
                    return None;
                },
            }
            i = i + 1;
        }
        return Some(Json::Obj(out));
    }
    None
}

/// Rebuilds a `Json` value as a serde_json value, for printing.
#[verifier::loop_isolation(false)]
fn json_to_value(j: &Json) -> serde_json::Value
    decreases j,
{
    match j {
        Json::Null => jv_null(),
        Json::Bool(b) => jv_bool(*b),
        Json::UInt(n) => jv_u64(*n),
        Json::Str(s) => jv_string(s.clone()),
        Json::Arr(items) => {
            let mut out: Vec<serde_json::Value> = Vec::new();
            let mut i: usize = 0;
            while i < items.len()
                invariant
                    0 <= i <= items.len(),
                decreases items.len() - i,
            {
                proof {
                    assert(decreases_to!(*j => *items));
                    assert(decreases_to!(*items => items@));
                    assert(decreases_to!(items@ => items@[i as int]));
                    assert(decreases_to!(*j => items@[i as int]));
                }
                out.push(json_to_value(&items[i]));
                i = i + 1;
            }
            jv_array(out)
        },
        Json::Obj(entries) => {
            let mut out: Vec<(String, serde_json::Value)> = Vec::new();
            let mut i: usize = 0;
            while i < entries.len()
                invariant
                    0 <= i <= entries.len(),
                decreases entries.len() - i,
            {
                proof {
                    assert(decreases_to!(*j => *entries));
                    assert(decreases_to!(*entries => entries@));
                    assert(decreases_to!(entries@ => entries@[i as int]));
                    assert(decreases_to!(entries@[i as int] => entries@[i as int].1));
                    assert(decreases_to!(*j => entries@[i as int].1));
                }
                out.push((entries[i].0.clone(), json_to_value(&entries[i].1)));
                i = i + 1;
            }
            jv_object(out)
        },
    }
}

/// Decodes one order from JSON text: exactly `decode_order` applied to
/// what the text parses to, and `InvalidJson` for text serde_json
/// refuses or a value the codec cannot hold (a float, a negative
/// number, too deep a nesting).
pub fn parse_order(raw: &str) -> (r: Result<Order, DecodeError>)
    ensures
        json_of_text(raw@) is None ==> r == Err::<Order, DecodeError>(DecodeError::InvalidJson),
        json_of_text(raw@) matches Some(j) ==> match r {
            Ok(o) => crate::codec::spec_decode_order(j) == Ok::<
                crate::messages::OrderV,
                DecodeError,
            >(o@),
            Err(e) => crate::codec::spec_decode_order(j) == Err::<
                crate::messages::OrderV,
                DecodeError,
            >(e),
        },
{
    match parse_json(raw) {
        Some(j) => decode_order(&j),
        None => Err(DecodeError::InvalidJson),
    }
}

/// Decodes one HTTP front from JSON text: exactly `decode_http_front`
/// applied to what the text parses to.
pub fn parse_http_front(raw: &str) -> (r: Option<HttpFront>)
    ensures
        json_of_text(raw@) is None ==> r is None,
        json_of_text(raw@) matches Some(j) ==> match r {
            Some(f) => crate::codec::spec_decode_http_front(j) == Some(f@),
            None => crate::codec::spec_decode_http_front(j) is None,
        },
{
    match parse_json(raw) {
        Some(j) => decode_http_front(&j),
        None => None,
    }
}

/// Encodes one order as JSON text: the print of a value that carries
/// the order in the layout `encodes_order` fixes.
pub fn write_order(o: &Order) -> (r: String)
    ensures
        exists|j: Json| #[trigger] crate::codec::encodes_order(o@, j) && r@ == text_of_json(j),
{
    let j = encode_order(o);
    let r = print_json(&j);
    proof {
        assert(crate::codec::encodes_order(o@, j) && r@ == text_of_json(j));
    }
    r
}

} // verus!
