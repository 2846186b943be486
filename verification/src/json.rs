//! A plain tree model of a JSON document. The document model is parsed
//! from this tree by verified code; only the step from JSON text to the
//! tree is carried out by an outside parser, behind trusted items.

use vstd::prelude::*;

verus! {

/// One JSON value, as plain data. Object entries keep the order in which
/// they appear in the document, which makes rendering deterministic.
/// A number that does not fit a signed 64-bit integer becomes `BigNum`.
#[derive(Debug, PartialEq)]
pub enum JsonValue {
    Null,
    Bool(bool),
    Int(i64),
    BigNum,
    Text(String),
    Items(Vec<JsonValue>),
    Entries(Vec<(String, JsonValue)>),
}

/// Index of the first entry named `key`, or `entries.len()` if there is none.
pub open spec fn find_entry(entries: Seq<(String, JsonValue)>, key: Seq<char>) -> int
    decreases entries.len(),
{
    if entries.len() == 0 {
        0
    } else if entries[0].0@ == key {
        0
    } else {
        1 + find_entry(entries.drop_first(), key)
    }
}

/// The value of the first entry named `key`, if any.
pub open spec fn get_field(entries: Seq<(String, JsonValue)>, key: Seq<char>) -> Option<JsonValue> {
    let i = find_entry(entries, key);
    if 0 <= i < entries.len() {
        Option::Some(entries[i].1)
    } else {
        Option::None
    }
}

/// `find_entry` is determined by the position of the first matching key.
pub proof fn lemma_find_entry_is(entries: Seq<(String, JsonValue)>, key: Seq<char>, i: int)
    requires
        0 <= i <= entries.len(),
        forall|q: int| 0 <= q < i ==> entries[q].0@ != key,
        i < entries.len() ==> entries[i].0@ == key,
    ensures
        find_entry(entries, key) == i,
    decreases i,
{
    if i > 0 {
        assert(forall|q: int| 0 <= q < i - 1 ==> entries.drop_first()[q] == entries[q + 1]);
        lemma_find_entry_is(entries.drop_first(), key, i - 1);
    }
}

/// While scanning the entries of an object, what is known of one wanted
/// field after the first `i` entries have been taken.
pub open spec fn field_scan(
    slot: Option<JsonValue>,
    orig: Seq<(String, JsonValue)>,
    i: int,
    key: Seq<char>,
) -> bool {
    match slot {
        Option::Some(v) => get_field(orig, key) == Option::Some(v),
        Option::None => forall|q: int| 0 <= q < i ==> orig[q].0@ != key,
    }
}

/// Once the whole object has been scanned, the slot holds exactly the field.
pub proof fn lemma_field_scan_done(
    slot: Option<JsonValue>,
    orig: Seq<(String, JsonValue)>,
    key: Seq<char>,
)
    requires
        field_scan(slot, orig, orig.len() as int, key),
    ensures
        slot == get_field(orig, key),
{
    match slot {
        Option::Some(v) => {},
        Option::None => {
            lemma_find_entry_is(orig, key, orig.len() as int);
        },
    }
}

/// A spec-level picture of a JSON value: strings and lists as sequences.
pub enum JsonModel {
    Null,
    Bool(bool),
    Int(i64),
    BigNum,
    Text(Seq<char>),
    Items(Seq<JsonModel>),
    Entries(Seq<(Seq<char>, JsonModel)>),
}

/// The spec-level picture of a plain JSON value.
pub open spec fn json_model(v: JsonValue) -> JsonModel
    decreases v,
{
    match v {
        JsonValue::Null => JsonModel::Null,
        JsonValue::Bool(b) => JsonModel::Bool(b),
        JsonValue::Int(i) => JsonModel::Int(i),
        JsonValue::BigNum => JsonModel::BigNum,
        JsonValue::Text(s) => JsonModel::Text(s@),
        JsonValue::Items(a) => JsonModel::Items(json_models(a@)),
        JsonValue::Entries(e) => JsonModel::Entries(entry_models(e@)),
    }
}

/// The pictures of the values of a list, in order.
pub open spec fn json_models(a: Seq<JsonValue>) -> Seq<JsonModel>
    decreases a,
{
    if a.len() == 0 {
        Seq::empty()
    } else {
        seq![json_model(a[0])] + json_models(a.drop_first())
    }
}

/// The pictures of the entries of an object, in order.
pub open spec fn entry_models(e: Seq<(String, JsonValue)>) -> Seq<(Seq<char>, JsonModel)>
    decreases e,
{
    if e.len() == 0 {
        Seq::empty()
    } else {
        seq![(e[0].0@, json_model(e[0].1))] + entry_models(e.drop_first())
    }
}

/// What well-formed JSON text denotes: the picture of its value, in
/// document order; nothing where the text is not JSON.
pub uninterp spec fn json_of(s: Seq<char>) -> Option<JsonModel>;

#[verifier::external_type_specification]
#[verifier::external_body]
pub struct ExSerdeJsonValue(serde_json::Value);

/// Relies on `serde_json::Value`: its variants told apart, one arm
/// each, fields moving over; a number becomes its signed 64-bit value
/// where it has one; object entries keep document order (the
/// `preserve_order` feature); children are read the same way.
#[verifier::external_body]
fn plain_value(v: serde_json::Value) -> JsonValue {
    match v {
        serde_json::Value::Null => JsonValue::Null,
        serde_json::Value::Bool(b) => JsonValue::Bool(b),
        serde_json::Value::Number(n) => match n.as_i64() {
            Some(i) => JsonValue::Int(i),
            None => JsonValue::BigNum,
        },
        serde_json::Value::String(s) => JsonValue::Text(s),
        serde_json::Value::Array(a) => JsonValue::Items(a.into_iter().map(plain_value).collect()),
        serde_json::Value::Object(m) => JsonValue::Entries(
            m.into_iter().map(|(k, x)| (k, plain_value(x))).collect(),
        ),
    }
}

/// Parse JSON text into the plain tree model; `None` stands for text
/// that is not well-formed JSON.
///
/// Relies on `serde_json::from_str`: parsing succeeds or fails, and the
/// value parsed, as a function of the text alone (a fixed recursion
/// limit guards nesting); the tree handed back pictures exactly what
/// the text denotes.
#[verifier::external_body]
pub fn parse_json(text: &str) -> (r: Option<JsonValue>)
    ensures
        match r {
            Option::Some(v) => json_of(text@) == Option::Some(json_model(v)),
            Option::None => json_of(text@) is None,
        },
{
    serde_json::from_str::<serde_json::Value>(text).ok().map(plain_value)
}

} // verus!
