//! A JSON document held as plain values, reading one from text, and
//! lookups in it.

use vstd::prelude::*;

use crate::text::str_eq;

verus! {

/// A JSON value. A number is kept as the text it was written with.
#[derive(Debug)]
pub enum JsonValue {
    Null,
    Bool(bool),
    Number(String),
    String(String),
    Array(Vec<JsonValue>),
    Object(Vec<(String, JsonValue)>),
}

/// The abstract form of a JSON value.
pub enum JsonView {
    Null,
    Bool(bool),
    Number(Seq<char>),
    String(Seq<char>),
    Array(Seq<JsonView>),
    Object(Seq<(Seq<char>, JsonView)>),
}

/// The abstract form of a JSON value: texts by their characters, arrays
/// and objects element by element.
pub open spec fn json_view(v: JsonValue) -> JsonView
    decreases v,
{
    match v {
        JsonValue::Null => JsonView::Null,
        JsonValue::Bool(b) => JsonView::Bool(b),
        JsonValue::Number(n) => JsonView::Number(n@),
        JsonValue::String(s) => JsonView::String(s@),
        JsonValue::Array(items) => JsonView::Array(items_view(items@)),
        JsonValue::Object(fields) => JsonView::Object(fields_view(fields@)),
    }
}

/// The abstract form of the items of an array, in order.
pub open spec fn items_view(items: Seq<JsonValue>) -> Seq<JsonView>
    decreases items,
{
    if items.len() == 0 {
        seq![]
    } else {
        items_view(items.subrange(0, items.len() - 1)).push(json_view(items[items.len() - 1]))
    }
}

/// The abstract form of the fields of an object, in order.
pub open spec fn fields_view(fields: Seq<(String, JsonValue)>) -> Seq<(Seq<char>, JsonView)>
    decreases fields,
{
    if fields.len() == 0 {
        seq![]
    } else {
        fields_view(fields.subrange(0, fields.len() - 1)).push(
            (fields[fields.len() - 1].0@, json_view(fields[fields.len() - 1].1)),
        )
    }
}

impl View for JsonValue {
    type V = JsonView;

    open spec fn view(&self) -> JsonView {
        json_view(*self)
    }
}

/// The view of an array's items holds the view of each item, in place.
pub proof fn lemma_items_view(items: Seq<JsonValue>)
    ensures
        items_view(items).len() == items.len(),
        forall|i: int| 0 <= i < items.len() ==> #[trigger] items_view(items)[i] == items[i]@,
    decreases items.len(),
{
    if items.len() > 0 {
        let init = items.subrange(0, items.len() - 1);
        lemma_items_view(init);
        assert forall|i: int| 0 <= i < items.len() implies #[trigger] items_view(items)[i]
            == items[i]@ by {
            if i < items.len() - 1 {
                assert(init[i] == items[i]);
            }
        }
    }
}

/// The view of an object's fields holds each field's name and the view of
/// its value, in place.
pub proof fn lemma_fields_view(fields: Seq<(String, JsonValue)>)
    ensures
        fields_view(fields).len() == fields.len(),
        forall|i: int|
            0 <= i < fields.len() ==> #[trigger] fields_view(fields)[i] == (
                fields[i].0@,
                fields[i].1@,
            ),
    decreases fields.len(),
{
    if fields.len() > 0 {
        let init = fields.subrange(0, fields.len() - 1);
        lemma_fields_view(init);
        assert forall|i: int| 0 <= i < fields.len() implies #[trigger] fields_view(fields)[i] == (
            fields[i].0@,
            fields[i].1@,
        ) by {
            if i < fields.len() - 1 {
                assert(init[i] == fields[i]);
            }
        }
    }
}

/// The abstract form of an optional JSON value.
pub open spec fn opt_json_view(v: Option<JsonValue>) -> Option<JsonView> {
    match v {
        Some(x) => Some(x@),
        None => None,
    }
}

/// The document that `serde_json` reads from `text`, each value converted
/// variant by variant (see `parse_json`); `None` when `text` is not JSON.
pub uninterp spec fn json_document(text: Seq<char>) -> Option<JsonView>;

#[verifier::external_type_specification]
#[verifier::external_body]
pub struct ExSerdeJsonValue(serde_json::Value);

/// A `serde_json::Value` as a `JsonValue`, variant by variant: a number as
/// the text its `Display` gives, an object's fields in the order its map
/// holds them. Nothing is stated of the result: the value is opaque here.
#[verifier::external_body]
fn json_of_value(v: &serde_json::Value) -> (r: JsonValue) {
    match v {
        serde_json::Value::Null => JsonValue::Null,
        serde_json::Value::Bool(b) => JsonValue::Bool(*b),
        serde_json::Value::Number(n) => JsonValue::Number(n.to_string()),
        serde_json::Value::String(s) => JsonValue::String(s.clone()),
        serde_json::Value::Array(a) => JsonValue::Array(a.iter().map(json_of_value).collect()),
        serde_json::Value::Object(o) => JsonValue::Object(
            o.iter().map(|(k, x)| (k.clone(), json_of_value(x))).collect(),
        ),
    }
}

/// `serde_json::from_str::<serde_json::Value>`: the JSON document in
/// `text`, converted by `json_of_value`; `None` when serde_json refuses
/// the text. The result is named (`json_document`), a function of the
/// text alone; what it is on given text is not stated.
#[verifier::external_body]
pub(crate) fn parse_json(text: &str) -> (r: Option<JsonValue>)
    ensures
        opt_json_view(r) == json_document(text@),
{
    match serde_json::from_str::<serde_json::Value>(text) {
        Ok(v) => Some(json_of_value(&v)),
        Err(_) => None,
    }
}

/// The value of the first field named `key`, if any (an object's keys are
/// distinct, so it is the only one).
pub open spec fn object_get(fields: Seq<(Seq<char>, JsonView)>, key: Seq<char>) -> Option<JsonView>
    decreases fields.len(),
{
    if fields.len() == 0 {
        None
    } else if fields[0].0 == key {
        Some(fields[0].1)
    } else {
        object_get(fields.drop_first(), key)
    }
}

/// The value of the field named `key` of an object's fields (see
/// `object_get`).
pub fn field<'a>(fields: &'a Vec<(String, JsonValue)>, key: &str) -> (r: Option<&'a JsonValue>)
    ensures
        match r {
            Some(v) => object_get(fields_view(fields@), key@) == Some(v@),
            None => object_get(fields_view(fields@), key@) is None,
        },
{
    let ghost fv = fields_view(fields@);
    let mut i: usize = 0;
    proof {
        lemma_fields_view(fields@);
        assert(fv.skip(0) =~= fv);
    }
    while i < fields.len()
        invariant
            i <= fields.len(),
            fv == fields_view(fields@),
            fv.len() == fields@.len(),
            forall|k: int| 0 <= k < fields@.len() ==> #[trigger] fv[k] == (fields@[k].0@, fields@[k].1@),
            object_get(fv, key@) == object_get(fv.skip(i as int), key@),
        decreases fields.len() - i,
    {
        let ghost rest = fv.skip(i as int);
        proof {
            assert(rest[0] == fv[i as int]);
            assert(rest.drop_first() =~= fv.skip(i + 1));
        }
        if str_eq(fields[i].0.as_str(), key) {
            return Some(&fields[i].1);
        }
        i = i + 1;
    }
    proof {
        assert(fv.skip(i as int).len() == 0);
    }
    None
}

} // verus!
