//! JSON values as text, and messages as lines.

use crate::assoc::{distinct_keys, lemma_map_of_distinct, lemma_map_of_push, map_of};
use crate::json::{
    fields_view, items_view, json_view, lemma_fields_view, lemma_items_view, number_view, Json,
    JsonView,
};
use vstd::prelude::*;

verus! {

broadcast use vstd::string::group_string_axioms;

/// `serde_json::Value`, the JSON value that text is read into and written from.
#[verifier::external_type_specification]
#[verifier::external_body]
pub struct ExValue(serde_json::Value);

/// `serde_json::Map`, the fields of an object in a `serde_json::Value`.
#[verifier::external_type_specification]
#[verifier::external_body]
#[verifier::reject_recursive_types(K)]
#[verifier::reject_recursive_types(V)]
pub struct ExObject<K, V>(serde_json::Map<K, V>);

/// What a `serde_json::Value` holds.
pub uninterp spec fn value_view(value: serde_json::Value) -> JsonView;

/// What a `serde_json::Map` holds.
pub uninterp spec fn object_view(
    object: serde_json::Map<String, serde_json::Value>,
) -> Map<Seq<char>, JsonView>;

/// What `serde_json` reads from a text: a value, or what it says is wrong with the text.
pub uninterp spec fn json_parse(text: Seq<char>) -> Result<JsonView, Seq<char>>;

/// The text that `serde_json` writes a value as, without line breaks or indentation.
pub uninterp spec fn json_text(value: JsonView) -> Seq<char>;

/// The outermost layer of a `serde_json::Value`.
enum Layer {
    Null,
    Bool(bool),
    Number(serde_json::Number),
    Text(String),
    Array(Vec<serde_json::Value>),
    Object(serde_json::Map<String, serde_json::Value>),
}

spec fn values_view(values: Seq<serde_json::Value>) -> Seq<JsonView> {
    values.map_values(|value: serde_json::Value| value_view(value))
}

spec fn entries_view(
    entries: Seq<(String, serde_json::Value)>,
) -> Seq<(Seq<char>, JsonView)> {
    entries.map_values(|entry: (String, serde_json::Value)| (entry.0@, value_view(entry.1)))
}

impl View for Layer {
    type V = JsonView;

    closed spec fn view(&self) -> JsonView {
        match *self {
            Layer::Null => JsonView::Null,
            Layer::Bool(b) => JsonView::Bool(b),
            Layer::Number(n) => JsonView::Number(number_view(n)),
            Layer::Text(s) => JsonView::Text(s@),
            Layer::Array(values) => JsonView::Array(values_view(values@)),
            Layer::Object(object) => JsonView::Object(object_view(object)),
        }
    }
}

/// Takes a `serde_json::Value` apart by its variants: the layer holds what the value held.
#[verifier::external_body]
fn split_value(value: serde_json::Value) -> (layer: Layer)
    ensures
        layer@ == value_view(value),
{
    match value {
        serde_json::Value::Null => Layer::Null,
        serde_json::Value::Bool(b) => Layer::Bool(b),
        serde_json::Value::Number(n) => Layer::Number(n),
        serde_json::Value::String(s) => Layer::Text(s),
        serde_json::Value::Array(values) => Layer::Array(values),
        serde_json::Value::Object(object) => Layer::Object(object),
    }
}

/// Builds a `serde_json::Value` from its outermost layer: the value holds what the layer holds.
#[verifier::external_body]
fn join_value(layer: Layer) -> (value: serde_json::Value)
    ensures
        value_view(value) == layer@,
{
    match layer {
        Layer::Null => serde_json::Value::Null,
        Layer::Bool(b) => serde_json::Value::Bool(b),
        Layer::Number(n) => serde_json::Value::Number(n),
        Layer::Text(s) => serde_json::Value::String(s),
        Layer::Array(values) => serde_json::Value::Array(values),
        Layer::Object(object) => serde_json::Value::Object(object),
    }
}

/// `serde_json::Map::new`: no fields.
#[verifier::external_body]
fn object_new() -> (object: serde_json::Map<String, serde_json::Value>)
    ensures
        (object_view(object) == Map::<Seq<char>, JsonView>::empty()),
{
    serde_json::Map::new()
}

/// `serde_json::Map::insert`: leads the key to the value, whether or not it led anywhere before.
#[verifier::external_body]
fn object_insert(
    object: &mut serde_json::Map<String, serde_json::Value>,
    key: String,
    value: serde_json::Value,
)
    ensures
        object_view(*final(object)) == object_view(*old(object)).insert(key@, value_view(value)),
{
    object.insert(key, value);
}

/// `serde_json::Map::into_iter`: the fields one by one, each key once.
#[verifier::external_body]
fn object_entries(object: serde_json::Map<String, serde_json::Value>) -> (entries: Vec<
    (String, serde_json::Value),
>)
    ensures
        distinct_keys(entries_view(entries@)),
        map_of(entries_view(entries@)) == object_view(object),
{
    object.into_iter().collect()
}

/// The JSON value that a `serde_json::Value` holds.
pub fn from_value(value: serde_json::Value) -> (json: Json)
    ensures
        json@ == value_view(value),
    decreases value_view(value),
{
    match split_value(value) {
        Layer::Null => Json::Null,
        Layer::Bool(b) => Json::Bool(b),
        Layer::Number(n) => Json::Number(n),
        Layer::Text(s) => Json::Text(s),
        Layer::Array(values) => {
            let ghost all = values@;
            let mut items: Vec<Json> = Vec::new();
            for v in it: values
                invariant
                    it.seq() == all,
                    value_view(value) == JsonView::Array(values_view(all)),
                    items_view(items@) == values_view(all.take(it.index() as int)),
            {
                let ghost before = items@;
                assert(v == all[it.index() as int]);
                proof {
                    let inner = value_view(value)->Array_0;
                    assert(decreases_to!(value_view(value) => inner));
                    assert(decreases_to!(inner => inner[it.index() as int]));
                }
                items.push(from_value(v));
                proof {
                    assert(items@.drop_last() =~= before);
                    assert(all.take(it.index() + 1).drop_last() =~= all.take(it.index() as int));
                    assert(items_view(items@) =~= values_view(all.take(it.index() + 1)));
                }
            }
            assert(all.take(all.len() as int) =~= all);
            Json::Array(items)
        },
        Layer::Object(object) => {
            let entries = object_entries(object);
            let ghost all = entries@;
            let mut fields: Vec<(String, Json)> = Vec::new();
            proof {
                lemma_map_of_distinct(entries_view(all));
            }
            for entry in it: entries
                invariant
                    it.seq() == all,
                    distinct_keys(entries_view(all)),
                    value_view(value) == JsonView::Object(map_of(entries_view(all))),
                    map_of(entries_view(all)).dom().finite(),
                    fields_view(fields@) == entries_view(all.take(it.index() as int)),
            {
                let ghost before = fields@;
                let ghost i = it.index() as int;
                assert(entry == all[i]);
                let (key, v) = entry;
                proof {
                    lemma_map_of_distinct(entries_view(all));
                    assert(entries_view(all)[i] == (key@, value_view(v)));
                    let inner = value_view(value)->Object_0;
                    assert(decreases_to!(value_view(value) => inner));
                    assert(decreases_to!(inner => inner[key@]));
                }
                fields.push((key, from_value(v)));
                proof {
                    assert(fields@.drop_last() =~= before);
                    assert(all.take(i + 1).drop_last() =~= all.take(i));
                    assert(fields_view(fields@) =~= entries_view(all.take(i + 1)));
                }
            }
            assert(all.take(all.len() as int) =~= all);
            Json::Object(fields)
        },
    }
}

/// The `serde_json::Value` that holds a JSON value.
pub fn into_value(json: Json) -> (value: serde_json::Value)
    ensures
        value_view(value) == json@,
    decreases json,
{
    match json {
        Json::Null => join_value(Layer::Null),
        Json::Bool(b) => join_value(Layer::Bool(b)),
        Json::Number(n) => join_value(Layer::Number(n)),
        Json::Text(s) => join_value(Layer::Text(s)),
        Json::Array(items) => {
            let ghost all = items@;
            let mut values: Vec<serde_json::Value> = Vec::new();
            proof {
                lemma_items_view(all);
            }
            for item in it: items
                invariant
                    it.seq() == all,
                    json == Json::Array(items),
                    items@ == all,
                    values_view(values@) == items_view(all).take(it.index() as int),
                    items_view(all).len() == all.len(),
                    forall|i: int|
                        0 <= i < all.len() ==> #[trigger] items_view(all)[i] == json_view(all[i]),
            {
                let ghost i = it.index() as int;
                assert(item == all[i]);
                proof {
                    assert(items_view(all)[i] == json_view(item));
                    let inner = json->Array_0;
                    assert(decreases_to!(json => inner));
                    assert(decreases_to!(inner => inner@));
                    assert(decreases_to!(inner@ => inner@[i]));
                }
                let ghost before = values_view(values@);
                values.push(into_value(item));
                proof {
                    assert(items_view(all).take(i + 1) =~= before.push(items_view(all)[i]));
                    assert(values_view(values@) =~= before.push(items_view(all)[i]));
                }
            }
            assert(items_view(all).take(all.len() as int) =~= items_view(all));
            join_value(Layer::Array(values))
        },
        Json::Object(fields) => {
            let ghost all = fields@;
            let mut object = object_new();
            proof {
                lemma_fields_view(all);
                assert(fields_view(all).take(0) =~= seq![]);
            }
            for field in it: fields
                invariant
                    it.seq() == all,
                    json == Json::Object(fields),
                    fields@ == all,
                    object_view(object) == map_of(fields_view(all).take(it.index() as int)),
                    fields_view(all).len() == all.len(),
                    forall|i: int|
                        0 <= i < all.len() ==> #[trigger] fields_view(all)[i] == (
                            all[i].0@,
                            json_view(all[i].1),
                        ),
            {
                let ghost i = it.index() as int;
                assert(field == all[i]);
                proof {
                    let inner = json->Object_0;
                    assert(decreases_to!(json => inner));
                    assert(decreases_to!(inner => inner@));
                    assert(decreases_to!(inner@ => inner@[i]));
                    assert(decreases_to!(inner@[i] => inner@[i].1));
                }
                let (key, item) = field;
                object_insert(&mut object, key, into_value(item));
                proof {
                    let pairs = fields_view(all);
                    lemma_map_of_push(pairs.take(i), pairs[i].0, pairs[i].1);
                    assert(pairs.take(i + 1) =~= pairs.take(i).push(pairs[i]));
                }
            }
            assert(fields_view(all).take(all.len() as int) =~= fields_view(all));
            join_value(Layer::Object(object))
        },
    }
}

/// Keys that `serde_json` keeps for its own use.
pub open spec fn reserved_key(key: Seq<char>) -> bool {
    key == "$serde_json::private::Number"@ || key == "$serde_json::private::RawValue"@
}

/// How many arrays and objects may stand one inside the other in a text that is read.
pub open spec fn depth_limit() -> nat {
    127
}

/// A value that is read back as it was written: of integers, without reserved keys, and nested at
/// most `depth` deep.
pub open spec fn readable(value: JsonView, depth: nat) -> bool
    decreases depth,
{
    match value {
        JsonView::Number(number) => number is Integer,
        JsonView::Array(items) => depth > 0 && forall|i: int|
            0 <= i < items.len() ==> readable(#[trigger] items[i], (depth - 1) as nat),
        JsonView::Object(fields) => depth > 0 && forall|key: Seq<char>| #[trigger]
            fields.contains_key(key) ==> !reserved_key(key) && readable(
                fields[key],
                (depth - 1) as nat,
            ),
        _ => true,
    }
}

/// What came of reading a text into a `serde_json::Value`.
spec fn parsed_view(value: Result<serde_json::Value, String>) -> Result<
    JsonView,
    Seq<char>,
> {
    match value {
        Ok(v) => Ok(value_view(v)),
        Err(error) => Err(error@),
    }
}

/// The text is read, as this value.
pub open spec fn reads_as(text: Seq<char>, value: JsonView) -> bool {
    json_parse(text) == Ok::<JsonView, Seq<char>>(value)
}

/// `serde_json::from_str`, into a `serde_json::Value`: the value that the text holds, or the
/// message of the error. Which texts are read, and into what, is the crate's to say.
#[verifier::external_body]
fn parse_value(text: &str) -> (value: Result<serde_json::Value, String>)
    ensures
        parsed_view(value) == json_parse(text@),
{
    match serde_json::from_str(text) {
        Ok(value) => Ok(value),
        Err(error) => Err(error.to_string()),
    }
}

/// `serde_json::to_string`, of a `serde_json::Value`. It writes every value, with each control
/// character inside a text escaped, so that no line break is written; and a readable value is read
/// back as it was. How else the text looks is the crate's to say.
#[verifier::external_body]
fn write_value(value: &serde_json::Value) -> (text: Result<String, String>)
    ensures
        text is Ok,
        text matches Ok(s) ==> s@ == json_text(value_view(*value)),
        text matches Ok(s) ==> !s@.contains('\n'),
        text matches Ok(s) ==> readable(value_view(*value), depth_limit()) ==> reads_as(
            s@,
            value_view(*value),
        ),
{
    match serde_json::to_string(value) {
        Ok(text) => Ok(text),
        Err(error) => Err(error.to_string()),
    }
}

/// What came of reading a text.
pub open spec fn parsed_json_view(json: Result<Json, String>) -> Result<JsonView, Seq<char>> {
    match json {
        Ok(value) => Ok(value@),
        Err(error) => Err(error@),
    }
}

/// The JSON value that a text holds, or what is wrong with the text.
pub fn parse(text: &str) -> (json: Result<Json, String>)
    ensures
        parsed_json_view(json) == json_parse(text@),
        match json {
            Ok(value) => json_parse(text@) == Ok::<JsonView, Seq<char>>(value@),
            Err(error) => json_parse(text@) == Err::<JsonView, Seq<char>>(error@),
        },
{
    match parse_value(text) {
        Ok(value) => Ok(from_value(value)),
        Err(error) => Err(error),
    }
}

/// The line carries the message: it is the text of the message and the line break that ends it.
/// There is no other line break in it, and what stands before the break is read back as the message.
pub open spec fn carries(line: Seq<char>, message: JsonView) -> bool {
    &&& line == json_text(message).push('\n')
    &&& !json_text(message).contains('\n')
    &&& readable(message, depth_limit()) ==> reads_as(json_text(message), message)
}

/// The line that a message goes out as.
pub fn write_message(message: Json) -> (line: Result<String, String>)
    ensures
        line matches Ok(l) && carries(l@, message@),
{
    let value = into_value(message);
    match write_value(&value) {
        Ok(text) => {
            let mut line = text;
            line.push('\n');
            Ok(line)
        },
        Err(error) => Err(error),
    }
}

/// A line that carries a message ends in a line break, holds no other, and is read back as the
/// message once the break is taken off.
pub proof fn line_ends_and_reads_back(line: Seq<char>, message: JsonView)
    requires
        carries(line, message),
    ensures
        line.len() > 0,
        line.last() == '\n',
        forall|i: int| 0 <= i < line.len() - 1 ==> #[trigger] line[i] != '\n',
        readable(message, depth_limit()) ==> json_parse(line.drop_last()) == Ok::<
            JsonView,
            Seq<char>,
        >(message),
{
    let text = json_text(message);
    assert(line.drop_last() =~= text);
    assert forall|i: int| 0 <= i < line.len() - 1 implies #[trigger] line[i] != '\n' by {
        assert(line[i] == text[i]);
        assert(text.contains(text[i]));
    }
}

/// One line carries one message: two that can be read back go out as different lines.
pub proof fn line_carries_one_message(line: Seq<char>, one: JsonView, other: JsonView)
    requires
        carries(line, one),
        carries(line, other),
        readable(one, depth_limit()),
        readable(other, depth_limit()),
    ensures
        one == other,
{
    line_ends_and_reads_back(line, one);
    line_ends_and_reads_back(line, other);
}

/// What can be read back: every text and truth value, `null`, every integer, and what holds nothing
/// else, one level further out.
pub proof fn readable_values(
    text: Seq<char>,
    yes: bool,
    n: int,
    items: Seq<JsonView>,
    fields: Map<Seq<char>, JsonView>,
    depth: nat,
)
    ensures
        readable(JsonView::Null, depth),
        readable(JsonView::Bool(yes), depth),
        readable(JsonView::Text(text), depth),
        readable(JsonView::integer(n), depth),
        (forall|i: int| 0 <= i < items.len() ==> #[trigger] readable(items[i], depth)) ==> readable(
            JsonView::Array(items),
            depth + 1,
        ),
        (forall|key: Seq<char>| #[trigger]
            fields.contains_key(key) ==> !reserved_key(key) && readable(fields[key], depth))
            ==> readable(JsonView::Object(fields), depth + 1),
{
    reveal_with_fuel(readable, 2);
    if forall|i: int| 0 <= i < items.len() ==> #[trigger] readable(items[i], depth) {
        assert forall|i: int| 0 <= i < items.len() implies readable(
            #[trigger] items[i],
            (depth + 1 - 1) as nat,
        ) by {
            assert(readable(items[i], depth));
        }
    }
}

} // verus!
