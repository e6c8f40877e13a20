//! JSON values: what a message is made of, and how one is read.

use crate::assoc::{lemma_map_of_absent, lemma_map_of_last, lemma_map_of_push, map_of};
use vstd::prelude::*;

verus! {

broadcast use vstd::string::group_string_axioms;

/// What a JSON number stands for: an integer, or a decimal fraction by its text.
pub enum NumberView {
    Integer(int),
    Decimal(Seq<char>),
}

/// A JSON value. The fields of an object have no order, and each key occurs once.
pub enum JsonView {
    Null,
    Bool(bool),
    Number(NumberView),
    Text(Seq<char>),
    Array(Seq<JsonView>),
    Object(Map<Seq<char>, JsonView>),
}

impl JsonView {
    /// The field of an object that `key` leads to. Other values have no fields.
    pub open spec fn get(self, key: Seq<char>) -> Option<JsonView> {
        match self {
            JsonView::Object(fields) => if fields.contains_key(key) {
                Some(fields[key])
            } else {
                None
            },
            _ => None,
        }
    }

    /// Whether the value is an object with a field of that key, `null` included.
    pub open spec fn has(self, key: Seq<char>) -> bool {
        self.get(key) is Some
    }

    /// The value as a 64-bit unsigned integer, where it is one.
    pub open spec fn as_u64(self) -> Option<u64> {
        match self {
            JsonView::Number(NumberView::Integer(n)) => if 0 <= n <= u64::MAX {
                Some(n as u64)
            } else {
                None
            },
            _ => None,
        }
    }

    /// The integer `n` as a JSON value.
    pub open spec fn integer(n: int) -> JsonView {
        JsonView::Number(NumberView::Integer(n))
    }
}

/// `serde_json::Number`, which holds any JSON number. Nothing inside it is seen here.
#[verifier::external_type_specification]
#[verifier::external_body]
pub struct ExNumber(serde_json::Number);

/// What a `serde_json::Number` holds.
pub uninterp spec fn number_view(number: serde_json::Number) -> NumberView;

/// A JSON value that can be taken apart and built.
///
/// Where an object lists a key more than once, the last field of that key counts.
#[derive(Debug, PartialEq)]
pub enum Json {
    Null,
    Bool(bool),
    Number(serde_json::Number),
    Text(String),
    Array(Vec<Json>),
    Object(Vec<(String, Json)>),
}

pub open spec fn json_view(json: Json) -> JsonView
    decreases json,
{
    match json {
        Json::Null => JsonView::Null,
        Json::Bool(b) => JsonView::Bool(b),
        Json::Number(n) => JsonView::Number(number_view(n)),
        Json::Text(s) => JsonView::Text(s@),
        Json::Array(items) => JsonView::Array(items_view(items@)),
        Json::Object(fields) => JsonView::Object(map_of(fields_view(fields@))),
    }
}

pub open spec fn items_view(items: Seq<Json>) -> Seq<JsonView>
    decreases items,
{
    if items.len() == 0 {
        seq![]
    } else {
        items_view(items.drop_last()).push(json_view(items.last()))
    }
}

pub open spec fn fields_view(fields: Seq<(String, Json)>) -> Seq<(Seq<char>, JsonView)>
    decreases fields,
{
    if fields.len() == 0 {
        seq![]
    } else {
        fields_view(fields.drop_last()).push((fields.last().0@, json_view(fields.last().1)))
    }
}

impl View for Json {
    type V = JsonView;

    open spec fn view(&self) -> JsonView {
        json_view(*self)
    }
}

pub(crate) proof fn lemma_items_view(items: Seq<Json>)
    ensures
        items_view(items).len() == items.len(),
        forall|i: int|
            0 <= i < items.len() ==> #[trigger] items_view(items)[i] == json_view(items[i]),
    decreases items.len(),
{
    if items.len() > 0 {
        lemma_items_view(items.drop_last());
    }
}

pub(crate) proof fn lemma_fields_view(fields: Seq<(String, Json)>)
    ensures
        fields_view(fields).len() == fields.len(),
        forall|i: int|
            0 <= i < fields.len() ==> #[trigger] fields_view(fields)[i] == (
                fields[i].0@,
                json_view(fields[i].1),
            ),
    decreases fields.len(),
{
    if fields.len() > 0 {
        lemma_fields_view(fields.drop_last());
    }
}

/// `serde_json::Number::as_u64`: the number as a `u64` where it is an integer that a `u64` can
/// hold, `None` otherwise.
#[verifier::external_body]
fn number_as_u64(number: &serde_json::Number) -> (n: Option<u64>)
    ensures
        n == JsonView::Number(number_view(*number)).as_u64(),
{
    number.as_u64()
}

/// `serde_json::Number::from` on a `u64`: the number that is this integer.
#[verifier::external_body]
fn number_from_u64(n: u64) -> (number: serde_json::Number)
    ensures
        number_view(number) == NumberView::Integer(n as int),
{
    serde_json::Number::from(n)
}

/// `serde_json::Number::from` on an `i64`: the number that is this integer.
#[verifier::external_body]
fn number_from_i64(n: i64) -> (number: serde_json::Number)
    ensures
        number_view(number) == NumberView::Integer(n as int),
{
    serde_json::Number::from(n)
}

impl Json {
    /// The field that `key` leads to, where the value is an object that has one.
    pub fn get(&self, key: &str) -> (field: Option<&Json>)
        ensures
            match field {
                Some(value) => self@.get(key@) == Some(value@),
                None => self@.get(key@) is None,
            },
    {
        match self {
            Json::Object(fields) => {
                let wanted = key.to_owned();
                proof {
                    lemma_fields_view(fields@);
                }
                let ghost pairs = fields_view(fields@);
                let mut i: usize = fields.len();
                while i > 0
                    invariant
                        i <= fields.len(),
                        wanted@ == key@,
                        pairs == fields_view(fields@),
                        pairs.len() == fields.len(),
                        forall|j: int|
                            0 <= j < fields.len() ==> #[trigger] pairs[j] == (
                                fields[j].0@,
                                json_view(fields[j].1),
                            ),
                        forall|j: int| i <= j < pairs.len() ==> (#[trigger] pairs[j]).0 != key@,
                        self@ == JsonView::Object(map_of(pairs)),
                    decreases i,
                {
                    i = i - 1;
                    if fields[i].0.eq(&wanted) {
                        proof {
                            assert(pairs[i as int].0 == key@);
                            lemma_map_of_last(pairs, i as int);
                        }
                        return Some(&fields[i].1);
                    }
                }
                proof {
                    lemma_map_of_absent(pairs, key@);
                }
                None
            },
            _ => None,
        }
    }

    /// Whether the value is an object with a field of that key, `null` included.
    pub fn has(&self, key: &str) -> (present: bool)
        ensures
            present == self@.has(key@),
    {
        self.get(key).is_some()
    }

    /// The value as a 64-bit unsigned integer, where it is one.
    pub fn as_u64(&self) -> (n: Option<u64>)
        ensures
            n == self@.as_u64(),
    {
        match self {
            Json::Number(number) => number_as_u64(number),
            _ => None,
        }
    }

    pub fn unsigned(n: u64) -> (json: Json)
        ensures
            json@ == JsonView::integer(n as int),
    {
        Json::Number(number_from_u64(n))
    }

    pub fn signed(n: i64) -> (json: Json)
        ensures
            json@ == JsonView::integer(n as int),
    {
        Json::Number(number_from_i64(n))
    }

    pub fn text(s: &str) -> (json: Json)
        ensures
            json@ == JsonView::Text(s@),
    {
        Json::Text(s.to_owned())
    }

    /// A text where there is one, `null` otherwise.
    pub fn optional_text(s: &Option<String>) -> (json: Json)
        ensures
            json@ == match *s {
                Some(text) => JsonView::Text(text@),
                None => JsonView::Null,
            },
    {
        match s {
            Some(text) => Json::Text(text.clone()),
            None => Json::Null,
        }
    }

    /// An array of one item.
    pub fn single(item: Json) -> (json: Json)
        ensures
            json@ == JsonView::Array(seq![item@]),
    {
        let mut items: Vec<Json> = Vec::new();
        items.push(item);
        proof {
            lemma_items_view(items@);
            assert(items_view(items@) =~= seq![item@]);
        }
        Json::Array(items)
    }
}

/// The fields of an object in the making.
pub struct Fields {
    list: Vec<(String, Json)>,
}

impl View for Fields {
    type V = Map<Seq<char>, JsonView>;

    closed spec fn view(&self) -> Map<Seq<char>, JsonView> {
        map_of(fields_view(self.list@))
    }
}

impl Fields {
    pub fn new() -> (fields: Fields)
        ensures
            fields@ == Map::<Seq<char>, JsonView>::empty(),
    {
        Fields { list: Vec::new() }
    }

    /// The fields with one more, or with `key` led elsewhere.
    pub fn with(self, key: &str, value: Json) -> (fields: Fields)
        ensures
            fields@ == self@.insert(key@, value@),
    {
        let mut list = self.list;
        let ghost before = list@;
        list.push((key.to_owned(), value));
        proof {
            assert(list@.drop_last() =~= before);
            lemma_map_of_push(fields_view(before), key@, value@);
        }
        Fields { list }
    }

    pub fn object(self) -> (json: Json)
        ensures
            json@ == JsonView::Object(self@),
    {
        Json::Object(self.list)
    }
}

/// An object gives for each of its keys the value that it holds under the key, and for no other key
/// anything.
pub proof fn object_gives_its_fields(fields: Map<Seq<char>, JsonView>, key: Seq<char>)
    ensures
        fields.contains_key(key) ==> JsonView::Object(fields).get(key) == Some(fields[key]),
        JsonView::Object(fields).has(key) <==> fields.contains_key(key),
{
}

/// Only an object has fields.
pub proof fn only_objects_have_fields(value: JsonView, key: Seq<char>)
    requires
        !(value is Object),
    ensures
        value.get(key) is None,
        !value.has(key),
{
}

/// An integer is told from every other, and is read as an unsigned number exactly where it is one
/// of 64 bits.
pub proof fn integers_are_told_apart(m: int, n: int)
    ensures
        JsonView::integer(m) == JsonView::integer(n) <==> m == n,
        0 <= n <= 0xffff_ffff_ffff_ffff ==> {
            &&& JsonView::integer(n).as_u64() matches Some(read)
            &&& read == n
        },
        n < 0 || n > 0xffff_ffff_ffff_ffff ==> JsonView::integer(n).as_u64() is None,
{
}

/// A value that is read as an unsigned number is that number, and nothing else is.
pub proof fn only_integers_are_unsigned(value: JsonView)
    ensures
        value.as_u64() matches Some(n) ==> value == JsonView::integer(n as int),
        !(value is Number) ==> value.as_u64() is None,
{
}

/// A value is seen as what it is: with the same text or truth value, with each item of an array in
/// its place, and with each field of an object under its key, the last of a key alone.
pub proof fn values_are_seen_as_they_are(json: Json, i: int, key: Seq<char>)
    ensures
        match json {
            Json::Null => json@ is Null,
            Json::Bool(yes) => json@ == JsonView::Bool(yes),
            Json::Number(number) => json@ == JsonView::Number(number_view(number)),
            Json::Text(text) => json@ == JsonView::Text(text@),
            Json::Array(items) => {
                &&& json@ matches JsonView::Array(seen)
                &&& seen.len() == items.len()
                &&& 0 <= i < items.len() ==> seen[i] == items[i]@
            },
            Json::Object(fields) => {
                &&& json@ is Object
                &&& 0 <= i < fields.len() && (forall|j: int|
                    i < j < fields.len() ==> (#[trigger] fields[j]).0@ != fields[i].0@)
                    ==> json@.get(fields[i].0@) == Some(fields[i].1@)
                &&& (forall|j: int| 0 <= j < fields.len() ==> (#[trigger] fields[j]).0@ != key)
                    ==> !json@.has(key)
            },
        },
{
    match json {
        Json::Array(items) => {
            lemma_items_view(items@);
        },
        Json::Object(fields) => {
            let pairs = fields_view(fields@);
            lemma_fields_view(fields@);
            if 0 <= i < fields.len() && (forall|j: int|
                i < j < fields.len() ==> (#[trigger] fields[j]).0@ != fields[i].0@) {
                assert forall|j: int| i < j < pairs.len() implies (#[trigger] pairs[j]).0
                    != pairs[i].0 by {
                    assert(fields[j].0@ != fields[i].0@);
                }
                lemma_map_of_last(pairs, i);
            }
            if forall|j: int| 0 <= j < fields.len() ==> (#[trigger] fields[j]).0@ != key {
                assert forall|j: int| 0 <= j < pairs.len() implies (#[trigger] pairs[j]).0
                    != key by {
                    assert(fields[j].0@ != key);
                }
                lemma_map_of_absent(pairs, key);
            }
        },
        _ => {},
    }
}

} // verus!
