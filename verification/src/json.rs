//! JSON values as the rest of the library reads them.
//!
//! [`Json`] holds a value, [`JsonTree`] is what it stands for. A lookup never fails: what is not
//! there reads as null, and a value of another kind reads as absent.

use serde_json::Value;
use vstd::prelude::*;

use crate::text::same_text;

verus! {

/// What a JSON value stands for.
pub enum JsonTree {
    Null,
    Bool(bool),
    /// A number that the reader takes as an integer of 64 bits, with a sign or without.
    Integer(int),
    /// Any other number.
    Real,
    Text(Seq<char>),
    Array(Seq<JsonTree>),
    Object(Map<Seq<char>, JsonTree>),
}

impl JsonTree {
    /// The value under `key`; null where there is none.
    pub open spec fn field(self, key: Seq<char>) -> JsonTree {
        match self {
            JsonTree::Object(fields) => if fields.contains_key(key) {
                fields[key]
            } else {
                JsonTree::Null
            },
            _ => JsonTree::Null,
        }
    }

    /// The elements; none where the value is no array.
    pub open spec fn elements(self) -> Seq<JsonTree> {
        match self {
            JsonTree::Array(elements) => elements,
            _ => Seq::empty(),
        }
    }

    /// The element at `i`; null where there is none.
    pub open spec fn element(self, i: int) -> JsonTree {
        if 0 <= i < self.elements().len() {
            self.elements()[i]
        } else {
            JsonTree::Null
        }
    }

    /// The text, where the value is one.
    pub open spec fn text(self) -> Option<Seq<char>> {
        match self {
            JsonTree::Text(text) => Some(text),
            _ => None,
        }
    }

    /// The text, or the empty one where the value is none.
    pub open spec fn text_or_empty(self) -> Seq<char> {
        match self {
            JsonTree::Text(text) => text,
            _ => Seq::empty(),
        }
    }

    /// The truth value, where the value is one.
    pub open spec fn truth(self) -> Option<bool> {
        match self {
            JsonTree::Bool(b) => Some(b),
            _ => None,
        }
    }

    /// The number, where the value is an integer that fits in 64 bits without a sign.
    pub open spec fn unsigned(self) -> Option<u64> {
        match self {
            JsonTree::Integer(n) => if 0 <= n <= u64::MAX {
                Some(n as u64)
            } else {
                None
            },
            _ => None,
        }
    }

    /// The number, where the value is an integer that fits in 64 bits with a sign.
    pub open spec fn signed(self) -> Option<i64> {
        match self {
            JsonTree::Integer(n) => if i64::MIN <= n <= i64::MAX {
                Some(n as i64)
            } else {
                None
            },
            _ => None,
        }
    }
}

/// A JSON value. Of several fields with one name the last counts.
#[derive(Debug)]
pub enum Json {
    Null,
    Bool(bool),
    Integer(i128),
    Real,
    Text(String),
    Array(Vec<Json>),
    Object(Vec<(String, Json)>),
}

/// What the value stands for.
pub open spec fn tree_of(json: Json) -> JsonTree
    decreases json,
{
    match json {
        Json::Null => JsonTree::Null,
        Json::Bool(b) => JsonTree::Bool(b),
        Json::Integer(n) => JsonTree::Integer(n as int),
        Json::Real => JsonTree::Real,
        Json::Text(text) => JsonTree::Text(text@),
        Json::Array(elements) => JsonTree::Array(trees_of(elements@)),
        Json::Object(fields) => JsonTree::Object(fields_of(fields@)),
    }
}

/// What the values stand for.
pub open spec fn trees_of(elements: Seq<Json>) -> Seq<JsonTree>
    decreases elements,
{
    Seq::new(
        elements.len(),
        |i: int|
            if 0 <= i < elements.len() {
                tree_of(elements[i])
            } else {
                JsonTree::Null
            },
    )
}

/// What the fields stand for.
pub open spec fn fields_of(fields: Seq<(String, Json)>) -> Map<Seq<char>, JsonTree>
    decreases fields,
{
    if fields.len() == 0 {
        Map::empty()
    } else {
        fields_of(fields.drop_last()).insert(fields.last().0@, tree_of(fields.last().1))
    }
}

impl View for Json {
    type V = JsonTree;

    open spec fn view(&self) -> JsonTree {
        tree_of(*self)
    }
}

proof fn lemma_fields_end(fields: Seq<(String, Json)>, n: int, key: Seq<char>)
    requires
        0 <= n <= fields.len(),
        forall|i: int| n <= i < fields.len() ==> (#[trigger] fields[i]).0@ != key,
    ensures
        fields_of(fields).contains_key(key) == fields_of(fields.take(n)).contains_key(key),
        fields_of(fields).contains_key(key) ==> fields_of(fields)[key] == fields_of(
            fields.take(n),
        )[key],
    decreases fields.len() - n,
{
    if n == fields.len() {
        assert(fields.take(n) =~= fields);
    } else {
        lemma_fields_end(fields, n + 1, key);
        assert(fields.take(n + 1).drop_last() =~= fields.take(n));
        assert(fields.take(n + 1).last() == fields[n]);
    }
}

impl Json {
    /// The value under `key`; null where there is none.
    pub fn field<'a>(&'a self, key: &str) -> (value: &'a Json)
        ensures
            value@ == self@.field(key@),
    {
        if let Json::Object(fields) = self {
            let mut i: usize = fields.len();
            while i > 0
                invariant
                    i <= fields.len(),
                    *self == Json::Object(*fields),
                    forall|j: int| i <= j < fields.len() ==> (#[trigger] fields[j]).0@ != key@,
                decreases i,
            {
                i = i - 1;
                if same_text(fields[i].0.as_str(), key) {
                    proof {
                        lemma_fields_end(fields@, i + 1, key@);
                        assert(fields@.take(i + 1).last() == fields[i as int]);
                    }
                    return &fields[i].1;
                }
            }
            proof {
                lemma_fields_end(fields@, 0, key@);
                assert(fields@.take(0) =~= Seq::empty());
            }
        }
        &Json::Null
    }

    /// The element at `i`; null where there is none.
    pub fn element<'a>(&'a self, i: usize) -> (value: &'a Json)
        ensures
            value@ == self@.element(i as int),
    {
        if let Json::Array(elements) = self {
            if i < elements.len() {
                return &elements[i];
            }
        }
        &Json::Null
    }

    /// How many elements the array has; none where the value is no array.
    pub fn count(&self) -> (count: usize)
        ensures
            count == self@.elements().len(),
    {
        match self {
            Json::Array(elements) => elements.len(),
            _ => 0,
        }
    }

    /// The text, where the value is one.
    pub fn as_str<'a>(&'a self) -> (text: Option<&'a str>)
        ensures
            match text {
                Some(text) => self@.text() == Some(text@),
                None => self@.text() is None,
            },
    {
        match self {
            Json::Text(text) => Some(text.as_str()),
            _ => None,
        }
    }

    /// Tells whether the value is this text.
    pub fn is_text(&self, wanted: &str) -> (same: bool)
        ensures
            same == (self@.text() == Some(wanted@)),
    {
        match self {
            Json::Text(text) => same_text(text.as_str(), wanted),
            _ => false,
        }
    }

    /// The text, or the empty one where the value is none.
    pub fn str_or_empty<'a>(&'a self) -> (text: &'a str)
        ensures
            text@ == self@.text_or_empty(),
    {
        match self {
            Json::Text(text) => text.as_str(),
            _ => {
                proof {
                    reveal_strlit("");
                    assert(""@ =~= Seq::empty());
                }
                ""
            },
        }
    }

    /// The truth value, where the value is one.
    pub fn as_bool(&self) -> (truth: Option<bool>)
        ensures
            truth == self@.truth(),
    {
        match self {
            Json::Bool(b) => Some(*b),
            _ => None,
        }
    }

    /// The number, where the value is an integer that fits in 64 bits without a sign.
    pub fn as_u64(&self) -> (number: Option<u64>)
        ensures
            number == self@.unsigned(),
    {
        match self {
            Json::Integer(n) => if 0 <= *n && *n <= u64::MAX as i128 {
                Some(*n as u64)
            } else {
                None
            },
            _ => None,
        }
    }

    /// The number, where the value is an integer that fits in 64 bits with a sign.
    pub fn as_i64(&self) -> (number: Option<i64>)
        ensures
            number == self@.signed(),
    {
        match self {
            Json::Integer(n) => if i64::MIN as i128 <= *n && *n <= i64::MAX as i128 {
                Some(*n as i64)
            } else {
                None
            },
            _ => None,
        }
    }

    /// Tells whether the value is null.
    pub fn is_null(&self) -> (null: bool)
        ensures
            null == (self@ is Null),
    {
        match self {
            Json::Null => true,
            _ => false,
        }
    }
}

/// `serde_json::Value`: a JSON value as that crate holds it.
#[verifier::external_type_specification]
#[verifier::external_body]
pub struct ExValue(serde_json::Value);

/// What a `serde_json::Value` holds.
pub uninterp spec fn value_tree(value: Value) -> JsonTree;

/// What `serde_json::from_str` reads from a text: the value, or the message of its error.
pub uninterp spec fn parsed_json(text: Seq<char>) -> Result<JsonTree, Seq<char>>;

/// The outermost layer of a `serde_json::Value`.
enum Layer {
    Null,
    Bool(bool),
    /// The number as `u64` and as `i64`, where it is an integer that fits.
    Number(Option<u64>, Option<i64>),
    Text(String),
    Array(Vec<Value>),
    Object(Vec<(String, Value)>),
}

/// What the values hold.
spec fn value_trees(values: Seq<Value>) -> Seq<JsonTree> {
    Seq::new(values.len(), |i: int| value_tree(values[i]))
}

/// Whether the layer is that of a value which holds `tree`.
spec fn is_layer_of(layer: Layer, tree: JsonTree) -> bool {
    match layer {
        Layer::Null => tree == JsonTree::Null,
        Layer::Bool(b) => tree == JsonTree::Bool(b),
        Layer::Number(Some(n), _) => tree == JsonTree::Integer(n as int),
        Layer::Number(None, Some(n)) => tree == JsonTree::Integer(n as int),
        Layer::Number(None, None) => tree == JsonTree::Real,
        Layer::Text(text) => tree == JsonTree::Text(text@),
        Layer::Array(values) => tree == JsonTree::Array(value_trees(values@)),
        Layer::Object(fields) => {
            &&& tree matches JsonTree::Object(map)
            &&& forall|key: Seq<char>|
                #[trigger] map.contains_key(key) <==> exists|i: int|
                    0 <= i < fields.len() && (#[trigger] fields[i]).0@ == key
            &&& forall|i: int|
                0 <= i < fields.len() ==> map[(#[trigger] fields[i]).0@] == value_tree(fields[i].1)
        },
    }
}

/// Calls `serde_json::from_str` for a `serde_json::Value`. What it returns is a function of the
/// text alone: the value that the text writes, or an error, here as its message.
#[verifier::external_body]
fn value_from_str(text: &str) -> (read: Result<Value, String>)
    ensures
        match read {
            Ok(value) => parsed_json(text@) == Ok::<JsonTree, Seq<char>>(value_tree(value)),
            Err(message) => parsed_json(text@) == Err::<JsonTree, Seq<char>>(message@),
        },
{
    serde_json::from_str(text).map_err(|error: serde_json::Error| error.to_string())
}

/// Takes a `serde_json::Value` apart by its variants, a number by `Number::as_u64` and
/// `Number::as_i64`, which give it where it is an integer in their range, and an object by
/// `Map::into_iter`, which hands out each name once, with its value.
#[verifier::external_body]
fn layer_of(value: Value) -> (layer: Layer)
    ensures
        is_layer_of(layer, value_tree(value)),
{
    match value {
        Value::Null => Layer::Null,
        Value::Bool(b) => Layer::Bool(b),
        Value::Number(n) => Layer::Number(n.as_u64(), n.as_i64()),
        Value::String(text) => Layer::Text(text),
        Value::Array(values) => Layer::Array(values),
        Value::Object(fields) => Layer::Object(fields.into_iter().collect()),
    }
}

/// The names among the fields, and the values under them.
proof fn lemma_fields_of(fields: Seq<(String, Json)>)
    ensures
        forall|key: Seq<char>| #[trigger]
            fields_of(fields).contains_key(key) <==> exists|i: int|
                0 <= i < fields.len() && (#[trigger] fields[i]).0@ == key,
        forall|key: Seq<char>| #[trigger]
            fields_of(fields).contains_key(key) ==> exists|i: int|
                0 <= i < fields.len() && (#[trigger] fields[i]).0@ == key && fields_of(fields)[key]
                    == tree_of(fields[i].1),
    decreases fields.len(),
{
    if fields.len() > 0 {
        let rest = fields.drop_last();
        lemma_fields_of(rest);
        let map = fields_of(fields);
        let last = fields.len() - 1;
        assert forall|key: Seq<char>| #[trigger] map.contains_key(key) implies exists|i: int|
            0 <= i < fields.len() && (#[trigger] fields[i]).0@ == key && map[key] == tree_of(
                fields[i].1,
            ) by {
            if key == fields[last].0@ {
                assert(fields[last].0@ == key && map[key] == tree_of(fields[last].1));
            } else {
                assert(fields_of(rest).contains_key(key));
                let i = choose|i: int|
                    0 <= i < rest.len() && (#[trigger] rest[i]).0@ == key && fields_of(rest)[key]
                        == tree_of(rest[i].1);
                assert(fields[i] == rest[i]);
            }
        }
        assert forall|key: Seq<char>|
            (exists|i: int| 0 <= i < fields.len() && (#[trigger] fields[i]).0@ == key) implies
            #[trigger] map.contains_key(key) by {
            let i = choose|i: int| 0 <= i < fields.len() && (#[trigger] fields[i]).0@ == key;
            if i < last {
                assert(rest[i].0@ == key);
                assert(fields_of(rest).contains_key(key));
            }
        }
    }
}

/// The library's value for what a `serde_json::Value` holds.
fn from_value(value: Value) -> (json: Json)
    ensures
        json@ == value_tree(value),
    decreases value_tree(value),
{
    match layer_of(value) {
        Layer::Null => Json::Null,
        Layer::Bool(b) => Json::Bool(b),
        Layer::Number(Some(n), _) => Json::Integer(n as i128),
        Layer::Number(None, Some(n)) => Json::Integer(n as i128),
        Layer::Number(None, None) => Json::Real,
        Layer::Text(text) => Json::Text(text),
        Layer::Array(values) => {
            let mut elements: Vec<Json> = Vec::new();
            let ghost all = values@;
            for item in it: values
                invariant
                    it.seq() == all,
                    value_tree(value) == JsonTree::Array(value_trees(all)),
                    elements.len() == it.index(),
                    forall|i: int|
                        0 <= i < elements.len() ==> tree_of(#[trigger] elements[i]) == value_tree(
                            all[i],
                        ),
            {
                assert(item == all[it.index()]);
                let ghost trees = value_trees(all);
                assert(trees[it.index()] == value_tree(item));
                assert(decreases_to!(value_tree(value) => value_tree(value)->Array_0));
                assert(decreases_to!(trees => trees[it.index()]));
                elements.push(from_value(item));
            }
            assert(trees_of(elements@) =~= value_trees(all));
            Json::Array(elements)
        },
        Layer::Object(values) => {
            let mut fields: Vec<(String, Json)> = Vec::new();
            let ghost all = values@;
            for item in it: values
                invariant
                    it.seq() == all,
                    is_layer_of(Layer::Object(values), value_tree(value)),
                    values@ == all,
                    fields.len() == it.index(),
                    forall|i: int|
                        0 <= i < fields.len() ==> (#[trigger] fields[i]).0@ == all[i].0@ && tree_of(
                            fields[i].1,
                        ) == value_tree(all[i].1),
            {
                let (name, inner) = item;
                fields.push((name, from_value(inner)));
            }
            proof {
                lemma_fields_of(fields@);
                let map = value_tree(value)->Object_0;
                let built = fields_of(fields@);
                assert forall|key: Seq<char>| #[trigger]
                    built.contains_key(key) == map.contains_key(key) by {
                    if built.contains_key(key) {
                        let i = choose|i: int|
                            0 <= i < fields.len() && (#[trigger] fields[i]).0@ == key;
                        assert(all[i].0@ == key);
                    }
                    if map.contains_key(key) {
                        let i = choose|i: int| 0 <= i < all.len() && (#[trigger] all[i]).0@ == key;
                        assert(fields[i].0@ == key);
                    }
                }
                assert forall|key: Seq<char>| #[trigger] built.contains_key(key) implies built[key]
                    == map[key] by {
                    let i = choose|i: int|
                        0 <= i < fields.len() && (#[trigger] fields[i]).0@ == key && built[key]
                            == tree_of(fields[i].1);
                    assert(map[all[i].0@] == value_tree(all[i].1));
                }
                assert(built =~= map);
            }
            Json::Object(fields)
        },
    }
}

/// Reads a JSON text; the error is the message of the reader.
pub fn parse(text: &str) -> (read: Result<Json, String>)
    ensures
        match read {
            Ok(json) => parsed_json(text@) == Ok::<JsonTree, Seq<char>>(json@),
            Err(message) => parsed_json(text@) == Err::<JsonTree, Seq<char>>(message@),
        },
{
    match value_from_str(text) {
        Ok(value) => Ok(from_value(value)),
        Err(message) => Err(message),
    }
}

/// What lookups give, by how the value is made: a field is what was put under its name last, an
/// element is what stands at its place, and everything else reads as null or as absent.
pub proof fn lemma_lookups(
    fields: Map<Seq<char>, JsonTree>,
    key: Seq<char>,
    other: Seq<char>,
    value: JsonTree,
    elements: Seq<JsonTree>,
    i: int,
)
    ensures
        JsonTree::Object(fields.insert(key, value)).field(key) == value,
        key != other ==> JsonTree::Object(fields.insert(key, value)).field(other)
            == JsonTree::Object(fields).field(other),
        JsonTree::Object(Map::empty()).field(key) is Null,
        !(value is Object) ==> value.field(key) is Null,
        0 <= i < elements.len() ==> JsonTree::Array(elements).element(i) == elements[i],
        !(0 <= i < elements.len()) ==> JsonTree::Array(elements).element(i) is Null,
        !(value is Array) ==> value.element(i) is Null && value.elements().len() == 0,
        JsonTree::Array(elements).elements() == elements,
{
}

/// What a value reads as: a text as itself, a truth value as itself, an integer as itself where
/// it fits, and all else as absent.
pub proof fn lemma_readings(value: JsonTree)
    ensures
        forall|text: Seq<char>|
            (#[trigger] value.text()) == Some(text) <==> value == JsonTree::Text(text),
        value is Text ==> value.text_or_empty() == value->Text_0,
        !(value is Text) ==> value.text_or_empty().len() == 0,
        forall|b: bool| #[trigger] value.truth() == Some(b) <==> value == JsonTree::Bool(b),
        forall|n: u64|
            #[trigger] value.unsigned() == Some(n) <==> value == JsonTree::Integer(n as int),
        forall|n: i64|
            #[trigger] value.signed() == Some(n) <==> value == JsonTree::Integer(n as int),
{
}

/// An object made of fields in turn holds the last of each name.
pub proof fn lemma_last_field_counts(fields: Seq<(String, Json)>, field: (String, Json))
    ensures
        fields_of(Seq::empty()) == Map::<Seq<char>, JsonTree>::empty(),
        fields_of(fields.push(field)) == fields_of(fields).insert(field.0@, tree_of(field.1)),
{
    assert(fields.push(field).drop_last() =~= fields);
}

}
