//! JSON documents as plain values.

use crate::number::Double;
use crate::text::same_text;
use vstd::prelude::*;

verus! {

/// A JSON value. A number is held in double precision, where one is near it.
#[derive(Debug, PartialEq)]
pub enum Json {
    Null,
    Bool(bool),
    Number(Option<Double>),
    Text(String),
    Array(Vec<Json>),
    Object(Vec<(String, Json)>),
}

/// The mathematical counterpart of [`Json`].
pub enum JsonView {
    Null,
    Bool(bool),
    Number(Option<Double>),
    Text(Seq<char>),
    Array(Seq<JsonView>),
    Object(Seq<(Seq<char>, JsonView)>),
}

impl Json {
    pub open spec fn view(&self) -> JsonView
        decreases self,
    {
        match self {
            Json::Null => JsonView::Null,
            Json::Bool(b) => JsonView::Bool(*b),
            Json::Number(n) => JsonView::Number(*n),
            Json::Text(s) => JsonView::Text(s@),
            Json::Array(items) => JsonView::Array(
                Seq::new(
                    items@.len(),
                    |i: int|
                        if 0 <= i < items@.len() {
                            items@[i].view()
                        } else {
                            JsonView::Null
                        },
                ),
            ),
            Json::Object(members) => JsonView::Object(
                Seq::new(
                    members@.len(),
                    |i: int|
                        if 0 <= i < members@.len() {
                            (members@[i].0@, members@[i].1.view())
                        } else {
                            (seq![], JsonView::Null)
                        },
                ),
            ),
        }
    }
}

/// The value of the first member under `key`.
pub open spec fn member_of(members: Seq<(Seq<char>, JsonView)>, key: Seq<char>) -> Option<JsonView>
    decreases members.len(),
{
    if members.len() == 0 {
        None
    } else if members[0].0 == key {
        Some(members[0].1)
    } else {
        member_of(members.drop_first(), key)
    }
}

impl JsonView {
    /// What an object holds under `key`; nothing for any other value.
    pub open spec fn member(self, key: Seq<char>) -> Option<JsonView> {
        match self {
            JsonView::Object(members) => member_of(members, key),
            _ => None,
        }
    }

    /// The items of an array; nothing for any other value.
    pub open spec fn items(self) -> Option<Seq<JsonView>> {
        match self {
            JsonView::Array(items) => Some(items),
            _ => None,
        }
    }

    /// The number in double precision; nothing for any other value.
    pub open spec fn number(self) -> Option<Double> {
        match self {
            JsonView::Number(n) => n,
            _ => None,
        }
    }

    /// Every number in the value, at any depth, is finite.
    pub open spec fn numbers_are_finite(self) -> bool
        decreases self,
    {
        match self {
            JsonView::Number(n) => n matches Some(x) ==> x.is_finite(),
            JsonView::Array(items) => forall|i: int|
                0 <= i < items.len() ==> (#[trigger] items[i]).numbers_are_finite(),
            JsonView::Object(members) => forall|i: int|
                0 <= i < members.len() ==> (#[trigger] members[i]).1.numbers_are_finite(),
            _ => true,
        }
    }
}

impl Json {
    /// What an object holds under `key`.
    pub fn member(&self, key: &str) -> (value: Option<&Json>)
        ensures
            match value {
                Some(v) => self@.member(key@) == Some(v@),
                None => self@.member(key@) is None,
            },
    {
        match self {
            Json::Object(members) => {
                let ghost all = self@->Object_0;
                let mut i: usize = 0;
                assert(all.skip(0) =~= all);
                while i < members.len()
                    invariant
                        i <= members@.len(),
                        self@ == JsonView::Object(all),
                        all.len() == members@.len(),
                        forall|j: int|
                            0 <= j < members@.len() ==> #[trigger] all[j] == (
                                members@[j].0@,
                                members@[j].1@,
                            ),
                        member_of(all, key@) == member_of(all.skip(i as int), key@),
                    decreases members@.len() - i,
                {
                    assert(all.skip(i as int)[0] == all[i as int]);
                    if same_text(&members[i].0, key) {
                        return Some(&members[i].1);
                    }
                    assert(all.skip(i as int).drop_first() =~= all.skip(i + 1));
                    i = i + 1;
                }
                None
            },
            _ => None,
        }
    }

    /// The items of an array.
    pub fn items(&self) -> (items: Option<&Vec<Json>>)
        ensures
            match items {
                Some(v) => self@.items() == Some(items_view(v@)),
                None => self@.items() is None,
            },
    {
        match self {
            Json::Array(items) => {
                assert(self@->Array_0 =~= items_view(items@));
                Some(items)
            },
            _ => None,
        }
    }

    /// The number in double precision.
    pub fn number(&self) -> (number: Option<Double>)
        ensures
            number == self@.number(),
    {
        match self {
            Json::Number(n) => *n,
            _ => None,
        }
    }
}

/// What the values of a vector stand for.
pub open spec fn items_view(items: Seq<Json>) -> Seq<JsonView> {
    items.map_values(|item: Json| item@)
}

/// An object holds under a key what the first member of that key has for its value, and nothing
/// where no member has the key. Other values hold nothing under any key.
pub proof fn members_are_found_by_their_key(
    members: Seq<(Seq<char>, JsonView)>,
    key: Seq<char>,
    place: int,
)
    ensures
        0 <= place < members.len() && members[place].0 == key && (forall|i: int|
            0 <= i < place ==> (#[trigger] members[i]).0 != key) ==> JsonView::Object(
            members,
        ).member(key) == Some(members[place].1),
        (forall|i: int| 0 <= i < members.len() ==> (#[trigger] members[i]).0 != key)
            ==> JsonView::Object(members).member(key) is None,
        forall|json: JsonView|
            !(json is Object) ==> (#[trigger] json.member(key)) is None,
    decreases members.len(),
{
    if members.len() > 0 && members[0].0 != key {
        let rest = members.drop_first();
        members_are_found_by_their_key(rest, key, place - 1);
        assert(JsonView::Object(rest).member(key) == JsonView::Object(members).member(key));
        assert forall|i: int| 0 <= i < rest.len() implies #[trigger] rest[i] == members[i + 1] by {
        }
        if 0 <= place < members.len() && members[place].0 == key && (forall|i: int|
            0 <= i < place ==> (#[trigger] members[i]).0 != key) {
            assert(place > 0);
            assert forall|i: int| 0 <= i < place - 1 implies (#[trigger] rest[i]).0 != key by {
                assert(rest[i] == members[i + 1]);
            }
        }
        if forall|i: int| 0 <= i < members.len() ==> (#[trigger] members[i]).0 != key {
            assert forall|i: int| 0 <= i < rest.len() implies (#[trigger] rest[i]).0 != key by {
                assert(rest[i] == members[i + 1]);
            }
        }
    }
}

/// Arrays have items and numbers are numbers, and nothing else is.
pub proof fn items_and_numbers_are_told_apart(json: JsonView)
    ensures
        json matches JsonView::Array(items) ==> json.items() == Some(items),
        !(json is Array) ==> json.items() is None,
        json matches JsonView::Number(number) ==> json.number() == number,
        !(json is Number) ==> json.number() is None,
{
}

/// A JSON value stands for what it holds, layer by layer.
pub proof fn values_stand_for_what_they_hold(json: Json)
    ensures
        json matches Json::Null ==> json@ == JsonView::Null,
        json matches Json::Bool(b) ==> json@ == JsonView::Bool(b),
        json matches Json::Number(n) ==> json@ == JsonView::Number(n),
        json matches Json::Text(s) ==> json@ == JsonView::Text(s@),
        json matches Json::Array(items) ==> json@ == JsonView::Array(items_view(items@)),
        json matches Json::Object(members) ==> (json@ matches JsonView::Object(held) && held.len()
            == members@.len() && forall|i: int|
            0 <= i < held.len() ==> #[trigger] held[i] == (members@[i].0@, members@[i].1@)),
{
    match json {
        Json::Array(items) => {
            assert(json@->Array_0 =~= items_view(items@));
        },
        _ => {},
    }
}

/// A JSON value of `serde_json`.
#[verifier::external_type_specification]
#[verifier::external_body]
pub struct ExJsonValue(serde_json::Value);

/// Why `serde_json` refused a text.
#[verifier::external_type_specification]
#[verifier::external_body]
pub struct ExJsonError(serde_json::Error);

/// What a `serde_json::Value` holds: its variant, with a string as its characters, a number in
/// double precision as `Number::as_f64` gives it, an array as its items in order and an object
/// as its members in the order of its map.
pub uninterp spec fn json_tree(value: serde_json::Value) -> JsonView;

/// What `serde_json::from_str` reads out of a text as a `serde_json::Value`; nothing where it
/// refuses the text.
pub uninterp spec fn json_document(text: Seq<char>) -> Option<JsonView>;

/// `serde_json::from_str` for a `serde_json::Value`: the result is a function of the text, by
/// the name [`json_document`]. A number that is out of range is refused, so all are finite.
#[verifier::external_body]
fn parse_value(text: &str) -> (parsed: Result<serde_json::Value, serde_json::Error>)
    ensures
        match parsed {
            Ok(value) => {
                &&& json_document(text@) == Some(json_tree(value))
                &&& json_tree(value).numbers_are_finite()
            },
            Err(_) => json_document(text@) is None,
        },
{
    serde_json::from_str::<serde_json::Value>(text)
}

/// The outermost layer of a `serde_json::Value`.
enum Layer<'a> {
    Null,
    Bool(bool),
    Number(Option<Double>),
    Text(&'a String),
    Array(&'a Vec<serde_json::Value>),
    Object(Vec<(&'a String, &'a serde_json::Value)>),
}

/// The tree under a layer.
spec fn layer_tree(layer: Layer) -> JsonView {
    match layer {
        Layer::Null => JsonView::Null,
        Layer::Bool(b) => JsonView::Bool(b),
        Layer::Number(n) => JsonView::Number(n),
        Layer::Text(s) => JsonView::Text(s@),
        Layer::Array(items) => JsonView::Array(
            items@.map_values(|item: serde_json::Value| json_tree(item)),
        ),
        Layer::Object(members) => JsonView::Object(
            members@.map_values(
                |member: (&String, &serde_json::Value)| (member.0@, json_tree(*member.1)),
            ),
        ),
    }
}

/// Tells the variants of `serde_json::Value` apart. The number is what `Number::as_f64` gives,
/// and the members of an object come in the order in which its map is walked. Layer and value
/// hold the same tree, by the name [`json_tree`].
#[verifier::external_body]
fn layer_of<'a>(value: &'a serde_json::Value) -> (layer: Layer<'a>)
    ensures
        layer_tree(layer) == json_tree(*value),
{
    match value {
        serde_json::Value::Null => Layer::Null,
        serde_json::Value::Bool(b) => Layer::Bool(*b),
        serde_json::Value::Number(n) => Layer::Number(n.as_f64().map(|x| Double::from_bits(x.to_bits()))),
        serde_json::Value::String(s) => Layer::Text(s),
        serde_json::Value::Array(items) => Layer::Array(items),
        serde_json::Value::Object(members) => Layer::Object(members.iter().collect()),
    }
}

/// Takes over what a `serde_json::Value` holds.
fn json_of_value(value: &serde_json::Value) -> (json: Json)
    ensures
        json@ == json_tree(*value),
    decreases json_tree(*value),
{
    match layer_of(value) {
        Layer::Null => Json::Null,
        Layer::Bool(b) => Json::Bool(b),
        Layer::Number(n) => Json::Number(n),
        Layer::Text(s) => Json::Text(s.clone()),
        Layer::Array(items) => {
            let ghost trees = json_tree(*value)->Array_0;
            let mut taken: Vec<Json> = Vec::new();
            let mut i: usize = 0;
            while i < items.len()
                invariant
                    i <= items@.len(),
                    taken@.len() == i,
                    json_tree(*value) == JsonView::Array(trees),
                    trees == items@.map_values(|item: serde_json::Value| json_tree(item)),
                    forall|j: int| 0 <= j < i ==> (#[trigger] taken@[j])@ == trees[j],
                decreases items@.len() - i,
            {
                assert(trees[i as int] == json_tree(items@[i as int]));
                assert(decreases_to!(json_tree(*value) => json_tree(*value)->Array_0));
                assert(decreases_to!(trees => trees[i as int]));
                assert(decreases_to!(json_tree(*value) => trees[i as int]));
                let item = json_of_value(&items[i]);
                taken.push(item);
                i = i + 1;
            }
            let json = Json::Array(taken);
            assert(json@->Array_0 =~= trees);
            json
        },
        Layer::Object(members) => {
            let ghost trees = json_tree(*value)->Object_0;
            let mut taken: Vec<(String, Json)> = Vec::new();
            let mut i: usize = 0;
            while i < members.len()
                invariant
                    i <= members@.len(),
                    taken@.len() == i,
                    json_tree(*value) == JsonView::Object(trees),
                    trees == members@.map_values(
                        |member: (&String, &serde_json::Value)| (member.0@, json_tree(*member.1)),
                    ),
                    forall|j: int|
                        0 <= j < i ==> ((#[trigger] taken@[j]).0@, taken@[j].1@) == trees[j],
                decreases members@.len() - i,
            {
                assert(trees[i as int].1 == json_tree(*members@[i as int].1));
                assert(decreases_to!(json_tree(*value) => json_tree(*value)->Object_0));
                assert(decreases_to!(trees => trees[i as int]));
                assert(decreases_to!(trees[i as int] => trees[i as int].1));
                assert(decreases_to!(json_tree(*value) => trees[i as int].1));
                let member = json_of_value(members[i].1);
                taken.push((members[i].0.clone(), member));
                i = i + 1;
            }
            let json = Json::Object(taken);
            assert(json@->Object_0 =~= trees);
            json
        },
    }
}

/// Reads a text as JSON.
pub fn read_json(text: &str) -> (read: Result<Json, serde_json::Error>)
    ensures
        match read {
            Ok(json) => json_document(text@) == Some(json@) && json@.numbers_are_finite(),
            Err(_) => json_document(text@) is None,
        },
{
    match parse_value(text) {
        Ok(value) => Ok(json_of_value(&value)),
        Err(error) => Err(error),
    }
}

} // verus!
