//! JSON values: their model, how they are read, and how they come from text.

use crate::text::same_text;
use vstd::prelude::*;

verus! {

/// A JSON value.
///
/// A number is held by its text, as the JSON library prints it. The members of an
/// object that comes from a text stand in the order in which the JSON library walks
/// them, those of any other object in the order in which they were put there.
#[derive(Debug, PartialEq, Eq)]
pub enum Json {
    Null,
    Bool(bool),
    Number(String),
    String(String),
    Array(Vec<Json>),
    Object(Vec<(String, Json)>),
}

/// What a JSON value holds, as mathematical data.
pub enum JsonView {
    Null,
    Bool(bool),
    Number(Seq<char>),
    String(Seq<char>),
    Array(Seq<JsonView>),
    Object(Seq<(Seq<char>, JsonView)>),
}

impl View for Json {
    type V = JsonView;

    open spec fn view(&self) -> JsonView
        decreases self,
    {
        match self {
            Json::Null => JsonView::Null,
            Json::Bool(b) => JsonView::Bool(*b),
            Json::Number(text) => JsonView::Number(text@),
            Json::String(text) => JsonView::String(text@),
            Json::Array(items) => JsonView::Array(
                Seq::new(
                    items@.len(),
                    |i: int|
                        if 0 <= i < items@.len() {
                            items@[i].view()
                        } else {
                            JsonView::Null
                        },
                ),
            ),
            Json::Object(members) => JsonView::Object(
                Seq::new(
                    members@.len(),
                    |i: int|
                        (
                            members@[i].0@,
                            if 0 <= i < members@.len() {
                                members@[i].1.view()
                            } else {
                                JsonView::Null
                            },
                        ),
                ),
            ),
        }
    }
}

/// What a sequence of JSON values holds.
pub open spec fn views(items: Seq<Json>) -> Seq<JsonView> {
    items.map_values(|item: Json| item@)
}

/// What one member of an object holds.
pub open spec fn member_view(member: (String, Json)) -> (Seq<char>, JsonView) {
    (member.0@, member.1@)
}

/// What the members of an object hold.
pub open spec fn member_views(members: Seq<(String, Json)>) -> Seq<(Seq<char>, JsonView)> {
    members.map_values(|member: (String, Json)| member_view(member))
}

/// What an optional JSON value holds.
pub open spec fn content(value: Option<Json>) -> Option<JsonView> {
    match value {
        Some(v) => Some(v@),
        None => None,
    }
}

/// What an optional reference to a JSON value holds.
pub open spec fn borrowed(value: Option<&Json>) -> Option<JsonView> {
    match value {
        Some(v) => Some(v@),
        None => None,
    }
}

/// What an array holds, by its items.
pub broadcast proof fn lemma_array_view(items: Vec<Json>)
    ensures
        (#[trigger] Json::Array(items)@) == JsonView::Array(views(items@)),
{
    assert(Json::Array(items)@->Array_0 =~= views(items@));
}

/// What an object holds, by its members.
pub broadcast proof fn lemma_object_view(members: Vec<(String, Json)>)
    ensures
        (#[trigger] Json::Object(members)@) == JsonView::Object(member_views(members@)),
{
    assert(Json::Object(members)@->Object_0 =~= member_views(members@));
}

pub proof fn lemma_views_push(items: Seq<Json>, item: Json)
    ensures
        views(items.push(item)) == views(items).push(item@),
{
    assert(views(items.push(item)) =~= views(items).push(item@));
}

pub proof fn lemma_member_views_push(members: Seq<(String, Json)>, member: (String, Json))
    ensures
        member_views(members.push(member)) == member_views(members).push(member_view(member)),
{
    assert(member_views(members.push(member)) =~= member_views(members).push(member_view(member)));
}

/// The value of the member named `key`, if there is one.
pub open spec fn member_of(members: Seq<(Seq<char>, JsonView)>, key: Seq<char>) -> Option<JsonView>
    decreases members.len(),
{
    if members.len() == 0 {
        None
    } else if members[0].0 == key {
        Some(members[0].1)
    } else {
        member_of(members.drop_first(), key)
    }
}

impl JsonView {
    /// The member of an object named `key`; anything but an object has none.
    pub open spec fn get(self, key: Seq<char>) -> Option<JsonView> {
        match self {
            JsonView::Object(members) => member_of(members, key),
            _ => None,
        }
    }

    /// The text of a string.
    pub open spec fn as_str(self) -> Option<Seq<char>> {
        match self {
            JsonView::String(text) => Some(text),
            _ => None,
        }
    }

    /// The truth value of a boolean.
    pub open spec fn as_bool(self) -> Option<bool> {
        match self {
            JsonView::Bool(b) => Some(b),
            _ => None,
        }
    }

    /// The items of an array.
    pub open spec fn as_array(self) -> Option<Seq<JsonView>> {
        match self {
            JsonView::Array(items) => Some(items),
            _ => None,
        }
    }

    /// The members of an object.
    pub open spec fn as_object(self) -> Option<Seq<(Seq<char>, JsonView)>> {
        match self {
            JsonView::Object(members) => Some(members),
            _ => None,
        }
    }

    /// No object in the value names a member twice.
    pub open spec fn well_formed(self) -> bool
        decreases self,
    {
        match self {
            JsonView::Array(items) => forall|i: int|
                0 <= i < items.len() ==> (#[trigger] items[i]).well_formed(),
            JsonView::Object(members) => {
                &&& distinct_names(members)
                &&& forall|i: int|
                    0 <= i < members.len() ==> (#[trigger] members[i]).1.well_formed()
            },
            _ => true,
        }
    }
}

/// No two of the members have the same name.
pub open spec fn distinct_names(members: Seq<(Seq<char>, JsonView)>) -> bool {
    forall|i: int, j: int|
        0 <= i < j < members.len() ==> (#[trigger] members[i]).0 != (#[trigger] members[j]).0
}

/// The text of the string at `value`, if there is a value and it is a string.
pub open spec fn str_at(value: Option<JsonView>) -> Option<Seq<char>> {
    match value {
        Some(v) => v.as_str(),
        None => None,
    }
}

/// The items of the array at `value`, if there is a value and it is an array.
pub open spec fn array_at(value: Option<JsonView>) -> Option<Seq<JsonView>> {
    match value {
        Some(v) => v.as_array(),
        None => None,
    }
}

/// The member named `key` of the object at `value`.
pub open spec fn get_at(value: Option<JsonView>, key: Seq<char>) -> Option<JsonView> {
    match value {
        Some(v) => v.get(key),
        None => None,
    }
}

impl Json {
    /// The member of an object named `key`; anything but an object has none.
    pub fn get(&self, key: &str) -> (value: Option<&Json>)
        ensures
            borrowed(value) == self@.get(key@),
    {
        broadcast use lemma_object_view;

        match self {
            Json::Object(members) => {
                let ghost all = member_views(members@);
                assert(all.skip(0) =~= all);
                for i in 0..members.len()
                    invariant
                        all == member_views(members@),
                        self@ == JsonView::Object(all),
                        member_of(all, key@) == member_of(all.skip(i as int), key@),
                {
                    assert(all.skip(i as int).drop_first() =~= all.skip(i + 1));
                    assert(all.skip(i as int)[0] == member_view(members@[i as int]));
                    if same_text(members[i].0.as_str(), key) {
                        return Some(&members[i].1);
                    }
                }
                None
            },
            _ => None,
        }
    }

    /// The text of a string.
    pub fn as_str(&self) -> (text: Option<&str>)
        ensures
            (match text {
                Some(t) => self@.as_str() == Some(t@),
                None => self@.as_str() is None,
            }),
    {
        match self {
            Json::String(text) => Some(text.as_str()),
            _ => None,
        }
    }

    /// The truth value of a boolean.
    pub fn as_bool(&self) -> (value: Option<bool>)
        ensures
            value == self@.as_bool(),
    {
        match self {
            Json::Bool(b) => Some(*b),
            _ => None,
        }
    }

    /// The items of an array.
    pub fn as_array(&self) -> (items: Option<&Vec<Json>>)
        ensures
            (match items {
                Some(v) => self@.as_array() == Some(views(v@)),
                None => self@.as_array() is None,
            }),
    {
        broadcast use lemma_array_view;

        match self {
            Json::Array(items) => Some(items),
            _ => None,
        }
    }

    /// The members of an object.
    pub fn as_object(&self) -> (members: Option<&Vec<(String, Json)>>)
        ensures
            (match members {
                Some(m) => {
                    &&& self@.as_object() == Some(member_views(m@))
                    &&& *self == Json::Object(*m)
                },
                None => self@.as_object() is None,
            }),
    {
        broadcast use lemma_object_view;

        match self {
            Json::Object(members) => Some(members),
            _ => None,
        }
    }
}

/// A JSON string.
pub fn json_text(text: &str) -> (json: Json)
    ensures
        json@ == JsonView::String(text@),
{
    Json::String(text.to_owned())
}

impl Clone for Json {
    fn clone(&self) -> (copy: Json)
        ensures
            copy@ == self@,
        decreases self,
    {
        broadcast use {lemma_array_view, lemma_object_view};

        match self {
            Json::Null => Json::Null,
            Json::Bool(b) => Json::Bool(*b),
            Json::Number(text) => Json::Number(text.clone()),
            Json::String(text) => Json::String(text.clone()),
            Json::Array(items) => {
                let mut copies: Vec<Json> = Vec::new();
                for i in 0..items.len()
                    invariant
                        *self == Json::Array(*items),
                        views(copies@) == views(items@).take(i as int),
                {
                    assert(decreases_to!(*self => self->Array_0@[i as int]));
                    let copy = items[i].clone();
                    proof {
                        lemma_views_push(copies@, copy);
                        assert(views(items@).take(i + 1) =~= views(items@).take(i as int).push(
                            copy@,
                        ));
                    }
                    copies.push(copy);
                }
                assert(views(copies@) =~= views(items@));
                Json::Array(copies)
            },
            Json::Object(members) => {
                let mut copies: Vec<(String, Json)> = Vec::new();
                for i in 0..members.len()
                    invariant
                        *self == Json::Object(*members),
                        member_views(copies@) == member_views(members@).take(i as int),
                {
                    assert(decreases_to!(*self => self->Object_0@[i as int].1));
                    let copy = (members[i].0.clone(), members[i].1.clone());
                    proof {
                        lemma_member_views_push(copies@, copy);
                        assert(member_views(members@).take(i + 1) =~= member_views(members@).take(
                            i as int,
                        ).push(member_view(copy)));
                    }
                    copies.push(copy);
                }
                assert(member_views(copies@) =~= member_views(members@));
                Json::Object(copies)
            },
        }
    }
}

/// What a value of the JSON library holds.
pub uninterp spec fn value_content(value: serde_json::Value) -> JsonView;

/// What a JSON text holds, where it is one.
pub uninterp spec fn parsed(text: Seq<char>) -> Option<JsonView>;

/// `serde_json::Value`; what is inside is read by `open_value` alone.
#[verifier::external_type_specification]
#[verifier::external_body]
pub struct ExValue(serde_json::Value);

/// `serde_json::from_str::<serde_json::Value>`: the value of a JSON text, and nothing
/// where the text is not one or nests too deep. What comes back depends on the
/// text alone.
#[verifier::external_body]
fn parse_value(text: &str) -> (value: Option<serde_json::Value>)
    ensures
        (match value {
            Some(v) => parsed(text@) == Some(value_content(v)),
            None => parsed(text@) is None,
        }),
{
    serde_json::from_str::<serde_json::Value>(text).ok()
}

/// One layer of a JSON value, with what it nests not yet looked at.
enum Layer {
    Null,
    Bool(bool),
    Number(String),
    String(String),
    Array(Vec<serde_json::Value>),
    Object(Vec<(String, serde_json::Value)>),
}

impl Layer {
    /// What the value holds whose outermost layer this is.
    spec fn content(self) -> JsonView {
        match self {
            Layer::Null => JsonView::Null,
            Layer::Bool(b) => JsonView::Bool(b),
            Layer::Number(text) => JsonView::Number(text@),
            Layer::String(text) => JsonView::String(text@),
            Layer::Array(items) => JsonView::Array(
                items@.map_values(|item: serde_json::Value| value_content(item)),
            ),
            Layer::Object(members) => JsonView::Object(
                members@.map_values(
                    |member: (String, serde_json::Value)| (member.0@, value_content(member.1)),
                ),
            ),
        }
    }
}

/// The variants of `serde_json::Value`, with a number as its `Display` prints it and
/// the members of an object in the order of `serde_json::Map::into_iter`. A map holds
/// no name twice.
#[verifier::external_body]
fn open_value(value: serde_json::Value) -> (layer: Layer)
    ensures
        layer.content() == value_content(value),
        layer matches Layer::Object(members) ==> distinct_names(layer.content()->Object_0),
{
    match value {
        serde_json::Value::Null => Layer::Null,
        serde_json::Value::Bool(b) => Layer::Bool(b),
        serde_json::Value::Number(number) => Layer::Number(number.to_string()),
        serde_json::Value::String(text) => Layer::String(text),
        serde_json::Value::Array(items) => Layer::Array(items),
        serde_json::Value::Object(members) => Layer::Object(members.into_iter().collect()),
    }
}

/// The JSON value that a value of the JSON library holds.
pub fn json_of(value: serde_json::Value) -> (json: Json)
    ensures
        json@ == value_content(value),
        json@.well_formed(),
    decreases value_content(value),
{
    broadcast use {lemma_array_view, lemma_object_view};

    match open_value(value) {
        Layer::Null => Json::Null,
        Layer::Bool(b) => Json::Bool(b),
        Layer::Number(text) => Json::Number(text),
        Layer::String(text) => Json::String(text),
        Layer::Array(values) => {
            let mut items: Vec<Json> = Vec::new();
            let ghost whole = value_content(value);
            let ghost all = values@;
            for item in iter: values
                invariant
                    whole == value_content(value),
                    iter.seq() == all,
                    whole == JsonView::Array(
                        all.map_values(|v: serde_json::Value| value_content(v)),
                    ),
                    views(items@) == whole->Array_0.take(iter.index() as int),
                    forall|i: int| 0 <= i < items.len() ==> (#[trigger] items@[i])@.well_formed(),
            {
                let ghost k = iter.index() as int;
                assert(whole->Array_0[k] == value_content(item));
                assert(decreases_to!(whole => whole->Array_0[k]));
                let json = json_of(item);
                proof {
                    lemma_views_push(items@, json);
                    assert(whole->Array_0.take(k + 1) =~= whole->Array_0.take(k).push(json@));
                }
                items.push(json);
            }
            assert(views(items@) =~= whole->Array_0);
            assert forall|i: int| 0 <= i < whole->Array_0.len() implies (
            #[trigger] whole->Array_0[i]).well_formed() by {
                assert(views(items@)[i] == items@[i]@);
            }
            Json::Array(items)
        },
        Layer::Object(values) => {
            let mut members: Vec<(String, Json)> = Vec::new();
            let ghost whole = value_content(value);
            let ghost all = values@;
            for entry in iter: values
                invariant
                    whole == value_content(value),
                    iter.seq() == all,
                    whole == JsonView::Object(
                        all.map_values(
                            |m: (String, serde_json::Value)| (m.0@, value_content(m.1)),
                        ),
                    ),
                    member_views(members@) == whole->Object_0.take(iter.index() as int),
                    forall|i: int|
                        0 <= i < members.len() ==> (#[trigger] members@[i]).1@.well_formed(),
            {
                let ghost k = iter.index() as int;
                assert(whole->Object_0[k] == (entry.0@, value_content(entry.1)));
                assert(decreases_to!(whole => whole->Object_0[k].1));
                let member = (entry.0, json_of(entry.1));
                proof {
                    lemma_member_views_push(members@, member);
                    assert(whole->Object_0.take(k + 1) =~= whole->Object_0.take(k).push(
                        member_view(member),
                    ));
                }
                members.push(member);
            }
            assert(member_views(members@) =~= whole->Object_0);
            assert forall|i: int| 0 <= i < whole->Object_0.len() implies (
            #[trigger] whole->Object_0[i]).1.well_formed() by {
                assert(member_views(members@)[i] == member_view(members@[i]));
            }
            Json::Object(members)
        },
    }
}

/// The JSON value of a text, where it is JSON text.
pub fn parse(text: &str) -> (json: Option<Json>)
    ensures
        content(json) == parsed(text@),
        json matches Some(j) ==> j@.well_formed(),
{
    match parse_value(text) {
        Some(value) => Some(json_of(value)),
        None => None,
    }
}

/// The JSON value of a text; null where the text is not JSON text.
pub fn parse_or_null(text: &str) -> (json: Json)
    ensures
        json@ == or_null(parsed(text@)),
        json@.well_formed(),
{
    match parse(text) {
        Some(json) => json,
        None => Json::Null,
    }
}

/// The value, or null where there is none.
pub open spec fn or_null(value: Option<JsonView>) -> JsonView {
    match value {
        Some(v) => v,
        None => JsonView::Null,
    }
}

} // verus!
