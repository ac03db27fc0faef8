//! A generic JSON tree and its mathematical model.

use vstd::prelude::*;
use vstd::string::StringExecFns;
use crate::named::{lemma_named_stays, named, named_within};

verus! {

/// A JSON document as a tree of values.
///
/// An object keeps its members in document order. A number keeps its literal text,
/// since nothing in this library computes with numbers.
#[derive(Debug, PartialEq, Eq)]
pub enum Json {
    Null,
    Bool(bool),
    Number(String),
    Str(String),
    Array(Vec<Json>),
    Object(Vec<(String, Json)>),
}

/// The mathematical model of a [`Json`] tree.
pub enum JsonValue {
    Null,
    Bool(bool),
    Number(Seq<char>),
    Str(Seq<char>),
    Array(Seq<JsonValue>),
    Object(Seq<(Seq<char>, JsonValue)>),
}

/// The members of a JSON object: keys with their values, in document order.
pub type Members = Seq<(Seq<char>, JsonValue)>;

/// The model of a tree: the same tree with every string replaced by its characters.
pub open spec fn json_value(json: Json) -> JsonValue
    decreases json,
{
    match json {
        Json::Null => JsonValue::Null,
        Json::Bool(b) => JsonValue::Bool(b),
        Json::Number(n) => JsonValue::Number(n@),
        Json::Str(s) => JsonValue::Str(s@),
        Json::Array(items) => JsonValue::Array(
            Seq::new(
                items@.len(),
                |i: int|
                    if 0 <= i < items@.len() {
                        json_value(items@[i])
                    } else {
                        JsonValue::Null
                    },
            ),
        ),
        Json::Object(members) => JsonValue::Object(
            Seq::new(
                members@.len(),
                |i: int|
                    if 0 <= i < members@.len() {
                        (members@[i].0@, json_value(members@[i].1))
                    } else {
                        (Seq::empty(), JsonValue::Null)
                    },
            ),
        ),
    }
}

impl View for Json {
    type V = JsonValue;

    open spec fn view(&self) -> JsonValue {
        json_value(*self)
    }
}

/// The models of the items of an array.
pub open spec fn items_view(items: Seq<Json>) -> Seq<JsonValue> {
    Seq::new(items.len(), |i: int| items[i]@)
}

/// The models of the members of an object.
pub open spec fn members_view(members: Seq<(String, Json)>) -> Members {
    Seq::new(members.len(), |i: int| (members[i].0@, members[i].1@))
}

/// The model of an array is the array of its items' models.
pub proof fn lemma_array_view(items: Vec<Json>)
    ensures
        Json::Array(items)@ == JsonValue::Array(items_view(items@)),
{
    assert(Json::Array(items)@->Array_0 =~= items_view(items@));
}

/// The model of an object is the object of its members' models.
pub proof fn lemma_object_view(members: Vec<(String, Json)>)
    ensures
        Json::Object(members)@ == JsonValue::Object(members_view(members@)),
{
    assert(Json::Object(members)@->Object_0 =~= members_view(members@));
}

/// The model of a value that may be absent.
pub open spec fn optional_value(value: Option<Json>) -> Option<JsonValue> {
    match value {
        Some(json) => Some(json@),
        None => None,
    }
}

/// The place of the first member of an object that stands under `key`.
pub fn find_member(members: &Vec<(String, Json)>, key: &str) -> (found: Option<usize>)
    ensures
        match found {
            Some(i) => i < members.len() && named(members_view(members@), key@) == Some(
                members@[i as int].1@,
            ),
            None => named(members_view(members@), key@) is None,
        },
{
    let wanted = String::from_str(key);
    let ghost models = members_view(members@);
    let mut i: usize = 0;
    while i < members.len()
        invariant
            wanted@ == key@,
            models == members_view(members@),
            i <= members.len(),
            named_within(models, i as nat, key@) is None,
        decreases members.len() - i,
    {
        if members[i].0 == wanted {
            proof {
                assert(named_within(models, (i + 1) as nat, key@) == Some(models[i as int].1));
                lemma_named_stays(models, (i + 1) as nat, models.len(), key@);
            }
            return Some(i);
        }
        i += 1;
    }
    None
}

impl Clone for Json {
    /// A deep copy: the copy has the same model.
    fn clone(&self) -> (copy: Json)
        ensures
            copy@ == self@,
        decreases self,
    {
        broadcast use vstd::std_specs::vec::axiom_vec_index_decreases;
        match self {
            Json::Null => Json::Null,
            Json::Bool(b) => Json::Bool(*b),
            Json::Number(n) => Json::Number(n.clone()),
            Json::Str(s) => Json::Str(s.clone()),
            Json::Array(items) => {
                let mut copies: Vec<Json> = Vec::new();
                let mut i: usize = 0;
                while i < items.len()
                    invariant
                        self is Array && self->Array_0 == *items,
                        i <= items.len(),
                        copies@.len() == i,
                        forall|j: int| 0 <= j < i ==> copies@[j]@ == items@[j]@,
                    decreases items.len() - i,
                {
                    let item = items[i].clone();
                    copies.push(item);
                    i += 1;
                }
                proof {
                    lemma_array_view(*items);
                    lemma_array_view(copies);
                    assert(items_view(copies@) =~= items_view(items@));
                }
                Json::Array(copies)
            },
            Json::Object(members) => {
                let mut copies: Vec<(String, Json)> = Vec::new();
                let mut i: usize = 0;
                while i < members.len()
                    invariant
                        self is Object && self->Object_0 == *members,
                        i <= members.len(),
                        copies@.len() == i,
                        forall|j: int|
                            0 <= j < i ==> copies@[j].0@ == members@[j].0@ && copies@[j].1@
                                == members@[j].1@,
                    decreases members.len() - i,
                {
                    let key = members[i].0.clone();
                    let value = members[i].1.clone();
                    copies.push((key, value));
                    i += 1;
                }
                proof {
                    lemma_object_view(*members);
                    lemma_object_view(copies);
                    assert(members_view(copies@) =~= members_view(members@));
                }
                Json::Object(copies)
            },
        }
    }
}

} // verus!
