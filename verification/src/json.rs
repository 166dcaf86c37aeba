//! A small JSON tree: the values the export is made of.

use vstd::prelude::*;

verus! {

broadcast use vstd::std_specs::vec::group_vec_axioms;

/// A JSON value as the export uses it. Numbers are unsigned integers; an
/// object keeps its members in the order they were given.
#[derive(Debug)]
pub enum Json {
    Null,
    Bool(bool),
    Number(u64),
    Text(String),
    Array(Vec<Json>),
    Object(Vec<(String, Json)>),
}

/// The mathematical value of a [`Json`] tree.
pub enum JsonValue {
    Null,
    Bool(bool),
    Number(nat),
    Text(Seq<char>),
    Array(Seq<JsonValue>),
    Object(Seq<(Seq<char>, JsonValue)>),
}

impl View for Json {
    type V = JsonValue;

    open spec fn view(&self) -> JsonValue
        decreases self,
    {
        match self {
            Json::Null => JsonValue::Null,
            Json::Bool(b) => JsonValue::Bool(*b),
            Json::Number(n) => JsonValue::Number(*n as nat),
            Json::Text(s) => JsonValue::Text(s@),
            Json::Array(items) => JsonValue::Array(values(items@)),
            Json::Object(members) => JsonValue::Object(member_values(members@)),
        }
    }
}

/// The values of a sequence of trees, one by one.
pub open spec fn values(items: Seq<Json>) -> Seq<JsonValue>
    decreases items,
{
    Seq::new(
        items.len(),
        |i: int|
            if 0 <= i < items.len() {
                items[i]@
            } else {
                JsonValue::Null
            },
    )
}

/// The values of the members of an object, one by one.
pub open spec fn member_values(members: Seq<(String, Json)>) -> Seq<(Seq<char>, JsonValue)>
    decreases members,
{
    Seq::new(
        members.len(),
        |i: int|
            if 0 <= i < members.len() {
                (members[i].0@, members[i].1@)
            } else {
                (Seq::empty(), JsonValue::Null)
            },
    )
}

/// The first of `members` that has the key `key`; `Null` where none has.
pub open spec fn lookup(members: Seq<(Seq<char>, JsonValue)>, key: Seq<char>) -> JsonValue
    decreases members.len(),
{
    if members.len() == 0 {
        JsonValue::Null
    } else if members.first().0 == key {
        members.first().1
    } else {
        lookup(members.drop_first(), key)
    }
}

/// `lookup` gives the value of the first member that has the key.
pub proof fn lemma_lookup(members: Seq<(Seq<char>, JsonValue)>, key: Seq<char>, i: int)
    requires
        0 <= i < members.len(),
        members[i].0 == key,
        forall|j: int| 0 <= j < i ==> (#[trigger] members[j]).0 != key,
    ensures
        lookup(members, key) == members[i].1,
    decreases i,
{
    if i > 0 {
        assert(members[0].0 != key);
        let rest = members.drop_first();
        assert forall|j: int| 0 <= j < i - 1 implies (#[trigger] rest[j]).0 != key by {
            assert(rest[j] == members[j + 1]);
        }
        lemma_lookup(rest, key, i - 1);
    }
}

impl JsonValue {
    /// The member of an object under `key`; `Null` where there is none.
    pub open spec fn member(self, key: Seq<char>) -> JsonValue {
        match self {
            JsonValue::Object(members) => lookup(members, key),
            _ => JsonValue::Null,
        }
    }

    /// The item of an array at `index`; `Null` where there is none.
    pub open spec fn item(self, index: int) -> JsonValue {
        match self {
            JsonValue::Array(items) => if 0 <= index < items.len() {
                items[index]
            } else {
                JsonValue::Null
            },
            _ => JsonValue::Null,
        }
    }
}

impl Json {
    /// A JSON string.
    pub fn text(value: String) -> (json: Json)
        ensures
            json@ == JsonValue::Text(value@),
    {
        Json::Text(value)
    }

    /// A JSON number.
    pub fn number(value: u64) -> (json: Json)
        ensures
            json@ == JsonValue::Number(value as nat),
    {
        Json::Number(value)
    }

    /// A JSON array of the given items.
    pub fn array(items: Vec<Json>) -> (json: Json)
        ensures
            json@ == JsonValue::Array(values(items@)),
    {
        Json::Array(items)
    }

    /// A JSON object of the given members, in the given order.
    pub fn object(members: Vec<(String, Json)>) -> (json: Json)
        ensures
            json@ == JsonValue::Object(member_values(members@)),
    {
        Json::Object(members)
    }
}

} // verus!
