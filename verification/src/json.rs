//! JSON documents as they go to and come from the homeserver.

use crate::text::same_text;
use vstd::prelude::*;

verus! {

/// A JSON document. A number is kept as it is written; the members of an
/// object stand in the order in which they are walked.
#[derive(Debug, PartialEq, Eq)]
pub enum Json {
    Null,
    Bool(bool),
    Number(String),
    Text(String),
    Array(Vec<Json>),
    Object(Vec<(String, Json)>),
}

/// A JSON document as the specifications see it.
pub enum JsonView {
    Null,
    Bool(bool),
    Number(Seq<char>),
    Text(Seq<char>),
    Array(Seq<JsonView>),
    Object(Seq<(Seq<char>, JsonView)>),
}

/// The document that `j` holds.
pub open spec fn json_view(j: Json) -> JsonView
    decreases j,
{
    match j {
        Json::Null => JsonView::Null,
        Json::Bool(b) => JsonView::Bool(b),
        Json::Number(n) => JsonView::Number(n@),
        Json::Text(s) => JsonView::Text(s@),
        Json::Array(items) => JsonView::Array(
            Seq::new(
                items@.len(),
                |i: int|
                    if 0 <= i < items@.len() {
                        json_view(items@[i])
                    } else {
                        JsonView::Null
                    },
            ),
        ),
        Json::Object(members) => JsonView::Object(
            Seq::new(
                members@.len(),
                |i: int|
                    if 0 <= i < members@.len() {
                        (members@[i].0@, json_view(members@[i].1))
                    } else {
                        (Seq::empty(), JsonView::Null)
                    },
            ),
        ),
    }
}

impl View for Json {
    type V = JsonView;

    open spec fn view(&self) -> JsonView {
        json_view(*self)
    }
}

/// The value of the first member called `key`, or `null`.
pub open spec fn member(members: Seq<(Seq<char>, JsonView)>, key: Seq<char>) -> JsonView
    decreases members.len(),
{
    if members.len() == 0 {
        JsonView::Null
    } else if members[0].0 == key {
        members[0].1
    } else {
        member(members.skip(1), key)
    }
}

/// Some member is called `key`.
pub open spec fn has_member(members: Seq<(Seq<char>, JsonView)>, key: Seq<char>) -> bool {
    exists|i: int| 0 <= i < members.len() && (#[trigger] members[i]).0 == key
}

/// The members of an object, as the specifications see them.
pub open spec fn members_view(members: Seq<(String, Json)>) -> Seq<(Seq<char>, JsonView)> {
    members.map_values(|m: (String, Json)| (m.0@, m.1@))
}

impl JsonView {
    /// What stands under `key`: `null` where there is no such member, or where
    /// the document is no object.
    pub open spec fn field(self, key: Seq<char>) -> JsonView {
        match self {
            JsonView::Object(members) => member(members, key),
            _ => JsonView::Null,
        }
    }

    /// The text, if the document is one.
    pub open spec fn text(self) -> Option<Seq<char>> {
        match self {
            JsonView::Text(s) => Some(s),
            _ => None,
        }
    }

    /// The text, or `default` if the document is none.
    pub open spec fn text_or(self, default: Seq<char>) -> Seq<char> {
        match self {
            JsonView::Text(s) => s,
            _ => default,
        }
    }

    /// The members, if the document is an object.
    pub open spec fn members(self) -> Option<Seq<(Seq<char>, JsonView)>> {
        match self {
            JsonView::Object(members) => Some(members),
            _ => None,
        }
    }

    /// The items, if the document is an array.
    pub open spec fn items(self) -> Option<Seq<JsonView>> {
        match self {
            JsonView::Array(items) => Some(items),
            _ => None,
        }
    }
}

impl Json {
    /// What stands under `key`, if the document is an object with that member.
    pub fn get(&self, key: &str) -> (r: Option<&Json>)
        ensures
            r matches Some(j) ==> j@ == self@.field(key@),
            r is Some <==> (self@ is Object && has_member(self@->Object_0, key@)),
            r is None ==> self@.field(key@) == JsonView::Null,
    {
        match self {
            Json::Object(list) => {
                let ghost members = self@->Object_0;
                assert(members.skip(0) =~= members);
                for i in 0..list.len()
                    invariant
                        self@ == JsonView::Object(members),
                        *self == Json::Object(*list),
                        members.len() == list@.len(),
                        member(members, key@) == member(members.skip(i as int), key@),
                        forall|j: int| 0 <= j < i ==> (#[trigger] members[j]).0 != key@,
                {
                    let entry = &list[i];
                    assert(members[i as int] == (entry.0@, entry.1@));
                    assert(members.skip(i as int).skip(1) =~= members.skip(i + 1));
                    if same_text(entry.0.as_str(), key) {
                        return Some(&entry.1);
                    }
                }
                None
            },
            _ => None,
        }
    }

    /// An object with the given members.
    pub fn object(members: Vec<(String, Json)>) -> (r: Json)
        ensures
            r@ == JsonView::Object(members_view(members@)),
    {
        let r = Json::Object(members);
        assert(r@->Object_0 =~= members_view(members@));
        r
    }

    /// The text, if the document is one.
    pub fn as_text(&self) -> (r: Option<&str>)
        ensures
            r is Some <==> self@.text() is Some,
            r matches Some(s) ==> self@.text() == Some(s@),
    {
        match self {
            Json::Text(s) => Some(s.as_str()),
            _ => None,
        }
    }

    /// The text under `key`, if there is one.
    pub fn text_at(&self, key: &str) -> (r: Option<&str>)
        ensures
            r is Some <==> self@.field(key@).text() is Some,
            r matches Some(s) ==> self@.field(key@).text() == Some(s@),
    {
        match self.get(key) {
            Some(j) => j.as_text(),
            None => None,
        }
    }
}

/// A copy of the document.
pub fn copy_json(j: &Json) -> (r: Json)
    ensures
        r@ == j@,
    decreases j,
{
    match j {
        Json::Null => Json::Null,
        Json::Bool(b) => Json::Bool(*b),
        Json::Number(n) => Json::Number(n.clone()),
        Json::Text(s) => Json::Text(s.clone()),
        Json::Array(items) => {
            let mut out: Vec<Json> = Vec::new();
            for i in 0..items.len()
                invariant
                    *j == Json::Array(*items),
                    out@.len() == i,
                    forall|k: int| 0 <= k < i ==> (#[trigger] out@[k])@ == items@[k]@,
            {
                assert(decreases_to!(*j => j->Array_0));
                assert(decreases_to!(*items => items@));
                assert(decreases_to!(items@ => items@[i as int]));
                out.push(copy_json(&items[i]));
            }
            let r = Json::Array(out);
            assert(r@->Array_0 =~= j@->Array_0);
            r
        },
        Json::Object(members) => {
            let mut out: Vec<(String, Json)> = Vec::new();
            for i in 0..members.len()
                invariant
                    *j == Json::Object(*members),
                    out@.len() == i,
                    forall|k: int|
                        0 <= k < i ==> (#[trigger] out@[k]).0@ == members@[k].0@ && out@[k].1@
                            == members@[k].1@,
            {
                assert(decreases_to!(*j => j->Object_0));
                assert(decreases_to!(*members => members@));
                assert(decreases_to!(members@ => members@[i as int]));
                assert(decreases_to!(members@[i as int] => members@[i as int].1));
                out.push((members[i].0.clone(), copy_json(&members[i].1)));
            }
            let r = Json::Object(out);
            assert(r@->Object_0 =~= j@->Object_0);
            r
        },
    }
}

/// A member with a text.
pub fn text_member(key: &str, value: &str) -> (r: (String, Json))
    ensures
        r.0@ == key@,
        r.1@ == JsonView::Text(value@),
{
    (key.to_string(), Json::Text(value.to_string()))
}

/// A field is the first member of its name, and `null` where there is none.
pub proof fn law_field_is_the_first_member_of_its_name(
    key: Seq<char>,
    value: JsonView,
    rest: Seq<(Seq<char>, JsonView)>,
    other: Seq<char>,
)
    ensures
        JsonView::Object(seq![(key, value)] + rest).field(key) == value,
        other != key ==> JsonView::Object(seq![(key, value)] + rest).field(other)
            == JsonView::Object(rest).field(other),
        JsonView::Object(seq![]).field(key) == JsonView::Null,
        value !is Object ==> value.field(key) == JsonView::Null,
{
    let members = seq![(key, value)] + rest;
    assert(members[0] == (key, value));
    assert(members.skip(1) =~= rest);
}

/// Each kind of document gives what it holds, and no other kind does.
pub proof fn law_documents_give_what_they_hold(j: JsonView, default: Seq<char>)
    ensures
        j matches JsonView::Text(s) ==> j.text() == Some(s) && j.text_or(default) == s,
        j !is Text ==> j.text() is None && j.text_or(default) == default,
        j matches JsonView::Object(members) ==> j.members() == Some(members),
        j !is Object ==> j.members() is None,
        j matches JsonView::Array(items) ==> j.items() == Some(items),
        j !is Array ==> j.items() is None,
{
}

/// A document is seen as what it holds, part by part.
pub proof fn law_documents_are_seen_part_by_part(j: Json)
    ensures
        j is Null <==> j@ is Null,
        j matches Json::Bool(b) ==> j@ == JsonView::Bool(b),
        j matches Json::Number(n) ==> j@ == JsonView::Number(n@),
        j matches Json::Text(s) ==> j@ == JsonView::Text(s@),
        j matches Json::Array(items) ==> j@ is Array && j@->Array_0.len() == items@.len()
            && forall|i: int|
            0 <= i < items@.len() ==> #[trigger] j@->Array_0[i] == items@[i]@,
        j matches Json::Object(list) ==> j@ is Object && j@->Object_0.len() == list@.len()
            && forall|i: int|
            0 <= i < list@.len() ==> #[trigger] j@->Object_0[i] == (list@[i].0@, list@[i].1@),
{
}

} // verus!
