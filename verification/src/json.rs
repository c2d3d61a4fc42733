//! JSON values, as far as requests to a model, its replies and log lines need
//! them.

use vstd::prelude::*;
use vstd::string::*;

use crate::text::same_text;

verus! {

/// A JSON value. A number is kept as it is written.
#[derive(Debug)]
pub enum Json {
    Null,
    Bool(bool),
    Number(String),
    Text(String),
    List(Vec<Json>),
    Object(Vec<(String, Json)>),
}

/// A JSON value over sequences of characters.
pub enum JsonView {
    Null,
    Bool(bool),
    Number(Seq<char>),
    Text(Seq<char>),
    List(Seq<JsonView>),
    Object(Seq<(Seq<char>, JsonView)>),
}

impl View for Json {
    type V = JsonView;

    open spec fn view(&self) -> JsonView
        decreases *self,
    {
        match *self {
            Json::Null => JsonView::Null,
            Json::Bool(b) => JsonView::Bool(b),
            Json::Number(n) => JsonView::Number(n@),
            Json::Text(t) => JsonView::Text(t@),
            Json::List(items) => JsonView::List(list_view(items@)),
            Json::Object(members) => JsonView::Object(object_view(members@)),
        }
    }
}

/// The views of some values.
pub open spec fn list_view(items: Seq<Json>) -> Seq<JsonView>
    decreases items,
{
    Seq::new(
        items.len(),
        |i: int|
            if 0 <= i < items.len() {
                items[i].view()
            } else {
                JsonView::Null
            },
    )
}

/// The views of some members.
pub open spec fn object_view(members: Seq<(String, Json)>) -> Seq<(Seq<char>, JsonView)>
    decreases members,
{
    Seq::new(
        members.len(),
        |i: int|
            if 0 <= i < members.len() {
                (members[i].0@, members[i].1.view())
            } else {
                (Seq::empty(), JsonView::Null)
            },
    )
}

/// The value of the first member with a name, or null.
pub open spec fn member_in(members: Seq<(Seq<char>, JsonView)>, name: Seq<char>) -> JsonView
    decreases members.len(),
{
    if members.len() == 0 {
        JsonView::Null
    } else if members[0].0 == name {
        members[0].1
    } else {
        member_in(members.skip(1), name)
    }
}

/// The member of an object with a name; null if there is none or the value is
/// no object.
pub open spec fn member_of(v: JsonView, name: Seq<char>) -> JsonView {
    match v {
        JsonView::Object(members) => member_in(members, name),
        _ => JsonView::Null,
    }
}

/// The item of a list at a position; null if there is none or the value is no
/// list.
pub open spec fn item_of(v: JsonView, at: nat) -> JsonView {
    match v {
        JsonView::List(items) => if at < items.len() {
            items[at as int]
        } else {
            JsonView::Null
        },
        _ => JsonView::Null,
    }
}

/// The text that a value is, if it is one.
pub open spec fn text_in(v: JsonView) -> Option<Seq<char>> {
    match v {
        JsonView::Text(t) => Some(t),
        _ => None,
    }
}

/// A text value.
pub fn text(s: &str) -> (r: Json)
    ensures
        r@ == JsonView::Text(s@),
{
    Json::Text(s.to_owned())
}

impl Json {
    /// The member with a name; null if there is none or this is no object.
    pub fn member(&self, name: &str) -> (r: &Json)
        ensures
            r@ == member_of(self@, name@),
    {
        match self {
            Json::Object(members) => {
                let mut i: usize = 0;
                proof {
                    assert(object_view(members@).skip(0) =~= object_view(members@));
                }
                while i < members.len()
                    invariant
                        i <= members@.len(),
                        self@ == JsonView::Object(object_view(members@)),
                        member_in(object_view(members@), name@) == member_in(
                            object_view(members@).skip(i as int),
                            name@,
                        ),
                    decreases members@.len() - i,
                {
                    let ghost rest = object_view(members@).skip(i as int);
                    assert(rest[0] == (members@[i as int].0@, members@[i as int].1@));
                    if same_text(members[i].0.as_str(), name) {
                        return &members[i].1;
                    }
                    proof {
                        assert(rest.skip(1) =~= object_view(members@).skip(i + 1));
                    }
                    i += 1;
                }
                &Json::Null
            },
            _ => &Json::Null,
        }
    }

    /// The item at a position; null if there is none or this is no list.
    pub fn item(&self, at: usize) -> (r: &Json)
        ensures
            r@ == item_of(self@, at as nat),
    {
        match self {
            Json::List(items) => if at < items.len() {
                &items[at]
            } else {
                &Json::Null
            },
            _ => &Json::Null,
        }
    }

    /// The text that this is, if it is one.
    pub fn as_text(&self) -> (r: Option<String>)
        ensures
            match r {
                Some(t) => text_in(self@) == Some(t@),
                None => text_in(self@) is None,
            },
    {
        match self {
            Json::Text(t) => Some(t.clone()),
            _ => None,
        }
    }
}

/// The object with one member.
pub(crate) fn object_1(a: &str, x: Json) -> (r: Json)
    ensures
        r@ == JsonView::Object(seq![(a@, x@)]),
{
    let mut v: Vec<(String, Json)> = Vec::new();
    v.push((a.to_owned(), x));
    assert(object_view(v@) =~= seq![(a@, x@)]);
    Json::Object(v)
}

/// The object with two members.
pub(crate) fn object_2(a: &str, x: Json, b: &str, y: Json) -> (r: Json)
    ensures
        r@ == JsonView::Object(seq![(a@, x@), (b@, y@)]),
{
    let mut v: Vec<(String, Json)> = Vec::new();
    v.push((a.to_owned(), x));
    v.push((b.to_owned(), y));
    assert(object_view(v@) =~= seq![(a@, x@), (b@, y@)]);
    Json::Object(v)
}

/// An object with one member more, at the end. Anything else stays as it is.
pub(crate) fn with_member(object: Json, name: &str, value: Json) -> (r: Json)
    ensures
        r@ == (match object@ {
            JsonView::Object(members) => JsonView::Object(members.push((name@, value@))),
            other => other,
        }),
{
    match object {
        Json::Object(members) => {
            let ghost before = members@;
            let mut members = members;
            members.push((name.to_owned(), value));
            assert(object_view(members@) =~= object_view(before).push((name@, value@)));
            Json::Object(members)
        },
        other => other,
    }
}

/// The list of one value.
pub(crate) fn list_1(x: Json) -> (r: Json)
    ensures
        r@ == JsonView::List(seq![x@]),
{
    let mut v: Vec<Json> = Vec::new();
    v.push(x);
    assert(list_view(v@) =~= seq![x@]);
    Json::List(v)
}

/// The list of two values.
pub(crate) fn list_2(x: Json, y: Json) -> (r: Json)
    ensures
        r@ == JsonView::List(seq![x@, y@]),
{
    let mut v: Vec<Json> = Vec::new();
    v.push(x);
    v.push(y);
    assert(list_view(v@) =~= seq![x@, y@]);
    Json::List(v)
}

} // verus!
