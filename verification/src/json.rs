//! JSON values as the adapter protocol uses them.

use crate::text::{push_str, str_equal};
use vstd::prelude::*;

verus! {

/// A JSON value. Numbers are unsigned 64-bit integers; any other number is
/// `Other`. An object is the list of its members in the order in which they
/// were added; where a name occurs twice, the later member counts.
#[derive(Debug, PartialEq, Eq)]
pub enum Json {
    Null,
    Bool(bool),
    Number(u64),
    /// A number that is no unsigned 64-bit integer.
    Other,
    Text(String),
    Array(Vec<Json>),
    Object(Vec<(String, Json)>),
}

/// A JSON value as a plain value.
pub enum JsonView {
    Null,
    Bool(bool),
    Number(u64),
    Other,
    Text(Seq<char>),
    Array(Seq<JsonView>),
    Object(Seq<(Seq<char>, JsonView)>),
}

impl View for Json {
    type V = JsonView;

    open spec fn view(&self) -> JsonView {
        self.tree()
    }
}

/// The views of the items of an array.
pub open spec fn item_views(items: Seq<Json>) -> Seq<JsonView> {
    Seq::new(items.len(), |i: int| items[i]@)
}

/// The views of the members of an object.
pub open spec fn member_views(members: Seq<(String, Json)>) -> Seq<(Seq<char>, JsonView)> {
    Seq::new(members.len(), |i: int| (members[i].0@, members[i].1@))
}

/// The value of the last member of `members` that is named `name`.
pub open spec fn member(members: Seq<(Seq<char>, JsonView)>, name: Seq<char>) -> Option<JsonView>
    decreases members.len(),
{
    if members.len() == 0 {
        None
    } else if members.last().0 == name {
        Some(members.last().1)
    } else {
        member(members.drop_last(), name)
    }
}

impl JsonView {
    /// Item `i` of an array; `None` for any other value and outside the
    /// array.
    pub open spec fn item(self, i: int) -> Option<JsonView> {
        match self {
            JsonView::Array(items) => if 0 <= i < items.len() {
                Some(items[i])
            } else {
                None
            },
            _ => None,
        }
    }

    /// The text of a string; `None` for any other value.
    pub open spec fn text(self) -> Option<Seq<char>> {
        match self {
            JsonView::Text(t) => Some(t),
            _ => None,
        }
    }

    /// The number of an unsigned integer; `None` for any other value.
    pub open spec fn number(self) -> Option<u64> {
        match self {
            JsonView::Number(n) => Some(n),
            _ => None,
        }
    }

    /// The member `name` of an object; `None` for any other value and where
    /// the object has no such member.
    pub open spec fn field(self, name: Seq<char>) -> Option<JsonView> {
        match self {
            JsonView::Object(members) => member(members, name),
            _ => None,
        }
    }
}

impl Json {
    /// The value as a plain value.
    pub open spec fn tree(&self) -> JsonView
        decreases self,
    {
        match self {
            Json::Null => JsonView::Null,
            Json::Bool(b) => JsonView::Bool(*b),
            Json::Number(n) => JsonView::Number(*n),
            Json::Other => JsonView::Other,
            Json::Text(s) => JsonView::Text(s@),
            Json::Array(items) => JsonView::Array(
                Seq::new(
                    items@.len(),
                    |i: int|
                        if 0 <= i < items@.len() {
                            items@[i].tree()
                        } else {
                            JsonView::Null
                        },
                ),
            ),
            Json::Object(members) => JsonView::Object(
                Seq::new(
                    members@.len(),
                    |i: int|
                        if 0 <= i < members@.len() {
                            (members@[i].0@, members@[i].1.tree())
                        } else {
                            (Seq::empty(), JsonView::Null)
                        },
                ),
            ),
        }
    }

    /// The string with the text of `s`.
    pub fn text(s: &str) -> (j: Json)
        ensures
            j@ == JsonView::Text(s@),
    {
        let mut t: String = String::new();
        push_str(&mut t, s);
        assert(t@ =~= s@);
        Json::Text(t)
    }

    /// The array of `items`.
    pub fn array(items: Vec<Json>) -> (j: Json)
        ensures
            j@ == JsonView::Array(item_views(items@)),
    {
        let j = Json::Array(items);
        assert(j@->Array_0 =~= item_views(items@));
        j
    }

    /// The object with `members`.
    pub fn object(members: Vec<(String, Json)>) -> (j: Json)
        ensures
            j@ == JsonView::Object(member_views(members@)),
    {
        let j = Json::Object(members);
        assert(j@->Object_0 =~= member_views(members@));
        j
    }

    /// The number `n`, or null where there is none.
    pub fn number_or_null(n: Option<usize>) -> (j: Json)
        ensures
            j@ == match n {
                Some(v) => JsonView::Number(v as u64),
                None => JsonView::Null,
            },
    {
        match n {
            Some(v) => Json::Number(v as u64),
            None => Json::Null,
        }
    }

    /// Item `i` of an array.
    pub fn get_index(&self, i: usize) -> (item: Option<&Json>)
        ensures
            match item {
                Some(j) => self@.item(i as int) == Some(j@),
                None => self@.item(i as int) is None,
            },
    {
        match self {
            Json::Array(items) => {
                if i < items.len() {
                    Some(&items[i])
                } else {
                    None
                }
            },
            _ => None,
        }
    }

    /// The text of a string.
    pub fn as_str(&self) -> (text: Option<&str>)
        ensures
            match text {
                Some(t) => self@.text() == Some(t@),
                None => self@.text() is None,
            },
    {
        match self {
            Json::Text(s) => Some(s.as_str()),
            _ => None,
        }
    }

    /// The number of an unsigned integer.
    pub fn as_u64(&self) -> (n: Option<u64>)
        ensures
            n == self@.number(),
    {
        match self {
            Json::Number(n) => Some(*n),
            _ => None,
        }
    }

    /// Whether the value is an object.
    pub fn is_object(&self) -> (b: bool)
        ensures
            b == (self@ is Object),
    {
        match self {
            Json::Object(_) => true,
            _ => false,
        }
    }

    /// The member `name` of an object.
    #[verifier::rlimit(50)]
    pub fn get_field(&self, name: &str) -> (value: Option<&Json>)
        ensures
            match value {
                Some(j) => self@.field(name@) == Some(j@),
                None => self@.field(name@) is None,
            },
    {
        match self {
            Json::Object(members) => {
                let ghost views = member_views(members@);
                assert(self@->Object_0 =~= views);
                assert(views.subrange(0, members.len() as int) =~= views);
                let mut i: usize = members.len();
                while i > 0
                    invariant
                        i <= members.len(),
                        views == member_views(members@),
                        self@ == JsonView::Object(views),
                        member(views, name@) == member(views.subrange(0, i as int), name@),
                    decreases i,
                {
                    i = i - 1;
                    proof {
                        let upto = views.subrange(0, i + 1);
                        assert(upto.drop_last() =~= views.subrange(0, i as int));
                        assert(upto.last() == views[i as int]);
                    }
                    if str_equal(members[i].0.as_str(), name) {
                        return Some(&members[i].1);
                    }
                }
                assert(views.subrange(0, 0) =~= Seq::<(Seq<char>, JsonView)>::empty());
                None
            },
            _ => None,
        }
    }
}

/// Adds the member `name` with `value` at the end of `members`.
pub fn put(members: &mut Vec<(String, Json)>, name: &str, value: Json)
    ensures
        member_views(final(members)@) == member_views(old(members)@).push((name@, value@)),
{
    let mut key: String = String::new();
    push_str(&mut key, name);
    assert(key@ =~= name@);
    members.push((key, value));
    assert(member_views(members@) =~= member_views(old(members)@).push((name@, value@)));
}

/// Adds `item` at the end of `items`.
pub fn append_item(items: &mut Vec<Json>, item: Json)
    ensures
        item_views(final(items)@) == item_views(old(items)@).push(item@),
{
    items.push(item);
    assert(item_views(items@) =~= item_views(old(items)@).push(item@));
}

} // verus!
