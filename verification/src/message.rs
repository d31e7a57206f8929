//! Request bodies and replies, as the service reads and writes them: a request
//! body is a JSON value of which only the string members of an object matter,
//! and a reply is the JSON object `{"data": ...}` or `{"message": ...}`.

use vstd::prelude::*;
use crate::store::{lookup, put, NameMap};

verus! {

/// A member of a JSON object: a string, or any other JSON value.
pub enum JsonField {
    Str(String),
    Other,
}

impl View for JsonField {
    type V = Option<Seq<char>>;

    open spec fn view(&self) -> Option<Seq<char>> {
        match self {
            JsonField::Str(s) => Some(s@),
            JsonField::Other => None,
        }
    }
}

/// A request body: a JSON object with its members, or any other JSON value.
pub enum Body {
    Object(NameMap<JsonField>),
    Other,
}

impl View for Body {
    type V = Option<Seq<(Seq<char>, Option<Seq<char>>)>>;

    open spec fn view(&self) -> Option<Seq<(Seq<char>, Option<Seq<char>>)>> {
        match self {
            Body::Object(m) => Some(m@),
            Body::Other => None,
        }
    }
}

/// The string member `key` of the body, if the body is an object that has
/// such a member and its value is a string.
pub open spec fn body_str(body: Option<Seq<(Seq<char>, Option<Seq<char>>)>>, key: Seq<char>) -> Option<
    Seq<char>,
> {
    match body {
        Some(members) => match lookup(members, key) {
            Some(Some(s)) => Some(s),
            _ => None,
        },
        None => None,
    }
}

/// The members of an object written with `ms`, a later member of a name
/// replacing an earlier one.
pub open spec fn object_members(ms: Seq<(Seq<char>, Option<Seq<char>>)>) -> Seq<
    (Seq<char>, Option<Seq<char>>),
>
    decreases ms.len(),
{
    if ms.len() == 0 {
        seq![]
    } else {
        put(object_members(ms.drop_last()), ms.last().0, ms.last().1)
    }
}

/// The number of members of the body, if it is an object.
pub open spec fn body_len(body: Option<Seq<(Seq<char>, Option<Seq<char>>)>>) -> Option<nat> {
    match body {
        Some(members) => Some(members.len()),
        None => None,
    }
}

impl Body {
    /// An object with the given members; a later member replaces an earlier one
    /// of the same name, as in JSON parsing.
    pub fn object(members: Vec<(String, JsonField)>) -> (b: Body)
        ensures
            b@ == Some(object_members(members@.map_values(|e: (String, JsonField)| (e.0@, e.1@)))),
    {
        let ghost all = members@.map_values(|e: (String, JsonField)| (e.0@, e.1@));
        let mut m: NameMap<JsonField> = NameMap::new();
        let mut rest = members;
        let ghost mut done: int = 0;
        assert(all.take(0) =~= seq![]);
        while rest.len() > 0
            invariant
                m.wf(),
                0 <= done <= all.len(),
                rest@.len() == all.len() - done,
                forall|j: int|
                    0 <= j < rest@.len() ==> (#[trigger] rest@[j].0@, rest@[j].1@) == all[done + j],
                m@ == object_members(all.take(done)),
            decreases rest@.len(),
        {
            let ghost before = rest@;
            let (k, v) = rest.remove(0);
            assert((k@, v@) == all[done]);
            assert(all.take(done + 1).drop_last() =~= all.take(done));
            m.insert(k, v);
            proof {
                assert forall|j: int| 0 <= j < rest@.len() implies (#[trigger] rest@[j].0@,
                    rest@[j].1@) == all[done + 1 + j] by {
                    assert(rest@[j] == before[j + 1]);
                }
                done = done + 1;
            }
        }
        assert(all.take(done) =~= all);
        Body::Object(m)
    }

    /// The string member `key`, if there is one.
    pub fn text_member(&self, key: &str) -> (r: Option<&String>)
        ensures
            match r {
                Some(s) => body_str(self@, key@) == Some(s@),
                None => body_str(self@, key@) is None,
            },
    {
        match self {
            Body::Object(m) => match m.get(key) {
                Some(JsonField::Str(s)) => Some(s),
                _ => None,
            },
            Body::Other => None,
        }
    }

    /// The number of members, if the body is an object.
    pub fn member_count(&self) -> (r: Option<usize>)
        ensures
            match r {
                Some(n) => body_len(self@) == Some(n as nat),
                None => body_len(self@) is None,
            },
    {
        match self {
            Body::Object(m) => Some(m.len()),
            Body::Other => None,
        }
    }
}

/// What a reply carries under `data`.
#[derive(PartialEq, Eq, Debug)]
pub enum Data {
    /// `null`.
    Null,
    /// A string.
    Text(String),
    /// An array of names.
    Names(Vec<String>),
    /// `{"username": ...}`.
    Username(String),
    /// `{"token": ..., "expires_in": ...}`: a token and its lifetime in seconds.
    Session(String, u64),
}

/// A reply body: `{"data": ...}` or `{"message": ...}`.
#[derive(PartialEq, Eq, Debug)]
pub enum Reply {
    Data(Data),
    Message(String),
}

/// The view of [`Data`].
pub enum DataView {
    Null,
    Text(Seq<char>),
    Names(Seq<Seq<char>>),
    Username(Seq<char>),
    Session(Seq<char>, u64),
}

/// The view of [`Reply`].
pub enum ReplyView {
    Data(DataView),
    Message(Seq<char>),
}

impl View for Data {
    type V = DataView;

    open spec fn view(&self) -> DataView {
        match self {
            Data::Null => DataView::Null,
            Data::Text(s) => DataView::Text(s@),
            Data::Names(v) => DataView::Names(v@.map_values(|s: String| s@)),
            Data::Username(s) => DataView::Username(s@),
            Data::Session(s, n) => DataView::Session(s@, *n),
        }
    }
}

impl View for Reply {
    type V = ReplyView;

    open spec fn view(&self) -> ReplyView {
        match self {
            Reply::Data(d) => ReplyView::Data(d@),
            Reply::Message(m) => ReplyView::Message(m@),
        }
    }
}

/// An error reply: `status` with `{"message": message}`.
pub fn error(status: u16, message: &str) -> (r: (u16, Reply))
    ensures
        r.0 == status,
        r.1@ == ReplyView::Message(message@),
{
    (status, Reply::Message(message.to_owned()))
}

/// An object's members are in name order.
proof fn lemma_object_members_sorted(ms: Seq<(Seq<char>, Option<Seq<char>>)>)
    ensures
        crate::store::sorted(object_members(ms)),
    decreases ms.len(),
{
    if ms.len() > 0 {
        lemma_object_members_sorted(ms.drop_last());
        crate::store::lemma_put_sorted(object_members(ms.drop_last()), ms.last().0, ms.last().1);
    }
}

/// An object written with members `ms` has a member `k` exactly when some
/// member of `ms` is named `k`, and its value is that of the last such
/// member: a later member of a name replaces an earlier one.
pub proof fn law_later_member_wins(ms: Seq<(Seq<char>, Option<Seq<char>>)>, k: Seq<char>)
    ensures
        lookup(object_members(ms), k) is Some <==> exists|i: int| 0 <= i < ms.len() && #[trigger] ms[i].0 == k,
        lookup(object_members(ms), k) matches Some(v) ==> exists|i: int|
            0 <= i < ms.len() && #[trigger] ms[i] == (k, v) && forall|j: int| i < j < ms.len() ==> ms[j].0 != k,
    decreases ms.len(),
{
    if ms.len() > 0 {
        let init = ms.drop_last();
        law_later_member_wins(init, k);
        lemma_object_members_sorted(init);
        crate::store::lemma_put_lookup(object_members(init), ms.last().0, ms.last().1, k);
        let n = ms.len() - 1;
        if ms.last().0 == k {
            assert(ms[n] == (k, ms.last().1));
        } else {
            if exists|i: int| 0 <= i < init.len() && #[trigger] init[i].0 == k {
                let i = choose|i: int| 0 <= i < init.len() && #[trigger] init[i].0 == k;
                assert(ms[i].0 == k);
            }
            if exists|i: int| 0 <= i < ms.len() && #[trigger] ms[i].0 == k {
                let i = choose|i: int| 0 <= i < ms.len() && #[trigger] ms[i].0 == k;
                assert(i < n);
                assert(init[i].0 == k);
            }
            if lookup(object_members(ms), k) is Some {
                let v = lookup(object_members(ms), k)->Some_0;
                let i = choose|i: int|
                    0 <= i < init.len() && #[trigger] init[i] == (k, v) && forall|j: int| i < j < init.len() ==> init[j].0 != k;
                assert(ms[i] == (k, v));
                assert forall|j: int| i < j < ms.len() implies ms[j].0 != k by {
                    if j < n {
                        assert(ms[j] == init[j]);
                    }
                }
            }
        }
    }
}

} // verus!
