//! JSON values.
use vstd::prelude::*;

use crate::text::same_text;

verus! {

/// A JSON value. A number is carried as the bit pattern of its double, an object as its
/// members in the order of the text.
#[derive(Debug)]
pub enum Json {
    Null,
    Bool(bool),
    Number(Option<u64>),
    Str(String),
    Array(Vec<Json>),
    Object(Vec<(String, Json)>),
}

/// What a [`Json`] says.
pub enum JsonView {
    Null,
    Bool(bool),
    Number(Option<u64>),
    Str(Seq<char>),
    Array(Seq<JsonView>),
    Object(Seq<(Seq<char>, JsonView)>),
}

/// What a [`Json`] says.
pub open spec fn json_view(j: Json) -> JsonView
    decreases j,
{
    match j {
        Json::Null => JsonView::Null,
        Json::Bool(b) => JsonView::Bool(b),
        Json::Number(n) => JsonView::Number(n),
        Json::Str(s) => JsonView::Str(s@),
        Json::Array(v) => JsonView::Array(
            Seq::new(
                v@.len(),
                |i: int|
                    if 0 <= i < v@.len() {
                        json_view(v@[i])
                    } else {
                        JsonView::Null
                    },
            ),
        ),
        Json::Object(v) => JsonView::Object(
            Seq::new(
                v@.len(),
                |i: int|
                    if 0 <= i < v@.len() {
                        (v@[i].0@, json_view(v@[i].1))
                    } else {
                        (Seq::empty(), JsonView::Null)
                    },
            ),
        ),
    }
}

impl View for Json {
    type V = JsonView;

    open spec fn view(&self) -> JsonView {
        json_view(*self)
    }
}

/// The JSON value of the crate `serde_json_borrow`.
#[verifier::external_type_specification]
#[verifier::external_body]
pub struct ExValue<'a>(serde_json_borrow::Value<'a>);

/// What a value of `serde_json_borrow` says.
pub uninterp spec fn value_view(v: serde_json_borrow::Value<'_>) -> JsonView;

/// What `serde_json` reads out of a text: the value, or the text of its error.
pub uninterp spec fn json_text(text: Seq<char>) -> Result<JsonView, Seq<char>>;

/// `serde_json::from_str` into a value of `serde_json_borrow`, which depends on the text
/// alone.
#[verifier::external_body]
fn parse_value(text: &str) -> (r: Result<serde_json_borrow::Value<'_>, String>)
    ensures
        match r {
            Ok(v) => json_text(text@) == Ok::<JsonView, Seq<char>>(value_view(v)),
            Err(e) => json_text(text@) == Err::<JsonView, Seq<char>>(e@),
        },
{
    serde_json::from_str(text).map_err(|e| e.to_string())
}

/// The value in the crate's own form, variant by variant: `Number::as_f64` gives a number's
/// double, `ObjectAsVec::into_vec` an object's members in their order.
#[verifier::external_body]
fn from_value(v: serde_json_borrow::Value<'_>) -> (r: Json)
    ensures
        r@ == value_view(v),
{
    match v {
        serde_json_borrow::Value::Null => Json::Null,
        serde_json_borrow::Value::Bool(b) => Json::Bool(b),
        serde_json_borrow::Value::Number(n) => Json::Number(n.as_f64().map(|x| x.to_bits())),
        serde_json_borrow::Value::Str(s) => Json::Str(s.into_owned()),
        serde_json_borrow::Value::Array(a) => Json::Array(a.into_iter().map(from_value).collect()),
        serde_json_borrow::Value::Object(o) => Json::Object(
            o.into_vec().into_iter().map(|(k, x)| (k.into_owned(), from_value(x))).collect(),
        ),
    }
}

/// Reads a JSON text.
pub fn parse_json(text: &str) -> (r: Result<Json, String>)
    ensures
        match r {
            Ok(j) => json_text(text@) == Ok::<JsonView, Seq<char>>(j@),
            Err(e) => json_text(text@) == Err::<JsonView, Seq<char>>(e@),
        },
{
    match parse_value(text) {
        Ok(v) => Ok(from_value(v)),
        Err(e) => Err(e),
    }
}

/// The first member of an object with the given key.
pub open spec fn member(members: Seq<(Seq<char>, JsonView)>, key: Seq<char>) -> Option<JsonView>
    decreases members.len(),
{
    if members.len() == 0 {
        None
    } else if members[0].0 == key {
        Some(members[0].1)
    } else {
        member(members.drop_first(), key)
    }
}

/// The members of an object as they are said.
pub open spec fn members_of(v: Seq<(String, Json)>) -> Seq<(Seq<char>, JsonView)> {
    Seq::new(v.len(), |i: int| (v[i].0@, v[i].1@))
}

/// The values of an array as they are said.
pub open spec fn items_of(v: Seq<Json>) -> Seq<JsonView> {
    Seq::new(v.len(), |i: int| v[i]@)
}

/// What an array or an object says, in terms of its parts.
pub proof fn lemma_json_parts(j: Json)
    ensures
        j is Array ==> j@ == JsonView::Array(items_of(j->Array_0@)),
        j is Object ==> j@ == JsonView::Object(members_of(j->Object_0@)),
{
    if j is Array {
        let v = j->Array_0;
        assert(j@->Array_0 =~= items_of(v@));
    }
    if j is Object {
        let v = j->Object_0;
        assert(j@->Object_0 =~= members_of(v@));
    }
}

/// The first member of an object with the given key.
pub fn get_member<'a>(members: &'a Vec<(String, Json)>, key: &str) -> (r: Option<&'a Json>)
    ensures
        match r {
            Some(j) => member(members_of(members@), key@) == Some(j@),
            None => member(members_of(members@), key@) is None,
        },
{
    let ghost all = members_of(members@);
    let mut i: usize = 0;
    assert(all.skip(0) =~= all);
    while i < members.len()
        invariant
            i <= members@.len(),
            all == members_of(members@),
            member(all, key@) == member(all.skip(i as int), key@),
        decreases members@.len() - i,
    {
        let ghost rest = all.skip(i as int);
        assert(rest[0] == all[i as int]);
        assert(rest.drop_first() =~= all.skip(i + 1));
        if same_text(members[i].0.as_str(), key) {
            return Some(&members[i].1);
        }
        i = i + 1;
    }
    None
}

/// The member of an object with a key is the first one that has it.
pub proof fn law_member_is_the_first(
    members: Seq<(Seq<char>, JsonView)>,
    key: Seq<char>,
    i: int,
)
    requires
        forall|k: int| 0 <= k < i && k < members.len() ==> (#[trigger] members[k]).0 != key,
    ensures
        0 <= i < members.len() && members[i].0 == key ==> member(members, key) == Some(
            members[i].1,
        ),
        i >= members.len() ==> member(members, key) is None,
    decreases members.len(),
{
    if members.len() > 0 {
        let rest = members.drop_first();
        if i > 0 {
            assert(members[0].0 != key);
            assert forall|k: int| 0 <= k < i - 1 && k < rest.len() implies (#[trigger] rest[k]).0
                != key by {
                assert(rest[k] == members[k + 1]);
            }
            law_member_is_the_first(rest, key, i - 1);
        }
    }
}

} // verus!
