//! Frames of the certificate stream.
use vstd::prelude::*;
use vstd::utf8::{decode_utf8, valid_utf8};

use crate::error::{ParseError, ParseErrorView};
use crate::event::{FrameMeta, MetaView};
use crate::json::{
    get_member, items_of, json_text, lemma_json_parts, member, members_of, parse_json, Json,
    JsonView,
};
use crate::text::{opt_text, same_text, texts};

verus! {

/// Names and light metadata of a certificate update. Has no PEM, no chain, and none of the
/// other fields of a frame.
#[derive(Clone, Debug, PartialEq, Eq)]
pub struct LeafDomains {
    pub domains: Vec<String>,
    pub seen: Option<u64>,
    pub source: Option<String>,
    pub fingerprint: Option<String>,
}

/// What a [`LeafDomains`] says.
#[verifier::ext_equal]
pub struct LeafView {
    pub domains: Seq<Seq<char>>,
    pub meta: MetaView,
}

impl View for LeafDomains {
    type V = LeafView;

    open spec fn view(&self) -> LeafView {
        LeafView {
            domains: texts(self.domains@),
            meta: MetaView {
                seen: self.seen,
                source: opt_text(self.source),
                fingerprint: opt_text(self.fingerprint),
            },
        }
    }
}

impl LeafDomains {
    /// The metadata.
    pub fn meta(&self) -> (r: FrameMeta<'_>)
        ensures
            r@ == self@.meta,
    {
        FrameMeta {
            seen: self.seen,
            source: match &self.source {
                Some(s) => Some(s.as_str()),
                None => None,
            },
            fingerprint: match &self.fingerprint {
                Some(s) => Some(s.as_str()),
                None => None,
            },
        }
    }
}

/// What an optional leaf says.
pub open spec fn opt_leaf(l: Option<LeafDomains>) -> Option<LeafView> {
    match l {
        Some(d) => Some(d@),
        None => None,
    }
}

/// What a frame says: a leaf, nothing of interest, or an error.
pub type FrameView = Result<Option<LeafView>, ParseErrorView>;

/// Whether the result of reading a frame is the given one.
pub open spec fn same_frame(r: Result<Option<LeafDomains>, ParseError>, f: FrameView) -> bool {
    match r {
        Ok(l) => f == Ok::<Option<LeafView>, ParseErrorView>(opt_leaf(l)),
        Err(e) => f == Err::<Option<LeafView>, ParseErrorView>(e@),
    }
}

/// The text of a member that is a string.
pub open spec fn text_member(members: Seq<(Seq<char>, JsonView)>, key: Seq<char>) -> Option<
    Seq<char>,
> {
    match member(members, key) {
        Some(JsonView::Str(s)) => Some(s),
        _ => None,
    }
}

/// A frame that cannot be read.
pub open spec fn malformed(why: Seq<char>) -> FrameView {
    Err(ParseErrorView::Malformed(why))
}

/// What the root value of a frame says.
pub open spec fn frame_of(root: JsonView) -> FrameView {
    match root {
        JsonView::Object(m) => if text_member(m, "message_type"@) != Some(
            "certificate_update"@,
        ) {
            Ok(None)
        } else {
            match member(m, "data"@) {
                None => Ok(None),
                Some(JsonView::Null) => Ok(None),
                Some(JsonView::Object(data)) => frame_of_data(data),
                Some(_) => malformed("data is not an object"@),
            }
        },
        _ => malformed("root is not a JSON object"@),
    }
}

/// What the data of a certificate update says.
pub open spec fn frame_of_data(data: Seq<(Seq<char>, JsonView)>) -> FrameView {
    match member(data, "leaf_cert"@) {
        None => Ok(None),
        Some(JsonView::Null) => Ok(None),
        Some(JsonView::Object(leaf)) => match member(leaf, "all_domains"@) {
            None => Ok(None),
            Some(JsonView::Null) => malformed("all_domains is null"@),
            Some(JsonView::Array(items)) => if items.len() == 0 {
                Ok(None)
            } else if exists|i: int| 0 <= i < items.len() && !(#[trigger] items[i] is Str) {
                malformed("all_domains entry is not a string"@)
            } else {
                Ok(
                    Some(
                        LeafView {
                            domains: Seq::new(items.len(), |i: int| items[i]->Str_0),
                            meta: MetaView {
                                seen: match member(data, "seen"@) {
                                    Some(JsonView::Number(n)) => n,
                                    _ => None,
                                },
                                source: match member(data, "source"@) {
                                    Some(JsonView::Object(src)) => text_member(src, "name"@),
                                    _ => None,
                                },
                                fingerprint: text_member(leaf, "fingerprint"@),
                            },
                        },
                    ),
                )
            },
            Some(_) => malformed("all_domains has the wrong type"@),
        },
        Some(_) => malformed("leaf_cert is not an object"@),
    }
}

/// What the bytes of a frame say.
pub open spec fn frame_of_bytes(bytes: Seq<u8>) -> FrameView {
    if !valid_utf8(bytes) {
        Err(ParseErrorView::InvalidUtf8)
    } else {
        match json_text(decode_utf8(bytes)) {
            Ok(root) => frame_of(root),
            Err(e) => Err(ParseErrorView::Json(e)),
        }
    }
}

/// `std::str::from_utf8` gives the text whose UTF-8 form the bytes are, and an error where
/// they are not valid UTF-8.
#[verifier::external_body]
fn utf8_text(bytes: &[u8]) -> (r: Option<&str>)
    ensures
        r is Some <==> valid_utf8(bytes@),
        r is Some ==> r->0@ == decode_utf8(bytes@),
{
    std::str::from_utf8(bytes).ok()
}

/// Reads one text frame of the stream.
///
/// A certificate update with at least one name gives its leaf. A heartbeat, another message
/// type, or a missing leaf or name list gives nothing. Broken JSON, broken UTF-8 or a name
/// list of the wrong type gives an error.
pub fn parse_certstream_frame(bytes: &[u8]) -> (r: Result<Option<LeafDomains>, ParseError>)
    ensures
        same_frame(r, frame_of_bytes(bytes@)),
{
    match utf8_text(bytes) {
        None => Err(ParseError::InvalidUtf8),
        Some(text) => match parse_json(text) {
            Err(e) => Err(ParseError::Json(e)),
            Ok(root) => leaf_of_frame(&root),
        },
    }
}

/// The text of a member that is a string.
fn text_of_member(members: &Vec<(String, Json)>, key: &str) -> (r: Option<String>)
    ensures
        opt_text(r) == text_member(members_of(members@), key@),
{
    match get_member(members, key) {
        Some(Json::Str(s)) => Some(s.clone()),
        _ => None,
    }
}

/// Reads the root value of a frame.
pub fn leaf_of_frame(root: &Json) -> (r: Result<Option<LeafDomains>, ParseError>)
    ensures
        same_frame(r, frame_of(root@)),
{
    proof {
        lemma_json_parts(*root);
    }
    let obj = match root {
        Json::Object(m) => m,
        _ => {
            return Err(ParseError::Malformed("root is not a JSON object"));
        },
    };
    let update = match text_of_member(obj, "message_type") {
        Some(t) => same_text(t.as_str(), "certificate_update"),
        None => false,
    };
    if !update {
        return Ok(None);
    }
    match get_member(obj, "data") {
        None => Ok(None),
        Some(data) => {
            proof {
                lemma_json_parts(*data);
            }
            match data {
                Json::Null => Ok(None),
                Json::Object(m) => leaf_of_data(m),
                _ => Err(ParseError::Malformed("data is not an object")),
            }
        },
    }
}

/// Reads the data of a certificate update.
fn leaf_of_data(data: &Vec<(String, Json)>) -> (r: Result<Option<LeafDomains>, ParseError>)
    ensures
        same_frame(r, frame_of_data(members_of(data@))),
{
    let leaf = match get_member(data, "leaf_cert") {
        None => {
            return Ok(None);
        },
        Some(leaf) => leaf,
    };
    proof {
        lemma_json_parts(*leaf);
    }
    let leaf = match leaf {
        Json::Null => {
            return Ok(None);
        },
        Json::Object(m) => m,
        _ => {
            return Err(ParseError::Malformed("leaf_cert is not an object"));
        },
    };
    let list = match get_member(leaf, "all_domains") {
        None => {
            return Ok(None);
        },
        Some(list) => list,
    };
    proof {
        lemma_json_parts(*list);
    }
    let items = match list {
        Json::Null => {
            return Err(ParseError::Malformed("all_domains is null"));
        },
        Json::Array(items) => items,
        _ => {
            return Err(ParseError::Malformed("all_domains has the wrong type"));
        },
    };
    if items.len() == 0 {
        return Ok(None);
    }
    let domains = match all_texts(items) {
        Some(domains) => domains,
        None => {
            return Err(ParseError::Malformed("all_domains entry is not a string"));
        },
    };
    let fingerprint = text_of_member(leaf, "fingerprint");
    let seen = match get_member(data, "seen") {
        Some(Json::Number(n)) => *n,
        _ => None,
    };
    let source = match get_member(data, "source") {
        Some(src) => {
            proof {
                lemma_json_parts(*src);
            }
            match src {
                Json::Object(m) => text_of_member(m, "name"),
                _ => None,
            }
        },
        None => None,
    };
    let leaf = LeafDomains { domains, seen, source, fingerprint };
    Ok(Some(leaf))
}

/// The texts of an array of strings; none where an item is not a string.
fn all_texts(items: &Vec<Json>) -> (r: Option<Vec<String>>)
    ensures
        ({
            let views = items_of(items@);
            match r {
                Some(v) => !(exists|i: int| 0 <= i < views.len() && !(#[trigger] views[i] is Str))
                    && texts(v@) == Seq::new(views.len(), |i: int| views[i]->Str_0),
                None => exists|i: int| 0 <= i < views.len() && !(#[trigger] views[i] is Str),
            }
        }),
{
    let ghost views = items_of(items@);
    let mut v: Vec<String> = Vec::new();
    for i in 0..items.len()
        invariant
            views == items_of(items@),
            texts(v@) == Seq::new(i as nat, |k: int| views[k]->Str_0),
            forall|k: int| 0 <= k < i ==> (#[trigger] views[k]) is Str,
    {
        let ghost before = texts(v@);
        match &items[i] {
            Json::Str(s) => {
                v.push(s.clone());
                assert(views[i as int] == JsonView::Str(s@));
                assert(texts(v@) =~= before.push(s@));
                assert(texts(v@) =~= Seq::new((i + 1) as nat, |k: int| views[k]->Str_0));
            },
            _ => {
                assert(!(views[i as int] is Str));
                return None;
            },
        }
    }
    Some(v)
}

/// A leaf always has a name.
pub proof fn law_leaf_has_names(root: JsonView)
    ensures
        match frame_of(root) {
            Ok(Some(leaf)) => leaf.domains.len() > 0,
            _ => true,
        },
{
}

/// Only a certificate update is read: of every other message nothing is taken, whatever it
/// holds, and none is an error.
pub proof fn law_other_messages_are_ignored(members: Seq<(Seq<char>, JsonView)>)
    requires
        text_member(members, "message_type"@) != Some("certificate_update"@),
    ensures
        frame_of(JsonView::Object(members)) == Ok::<Option<LeafView>, ParseErrorView>(None),
{
}

/// Of the message itself only its type and its data matter, and of the data only the leaf,
/// the timestamp and the source: name lists elsewhere, such as beside the leaf or in the
/// chain, are never read.
pub proof fn law_only_the_leaf_is_read(
    a: Seq<(Seq<char>, JsonView)>,
    b: Seq<(Seq<char>, JsonView)>,
)
    ensures
        member(a, "message_type"@) == member(b, "message_type"@) && member(a, "data"@) == member(
            b,
            "data"@,
        ) ==> frame_of(JsonView::Object(a)) == frame_of(JsonView::Object(b)),
        member(a, "leaf_cert"@) == member(b, "leaf_cert"@) && member(a, "seen"@) == member(
            b,
            "seen"@,
        ) && member(a, "source"@) == member(b, "source"@) ==> frame_of_data(a) == frame_of_data(
            b,
        ),
{
}

/// Bytes that are not UTF-8, or not JSON, are errors.
pub proof fn law_broken_frames_are_errors(bytes: Seq<u8>)
    requires
        !valid_utf8(bytes) || json_text(decode_utf8(bytes)) is Err,
    ensures
        frame_of_bytes(bytes) is Err,
{
}

/// Every certificate update with names is read, whatever else stands in the message, its
/// data or its leaf: the leaf has exactly those names in order, the timestamp and the name of
/// the source that the data has, and the fingerprint that the leaf has.
pub proof fn law_every_update_is_read(
    message: Seq<(Seq<char>, JsonView)>,
    data: Seq<(Seq<char>, JsonView)>,
    leaf: Seq<(Seq<char>, JsonView)>,
    items: Seq<JsonView>,
)
    requires
        member(message, "message_type"@) == Some(JsonView::Str("certificate_update"@)),
        member(message, "data"@) == Some(JsonView::Object(data)),
        member(data, "leaf_cert"@) == Some(JsonView::Object(leaf)),
        member(leaf, "all_domains"@) == Some(JsonView::Array(items)),
        items.len() > 0,
        forall|i: int| 0 <= i < items.len() ==> (#[trigger] items[i]) is Str,
    ensures
        ({
            let frame = frame_of(JsonView::Object(message));
            &&& frame is Ok && frame->Ok_0 is Some
            &&& ({
                let l = frame->Ok_0->0;
                &&& l.domains.len() == items.len()
                &&& forall|i: int|
                    0 <= i < items.len() ==> JsonView::Str(#[trigger] l.domains[i]) == items[i]
                &&& match member(data, "seen"@) {
                    Some(JsonView::Number(n)) => l.meta.seen == n,
                    _ => l.meta.seen is None,
                }
                &&& match member(data, "source"@) {
                    Some(JsonView::Object(source)) => match member(source, "name"@) {
                        Some(JsonView::Str(name)) => l.meta.source == Some(name),
                        _ => l.meta.source is None,
                    },
                    _ => l.meta.source is None,
                }
                &&& match member(leaf, "fingerprint"@) {
                    Some(JsonView::Str(fp)) => l.meta.fingerprint == Some(fp),
                    _ => l.meta.fingerprint is None,
                }
            })
        }),
{
}

/// What is not a leaf with names is nothing or an error: nothing for another message, for no
/// data, no leaf and no or an empty list of names, and an error for a root, data, leaf, list
/// or name of the wrong type.
pub proof fn law_what_is_not_a_leaf(root: JsonView)
    ensures
        !(root is Object) ==> frame_of(root) is Err,
        root is Object ==> ({
            let message = root->Object_0;
            let update = member(message, "message_type"@) == Some(
                JsonView::Str("certificate_update"@),
            );
            let data = member(message, "data"@);
            let nothing = Ok::<Option<LeafView>, ParseErrorView>(None);
            &&& !update ==> frame_of(root) == nothing
            &&& update && (data is None || data == Some(JsonView::Null)) ==> frame_of(root)
                == nothing
            &&& update && data is Some && data->0 is Bool ==> frame_of(root) is Err
            &&& update && data is Some && data->0 is Number ==> frame_of(root) is Err
            &&& update && data is Some && data->0 is Str ==> frame_of(root) is Err
            &&& update && data is Some && data->0 is Array ==> frame_of(root) is Err
            &&& update && data is Some && data->0 is Object ==> ({
                let leaf = member(data->0->Object_0, "leaf_cert"@);
                &&& leaf is None || leaf == Some(JsonView::Null) ==> frame_of(root) == nothing
                &&& leaf is Some && !(leaf->0 is Null) && !(leaf->0 is Object) ==> frame_of(
                    root,
                ) is Err
                &&& leaf is Some && leaf->0 is Object ==> ({
                    let list = member(leaf->0->Object_0, "all_domains"@);
                    &&& list is None ==> frame_of(root) == nothing
                    &&& list is Some && !(list->0 is Array) ==> frame_of(root) is Err
                    &&& list is Some && list->0 is Array && list->0->Array_0.len() == 0
                        ==> frame_of(root) == nothing
                    &&& list is Some && list->0 is Array && (exists|i: int|
                        0 <= i < list->0->Array_0.len() && !(
                        #[trigger] list->0->Array_0[i] is Str)) ==> frame_of(root) is Err
                })
            })
        }),
{
}

/// A frame is what its JSON says; text that is no JSON is that error, and bytes that are no
/// text are another.
pub proof fn law_frame_is_its_json(bytes: Seq<u8>)
    ensures
        !valid_utf8(bytes) ==> frame_of_bytes(bytes) == Err::<Option<LeafView>, ParseErrorView>(
            ParseErrorView::InvalidUtf8,
        ),
        valid_utf8(bytes) ==> match json_text(decode_utf8(bytes)) {
            Ok(root) => frame_of_bytes(bytes) == frame_of(root),
            Err(why) => frame_of_bytes(bytes) == Err::<Option<LeafView>, ParseErrorView>(
                ParseErrorView::Json(why),
            ),
        },
{
}

} // verus!
