//! Reading and writing the JSON text of tool-call arguments, through
//! `serde_json`.
use vstd::prelude::*;

verus! {

/// The top level of a JSON text, as far as the runtime reads it: whether it
/// parses at all, and for an object its members, each with its string value
/// when that value is a JSON string.
pub enum JsonTop {
    Invalid,
    NotObject,
    Object(Vec<(String, Option<String>)>),
}

/// Mathematical form of [`JsonTop`].
pub enum JsonTopView {
    Invalid,
    NotObject,
    Object(Seq<(Seq<char>, Option<Seq<char>>)>),
}

pub open spec fn member_view(m: (String, Option<String>)) -> (Seq<char>, Option<Seq<char>>) {
    (m.0@, match m.1 { Some(v) => Some(v@), None => None })
}

impl View for JsonTop {
    type V = JsonTopView;

    open spec fn view(&self) -> JsonTopView {
        match self {
            JsonTop::Invalid => JsonTopView::Invalid,
            JsonTop::NotObject => JsonTopView::NotObject,
            JsonTop::Object(m) => JsonTopView::Object(m@.map_values(|e: (String, Option<String>)| member_view(e))),
        }
    }
}

/// What `serde_json::from_str::<serde_json::Value>` makes of `text`, read as
/// a [`JsonTopView`].
pub uninterp spec fn json_top_of(text: Seq<char>) -> JsonTopView;

/// The text that `serde_json` writes for an object whose members are the
/// given keys with string values.
pub uninterp spec fn json_object_text(entries: Seq<(Seq<char>, Seq<char>)>) -> Seq<char>;

pub open spec fn pair_views(v: Seq<(String, String)>) -> Seq<(Seq<char>, Seq<char>)> {
    v.map_values(|e: (String, String)| (e.0@, e.1@))
}

/// No key occurs twice.
pub open spec fn distinct_keys(v: Seq<(Seq<char>, Seq<char>)>) -> bool {
    forall|i: int, j: int| 0 <= i < v.len() && 0 <= j < v.len() && i != j ==> v[i].0 != v[j].0
}

/// Parses `text` with `serde_json::from_str::<serde_json::Value>` and reads
/// the top level of the result: `Invalid` when parsing fails, the members of
/// an object (with the string value of each member whose value is a JSON
/// string), or `NotObject`. The contract claims only that the result is a
/// function of the text (named by `json_top_of`).
#[verifier::external_body]
pub fn parse_json_top(text: &str) -> (r: JsonTop)
    ensures
        r@ == json_top_of(text@),
{
    match serde_json::from_str::<serde_json::Value>(text) {
        Err(_) => JsonTop::Invalid,
        Ok(serde_json::Value::Object(map)) => JsonTop::Object(
            map.into_iter().map(|(k, v)| match v {
                serde_json::Value::String(s) => (k, Some(s)),
                _ => (k, None),
            }).collect(),
        ),
        Ok(_) => JsonTop::NotObject,
    }
}

/// Writes, with `serde_json` (`Value::Object` of a `serde_json::Map` of
/// `Value::String`s, then `to_string`), a JSON object with the given members.
/// The contract claims that the text is a function of the members (named by
/// `json_object_text`) and that `serde_json` reads it back as an object that
/// has each of those members with its string value, when no key repeats.
#[verifier::external_body]
pub fn render_json_object(entries: &Vec<(String, String)>) -> (r: String)
    ensures
        r@ == json_object_text(pair_views(entries@)),
        distinct_keys(pair_views(entries@)) ==> (json_top_of(r@) matches JsonTopView::Object(members)
            && forall|i: int| 0 <= i < entries@.len() ==> members.contains(
                (#[trigger] entries@[i].0@, Some(entries@[i].1@)),
            )),
{
    let map: serde_json::Map<String, serde_json::Value> = entries
        .iter()
        .map(|(k, v)| (k.clone(), serde_json::Value::String(v.clone())))
        .collect();
    serde_json::Value::Object(map).to_string()
}

} // verus!
