use vstd::prelude::*;
use crate::context::{JsonValue, JsonValueView};
use crate::text::str_eq;

verus! {

/// A parsed JSON document. A number is held as the text that serde_json
/// writes for it; an object keeps its members in the order of its map.
#[derive(Debug)]
pub enum JsonTree {
    Null,
    Bool(bool),
    Number(String),
    Text(String),
    Array(Vec<JsonTree>),
    Object(Vec<(String, JsonTree)>),
}

/// A [`JsonTree`] with its texts taken as character sequences.
pub enum JsonTreeView {
    Null,
    Bool(bool),
    Number(Seq<char>),
    Text(Seq<char>),
    Array(Seq<JsonTreeView>),
    Object(Seq<(Seq<char>, JsonTreeView)>),
}

pub open spec fn tree_view(t: JsonTree) -> JsonTreeView
    decreases t,
{
    match t {
        JsonTree::Null => JsonTreeView::Null,
        JsonTree::Bool(b) => JsonTreeView::Bool(b),
        JsonTree::Number(s) => JsonTreeView::Number(s@),
        JsonTree::Text(s) => JsonTreeView::Text(s@),
        JsonTree::Array(v) => JsonTreeView::Array(
            Seq::new(v@.len(), |i: int| if 0 <= i < v@.len() { tree_view(v@[i]) } else { JsonTreeView::Null }),
        ),
        JsonTree::Object(m) => JsonTreeView::Object(
            Seq::new(
                m@.len(),
                |i: int| if 0 <= i < m@.len() { (m@[i].0@, tree_view(m@[i].1)) } else { (Seq::empty(), JsonTreeView::Null) },
            ),
        ),
    }
}

impl View for JsonTree {
    type V = JsonTreeView;

    open spec fn view(&self) -> JsonTreeView {
        tree_view(*self)
    }
}

/// The document that `serde_json::from_str::<serde_json::Value>` reads from
/// `text`; none where `text` is not JSON.
pub uninterp spec fn json_parse(text: Seq<char>) -> Option<JsonTreeView>;

/// The document that `serde_json::from_slice::<serde_json::Value>` reads
/// from `bytes`; none where they are not JSON.
pub uninterp spec fn json_parse_bytes(bytes: Seq<u8>) -> Option<JsonTreeView>;

/// The compact JSON text that `serde_json::Value`'s `Display` writes for a
/// document.
pub uninterp spec fn json_text_of(t: JsonTreeView) -> Seq<char>;

#[verifier::external_type_specification]
#[verifier::external_body]
pub struct ExValue(serde_json::Value);

/// A `serde_json::Value` as a [`JsonTree`], variant for variant; a number as
/// the text that `serde_json::Number`'s `Display` writes. It is the
/// conversion that `parse_json` and `parse_json_bytes` apply to what serde_json
/// read, and is
/// called from nowhere else.
#[verifier::external_body]
fn tree_of(v: serde_json::Value) -> JsonTree {
    match v {
        serde_json::Value::Null => JsonTree::Null,
        serde_json::Value::Bool(b) => JsonTree::Bool(b),
        serde_json::Value::Number(n) => JsonTree::Number(n.to_string()),
        serde_json::Value::String(s) => JsonTree::Text(s),
        serde_json::Value::Array(a) => JsonTree::Array(a.into_iter().map(tree_of).collect()),
        serde_json::Value::Object(m) => JsonTree::Object(m.into_iter().map(|(k, x)| (k, tree_of(x))).collect()),
    }
}

/// A [`JsonTree`] as a `serde_json::Value`, variant for variant; a number's
/// text is read back with `serde_json::Number`'s `FromStr`, and a text that
/// does not read as a number becomes `null`. It is the conversion that
/// `json_text` applies before writing, and is called from nowhere else.
#[verifier::external_body]
fn value_of(t: &JsonTree) -> serde_json::Value {
    match t {
        JsonTree::Null => serde_json::Value::Null,
        JsonTree::Bool(b) => serde_json::Value::Bool(*b),
        JsonTree::Number(s) => s.parse::<serde_json::Number>().map_or(serde_json::Value::Null, serde_json::Value::Number),
        JsonTree::Text(s) => serde_json::Value::String(s.clone()),
        JsonTree::Array(a) => serde_json::Value::Array(a.iter().map(value_of).collect()),
        JsonTree::Object(m) => serde_json::Value::Object(m.iter().map(|(k, x)| (k.clone(), value_of(x))).collect()),
    }
}

/// `serde_json::from_str::<serde_json::Value>` on `text`: the document it
/// reads, or none where it fails. The contract claims only that what comes
/// back is a function of `text` alone, named `json_parse`.
#[verifier::external_body]
pub(crate) fn parse_json(text: &str) -> (r: Option<JsonTree>)
    ensures
        match r {
            Some(t) => json_parse(text@) == Some(t@),
            None => json_parse(text@) is None,
        },
{
    match serde_json::from_str::<serde_json::Value>(text) {
        Ok(v) => Some(tree_of(v)),
        Err(_) => None,
    }
}

/// `serde_json::from_slice::<serde_json::Value>` on `bytes`: the document it
/// reads, or none where it fails. The contract claims only that what comes
/// back is a function of `bytes` alone, named `json_parse_bytes`.
#[verifier::external_body]
pub(crate) fn parse_json_bytes(bytes: &[u8]) -> (r: Option<JsonTree>)
    ensures
        match r {
            Some(t) => json_parse_bytes(bytes@) == Some(t@),
            None => json_parse_bytes(bytes@) is None,
        },
{
    match serde_json::from_slice::<serde_json::Value>(bytes) {
        Ok(v) => Some(tree_of(v)),
        Err(_) => None,
    }
}

/// The text that `serde_json::Value`'s `Display` writes for `t`. The contract
/// claims only that it is a function of `t`'s view alone, named
/// `json_text_of`.
#[verifier::external_body]
pub(crate) fn json_text(t: &JsonTree) -> (s: String)
    ensures
        s@ == json_text_of(t@),
{
    value_of(t).to_string()
}

/// The value of the first member named `key` in `m`.
pub open spec fn member_in(m: Seq<(Seq<char>, JsonTreeView)>, key: Seq<char>) -> Option<JsonTreeView>
    decreases m.len(),
{
    if m.len() == 0 {
        None
    } else if m[0].0 == key {
        Some(m[0].1)
    } else {
        member_in(m.drop_first(), key)
    }
}

/// `t[key]` where `t` is an object that has a member `key`.
pub open spec fn member(t: JsonTreeView, key: Seq<char>) -> Option<JsonTreeView> {
    match t {
        JsonTreeView::Object(m) => member_in(m, key),
        _ => None,
    }
}

/// `t[i]` where `t` is an array that long.
pub open spec fn element(t: JsonTreeView, i: int) -> Option<JsonTreeView> {
    match t {
        JsonTreeView::Array(v) => if 0 <= i < v.len() {
            Some(v[i])
        } else {
            None
        },
        _ => None,
    }
}

/// The member `key` of `t`, where `t` is an object that has one.
pub fn member_of<'a>(t: &'a JsonTree, key: &str) -> (r: Option<&'a JsonTree>)
    ensures
        match r {
            Some(x) => member(t@, key@) == Some(x@),
            None => member(t@, key@) is None,
        },
{
    match t {
        JsonTree::Object(m) => {
            let ghost mv = match t@ {
                JsonTreeView::Object(mv) => mv,
                _ => Seq::empty(),
            };
            let mut i: usize = 0;
            assert(mv.skip(0) =~= mv);
            while i < m.len()
                invariant
                    i <= m@.len(),
                    mv.len() == m@.len(),
                    forall|j: int| 0 <= j < m@.len() ==> #[trigger] mv[j] == (m@[j].0@, m@[j].1@),
                    member(t@, key@) == member_in(mv.skip(i as int), key@),
                decreases m@.len() - i,
            {
                assert(mv.skip(i as int)[0] == mv[i as int]);
                if str_eq(m[i].0.as_str(), key) {
                    assert(member_in(mv.skip(i as int), key@) == Some(mv[i as int].1));
                    return Some(&m[i].1);
                }
                assert(mv.skip(i as int).drop_first() =~= mv.skip(i + 1));
                i = i + 1;
            }
            None
        },
        _ => None,
    }
}

/// The element `i` of `t`, where `t` is an array that long.
pub fn element_of(t: &JsonTree, i: usize) -> (r: Option<&JsonTree>)
    ensures
        match r {
            Some(x) => element(t@, i as int) == Some(x@),
            None => element(t@, i as int) is None,
        },
{
    match t {
        JsonTree::Array(v) => {
            if i < v.len() {
                Some(&v[i])
            } else {
                None
            }
        },
        _ => None,
    }
}

/// How a member of a node's JSON answer is stored in the context: `null` and
/// strings as themselves, anything else as its JSON text.
pub open spec fn stored_value(v: JsonTreeView) -> JsonValueView {
    match v {
        JsonTreeView::Null => JsonValueView::Null,
        JsonTreeView::Text(s) => JsonValueView::Text(s),
        _ => JsonValueView::Json(json_text_of(v)),
    }
}

/// The members of the JSON object that `text` parses to, as they are stored;
/// none when `text` is not a JSON object.
pub open spec fn json_object_fields(text: Seq<char>) -> Option<Seq<(Seq<char>, JsonValueView)>> {
    match json_parse(text) {
        Some(JsonTreeView::Object(m)) => Some(
            m.map_values(|f: (Seq<char>, JsonTreeView)| (f.0, stored_value(f.1))),
        ),
        _ => None,
    }
}

pub open spec fn fields_view(f: Seq<(String, JsonValue)>) -> Seq<(Seq<char>, JsonValueView)> {
    f.map_values(|e: (String, JsonValue)| (e.0@, e.1@))
}

/// The value stored for a member `v` of a node's answer.
pub fn stored(v: &JsonTree) -> (r: JsonValue)
    ensures
        r@ == stored_value(v@),
{
    match v {
        JsonTree::Null => JsonValue::Null,
        JsonTree::Text(s) => JsonValue::Text(s.clone()),
        _ => JsonValue::Json(json_text(v)),
    }
}

/// The members of the JSON object that `text` parses to, as they are stored;
/// none when `text` is not a JSON object.
pub fn object_fields(text: &str) -> (r: Option<Vec<(String, JsonValue)>>)
    ensures
        match r {
            Some(f) => json_object_fields(text@) == Some(fields_view(f@)),
            None => json_object_fields(text@) is None,
        },
{
    match parse_json(text) {
        Some(JsonTree::Object(m)) => {
            let ghost mv = match json_parse(text@) {
                Some(JsonTreeView::Object(mv)) => mv,
                _ => Seq::empty(),
            };
            let mut r: Vec<(String, JsonValue)> = Vec::new();
            let mut i: usize = 0;
            while i < m.len()
                invariant
                    i <= m@.len(),
                    mv.len() == m@.len(),
                    forall|j: int| 0 <= j < m@.len() ==> #[trigger] mv[j] == (m@[j].0@, m@[j].1@),
                    fields_view(r@) =~= mv.take(i as int).map_values(
                        |f: (Seq<char>, JsonTreeView)| (f.0, stored_value(f.1)),
                    ),
                decreases m@.len() - i,
            {
                let v = stored(&m[i].1);
                let ghost before = r@;
                r.push((m[i].0.clone(), v));
                assert(fields_view(r@) =~= fields_view(before).push((m@[i as int].0@, v@)));
                assert(mv.take(i + 1) =~= mv.take(i as int).push(mv[i as int]));
                i = i + 1;
            }
            assert(mv.take(i as int) =~= mv);
            Some(r)
        },
        _ => None,
    }
}

/// Every member of an answer that serde_json reads as an object is kept, in
/// order, each as it is stored, whatever surrounds the object in the text
/// (white space, a trailing newline); an answer that serde_json does not
/// read as an object gives no members.
pub proof fn lemma_object_answers_give_all_their_members(text: Seq<char>)
    ensures
        json_parse(text) matches Some(JsonTreeView::Object(m)) ==> json_object_fields(text) matches Some(f)
            && f.len() == m.len() && forall|i: int| 0 <= i < m.len() ==> #[trigger] f[i] == (m[i].0, stored_value(m[i].1)),
        !(json_parse(text) matches Some(JsonTreeView::Object(_))) ==> json_object_fields(text) is None,
{
}

} // verus!
