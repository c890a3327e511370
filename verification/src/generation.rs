//! Reading the text out of a generation service's reply. The reply body is
//! parsed as JSON by the caller; the library decides what text it holds.
use vstd::prelude::*;

use crate::format::{decimal, push_decimal};

verus! {

/// A JSON value, as far as reading generated text needs: strings, arrays and
/// objects (fields in the order the parser yields them); numbers, booleans
/// and null are all `Other`.
#[derive(Debug)]
pub enum Json {
    Str(String),
    Array(Vec<Json>),
    Object(Vec<(String, Json)>),
    Other,
}

/// Makes `serde_json::Value` known to the verifier, as an opaque type.
#[verifier::external_type_specification]
#[verifier::external_body]
pub struct ExJsonValue(serde_json::Value);

/// The JSON value that `serde_json::from_str` parses from a text, as the
/// library sees it; none when the text is not JSON.
pub uninterp spec fn parsed_json(text: Seq<char>) -> Option<Json>;

/// Converts a value parsed by serde_json into the library's view of it,
/// variant by variant: strings, arrays and objects (fields in the map's
/// order) are kept, numbers, booleans and null become `Other`. It is the
/// conversion half of `parse_json` and states nothing on its own.
#[verifier::external_body]
fn json_from_value(v: serde_json::Value) -> Json {
    match v {
        serde_json::Value::String(s) => Json::Str(s),
        serde_json::Value::Array(a) => Json::Array(a.into_iter().map(json_from_value).collect()),
        serde_json::Value::Object(m) => {
            Json::Object(m.into_iter().map(|(k, e)| (k, json_from_value(e))).collect())
        },
        _ => Json::Other,
    }
}

/// Parses a text with `serde_json::from_str::<serde_json::Value>` and converts
/// the value with `json_from_value`. The contract names the result: what
/// serde_json parses from the text, none when it reports an error.
#[verifier::external_body]
pub(crate) fn parse_json(text: &str) -> (r: Option<Json>)
    ensures
        r == parsed_json(text@),
{
    serde_json::from_str::<serde_json::Value>(text).ok().map(json_from_value)
}

/// The value of the first field named `key` of an object (none for other values).
pub open spec fn field_of(fields: Seq<(String, Json)>, key: Seq<char>) -> Option<Json>
    decreases fields.len(),
{
    if fields.len() == 0 {
        None
    } else if fields[0].0@ == key {
        Some(fields[0].1)
    } else {
        field_of(fields.drop_first(), key)
    }
}

/// `v.get(key)` of a JSON value.
pub open spec fn get_key(v: Option<Json>, key: Seq<char>) -> Option<Json> {
    match v {
        Some(Json::Object(fields)) => field_of(fields@, key),
        _ => None,
    }
}

/// `v.get(index)` of a JSON value.
pub open spec fn get_index(v: Option<Json>, index: int) -> Option<Json> {
    match v {
        Some(Json::Array(items)) => if 0 <= index < items@.len() {
            Some(items@[index])
        } else {
            None
        },
        _ => None,
    }
}

/// `v.as_str()` of a JSON value.
pub open spec fn as_text(v: Option<Json>) -> Option<Seq<char>> {
    match v {
        Some(Json::Str(s)) => Some(s@),
        _ => None,
    }
}

/// The first string met in a depth-first, left-to-right walk of the value.
pub open spec fn first_string_leaf(v: Json) -> Option<Seq<char>>
    decreases v, 1nat,
{
    match v {
        Json::Str(s) => Some(s@),
        Json::Array(items) => first_leaf_of_items(items@),
        Json::Object(fields) => first_leaf_of_fields(fields@),
        Json::Other => None,
    }
}

/// The first string met in a walk of the items.
pub open spec fn first_leaf_of_items(items: Seq<Json>) -> Option<Seq<char>>
    decreases items, 0nat,
{
    if items.len() == 0 {
        None
    } else {
        match first_string_leaf(items[0]) {
            Some(s) => Some(s),
            None => first_leaf_of_items(items.drop_first()),
        }
    }
}

/// The first string met in a walk of the field values.
pub open spec fn first_leaf_of_fields(fields: Seq<(String, Json)>) -> Option<Seq<char>>
    decreases fields, 0nat,
{
    if fields.len() == 0 {
        None
    } else {
        match first_string_leaf(fields[0].1) {
            Some(s) => Some(s),
            None => first_leaf_of_fields(fields.drop_first()),
        }
    }
}

/// Whether the string `s` is held somewhere in the value: the value is that
/// string, or one of its items or field values holds it.
pub open spec fn holds_text(v: Json, s: Seq<char>) -> bool
    decreases v, 1nat,
{
    match v {
        Json::Str(t) => t@ == s,
        Json::Array(items) => text_in_items(items@, s),
        Json::Object(fields) => text_in_fields(fields@, s),
        Json::Other => false,
    }
}

/// Whether one of the items holds the string `s`.
pub open spec fn text_in_items(items: Seq<Json>, s: Seq<char>) -> bool
    decreases items, 0nat,
{
    items.len() > 0 && (holds_text(items[0], s) || text_in_items(items.drop_first(), s))
}

/// Whether one of the field values holds the string `s`.
pub open spec fn text_in_fields(fields: Seq<(String, Json)>, s: Seq<char>) -> bool
    decreases fields, 0nat,
{
    fields.len() > 0 && (holds_text(fields[0].1, s) || text_in_fields(fields.drop_first(), s))
}

/// The walk finds a string exactly when the value holds one anywhere (as the
/// value itself, an item or a field value, at any depth), and what it finds is
/// held in the value.
pub proof fn law_first_string_is_held(v: Json)
    ensures
        first_string_leaf(v) is Some ==> exists|s: Seq<char>| #[trigger] holds_text(v, s),
        (exists|s: Seq<char>| #[trigger] holds_text(v, s)) ==> first_string_leaf(v) is Some,
        first_string_leaf(v) matches Some(s) ==> holds_text(v, s),
    decreases v, 1nat,
{
    match v {
        Json::Str(t) => {
            assert(holds_text(v, t@));
        },
        Json::Array(items) => {
            lemma_first_leaf_of_items(items@);
            if exists|s: Seq<char>| #[trigger] holds_text(v, s) {
                let s = choose|s: Seq<char>| #[trigger] holds_text(v, s);
                assert(text_in_items(items@, s));
            }
        },
        Json::Object(fields) => {
            lemma_first_leaf_of_fields(fields@);
            if exists|s: Seq<char>| #[trigger] holds_text(v, s) {
                let s = choose|s: Seq<char>| #[trigger] holds_text(v, s);
                assert(text_in_fields(fields@, s));
            }
        },
        Json::Other => {},
    }
    if let Some(s) = first_string_leaf(v) {
        assert(holds_text(v, s));
    }
}

proof fn lemma_first_leaf_of_items(items: Seq<Json>)
    ensures
        first_leaf_of_items(items) is Some <==> exists|s: Seq<char>| #[trigger] text_in_items(items, s),
        first_leaf_of_items(items) matches Some(s) ==> text_in_items(items, s),
    decreases items, 0nat,
{
    if items.len() > 0 {
        let rest = items.drop_first();
        law_first_string_is_held(items[0]);
        lemma_first_leaf_of_items(rest);
        if let Some(s) = first_string_leaf(items[0]) {
            assert(holds_text(items[0], s));
        } else {
            assert forall|s: Seq<char>| #[trigger] text_in_items(items, s) implies text_in_items(rest, s) by {
                if holds_text(items[0], s) {
                    assert(first_string_leaf(items[0]) is Some);
                }
            }
            if let Some(s) = first_leaf_of_items(rest) {
                assert(text_in_items(rest, s));
            }
            if exists|s: Seq<char>| #[trigger] text_in_items(rest, s) {
                let s = choose|s: Seq<char>| #[trigger] text_in_items(rest, s);
                assert(text_in_items(items, s));
            }
        }
    }
    if let Some(s) = first_leaf_of_items(items) {
        assert(text_in_items(items, s));
    }
}

proof fn lemma_first_leaf_of_fields(fields: Seq<(String, Json)>)
    ensures
        first_leaf_of_fields(fields) is Some <==> exists|s: Seq<char>| #[trigger] text_in_fields(fields, s),
        first_leaf_of_fields(fields) matches Some(s) ==> text_in_fields(fields, s),
    decreases fields, 0nat,
{
    if fields.len() > 0 {
        let rest = fields.drop_first();
        law_first_string_is_held(fields[0].1);
        lemma_first_leaf_of_fields(rest);
        if let Some(s) = first_string_leaf(fields[0].1) {
            assert(holds_text(fields[0].1, s));
        } else {
            assert forall|s: Seq<char>| #[trigger] text_in_fields(fields, s) implies text_in_fields(rest, s) by {
                if holds_text(fields[0].1, s) {
                    assert(first_string_leaf(fields[0].1) is Some);
                }
            }
            if let Some(s) = first_leaf_of_fields(rest) {
                assert(text_in_fields(rest, s));
            }
            if exists|s: Seq<char>| #[trigger] text_in_fields(rest, s) {
                let s = choose|s: Seq<char>| #[trigger] text_in_fields(rest, s);
                assert(text_in_fields(fields, s));
            }
        }
    }
    if let Some(s) = first_leaf_of_fields(fields) {
        assert(text_in_fields(fields, s));
    }
}

/// The walk is left to right: when the first item of an array, or the first
/// field value of an object, holds a string, the walk's result is what it
/// finds there. In particular an object whose first field value is the
/// string `s` yields `s`.
pub proof fn law_first_string_leftmost(v: Json)
    ensures
        match v {
            Json::Array(items) => items@.len() > 0 && (exists|s: Seq<char>|
                #[trigger] holds_text(items@[0], s)) ==> first_string_leaf(v) == first_string_leaf(
                items@[0],
            ) && first_string_leaf(v) is Some,
            Json::Object(fields) => {
                &&& fields@.len() > 0 && (exists|s: Seq<char>| #[trigger] holds_text(fields@[0].1, s))
                    ==> first_string_leaf(v) == first_string_leaf(fields@[0].1) && first_string_leaf(
                    v,
                ) is Some
                &&& fields@.len() > 0 ==> match fields@[0].1 {
                    Json::Str(t) => first_string_leaf(v) == Some(t@),
                    _ => true,
                }
            },
            _ => true,
        },
{
    match v {
        Json::Array(items) => {
            if items@.len() > 0 {
                law_first_string_is_held(items@[0]);
            }
        },
        Json::Object(fields) => {
            if fields@.len() > 0 {
                law_first_string_is_held(fields@[0].1);
            }
        },
        _ => {},
    }
}

/// `candidates[0].content[0].text`
pub open spec fn candidate_content_text(v: Json) -> Option<Seq<char>> {
    as_text(
        get_key(
            get_index(get_key(get_index(get_key(Some(v), "candidates"@), 0), "content"@), 0),
            "text"@,
        ),
    )
}

/// `candidates[0].output[0].content[0].text`
pub open spec fn candidate_output_text(v: Json) -> Option<Seq<char>> {
    as_text(
        get_key(
            get_index(
                get_key(
                    get_index(get_key(get_index(get_key(Some(v), "candidates"@), 0), "output"@), 0),
                    "content"@,
                ),
                0,
            ),
            "text"@,
        ),
    )
}

/// `outputs[0].content[0].text`
pub open spec fn outputs_content_text(v: Json) -> Option<Seq<char>> {
    as_text(
        get_key(get_index(get_key(get_index(get_key(Some(v), "outputs"@), 0), "content"@), 0), "text"@),
    )
}

/// The text of a parsed reply: the first of the known reply shapes that
/// holds a string, else the first string anywhere in the reply.
pub open spec fn reply_text(v: Json) -> Option<Seq<char>> {
    if candidate_content_text(v) is Some {
        candidate_content_text(v)
    } else if candidate_output_text(v) is Some {
        candidate_output_text(v)
    } else if outputs_content_text(v) is Some {
        outputs_content_text(v)
    } else {
        first_string_leaf(v)
    }
}

fn field_of_exec<'a>(fields: &'a Vec<(String, Json)>, key: &str) -> (r: Option<&'a Json>)
    ensures
        match r {
            Some(j) => field_of(fields@, key@) == Some(*j),
            None => field_of(fields@, key@) is None,
        },
{
    let wanted = key.to_owned();
    let n = fields.len();
    let mut i: usize = 0;
    proof {
        assert(fields@.skip(0) =~= fields@);
    }
    while i < n
        invariant
            n == fields@.len(),
            0 <= i <= n,
            wanted@ == key@,
            field_of(fields@, key@) == field_of(fields@.skip(i as int), key@),
        decreases n - i,
    {
        proof {
            assert(fields@.skip(i as int)[0] == fields@[i as int]);
            assert(fields@.skip(i as int).drop_first() =~= fields@.skip(i + 1));
        }
        if fields[i].0 == wanted {
            return Some(&fields[i].1);
        }
        i = i + 1;
    }
    None
}

pub(crate) fn get_key_exec<'a>(v: Option<&'a Json>, key: &str) -> (r: Option<&'a Json>)
    ensures
        match r {
            Some(j) => get_key(match v {
                Some(x) => Some(*x),
                None => None,
            }, key@) == Some(*j),
            None => get_key(match v {
                Some(x) => Some(*x),
                None => None,
            }, key@) is None,
        },
{
    match v {
        Some(Json::Object(fields)) => field_of_exec(fields, key),
        _ => None,
    }
}

fn get_index_exec<'a>(v: Option<&'a Json>, index: usize) -> (r: Option<&'a Json>)
    ensures
        match r {
            Some(j) => get_index(match v {
                Some(x) => Some(*x),
                None => None,
            }, index as int) == Some(*j),
            None => get_index(match v {
                Some(x) => Some(*x),
                None => None,
            }, index as int) is None,
        },
{
    match v {
        Some(Json::Array(items)) => {
            if index < items.len() {
                Some(&items[index])
            } else {
                None
            }
        },
        _ => None,
    }
}

pub(crate) fn as_text_exec(v: Option<&Json>) -> (r: Option<String>)
    ensures
        match r {
            Some(s) => as_text(match v {
                Some(x) => Some(*x),
                None => None,
            }) == Some(s@),
            None => as_text(match v {
                Some(x) => Some(*x),
                None => None,
            }) is None,
        },
{
    match v {
        Some(Json::Str(s)) => Some(s.clone()),
        _ => None,
    }
}

/// The first string met in a depth-first, left-to-right walk of the value.
pub fn find_first_string(v: &Json) -> (r: Option<String>)
    ensures
        match r {
            Some(found) => first_string_leaf(*v) == Some(found@),
            None => first_string_leaf(*v) is None,
        },
    decreases v, 1nat,
{
    if let Json::Str(s) = v {
        let t = s.clone();
        proof {
            assert(first_string_leaf(*v) == Some(t@));
        }
        return Some(t);
    }
    match v {
        Json::Array(items) => {
            proof {
                assert(items@.skip(0) =~= items@);
            }
            first_in_items(items, 0)
        },
        Json::Object(fields) => {
            proof {
                assert(fields@.skip(0) =~= fields@);
            }
            first_in_fields(fields, 0)
        },
        _ => None,
    }
}

fn first_in_items(items: &Vec<Json>, start: usize) -> (r: Option<String>)
    requires
        start <= items@.len(),
    ensures
        match r {
            Some(s) => first_leaf_of_items(items@.skip(start as int)) == Some(s@),
            None => first_leaf_of_items(items@.skip(start as int)) is None,
        },
    decreases items@, 0nat, items@.len() - start,
{
    if start == items.len() {
        proof {
            assert(items@.skip(start as int).len() == 0);
        }
        return None;
    }
    proof {
        assert(items@.skip(start as int)[0] == items@[start as int]);
        assert(items@.skip(start as int).drop_first() =~= items@.skip(start + 1));
        assert(decreases_to!(items@ => items@[start as int]));
    }
    match find_first_string(&items[start]) {
        Some(s) => Some(s),
        None => first_in_items(items, start + 1),
    }
}

fn first_in_fields(fields: &Vec<(String, Json)>, start: usize) -> (r: Option<String>)
    requires
        start <= fields@.len(),
    ensures
        match r {
            Some(s) => first_leaf_of_fields(fields@.skip(start as int)) == Some(s@),
            None => first_leaf_of_fields(fields@.skip(start as int)) is None,
        },
    decreases fields@, 0nat, fields@.len() - start,
{
    if start == fields.len() {
        proof {
            assert(fields@.skip(start as int).len() == 0);
        }
        return None;
    }
    proof {
        assert(fields@.skip(start as int)[0] == fields@[start as int]);
        assert(fields@.skip(start as int).drop_first() =~= fields@.skip(start + 1));
        assert(decreases_to!(fields@ => fields@[start as int].1));
    }
    match find_first_string(&fields[start].1) {
        Some(s) => Some(s),
        None => first_in_fields(fields, start + 1),
    }
}

/// The text of a parsed reply, if it holds one (see `reply_text`).
pub fn extract_reply_text(v: &Json) -> (r: Option<String>)
    ensures
        match r {
            Some(s) => reply_text(*v) == Some(s@),
            None => reply_text(*v) is None,
        },
{
    let c0 = get_index_exec(get_key_exec(Some(v), "candidates"), 0);
    let t1 = as_text_exec(get_key_exec(get_index_exec(get_key_exec(c0, "content"), 0), "text"));
    if t1.is_some() {
        return t1;
    }
    let t2 = as_text_exec(
        get_key_exec(
            get_index_exec(get_key_exec(get_index_exec(get_key_exec(c0, "output"), 0), "content"), 0),
            "text",
        ),
    );
    if t2.is_some() {
        return t2;
    }
    let o0 = get_index_exec(get_key_exec(Some(v), "outputs"), 0);
    let t3 = as_text_exec(get_key_exec(get_index_exec(get_key_exec(o0, "content"), 0), "text"));
    if t3.is_some() {
        return t3;
    }
    find_first_string(v)
}

/// A parsed reply that holds a string anywhere has a text: the known reply
/// shapes are tried first, and the walk for the first string finds one.
pub proof fn law_reply_with_a_string_has_text(v: Json)
    ensures
        (exists|s: Seq<char>| #[trigger] holds_text(v, s)) ==> reply_text(v) is Some,
{
    law_first_string_is_held(v);
}

/// Whether an HTTP status is a success (200 to 299).
pub open spec fn is_success(status: u16) -> bool {
    200 <= status <= 299
}

/// The result of a generation request, given the reply's status, its body,
/// and the body parsed as JSON (none when it is not JSON):
/// - an unsuccessful status gives the error "http <status>: <body>";
/// - a body that is not JSON is the generated text itself;
/// - otherwise the reply's text, or the error "no-text-output-found".
pub fn interpret_reply(status: u16, body: String, parsed: Option<Json>) -> (r: Result<String, String>)
    ensures
        !is_success(status) ==> (r matches Err(e) && e@ == "http "@ + decimal(status as nat) + ": "@
            + body@),
        is_success(status) && parsed is None ==> (r matches Ok(t) && t@ == body@),
        is_success(status) && parsed is Some ==> match reply_text(parsed->0) {
            Some(t) => (r matches Ok(x) && x@ == t),
            None => (r matches Err(e) && e@ == "no-text-output-found"@),
        },
{
    if !(200 <= status && status <= 299) {
        let mut e = "http ".to_owned();
        push_decimal(&mut e, status as u64);
        e.append(": ");
        e.append(body.as_str());
        return Err(e);
    }
    match parsed {
        None => Ok(body),
        Some(v) => match extract_reply_text(&v) {
            Some(t) => Ok(t),
            None => Err("no-text-output-found".to_owned()),
        },
    }
}


/// The result of a generation request from the reply's status and body: an
/// unsuccessful status gives the error "http <status>: <body>"; a body that is
/// not JSON is the generated text itself; otherwise the reply's text, or the
/// error "no-text-output-found".
pub fn reply_result(status: u16, body: String) -> (r: Result<String, String>)
    ensures
        !is_success(status) ==> (r matches Err(e) && e@ == "http "@ + decimal(status as nat) + ": "@
            + body@),
        is_success(status) && parsed_json(body@) is None ==> (r matches Ok(t) && t@ == body@),
        is_success(status) && parsed_json(body@) is Some ==> match reply_text(parsed_json(body@)->0) {
            Some(t) => (r matches Ok(x) && x@ == t),
            None => (r matches Err(e) && e@ == "no-text-output-found"@),
        },
{
    if !(200 <= status && status <= 299) {
        return interpret_reply(status, body, None);
    }
    let parsed = parse_json(body.as_str());
    interpret_reply(status, body, parsed)
}

} // verus!
