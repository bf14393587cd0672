//! How answers of the service are read: the request parameters, the status
//! of an answer, and the error message an error answer carries.

use vstd::prelude::*;
use crate::model::PageContent;
use crate::numbers::{i32_text, spec_i32_text};
use crate::text::{push_str, to_owned_string};

verus! {

/// A JSON document as the library reads it (numbers kept as their text).
#[derive(Debug)]
pub enum JsonValue {
    Null,
    Bool(bool),
    Number(String),
    Text(String),
    Array(Vec<JsonValue>),
    Object(Vec<(String, JsonValue)>),
}

/// The value of the first member named `key` among an object's members.
pub open spec fn member_value(entries: Seq<(String, JsonValue)>, key: Seq<char>) -> Option<JsonValue>
    decreases entries.len(),
{
    if entries.len() == 0 {
        None
    } else if entries[0].0@ == key {
        Some(entries[0].1)
    } else {
        member_value(entries.drop_first(), key)
    }
}

/// The member `key` of an object; nothing for any other value.
pub open spec fn json_get(v: JsonValue, key: Seq<char>) -> Option<JsonValue> {
    match v {
        JsonValue::Object(entries) => member_value(entries@, key),
        _ => None,
    }
}

/// The first element of an array; nothing for any other value.
pub open spec fn json_first(v: JsonValue) -> Option<JsonValue> {
    match v {
        JsonValue::Array(items) => if items@.len() > 0 {
            Some(items@[0])
        } else {
            None
        },
        _ => None,
    }
}

/// The text of a string value; nothing for any other value.
pub open spec fn json_text(v: JsonValue) -> Option<Seq<char>> {
    match v {
        JsonValue::Text(s) => Some(s@),
        _ => None,
    }
}

/// The message of an error answer: `errors[0].message`, where it is a string.
pub open spec fn spec_request_error(v: JsonValue) -> Option<Seq<char>> {
    match json_get(v, "errors"@) {
        Some(errors) => match json_first(errors) {
            Some(first) => match json_get(first, "message"@) {
                Some(m) => json_text(m),
                None => None,
            },
            None => None,
        },
        None => None,
    }
}

fn member_of<'a>(v: &'a JsonValue, key: &str) -> (r: Option<&'a JsonValue>)
    ensures
        match r {
            Some(x) => json_get(*v, key@) == Some(*x),
            None => json_get(*v, key@) is None,
        },
{
    match v {
        JsonValue::Object(entries) => {
            assert(json_get(*v, key@) == member_value(entries@, key@));
            let k = to_owned_string(key);
            let mut j: usize = 0;
            assert(entries@.skip(0) =~= entries@);
            while j < entries.len()
                invariant
                    j <= entries@.len(),
                    k@ == key@,
                    json_get(*v, key@) == member_value(entries@, key@),
                    member_value(entries@, key@) == member_value(entries@.skip(j as int), key@),
                decreases entries@.len() - j,
            {
                let ghost rest = entries@.skip(j as int);
                assert(rest.drop_first() =~= entries@.skip(j + 1));
                assert(rest[0] == entries@[j as int]);
                if String::eq(&entries[j].0, &k) {
                    assert(member_value(rest, key@) == Some(rest[0].1));
                    assert(entries@[j as int].1 == rest[0].1);
                    return Some(&entries[j].1);
                }
                j = j + 1;
            }
            None
        },
        _ => None,
    }
}

/// The error message of an error answer, where it carries one.
pub fn request_error_message(v: &JsonValue) -> (r: Option<String>)
    ensures
        r.deep_view() == spec_request_error(*v),
{
    let errors = match member_of(v, "errors") {
        Some(e) => e,
        None => {
            return None;
        },
    };
    let first = match errors {
        JsonValue::Array(items) => {
            if items.len() == 0 {
                return None;
            }
            &items[0]
        },
        _ => {
            return None;
        },
    };
    let message = match member_of(first, "message") {
        Some(m) => m,
        None => {
            return None;
        },
    };
    match message {
        JsonValue::Text(s) => Some(to_owned_string(s.as_str())),
        _ => None,
    }
}

/// How an answer's status is handled.
#[derive(Debug, Clone, Copy, PartialEq, Eq, Structural)]
pub enum StatusClass {
    /// 200: the body holds the records.
    Success,
    /// 401: the body is the error.
    Unauthorized,
    /// Any other status: the error is built from the body's message.
    Failure,
}

/// How an answer with the given status code is handled.
pub fn classify_status(code: u16) -> (r: StatusClass)
    ensures
        r == if code == 200 {
            StatusClass::Success
        } else if code == 401 {
            StatusClass::Unauthorized
        } else {
            StatusClass::Failure
        },
{
    if code == 200 {
        StatusClass::Success
    } else if code == 401 {
        StatusClass::Unauthorized
    } else {
        StatusClass::Failure
    }
}

/// The error for a successful answer without a body.
pub fn empty_body_error(url: &str) -> (r: String)
    ensures
        r@ == "No Response Text found for "@ + url@,
{
    let mut r = to_owned_string("No Response Text found for ");
    push_str(&mut r, url);
    r
}

/// The error for a failed answer:
/// `URL: <url>`, a newline, then `Status [<code>]: <message>`, where the
/// message is `Cannot get message` if the body carried none.
pub fn failure_error(url: &str, code: u16, message: &Option<String>) -> (r: String)
    ensures
        r@ == "URL: "@ + url@ + "\nStatus ["@ + spec_i32_text(code as i32) + "]: "@ + match message {
            Some(m) => m@,
            None => "Cannot get message"@,
        },
{
    let mut r = to_owned_string("URL: ");
    push_str(&mut r, url);
    push_str(&mut r, "\nStatus [");
    let c = i32_text(code as i32);
    push_str(&mut r, c.as_str());
    push_str(&mut r, "]: ");
    match message {
        Some(m) => push_str(&mut r, m.as_str()),
        None => push_str(&mut r, "Cannot get message"),
    }
    r
}

/// The views of a list of parameters.
pub open spec fn params_view(v: Seq<(String, String)>) -> Seq<(Seq<char>, Seq<char>)> {
    v.map_values(|p: (String, String)| (p.0@, p.1@))
}

/// The parameters whose name is not `name`, in order.
pub open spec fn without_name(ps: Seq<(Seq<char>, Seq<char>)>, name: Seq<char>) -> Seq<(Seq<char>, Seq<char>)>
    decreases ps.len(),
{
    if ps.len() == 0 {
        Seq::empty()
    } else if ps.last().0 == name {
        without_name(ps.drop_last(), name)
    } else {
        without_name(ps.drop_last(), name).push(ps.last())
    }
}

/// The query of a request: the given parameters, with `per_page` set to
/// `999999` in place of any value they give it.
pub fn query_parameters(params: Option<Vec<(String, String)>>) -> (r: Vec<(String, String)>)
    ensures
        params_view(r@) == match params {
            Some(p) => without_name(params_view(p@), "per_page"@),
            None => Seq::empty(),
        }.push(("per_page"@, "999999"@)),
{
    let name = to_owned_string("per_page");
    let mut r: Vec<(String, String)> = Vec::new();
    match params {
        Some(p) => {
            let ghost pv = params_view(p@);
            for pair in it: p.into_iter()
                invariant
                    it.seq() == p@,
                    pv == params_view(p@),
                    name@ == "per_page"@,
                    params_view(r@) == without_name(pv.take(it.index()), "per_page"@),
            {
                let ghost t = it.index();
                assert(pv.take(t + 1).drop_last() =~= pv.take(t));
                assert(pv[t] == (pair.0@, pair.1@));
                if !String::eq(&pair.0, &name) {
                    let ghost before = r@;
                    r.push(pair);
                    assert(params_view(r@) =~= params_view(before).push(pv[t]));
                }
            }
            assert(pv.take(pv.len() as int) =~= pv);
        },
        None => {},
    }
    let ghost before = r@;
    r.push((name, to_owned_string("999999")));
    assert(params_view(r@) =~= params_view(before).push(("per_page"@, "999999"@)));
    r
}

/// The bodies of a page's contents, one after the other.
pub open spec fn spec_page_body(contents: Seq<PageContent>) -> Seq<char>
    decreases contents.len(),
{
    if contents.len() == 0 {
        Seq::empty()
    } else {
        spec_page_body(contents.drop_last()) + contents.last().body->0@
    }
}

/// The text of a page: the bodies of its contents in order.
pub fn page_body(contents: &Vec<PageContent>) -> (r: String)
    requires
        forall|j: int| 0 <= j < contents@.len() ==> (#[trigger] contents@[j]).body is Some,
    ensures
        r@ == spec_page_body(contents@),
{
    let mut r = String::new();
    for j in 0..contents.len()
        invariant
            forall|k: int| 0 <= k < contents@.len() ==> (#[trigger] contents@[k]).body is Some,
            r@ == spec_page_body(contents@.take(j as int)),
    {
        assert(contents@.take(j + 1).drop_last() =~= contents@.take(j as int));
        match &contents[j].body {
            Some(b) => push_str(&mut r, b.as_str()),
            None => {},
        }
    }
    assert(contents@.take(contents@.len() as int) =~= contents@);
    r
}

/// After removing a name, no parameter of that name is left.
pub proof fn lemma_without_name_has_none(ps: Seq<(Seq<char>, Seq<char>)>, name: Seq<char>)
    ensures
        forall|j: int| 0 <= j < without_name(ps, name).len() ==> (#[trigger] without_name(ps, name)[j]).0 != name,
    decreases ps.len(),
{
    if ps.len() > 0 {
        lemma_without_name_has_none(ps.drop_last(), name);
        let w0 = without_name(ps.drop_last(), name);
        if ps.last().0 != name {
            let w = w0.push(ps.last());
            assert forall|j: int| 0 <= j < w.len() implies (#[trigger] w[j]).0 != name by {
                if j < w0.len() {
                    assert(w[j] == w0[j]);
                }
            }
        }
    }
}

/// The query of every request sets `per_page` exactly once, to `999999`,
/// as its last parameter.
pub proof fn lemma_query_sets_page_size_once(params: Seq<(Seq<char>, Seq<char>)>)
    ensures
        ({
            let q = without_name(params, "per_page"@).push(("per_page"@, "999999"@));
            &&& q.last() == ("per_page"@, "999999"@)
            &&& forall|j: int| 0 <= j < q.len() - 1 ==> (#[trigger] q[j]).0 != "per_page"@
        }),
{
    lemma_without_name_has_none(params, "per_page"@);
    let w = without_name(params, "per_page"@);
    let q = w.push(("per_page"@, "999999"@));
    assert forall|j: int| 0 <= j < q.len() - 1 implies (#[trigger] q[j]).0 != "per_page"@ by {
        assert(q[j] == w[j]);
    }
}

/// `serde_json::Value`, carried through unread.
#[verifier::external_type_specification]
#[verifier::external_body]
pub struct ExSerdeJsonValue(serde_json::Value);

/// The document that `serde_json::from_str::<serde_json::Value>` reads from a
/// text, in the library's form, or `None` where it reports an error.
pub uninterp spec fn spec_parse_json(text: Seq<char>) -> Option<JsonValue>;

/// Converts a `serde_json::Value` into the library's form, variant by
/// variant (a number keeps the text `serde_json::Number` displays).
#[verifier::external_body]
fn json_from_value(v: serde_json::Value) -> JsonValue {
    match v {
        serde_json::Value::Null => JsonValue::Null,
        serde_json::Value::Bool(b) => JsonValue::Bool(b),
        serde_json::Value::Number(n) => JsonValue::Number(n.to_string()),
        serde_json::Value::String(s) => JsonValue::Text(s),
        serde_json::Value::Array(items) => JsonValue::Array(items.into_iter().map(json_from_value).collect()),
        serde_json::Value::Object(m) => JsonValue::Object(m.into_iter().map(|(k, x)| (k, json_from_value(x))).collect()),
    }
}

/// Calls `serde_json::from_str::<serde_json::Value>` and converts the
/// document. The contract claims only that the result is a function of the
/// text; which texts are JSON, and the document read, are left unsaid.
#[verifier::external_body]
fn parse_json(text: &str) -> (r: Option<JsonValue>)
    ensures
        r == spec_parse_json(text@),
{
    match serde_json::from_str::<serde_json::Value>(text) {
        Ok(v) => Some(json_from_value(v)),
        Err(_) => None,
    }
}

/// The error message carried by the text of an error answer: `Err` where the
/// text is no JSON document, else the message of the document, where it has
/// one.
pub fn extract_request_error(json_str: &str) -> (r: Result<Option<String>, ()>)
    ensures
        (r is Ok) <==> (spec_parse_json(json_str@) is Some),
        r matches Ok(m) ==> m.deep_view() == spec_request_error(spec_parse_json(json_str@)->0),
{
    match parse_json(json_str) {
        Some(v) => Ok(request_error_message(&v)),
        None => Err(()),
    }
}

} // verus!
