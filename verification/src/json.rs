//! The JSON layer of the response decoders.
//!
//! The vendor answers every request with a JSON body.  Parsing the text is
//! the JSON library's work and stays behind trusted wrappers; everything a
//! body *means* — which shape it has, whether it is the uniform error
//! envelope — is decided by verified code over a spec-level model of the
//! parsed value.  `Json` is that model: the mathematical tree a parsed value
//! stands for, with objects as maps from key to child and numbers kept as
//! unread atoms.

use vstd::prelude::*;
use vstd::string::*;

verus! {

/// The mathematical model of a parsed JSON value.
pub enum Json {
    Null,
    Bool(bool),
    /// A number; its payload is its decimal text, which this crate never
    /// reads.
    Num(Seq<char>),
    Str(Seq<char>),
    Arr(Seq<Json>),
    Obj(Map<Seq<char>, Json>),
}

#[verifier::external_type_specification]
#[verifier::external_body]
pub struct ExValue(serde_json::Value);

/// The model a parsed JSON value stands for.
pub uninterp spec fn json_model(v: serde_json::Value) -> Json;

/// What the JSON library's parse returns for a text: the model of the parsed
/// value for well-formed JSON, and nothing otherwise.  A function of the
/// text alone.
pub uninterp spec fn json_parse(t: Seq<char>) -> Option<Json>;

/// The models of a sequence of parsed values.
pub open spec fn models_of(vs: Seq<serde_json::Value>) -> Seq<Json> {
    vs.map_values(|v: serde_json::Value| json_model(v))
}

/// Relies on `serde_json::from_str::<Value>`: the parse is a function of the
/// text alone; on failure the library's message describes the failure.
#[verifier::external_body]
pub fn parse_json_text(text: &str) -> (r: Result<serde_json::Value, String>)
    ensures
        match r {
            Ok(v) => json_parse(text@) == Some(json_model(v)),
            Err(_) => json_parse(text@) is None,
        },
{
    match serde_json::from_str::<serde_json::Value>(text) {
        Ok(v) => Ok(v),
        Err(e) => Err(e.to_string()),
    }
}

/// Relies on `serde_json::Value::get` with a string index: on an object it
/// looks the key up, on anything else it returns nothing.
#[verifier::external_body]
pub fn json_get<'a>(v: &'a serde_json::Value, key: &str) -> (r: Option<&'a serde_json::Value>)
    ensures
        match json_model(*v) {
            Json::Obj(m) => {
                if m.dom().contains(key@) {
                    r matches Some(w) && json_model(*w) == m[key@]
                } else {
                    r is None
                }
            },
            _ => r is None,
        },
{
    v.get(key)
}

/// Relies on `serde_json::Value::as_bool`: the payload of a boolean, nothing
/// otherwise.
#[verifier::external_body]
pub fn json_as_bool(v: &serde_json::Value) -> (r: Option<bool>)
    ensures
        match json_model(*v) {
            Json::Bool(b) => r == Some(b),
            _ => r is None,
        },
{
    v.as_bool()
}

/// Relies on `serde_json::Value::as_str`: the payload of a string, nothing
/// otherwise.
#[verifier::external_body]
pub fn json_as_str<'a>(v: &'a serde_json::Value) -> (r: Option<&'a str>)
    ensures
        match json_model(*v) {
            Json::Str(s) => r matches Some(t) && t@ == s,
            _ => r is None,
        },
{
    v.as_str()
}

/// Relies on `serde_json::Value::as_array`: the elements of an array, in
/// order, nothing otherwise.
#[verifier::external_body]
pub fn json_as_array<'a>(v: &'a serde_json::Value) -> (r: Option<&'a Vec<serde_json::Value>>)
    ensures
        match json_model(*v) {
            Json::Arr(a) => r matches Some(vs) && models_of(vs@) == a,
            _ => r is None,
        },
{
    v.as_array()
}

/// Relies on `serde_json::Value::as_object` and `serde_json::Map::iter`:
/// hands out every key/value pair of an object, keys distinct, nothing for a
/// non-object.
#[verifier::external_body]
pub fn json_object_entries(v: &serde_json::Value) -> (r: Option<Vec<(String, serde_json::Value)>>)
    ensures
        match json_model(*v) {
            Json::Obj(m) => r matches Some(es) && {
                &&& forall|i: int, j: int|
                    0 <= i < j < es@.len() ==> (#[trigger] es@[i]).0@ != (#[trigger] es@[j]).0@
                &&& forall|i: int|
                    0 <= i < es@.len() ==> m.dom().contains((#[trigger] es@[i]).0@)
                        && m[es@[i].0@] == json_model(es@[i].1)
                &&& forall|k: Seq<char>|
                    #[trigger] m.dom().contains(k) ==> exists|i: int|
                        0 <= i < es@.len() && (#[trigger] es@[i]).0@ == k
            },
            _ => r is None,
        },
{
    match v.as_object() {
        Some(m) => Some(m.iter().map(|(k, w)| (k.clone(), w.clone())).collect()),
        None => None,
    }
}

/// The message of the uniform error envelope, when the body is one: an
/// object with a boolean `success` field and a string `error` field.
pub open spec fn spec_envelope(j: Json) -> Option<Seq<char>> {
    match j {
        Json::Obj(m) => {
            if m.dom().contains("success"@) && m["success"@] is Bool && m.dom().contains("error"@)
                && m["error"@] is Str {
                Some(m["error"@]->Str_0)
            } else {
                None
            }
        },
        _ => None,
    }
}

/// The vendor's message when the parsed body is the uniform error envelope.
pub fn envelope_error(v: &serde_json::Value) -> (r: Option<String>)
    ensures
        match spec_envelope(json_model(*v)) {
            Some(msg) => r matches Some(s) && s@ == msg,
            None => r is None,
        },
{
    match json_get(v, "success") {
        Some(sv) => match json_as_bool(sv) {
            Some(_) => match json_get(v, "error") {
                Some(ev) => match json_as_str(ev) {
                    Some(s) => Some(String::from_str(s)),
                    None => None,
                },
                None => None,
            },
            None => None,
        },
        None => None,
    }
}

/// The strings of an all-string array, in order; nothing when some element
/// is not a string.
pub open spec fn str_items(a: Seq<Json>) -> Option<Seq<Seq<char>>>
    decreases a.len(),
{
    if a.len() == 0 {
        Some(Seq::empty())
    } else {
        match (str_items(a.drop_last()), a.last()) {
            (Some(p), Json::Str(s)) => Some(p.push(s)),
            _ => None,
        }
    }
}

/// One step of `str_items`, phrased over `push` for loop proofs.
pub proof fn lemma_str_items_push(a: Seq<Json>, x: Json)
    ensures
        str_items(a.push(x)) == (match (str_items(a), x) {
            (Some(p), Json::Str(s)) => Some(p.push(s)),
            _ => None,
        }),
{
    assert(a.push(x).drop_last() =~= a);
    assert(a.push(x).last() == x);
}

/// A failed prefix fails the whole sequence.
pub proof fn lemma_str_items_none(a: Seq<Json>, i: int)
    requires
        0 <= i <= a.len(),
        str_items(a.take(i)) is None,
    ensures
        str_items(a) is None,
    decreases a.len() - i,
{
    if i == a.len() {
        assert(a.take(i) =~= a);
    } else {
        assert(a.take(i + 1) =~= a.take(i).push(a[i]));
        lemma_str_items_push(a.take(i), a[i]);
        lemma_str_items_none(a, i + 1);
    }
}

/// The owned strings of an all-string array of parsed values, in order;
/// nothing when some element is not a string.
pub fn extract_str_items(arr: &Vec<serde_json::Value>) -> (r: Option<Vec<String>>)
    ensures
        match str_items(models_of(arr@)) {
            Some(ss) => r matches Some(out) && out.deep_view() == ss,
            None => r is None,
        },
{
    let ghost a = models_of(arr@);
    let mut out: Vec<String> = Vec::new();
    let mut i: usize = 0;
    proof {
        assert(a.take(0) =~= Seq::<Json>::empty());
        assert(out.deep_view() =~= Seq::<Seq<char>>::empty());
    }
    while i < arr.len()
        invariant
            i <= arr.len(),
            a == models_of(arr@),
            a.len() == arr@.len(),
            str_items(a.take(i as int)) == Some(out.deep_view()),
        decreases arr.len() - i,
    {
        proof {
            assert(a.take(i + 1) =~= a.take(i as int).push(a[i as int]));
            lemma_str_items_push(a.take(i as int), a[i as int]);
        }
        match json_as_str(&arr[i]) {
            Some(s) => {
                let ghost prev = out.deep_view();
                out.push(String::from_str(s));
                proof {
                    assert(out.deep_view() =~= prev.push(s@));
                }
            },
            None => {
                proof {
                    lemma_str_items_none(a, i + 1);
                }
                return None;
            },
        }
        i += 1;
    }
    proof {
        assert(a.take(i as int) =~= a);
    }
    Some(out)
}

} // verus!
