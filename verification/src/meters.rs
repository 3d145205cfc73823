//! The "list meters" operation: its query and its response decoder.

use vstd::prelude::*;
use vstd::string::*;

use crate::json::Json;
use crate::json::envelope_error;
use crate::json::json_as_array;
use crate::json::json_as_bool;
use crate::json::json_get;
use crate::json::json_model;
use crate::json::json_parse;
use crate::json::parse_json_text;
use crate::json::spec_envelope;
use crate::json::str_items;
use crate::json::extract_str_items;
use crate::Error;

verus! {

/// An opaque meter identifier.
pub type Meter = String;

/// The catalog of meters the vendor answers a `getMeters` request with.
#[derive(Debug, Clone, Default, PartialEq)]
pub struct Meters {
    pub success: bool,
    pub meters: Vec<Meter>,
}

/// The meters envelope a model stands for: an object with a boolean
/// `success` field and a `meters` array of strings.
pub open spec fn spec_meters_of(j: Json) -> Option<(bool, Seq<Seq<char>>)> {
    match j {
        Json::Obj(m) => {
            if m.dom().contains("success"@) && m["success"@] is Bool && m.dom().contains("meters"@)
                && m["meters"@] is Arr && str_items(m["meters"@]->Arr_0) is Some {
                Some((m["success"@]->Bool_0, str_items(m["meters"@]->Arr_0)->0))
            } else {
                None
            }
        },
        _ => None,
    }
}

fn extract_meters(v: &serde_json::Value) -> (r: Option<Meters>)
    ensures
        match spec_meters_of(json_model(*v)) {
            Some((b, ms)) => r matches Some(out) && out.success == b && out.meters.deep_view()
                == ms,
            None => r is None,
        },
{
    let sv = match json_get(v, "success") {
        Some(x) => x,
        None => {
            return None;
        },
    };
    let b = match json_as_bool(sv) {
        Some(x) => x,
        None => {
            return None;
        },
    };
    let mv = match json_get(v, "meters") {
        Some(x) => x,
        None => {
            return None;
        },
    };
    let arr = match json_as_array(mv) {
        Some(x) => x,
        None => {
            return None;
        },
    };
    let items = match extract_str_items(arr) {
        Some(x) => x,
        None => {
            return None;
        },
    };
    Some(Meters { success: b, meters: items })
}

/// Decode a response body against the meters envelope.  A body of that
/// shape is returned as is; otherwise a body matching the uniform error
/// envelope fails with the vendor's message; any other body fails as a
/// serialization error.
pub fn decode_meters(text: &str) -> (r: crate::Result<Meters>)
    ensures
        match json_parse(text@) {
            None => r matches Err(e) && e is Serialization,
            Some(j) => match spec_meters_of(j) {
                Some((b, ms)) => r matches Ok(out) && out.success == b && out.meters.deep_view()
                    == ms,
                None => match spec_envelope(j) {
                    Some(msg) => r matches Err(e) && e matches Error::Api(s) && s@ == msg,
                    None => r matches Err(e) && e is Serialization,
                },
            },
        },
{
    match parse_json_text(text) {
        Err(msg) => Err(Error::Serialization(msg)),
        Ok(v) => match extract_meters(&v) {
            Some(out) => Ok(out),
            None => match envelope_error(&v) {
                Some(msg) => Err(Error::Api(msg)),
                None => Err(
                    Error::Serialization(
                        String::from_str("response body did not match the meters envelope"),
                    ),
                ),
            },
        },
    }
}

/// The query parameter list of a `getMeters` request.
pub fn meters_query() -> (q: Vec<(String, String)>)
    ensures
        q@.len() == 1,
        q@[0].0@ == "request"@,
        q@[0].1@ == "getMeters"@,
{
    let mut q: Vec<(String, String)> = Vec::new();
    q.push((String::from_str("request"), String::from_str("getMeters")));
    q
}

} // verus!
