//! The "list topics" operation: its query and its response decoder.

use vstd::prelude::*;
use vstd::string::*;

use crate::json::Json;
use crate::json::envelope_error;
use crate::json::json_as_array;
use crate::json::json_as_bool;
use crate::json::json_as_str;
use crate::json::json_get;
use crate::json::json_model;
use crate::json::json_parse;
use crate::json::models_of;
use crate::json::parse_json_text;
use crate::json::spec_envelope;
use crate::Error;

verus! {

/// One catalog entry: a unit shorthand, the key legal in a data query's
/// topic list, and a full description.
#[derive(Debug, Clone, Default, PartialEq)]
pub struct Topic {
    pub unit: String,
    pub request_key: String,
    pub description: String,
}

impl View for Topic {
    type V = (Seq<char>, Seq<char>, Seq<char>);

    open spec fn view(&self) -> Self::V {
        (self.unit@, self.request_key@, self.description@)
    }
}

impl DeepView for Topic {
    type V = (Seq<char>, Seq<char>, Seq<char>);

    open spec fn deep_view(&self) -> Self::V {
        self@
    }
}

/// The catalog of topics the vendor answers a `getTopics` request with.
#[derive(Debug, Clone, Default, PartialEq)]
pub struct Topics {
    pub success: bool,
    pub topics: Vec<Topic>,
}

/// The catalog entry a model stands for: an object with string fields
/// `unit`, `requestKey` (so named on the wire) and `description`.
pub open spec fn spec_topic_of(j: Json) -> Option<(Seq<char>, Seq<char>, Seq<char>)> {
    match j {
        Json::Obj(m) => {
            if m.dom().contains("unit"@) && m["unit"@] is Str && m.dom().contains("requestKey"@)
                && m["requestKey"@] is Str && m.dom().contains("description"@)
                && m["description"@] is Str {
                Some((m["unit"@]->Str_0, m["requestKey"@]->Str_0, m["description"@]->Str_0))
            } else {
                None
            }
        },
        _ => None,
    }
}

/// The catalog entries of an array of models, in order; nothing when some
/// element is not a catalog entry.
pub open spec fn topic_items(a: Seq<Json>) -> Option<Seq<(Seq<char>, Seq<char>, Seq<char>)>>
    decreases a.len(),
{
    if a.len() == 0 {
        Some(Seq::empty())
    } else {
        match (topic_items(a.drop_last()), spec_topic_of(a.last())) {
            (Some(p), Some(t)) => Some(p.push(t)),
            _ => None,
        }
    }
}

/// One step of `topic_items`, phrased over `push` for loop proofs.
pub proof fn lemma_topic_items_push(a: Seq<Json>, x: Json)
    ensures
        topic_items(a.push(x)) == (match (topic_items(a), spec_topic_of(x)) {
            (Some(p), Some(t)) => Some(p.push(t)),
            _ => None,
        }),
{
    assert(a.push(x).drop_last() =~= a);
    assert(a.push(x).last() == x);
}

/// A failed prefix fails the whole sequence.
pub proof fn lemma_topic_items_none(a: Seq<Json>, i: int)
    requires
        0 <= i <= a.len(),
        topic_items(a.take(i)) is None,
    ensures
        topic_items(a) is None,
    decreases a.len() - i,
{
    if i == a.len() {
        assert(a.take(i) =~= a);
    } else {
        assert(a.take(i + 1) =~= a.take(i).push(a[i]));
        lemma_topic_items_push(a.take(i), a[i]);
        lemma_topic_items_none(a, i + 1);
    }
}

/// The topics envelope a model stands for: an object with a boolean
/// `success` field and a `topics` array of catalog entries.
pub open spec fn spec_topics_of(j: Json) -> Option<(bool, Seq<(Seq<char>, Seq<char>, Seq<char>)>)> {
    match j {
        Json::Obj(m) => {
            if m.dom().contains("success"@) && m["success"@] is Bool && m.dom().contains("topics"@)
                && m["topics"@] is Arr && topic_items(m["topics"@]->Arr_0) is Some {
                Some((m["success"@]->Bool_0, topic_items(m["topics"@]->Arr_0)->0))
            } else {
                None
            }
        },
        _ => None,
    }
}

fn extract_topic(v: &serde_json::Value) -> (r: Option<Topic>)
    ensures
        match spec_topic_of(json_model(*v)) {
            Some(t) => r matches Some(out) && out@ == t,
            None => r is None,
        },
{
    let uv = match json_get(v, "unit") {
        Some(x) => x,
        None => {
            return None;
        },
    };
    let unit = match json_as_str(uv) {
        Some(x) => x,
        None => {
            return None;
        },
    };
    let kv = match json_get(v, "requestKey") {
        Some(x) => x,
        None => {
            return None;
        },
    };
    let request_key = match json_as_str(kv) {
        Some(x) => x,
        None => {
            return None;
        },
    };
    let dv = match json_get(v, "description") {
        Some(x) => x,
        None => {
            return None;
        },
    };
    let description = match json_as_str(dv) {
        Some(x) => x,
        None => {
            return None;
        },
    };
    Some(
        Topic {
            unit: String::from_str(unit),
            request_key: String::from_str(request_key),
            description: String::from_str(description),
        },
    )
}

fn extract_topics(v: &serde_json::Value) -> (r: Option<Topics>)
    ensures
        match spec_topics_of(json_model(*v)) {
            Some((b, ts)) => r matches Some(out) && out.success == b && out.topics.deep_view()
                == ts,
            None => r is None,
        },
{
    let sv = match json_get(v, "success") {
        Some(x) => x,
        None => {
            return None;
        },
    };
    let b = match json_as_bool(sv) {
        Some(x) => x,
        None => {
            return None;
        },
    };
    let tv = match json_get(v, "topics") {
        Some(x) => x,
        None => {
            return None;
        },
    };
    let arr = match json_as_array(tv) {
        Some(x) => x,
        None => {
            return None;
        },
    };
    let ghost a = models_of(arr@);
    let mut out: Vec<Topic> = Vec::new();
    let mut i: usize = 0;
    proof {
        assert(a.take(0) =~= Seq::<Json>::empty());
        assert(out.deep_view() =~= Seq::<(Seq<char>, Seq<char>, Seq<char>)>::empty());
    }
    while i < arr.len()
        invariant
            i <= arr.len(),
            a == models_of(arr@),
            a.len() == arr@.len(),
            spec_topics_of(json_model(*v)) matches Some((bb, ts)) && bb == b && ts == topic_items(
                a,
            )->0 || spec_topics_of(json_model(*v)) is None,
            json_model(*v) matches Json::Obj(m) && m.dom().contains("topics"@) && m["topics"@]
                is Arr && m["topics"@]->Arr_0 == a,
            topic_items(a.take(i as int)) == Some(out.deep_view()),
        decreases arr.len() - i,
    {
        proof {
            assert(a.take(i + 1) =~= a.take(i as int).push(a[i as int]));
            lemma_topic_items_push(a.take(i as int), a[i as int]);
        }
        match extract_topic(&arr[i]) {
            Some(t) => {
                let ghost prev = out.deep_view();
                let ghost tv_ = t@;
                out.push(t);
                proof {
                    assert(out.deep_view() =~= prev.push(tv_));
                }
            },
            None => {
                proof {
                    lemma_topic_items_none(a, i + 1);
                }
                return None;
            },
        }
        i += 1;
    }
    proof {
        assert(a.take(i as int) =~= a);
    }
    Some(Topics { success: b, topics: out })
}

/// Decode a response body against the topics envelope.  A body of that
/// shape is returned as is; otherwise a body matching the uniform error
/// envelope fails with the vendor's message; any other body fails as a
/// serialization error.
pub fn decode_topics(text: &str) -> (r: crate::Result<Topics>)
    ensures
        match json_parse(text@) {
            None => r matches Err(e) && e is Serialization,
            Some(j) => match spec_topics_of(j) {
                Some((b, ts)) => r matches Ok(out) && out.success == b && out.topics.deep_view()
                    == ts,
                None => match spec_envelope(j) {
                    Some(msg) => r matches Err(e) && e matches Error::Api(s) && s@ == msg,
                    None => r matches Err(e) && e is Serialization,
                },
            },
        },
{
    match parse_json_text(text) {
        Err(msg) => Err(Error::Serialization(msg)),
        Ok(v) => match extract_topics(&v) {
            Some(out) => Ok(out),
            None => match envelope_error(&v) {
                Some(msg) => Err(Error::Api(msg)),
                None => Err(
                    Error::Serialization(
                        String::from_str("response body did not match the topics envelope"),
                    ),
                ),
            },
        },
    }
}

/// The query parameter list of a `getTopics` request.
pub fn topics_query() -> (q: Vec<(String, String)>)
    ensures
        q@.len() == 1,
        q@[0].0@ == "request"@,
        q@[0].1@ == "getTopics"@,
{
    let mut q: Vec<(String, String)> = Vec::new();
    q.push((String::from_str("request"), String::from_str("getTopics")));
    q
}

} // verus!
