use vstd::prelude::*;

verus! {

use vstd::pervasive::unreached;

use crate::data::Data;
use crate::data::PostView;
use crate::json::encode_data;
use crate::json::json_of_data;

#[verifier::external_type_specification]
#[verifier::external_body]
pub struct ExValue(serde_json::Value);

#[verifier::external_type_specification]
#[verifier::external_body]
pub struct ExContext(tera::Context);

/// A JSON text that is the library's own encoding of some data value. Such a
/// text is a well-formed JSON document whose top level is an object.
pub open spec fn is_data_document(s: Seq<char>) -> bool {
    exists|d: Seq<PostView>| s == json_of_data(d)
}

/// Whether a parsed JSON value is an object at its top level.
pub uninterp spec fn is_object_value(v: serde_json::Value) -> bool;

/// The value tree that a JSON document parses to; the parse depends on the
/// document's characters alone.
pub uninterp spec fn parsed_value(s: Seq<char>) -> serde_json::Value;

/// The engine context that wraps a top-level JSON object; it depends on the
/// value alone.
pub uninterp spec fn context_of_value(v: serde_json::Value) -> tera::Context;

/// Relies on serde_json::from_str: parses a JSON document into the parser's
/// value tree — a function of the document's characters alone — and fails on
/// anything else. A well-formed document within the parser's depth budget
/// always parses, and the library's own data document — four levels deep,
/// every string escaped — parses to its top-level object. A failure comes
/// back as the parser's message.
#[verifier::external_body]
fn parse_json_value(json: &str) -> (r: Result<serde_json::Value, String>)
    ensures
        match r {
            Ok(v) => v == parsed_value(json@) && (is_data_document(json@) ==> is_object_value(v)),
            Err(_) => !is_data_document(json@),
        },
{
    serde_json::from_str(json).map_err(|e| format!("{}", e))
}

/// Relies on tera::Context::from_value: a value that is an object at its top
/// level becomes the engine's context — a function of the value alone —
/// anything else an error, which comes back as the engine's message.
#[verifier::external_body]
fn context_from_value(value: serde_json::Value) -> (r: Result<tera::Context, String>)
    ensures
        match r {
            Ok(c) => c == context_of_value(value),
            Err(_) => !is_object_value(value),
        },
{
    tera::Context::from_value(value).map_err(|e| format!("{}", e))
}

/// Builds the engine context that `data` denotes: the JSON document
/// `json_of_data(data@)`, parsed and wrapped for the engine. The document is
/// the library's own encoding, which both steps are stated to accept, so the
/// two failure paths are proved unreachable and this function never fails.
pub fn context_of_data(data: &Data) -> (r: tera::Context)
    ensures
        r == context_of_value(parsed_value(json_of_data(data@))),
{
    let json = encode_data(data);
    proof {
        assert(json@ == json_of_data(data@));
        assert(is_data_document(json@));
    }
    let value = match parse_json_value(json.as_str()) {
        Ok(v) => v,
        Err(_) => unreached(),
    };
    match context_from_value(value) {
        Ok(c) => c,
        Err(_) => unreached(),
    }
}

} // verus!
