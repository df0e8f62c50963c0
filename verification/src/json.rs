//! Pretty-printing of a JSON chunk payload.  The payload bytes are checked
//! for UTF-8, parsed into a generic JSON value, and re-serialized with
//! indentation.  Parsing and re-serialization are serde_json's work, taken on
//! trust behind the wrappers below; the policy around them — which error is
//! reported when — is verified.

use vstd::prelude::*;
use vstd::utf8::valid_utf8;

verus! {

/// Why a JSON payload could not be rendered.  Local to one chunk: rendering
/// of the other chunks goes on.
#[derive(Debug, Clone, Copy, PartialEq, Eq, Structural)]
pub enum RenderError {
    /// The payload is not valid UTF-8 text.
    InvalidUtf8,
    /// The payload is text but not a well-formed JSON document.
    MalformedJson,
}

#[verifier::external_type_specification]
#[verifier::external_body]
pub struct ExJsonError(serde_json::Error);

/// Whether serde_json's grammar accepts these bytes as one JSON document.
pub uninterp spec fn json_bytes_ok(bytes: Seq<u8>) -> bool;

/// The two-space-indented rendering that serde_json gives a well-formed JSON
/// document; a function of the document bytes alone.
pub uninterp spec fn json_pretty_of(bytes: Seq<u8>) -> Seq<char>;

/// Relies on str::from_utf8: it accepts exactly the valid UTF-8 byte
/// sequences.
#[verifier::external_body]
fn utf8_check(v: &[u8]) -> (r: bool)
    ensures
        r <==> valid_utf8(v@),
{
    std::str::from_utf8(v).is_ok()
}

/// Relies on serde_json::from_slice, whose success is a function of the
/// bytes alone, and serde_json::to_string_pretty, which cannot fail on a
/// `Value` (object keys are strings, and non-finite numbers are written as
/// null rather than rejected) and whose rendering is a function of the value
/// alone.
#[verifier::external_body]
fn json_pretty_from_slice(v: &[u8]) -> (r: Result<String, serde_json::Error>)
    ensures
        r is Ok <==> json_bytes_ok(v@),
        (match r {
            Ok(s) => s@ == json_pretty_of(v@),
            Err(_) => true,
        }),
{
    match serde_json::from_slice::<serde_json::Value>(v) {
        Ok(val) => serde_json::to_string_pretty(&val),
        Err(e) => Err(e),
    }
}

/// Re-renders a JSON text payload with two-space indentation, or says exactly
/// why it cannot: not UTF-8 text, or text that is not one JSON document.
pub fn render_json_payload(data: &[u8]) -> (r: Result<String, RenderError>)
    ensures
        match r {
            Ok(s) => valid_utf8(data@) && json_bytes_ok(data@) && s@ == json_pretty_of(data@),
            Err(RenderError::InvalidUtf8) => !valid_utf8(data@),
            Err(RenderError::MalformedJson) => valid_utf8(data@) && !json_bytes_ok(data@),
        },
{
    if !utf8_check(data) {
        return Err(RenderError::InvalidUtf8);
    }
    match json_pretty_from_slice(data) {
        Ok(s) => Ok(s),
        Err(_) => Err(RenderError::MalformedJson),
    }
}

} // verus!
