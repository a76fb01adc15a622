//! Finds the JSON object a model reply carries.
//!
//! A model is asked for JSON but may wrap it in prose or a fenced code
//! block. `parse_json_md` first looks for a ```json fenced block and
//! falls back to a braced payload in the raw text; the payload must then
//! parse as a JSON object. The regular-expression matching and the JSON
//! parse itself are the work of outside crates, named below; this module
//! states exactly which error comes back on which text.

use vstd::prelude::*;

verus! {

/// The first capture group of the leftmost match of `pattern` in `text`;
/// nothing when the pattern does not compile or does not match.
pub uninterp spec fn regex_capture1(pattern: Seq<char>, text: Seq<char>) -> Option<Seq<char>>;

/// Relies on regex::Regex::new, Regex::captures and Captures::get: which
/// text the first capture group of the leftmost match holds depends on
/// the pattern and the haystack alone.
#[verifier::external_body]
fn capture_group1(pattern: &str, text: &str) -> (r: Option<String>)
    ensures
        (r is Some) == (regex_capture1(pattern@, text@) is Some),
        r matches Some(s) ==> regex_capture1(pattern@, text@) == Some(s@),
{
    match regex::Regex::new(pattern) {
        Ok(re) => re.captures(text).and_then(|c| c.get(1)).map(|m| m.as_str().to_string()),
        Err(_) => None,
    }
}

#[verifier::external_type_specification]
#[verifier::external_body]
pub struct ExValue(serde_json::Value);

/// What a text is to the JSON parser: an object, some other JSON value,
/// or not JSON at all.
pub enum JsonShape {
    Object,
    NotObject,
    Invalid,
}

/// The shape of a text under the JSON grammar.
pub uninterp spec fn json_shape(text: Seq<char>) -> JsonShape;

/// Relies on serde_json::from_str::<Value> and Value::is_object: whether
/// a text parses as JSON, and whether its top level is an object, depend
/// on the text alone.
#[verifier::external_body]
fn parse_json_object(s: &str) -> (r: Result<serde_json::Value, JsonShape>)
    ensures
        (r is Ok) == (json_shape(s@) is Object),
        r matches Err(f) ==> f == json_shape(s@) && !(f is Object),
{
    match serde_json::from_str::<serde_json::Value>(s) {
        Ok(v) => {
            if v.is_object() {
                Ok(v)
            } else {
                Err(JsonShape::NotObject)
            }
        },
        Err(_) => Err(JsonShape::Invalid),
    }
}

/// Why no JSON object came out of a reply.
#[derive(Debug)]
pub enum ParserError {
    /// Neither a fenced block nor a braced payload was found.
    NoJsonFound,
    /// A payload was found but does not parse as JSON.
    InvalidJson,
    /// A payload parses as JSON but its top level is no object.
    NotADictionary,
}

impl ParserError {
    /// The rendered cause, for callers that report the failure.
    pub fn message(&self) -> (r: &str)
        ensures
            r@ == (match *self {
                ParserError::NoJsonFound => "No valid JSON block found"@,
                ParserError::InvalidJson => "invalid JSON"@,
                ParserError::NotADictionary => "JSON is not a dictionary"@,
            }),
    {
        match self {
            ParserError::NoJsonFound => "No valid JSON block found",
            ParserError::InvalidJson => "invalid JSON",
            ParserError::NotADictionary => "JSON is not a dictionary",
        }
    }
}

/// The pattern that captures the payload of a ```json fenced block.
pub open spec fn fenced_pattern() -> Seq<char> {
    "```json\\s*(.*[\\s\\S]*?)\\s*```"@
}

/// The pattern that captures a braced payload in the raw text.
pub open spec fn raw_pattern() -> Seq<char> {
    "\\s*(\\{.*[\\s\\S]*\\})\\s*"@
}

/// The payload a reply carries: the fenced block's capture when one
/// matches, else the raw braced capture, else nothing.
pub open spec fn captured_payload(text: Seq<char>) -> Option<Seq<char>> {
    if regex_capture1(fenced_pattern(), text) is Some {
        regex_capture1(fenced_pattern(), text)
    } else {
        regex_capture1(raw_pattern(), text)
    }
}

/// Extracts the JSON object from a model reply: the fenced block's
/// payload when one matches, else the raw braced payload, parsed and
/// required to be an object. Each error names exactly what was missing.
/// The returned value itself is opaque to the contracts; callers decode
/// it further outside the library.
pub fn parse_json_md(ctx: &str) -> (r: Result<serde_json::Value, ParserError>)
    ensures
        (r is Ok) == (captured_payload(ctx@) matches Some(p) && json_shape(p) is Object),
        (r matches Err(e) && e is NoJsonFound) == (captured_payload(ctx@) is None),
        (r matches Err(e) && e is InvalidJson) == (captured_payload(ctx@) matches Some(p)
            && json_shape(p) is Invalid),
        (r matches Err(e) && e is NotADictionary) == (captured_payload(ctx@) matches Some(p)
            && json_shape(p) is NotObject),
{
    let fenced = capture_group1("```json\\s*(.*[\\s\\S]*?)\\s*```", ctx);
    let payload = match fenced {
        Some(p) => Some(p),
        None => capture_group1("\\s*(\\{.*[\\s\\S]*\\})\\s*", ctx),
    };
    match payload {
        None => Err(ParserError::NoJsonFound),
        Some(p) => match parse_json_object(p.as_str()) {
            Ok(v) => Ok(v),
            Err(JsonShape::Invalid) => Err(ParserError::InvalidJson),
            Err(_) => Err(ParserError::NotADictionary),
        },
    }
}

} // verus!
