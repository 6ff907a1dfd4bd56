//! Reading error responses of the model server.
use vstd::prelude::*;

verus! {

/// The string at `error.message` of a JSON object text, when the text parses
/// and that value is a string.
pub uninterp spec fn json_error_message(text: Seq<char>) -> Option<Seq<char>>;

/// Relies on `serde_json::from_str` into a `serde_json::Value` and its
/// accessors: the string at `error.message`, if any.
#[verifier::external_body]
fn error_message_field(text: &str) -> (r: Option<String>)
    ensures
        match r {
            Some(m) => json_error_message(text@) == Some(m@),
            None => json_error_message(text@) is None,
        },
{
    let v: serde_json::Value = serde_json::from_str(text).ok()?;
    v.get("error")?.get("message")?.as_str().map(|s| s.to_string())
}

/// The message to show for an error response: the `error.message` of a JSON
/// body, else the body itself, else `Unknown error` for an empty body.
pub open spec fn error_message_for(text: Seq<char>, field: Option<Seq<char>>) -> Seq<char> {
    match field {
        Some(m) => m,
        None => if text.len() == 0 {
            "Unknown error"@
        } else {
            text
        },
    }
}

/// The message for an error body whose `error.message` field is `field`.
pub fn error_message_from(text: &str, field: Option<String>) -> (r: String)
    ensures
        r@ == error_message_for(text@, match field {
            Some(m) => Some(m@),
            None => None,
        }),
{
    match field {
        Some(m) => m,
        None => {
            if text.is_empty() {
                String::from_str("Unknown error")
            } else {
                String::from_str(text)
            }
        },
    }
}

/// The message to show for an error response body.
pub fn try_parse_error_message(text: &str) -> (r: String)
    ensures
        r@ == error_message_for(text@, json_error_message(text@)),
{
    let field = error_message_field(text);
    error_message_from(text, field)
}

} // verus!
