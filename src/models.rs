//! The items of a conversation that the model sees.
use vstd::prelude::*;

verus! {

/// One conversation item, in the order it was appended.
#[derive(Debug, Clone, PartialEq, Eq)]
pub enum ResponseItem {
    /// A user or assistant message.
    Message { role: String, content: String },
    /// Reasoning text, private to the model.
    Reasoning { content: String },
    /// A call of a named tool with JSON arguments.
    FunctionCall { id: Option<String>, name: String, arguments: String, call_id: String },
    /// The result of an earlier call with the same `call_id`.
    FunctionCallOutput { call_id: String, content: String, success: bool },
    /// A shell command requested directly by the model.
    LocalShellCall { call_id: Option<String>, command: Vec<String> },
    /// Any variant this library does not handle.
    Other,
}

} // verus!
