//! User-declared command macros, loaded from configuration.
use vstd::prelude::*;

verus! {

/// How a custom command's content is used.
#[derive(Clone, Copy, Debug, PartialEq, Eq)]
pub enum CustomCommandType {
    Shell,
    Prompt,
}

/// A user macro: a shell line or a prompt, with scheduling flags and the
/// names of the commands it runs after.
#[derive(Clone, Debug)]
pub struct CustomCommand {
    pub name: String,
    pub description: String,
    pub command_type: CustomCommandType,
    pub content: String,
    pub parallel: bool,
    pub depends_on: Vec<String>,
    pub accepts_args: bool,
    pub arg_placeholder: Option<String>,
    pub force_high_reasoning: bool,
}

impl CustomCommand {
    /// The name the command is invoked by.
    pub fn command(&self) -> (r: &str)
        ensures
            r@ == self.name@,
    {
        self.name.as_str()
    }

    pub fn description(&self) -> (r: &str)
        ensures
            r@ == self.description@,
    {
        self.description.as_str()
    }
}

} // verus!
