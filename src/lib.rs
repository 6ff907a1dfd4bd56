//! Core of a local coding-agent runtime: command safety classification,
//! command summaries, output truncation, tool-call scheduling and the
//! session journal.

pub mod text;
pub mod script;
pub mod safety;
pub mod truncate;
pub mod custom_command;
pub mod dependencies;
pub mod models;
pub mod parallel;
pub mod batch;
pub mod rate_limit;
pub mod exec_command;
pub mod rollout;
pub mod jsonl;
pub mod util;
pub mod protocol;
pub mod mcp_popup;
pub mod summary_args;
pub mod summary;
pub mod parse_command;
