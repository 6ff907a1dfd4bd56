//! Approval and sandbox policies that decide how commands run.
use vstd::prelude::*;

verus! {

#[verifier::external_type_specification]
#[verifier::external_body]
pub struct ExPathBuf(std::path::PathBuf);

/// When to ask the user before running a command.
#[derive(Debug, Clone, Copy, PartialEq, Eq)]
pub enum AskForApproval {
    /// Only commands known to be safe run without asking.
    UnlessTrusted,
    /// Everything runs in the sandbox; failures are escalated to the user.
    OnFailure,
    /// The model decides when to ask.
    OnRequest,
    /// Never ask; failures go back to the model.
    Never,
}

/// What a command may touch.
#[derive(Debug, Clone)]
pub enum SandboxPolicy {
    DangerFullAccess,
    ReadOnly,
    WorkspaceWrite {
        writable_roots: Vec<std::path::PathBuf>,
        network_access: bool,
        exclude_tmpdir_env_var: bool,
        exclude_slash_tmp: bool,
    },
}

/// How the apply-patch tool is offered to the model.
#[derive(Debug, Clone, Copy, PartialEq, Eq, Hash)]
pub enum ApplyPatchToolType {
    Freeform,
    Function,
}

impl SandboxPolicy {
    /// Writes confined to the workspace, no extra roots, no network, and the
    /// temporary directories writable.
    pub fn new_workspace_write_policy() -> (r: Self)
        ensures
            r matches SandboxPolicy::WorkspaceWrite {
                writable_roots,
                network_access,
                exclude_tmpdir_env_var,
                exclude_slash_tmp,
            } && writable_roots@.len() == 0 && !network_access && !exclude_tmpdir_env_var
                && !exclude_slash_tmp,
    {
        SandboxPolicy::WorkspaceWrite {
            writable_roots: Vec::new(),
            network_access: false,
            exclude_tmpdir_env_var: false,
            exclude_slash_tmp: false,
        }
    }
}

impl Default for AskForApproval {
    fn default() -> (r: Self)
        ensures
            r == AskForApproval::OnRequest,
    {
        AskForApproval::OnRequest
    }
}

/// Whether a command runs without asking the user: under `Never` always,
/// under `UnlessTrusted` only when the classifier finds it safe; under the
/// other policies the sandbox or the model decides, so the classifier's
/// answer stands.
pub open spec fn auto_approved(policy: AskForApproval, known_safe: bool) -> bool {
    match policy {
        AskForApproval::Never => true,
        _ => known_safe,
    }
}

pub fn is_auto_approved(policy: AskForApproval, known_safe: bool) -> (r: bool)
    ensures
        r == auto_approved(policy, known_safe),
{
    match policy {
        AskForApproval::Never => true,
        _ => known_safe,
    }
}

} // verus!
