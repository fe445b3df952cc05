//! Sandbox policies and the policy a subagent runs under.
use crate::definition::SubAgentMode;
use vstd::prelude::*;

verus! {

/// The permissions under which a delegated execution runs.
#[derive(Debug)]
pub enum SandboxPolicy {
    /// No restriction at all.
    DangerFullAccess,
    /// Read access only.
    ReadOnly,
    /// Read access everywhere, write access to the workspace and the
    /// roots listed.
    WorkspaceWrite {
        writable_roots: Vec<String>,
        network_access: bool,
        exclude_tmpdir_env_var: bool,
        exclude_slash_tmp: bool,
    },
}

/// Mathematical content of a [`SandboxPolicy`].
pub enum SandboxPolicyView {
    DangerFullAccess,
    ReadOnly,
    WorkspaceWrite {
        writable_roots: Seq<Seq<char>>,
        network_access: bool,
        exclude_tmpdir_env_var: bool,
        exclude_slash_tmp: bool,
    },
}

impl View for SandboxPolicy {
    type V = SandboxPolicyView;

    open spec fn view(&self) -> SandboxPolicyView {
        match self {
            SandboxPolicy::DangerFullAccess => SandboxPolicyView::DangerFullAccess,
            SandboxPolicy::ReadOnly => SandboxPolicyView::ReadOnly,
            SandboxPolicy::WorkspaceWrite {
                writable_roots,
                network_access,
                exclude_tmpdir_env_var,
                exclude_slash_tmp,
            } => SandboxPolicyView::WorkspaceWrite {
                writable_roots: writable_roots.deep_view(),
                network_access: *network_access,
                exclude_tmpdir_env_var: *exclude_tmpdir_env_var,
                exclude_slash_tmp: *exclude_slash_tmp,
            },
        }
    }
}

/// Whether a policy leaves the network open: always without restrictions,
/// never when read-only, and by its flag for a workspace-write policy.
pub open spec fn full_network_access(policy: SandboxPolicyView) -> bool {
    match policy {
        SandboxPolicyView::DangerFullAccess => true,
        SandboxPolicyView::ReadOnly => false,
        SandboxPolicyView::WorkspaceWrite { network_access, .. } => network_access,
    }
}

/// The workspace-write policy with no further root, no network access and
/// no exclusion.
pub open spec fn workspace_write_policy() -> SandboxPolicyView {
    SandboxPolicyView::WorkspaceWrite {
        writable_roots: Seq::empty(),
        network_access: false,
        exclude_tmpdir_env_var: false,
        exclude_slash_tmp: false,
    }
}

/// The policy a subagent of the given mode runs under, where `default` is
/// the caller's policy. Read-only and unrestricted modes fix the policy. A
/// full-auto subagent writes to the workspace only; it has the caller's
/// network access, and the caller's exclusions where the caller has a
/// workspace-write policy itself.
pub open spec fn derived_policy(
    mode: SubAgentMode,
    default: SandboxPolicyView,
) -> SandboxPolicyView {
    match mode {
        SubAgentMode::ReadOnly => SandboxPolicyView::ReadOnly,
        SubAgentMode::DangerFullAccess => SandboxPolicyView::DangerFullAccess,
        SubAgentMode::FullAuto => SandboxPolicyView::WorkspaceWrite {
            writable_roots: Seq::empty(),
            network_access: full_network_access(default),
            exclude_tmpdir_env_var: match default {
                SandboxPolicyView::WorkspaceWrite { exclude_tmpdir_env_var, .. } => {
                    exclude_tmpdir_env_var
                },
                _ => false,
            },
            exclude_slash_tmp: match default {
                SandboxPolicyView::WorkspaceWrite { exclude_slash_tmp, .. } => exclude_slash_tmp,
                _ => false,
            },
        },
    }
}

impl SandboxPolicy {
    /// The read-only policy.
    pub fn new_read_only_policy() -> (policy: Self)
        ensures
            policy@ == SandboxPolicyView::ReadOnly,
    {
        SandboxPolicy::ReadOnly
    }

    /// The workspace-write policy with no further root, no network access
    /// and no exclusion.
    pub fn new_workspace_write_policy() -> (policy: Self)
        ensures
            policy@ == workspace_write_policy(),
    {
        let writable_roots: Vec<String> = Vec::new();
        assert(writable_roots.deep_view() =~= Seq::<Seq<char>>::empty());
        SandboxPolicy::WorkspaceWrite {
            writable_roots,
            network_access: false,
            exclude_tmpdir_env_var: false,
            exclude_slash_tmp: false,
        }
    }

    /// Whether the policy leaves the network open.
    pub fn has_full_network_access(&self) -> (open: bool)
        ensures
            open == full_network_access(self@),
    {
        match self {
            SandboxPolicy::DangerFullAccess => true,
            SandboxPolicy::ReadOnly => false,
            SandboxPolicy::WorkspaceWrite { network_access, .. } => *network_access,
        }
    }
}

/// Derives the policy a subagent of the given mode runs under from the
/// caller's policy.
pub fn sandbox_policy_for_mode(mode: SubAgentMode, default: &SandboxPolicy) -> (policy:
    SandboxPolicy)
    ensures
        policy@ == derived_policy(mode, default@),
{
    match mode {
        SubAgentMode::ReadOnly => SandboxPolicy::new_read_only_policy(),
        SubAgentMode::FullAuto => {
            let (default_exclude_tmpdir, default_exclude_slash_tmp) = match default {
                SandboxPolicy::WorkspaceWrite { exclude_tmpdir_env_var, exclude_slash_tmp, .. } => (
                    *exclude_tmpdir_env_var,
                    *exclude_slash_tmp,
                ),
                _ => (false, false),
            };
            let writable_roots: Vec<String> = Vec::new();
            assert(writable_roots.deep_view() =~= Seq::<Seq<char>>::empty());
            SandboxPolicy::WorkspaceWrite {
                writable_roots,
                network_access: default.has_full_network_access(),
                exclude_tmpdir_env_var: default_exclude_tmpdir,
                exclude_slash_tmp: default_exclude_slash_tmp,
            }
        },
        SubAgentMode::DangerFullAccess => SandboxPolicy::DangerFullAccess,
    }
}

} // verus!
