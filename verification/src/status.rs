//! Container lifecycle status and the quick status filter.

use vstd::prelude::*;
use crate::text::{eq_ci, eq_ignore_ascii_case};

verus! {

/// Lifecycle status of a container; `NotDeployed` is the absent/zero state.
#[derive(Debug, Clone, Copy, PartialEq, Eq, Structural)]
pub enum ContainerStatus {
    Running,
    Exited,
    Paused,
    Created,
    Restarting,
    Removing,
    Dead,
    NotDeployed,
}

/// Status that a raw runtime state string denotes, compared up to ASCII case;
/// anything unrecognised maps to `NotDeployed`.
pub open spec fn status_of_state(s: Seq<char>) -> ContainerStatus {
    if eq_ci(s, "running"@) {
        ContainerStatus::Running
    } else if eq_ci(s, "exited"@) {
        ContainerStatus::Exited
    } else if eq_ci(s, "paused"@) {
        ContainerStatus::Paused
    } else if eq_ci(s, "created"@) {
        ContainerStatus::Created
    } else if eq_ci(s, "restarting"@) {
        ContainerStatus::Restarting
    } else if eq_ci(s, "removing"@) {
        ContainerStatus::Removing
    } else if eq_ci(s, "dead"@) {
        ContainerStatus::Dead
    } else {
        ContainerStatus::NotDeployed
    }
}

impl ContainerStatus {
    /// Parse the raw state string the runtime reports, ignoring ASCII case.
    pub fn from_docker_state(state: &str) -> (r: Self)
        ensures
            r == status_of_state(state@),
    {
        if eq_ignore_ascii_case(state, "running") {
            ContainerStatus::Running
        } else if eq_ignore_ascii_case(state, "exited") {
            ContainerStatus::Exited
        } else if eq_ignore_ascii_case(state, "paused") {
            ContainerStatus::Paused
        } else if eq_ignore_ascii_case(state, "created") {
            ContainerStatus::Created
        } else if eq_ignore_ascii_case(state, "restarting") {
            ContainerStatus::Restarting
        } else if eq_ignore_ascii_case(state, "removing") {
            ContainerStatus::Removing
        } else if eq_ignore_ascii_case(state, "dead") {
            ContainerStatus::Dead
        } else {
            ContainerStatus::NotDeployed
        }
    }

    /// Display form of the status.
    pub fn as_str(&self) -> (r: &'static str)
        ensures
            *self == ContainerStatus::Running ==> r@ == "running"@,
            *self == ContainerStatus::Exited ==> r@ == "exited"@,
            *self == ContainerStatus::Paused ==> r@ == "paused"@,
            *self == ContainerStatus::Created ==> r@ == "created"@,
            *self == ContainerStatus::Restarting ==> r@ == "restarting"@,
            *self == ContainerStatus::Removing ==> r@ == "removing"@,
            *self == ContainerStatus::Dead ==> r@ == "dead"@,
            *self == ContainerStatus::NotDeployed ==> r@ == "not deployed"@,
    {
        match self {
            ContainerStatus::Running => "running",
            ContainerStatus::Exited => "exited",
            ContainerStatus::Paused => "paused",
            ContainerStatus::Created => "created",
            ContainerStatus::Restarting => "restarting",
            ContainerStatus::Removing => "removing",
            ContainerStatus::Dead => "dead",
            ContainerStatus::NotDeployed => "not deployed",
        }
    }

    /// The container is currently running.
    pub fn is_running(&self) -> (r: bool)
        ensures
            r == (*self == ContainerStatus::Running),
    {
        matches!(self, ContainerStatus::Running)
    }

    /// The container still holds resources worth sampling: running containers
    /// and paused ones, which retain their memory and GPU allocations.
    pub fn is_active(&self) -> (r: bool)
        ensures
            r == (*self == ContainerStatus::Running || *self == ContainerStatus::Paused),
    {
        matches!(self, ContainerStatus::Running | ContainerStatus::Paused)
    }
}

impl Default for ContainerStatus {
    fn default() -> (r: Self)
        ensures
            r == ContainerStatus::NotDeployed,
    {
        ContainerStatus::NotDeployed
    }
}

/// Quick status filter over the container list: a pure projection parameter.
#[derive(Debug, Clone, Copy, PartialEq, Eq, Structural)]
pub enum StatusFilter {
    /// Show every container.
    All,
    /// Show every container, grouped by compose project with header rows.
    Groups,
    /// Only running containers.
    Running,
    /// Every container that is not running (exited, created, dead, ...).
    Stopped,
}

impl StatusFilter {
    /// The filter state after one cycle step.
    pub open spec fn spec_cycle(&self) -> Self {
        match *self {
            StatusFilter::All => StatusFilter::Groups,
            StatusFilter::Groups => StatusFilter::Running,
            StatusFilter::Running => StatusFilter::Stopped,
            StatusFilter::Stopped => StatusFilter::All,
        }
    }

    /// Cycle to the next filter state.
    #[verifier::when_used_as_spec(spec_cycle)]
    pub fn cycle(&self) -> (r: Self)
        ensures
            r == self.spec_cycle(),
    {
        match self {
            StatusFilter::All => StatusFilter::Groups,
            StatusFilter::Groups => StatusFilter::Running,
            StatusFilter::Running => StatusFilter::Stopped,
            StatusFilter::Stopped => StatusFilter::All,
        }
    }

    /// Display name of the filter.
    pub fn as_str(&self) -> (r: &'static str)
        ensures
            *self == StatusFilter::All ==> r@ == "All"@,
            *self == StatusFilter::Groups ==> r@ == "Groups"@,
            *self == StatusFilter::Running ==> r@ == "Running"@,
            *self == StatusFilter::Stopped ==> r@ == "Stopped"@,
    {
        match self {
            StatusFilter::All => "All",
            StatusFilter::Groups => "Groups",
            StatusFilter::Running => "Running",
            StatusFilter::Stopped => "Stopped",
        }
    }
}

impl Default for StatusFilter {
    fn default() -> (r: Self)
        ensures
            r == StatusFilter::All,
    {
        StatusFilter::All
    }
}

/// Whether a container of status `s` passes status filter `f`.
///
/// `All` and `Groups` exclude nothing; `Running` keeps only running
/// containers; `Stopped` keeps everything that is not running, a deliberately
/// broad bucket that includes paused, exited, created and dead containers.
pub open spec fn status_passes(f: StatusFilter, s: ContainerStatus) -> bool {
    match f {
        StatusFilter::All => true,
        StatusFilter::Groups => true,
        StatusFilter::Running => s == ContainerStatus::Running,
        StatusFilter::Stopped => s != ContainerStatus::Running,
    }
}

/// A paused container is excluded by the `Running` filter yet included by the
/// `Stopped` filter: "stopped" means "not running", not merely "exited".
pub proof fn lemma_paused_filter_semantics()
    ensures
        !status_passes(StatusFilter::Running, ContainerStatus::Paused),
        status_passes(StatusFilter::Stopped, ContainerStatus::Paused),
{
}

} // verus!
