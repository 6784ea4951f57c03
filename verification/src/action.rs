//! User intents and their mapping onto runtime-mutating commands.

use vstd::prelude::*;

verus! {

/// Actions that can be performed in the application.
#[derive(Debug, Clone)]
pub enum Action {
    // Navigation
    Up,
    Down,
    Top,
    Bottom,
    Left,
    Right,
    // Container operations
    StartContainer(String),
    StopContainer(String),
    RestartContainer(String),
    DeleteContainer(String),
    PauseContainer(String),
    UnpauseContainer(String),
    RenameContainer(String, String),
    // Views
    ViewLogs(String),
    ViewDetails,
    BackToList,
    // Modals
    ShowHelp,
    ShowConfirmDelete(String),
    ShowConfirmStop(String),
    ShowRename(String),
    ShowProcesses(String),
    ShowCopyFiles(String),
    CloseModal,
    ConfirmAction,
    // File copy
    CopyFromContainer(String, String, String),
    CopyToContainer(String, String, String),
    // Filters and dashboards
    CycleStatusFilter,
    ToggleSessionDashboard,
    RefreshSessions,
    ResumeSession,
    // App control
    Refresh,
    Quit,
    /// Timer tick for periodic refresh.
    Tick,
    /// No action.
    Noop,
}

/// One runtime-mutating call, the unit the dispatcher hands to the adapter.
/// Each is followed by a forced full entity refresh.
#[derive(Debug, Clone)]
pub enum RuntimeCommand {
    Start(String),
    Stop(String),
    Restart(String),
    Remove(String),
    Pause(String),
    Unpause(String),
    Rename(String, String),
}

/// Map a user intent onto the runtime-mutating call it stands for: exactly
/// one call per mutating intent, none for anything else.
pub fn runtime_command(action: &Action) -> (r: Option<RuntimeCommand>)
    ensures
        match *action {
            Action::StartContainer(ref n) => r matches Some(RuntimeCommand::Start(ref m))
                && m@ == n@,
            Action::StopContainer(ref n) => r matches Some(RuntimeCommand::Stop(ref m)) && m@
                == n@,
            Action::RestartContainer(ref n) => r matches Some(RuntimeCommand::Restart(ref m))
                && m@ == n@,
            Action::DeleteContainer(ref n) => r matches Some(RuntimeCommand::Remove(ref m)) && m@
                == n@,
            Action::PauseContainer(ref n) => r matches Some(RuntimeCommand::Pause(ref m)) && m@
                == n@,
            Action::UnpauseContainer(ref n) => r matches Some(RuntimeCommand::Unpause(ref m))
                && m@ == n@,
            Action::RenameContainer(ref a, ref b) => r matches Some(
                RuntimeCommand::Rename(ref x, ref y),
            ) && x@ == a@ && y@ == b@,
            _ => r is None,
        },
{
    match action {
        Action::StartContainer(n) => Some(RuntimeCommand::Start(n.clone())),
        Action::StopContainer(n) => Some(RuntimeCommand::Stop(n.clone())),
        Action::RestartContainer(n) => Some(RuntimeCommand::Restart(n.clone())),
        Action::DeleteContainer(n) => Some(RuntimeCommand::Remove(n.clone())),
        Action::PauseContainer(n) => Some(RuntimeCommand::Pause(n.clone())),
        Action::UnpauseContainer(n) => Some(RuntimeCommand::Unpause(n.clone())),
        Action::RenameContainer(a, b) => Some(RuntimeCommand::Rename(a.clone(), b.clone())),
        _ => None,
    }
}

} // verus!
