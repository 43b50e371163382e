//! Dialog and sidebar state types, and the dialog state-machine step.

use vstd::prelude::*;

verus! {

/// Which dialog is currently open.
pub enum ActiveDialog {
    /// No dialog is open.
    Idle,
    /// Confirm-close-terminal dialog.
    ConfirmClose,
    /// Set-description input dialog, carrying the text typed so far.
    SetDescription { input: String },
}

/// What the host application should do after rendering dialogs.
pub enum DialogAction {
    /// Nothing to do.
    Idle,
    /// The user confirmed closing the focused terminal.
    ConfirmClose,
    /// The user saved a new description for the focused terminal.
    SaveDescription(String),
}

/// Outcome of rendering the confirm-close dialog for one frame.
pub enum ConfirmCloseResult {
    /// Still open, no decision yet.
    Undecided,
    /// The user cancelled.
    Cancelled,
    /// The user confirmed.
    Confirmed,
}

/// Outcome of rendering the set-description dialog for one frame.
pub enum SetDescriptionResult {
    /// Still open, carrying the current input text.
    Open { input: String },
    /// The user cancelled.
    Cancelled,
    /// The user saved the description.
    Saved { description: String },
}

/// An action produced by clicking in the sidebar.
pub enum SidebarAction {
    /// Switch to the workspace at this index.
    SwitchWorkspace(usize),
    /// Focus a terminal: workspace index and terminal index within it.
    FocusTerminal { workspace: usize, terminal: usize },
}

/// Advance the dialog state machine by one frame, given what the open
/// dialog reported, and return what the host should do.
pub fn dialog_step(active: &mut ActiveDialog, confirm: ConfirmCloseResult, set_desc: SetDescriptionResult) -> (r:
    DialogAction)
    ensures
        match *old(active) {
            ActiveDialog::Idle => *final(active) is Idle && r is Idle,
            ActiveDialog::ConfirmClose => match confirm {
                ConfirmCloseResult::Undecided => *final(active) is ConfirmClose && r is Idle,
                ConfirmCloseResult::Cancelled => *final(active) is Idle && r is Idle,
                ConfirmCloseResult::Confirmed => *final(active) is Idle && r is ConfirmClose,
            },
            ActiveDialog::SetDescription { .. } => match set_desc {
                SetDescriptionResult::Open { input } => *final(active) == (ActiveDialog::SetDescription {
                    input,
                }) && r is Idle,
                SetDescriptionResult::Cancelled => *final(active) is Idle && r is Idle,
                SetDescriptionResult::Saved { description } => *final(active) is Idle && r
                    == DialogAction::SaveDescription(description),
            },
        },
{
    match active {
        ActiveDialog::Idle => DialogAction::Idle,
        ActiveDialog::ConfirmClose => match confirm {
            ConfirmCloseResult::Undecided => DialogAction::Idle,
            ConfirmCloseResult::Cancelled => {
                *active = ActiveDialog::Idle;
                DialogAction::Idle
            },
            ConfirmCloseResult::Confirmed => {
                *active = ActiveDialog::Idle;
                DialogAction::ConfirmClose
            },
        },
        ActiveDialog::SetDescription { .. } => match set_desc {
            SetDescriptionResult::Open { input } => {
                *active = ActiveDialog::SetDescription { input };
                DialogAction::Idle
            },
            SetDescriptionResult::Cancelled => {
                *active = ActiveDialog::Idle;
                DialogAction::Idle
            },
            SetDescriptionResult::Saved { description } => {
                *active = ActiveDialog::Idle;
                DialogAction::SaveDescription(description)
            },
        },
    }
}

} // verus!
