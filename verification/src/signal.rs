//! Signals routed by the shell and the results of handling them.

use crate::workspace::WorkspaceId;
use vstd::prelude::*;

verus! {

/// App-level chrome signals (tab strip + Home dashboard), not workspace header actions.
#[derive(Debug, Clone, Copy, PartialEq, Eq)]
pub enum AppSignal {
    SelectWorkspace(WorkspaceId),
    /// `+` on the tab strip: always adds Structural Analysis.
    AddWorkspace,
    /// Focus an existing seeded workspace: visibility write + focus update.
    OpenWorkspace(&'static str),
}

/// Analysis-page local actions (InputForm / FieldBuilder).
#[derive(Debug, Clone, Copy, PartialEq, Eq, Structural)]
pub enum AnalysisAction {
    OpenFieldBuilder,
    CancelFieldBuilder,
    ConfirmFieldBuilder,
    FieldKindNumber,
    FieldKindText,
    FieldKindBool,
}

/// Result returned from workspace event handlers.
#[derive(Debug, Clone, Copy, PartialEq, Eq, Structural)]
pub enum HandleResult {
    /// Event was consumed; caller must rebuild the particle tree.
    Rebuild,
    /// Event was consumed; no rebuild needed (e.g. status text update only).
    Consumed,
    /// Event was not handled by this workspace.
    Ignored,
}

/// Responsive workspace breakpoint class.
#[derive(Debug, Clone, Copy, PartialEq, Eq, Structural)]
pub enum ScreenClass {
    /// All 3 pages visible simultaneously.
    Desktop,
    /// Navigation collapses to an icon strip.
    Tablet,
    /// One page fills the screen.
    Mobile,
}

} // verus!
