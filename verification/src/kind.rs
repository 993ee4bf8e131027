use vstd::prelude::*;

verus! {

/// Kind of workspace hosted in the app shell.
#[derive(Debug, Clone, Copy, PartialEq, Eq, Structural)]
pub enum WorkspaceKind {
    /// Structural Analysis
    Analysis,
    /// Project Management
    PM,
    /// Home dashboard
    Home,
    /// Stub workspace with no header (demo tab).
    Empty,
}

/// The title shown for a workspace of the given kind when none is authored.
pub open spec fn kind_title(kind: WorkspaceKind) -> Seq<char> {
    match kind {
        WorkspaceKind::Analysis => "Structural Analysis"@,
        WorkspaceKind::PM => "Project Management"@,
        WorkspaceKind::Home => "Home"@,
        WorkspaceKind::Empty => "Empty"@,
    }
}

impl WorkspaceKind {
    pub fn default_title(self) -> (title: &'static str)
        ensures
            title@ == kind_title(self),
    {
        match self {
            WorkspaceKind::Analysis => "Structural Analysis",
            WorkspaceKind::PM => "Project Management",
            WorkspaceKind::Home => "Home",
            WorkspaceKind::Empty => "Empty",
        }
    }
}

} // verus!
