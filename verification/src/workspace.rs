//! Workspace identity, tabs, headers and the light workspace kinds.

use crate::kind::WorkspaceKind;
use crate::signal::AppSignal;
use vstd::prelude::*;

verus! {

/// Identity of a live workspace.
#[derive(Debug, Clone, Copy, PartialEq, Eq, Structural)]
pub struct WorkspaceId(pub u64);

/// Identity of a UI particle (a trigger, a status line, ...).
#[derive(Debug, Clone, Copy, PartialEq, Eq, Structural)]
pub struct ParticleId(pub u64);

/// What the tab strip shows for a workspace.
#[derive(Debug, Clone, Copy, PartialEq, Eq, Structural)]
pub struct WorkspaceTab {
    pub id: WorkspaceId,
    pub kind: WorkspaceKind,
}

impl WorkspaceTab {
    pub fn new(id: WorkspaceId, kind: WorkspaceKind) -> (tab: WorkspaceTab)
        ensures
            tab.id == id,
            tab.kind == kind,
    {
        WorkspaceTab { id, kind }
    }
}

/// Optional per-workspace action header; the shell writes live status text into
/// the particle `status_id`.
#[derive(Debug, Clone, Copy, PartialEq, Eq, Structural)]
pub struct WorkspaceHeader {
    pub status_id: ParticleId,
}

/// Stub empty workspace: no header.
#[derive(Debug)]
pub struct EmptyWorkspace {
    pub tab: WorkspaceTab,
}

impl EmptyWorkspace {
    pub fn new(id: WorkspaceId) -> (ws: EmptyWorkspace)
        ensures
            ws.tab.id == id,
            ws.tab.kind == WorkspaceKind::Empty,
    {
        EmptyWorkspace { tab: WorkspaceTab::new(id, WorkspaceKind::Empty) }
    }
}

/// Project Management workspace (stub landing + light header).
#[derive(Debug)]
pub struct PmWorkspace {
    pub tab: WorkspaceTab,
    pub header: Option<WorkspaceHeader>,
}

impl PmWorkspace {
    /// Particle that carries the header's status text, when there is a header.
    pub fn status_id(&self) -> (id: Option<ParticleId>)
        ensures
            id == match self.header {
                Some(h) => Some(h.status_id),
                None => None,
            },
    {
        match &self.header {
            Some(h) => Some(h.status_id),
            None => None,
        }
    }
}

/// Home dashboard workspace: the entry point to other workspaces.
#[derive(Debug)]
pub struct HomeWorkspace {
    pub tab: WorkspaceTab,
    /// Dashboard action triggers (OpenWorkspace).
    pub actions: Vec<(ParticleId, AppSignal)>,
}

impl HomeWorkspace {
    pub fn new(id: WorkspaceId) -> (ws: HomeWorkspace)
        ensures
            ws.tab.id == id,
            ws.tab.kind == WorkspaceKind::Home,
            ws.actions@.len() == 0,
    {
        HomeWorkspace { tab: WorkspaceTab::new(id, WorkspaceKind::Home), actions: Vec::new() }
    }
}

/// Glyph shown in the icon rail for the pod leaf at `id`.
pub open spec fn rail_glyph(id: u32) -> Seq<char> {
    if id == 0 {
        "≡"@
    } else if id == 1 {
        "▣"@
    } else if id == 2 {
        "▤"@
    } else if id == 3 {
        "▥"@
    } else if id == 4 {
        "▦"@
    } else if id == 5 {
        "▧"@
    } else {
        "•"@
    }
}

fn glyph_for(id: u32) -> (g: &'static str)
    ensures
        g@ == rail_glyph(id),
{
    if id == 0 {
        "≡"
    } else if id == 1 {
        "▣"
    } else if id == 2 {
        "▤"
    } else if id == 3 {
        "▥"
    } else if id == 4 {
        "▦"
    } else if id == 5 {
        "▧"
    } else {
        "•"
    }
}

/// Default glyphs for known IO leaf roles, one per leaf id in order; the count is
/// taken as a `u32`, as the leaf ids are.
pub fn default_pod_icons(leaf_count: usize) -> (icons: Vec<(u32, &'static str)>)
    ensures
        icons@.len() == leaf_count as u32,
        forall|i: int| 0 <= i < icons@.len() ==> (#[trigger] icons@[i]).0 == i && icons@[i].1@ == rail_glyph(i as u32),
{
    let count = leaf_count as u32;
    let mut icons: Vec<(u32, &'static str)> = Vec::new();
    let mut id: u32 = 0;
    while id < count
        invariant
            id <= count,
            icons@.len() == id,
            forall|i: int| 0 <= i < icons@.len() ==> (#[trigger] icons@[i]).0 == i && icons@[i].1@ == rail_glyph(i as u32),
        decreases count - id,
    {
        icons.push((id, glyph_for(id)));
        id = id + 1;
    }
    icons
}

} // verus!
