//! What the shell records after page edits and workspace signals: template
//! bookkeeping for split and merged pages, and the status line and rebuild that
//! follow a workspace signal.

use crate::graph::NodeId;
use crate::pagetree::PageId;
use crate::templates::TemplateBook;
use crate::text::{append_decimal, decimal};
use vstd::prelude::*;

verus! {

/// A page edit as the page tree carried it out.
#[derive(Debug)]
pub enum PageEdit {
    /// A split; `new_page` is the page it made, `None` when the split was refused.
    Split { new_page: Option<PageId> },
    /// A merge; `retired` are the pages it removed, `None` when it was refused.
    Merge { retired: Option<Vec<PageId>> },
    /// A seam's ratio went back to its default.
    ResetRatio,
}

/// What follows a page edit.
#[derive(Debug, Clone, Copy, PartialEq, Eq, Structural)]
pub struct PageEditOutcome {
    /// The page cache changed shape: write it into the graph again.
    pub bindings_changed: bool,
    /// Rebuild the layout (and save it).
    pub rebuild: bool,
    /// Drop the pending seam menu and its trigger map (see
    /// [`crate::popups::clear_menu_after_page_signal`]); every page edit, carried out or
    /// refused, does.
    pub clear_menu: bool,
}

/// Record a page edit in the templates: a new page, and its first pod, get the
/// `generic` template; retired pages lose theirs and their pods'.
pub fn record_page_edit(book: &mut TemplateBook, edit: &PageEdit, generic: &str) -> (out: PageEditOutcome)
    requires
        old(book).wf(),
    ensures
        final(book).wf(),
        match edit {
            PageEdit::Split { new_page: Some(p) } => {
                &&& out == PageEditOutcome { bindings_changed: true, rebuild: true, clear_menu: true }
                &&& final(book).page_template(p.0) == Some(generic@)
                &&& final(book).pod_template(p.0, 0) == Some(generic@)
                &&& forall|x: u32| x != p.0 ==> #[trigger] final(book).page_template(x) == old(book).page_template(x)
                &&& forall|x: u32, q: u32| (x, q) != (p.0, 0u32) ==> #[trigger] final(book).pod_template(x, q)
                    == old(book).pod_template(x, q)
            },
            PageEdit::Merge { retired: Some(ids) } => {
                &&& out == PageEditOutcome { bindings_changed: true, rebuild: true, clear_menu: true }
                &&& forall|x: u32| #[trigger] final(book).page_template(x) == if ids@.contains(PageId(x)) {
                    None
                } else {
                    old(book).page_template(x)
                }
                &&& forall|x: u32, q: u32| #[trigger] final(book).pod_template(x, q) == if ids@.contains(PageId(x)) {
                    None
                } else {
                    old(book).pod_template(x, q)
                }
            },
            PageEdit::ResetRatio => out == PageEditOutcome { bindings_changed: false, rebuild: true, clear_menu: true } && *final(book)
                == *old(book),
            _ => out == PageEditOutcome { bindings_changed: false, rebuild: false, clear_menu: true } && *final(book) == *old(book),
        },
{
    match edit {
        PageEdit::Split { new_page: Some(p) } => {
            book.assign_new_page(*p, generic);
            PageEditOutcome { bindings_changed: true, rebuild: true, clear_menu: true }
        },
        PageEdit::Merge { retired: Some(ids) } => {
            book.retire_pages(ids);
            PageEditOutcome { bindings_changed: true, rebuild: true, clear_menu: true }
        },
        PageEdit::ResetRatio => PageEditOutcome { bindings_changed: false, rebuild: true, clear_menu: true },
        _ => PageEditOutcome { bindings_changed: false, rebuild: false, clear_menu: true },
    }
}

/// What handling a workspace signal came to.
#[derive(Debug)]
pub enum SignalResult {
    /// Nothing was done (no active workspace, or not an analysis workspace).
    NothingDone,
    /// A new wall was created and made active.
    WallCreated(NodeId),
    /// A wall was selected.
    WallSelected(NodeId),
    /// Analysis was asked for with no active wall.
    NoActiveWall,
    /// Analysis ran, or reported completion.
    AnalysisComplete,
    /// Save was asked for.
    Saved,
    /// The results were exported to the file at this path.
    Exported(String),
    /// Exporting failed with this error.
    ExportFailed(String),
    /// Export was asked for with no results.
    NoResults,
}

/// Status text for a signal result, and whether the workspace is rebuilt.
pub open spec fn signal_report_spec(r: SignalResult) -> (bool, Option<Seq<char>>) {
    match r {
        SignalResult::NothingDone => (false, None),
        SignalResult::WallCreated(id) => (true, Some("signal: New Wall ("@ + decimal(id.0 as nat) + ")"@)),
        SignalResult::WallSelected(id) => (true, Some("signal: Wall Selected ("@ + decimal(id.0 as nat) + ")"@)),
        SignalResult::NoActiveWall => (false, Some("signal: Run Analysis — no active wall"@)),
        SignalResult::AnalysisComplete => (true, Some("signal: AnalysisComplete"@)),
        SignalResult::Saved => (false, Some("signal: Save"@)),
        SignalResult::Exported(path) => (false, Some("signal: Export PDF → "@ + path@)),
        SignalResult::ExportFailed(e) => (false, Some("signal: Export failed ("@ + e@ + ")"@)),
        SignalResult::NoResults => (false, Some("signal: Export — no results"@)),
    }
}

/// The status line and rebuild that follow a workspace signal.
pub fn signal_report(r: &SignalResult) -> (out: (bool, Option<String>))
    ensures
        out.0 == signal_report_spec(*r).0,
        match out.1 {
            Some(s) => signal_report_spec(*r).1 == Some(s@),
            None => signal_report_spec(*r).1 is None,
        },
{
    match r {
        SignalResult::NothingDone => (false, None),
        SignalResult::WallCreated(id) => {
            let mut s = String::from_str("signal: New Wall (");
            append_decimal(&mut s, id.0);
            s.append(")");
            (true, Some(s))
        },
        SignalResult::WallSelected(id) => {
            let mut s = String::from_str("signal: Wall Selected (");
            append_decimal(&mut s, id.0);
            s.append(")");
            (true, Some(s))
        },
        SignalResult::NoActiveWall => (false, Some(String::from_str("signal: Run Analysis — no active wall"))),
        SignalResult::AnalysisComplete => (true, Some(String::from_str("signal: AnalysisComplete"))),
        SignalResult::Saved => (false, Some(String::from_str("signal: Save"))),
        SignalResult::Exported(path) => {
            let mut s = String::from_str("signal: Export PDF → ");
            s.append(path.as_str());
            (false, Some(s))
        },
        SignalResult::ExportFailed(e) => {
            let mut s = String::from_str("signal: Export failed (");
            s.append(e.as_str());
            s.append(")");
            (false, Some(s))
        },
        SignalResult::NoResults => (false, Some(String::from_str("signal: Export — no results"))),
    }
}

} // verus!
