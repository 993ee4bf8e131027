//! What a window event does to the shell's pop-ups: the F10 overlay and the page-seam
//! context menu.

use crate::split::SeamDirection;
use vstd::prelude::*;

verus! {

/// The pop-ups a window event can open or close.
#[derive(Debug, Clone, Copy, PartialEq, Eq, Structural)]
pub struct Popups {
    pub overlay_open: bool,
    /// A seam context menu is pending.
    pub menu_pending: bool,
}

/// What one window event brought, as far as the pop-ups are concerned.
#[derive(Debug, Clone, Copy, PartialEq, Eq, Structural)]
pub struct PopupInput {
    /// F10 was pressed.
    pub f10: bool,
    /// The left button went down.
    pub left_press: bool,
    /// A trigger of the pending context menu fired.
    pub menu_trigger_fired: bool,
    /// A right-click on a page seam asked for a context menu.
    pub menu_requested: bool,
    /// A page signal (from the menu or elsewhere) is to be handled.
    pub page_signal: bool,
}

/// What becomes of the context menu.
#[derive(Debug, Clone, Copy, PartialEq, Eq, Structural)]
pub enum MenuChange {
    Keep,
    /// Open the requested menu.
    Open,
    /// Drop the menu and its trigger map.
    Dismiss,
}

/// What follows for the pop-ups.
#[derive(Debug, Clone, Copy, PartialEq, Eq, Structural)]
pub struct PopupOutcome {
    pub menu: MenuChange,
    /// Rebuild the particle tree (the overlay toggled, or menu triggers must exist).
    pub rebuild: bool,
}

/// The menu is to be dismissed: a left press while it is pending, or one of its
/// triggers fired.
pub open spec fn dismisses(p: Popups, input: PopupInput) -> bool {
    (input.left_press && p.menu_pending) || input.menu_trigger_fired
}

/// Apply a window event to the pop-ups. F10 toggles the overlay. A requested menu
/// opens (and wins over a dismissal); otherwise a dismissal closes the menu unless a
/// page signal is still to be handled.
pub fn popup_step(popups: &mut Popups, input: PopupInput) -> (out: PopupOutcome)
    ensures
        final(popups).overlay_open == (old(popups).overlay_open != input.f10),
        input.menu_requested ==> out.menu == MenuChange::Open && final(popups).menu_pending,
        !input.menu_requested && dismisses(*old(popups), input) && !input.page_signal ==> out.menu == MenuChange::Dismiss
            && !final(popups).menu_pending,
        !input.menu_requested && !(dismisses(*old(popups), input) && !input.page_signal) ==> out.menu == MenuChange::Keep
            && final(popups).menu_pending == old(popups).menu_pending,
        out.rebuild == (input.f10 || input.menu_requested),
{
    if input.f10 {
        popups.overlay_open = !popups.overlay_open;
    }
    let dismiss = (input.left_press && popups.menu_pending) || input.menu_trigger_fired;
    let menu = if input.menu_requested {
        popups.menu_pending = true;
        MenuChange::Open
    } else if dismiss && !input.page_signal {
        popups.menu_pending = false;
        MenuChange::Dismiss
    } else {
        MenuChange::Keep
    };
    PopupOutcome { menu, rebuild: input.f10 || input.menu_requested }
}

impl Popups {
    /// The pop-ups at start-up: overlay closed, no menu pending.
    pub fn initial() -> (p: Popups)
        ensures
            !p.overlay_open,
            !p.menu_pending,
    {
        Popups { overlay_open: false, menu_pending: false }
    }
}

/// After a structural page signal (split, merge, ratio reset; carried out or refused)
/// the pending seam menu and its trigger map are dropped.
pub fn clear_menu_after_page_signal(popups: &mut Popups)
    ensures
        !final(popups).menu_pending,
        final(popups).overlay_open == old(popups).overlay_open,
{
    popups.menu_pending = false;
}

/// How the user points at the window.
#[derive(Debug, Clone, Copy, PartialEq, Eq, Structural)]
pub enum InputClass {
    /// Mouse or trackpad only.
    Pointer,
    /// A pointer and touch both seen.
    Hybrid,
    /// Touch only.
    Touch,
}

/// The input class at start-up: a pointer.
pub fn startup_input_class() -> (c: InputClass)
    ensures
        c == InputClass::Pointer,
{
    InputClass::Pointer
}

/// A pointer device that also touched becomes hybrid; other classes stay.
pub fn promote_input_to_hybrid(c: &mut InputClass)
    ensures
        *final(c) == if *old(c) == InputClass::Pointer {
            InputClass::Hybrid
        } else {
            *old(c)
        },
{
    if *c == InputClass::Pointer {
        *c = InputClass::Hybrid;
    }
}

/// A side of a page seam.
#[derive(Debug, Clone, Copy, PartialEq, Eq, Structural)]
pub enum PageSide {
    First,
    Second,
}

/// What an item of a seam's context menu asks of the page tree.
#[derive(Debug, Clone, Copy, PartialEq, Eq, Structural)]
pub enum MenuSignal {
    /// Split the page on `side` of seam `seam` along `direction`.
    Split { seam: u64, direction: SeamDirection, side: PageSide },
    /// Merge across seam `seam`, keeping the page on `keep`.
    Merge { seam: u64, keep: PageSide },
    /// Put seam `seam` back to an even split.
    ResetRatio { seam: u64 },
}

/// One item of a seam's context menu: its label and what it asks for.
#[derive(Debug, Clone, Copy)]
pub struct MenuItem {
    pub label: &'static str,
    pub signal: MenuSignal,
}

/// The items of the context menu of seam `seam` (running along `direction`, opened on
/// `side`), in order: split vertically, split horizontally, merge keeping the first
/// page, merge keeping the second, reset to 50/50. The merge items point along the
/// seam's axis.
pub fn page_menu_items(seam: u64, direction: SeamDirection, side: PageSide) -> (items: Vec<MenuItem>)
    ensures
        items@.len() == 5,
        items@[0].label@ == "Split vertical"@,
        items@[0].signal == (MenuSignal::Split { seam, direction: SeamDirection::Vertical, side }),
        items@[1].label@ == "Split horizontal"@,
        items@[1].signal == (MenuSignal::Split { seam, direction: SeamDirection::Horizontal, side }),
        items@[2].label@ == if direction == SeamDirection::Vertical {
            "Merge ←"@
        } else {
            "Merge ↑"@
        },
        items@[2].signal == (MenuSignal::Merge { seam, keep: PageSide::First }),
        items@[3].label@ == if direction == SeamDirection::Vertical {
            "Merge →"@
        } else {
            "Merge ↓"@
        },
        items@[3].signal == (MenuSignal::Merge { seam, keep: PageSide::Second }),
        items@[4].label@ == "Reset 50/50"@,
        items@[4].signal == (MenuSignal::ResetRatio { seam }),
{
    let (merge_first, merge_second): (&'static str, &'static str) = match direction {
        SeamDirection::Vertical => ("Merge ←", "Merge →"),
        SeamDirection::Horizontal => ("Merge ↑", "Merge ↓"),
    };
    let mut items: Vec<MenuItem> = Vec::new();
    items.push(
        MenuItem { label: "Split vertical", signal: MenuSignal::Split { seam, direction: SeamDirection::Vertical, side } },
    );
    items.push(
        MenuItem {
            label: "Split horizontal",
            signal: MenuSignal::Split { seam, direction: SeamDirection::Horizontal, side },
        },
    );
    items.push(MenuItem { label: merge_first, signal: MenuSignal::Merge { seam, keep: PageSide::First } });
    items.push(MenuItem { label: merge_second, signal: MenuSignal::Merge { seam, keep: PageSide::Second } });
    items.push(MenuItem { label: "Reset 50/50", signal: MenuSignal::ResetRatio { seam } });
    items
}

} // verus!
