//! Named spatial page regions of the concrete wall workspace.

use vstd::prelude::*;

verus! {

/// Named spatial page region in the concrete wall workspace.
#[derive(Debug, Clone, Copy, PartialEq, Eq, Structural)]
pub enum Page {
    Navigation,
    Analysis,
    Results,
}

/// The three pages, left to right.
pub open spec fn all_pages() -> Seq<Page> {
    seq![Page::Navigation, Page::Analysis, Page::Results]
}

/// The page's title.
pub open spec fn page_title(page: Page) -> Seq<char> {
    match page {
        Page::Navigation => "Navigation"@,
        Page::Analysis => "Analysis"@,
        Page::Results => "Results"@,
    }
}

/// The page's leaf id: its position among the three pages.
pub open spec fn page_leaf(page: Page) -> u32 {
    match page {
        Page::Navigation => 0,
        Page::Analysis => 1,
        Page::Results => 2,
    }
}

impl Page {
    /// The three pages, left to right.
    pub fn all() -> (pages: [Page; 3])
        ensures
            pages@ == all_pages(),
    {
        let pages = [Page::Navigation, Page::Analysis, Page::Results];
        assert(pages@ =~= all_pages());
        pages
    }

    pub fn title(self) -> (t: &'static str)
        ensures
            t@ == page_title(self),
    {
        match self {
            Page::Navigation => "Navigation",
            Page::Analysis => "Analysis",
            Page::Results => "Results",
        }
    }

    pub fn leaf_id(self) -> (id: u32)
        ensures
            id == page_leaf(self),
    {
        match self {
            Page::Navigation => 0,
            Page::Analysis => 1,
            Page::Results => 2,
        }
    }
}

/// The leaf id of each page is its position in [`Page::all`], so leaf ids tell pages apart.
pub proof fn lemma_leaf_ids_are_positions()
    ensures
        all_pages().len() == 3,
        forall|i: int| 0 <= i < 3 ==> page_leaf(#[trigger] all_pages()[i]) == i,
        forall|a: Page, b: Page| #[trigger] page_leaf(a) == #[trigger] page_leaf(b) ==> a == b,
{
    assert forall|i: int| 0 <= i < 3 implies page_leaf(#[trigger] all_pages()[i]) == i by {
        if i == 0 {
        } else if i == 1 {
        } else {
        }
    }
}

} // verus!
