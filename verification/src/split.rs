//! The page layout of a workspace as a binary tree of split seams with pages at its
//! leaves, and how seeded pages are folded into one.

use crate::graph::NodeId;
use crate::overrides::Overrides;
use crate::pagetree::{PageId, PageNode, Pod, PodId};
use vstd::prelude::*;

verus! {

/// Orientation of a split seam.
#[derive(Debug, Clone, Copy, PartialEq, Eq, Structural)]
pub enum SeamDirection {
    Vertical,
    Horizontal,
}

/// Pages laid out by splits.
#[derive(Debug)]
pub enum PageLayout {
    Leaf(PageNode),
    Split { direction: SeamDirection, first: Box<PageLayout>, second: Box<PageLayout> },
}

/// The pages at the leaves, left to right.
pub open spec fn layout_pages(t: PageLayout) -> Seq<PageNode>
    decreases t,
{
    match t {
        PageLayout::Leaf(p) => seq![p],
        PageLayout::Split { first, second, .. } => layout_pages(*first) + layout_pages(*second),
    }
}

/// Every seam is vertical.
pub open spec fn all_vertical(t: PageLayout) -> bool
    decreases t,
{
    match t {
        PageLayout::Leaf(_) => true,
        PageLayout::Split { direction, first, second } => direction == SeamDirection::Vertical && all_vertical(*first)
            && all_vertical(*second),
    }
}

/// Every split has a single page as its first part: a chain leaning right.
pub open spec fn right_chain(t: PageLayout) -> bool
    decreases t,
{
    match t {
        PageLayout::Leaf(_) => true,
        PageLayout::Split { first, second, .. } => (*first is Leaf) && right_chain(*second),
    }
}

/// `p` is the unlabelled page `id` with no pods.
pub open spec fn is_empty_page(p: PageNode, id: PageId) -> bool {
    &&& p.id == id
    &&& p.node_id == NodeId(0)
    &&& p.label@ == Seq::<char>::empty()
    &&& p.pods@.len() == 0
    &&& p.pod_overrides.fractions.entries@.len() == 0 && p.pod_overrides.collapse.entries@.len() == 0
}

/// `t` is a single empty page 0.
pub open spec fn is_empty_layout(t: PageLayout) -> bool {
    t matches PageLayout::Leaf(p) && is_empty_page(p, PageId(0))
}

/// Seed of one pod: its label.
#[derive(Debug, Clone, Copy)]
pub struct PodSeed {
    pub label: &'static str,
}

/// Seed of one page: its label and its pods' seeds.
#[derive(Debug)]
pub struct PageSeed {
    pub label: &'static str,
    pub pods: Vec<PodSeed>,
}

/// The page built from `seed`: pods numbered from 0 in seed order, titled by their
/// labels; graph nodes are written later.
pub open spec fn seeded_page(id: PageId, seed: PageSeed, p: PageNode) -> bool {
    &&& p.id == id
    &&& p.node_id == NodeId(0)
    &&& p.label@ == seed.label@
    &&& p.pods@.len() == seed.pods@.len()
    &&& p.pod_overrides.fractions.entries@.len() == 0 && p.pod_overrides.collapse.entries@.len() == 0
    &&& forall|q: int| 0 <= q < p.pods@.len() ==> {
        &&& (#[trigger] p.pods@[q]).id == PodId(q as u32)
        &&& p.pods@[q].node_id == NodeId(0)
        &&& p.pods@[q].title@ == seed.pods@[q].label@
        &&& !p.pods@[q].collapsed
    }
}

/// The pod built from `seed`.
pub fn pod_from_seed(id: PodId, seed: &PodSeed) -> (pod: Pod)
    ensures
        pod.id == id,
        pod.node_id == NodeId(0),
        pod.title@ == seed.label@,
        !pod.collapsed,
{
    Pod { id, node_id: NodeId(0), title: String::from_str(seed.label), collapsed: false }
}

/// The page built from `seed`.
pub fn page_node_from_seed(page_id: PageId, seed: &PageSeed) -> (page: PageNode)
    ensures
        seeded_page(page_id, *seed, page),
{
    let mut pods: Vec<Pod> = Vec::new();
    let n = seed.pods.len();
    let mut i: usize = 0;
    while i < n
        invariant
            n == seed.pods@.len(),
            i <= n,
            pods@.len() == i,
            forall|q: int| 0 <= q < i ==> {
                &&& (#[trigger] pods@[q]).id == PodId(q as u32)
                &&& pods@[q].node_id == NodeId(0)
                &&& pods@[q].title@ == seed.pods@[q].label@
                &&& !pods@[q].collapsed
            },
        decreases n - i,
    {
        pods.push(pod_from_seed(PodId(i as u32), &seed.pods[i]));
        i = i + 1;
    }
    PageNode { id: page_id, node_id: NodeId(0), label: String::from_str(seed.label), pods, pod_overrides: Overrides::new() }
}

/// Fold pages into a chain of vertical splits: the first page on the left of the
/// first seam, the rest folded likewise on its right. No pages give one empty page.
pub fn fold_vertical(leaves: Vec<PageNode>) -> (t: PageLayout)
    ensures
        leaves@.len() == 0 ==> is_empty_layout(t),
        leaves@.len() > 0 ==> layout_pages(t) == leaves@,
        all_vertical(t),
        right_chain(t),
    decreases leaves@.len(),
{
    let mut leaves = leaves;
    let n = leaves.len();
    if n == 0 {
        let p = PageNode {
            id: PageId(0),
            node_id: NodeId(0),
            label: String::new(),
            pods: Vec::new(),
            pod_overrides: Overrides::new(),
        };
        PageLayout::Leaf(p)
    } else if n == 1 {
        let ghost all = leaves@;
        let first = leaves.remove(0);
        assert(all =~= seq![first]);
        PageLayout::Leaf(first)
    } else {
        let ghost all = leaves@;
        let first = leaves.remove(0);
        assert(leaves@ =~= all.drop_first());
        let rest = fold_vertical(leaves);
        assert(all =~= seq![first] + all.drop_first());
        let t = PageLayout::Split {
            direction: SeamDirection::Vertical,
            first: Box::new(PageLayout::Leaf(first)),
            second: Box::new(rest),
        };
        assert(layout_pages(t) == layout_pages(PageLayout::Leaf(first)) + layout_pages(rest));
        assert(layout_pages(PageLayout::Leaf(first)) == seq![first]);
        assert(all_vertical(PageLayout::Leaf(first)));
        assert(all_vertical(t));
        assert(right_chain(t));
        t
    }
}

/// The vertical page layout of `seeds`: one page per seed, numbered from 0, folded
/// by [`fold_vertical`]; no seeds give one empty page.
pub fn page_tree_from_seeds(seeds: &Vec<PageSeed>) -> (t: PageLayout)
    ensures
        seeds@.len() == 0 ==> is_empty_layout(t),
        seeds@.len() > 0 ==> layout_pages(t).len() == seeds@.len(),
        forall|i: int| 0 <= i < layout_pages(t).len() && seeds@.len() > 0 ==> seeded_page(
            PageId(i as u32),
            seeds@[i],
            #[trigger] layout_pages(t)[i],
        ),
        all_vertical(t),
        right_chain(t),
{
    let mut pages: Vec<PageNode> = Vec::new();
    let n = seeds.len();
    let mut i: usize = 0;
    while i < n
        invariant
            n == seeds@.len(),
            i <= n,
            pages@.len() == i,
            forall|k: int| 0 <= k < i ==> seeded_page(PageId(k as u32), seeds@[k], #[trigger] pages@[k]),
        decreases n - i,
    {
        pages.push(page_node_from_seed(PageId(i as u32), &seeds[i]));
        i = i + 1;
    }
    fold_vertical(pages)
}

} // verus!
