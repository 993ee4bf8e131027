//! Restoring a saved workspace: its open id and body, its page cache written back
//! into the graph, its overrides, templates, focused page and page-id counter.

use crate::components::binding_parity_spec;
use crate::graph::{Graph, NodeId};
use crate::overrides::{ContainerId, Overrides, SizeClass, Visibility};
use crate::pagetree::{
    bindings_below, container_count, container_node, containers_below, dual_write_page_tree, fresh_apart, grows_nodes,
    is_container, page_written, PageId, PageNode, PageTree, Pod, PodId,
};
use crate::containers::sole_parent;
use crate::persist::{
    capture_overrides, capture_visibility, captured_collapse, captured_fractions, intern_open_id, legacy_collapsed,
    migrate_legacy_pod_collapse, restore_overrides, restore_visibility, restored_body_kind, restored_collapse,
    restored_fraction, restored_kind, visibility_from_persisted, visibility_to_persisted, PersistedOverrides,
    PersistedVisibility, PodState,
};
use crate::shell::BodyKind;
use crate::templates::{
    apply_templates, last_page_entry, last_pod_entry, lemma_page_templates_roundtrip, lemma_pod_templates_roundtrip,
    page_writes, restore_templates, templates_applied, tree_writes, TemplateBook,
};
use vstd::prelude::*;

verus! {

/// A saved container state: id, label, icon and visibility intent (its extent, in
/// floating point, stays with the host).
#[derive(Debug)]
pub struct SavedContainer {
    pub id: u64,
    pub label: String,
    pub icon: String,
    pub intent: PersistedVisibility,
}

/// The state of a layout container: id, label, icon and visibility intent.
#[derive(Debug)]
pub struct ContainerState {
    pub id: ContainerId,
    pub label: String,
    pub icon: String,
    pub intent: Visibility,
}

/// A saved pod: its id, title and container state.
#[derive(Debug)]
pub struct SavedPod {
    pub id: u32,
    pub title: String,
    pub state: SavedContainer,
}

/// A saved page: its id, label, pods in order and its pod list's overrides.
#[derive(Debug)]
pub struct SavedPage {
    pub id: u32,
    pub label: String,
    pub pods: Vec<SavedPod>,
    pub pod_overrides: PersistedOverrides,
}

/// What a saved workspace holds that the library restores.
#[derive(Debug)]
pub struct SavedWorkspace {
    pub open_id: String,
    pub state: SavedContainer,
    pub focused_page: Option<u32>,
    /// The page cache, in order, when one was saved.
    pub pages: Option<Vec<SavedPage>>,
    pub page_overrides: PersistedOverrides,
    pub page_templates: Option<Vec<(u32, String)>>,
    pub pod_templates: Option<Vec<(u32, u32, String)>>,
    pub next_page_id: Option<u32>,
}

/// A restored workspace, ready to be put into its body.
#[derive(Debug)]
pub struct RestoredWorkspace {
    pub open_id: &'static str,
    pub kind: BodyKind,
    pub state: ContainerState,
    pub tree: PageTree,
    /// The container states of the restored pods, page by page (empty when no page
    /// cache was saved).
    pub pod_states: Vec<Vec<ContainerState>>,
    pub page_overrides: Overrides,
    pub templates: TemplateBook,
    pub focused_page: Option<PageId>,
    pub next_page_id: Option<u32>,
}

/// `c` is the saved state `s` brought back.
pub open spec fn state_restored(s: SavedContainer, c: ContainerState) -> bool {
    &&& c.id == ContainerId(s.id)
    &&& c.label@ == s.label@
    &&& c.icon@ == s.icon@
    &&& c.intent == visibility_from_persisted(s.intent)
}

/// `s` is the saved form of the state `c`.
pub open spec fn state_saved(c: ContainerState, s: SavedContainer) -> bool {
    &&& s.id == c.id.0
    &&& s.label@ == c.label@
    &&& s.icon@ == c.icon@
    &&& s.intent == visibility_to_persisted(c.intent)
}

/// Bring a saved container state back.
pub fn restore_container(s: &SavedContainer) -> (c: ContainerState)
    ensures
        state_restored(*s, c),
{
    ContainerState {
        id: ContainerId(s.id),
        label: s.label.clone(),
        icon: s.icon.clone(),
        intent: restore_visibility(s.intent),
    }
}

/// The saved form of a container state.
pub fn capture_container(c: &ContainerState) -> (s: SavedContainer)
    ensures
        state_saved(*c, s),
{
    SavedContainer { id: c.id.0, label: c.label.clone(), icon: c.icon.clone(), intent: capture_visibility(c.intent) }
}

/// Restoring a captured container state gives it back.
pub proof fn lemma_container_roundtrip(c: ContainerState, s: SavedContainer, back: ContainerState)
    requires
        state_saved(c, s),
        state_restored(s, back),
    ensures
        back.id == c.id,
        back.label@ == c.label@,
        back.icon@ == c.icon@,
        back.intent == c.intent,
{
}

/// The live pod states that the legacy collapse migration reads from saved pods.
pub open spec fn saved_pod_states(pods: Seq<SavedPod>) -> Seq<PodState> {
    pods.map_values(
        |p: SavedPod| PodState { container: ContainerId(p.state.id), intent: visibility_from_persisted(p.state.intent) },
    )
}

/// `o` is the saved pod-list overrides of `s` brought back, with the collapse flags of
/// older saves (kept in the pods' intents) filled in where none was saved.
pub open spec fn pod_overrides_restored(s: SavedPage, o: Overrides) -> bool {
    &&& o.wf()
    &&& forall|id: u64, class: SizeClass| #[trigger] o.fractions.get_spec(id, class) == restored_fraction(
        s.pod_overrides.entries@,
        id,
        class,
    )
    &&& forall|id: u64, class: SizeClass| #[trigger] o.collapse.get_spec(id, class) == match restored_collapse(
        s.pod_overrides.collapse_entries@,
        id,
        class,
    ) {
        Some(b) => Some(b),
        None => if legacy_collapsed(saved_pod_states(s.pods@), id) {
            Some(true)
        } else {
            None
        },
    }
}

/// How many pages and pods a saved cache holds.
pub open spec fn saved_count(pages: Seq<SavedPage>) -> nat
    decreases pages.len(),
{
    if pages.len() == 0 {
        0
    } else {
        saved_count(pages.drop_last()) + 1 + pages.last().pods@.len()
    }
}

/// `p` is the saved page `s` brought back, its node not yet known (`NodeId(0)`).
pub open spec fn page_from_saved(s: SavedPage, p: PageNode) -> bool {
    &&& p.id == PageId(s.id)
    &&& p.node_id == NodeId(0)
    &&& p.label@ == s.label@
    &&& p.pods@.len() == s.pods@.len()
    &&& pod_overrides_restored(s, p.pod_overrides)
    &&& forall|q: int| 0 <= q < s.pods@.len() ==> (#[trigger] p.pods@[q]).id == PodId(s.pods@[q].id) && p.pods@[q].node_id
        == NodeId(0) && p.pods@[q].title@ == s.pods@[q].title@ && p.pods@[q].collapsed == (s.pods@[q].state.intent
        == PersistedVisibility::Collapsed)
}

/// `p` carries the saved page `s` once written: same id, label and pods, its node and
/// its pods' nodes present in `g`.
pub open spec fn page_restored(g: Graph, s: SavedPage, p: PageNode) -> bool {
    &&& p.id == PageId(s.id)
    &&& p.label@ == s.label@
    &&& p.pods@.len() == s.pods@.len()
    &&& g.has_node(p.node_id)
    &&& pod_overrides_restored(s, p.pod_overrides)
    &&& forall|q: int| 0 <= q < s.pods@.len() ==> (#[trigger] p.pods@[q]).id == PodId(s.pods@[q].id) && p.pods@[q].title@
        == s.pods@[q].title@ && g.has_node(p.pods@[q].node_id) && p.pods@[q].collapsed == (s.pods@[q].state.intent
        == PersistedVisibility::Collapsed)
}

/// No two pages or pods of `pages` share a node.
pub open spec fn containers_distinct(pages: Seq<PageNode>) -> bool {
    forall|k1: int, q1: int, k2: int, q2: int|
        is_container(pages, k1, q1) && is_container(pages, k2, q2) && (k1 != k2 || q1 != q2) ==> #[trigger] container_node(
            pages,
            k1,
            q1,
        ) != #[trigger] container_node(pages, k2, q2)
}

/// Every page and pod of `pages` has its node in `g`.
pub open spec fn tree_nodes_present(g: Graph, pages: Seq<PageNode>) -> bool {
    forall|k: int| 0 <= k < pages.len() ==> {
        &&& g.has_node((#[trigger] pages[k]).node_id)
        &&& forall|q: int| 0 <= q < pages[k].pods@.len() ==> g.has_node(#[trigger] pages[k].pods@[q].node_id)
    }
}

/// The page templates and pod templates of a saved workspace (none when not saved).
pub open spec fn saved_page_templates(pw: SavedWorkspace) -> Seq<(u32, String)> {
    match pw.page_templates {
        Some(v) => v@,
        None => Seq::empty(),
    }
}

pub open spec fn saved_pod_templates(pw: SavedWorkspace) -> Seq<(u32, u32, String)> {
    match pw.pod_templates {
        Some(v) => v@,
        None => Seq::empty(),
    }
}

/// The saved pages brought back in order, every node still to be assigned (`NodeId(0)`).
pub fn restore_page_tree(saved: &Vec<SavedPage>) -> (tree: PageTree)
    ensures
        tree.pages@.len() == saved@.len(),
        forall|k: int| 0 <= k < saved@.len() ==> page_from_saved(saved@[k], #[trigger] tree.pages@[k]),
{
    let mut pages: Vec<PageNode> = Vec::new();
    let n = saved.len();
    let mut k: usize = 0;
    while k < n
        invariant
            n == saved@.len(),
            k <= n,
            pages@.len() == k,
            forall|j: int| 0 <= j < k ==> page_from_saved(saved@[j], #[trigger] pages@[j]),
        decreases n - k,
    {
        let sp = &saved[k];
        let mut pods: Vec<Pod> = Vec::new();
        let mut states: Vec<PodState> = Vec::new();
        let m = sp.pods.len();
        let mut q: usize = 0;
        while q < m
            invariant
                m == sp.pods@.len(),
                q <= m,
                pods@.len() == q,
                states@ == saved_pod_states(sp.pods@).take(q as int),
                forall|j: int| 0 <= j < q ==> (#[trigger] pods@[j]).id == PodId(sp.pods@[j].id) && pods@[j].node_id == NodeId(0)
                    && pods@[j].title@ == sp.pods@[j].title@ && pods@[j].collapsed == (sp.pods@[j].state.intent
                    == PersistedVisibility::Collapsed),
            decreases m - q,
        {
            let sq = &sp.pods[q];
            let title = sq.title.clone();
            let collapsed = match sq.state.intent {
                PersistedVisibility::Collapsed => true,
                _ => false,
            };
            pods.push(Pod { id: PodId(sq.id), node_id: NodeId(0), title, collapsed });
            states.push(PodState { container: ContainerId(sq.state.id), intent: restore_visibility(sq.state.intent) });
            assert(saved_pod_states(sp.pods@).take(q + 1) =~= saved_pod_states(sp.pods@).take(q as int).push(
                saved_pod_states(sp.pods@)[q as int],
            ));
            q = q + 1;
        }
        assert(saved_pod_states(sp.pods@).take(m as int) =~= saved_pod_states(sp.pods@));
        let mut pod_overrides = restore_overrides(&sp.pod_overrides);
        migrate_legacy_pod_collapse(states.as_slice(), &mut pod_overrides);
        pages.push(PageNode { id: PageId(sp.id), node_id: NodeId(0), label: sp.label.clone(), pods, pod_overrides });
        k = k + 1;
    }
    PageTree { pages }
}

proof fn lemma_counts_agree(saved: Seq<SavedPage>, pages: Seq<PageNode>)
    requires
        pages.len() == saved.len(),
        forall|k: int| 0 <= k < saved.len() ==> (#[trigger] pages[k]).pods@.len() == saved[k].pods@.len(),
    ensures
        container_count(pages) == saved_count(saved),
    decreases saved.len(),
{
    if saved.len() > 0 {
        let s2 = saved.drop_last();
        let p2 = pages.drop_last();
        assert forall|k: int| 0 <= k < s2.len() implies (#[trigger] p2[k]).pods@.len() == s2[k].pods@.len() by {
            assert(p2[k] == pages[k] && s2[k] == saved[k]);
        }
        lemma_counts_agree(s2, p2);
        assert(pages[pages.len() - 1] == pages.last());
    }
}

/// Each template write lands on a page or pod node of the cache.
proof fn lemma_writes_present(g: Graph, book: TemplateBook, pages: Seq<PageNode>)
    requires
        tree_nodes_present(g, pages),
    ensures
        forall|k: int| 0 <= k < tree_writes(book, pages).len() ==> g.has_node((#[trigger] tree_writes(book, pages)[k]).0),
    decreases pages.len(),
{
    if pages.len() > 0 {
        let init = pages.drop_last();
        assert forall|k: int| 0 <= k < init.len() implies {
            &&& g.has_node((#[trigger] init[k]).node_id)
            &&& forall|q: int| 0 <= q < init[k].pods@.len() ==> g.has_node(#[trigger] init[k].pods@[q].node_id)
        } by {
            assert(init[k] == pages[k]);
        }
        lemma_writes_present(g, book, init);
        let last = pages.last();
        assert(last == pages[pages.len() - 1]);
        let a = tree_writes(book, init);
        let b = page_writes(book, last);
        assert(tree_writes(book, pages) == a + b);
        assert forall|k: int| 0 <= k < (a + b).len() implies g.has_node((#[trigger] (a + b)[k]).0) by {
            if k < a.len() {
                assert((a + b)[k] == a[k]);
            } else if k == a.len() {
                assert(b[0].0 == last.node_id);
            } else {
                let q = k - a.len() - 1;
                assert(b[k - a.len()].0 == last.pods@[q].node_id);
            }
        }
    }
}

/// The pods' saved container states, page by page, brought back.
pub open spec fn pod_states_restored(saved: Seq<SavedPage>, r: Seq<Vec<ContainerState>>) -> bool {
    &&& r.len() == saved.len()
    &&& forall|k: int| 0 <= k < saved.len() ==> (#[trigger] r[k])@.len() == saved[k].pods@.len() && forall|q: int|
        0 <= q < saved[k].pods@.len() ==> state_restored(saved[k].pods@[q].state, #[trigger] r[k]@[q])
}

/// Bring the pods' saved container states back, page by page.
pub fn restore_pod_states(saved: &Vec<SavedPage>) -> (r: Vec<Vec<ContainerState>>)
    ensures
        pod_states_restored(saved@, r@),
{
    let mut r: Vec<Vec<ContainerState>> = Vec::new();
    let n = saved.len();
    let mut k: usize = 0;
    while k < n
        invariant
            n == saved@.len(),
            k <= n,
            r@.len() == k,
            forall|j: int| 0 <= j < k ==> (#[trigger] r@[j])@.len() == saved@[j].pods@.len() && forall|q: int|
                0 <= q < saved@[j].pods@.len() ==> state_restored(saved@[j].pods@[q].state, #[trigger] r@[j]@[q]),
        decreases n - k,
    {
        let pods = &saved[k].pods;
        let mut states: Vec<ContainerState> = Vec::new();
        let m = pods.len();
        let mut q: usize = 0;
        while q < m
            invariant
                m == pods@.len(),
                q <= m,
                states@.len() == q,
                forall|j: int| 0 <= j < q ==> state_restored(pods@[j].state, #[trigger] states@[j]),
            decreases m - q,
        {
            states.push(restore_container(&pods[q].state));
            q = q + 1;
        }
        r.push(states);
        k = k + 1;
    }
    r
}

/// Restore a saved workspace into the body whose workspace node is `workspace_node` and
/// whose seeded page cache is `seeded`: intern the open id (among `known`, else
/// `fallback`) and pick the body; bring back the saved page cache, when there is one,
/// and write it into the graph (else keep the seeded one); restore the overrides and the
/// focused page; on an analysis body also restore the templates, write them onto the
/// page and pod nodes, and take the saved page-id counter.
pub fn restore_workspace(
    graph: &mut Graph,
    workspace_node: NodeId,
    seeded: PageTree,
    pw: &SavedWorkspace,
    known: &[&'static str],
    fallback: &'static str,
) -> (w: RestoredWorkspace)
    requires
        old(graph).wf(),
        pw.pages is None ==> tree_nodes_present(*old(graph), seeded.pages@),
        match pw.pages {
            Some(saved) => {
                &&& old(graph).next_node_id + saved_count(saved@) < u64::MAX
                &&& old(graph).next_edge_id + saved_count(saved@) < u64::MAX
                &&& saved@.len() <= i64::MAX
                &&& forall|k: int| 0 <= k < saved@.len() ==> (#[trigger] saved@[k]).pods@.len() <= i64::MAX
            },
            None => true,
        },
    ensures
        final(graph).wf(),
        (exists|i: int| 0 <= i < known@.len() && (#[trigger] known@[i])@ == pw.open_id@) ==> w.open_id@ == pw.open_id@,
        !(exists|i: int| 0 <= i < known@.len() && (#[trigger] known@[i])@ == pw.open_id@) ==> w.open_id == fallback,
        w.kind == restored_kind(w.open_id@),
        state_restored(pw.state, w.state),
        match pw.pages {
            Some(saved) => pod_states_restored(saved@, w.pod_states@),
            None => w.pod_states@.len() == 0,
        },
        match pw.pages {
            Some(saved) => {
                &&& w.tree.pages@.len() == saved@.len()
                &&& forall|k: int| 0 <= k < saved@.len() ==> page_restored(*final(graph), saved@[k], #[trigger] w.tree.pages@[k])
                &&& !old(graph).has_node(NodeId(0)) && 0 < old(graph).next_node_id ==> containers_distinct(w.tree.pages@)
                &&& old(graph).has_node(workspace_node) && !old(graph).has_node(NodeId(0)) && 0 < old(graph).next_node_id
                    && bindings_below(*old(graph)) && sole_parent(old(graph).edges@, workspace_node) ==> binding_parity_spec(
                    *final(graph),
                    workspace_node,
                    w.tree,
                )
            },
            None => w.tree == seeded,
        },
        tree_nodes_present(*final(graph), w.tree.pages@),
        w.page_overrides.wf(),
        forall|id: u64, class: SizeClass| #[trigger] w.page_overrides.fractions.get_spec(id, class) == restored_fraction(
            pw.page_overrides.entries@,
            id,
            class,
        ),
        forall|id: u64, class: SizeClass| #[trigger] w.page_overrides.collapse.get_spec(id, class) == restored_collapse(
            pw.page_overrides.collapse_entries@,
            id,
            class,
        ),
        w.focused_page == match pw.focused_page {
            Some(p) => Some(PageId(p)),
            None => None::<PageId>,
        },
        w.templates.wf(),
        w.kind == BodyKind::Analysis ==> {
            &&& forall|p: u32| #[trigger] w.templates.page_template(p) == last_page_entry(saved_page_templates(*pw), p)
            &&& forall|p: u32, q: u32| #[trigger] w.templates.pod_template(p, q) == last_pod_entry(saved_pod_templates(*pw), p, q)
            &&& w.next_page_id == pw.next_page_id
            &&& exists|mid: Graph| #[trigger] grows_nodes(*old(graph), mid) && templates_applied(
                mid,
                *final(graph),
                tree_writes(w.templates, w.tree.pages@),
            )
        },
        w.kind != BodyKind::Analysis ==> {
            &&& forall|p: u32| #[trigger] w.templates.page_template(p) is None
            &&& forall|p: u32, q: u32| #[trigger] w.templates.pod_template(p, q) is None
            &&& w.next_page_id is None
        },
{
    let open_id = intern_open_id(pw.open_id.as_str(), known, fallback);
    let state = restore_container(&pw.state);
    let pod_states = match &pw.pages {
        Some(saved) => restore_pod_states(saved),
        None => Vec::new(),
    };
    let kind = restored_body_kind(open_id);
    let ghost g0 = *graph;
    let tree = match &pw.pages {
        Some(saved) => {
            let mut t = restore_page_tree(saved);
            proof {
                lemma_counts_agree(saved@, t.pages@);
            }
            let ghost t0 = t.pages@;
            dual_write_page_tree(graph, workspace_node, &mut t);
            proof {
                assert forall|k: int| 0 <= k < saved@.len() implies page_restored(*graph, saved@[k], #[trigger] t.pages@[k]) by {
                    assert(page_from_saved(saved@[k], t0[k]));
                    assert(page_written(g0, *graph, t0[k], t.pages@[k]));
                    assert forall|q: int| 0 <= q < saved@[k].pods@.len() implies (#[trigger] t.pages@[k].pods@[q]).id == PodId(
                        saved@[k].pods@[q].id,
                    ) && t.pages@[k].pods@[q].title@ == saved@[k].pods@[q].title@ && graph.has_node(t.pages@[k].pods@[q].node_id) by {
                        assert(t0[k].pods@[q].id == PodId(saved@[k].pods@[q].id));
                        assert(graph.has_node(t.pages@[k].pods@[q].node_id));
                    }
                }
                assert forall|k: int| 0 <= k < t.pages@.len() implies {
                    &&& graph.has_node((#[trigger] t.pages@[k]).node_id)
                    &&& forall|q: int| 0 <= q < t.pages@[k].pods@.len() ==> graph.has_node(#[trigger] t.pages@[k].pods@[q].node_id)
                } by {
                    assert(page_written(g0, *graph, t0[k], t.pages@[k]));
                }
                if !g0.has_node(NodeId(0)) && 0 < g0.next_node_id {
                    assert forall|k: int, q: int| is_container(t0, k, q) implies (#[trigger] container_node(t0, k, q)).0
                        < g0.next_node_id && !g0.has_node(container_node(t0, k, q)) by {
                        assert(page_from_saved(saved@[k], t0[k]));
                    }
                    assert(fresh_apart(g0, t0, t.pages@));
                    reveal(fresh_apart);
                    assert forall|k1: int, q1: int, k2: int, q2: int|
                        is_container(t.pages@, k1, q1) && is_container(t.pages@, k2, q2) && (k1 != k2 || q1 != q2)
                            implies #[trigger] container_node(t.pages@, k1, q1) != #[trigger] container_node(t.pages@, k2, q2) by {
                        assert(page_written(g0, *graph, t0[k1], t.pages@[k1]));
                        assert(page_written(g0, *graph, t0[k2], t.pages@[k2]));
                        assert(is_container(t0, k1, q1) && is_container(t0, k2, q2));
                    }
                }
                if g0.has_node(workspace_node) && !g0.has_node(NodeId(0)) && 0 < g0.next_node_id && bindings_below(g0)
                    && sole_parent(g0.edges@, workspace_node) {
                    assert forall|k: int| 0 <= k < t0.len() implies (#[trigger] t0[k]).node_id.0 < g0.next_node_id by {
                        assert(page_from_saved(saved@[k], t0[k]));
                    }
                    assert forall|k: int| 0 <= k < t0.len() implies !g0.has_node((#[trigger] t0[k]).node_id) by {
                        assert(page_from_saved(saved@[k], t0[k]));
                    }
                }
            }
            t
        },
        None => seeded,
    };
    let ghost mid = *graph;
    assert(g0.nodes@.take(g0.nodes@.len() as int) =~= g0.nodes@);
    let page_overrides = restore_overrides(&pw.page_overrides);
    let focused_page = match pw.focused_page {
        Some(p) => Some(PageId(p)),
        None => None,
    };
    if kind == BodyKind::Analysis {
        let empty_pages: Vec<(u32, String)> = Vec::new();
        let empty_pods: Vec<(u32, u32, String)> = Vec::new();
        let templates = match (&pw.page_templates, &pw.pod_templates) {
            (Some(a), Some(b)) => restore_templates(a, b),
            (Some(a), None) => restore_templates(a, &empty_pods),
            (None, Some(b)) => restore_templates(&empty_pages, b),
            (None, None) => restore_templates(&empty_pages, &empty_pods),
        };
        proof {
            lemma_writes_present(*graph, templates, tree.pages@);
        }
        apply_templates(graph, &tree, &templates);
        proof {
            assert(grows_nodes(g0, mid));
            assert forall|k: int| 0 <= k < tree.pages@.len() implies {
                &&& graph.has_node((#[trigger] tree.pages@[k]).node_id)
                &&& forall|q: int| 0 <= q < tree.pages@[k].pods@.len() ==> graph.has_node(#[trigger] tree.pages@[k].pods@[q].node_id)
            } by {
                lemma_applied_keeps_node(mid, *graph, tree_writes(templates, tree.pages@), tree.pages@[k].node_id);
                assert forall|q: int| 0 <= q < tree.pages@[k].pods@.len() implies graph.has_node(
                    #[trigger] tree.pages@[k].pods@[q].node_id,
                ) by {
                    lemma_applied_keeps_node(mid, *graph, tree_writes(templates, tree.pages@), tree.pages@[k].pods@[q].node_id);
                }
            }
            if pw.pages is Some {
                let saved = pw.pages->0;
                {
                    assert forall|k: int| 0 <= k < saved@.len() implies page_restored(*graph, saved@[k], #[trigger] tree.pages@[k]) by {
                        assert(page_restored(mid, saved@[k], tree.pages@[k]));
                        lemma_applied_keeps_node(mid, *graph, tree_writes(templates, tree.pages@), tree.pages@[k].node_id);
                        assert forall|q: int| 0 <= q < saved@[k].pods@.len() implies graph.has_node(
                            #[trigger] tree.pages@[k].pods@[q].node_id,
                        ) by {
                            lemma_applied_keeps_node(mid, *graph, tree_writes(templates, tree.pages@), tree.pages@[k].pods@[q].node_id);
                        }
                    }
                }
            }
        }
        RestoredWorkspace {
            open_id,
            kind,
            state,
            tree,
            pod_states,
            page_overrides,
            templates,
            focused_page,
            next_page_id: pw.next_page_id,
        }
    } else {
        let templates = TemplateBook::new();
        RestoredWorkspace {
            open_id,
            kind,
            state,
            tree,
            pod_states,
            page_overrides,
            templates,
            focused_page,
            next_page_id: None,
        }
    }
}

/// Writing templates keeps every node where it was, under its id.
proof fn lemma_applied_keeps_node(g0: Graph, g: Graph, ws: Seq<(NodeId, Option<Seq<char>>)>, id: NodeId)
    requires
        templates_applied(g0, g, ws),
        g0.has_node(id),
    ensures
        g.has_node(id),
{
    let i = choose|i: int| 0 <= i < g0.nodes@.len() && #[trigger] g0.nodes@[i].id == id;
    assert(g.nodes@[i].id == g0.nodes@[i].id);
}

/// `i` is the first page of `pages` with id `page`.
pub open spec fn is_first_page(pages: Seq<PageNode>, page: u32, i: int) -> bool {
    &&& 0 <= i < pages.len()
    &&& pages[i].id.0 == page
    &&& forall|j: int| 0 <= j < i ==> (#[trigger] pages[j]).id.0 != page
}

/// `q` is the first pod of `pods` with id `pod`.
pub open spec fn is_first_pod(pods: Seq<Pod>, pod: u32, q: int) -> bool {
    &&& 0 <= q < pods.len()
    &&& pods[q].id.0 == pod
    &&& forall|j: int| 0 <= j < q ==> (#[trigger] pods[j]).id.0 != pod
}

/// The node of the pod that saved component labels for `(page, pod)` belong to: the
/// first pod with id `pod` on the first page with id `page`, if both exist.
pub fn stub_pod_node(tree: &PageTree, page: u32, pod: u32) -> (r: Option<NodeId>)
    ensures
        match r {
            Some(n) => exists|i: int, q: int|
                is_first_page(tree.pages@, page, i) && #[trigger] is_first_pod(tree.pages@[i].pods@, pod, q) && n
                    == tree.pages@[i].pods@[q].node_id,
            None => (forall|i: int| 0 <= i < tree.pages@.len() ==> (#[trigger] tree.pages@[i]).id.0 != page) || exists|i: int|
                #[trigger] is_first_page(tree.pages@, page, i) && forall|q: int|
                    0 <= q < tree.pages@[i].pods@.len() ==> (#[trigger] tree.pages@[i].pods@[q]).id.0 != pod,
        },
{
    let n = tree.pages.len();
    let mut i: usize = 0;
    while i < n
        invariant
            n == tree.pages@.len(),
            i <= n,
            forall|j: int| 0 <= j < i ==> (#[trigger] tree.pages@[j]).id.0 != page,
        decreases n - i,
    {
        if tree.pages[i].id.0 == page {
            let pods = &tree.pages[i].pods;
            let m = pods.len();
            let mut q: usize = 0;
            while q < m
                invariant
                    m == pods@.len(),
                    n == tree.pages@.len(),
                    i < n,
                    tree.pages@[i as int].id.0 == page,
                    forall|j: int| 0 <= j < i ==> (#[trigger] tree.pages@[j]).id.0 != page,
                    pods@ == tree.pages@[i as int].pods@,
                    q <= m,
                    forall|j: int| 0 <= j < q ==> (#[trigger] pods@[j]).id.0 != pod,
                decreases m - q,
            {
                if pods[q].id.0 == pod {
                    assert(is_first_page(tree.pages@, page, i as int));
                    assert(is_first_pod(tree.pages@[i as int].pods@, pod, q as int));
                    return Some(pods[q].node_id);
                }
                q = q + 1;
            }
            assert(is_first_page(tree.pages@, page, i as int));
            return None;
        }
        i = i + 1;
    }
    None
}

/// `s` is the saved form of page `p`, whose pods' container states are `states`: its
/// id, label, pods (with their states) and its pod list's overrides.
pub open spec fn page_saved(p: PageNode, states: Seq<ContainerState>, s: SavedPage) -> bool {
    &&& s.id == p.id.0
    &&& s.label@ == p.label@
    &&& s.pods@.len() == p.pods@.len()
    &&& s.pod_overrides.entries@ == captured_fractions(p.pod_overrides.fractions.entries@)
    &&& s.pod_overrides.collapse_entries@ == captured_collapse(p.pod_overrides.collapse.entries@)
    &&& forall|q: int| 0 <= q < p.pods@.len() ==> (#[trigger] s.pods@[q]).id == p.pods@[q].id.0 && s.pods@[q].title@
        == p.pods@[q].title@ && state_saved(states[q], s.pods@[q].state)
}

/// The saved form of a live workspace: its open id, page cache (ids, labels, pods),
/// overrides and focused page; on an analysis body also its templates and page-id
/// counter.
pub fn capture_workspace(
    open_id: &str,
    kind: BodyKind,
    state: &ContainerState,
    tree: &PageTree,
    pod_states: &Vec<Vec<ContainerState>>,
    overrides: &Overrides,
    focused_page: PageId,
    templates: &TemplateBook,
    next_page_id: u32,
) -> (pw: SavedWorkspace)
    requires
        overrides.wf(),
        templates.wf(),
        pod_states@.len() == tree.pages@.len(),
        forall|k: int| 0 <= k < tree.pages@.len() ==> (#[trigger] tree.pages@[k]).pod_overrides.wf() && pod_states@[k]@.len()
            == tree.pages@[k].pods@.len(),
    ensures
        pw.open_id@ == open_id@,
        state_saved(*state, pw.state),
        pw.focused_page == Some(focused_page.0),
        pw.pages is Some,
        pw.pages->0@.len() == tree.pages@.len(),
        forall|k: int| 0 <= k < tree.pages@.len() ==> page_saved(tree.pages@[k], pod_states@[k]@, #[trigger] pw.pages->0@[k]),
        pw.page_overrides.entries@ == captured_fractions(overrides.fractions.entries@),
        pw.page_overrides.collapse_entries@ == captured_collapse(overrides.collapse.entries@),
        kind == BodyKind::Analysis ==> {
            &&& pw.page_templates is Some
            &&& forall|p: u32| #[trigger] last_page_entry(pw.page_templates->0@, p) == templates.page_template(p)
            &&& pw.pod_templates is Some
            &&& forall|p: u32, q: u32| #[trigger] last_pod_entry(pw.pod_templates->0@, p, q) == templates.pod_template(p, q)
            &&& pw.next_page_id == Some(next_page_id)
        },
        kind != BodyKind::Analysis ==> pw.page_templates is None && pw.pod_templates is None && pw.next_page_id is None,
{
    let mut pages: Vec<SavedPage> = Vec::new();
    let n = tree.pages.len();
    let mut k: usize = 0;
    while k < n
        invariant
            n == tree.pages@.len(),
            k <= n,
            pages@.len() == k,
            pod_states@.len() == tree.pages@.len(),
            forall|j: int| 0 <= j < tree.pages@.len() ==> (#[trigger] tree.pages@[j]).pod_overrides.wf() && pod_states@[j]@.len()
                == tree.pages@[j].pods@.len(),
            forall|j: int| 0 <= j < k ==> page_saved(tree.pages@[j], pod_states@[j]@, #[trigger] pages@[j]),
        decreases n - k,
    {
        let page = &tree.pages[k];
        let states = &pod_states[k];
        let mut pods: Vec<SavedPod> = Vec::new();
        let m = page.pods.len();
        let mut q: usize = 0;
        while q < m
            invariant
                m == page.pods@.len(),
                q <= m,
                pods@.len() == q,
                states@.len() == m,
                forall|j: int| 0 <= j < q ==> (#[trigger] pods@[j]).id == page.pods@[j].id.0 && pods@[j].title@
                    == page.pods@[j].title@ && state_saved(states@[j], pods@[j].state),
            decreases m - q,
        {
            pods.push(
                SavedPod { id: page.pods[q].id.0, title: page.pods[q].title.clone(), state: capture_container(&states[q]) },
            );
            q = q + 1;
        }
        let pod_overrides = capture_overrides(&page.pod_overrides);
        pages.push(SavedPage { id: page.id.0, label: page.label.clone(), pods, pod_overrides });
        k = k + 1;
    }
    let page_overrides = capture_overrides(overrides);
    if kind == BodyKind::Analysis {
        let page_templates = templates.capture_page_templates();
        let pod_templates = templates.capture_pod_templates();
        proof {
            lemma_page_templates_roundtrip(templates.pages.entries@, page_templates@);
            lemma_pod_templates_roundtrip(templates.pods.entries@, pod_templates@);
        }
        SavedWorkspace {
            open_id: String::from_str(open_id),
            state: capture_container(state),
            focused_page: Some(focused_page.0),
            pages: Some(pages),
            page_overrides,
            page_templates: Some(page_templates),
            pod_templates: Some(pod_templates),
            next_page_id: Some(next_page_id),
        }
    } else {
        SavedWorkspace {
            open_id: String::from_str(open_id),
            state: capture_container(state),
            focused_page: Some(focused_page.0),
            pages: Some(pages),
            page_overrides,
            page_templates: None,
            pod_templates: None,
            next_page_id: None,
        }
    }
}

/// Restoring what was captured brings the page cache back page by page (ids, labels,
/// pods, their titles, and a pod is collapsed exactly when its captured container was),
/// and the templates entry by entry: with `saved` as
/// [`capture_workspace`] leaves it from `live` and `book`, and `back`, `back_book` as
/// [`restore_workspace`] leaves them from `saved` on an analysis body.
pub proof fn lemma_restore_of_capture(
    live: Seq<PageNode>,
    live_states: Seq<Vec<ContainerState>>,
    book: TemplateBook,
    saved: SavedWorkspace,
    g: Graph,
    back: Seq<PageNode>,
    back_book: TemplateBook,
)
    requires
        saved.pages is Some,
        saved.pages->0@.len() == live.len(),
        live_states.len() == live.len(),
        forall|k: int| 0 <= k < live.len() ==> page_saved(live[k], live_states[k]@, #[trigger] saved.pages->0@[k]),
        saved.page_templates is Some,
        forall|p: u32| #[trigger] last_page_entry(saved.page_templates->0@, p) == book.page_template(p),
        saved.pod_templates is Some,
        forall|p: u32, q: u32| #[trigger] last_pod_entry(saved.pod_templates->0@, p, q) == book.pod_template(p, q),
        back.len() == saved.pages->0@.len(),
        forall|k: int| 0 <= k < back.len() ==> page_restored(g, saved.pages->0@[k], #[trigger] back[k]),
        forall|p: u32| #[trigger] back_book.page_template(p) == last_page_entry(saved_page_templates(saved), p),
        forall|p: u32, q: u32| #[trigger] back_book.pod_template(p, q) == last_pod_entry(saved_pod_templates(saved), p, q),
    ensures
        back.len() == live.len(),
        forall|k: int| 0 <= k < live.len() ==> {
            &&& (#[trigger] back[k]).id == live[k].id
            &&& back[k].label@ == live[k].label@
            &&& back[k].pods@.len() == live[k].pods@.len()
            &&& forall|q: int| 0 <= q < live[k].pods@.len() ==> (#[trigger] back[k].pods@[q]).id == live[k].pods@[q].id
                && back[k].pods@[q].title@ == live[k].pods@[q].title@ && back[k].pods@[q].collapsed == (live_states[k]@[q].intent
                == Visibility::Collapsed)
        },
        forall|p: u32| #[trigger] back_book.page_template(p) == book.page_template(p),
        forall|p: u32, q: u32| #[trigger] back_book.pod_template(p, q) == book.pod_template(p, q),
{
    assert forall|k: int| 0 <= k < live.len() implies {
        &&& (#[trigger] back[k]).id == live[k].id
        &&& back[k].label@ == live[k].label@
        &&& back[k].pods@.len() == live[k].pods@.len()
        &&& forall|q: int| 0 <= q < live[k].pods@.len() ==> (#[trigger] back[k].pods@[q]).id == live[k].pods@[q].id
            && back[k].pods@[q].title@ == live[k].pods@[q].title@ && back[k].pods@[q].collapsed == (live_states[k]@[q].intent
            == Visibility::Collapsed)
    } by {
        let s = saved.pages->0@[k];
        assert(page_saved(live[k], live_states[k]@, s));
        assert(page_restored(g, s, back[k]));
        assert forall|q: int| 0 <= q < live[k].pods@.len() implies (#[trigger] back[k].pods@[q]).id == live[k].pods@[q].id
            && back[k].pods@[q].title@ == live[k].pods@[q].title@ && back[k].pods@[q].collapsed == (live_states[k]@[q].intent
            == Visibility::Collapsed) by {
            assert(s.pods@[q].id == live[k].pods@[q].id.0);
            assert(state_saved(live_states[k]@[q], s.pods@[q].state));
        }
    }
    assert forall|p: u32| #[trigger] back_book.page_template(p) == book.page_template(p) by {
        assert(last_page_entry(saved.page_templates->0@, p) == book.page_template(p));
    }
    assert forall|p: u32, q: u32| #[trigger] back_book.pod_template(p, q) == book.pod_template(p, q) by {
        assert(last_pod_entry(saved.pod_templates->0@, p, q) == book.pod_template(p, q));
    }
}

} // verus!
