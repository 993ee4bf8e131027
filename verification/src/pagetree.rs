//! The page cache of a workspace (pages holding ordered pods) and its dual write into
//! the composed graph: every page and pod gets a `UIView`, bound in cache order.

use crate::containers::{
    binding_children_spec, insert_uiview, is_binding_from, is_fresh_binding,
    kept_by, lemma_rebound_keeps_others, rebind_children, rebound, sole_parent, EdgeRule,
};
use crate::graph::{Graph, NodeId};
use crate::overrides::Overrides;
use vstd::prelude::*;

verus! {

/// Identity of a page within its workspace.
#[derive(Debug, Clone, Copy, PartialEq, Eq, Structural)]
pub struct PageId(pub u32);

/// Identity of a pod within its page.
#[derive(Debug, Clone, Copy, PartialEq, Eq, Structural)]
pub struct PodId(pub u32);

/// One pod of a page, with the graph node that stands for it.
#[derive(Debug)]
pub struct Pod {
    pub id: PodId,
    pub node_id: NodeId,
    pub title: String,
    /// The pod is collapsed (its container's intent is `Collapsed`).
    pub collapsed: bool,
}

/// One page: its graph node, label and ordered pods.
#[derive(Debug)]
pub struct PageNode {
    pub id: PageId,
    pub node_id: NodeId,
    pub label: String,
    pub pods: Vec<Pod>,
    /// Split fractions and collapse flags of the page's pod list.
    pub pod_overrides: Overrides,
}

/// The ordered page cache of a workspace.
#[derive(Debug)]
pub struct PageTree {
    pub pages: Vec<PageNode>,
}

/// The graph nodes of a page's pods, in pod order.
pub open spec fn pod_nodes(page: PageNode) -> Seq<NodeId> {
    page.pods@.map_values(|p: Pod| p.node_id)
}

/// The graph nodes of a tree's pages, in page order.
pub open spec fn page_nodes(tree: PageTree) -> Seq<NodeId> {
    tree.pages@.map_values(|p: PageNode| p.node_id)
}

/// `after` keeps every node of `before` where it was and only appends nodes whose
/// ids were not handed out yet in `before`.
pub open spec fn grows_nodes(before: Graph, after: Graph) -> bool {
    &&& after.nodes@.len() >= before.nodes@.len()
    &&& after.nodes@.take(before.nodes@.len() as int) == before.nodes@
    &&& after.next_node_id >= before.next_node_id
    &&& after.next_node_id - before.next_node_id == after.nodes@.len() - before.nodes@.len()
    &&& forall|i: int| before.nodes@.len() <= i < after.nodes@.len() ==> #[trigger] after.nodes@[i].id.0
        >= before.next_node_id
}

/// A node of the grown graph whose id was already handed out before the growth is
/// a node of the earlier graph.
pub proof fn lemma_grows_back(before: Graph, after: Graph, id: NodeId)
    requires
        grows_nodes(before, after),
        after.has_node(id),
        id.0 < before.next_node_id,
    ensures
        before.has_node(id),
{
    let i = choose|i: int| 0 <= i < after.nodes@.len() && #[trigger] after.nodes@[i].id == id;
    assert(after.nodes@.take(before.nodes@.len() as int)[i] == after.nodes@[i]);
}

/// In a well-formed graph every stored id lies below the counter.
pub proof fn lemma_has_node_below(g: Graph, id: NodeId)
    requires
        g.wf(),
        g.has_node(id),
    ensures
        id.0 < g.next_node_id,
{
    let i = choose|i: int| 0 <= i < g.nodes@.len() && #[trigger] g.nodes@[i].id == id;
}

pub proof fn lemma_grows_has_node(before: Graph, after: Graph, id: NodeId)
    requires
        grows_nodes(before, after),
        before.has_node(id),
    ensures
        after.has_node(id),
{
    let i = choose|i: int| 0 <= i < before.nodes@.len() && #[trigger] before.nodes@[i].id == id;
    assert(after.nodes@.take(before.nodes@.len() as int)[i] == after.nodes@[i]);
}

pub proof fn lemma_grows_trans(a: Graph, b: Graph, c: Graph)
    requires
        grows_nodes(a, b),
        grows_nodes(b, c),
    ensures
        grows_nodes(a, c),
{
    assert(c.nodes@.take(a.nodes@.len() as int) =~= c.nodes@.take(b.nodes@.len() as int).take(a.nodes@.len() as int));
    assert forall|i: int| a.nodes@.len() <= i < c.nodes@.len() implies #[trigger] c.nodes@[i].id.0 >= a.next_node_id by {
        if i < b.nodes@.len() {
            assert(c.nodes@.take(b.nodes@.len() as int)[i] == c.nodes@[i]);
            assert(b.nodes@[i].id.0 >= a.next_node_id);
        }
    }
}

/// Every edge of `after` is an edge of `before` or a Binding with a single source.
pub open spec fn only_single_source_added(before: Graph, after: Graph) -> bool {
    forall|i: int| 0 <= i < after.edges@.len() ==> before.edges@.contains(#[trigger] after.edges@[i])
        || (after.edges@[i].kind == crate::graph::EdgeKind::Binding && after.edges@[i].sources@.len() == 1)
}

/// Every pod names a node id below the counter `next`.
pub open spec fn pods_below(pods: Seq<Pod>, next: u64) -> bool {
    forall|q: int| 0 <= q < pods.len() ==> (#[trigger] pods[q]).node_id.0 < next
}

/// The node `id` when it exists, otherwise a fresh `UIView` labelled `label`.
pub fn ensure_uiview(graph: &mut Graph, id: NodeId, label: &String) -> (r: NodeId)
    requires
        old(graph).wf(),
        old(graph).next_node_id < u64::MAX,
    ensures
        final(graph).wf(),
        final(graph).has_node(r),
        old(graph).has_node(id) ==> r == id && *final(graph) == *old(graph),
        !old(graph).has_node(id) ==> r.0 == old(graph).next_node_id && final(graph).nodes@.drop_last()
            == old(graph).nodes@ && final(graph).next_node_id == old(graph).next_node_id + 1,
        grows_nodes(*old(graph), *final(graph)),
        final(graph).next_node_id <= old(graph).next_node_id + 1,
        final(graph).edges@ == old(graph).edges@,
        final(graph).next_edge_id == old(graph).next_edge_id,
{
    if graph.contains_node(id) {
        assert(graph.nodes@.take(graph.nodes@.len() as int) =~= graph.nodes@);
        id
    } else {
        let ghost g0 = *graph;
        let r = insert_uiview(graph, label.clone());
        proof {
            graph.lemma_node_index(graph.nodes@.len() - 1);
            assert(graph.nodes@.take(g0.nodes@.len() as int) =~= graph.nodes@.drop_last());
        }
        r
    }
}

/// Give the page and each of its pods a `UIView` (keeping nodes that exist), then bind
/// the pods under the page in pod order.
pub fn ensure_page_uiview(graph: &mut Graph, page: &mut PageNode)
    requires
        old(graph).wf(),
        old(graph).next_node_id + 1 + old(page).pods@.len() < u64::MAX,
        old(graph).next_edge_id + old(page).pods@.len() < u64::MAX,
        old(page).pods@.len() <= i64::MAX,
    ensures
        final(graph).wf(),
        final(page).id == old(page).id,
        final(page).label == old(page).label,
        final(page).pod_overrides == old(page).pod_overrides,
        final(page).pods@.len() == old(page).pods@.len(),
        forall|k: int| 0 <= k < old(page).pods@.len() ==> (#[trigger] final(page).pods@[k]).id == old(page).pods@[k].id
            && final(page).pods@[k].title == old(page).pods@[k].title
            && final(page).pods@[k].collapsed == old(page).pods@[k].collapsed
            && final(graph).has_node(final(page).pods@[k].node_id)
            && (old(graph).has_node(old(page).pods@[k].node_id) ==> final(page).pods@[k].node_id == old(page).pods@[k].node_id)
            && (!old(graph).has_node(old(page).pods@[k].node_id) ==> final(page).pods@[k].node_id.0 >= old(graph).next_node_id),
        final(graph).has_node(final(page).node_id),
        old(graph).has_node(old(page).node_id) ==> final(page).node_id == old(page).node_id,
        !old(graph).has_node(old(page).node_id) ==> final(page).node_id.0 == old(graph).next_node_id,
        pods_below(old(page).pods@, old(graph).next_node_id) ==> forall|q: int|
            0 <= q < old(page).pods@.len() && !old(graph).has_node(old(page).pods@[q].node_id) ==> (#[trigger] final(page).pods@[q]).node_id
                != final(page).node_id,
        pods_below(old(page).pods@, old(graph).next_node_id) ==> forall|q1: int, q2: int|
            0 <= q1 < q2 < old(page).pods@.len() && !old(graph).has_node(old(page).pods@[q1].node_id) && !old(graph).has_node(
                old(page).pods@[q2].node_id,
            ) ==> (#[trigger] final(page).pods@[q1]).node_id.0 < (#[trigger] final(page).pods@[q2]).node_id.0,
        grows_nodes(*old(graph), *final(graph)),
        final(graph).next_node_id <= old(graph).next_node_id + 1 + old(page).pods@.len(),
        final(graph).next_edge_id == old(graph).next_edge_id + old(page).pods@.len(),
        only_single_source_added(*old(graph), *final(graph)),
        exists|mid: Graph| #[trigger] rebound(mid, *final(graph), final(page).node_id, pod_nodes(*final(page)))
            && mid.edges@ == old(graph).edges@,
{
    let ghost g0 = *graph;
    let id = ensure_uiview(graph, page.node_id, &page.label);
    let ghost g1 = *graph;
    proof {
        lemma_has_node_below(g1, id);
        assert(g1.nodes@.take(g1.nodes@.len() as int) =~= g1.nodes@);
    }
    page.node_id = id;
    let mut rest: Vec<Pod> = Vec::new();
    std::mem::swap(&mut page.pods, &mut rest);
    let ghost orig = rest@;
    let n = rest.len();
    let mut k: usize = 0;
    assert(orig.skip(0) =~= orig);
    while k < n
        invariant
            graph.wf(),
            n == orig.len(),
            k <= n,
            rest@ == orig.skip(k as int),
            page.pods@.len() == k,
            page.id == old(page).id,
            page.label == old(page).label,
            page.pod_overrides == old(page).pod_overrides,
            page.node_id == id,
            orig == old(page).pods@,
            graph.has_node(id),
            grows_nodes(g0, *graph),
            graph.next_node_id <= g0.next_node_id + 1 + k,
            g0.next_node_id + 1 + n < u64::MAX,
            graph.edges@ == g0.edges@,
            graph.next_edge_id == g0.next_edge_id,
            forall|q: int| 0 <= q < k ==> (#[trigger] page.pods@[q]).id == orig[q].id && page.pods@[q].title == orig[q].title
                && page.pods@[q].collapsed == orig[q].collapsed
                && graph.has_node(page.pods@[q].node_id)
                && (g0.has_node(orig[q].node_id) ==> page.pods@[q].node_id == orig[q].node_id)
                && (!g0.has_node(orig[q].node_id) ==> page.pods@[q].node_id.0 >= g0.next_node_id),
            g0.wf(),
            grows_nodes(g1, *graph),
            id.0 < g1.next_node_id,
            pods_below(orig, g0.next_node_id) ==> forall|q: int|
                0 <= q < k && !g0.has_node(orig[q].node_id) ==> (#[trigger] page.pods@[q]).node_id.0 >= g1.next_node_id,
            pods_below(orig, g0.next_node_id) ==> forall|q1: int, q2: int|
                0 <= q1 < q2 < k && !g0.has_node(orig[q1].node_id) && !g0.has_node(orig[q2].node_id) ==> (#[trigger] page.pods@[q1]).node_id.0
                    < (#[trigger] page.pods@[q2]).node_id.0,
        decreases n - k,
    {
        let mut pod = rest.remove(0);
        assert(pod == orig[k as int]);
        let ghost gb = *graph;
        let nid = ensure_uiview(graph, pod.node_id, &pod.title);
        proof {
            if g0.has_node(orig[k as int].node_id) {
                lemma_grows_has_node(g0, gb, orig[k as int].node_id);
            } else if gb.has_node(orig[k as int].node_id) && orig[k as int].node_id.0 < g0.next_node_id {
                lemma_grows_back(g0, gb, orig[k as int].node_id);
            }
            lemma_grows_has_node(gb, *graph, id);
            assert forall|q: int| 0 <= q < k implies graph.has_node(#[trigger] page.pods@[q].node_id) by {
                lemma_grows_has_node(gb, *graph, page.pods@[q].node_id);
            }
            lemma_grows_trans(g0, gb, *graph);
            lemma_grows_trans(g1, gb, *graph);
            if pods_below(orig, g0.next_node_id) && !g0.has_node(orig[k as int].node_id) {
                assert(orig[k as int].node_id.0 < g0.next_node_id);
                if gb.has_node(orig[k as int].node_id) {
                    lemma_grows_back(g0, gb, orig[k as int].node_id);
                }
                assert(nid.0 == gb.next_node_id);
                assert forall|q: int| 0 <= q < k implies (#[trigger] page.pods@[q]).node_id.0 < nid.0 by {
                    lemma_has_node_below(gb, page.pods@[q].node_id);
                }
            }
        }
        let ghost before_pods = page.pods@;
        pod.node_id = nid;
        page.pods.push(pod);
        proof {
            assert forall|q: int| 0 <= q < k implies #[trigger] page.pods@[q] == before_pods[q] by {}
        }
        assert(rest@ =~= orig.skip(k + 1));
        k = k + 1;
    }
    let mut kids: Vec<NodeId> = Vec::new();
    let mut q: usize = 0;
    while q < n
        invariant
            n == page.pods@.len(),
            q <= n,
            kids@ == pod_nodes(*page).take(q as int),
        decreases n - q,
    {
        kids.push(page.pods[q].node_id);
        assert(pod_nodes(*page).take(q + 1) =~= pod_nodes(*page).take(q as int).push(page.pods@[q as int].node_id));
        q = q + 1;
    }
    assert(pod_nodes(*page).take(n as int) =~= pod_nodes(*page));
    let ghost mid = *graph;
    rebind_children(graph, id, &kids);
    proof {
        assert(rebound(mid, *graph, page.node_id, pod_nodes(*page)));
        assert forall|i: int| 0 <= i < graph.edges@.len() implies g0.edges@.contains(#[trigger] graph.edges@[i])
            || (graph.edges@[i].kind == crate::graph::EdgeKind::Binding && graph.edges@[i].sources@.len() == 1) by {
            let kept = mid.edges@.filter(kept_by(EdgeRule::BindingsFrom(id)));
            if i < kept.len() {
                assert(graph.edges@.take(kept.len() as int)[i] == graph.edges@[i]);
                mid.edges@.lemma_filter_contains_rev(kept_by(EdgeRule::BindingsFrom(id)), graph.edges@[i]);
                assert(kept.contains(graph.edges@[i]));
            } else {
                let k2 = i - kept.len();
                assert(is_fresh_binding(graph.edges@[kept.len() + k2], id, pod_nodes(*page)[k2], k2 as i64));
            }
        }
    }
}


pub proof fn lemma_single_source_trans(a: Graph, b: Graph, c: Graph)
    requires
        only_single_source_added(a, b),
        only_single_source_added(b, c),
    ensures
        only_single_source_added(a, c),
{
    assert forall|i: int| 0 <= i < c.edges@.len() implies a.edges@.contains(#[trigger] c.edges@[i])
        || (c.edges@[i].kind == crate::graph::EdgeKind::Binding && c.edges@[i].sources@.len() == 1) by {
        if b.edges@.contains(c.edges@[i]) {
            let j = choose|j: int| 0 <= j < b.edges@.len() && b.edges@[j] == c.edges@[i];
            assert(a.edges@.contains(b.edges@[j]) || (b.edges@[j].kind == crate::graph::EdgeKind::Binding
                && b.edges@[j].sources@.len() == 1));
        }
    }
}

pub proof fn lemma_sole_parent_kept(a: Graph, b: Graph, parent: NodeId)
    requires
        only_single_source_added(a, b),
        sole_parent(a.edges@, parent),
    ensures
        sole_parent(b.edges@, parent),
{
    assert forall|i: int| 0 <= i < b.edges@.len() && is_binding_from(#[trigger] b.edges@[i], parent) implies b.edges@[i].sources@
        == seq![parent] by {
        if a.edges@.contains(b.edges@[i]) {
            let j = choose|j: int| 0 <= j < a.edges@.len() && a.edges@[j] == b.edges@[i];
            assert(is_binding_from(a.edges@[j], parent));
        } else {
            let s = b.edges@[i].sources@;
            let k = choose|k: int| 0 <= k < s.len() && s[k] == parent;
            assert(s =~= seq![parent]);
        }
    }
}

/// How many pages and pods the tree holds.
pub open spec fn container_count(pages: Seq<PageNode>) -> nat
    decreases pages.len(),
{
    if pages.len() == 0 {
        0
    } else {
        container_count(pages.drop_last()) + 1 + pages.last().pods@.len()
    }
}

pub proof fn lemma_container_count_skip(pages: Seq<PageNode>, k: int)
    requires
        0 <= k < pages.len(),
    ensures
        container_count(pages.take(k + 1)) == container_count(pages.take(k)) + 1 + pages[k].pods@.len(),
{
    assert(pages.take(k + 1).drop_last() =~= pages.take(k));
}

pub proof fn lemma_container_count_mono(pages: Seq<PageNode>, k: int)
    requires
        0 <= k <= pages.len(),
    ensures
        container_count(pages.take(k)) <= container_count(pages),
    decreases pages.len() - k,
{
    if k < pages.len() {
        lemma_container_count_skip(pages, k);
        lemma_container_count_mono(pages, k + 1);
    } else {
        assert(pages.take(k) =~= pages);
    }
}

/// `after` is `before` once written: same id, label and pods, every node present in `g`,
/// and nodes that already existed in `g0` kept.
pub open spec fn page_written(g0: Graph, g: Graph, before: PageNode, after: PageNode) -> bool {
    &&& after.id == before.id
    &&& after.label == before.label
    &&& after.pod_overrides == before.pod_overrides
    &&& after.pods@.len() == before.pods@.len()
    &&& g.has_node(after.node_id)
    &&& g0.has_node(before.node_id) ==> after.node_id == before.node_id
    &&& !g0.has_node(before.node_id) ==> after.node_id.0 >= g0.next_node_id
    &&& forall|q: int| 0 <= q < before.pods@.len() ==> g.has_node(#[trigger] after.pods@[q].node_id)
        && after.pods@[q].id == before.pods@[q].id && after.pods@[q].title == before.pods@[q].title
        && after.pods@[q].collapsed == before.pods@[q].collapsed
        && (!g0.has_node(before.pods@[q].node_id) ==> after.pods@[q].node_id.0 >= g0.next_node_id)
}

/// Every page of the cache names a node id below the counter `next`: a node of the
/// graph or a stale id, never one that a write is about to hand out.
pub open spec fn page_ids_below(pages: Seq<PageNode>, next: u64) -> bool {
    forall|k: int| 0 <= k < pages.len() ==> (#[trigger] pages[k]).node_id.0 < next
}

/// The pages whose nodes `g` holds name pairwise distinct nodes, none of them `workspace_node`.
pub open spec fn known_pages_apart(g: Graph, pages: Seq<PageNode>, workspace_node: NodeId) -> bool {
    &&& forall|i: int, j: int|
        0 <= i < pages.len() && 0 <= j < pages.len() && i != j && g.has_node((#[trigger] pages[i]).node_id) && g.has_node(
            (#[trigger] pages[j]).node_id,
        ) ==> pages[i].node_id != pages[j].node_id
    &&& forall|i: int| 0 <= i < pages.len() && g.has_node((#[trigger] pages[i]).node_id) ==> pages[i].node_id != workspace_node
}

/// Every source of every Binding edge of `g` is an id below the counter.
pub open spec fn bindings_below(g: Graph) -> bool {
    forall|i: int, k: int|
        0 <= i < g.edges@.len() && g.edges@[i].kind == crate::graph::EdgeKind::Binding && 0 <= k
            < g.edges@[i].sources@.len() ==> (#[trigger] g.edges@[i].sources@[k]).0 < g.next_node_id
}

/// No Binding edge of `g` starts at an id that `g` has not handed out yet.
pub proof fn lemma_fresh_sole_parent(g: Graph, x: NodeId)
    requires
        bindings_below(g),
        x.0 >= g.next_node_id,
    ensures
        sole_parent(g.edges@, x),
{
    assert forall|i: int| 0 <= i < g.edges@.len() && is_binding_from(#[trigger] g.edges@[i], x) implies g.edges@[i].sources@
        == seq![x] by {
        let k = choose|k: int| 0 <= k < g.edges@[i].sources@.len() && g.edges@[i].sources@[k] == x;
        assert(g.edges@[i].sources@[k].0 < g.next_node_id);
    }
}

/// The pages written so far whose nodes were missing got ids in ascending page order
/// (meaningful when every page named an id below the counter).
#[verifier::opaque]
spec fn fresh_in_order(g0: Graph, orig: Seq<PageNode>, pages: Seq<PageNode>) -> bool {
    page_ids_below(orig, g0.next_node_id) ==> forall|i: int, j: int|
        0 <= i < j < pages.len() && !g0.has_node(orig[i].node_id) && !g0.has_node(orig[j].node_id) ==> (#[trigger] pages[i]).node_id.0
            < (#[trigger] pages[j]).node_id.0
}

/// Writing one more page keeps the fresh page nodes in ascending order.
proof fn lemma_fresh_order_step(g0: Graph, gb: Graph, orig: Seq<PageNode>, before: Seq<PageNode>, pg: PageNode)
    requires
        g0.wf(),
        gb.wf(),
        grows_nodes(g0, gb),
        before.len() < orig.len(),
        fresh_in_order(g0, orig, before),
        forall|j: int| 0 <= j < before.len() ==> page_written(g0, gb, orig[j], #[trigger] before[j]),
        !gb.has_node(orig[before.len() as int].node_id) ==> pg.node_id.0 == gb.next_node_id,
    ensures
        fresh_in_order(g0, orig, before.push(pg)),
{
    reveal(fresh_in_order);
    let k = before.len() as int;
    let pages = before.push(pg);
    if page_ids_below(orig, g0.next_node_id) {
        assert forall|i: int, j: int|
            0 <= i < j < pages.len() && !g0.has_node(orig[i].node_id) && !g0.has_node(orig[j].node_id) implies (#[trigger] pages[i]).node_id.0
                < (#[trigger] pages[j]).node_id.0 by {
            assert(pages[i] == before[i]);
            if j < k {
                assert(pages[j] == before[j]);
            } else {
                assert(orig[j].node_id.0 < g0.next_node_id);
                if gb.has_node(orig[j].node_id) {
                    lemma_grows_back(g0, gb, orig[j].node_id);
                }
                assert(page_written(g0, gb, orig[i], before[i]));
                lemma_has_node_below(gb, before[i].node_id);
            }
        }
    }
}

/// The node of container `(k, q)` of `pages`: the page itself for `q == -1`, else its
/// pod `q`.
pub open spec fn container_node(pages: Seq<PageNode>, k: int, q: int) -> NodeId {
    if q < 0 {
        pages[k].node_id
    } else {
        pages[k].pods@[q].node_id
    }
}

/// `(k, q)` names a container of `pages`: page `k` for `q == -1`, else its pod `q`.
pub open spec fn is_container(pages: Seq<PageNode>, k: int, q: int) -> bool {
    0 <= k < pages.len() && -1 <= q < pages[k].pods@.len()
}

/// Every page and pod of `pages` names a node id below the counter `next`: a node of
/// the graph or a stale id, never one that a write is about to hand out.
pub open spec fn containers_below(pages: Seq<PageNode>, next: u64) -> bool {
    forall|k: int, q: int| is_container(pages, k, q) ==> (#[trigger] container_node(pages, k, q)).0 < next
}

/// Among the first `pages.len()` pages, the containers of `orig` whose nodes `g0` lacked
/// got pairwise distinct nodes in `pages`.
#[verifier::opaque]
pub open spec fn fresh_apart(g0: Graph, orig: Seq<PageNode>, pages: Seq<PageNode>) -> bool {
    forall|k1: int, q1: int, k2: int, q2: int|
        k1 < pages.len() && k2 < pages.len() && is_container(orig, k1, q1) && is_container(orig, k2, q2) && (k1 != k2 || q1
            != q2) && !g0.has_node(container_node(orig, k1, q1)) && !g0.has_node(container_node(orig, k2, q2))
            ==> #[trigger] container_node(pages, k1, q1) != #[trigger] container_node(pages, k2, q2)
}

/// Writing one more page keeps the fresh containers' nodes pairwise distinct.
proof fn lemma_fresh_apart_step(g0: Graph, gb: Graph, orig: Seq<PageNode>, before: Seq<PageNode>, pg: PageNode)
    requires
        g0.wf(),
        gb.wf(),
        grows_nodes(g0, gb),
        before.len() < orig.len(),
        fresh_apart(g0, orig, before),
        forall|j: int| 0 <= j < before.len() ==> page_written(g0, gb, orig[j], #[trigger] before[j]),
        pg.pods@.len() == orig[before.len() as int].pods@.len(),
        gb.has_node(orig[before.len() as int].node_id) ==> pg.node_id == orig[before.len() as int].node_id,
        !gb.has_node(orig[before.len() as int].node_id) ==> pg.node_id.0 == gb.next_node_id,
        forall|q: int| 0 <= q < orig[before.len() as int].pods@.len() ==> (gb.has_node(orig[before.len() as int].pods@[q].node_id)
            ==> (#[trigger] pg.pods@[q]).node_id == orig[before.len() as int].pods@[q].node_id) && (!gb.has_node(
            orig[before.len() as int].pods@[q].node_id,
        ) ==> pg.pods@[q].node_id.0 >= gb.next_node_id),
        pods_below(orig[before.len() as int].pods@, gb.next_node_id) ==> forall|q: int|
            0 <= q < orig[before.len() as int].pods@.len() && !gb.has_node(orig[before.len() as int].pods@[q].node_id)
                ==> (#[trigger] pg.pods@[q]).node_id != pg.node_id,
        pods_below(orig[before.len() as int].pods@, gb.next_node_id) ==> forall|q1: int, q2: int|
            0 <= q1 < q2 < orig[before.len() as int].pods@.len() && !gb.has_node(orig[before.len() as int].pods@[q1].node_id)
                && !gb.has_node(orig[before.len() as int].pods@[q2].node_id) ==> (#[trigger] pg.pods@[q1]).node_id.0
                < (#[trigger] pg.pods@[q2]).node_id.0,
        containers_below(orig, g0.next_node_id),
    ensures
        fresh_apart(g0, orig, before.push(pg)),
{
    reveal(fresh_apart);
    let k = before.len() as int;
    let pages = before.push(pg);
    let o = orig[k];
    assert forall|q: int| 0 <= q < o.pods@.len() implies (#[trigger] o.pods@[q]).node_id.0 < gb.next_node_id by {
        assert(container_node(orig, k, q) == o.pods@[q].node_id);
        assert(is_container(orig, k, q));
    }
    assert(pods_below(o.pods@, gb.next_node_id));
    assert forall|k1: int, q1: int, k2: int, q2: int|
        k1 < pages.len() && k2 < pages.len() && is_container(orig, k1, q1) && is_container(orig, k2, q2) && (k1 != k2 || q1
            != q2) && !g0.has_node(container_node(orig, k1, q1)) && !g0.has_node(container_node(orig, k2, q2))
            implies #[trigger] container_node(pages, k1, q1) != #[trigger] container_node(pages, k2, q2) by {
        assert(is_container(orig, k1, q1) ==> container_node(orig, k1, q1).0 < g0.next_node_id);
        assert(is_container(orig, k2, q2) ==> container_node(orig, k2, q2).0 < g0.next_node_id);
        if gb.has_node(container_node(orig, k1, q1)) {
            lemma_grows_back(g0, gb, container_node(orig, k1, q1));
        }
        if gb.has_node(container_node(orig, k2, q2)) {
            lemma_grows_back(g0, gb, container_node(orig, k2, q2));
        }
        if k1 < k {
            assert(pages[k1] == before[k1]);
            assert(page_written(g0, gb, orig[k1], before[k1]));
            assert(container_node(pages, k1, q1) == container_node(before, k1, q1));
            if q1 >= 0 {
                assert(gb.has_node(before[k1].pods@[q1].node_id));
            }
            lemma_has_node_below(gb, container_node(before, k1, q1));
        }
        if k2 < k {
            assert(pages[k2] == before[k2]);
            assert(page_written(g0, gb, orig[k2], before[k2]));
            assert(container_node(pages, k2, q2) == container_node(before, k2, q2));
            if q2 >= 0 {
                assert(gb.has_node(before[k2].pods@[q2].node_id));
            }
            lemma_has_node_below(gb, container_node(before, k2, q2));
        }
        if k1 < k && k2 < k {
            assert(container_node(before, k1, q1) != container_node(before, k2, q2));
        }
        if k1 == k {
            assert(pages[k1] == pg);
        }
        if k2 == k {
            assert(pages[k2] == pg);
        }
        if k1 == k && k2 == k {
            if q1 >= 0 && q2 >= 0 {
                if q1 < q2 {
                    assert(pg.pods@[q1].node_id.0 < pg.pods@[q2].node_id.0);
                } else {
                    assert(pg.pods@[q2].node_id.0 < pg.pods@[q1].node_id.0);
                }
            }
        }
    }
}

/// Written pages are apart when the known ones were, the stale ones lay below the
/// counter and the fresh ones were handed out in page order.
proof fn lemma_written_pages_apart(g0: Graph, g: Graph, orig: Seq<PageNode>, pages: Seq<PageNode>, workspace_node: NodeId)
    requires
        g0.wf(),
        orig.len() == pages.len(),
        forall|j: int| 0 <= j < orig.len() ==> page_written(g0, g, orig[j], #[trigger] pages[j]),
        fresh_in_order(g0, orig, pages),
        page_ids_below(orig, g0.next_node_id),
        known_pages_apart(g0, orig, workspace_node),
        g0.has_node(workspace_node),
    ensures
        pages_apart(pages, workspace_node),
{
    reveal(fresh_in_order);
    lemma_has_node_below(g0, workspace_node);
    assert forall|i: int, j: int| 0 <= i < pages.len() && 0 <= j < pages.len() && i != j implies (#[trigger] pages[i]).node_id
        != (#[trigger] pages[j]).node_id by {
        assert(page_written(g0, g, orig[i], pages[i]));
        assert(page_written(g0, g, orig[j], pages[j]));
        if g0.has_node(orig[i].node_id) {
            lemma_has_node_below(g0, orig[i].node_id);
        }
        if g0.has_node(orig[j].node_id) {
            lemma_has_node_below(g0, orig[j].node_id);
        }
        if !g0.has_node(orig[i].node_id) && !g0.has_node(orig[j].node_id) {
            if i < j {
                assert(pages[i].node_id.0 < pages[j].node_id.0);
            } else {
                assert(pages[j].node_id.0 < pages[i].node_id.0);
            }
        }
    }
    assert forall|i: int| 0 <= i < pages.len() implies (#[trigger] pages[i]).node_id != workspace_node by {
        assert(page_written(g0, g, orig[i], pages[i]));
    }
}

/// The pages' nodes are pairwise distinct and differ from the workspace's node.
pub open spec fn pages_apart(pages: Seq<PageNode>, workspace_node: NodeId) -> bool {
    &&& forall|i: int, j: int| 0 <= i < pages.len() && 0 <= j < pages.len() && i != j ==> (#[trigger] pages[i]).node_id
        != (#[trigger] pages[j]).node_id
    &&& forall|i: int| 0 <= i < pages.len() ==> (#[trigger] pages[i]).node_id != workspace_node
}

/// Each page's Binding children are its pods, in pod order.
pub open spec fn pods_bound(g: Graph, pages: Seq<PageNode>) -> bool {
    forall|k: int| 0 <= k < pages.len() ==> binding_children_spec(g, #[trigger] pages[k].node_id) == pod_nodes(pages[k])
}

/// What a dual write of `pages` under `workspace_node` into `g` needs for full Binding
/// parity: the workspace node is in the graph; every page names a node of the graph or
/// a stale id below the counter; the pages the graph holds are apart; every Binding
/// starts below the counter; and the workspace and the held pages have only Bindings
/// of their own.
pub open spec fn write_conditions(g: Graph, pages: Seq<PageNode>, workspace_node: NodeId) -> bool {
    &&& g.has_node(workspace_node)
    &&& page_ids_below(pages, g.next_node_id)
    &&& known_pages_apart(g, pages, workspace_node)
    &&& bindings_below(g)
    &&& sole_parent(g.edges@, workspace_node)
    &&& forall|k: int| 0 <= k < pages.len() && g.has_node(#[trigger] pages[k].node_id) ==> sole_parent(
        g.edges@,
        pages[k].node_id,
    )
}

/// A workspace node just added to a graph whose Bindings all start below its counter,
/// over pages that name no node yet (`NodeId(0)`, which the graph does not hold):
/// the write conditions hold.
pub proof fn lemma_new_workspace_write_conditions(before: Graph, after: Graph, workspace_node: NodeId, pages: Seq<PageNode>)
    requires
        before.wf(),
        bindings_below(before),
        !before.has_node(NodeId(0)),
        0 < before.next_node_id,
        after.edges@ == before.edges@,
        after.nodes@.drop_last() == before.nodes@,
        after.nodes@.len() == before.nodes@.len() + 1,
        after.nodes@.last().id == workspace_node,
        workspace_node.0 == before.next_node_id,
        after.next_node_id == before.next_node_id + 1,
        forall|k: int| 0 <= k < pages.len() ==> (#[trigger] pages[k]).node_id == NodeId(0),
    ensures
        write_conditions(after, pages, workspace_node),
{
    assert(after.nodes@[after.nodes@.len() - 1].id == workspace_node);
    assert(after.has_node(workspace_node));
    assert(!after.has_node(NodeId(0))) by {
        if after.has_node(NodeId(0)) {
            let i = choose|i: int| 0 <= i < after.nodes@.len() && #[trigger] after.nodes@[i].id == NodeId(0);
            if i < before.nodes@.len() {
                assert(after.nodes@.drop_last()[i] == after.nodes@[i]);
            }
        }
    }
    assert(sole_parent(after.edges@, workspace_node)) by {
        assert forall|i: int| 0 <= i < after.edges@.len() && is_binding_from(#[trigger] after.edges@[i], workspace_node)
            implies after.edges@[i].sources@ == seq![workspace_node] by {
            let k = choose|k: int| 0 <= k < after.edges@[i].sources@.len() && after.edges@[i].sources@[k] == workspace_node;
            assert(before.edges@[i].sources@[k].0 < before.next_node_id);
        }
    }
}

/// Give every page and pod a `UIView` (keeping the nodes the graph holds, handing out
/// fresh ones for the rest), bind each page's pods under it and bind the pages under
/// `workspace_node`, all in cache order.
#[verifier::spinoff_prover]
pub fn dual_write_page_tree(graph: &mut Graph, workspace_node: NodeId, tree: &mut PageTree)
    requires
        old(graph).wf(),
        old(graph).next_node_id + container_count(old(tree).pages@) < u64::MAX,
        old(graph).next_edge_id + container_count(old(tree).pages@) < u64::MAX,
        old(tree).pages@.len() <= i64::MAX,
        forall|k: int| 0 <= k < old(tree).pages@.len() ==> (#[trigger] old(tree).pages@[k]).pods@.len() <= i64::MAX,
    ensures
        final(graph).wf(),
        final(tree).pages@.len() == old(tree).pages@.len(),
        forall|k: int| 0 <= k < old(tree).pages@.len() ==> page_written(
            *old(graph),
            *final(graph),
            old(tree).pages@[k],
            #[trigger] final(tree).pages@[k],
        ),
        grows_nodes(*old(graph), *final(graph)),
        sole_parent(old(graph).edges@, workspace_node) ==> binding_children_spec(*final(graph), workspace_node)
            == page_nodes(*final(tree)),
        pages_apart(final(tree).pages@, workspace_node) && (forall|k: int|
            0 <= k < final(tree).pages@.len() ==> sole_parent(old(graph).edges@, #[trigger] final(tree).pages@[k].node_id))
            ==> pods_bound(*final(graph), final(tree).pages@),
        sole_parent(old(graph).edges@, workspace_node) && pages_apart(final(tree).pages@, workspace_node) && (forall|k: int|
            0 <= k < final(tree).pages@.len() ==> sole_parent(old(graph).edges@, #[trigger] final(tree).pages@[k].node_id))
            ==> crate::components::binding_parity_spec(*final(graph), workspace_node, *final(tree)),
        old(graph).has_node(workspace_node) && page_ids_below(old(tree).pages@, old(graph).next_node_id)
            && known_pages_apart(*old(graph), old(tree).pages@, workspace_node) ==> pages_apart(final(tree).pages@, workspace_node),
        containers_below(old(tree).pages@, old(graph).next_node_id) ==> fresh_apart(*old(graph), old(tree).pages@, final(tree).pages@),
        write_conditions(*old(graph), old(tree).pages@, workspace_node) ==> pages_apart(final(tree).pages@, workspace_node)
            && crate::components::binding_parity_spec(*final(graph), workspace_node, *final(tree)),
        old(graph).has_node(workspace_node) && page_ids_below(old(tree).pages@, old(graph).next_node_id)
            && known_pages_apart(*old(graph), old(tree).pages@, workspace_node) && bindings_below(*old(graph))
            && sole_parent(old(graph).edges@, workspace_node) && (forall|k: int|
            0 <= k < old(tree).pages@.len() && old(graph).has_node(#[trigger] old(tree).pages@[k].node_id) ==> sole_parent(
                old(graph).edges@,
                old(tree).pages@[k].node_id,
            )) ==> crate::components::binding_parity_spec(*final(graph), workspace_node, *final(tree)),
{
    let ghost g0 = *graph;
    let mut rest: Vec<PageNode> = Vec::new();
    std::mem::swap(&mut tree.pages, &mut rest);
    let ghost orig = rest@;
    let n = rest.len();
    let mut k: usize = 0;
    assert(orig.skip(0) =~= orig);
    assert(graph.nodes@.take(graph.nodes@.len() as int) =~= graph.nodes@);
    assert forall|i: int| 0 <= i < graph.edges@.len() implies g0.edges@.contains(#[trigger] graph.edges@[i])
        || (graph.edges@[i].kind == crate::graph::EdgeKind::Binding && graph.edges@[i].sources@.len() == 1) by {
        assert(g0.edges@[i] == graph.edges@[i]);
    }
    assert(fresh_in_order(g0, orig, tree.pages@)) by {
        reveal(fresh_in_order);
    }
    assert(fresh_apart(g0, orig, tree.pages@)) by {
        reveal(fresh_apart);
    }
    while k < n
        invariant
            graph.wf(),
            n == orig.len(),
            k <= n,
            rest@ == orig.skip(k as int),
            tree.pages@.len() == k,
            orig == old(tree).pages@,
            forall|j: int| 0 <= j < orig.len() ==> (#[trigger] orig[j]).pods@.len() <= i64::MAX,
            grows_nodes(g0, *graph),
            only_single_source_added(g0, *graph),
            graph.next_node_id <= g0.next_node_id + container_count(orig.take(k as int)),
            graph.next_edge_id + k <= g0.next_edge_id + container_count(orig.take(k as int)),
            g0.next_node_id + container_count(orig) < u64::MAX,
            g0.next_edge_id + container_count(orig) < u64::MAX,
            forall|j: int| 0 <= j < k ==> page_written(g0, *graph, orig[j], #[trigger] tree.pages@[j]),
            g0.wf(),
            fresh_in_order(g0, orig, tree.pages@),
            containers_below(orig, g0.next_node_id) ==> fresh_apart(g0, orig, tree.pages@),
            forall|j: int|
                0 <= j < k && (forall|i: int| 0 <= i < k && i != j ==> tree.pages@[i].node_id != tree.pages@[j].node_id)
                    && sole_parent(g0.edges@, tree.pages@[j].node_id) ==> binding_children_spec(*graph, #[trigger] tree.pages@[j].node_id)
                    == pod_nodes(tree.pages@[j]),
        decreases n - k,
    {
        let mut page = rest.remove(0);
        assert(page == orig[k as int]);
        proof {
            lemma_container_count_skip(orig, k as int);
            lemma_container_count_mono(orig, k + 1);
        }
        let ghost gb = *graph;
        ensure_page_uiview(graph, &mut page);
        proof {
            lemma_grows_trans(g0, gb, *graph);
            lemma_single_source_trans(g0, gb, *graph);
            if g0.has_node(orig[k as int].node_id) {
                lemma_grows_has_node(g0, gb, orig[k as int].node_id);
            }
            assert forall|q: int| 0 <= q < orig[k as int].pods@.len() && g0.has_node(
                orig[k as int].pods@[q].node_id,
            ) implies gb.has_node(orig[k as int].pods@[q].node_id) by {
                if g0.has_node(orig[k as int].pods@[q].node_id) {
                    lemma_grows_has_node(g0, gb, orig[k as int].pods@[q].node_id);
                }
            }
        }
        let ghost pg = page;
        let ghost before_pages = tree.pages@;
        tree.pages.push(page);
        assert(tree.pages@[k as int] == pg);
        proof {
            let mid = choose|mid: Graph| #[trigger] rebound(mid, *graph, pg.node_id, pod_nodes(pg)) && mid.edges@ == gb.edges@;
            assert forall|j: int|
                0 <= j < k + 1 && (forall|i: int| 0 <= i < k + 1 && i != j ==> tree.pages@[i].node_id != tree.pages@[j].node_id)
                    && sole_parent(g0.edges@, tree.pages@[j].node_id) implies binding_children_spec(*graph, #[trigger] tree.pages@[j].node_id)
                    == pod_nodes(tree.pages@[j]) by {
                if j < k {
                    assert(tree.pages@[j] == before_pages[j]);
                    assert forall|i: int| 0 <= i < k && i != j implies before_pages[i].node_id != before_pages[j].node_id by {
                        assert(tree.pages@[i] == before_pages[i]);
                    }
                    assert(tree.pages@[k as int].node_id != tree.pages@[j].node_id);
                    lemma_rebound_keeps_others(mid, *graph, pg.node_id, pod_nodes(pg), before_pages[j].node_id);
                } else {
                    lemma_sole_parent_kept(g0, gb, pg.node_id);
                }
            }
        }
        proof {
            assert(tree.pages@ == before_pages.push(pg));
            lemma_fresh_order_step(g0, gb, orig, before_pages, pg);
            if containers_below(orig, g0.next_node_id) {
                lemma_fresh_apart_step(g0, gb, orig, before_pages, pg);
            }
        }
        assert forall|j: int| 0 <= j < k + 1 implies page_written(g0, *graph, orig[j], #[trigger] tree.pages@[j]) by {
            if j < k {
                assert(tree.pages@[j] == before_pages[j]);
                assert(page_written(g0, gb, orig[j], before_pages[j]));
                lemma_grows_has_node(gb, *graph, before_pages[j].node_id);
                assert forall|q: int| 0 <= q < orig[j].pods@.len() implies graph.has_node(
                    #[trigger] before_pages[j].pods@[q].node_id,
                ) by {
                    lemma_grows_has_node(gb, *graph, before_pages[j].pods@[q].node_id);
                }
            } else {
                assert forall|q: int| 0 <= q < orig[j].pods@.len() implies graph.has_node(
                    #[trigger] pg.pods@[q].node_id,
                ) && pg.pods@[q].id == orig[j].pods@[q].id by {
                    assert(pg.pods@[q].id == orig[j].pods@[q].id);
                }
            }
        }
        assert(rest@ =~= orig.skip(k + 1));
        k = k + 1;
    }
    assert(orig.take(n as int) =~= orig);
    let mut kids: Vec<NodeId> = Vec::new();
    let mut q: usize = 0;
    while q < n
        invariant
            n == tree.pages@.len(),
            q <= n,
            kids@ == page_nodes(*tree).take(q as int),
        decreases n - q,
    {
        kids.push(tree.pages[q].node_id);
        assert(page_nodes(*tree).take(q + 1) =~= page_nodes(*tree).take(q as int).push(tree.pages@[q as int].node_id));
        q = q + 1;
    }
    assert(page_nodes(*tree).take(n as int) =~= page_nodes(*tree));
    proof {
        lemma_container_count_ge_len(orig);
    }
    let ghost mid = *graph;
    rebind_children(graph, workspace_node, &kids);
    proof {
        assert(graph.nodes@ == mid.nodes@);
        assert forall|j: int| 0 <= j < orig.len() implies page_written(g0, *graph, orig[j], #[trigger] tree.pages@[j]) by {
            assert(page_written(g0, mid, orig[j], tree.pages@[j]));
        }
        if g0.has_node(workspace_node) && page_ids_below(orig, g0.next_node_id) && known_pages_apart(g0, orig, workspace_node) {
            lemma_written_pages_apart(g0, *graph, orig, tree.pages@, workspace_node);
            if bindings_below(g0) {
                assert forall|k: int| 0 <= k < tree.pages@.len() && (forall|k2: int|
                    0 <= k2 < orig.len() && g0.has_node(#[trigger] orig[k2].node_id) ==> sole_parent(g0.edges@, orig[k2].node_id))
                    implies sole_parent(g0.edges@, #[trigger] tree.pages@[k].node_id) by {
                    assert(page_written(g0, *graph, orig[k], tree.pages@[k]));
                    if !g0.has_node(orig[k].node_id) {
                        lemma_fresh_sole_parent(g0, tree.pages@[k].node_id);
                    }
                }
            }
        }
        if sole_parent(g0.edges@, workspace_node) {
            lemma_sole_parent_kept(g0, mid, workspace_node);
        }
        if pages_apart(tree.pages@, workspace_node) && (forall|k: int|
            0 <= k < tree.pages@.len() ==> sole_parent(g0.edges@, #[trigger] tree.pages@[k].node_id)) {
            assert forall|k: int| 0 <= k < tree.pages@.len() implies binding_children_spec(*graph, #[trigger] tree.pages@[k].node_id)
                == pod_nodes(tree.pages@[k]) by {
                assert forall|i: int| 0 <= i < n && i != k implies tree.pages@[i].node_id != tree.pages@[k].node_id by {}
                assert(binding_children_spec(mid, tree.pages@[k].node_id) == pod_nodes(tree.pages@[k]));
                lemma_rebound_keeps_others(mid, *graph, workspace_node, kids@, tree.pages@[k].node_id);
            }
        }
    }
}

pub proof fn lemma_container_count_ge_len(pages: Seq<PageNode>)
    ensures
        container_count(pages) >= pages.len(),
    decreases pages.len(),
{
    if pages.len() > 0 {
        lemma_container_count_ge_len(pages.drop_last());
    }
}

} // verus!

