//! Queries over the written container hierarchy: parity between the page cache and
//! the Binding walk, component labels and particle slots under pods, entity nodes.

use crate::containers::{binding_children, binding_children_spec};
use crate::graph::{Graph, Node, NodeId, SpaceClass};
use crate::pagetree::{container_count, page_nodes, pod_nodes, PageNode, PageTree};
use crate::text::{has_prefix, views};
use vstd::prelude::*;

verus! {

/// Whether two id lists are equal.
pub fn ids_equal(a: &Vec<NodeId>, b: &Vec<NodeId>) -> (r: bool)
    ensures
        r == (a@ == b@),
{
    if a.len() != b.len() {
        return false;
    }
    let n = a.len();
    let mut i: usize = 0;
    while i < n
        invariant
            n == a@.len(),
            n == b@.len(),
            i <= n,
            forall|k: int| 0 <= k < i ==> a@[k] == b@[k],
        decreases n - i,
    {
        if a[i] != b[i] {
            return false;
        }
        i = i + 1;
    }
    assert(a@ =~= b@);
    true
}

/// The Binding walk below `workspace_node` matches the page cache: pages in order
/// under the workspace, and each page's pods in order under the page.
pub open spec fn binding_parity_spec(g: Graph, workspace_node: NodeId, tree: PageTree) -> bool {
    &&& binding_children_spec(g, workspace_node) == page_nodes(tree)
    &&& forall|k: int| 0 <= k < tree.pages@.len() ==> binding_children_spec(g, #[trigger] tree.pages@[k].node_id)
        == pod_nodes(tree.pages@[k])
}

/// Check Binding parity between the graph and the page cache.
pub fn binding_parity(graph: &Graph, workspace_node: NodeId, tree: &PageTree) -> (ok: bool)
    requires
        graph.wf(),
    ensures
        ok == binding_parity_spec(*graph, workspace_node, *tree),
{
    let bound = binding_children(graph, workspace_node);
    let n = tree.pages.len();
    let mut expected: Vec<NodeId> = Vec::new();
    let mut i: usize = 0;
    while i < n
        invariant
            n == tree.pages@.len(),
            i <= n,
            expected@ == page_nodes(*tree).take(i as int),
        decreases n - i,
    {
        expected.push(tree.pages[i].node_id);
        assert(page_nodes(*tree).take(i + 1) =~= page_nodes(*tree).take(i as int).push(tree.pages@[i as int].node_id));
        i = i + 1;
    }
    assert(page_nodes(*tree).take(n as int) =~= page_nodes(*tree));
    if !ids_equal(&bound, &expected) {
        return false;
    }
    let mut p: usize = 0;
    while p < n
        invariant
            graph.wf(),
            n == tree.pages@.len(),
            p <= n,
            forall|k: int| 0 <= k < p ==> binding_children_spec(*graph, #[trigger] tree.pages@[k].node_id) == pod_nodes(
                tree.pages@[k],
            ),
        decreases n - p,
    {
        let page = &tree.pages[p];
        let kids = binding_children(graph, page.node_id);
        let m = page.pods.len();
        let mut pods: Vec<NodeId> = Vec::new();
        let mut q: usize = 0;
        while q < m
            invariant
                m == page.pods@.len(),
                q <= m,
                pods@ == pod_nodes(*page).take(q as int),
            decreases m - q,
        {
            pods.push(page.pods[q].node_id);
            assert(pod_nodes(*page).take(q + 1) =~= pod_nodes(*page).take(q as int).push(page.pods@[q as int].node_id));
            q = q + 1;
        }
        assert(pod_nodes(*page).take(m as int) =~= pod_nodes(*page));
        if !ids_equal(&kids, &pods) {
            return false;
        }
        p = p + 1;
    }
    true
}

/// Binding parity as an assertion: callers must establish it, and the walk is
/// still taken to confirm it.
pub fn assert_binding_parity(graph: &Graph, workspace_node: NodeId, tree: &PageTree)
    requires
        graph.wf(),
        binding_parity_spec(*graph, workspace_node, *tree),
{
    let ok = binding_parity(graph, workspace_node, tree);
    assert(ok);
}

/// Pages plus pods of the page cache.
pub fn count_page_tree_containers(tree: &PageTree) -> (count: usize)
    requires
        container_count(tree.pages@) <= usize::MAX,
    ensures
        count == container_count(tree.pages@),
{
    let n = tree.pages.len();
    let mut i: usize = 0;
    let mut count: usize = 0;
    while i < n
        invariant
            n == tree.pages@.len(),
            i <= n,
            container_count(tree.pages@) <= usize::MAX,
            count == container_count(tree.pages@.take(i as int)),
        decreases n - i,
    {
        proof {
            crate::pagetree::lemma_container_count_skip(tree.pages@, i as int);
            crate::pagetree::lemma_container_count_mono(tree.pages@, i + 1);
        }
        count = count + 1 + tree.pages[i].pods.len();
        i = i + 1;
    }
    assert(tree.pages@.take(n as int) =~= tree.pages@);
    count
}

/// The label prefix that marks a particle slot.
pub open spec fn slot_prefix() -> Seq<char> {
    "particle:"@
}

/// The node `id`, when it is stored and is a `UIView`.
pub open spec fn is_uiview(g: Graph, id: NodeId) -> bool {
    g.has_node(id) && g.nodes@[g.node_index(id)].space_class == SpaceClass::UIView
}

/// The label of the node `id` (meaningful when it is stored).
pub open spec fn label_of(g: Graph, id: NodeId) -> Seq<char> {
    g.nodes@[g.node_index(id)].label@
}

/// A particle slot: a `UIView` whose label starts with `particle:`.
pub open spec fn is_slot(g: Graph, id: NodeId) -> bool {
    is_uiview(g, id) && slot_prefix().is_prefix_of(label_of(g, id))
}

/// A component: a `UIView` that is not a particle slot.
pub open spec fn is_component(g: Graph, id: NodeId) -> bool {
    is_uiview(g, id) && !slot_prefix().is_prefix_of(label_of(g, id))
}

/// Labels of the components among `ids`, in order.
pub open spec fn component_labels_of(g: Graph, ids: Seq<NodeId>) -> Seq<Seq<char>>
    decreases ids.len(),
{
    if ids.len() == 0 {
        Seq::empty()
    } else {
        component_labels_of(g, ids.drop_last()) + if is_component(g, ids.last()) {
            seq![label_of(g, ids.last())]
        } else {
            Seq::empty()
        }
    }
}

/// The first particle slot among `ids`.
pub open spec fn first_slot(g: Graph, ids: Seq<NodeId>) -> Option<NodeId>
    decreases ids.len(),
{
    if ids.len() == 0 {
        None
    } else if is_slot(g, ids[0]) {
        Some(ids[0])
    } else {
        first_slot(g, ids.drop_first())
    }
}

/// Classify the node `id`: stored `UIView`, and whether its label marks a particle slot.
pub(crate) fn classify(graph: &Graph, id: NodeId) -> (r: (bool, bool))
    requires
        graph.wf(),
    ensures
        r.0 == is_uiview(*graph, id),
        r.0 ==> r.1 == slot_prefix().is_prefix_of(label_of(*graph, id)),
{
    match graph.find_node(id) {
        None => (false, false),
        Some(i) => {
            let node = &graph.nodes[i];
            if node.space_class == SpaceClass::UIView {
                let slot = has_prefix(node.label.as_str(), "particle:");
                (true, slot)
            } else {
                (false, false)
            }
        },
    }
}

/// Labels of component `UIView`s bound under `pod`, in Binding order; particle slots
/// (labels starting with `particle:`) are skipped.
pub fn component_labels(graph: &Graph, pod: NodeId) -> (labels: Vec<String>)
    requires
        graph.wf(),
    ensures
        views(labels@) == component_labels_of(*graph, binding_children_spec(*graph, pod)),
{
    let kids = binding_children(graph, pod);
    let mut labels: Vec<String> = Vec::new();
    let n = kids.len();
    let mut i: usize = 0;
    while i < n
        invariant
            graph.wf(),
            n == kids@.len(),
            i <= n,
            views(labels@) == component_labels_of(*graph, kids@.take(i as int)),
        decreases n - i,
    {
        let id = kids[i];
        assert(kids@.take(i + 1).drop_last() =~= kids@.take(i as int));
        assert(kids@.take(i + 1).last() == id);
        let (ui, slot) = classify(graph, id);
        let ghost before = views(labels@);
        if ui && !slot {
            let j = graph.find_node(id).unwrap();
            let l = graph.nodes[j].label.clone();
            labels.push(l);
            assert(views(labels@) =~= before + seq![label_of(*graph, id)]);
        } else {
            assert(views(labels@) =~= before + Seq::<Seq<char>>::empty());
        }
        i = i + 1;
    }
    assert(kids@.take(n as int) =~= kids@);
    labels
}

/// The particle-slot `UIView` bound under `component`, if any (the first in Binding order).
pub fn particle_slot(graph: &Graph, component: NodeId) -> (slot: Option<NodeId>)
    requires
        graph.wf(),
    ensures
        slot == first_slot(*graph, binding_children_spec(*graph, component)),
{
    let kids = binding_children(graph, component);
    let n = kids.len();
    let mut i: usize = 0;
    assert(kids@.skip(0) =~= kids@);
    while i < n
        invariant
            graph.wf(),
            n == kids@.len(),
            i <= n,
            kids@ == binding_children_spec(*graph, component),
            first_slot(*graph, kids@) == first_slot(*graph, kids@.skip(i as int)),
        decreases n - i,
    {
        let id = kids[i];
        assert(kids@.skip(i as int)[0] == id);
        assert(kids@.skip(i as int).drop_first() =~= kids@.skip(i + 1));
        let (ui, slot) = classify(graph, id);
        if ui && slot {
            assert(is_slot(*graph, id));
            assert(first_slot(*graph, kids@.skip(i as int)) == Some(id));
            return Some(id);
        }
        i = i + 1;
    }
    assert(kids@.skip(n as int) =~= Seq::<NodeId>::empty());
    None
}

/// How many of `ids` have a particle slot under them.
pub open spec fn slotted_count(g: Graph, ids: Seq<NodeId>) -> nat
    decreases ids.len(),
{
    if ids.len() == 0 {
        0
    } else {
        slotted_count(g, ids.drop_last()) + if first_slot(g, binding_children_spec(g, ids.last())) is Some {
            1nat
        } else {
            0nat
        }
    }
}

/// Components with a particle slot, over the pods of `pods`.
pub open spec fn pods_slot_total(g: Graph, pods: Seq<NodeId>) -> nat
    decreases pods.len(),
{
    if pods.len() == 0 {
        0
    } else {
        pods_slot_total(g, pods.drop_last()) + slotted_count(g, binding_children_spec(g, pods.last()))
    }
}

/// Components with a particle slot, over every pod of every page.
pub open spec fn tree_slot_total(g: Graph, pages: Seq<PageNode>) -> nat
    decreases pages.len(),
{
    if pages.len() == 0 {
        0
    } else {
        tree_slot_total(g, pages.drop_last()) + pods_slot_total(g, pod_nodes(pages.last()))
    }
}

pub proof fn lemma_slotted_count_le(g: Graph, ids: Seq<NodeId>)
    ensures
        slotted_count(g, ids) <= ids.len(),
    decreases ids.len(),
{
    if ids.len() > 0 {
        lemma_slotted_count_le(g, ids.drop_last());
    }
}

/// Number of components of `pod` that carry a particle slot.
fn slotted_under(graph: &Graph, pod: NodeId) -> (c: usize)
    requires
        graph.wf(),
    ensures
        c == slotted_count(*graph, binding_children_spec(*graph, pod)),
{
    let kids = binding_children(graph, pod);
    let n = kids.len();
    let mut i: usize = 0;
    let mut c: usize = 0;
    while i < n
        invariant
            graph.wf(),
            n == kids@.len(),
            i <= n,
            c == slotted_count(*graph, kids@.take(i as int)),
        decreases n - i,
    {
        assert(kids@.take(i + 1).drop_last() =~= kids@.take(i as int));
        proof {
            lemma_slotted_count_le(*graph, kids@.take(i as int));
        }
        if particle_slot(graph, kids[i]).is_some() {
            c = c + 1;
        }
        i = i + 1;
    }
    assert(kids@.take(n as int) =~= kids@);
    c
}

/// Count particle-slot nodes under every component of every pod of the page cache.
pub fn count_particle_slots(graph: &Graph, tree: &PageTree) -> (count: usize)
    requires
        graph.wf(),
        tree_slot_total(*graph, tree.pages@) <= usize::MAX,
    ensures
        count == tree_slot_total(*graph, tree.pages@),
{
    let n = tree.pages.len();
    let mut i: usize = 0;
    let mut count: usize = 0;
    while i < n
        invariant
            graph.wf(),
            n == tree.pages@.len(),
            i <= n,
            tree_slot_total(*graph, tree.pages@) <= usize::MAX,
            count == tree_slot_total(*graph, tree.pages@.take(i as int)),
        decreases n - i,
    {
        let page = &tree.pages[i];
        assert(tree.pages@.take(i + 1).drop_last() =~= tree.pages@.take(i as int));
        proof {
            lemma_tree_slot_total_mono(*graph, tree.pages@, i + 1);
        }
        let m = page.pods.len();
        let mut q: usize = 0;
        let mut sub: usize = 0;
        while q < m
            invariant
                graph.wf(),
                m == page.pods@.len(),
                q <= m,
                count + pods_slot_total(*graph, pod_nodes(*page)) <= usize::MAX,
                sub == pods_slot_total(*graph, pod_nodes(*page).take(q as int)),
            decreases m - q,
        {
            assert(pod_nodes(*page).take(q + 1).drop_last() =~= pod_nodes(*page).take(q as int));
            assert(pod_nodes(*page).take(q + 1).last() == page.pods@[q as int].node_id);
            proof {
                lemma_pods_slot_total_mono(*graph, pod_nodes(*page), q + 1);
            }
            sub = sub + slotted_under(graph, page.pods[q].node_id);
            q = q + 1;
        }
        assert(pod_nodes(*page).take(m as int) =~= pod_nodes(*page));
        count = count + sub;
        i = i + 1;
    }
    assert(tree.pages@.take(n as int) =~= tree.pages@);
    count
}

pub proof fn lemma_pods_slot_total_mono(g: Graph, pods: Seq<NodeId>, k: int)
    requires
        0 <= k <= pods.len(),
    ensures
        pods_slot_total(g, pods.take(k)) <= pods_slot_total(g, pods),
    decreases pods.len() - k,
{
    if k < pods.len() {
        assert(pods.take(k + 1).drop_last() =~= pods.take(k));
        lemma_pods_slot_total_mono(g, pods, k + 1);
    } else {
        assert(pods.take(k) =~= pods);
    }
}

pub proof fn lemma_tree_slot_total_mono(g: Graph, pages: Seq<PageNode>, k: int)
    requires
        0 <= k <= pages.len(),
    ensures
        tree_slot_total(g, pages.take(k)) <= tree_slot_total(g, pages),
    decreases pages.len() - k,
{
    if k < pages.len() {
        assert(pages.take(k + 1).drop_last() =~= pages.take(k));
        lemma_tree_slot_total_mono(g, pages, k + 1);
    } else {
        assert(pages.take(k) =~= pages);
    }
}

/// Ids of the domain entity nodes (walls and the like), in storage order.
pub open spec fn entity_ids(nodes: Seq<Node>) -> Seq<NodeId>
    decreases nodes.len(),
{
    if nodes.len() == 0 {
        Seq::empty()
    } else {
        entity_ids(nodes.drop_last()) + if nodes.last().space_class == SpaceClass::Entity {
            seq![nodes.last().id]
        } else {
            Seq::empty()
        }
    }
}

/// Entity (domain) nodes only; `UIView` containers are left out.
pub fn entity_nodes(graph: &Graph) -> (ids: Vec<NodeId>)
    ensures
        ids@ == entity_ids(graph.nodes@),
{
    let n = graph.nodes.len();
    let mut ids: Vec<NodeId> = Vec::new();
    let mut i: usize = 0;
    while i < n
        invariant
            n == graph.nodes@.len(),
            i <= n,
            ids@ == entity_ids(graph.nodes@.take(i as int)),
        decreases n - i,
    {
        assert(graph.nodes@.take(i + 1).drop_last() =~= graph.nodes@.take(i as int));
        if graph.nodes[i].space_class == SpaceClass::Entity {
            ids.push(graph.nodes[i].id);
        }
        assert(ids@ =~= entity_ids(graph.nodes@.take(i + 1)));
        i = i + 1;
    }
    assert(graph.nodes@.take(n as int) =~= graph.nodes@);
    ids
}

/// Number of entity nodes.
pub fn entity_count(graph: &Graph) -> (n: usize)
    ensures
        n == entity_ids(graph.nodes@).len(),
{
    entity_nodes(graph).len()
}

/// The first entity node in storage (ascending id) order.
pub fn first_entity_id(graph: &Graph) -> (id: Option<NodeId>)
    ensures
        id == (if entity_ids(graph.nodes@).len() > 0 {
            Some(entity_ids(graph.nodes@)[0])
        } else {
            None
        }),
{
    let ids = entity_nodes(graph);
    if ids.len() > 0 {
        Some(ids[0])
    } else {
        None
    }
}

/// Whether `id` is a stored entity node.
pub fn is_entity(graph: &Graph, id: NodeId) -> (r: bool)
    requires
        graph.wf(),
    ensures
        r == (graph.has_node(id) && graph.nodes@[graph.node_index(id)].space_class == SpaceClass::Entity),
{
    match graph.find_node(id) {
        Some(i) => graph.nodes[i].space_class == SpaceClass::Entity,
        None => false,
    }
}

} // verus!
