//! Writing a pod's components into the composed graph: one `UIView` per label,
//! bound under the pod in label order, each with a particle slot beneath it that
//! emits `text`.

use crate::components::{binding_parity, binding_parity_spec, classify, component_labels_of, is_component, is_uiview, label_of, slot_prefix};
use crate::containers::{
    binding_children, binding_children_spec, binding_keys, clears_component, edge_keys, ids_contain, insert_binding,
    insert_uiview, is_fresh_binding, kept_by, lemma_binding_keys_concat, lemma_sorted_keys_fixed,
    remove_matching_edges, EdgeRule,
};
use crate::graph::{Graph, HyperEdge, Node, NodeId, PropMap, PropValueView, SpaceClass};
use crate::order::key_order;
use crate::pagetree::{PageNode, PageTree};
use crate::valence::encode_valence;
use vstd::prelude::*;
use vstd::relations::*;

verus! {

/// Some edge of `edges` has `id` among its targets.
pub open spec fn targeted(edges: Seq<HyperEdge>, id: NodeId) -> bool {
    exists|i: int| 0 <= i < edges.len() && (#[trigger] edges[i]).targets@.contains(id)
}

/// Nodes that survive dropping the unbound ones of `ids`.
pub open spec fn node_kept(edges: Seq<HyperEdge>, ids: Seq<NodeId>) -> spec_fn(Node) -> bool {
    |n: Node| !(ids.contains(n.id) && !targeted(edges, n.id))
}

fn is_targeted(edges: &Vec<HyperEdge>, id: NodeId) -> (r: bool)
    ensures
        r == targeted(edges@, id),
{
    let n = edges.len();
    let mut i: usize = 0;
    while i < n
        invariant
            n == edges@.len(),
            i <= n,
            forall|k: int| 0 <= k < i ==> !(#[trigger] edges@[k]).targets@.contains(id),
        decreases n - i,
    {
        if ids_contain(&edges[i].targets, id) {
            return true;
        }
        i = i + 1;
    }
    false
}

/// Drop every node of `ids` that no edge targets any more, keeping the rest in order.
pub fn remove_unbound_nodes(graph: &mut Graph, ids: &Vec<NodeId>)
    requires
        old(graph).wf(),
    ensures
        final(graph).wf(),
        final(graph).nodes@ == old(graph).nodes@.filter(node_kept(old(graph).edges@, ids@)),
        final(graph).edges@ == old(graph).edges@,
        final(graph).next_node_id == old(graph).next_node_id,
        final(graph).next_edge_id == old(graph).next_edge_id,
{
    let ghost orig = graph.nodes@;
    let ghost keep = node_kept(graph.edges@, ids@);
    let mut rest: Vec<Node> = Vec::new();
    std::mem::swap(&mut graph.nodes, &mut rest);
    let n = rest.len();
    let mut k: usize = 0;
    assert(orig.skip(0) =~= orig);
    assert(orig.take(0).filter(keep) =~= Seq::<Node>::empty()) by {
        reveal(Seq::filter);
    }
    while k < n
        invariant
            n == orig.len(),
            k <= n,
            rest@ == orig.skip(k as int),
            graph.nodes@ == orig.take(k as int).filter(keep),
            keep == node_kept(graph.edges@, ids@),
            graph.edges@ == old(graph).edges@,
            graph.next_node_id == old(graph).next_node_id,
            graph.next_edge_id == old(graph).next_edge_id,
            orig == old(graph).nodes@,
            old(graph).wf(),
            forall|a: int, b: int|
                0 <= a < b < graph.nodes@.len() ==> #[trigger] graph.nodes@[a].id.0 < #[trigger] graph.nodes@[b].id.0,
            forall|a: int, b: int|
                0 <= a < graph.nodes@.len() && k <= b < n ==> #[trigger] graph.nodes@[a].id.0 < #[trigger] orig[b].id.0,
            forall|a: int| 0 <= a < graph.nodes@.len() ==> #[trigger] graph.nodes@[a].id.0 < graph.next_node_id,
            forall|a: int| 0 <= a < graph.nodes@.len() ==> #[trigger] graph.nodes@[a].props.wf(),
        decreases n - k,
    {
        let node = rest.remove(0);
        assert(node == orig[k as int]);
        assert(orig.take(k + 1) =~= orig.take(k as int).push(node));
        proof {
            orig.take(k as int).lemma_filter_push(node, keep);
        }
        let ghost before = graph.nodes@;
        let drop = ids_contain(ids, node.id) && !is_targeted(&graph.edges, node.id);
        if !drop {
            graph.nodes.push(node);
            assert forall|a: int, b: int|
                0 <= a < graph.nodes@.len() && k + 1 <= b < n implies #[trigger] graph.nodes@[a].id.0 < #[trigger] orig[b].id.0 by {
                if a < before.len() {
                    assert(before[a].id.0 < orig[b].id.0);
                } else {
                    assert(orig[k as int].id.0 < orig[b].id.0);
                }
            }
            assert forall|a: int, b: int|
                0 <= a < b < graph.nodes@.len() implies #[trigger] graph.nodes@[a].id.0 < #[trigger] graph.nodes@[b].id.0 by {
                if b == before.len() {
                    assert(before[a].id.0 < orig[k as int].id.0);
                } else {
                    assert(before[a].id.0 < before[b].id.0);
                }
            }
            assert forall|a: int| 0 <= a < graph.nodes@.len() implies #[trigger] graph.nodes@[a].id.0 < graph.next_node_id by {
                if a == before.len() {
                    assert(orig[k as int].id.0 < graph.next_node_id);
                } else {
                    assert(before[a].id.0 < graph.next_node_id);
                }
            }
            assert forall|a: int| 0 <= a < graph.nodes@.len() implies #[trigger] graph.nodes@[a].props.wf() by {
                if a == before.len() {
                    assert(orig[k as int].props.wf());
                } else {
                    assert(before[a].props.wf());
                }
            }
        }
        assert(rest@ =~= orig.skip(k + 1));
        k = k + 1;
    }
    assert(orig.take(n as int) =~= orig);
}

/// The `UIView` children of `pod`: its current components.
pub open spec fn component_targets(g: Graph, pod: NodeId) -> Seq<NodeId> {
    binding_children_spec(g, pod).filter(|id: NodeId| is_uiview(g, id))
}

/// The Binding children of each of `cs`, in order.
pub open spec fn grandchildren(g: Graph, cs: Seq<NodeId>) -> Seq<NodeId>
    decreases cs.len(),
{
    if cs.len() == 0 {
        Seq::empty()
    } else {
        grandchildren(g, cs.drop_last()) + binding_children_spec(g, cs.last())
    }
}

/// The components of `pod` and everything bound under them.
pub open spec fn dropped_ids(g: Graph, pod: NodeId) -> Seq<NodeId> {
    component_targets(g, pod) + grandchildren(g, component_targets(g, pod))
}

/// The edges that survive clearing `pod`'s components.
pub open spec fn cleared_edges(g: Graph, pod: NodeId) -> Seq<HyperEdge> {
    g.edges@.filter(|e: HyperEdge| !clears_component(e, pod, component_targets(g, pod), dropped_ids(g, pod)))
}

/// The nodes that survive clearing `pod`'s components: dropped ones go unless an
/// edge still targets them.
pub open spec fn cleared_nodes(g: Graph, pod: NodeId) -> Seq<Node> {
    g.nodes@.filter(node_kept(cleared_edges(g, pod), dropped_ids(g, pod)))
}

/// Label of the particle slot under a component labelled `label`.
pub open spec fn slot_label(label: Seq<char>) -> Seq<char> {
    "particle:"@ + label
}

fn uiview_ids(graph: &Graph, ids: &Vec<NodeId>) -> (r: Vec<NodeId>)
    requires
        graph.wf(),
    ensures
        r@ == ids@.filter(|id: NodeId| is_uiview(*graph, id)),
{
    let ghost p = |id: NodeId| is_uiview(*graph, id);
    let mut r: Vec<NodeId> = Vec::new();
    let n = ids.len();
    let mut i: usize = 0;
    assert(ids@.take(0).filter(p) =~= Seq::<NodeId>::empty()) by {
        reveal(Seq::filter);
    }
    while i < n
        invariant
            graph.wf(),
            n == ids@.len(),
            i <= n,
            p == |id: NodeId| is_uiview(*graph, id),
            r@ == ids@.take(i as int).filter(p),
        decreases n - i,
    {
        let id = ids[i];
        assert(ids@.take(i + 1) =~= ids@.take(i as int).push(id));
        proof {
            ids@.take(i as int).lemma_filter_push(id, p);
        }
        let (ui, _) = classify(graph, id);
        if ui {
            r.push(id);
        }
        i = i + 1;
    }
    assert(ids@.take(n as int) =~= ids@);
    r
}

fn dropped_list(graph: &Graph, comps: &Vec<NodeId>) -> (r: Vec<NodeId>)
    requires
        graph.wf(),
    ensures
        r@ == comps@ + grandchildren(*graph, comps@),
{
    let mut r: Vec<NodeId> = Vec::new();
    let n = comps.len();
    let mut i: usize = 0;
    while i < n
        invariant
            n == comps@.len(),
            i <= n,
            r@ == comps@.take(i as int),
        decreases n - i,
    {
        r.push(comps[i]);
        assert(comps@.take(i + 1) =~= comps@.take(i as int).push(comps@[i as int]));
        i = i + 1;
    }
    assert(comps@.take(n as int) =~= comps@);
    let mut j: usize = 0;
    assert(grandchildren(*graph, comps@.take(0)) =~= Seq::<NodeId>::empty());
    while j < n
        invariant
            graph.wf(),
            n == comps@.len(),
            j <= n,
            r@ == comps@ + grandchildren(*graph, comps@.take(j as int)),
        decreases n - j,
    {
        let kids = binding_children(graph, comps[j]);
        let ghost before = r@;
        let m = kids.len();
        let mut k: usize = 0;
        while k < m
            invariant
                m == kids@.len(),
                k <= m,
                r@ == before + kids@.take(k as int),
            decreases m - k,
        {
            r.push(kids[k]);
            assert(kids@.take(k + 1) =~= kids@.take(k as int).push(kids@[k as int]));
            assert(r@ =~= before + kids@.take(k + 1));
            k = k + 1;
        }
        assert(kids@.take(m as int) =~= kids@);
        assert(comps@.take(j + 1).drop_last() =~= comps@.take(j as int));
        assert(comps@.take(j + 1).last() == comps@[j as int]);
        assert(r@ =~= comps@ + grandchildren(*graph, comps@.take(j + 1)));
        j = j + 1;
    }
    assert(comps@.take(n as int) =~= comps@);
    r
}

/// The two nodes and two edges written for the `k`-th label sit at their places:
/// the component `UIView` and its particle slot (which emits `text`), the Binding
/// `pod → component` at order `k` and the Binding `component → slot` at order 0.
pub open spec fn label_written(
    g: Graph,
    node_base: int,
    edge_base: int,
    first_id: u64,
    pod: NodeId,
    label: Seq<char>,
    k: int,
) -> bool {
    let c = g.nodes@[node_base + 2 * k];
    let s = g.nodes@[node_base + 2 * k + 1];
    &&& c.id.0 == first_id + 2 * k
    &&& c.space_class == SpaceClass::UIView
    &&& c.label@ == label
    &&& c.props.entries@.len() == 0
    &&& s.id.0 == first_id + 2 * k + 1
    &&& s.space_class == SpaceClass::UIView
    &&& s.label@ == slot_label(label)
    &&& forall|key: Seq<char>| #[trigger] s.props.get_spec(key) == if key == "valence_emit"@ {
        Some(PropValueView::Text("text"@))
    } else {
        None
    }
    &&& is_fresh_binding(g.edges@[edge_base + 2 * k], pod, c.id, k as i64)
    &&& is_fresh_binding(g.edges@[edge_base + 2 * k + 1], c.id, s.id, 0)
}

/// `after` is `before` with `pod`'s components cleared (see [`cleared_edges`] and
/// [`cleared_nodes`]) and one component with a particle slot appended per label.
pub open spec fn components_written(before: Graph, after: Graph, pod: NodeId, labels: Seq<Seq<char>>) -> bool {
    let ce = cleared_edges(before, pod);
    let cn = cleared_nodes(before, pod);
    &&& after.wf()
    &&& after.next_node_id == before.next_node_id + 2 * labels.len()
    &&& after.next_edge_id == before.next_edge_id + 2 * labels.len()
    &&& after.nodes@.len() == cn.len() + 2 * labels.len()
    &&& after.nodes@.take(cn.len() as int) == cn
    &&& after.edges@.len() == ce.len() + 2 * labels.len()
    &&& after.edges@.take(ce.len() as int) == ce
    &&& forall|k: int|
        0 <= k < labels.len() ==> #[trigger] label_written(
            after,
            cn.len() as int,
            ce.len() as int,
            before.next_node_id,
            pod,
            labels[k],
            k,
        )
}

fn slot_props() -> (m: PropMap)
    ensures
        m.wf(),
        forall|key: Seq<char>| #[trigger] m.get_spec(key) == if key == "valence_emit"@ {
            Some(PropValueView::Text("text"@))
        } else {
            None
        },
{
    let mut m = PropMap::new();
    let mut toks: Vec<&str> = Vec::new();
    toks.push("text");
    proof {
        reveal_strlit("valence_emit");
        assert(toks@.map_values(|t: &str| t@) =~= seq!["text"@]);
        assert(crate::valence::join_tokens(seq!["text"@]) == "text"@);
    }
    match encode_valence(toks.as_slice()) {
        Some(v) => m.insert(String::from_str("valence_emit"), v),
        None => {},
    }
    m
}

/// Replace the pod's component children with one `UIView` per label, in order, each
/// with a particle slot `particle:{label}` beneath it that emits `text`. The earlier
/// components, and what hangs under them, lose their ordered Bindings (Bindings that
/// carry a `role` stay); those of them that nothing targets any more are removed.
pub fn write_pod_components(graph: &mut Graph, pod: NodeId, labels: &[&str])
    requires
        old(graph).wf(),
        old(graph).next_node_id + 2 * labels@.len() < u64::MAX,
        old(graph).next_edge_id + 2 * labels@.len() < u64::MAX,
        labels@.len() <= i64::MAX,
    ensures
        components_written(*old(graph), *final(graph), pod, labels@.map_values(|l: &str| l@)),
{
    let ghost g0 = *graph;
    let kids = binding_children(graph, pod);
    let components = uiview_ids(graph, &kids);
    let dropped = dropped_list(graph, &components);
    let ghost comps = components@;
    let ghost drops = dropped@;
    assert(comps == component_targets(g0, pod));
    assert(drops == dropped_ids(g0, pod));
    let rule = EdgeRule::PodComponents { pod, components, dropped };
    remove_matching_edges(graph, &rule);
    proof {
        let f = |e: HyperEdge| !clears_component(e, pod, component_targets(g0, pod), dropped_ids(g0, pod));
        assert(kept_by(rule) =~= f);
        assert(graph.edges@ == cleared_edges(g0, pod));
    }
    match &rule {
        EdgeRule::PodComponents { dropped, .. } => remove_unbound_nodes(graph, dropped),
        _ => {},
    }
    let ghost ce = graph.edges@;
    let ghost cn = graph.nodes@;
    let ghost ls = labels@.map_values(|l: &str| l@);
    assert(cn == cleared_nodes(g0, pod));
    let n = labels.len();
    let mut i: usize = 0;
    assert(graph.nodes@.take(cn.len() as int) =~= cn);
    assert(graph.edges@.take(ce.len() as int) =~= ce);
    while i < n
        invariant
            graph.wf(),
            n == labels@.len(),
            n <= i64::MAX,
            i <= n,
            ls == labels@.map_values(|l: &str| l@),
            g0.next_node_id + 2 * n < u64::MAX,
            g0.next_edge_id + 2 * n < u64::MAX,
            graph.next_node_id == g0.next_node_id + 2 * i,
            graph.next_edge_id == g0.next_edge_id + 2 * i,
            graph.nodes@.len() == cn.len() + 2 * i,
            graph.nodes@.take(cn.len() as int) == cn,
            graph.edges@.len() == ce.len() + 2 * i,
            graph.edges@.take(ce.len() as int) == ce,
            forall|k: int|
                0 <= k < i ==> #[trigger] label_written(*graph, cn.len() as int, ce.len() as int, g0.next_node_id, pod, ls[k], k),
        decreases n - i,
    {
        let ghost g_before = *graph;
        let label: &str = labels[i];
        let comp = insert_uiview(graph, String::from_str(label));
        insert_binding(graph, pod, comp, i as i64);
        let mut slot_text = String::from_str("particle:");
        slot_text.append(label);
        proof {
            reveal_strlit("particle:");
        }
        let slot = graph.insert_node(SpaceClass::UIView, slot_text, slot_props());
        insert_binding(graph, comp, slot, 0);
        proof {
            assert(graph.nodes@.len() == g_before.nodes@.len() + 2);
            assert(graph.edges@.len() == g_before.edges@.len() + 2);
            assert forall|j: int| 0 <= j < g_before.nodes@.len() implies graph.nodes@[j] == g_before.nodes@[j] by {
                assert(graph.nodes@.drop_last().drop_last()[j] == graph.nodes@[j]);
            }
            assert forall|j: int| 0 <= j < g_before.edges@.len() implies graph.edges@[j] == g_before.edges@[j] by {
                assert(graph.edges@.drop_last().drop_last()[j] == graph.edges@[j]);
            }
            assert(graph.nodes@.take(cn.len() as int) =~= cn);
            assert(graph.edges@.take(ce.len() as int) =~= ce);
            assert(ls[i as int] == label@);
            assert forall|k: int| 0 <= k < i + 1 implies #[trigger] label_written(
                *graph,
                cn.len() as int,
                ce.len() as int,
                g0.next_node_id,
                pod,
                ls[k],
                k,
            ) by {
                if k < i {
                    assert(label_written(g_before, cn.len() as int, ce.len() as int, g0.next_node_id, pod, ls[k], k));
                    assert(graph.nodes@[cn.len() + 2 * k] == g_before.nodes@[cn.len() + 2 * k]);
                    assert(graph.nodes@[cn.len() + 2 * k + 1] == g_before.nodes@[cn.len() + 2 * k + 1]);
                    assert(graph.edges@[ce.len() + 2 * k] == g_before.edges@[ce.len() + 2 * k]);
                    assert(graph.edges@[ce.len() + 2 * k + 1] == g_before.edges@[ce.len() + 2 * k + 1]);
                }
            }
        }
        i = i + 1;
    }
}

/// Ids of the components written for `n` labels from `first_id` on.
pub open spec fn written_components(first_id: u64, n: nat) -> Seq<NodeId> {
    Seq::new(n, |k: int| NodeId((first_id + 2 * k) as u64))
}

/// Keys the written Bindings contribute under `pod`: one per component, at its order.
proof fn lemma_written_keys(after: Graph, node_base: int, edge_base: int, first_id: u64, pod: NodeId, labels: Seq<Seq<char>>, m: int)
    requires
        0 <= m <= labels.len(),
        labels.len() <= i64::MAX,
        pod.0 < first_id,
        0 <= edge_base,
        edge_base + 2 * labels.len() == after.edges@.len(),
        first_id + 2 * labels.len() <= u64::MAX,
        forall|k: int| 0 <= k < labels.len() ==> #[trigger] label_written(after, node_base, edge_base, first_id, pod, labels[k], k),
    ensures
        binding_keys(after.edges@.skip(edge_base).take(2 * m), pod) == Seq::new(m as nat, |k: int| (k as i64, (first_id + 2 * k) as u64)),
    decreases m,
{
    let fresh = after.edges@.skip(edge_base);
    if m == 0 {
        assert(fresh.take(0) =~= Seq::<HyperEdge>::empty());
        assert(Seq::new(0nat, |k: int| (k as i64, (first_id + 2 * k) as u64)) =~= Seq::<(i64, u64)>::empty());
    } else {
        lemma_written_keys(after, node_base, edge_base, first_id, pod, labels, m - 1);
        assert(label_written(after, node_base, edge_base, first_id, pod, labels[m - 1], m - 1));
        let even = fresh[2 * (m - 1)];
        let odd = fresh[2 * (m - 1) + 1];
        assert(even == after.edges@[edge_base + 2 * (m - 1)]);
        assert(odd == after.edges@[edge_base + 2 * (m - 1) + 1]);
        let t2 = fresh.take(2 * m);
        assert(t2.drop_last() =~= fresh.take(2 * m - 1));
        assert(t2.last() == odd);
        assert(fresh.take(2 * m - 1).drop_last() =~= fresh.take(2 * (m - 1)));
        assert(fresh.take(2 * m - 1).last() == even);
        let c = after.nodes@[node_base + 2 * (m - 1)];
        crate::containers::lemma_fresh_binding_keys(even, pod, c.id, (m - 1) as i64);
        assert(odd.sources@ == seq![c.id]);
        assert(!odd.sources@.contains(pod)) by {
            if odd.sources@.contains(pod) {
                assert(odd.sources@[0] == pod);
            }
        }
        assert(edge_keys(odd, pod) =~= Seq::<(i64, u64)>::empty());
        assert(binding_keys(t2, pod) == binding_keys(fresh.take(2 * m - 1), pod) + edge_keys(odd, pod));
        assert(binding_keys(fresh.take(2 * m - 1), pod) == binding_keys(fresh.take(2 * (m - 1)), pod) + edge_keys(even, pod));
        assert(c.id.0 == first_id + 2 * (m - 1));
        assert(binding_keys(t2, pod) =~= Seq::new(m as nat, |k: int| (k as i64, (first_id + 2 * k) as u64)));
    }
}

/// After writing components under a pod that has no other Binding children left,
/// the pod's children are exactly the new components, in label order, and their
/// labels are the labels written (when none of them looks like a particle slot).
pub proof fn lemma_written_components(before: Graph, after: Graph, pod: NodeId, labels: Seq<Seq<char>>)
    requires
        components_written(before, after, pod, labels),
        binding_keys(cleared_edges(before, pod), pod).len() == 0,
        pod.0 < before.next_node_id,
        labels.len() <= i64::MAX,
        forall|k: int| 0 <= k < labels.len() ==> !slot_prefix().is_prefix_of(#[trigger] labels[k]),
    ensures
        binding_children_spec(after, pod) == written_components(before.next_node_id, labels.len()),
        component_labels_of(after, binding_children_spec(after, pod)) == labels,
{
    let ce = cleared_edges(before, pod);
    let cn = cleared_nodes(before, pod);
    let n0 = before.next_node_id;
    let l = labels.len();
    let fresh = after.edges@.skip(ce.len() as int);
    assert(after.edges@ =~= ce + fresh);
    lemma_binding_keys_concat(ce, fresh, pod);
    lemma_written_keys(after, cn.len() as int, ce.len() as int, n0, pod, labels, l as int);
    assert(fresh.take(2 * l as int) =~= fresh);
    let keys = Seq::new(l, |k: int| (k as i64, (n0 + 2 * k) as u64));
    assert(binding_keys(after.edges@, pod) =~= keys);
    assert(sorted_by(keys, key_order()));
    lemma_sorted_keys_fixed(keys);
    let kids = binding_children_spec(after, pod);
    assert(kids =~= written_components(n0, l));
    lemma_component_labels_prefix(after, cn.len() as int, ce.len() as int, n0, pod, labels, l as int);
    assert(kids.take(l as int) =~= kids);
    assert(labels.take(l as int) =~= labels);
}

proof fn lemma_component_labels_prefix(after: Graph, node_base: int, edge_base: int, first_id: u64, pod: NodeId, labels: Seq<Seq<char>>, m: int)
    requires
        after.wf(),
        0 <= m <= labels.len(),
        0 <= node_base,
        node_base + 2 * labels.len() == after.nodes@.len(),
        first_id + 2 * labels.len() <= u64::MAX,
        forall|k: int| 0 <= k < labels.len() ==> #[trigger] label_written(after, node_base, edge_base, first_id, pod, labels[k], k),
        forall|k: int| 0 <= k < labels.len() ==> !slot_prefix().is_prefix_of(#[trigger] labels[k]),
    ensures
        component_labels_of(after, written_components(first_id, labels.len()).take(m)) == labels.take(m),
    decreases m,
{
    let comps = written_components(first_id, labels.len());
    if m == 0 {
        assert(comps.take(0) =~= Seq::<NodeId>::empty());
        assert(labels.take(0) =~= Seq::<Seq<char>>::empty());
    } else {
        lemma_component_labels_prefix(after, node_base, edge_base, first_id, pod, labels, m - 1);
        assert(comps.take(m).drop_last() =~= comps.take(m - 1));
        let id = comps[m - 1];
        assert(comps.take(m).last() == id);
        assert(label_written(after, node_base, edge_base, first_id, pod, labels[m - 1], m - 1));
        let idx = node_base + 2 * (m - 1);
        assert(after.nodes@[idx].id == id);
        after.lemma_node_index(idx);
        assert(is_uiview(after, id));
        assert(label_of(after, id) == labels[m - 1]);
        assert(is_component(after, id));
        assert(labels.take(m) =~= labels.take(m - 1).push(labels[m - 1]));
    }
}

/// The labels of one seeded pod.
pub open spec fn seed_labels(seed_pod: Vec<&str>) -> Seq<Seq<char>> {
    seed_pod@.map_values(|l: &str| l@)
}

/// Pods of `page` paired with the seeded pods, as far as both go.
pub open spec fn page_pairs(page: PageNode, seed: Vec<Vec<&str>>) -> Seq<(NodeId, Seq<Seq<char>>)> {
    let n = if page.pods@.len() <= seed@.len() {
        page.pods@.len()
    } else {
        seed@.len()
    };
    Seq::new(n, |q: int| (page.pods@[q].node_id, seed_labels(seed@[q])))
}

/// Every pod of the page cache paired with its seeded labels, page by page, as far
/// as both the pages and the seeds go.
pub open spec fn seeded_pairs(pages: Seq<PageNode>, seeds: Seq<Vec<Vec<&str>>>) -> Seq<(NodeId, Seq<Seq<char>>)>
    decreases pages.len(),
{
    let n = if pages.len() <= seeds.len() {
        pages.len()
    } else {
        seeds.len()
    };
    if n == 0 {
        Seq::empty()
    } else {
        seeded_pairs(pages.take(n - 1), seeds.take(n - 1)) + page_pairs(pages[n - 1], seeds[n - 1])
    }
}

/// Total number of labels over `pairs`.
pub open spec fn total_labels(pairs: Seq<(NodeId, Seq<Seq<char>>)>) -> nat
    decreases pairs.len(),
{
    if pairs.len() == 0 {
        0
    } else {
        total_labels(pairs.drop_last()) + pairs.last().1.len()
    }
}

proof fn lemma_total_labels_take(pairs: Seq<(NodeId, Seq<Seq<char>>)>, a: int)
    requires
        0 <= a <= pairs.len(),
    ensures
        total_labels(pairs.take(a)) <= total_labels(pairs),
    decreases pairs.len() - a,
{
    if a < pairs.len() {
        lemma_total_labels_take(pairs, a + 1);
        assert(pairs.take(a + 1).drop_last() =~= pairs.take(a));
    } else {
        assert(pairs.take(a) =~= pairs);
    }
}

proof fn lemma_total_labels_concat(a: Seq<(NodeId, Seq<Seq<char>>)>, b: Seq<(NodeId, Seq<Seq<char>>)>)
    ensures
        total_labels(a + b) == total_labels(a) + total_labels(b),
    decreases b.len(),
{
    if b.len() == 0 {
        assert(a + b =~= a);
    } else {
        assert((a + b).drop_last() =~= a + b.drop_last());
        lemma_total_labels_concat(a, b.drop_last());
    }
}

proof fn lemma_seeded_pairs_prefix(pages: Seq<PageNode>, seeds: Seq<Vec<Vec<&str>>>, a: int, b: int)
    requires
        0 <= a <= b,
        b <= pages.len(),
        b <= seeds.len(),
    ensures
        seeded_pairs(pages.take(a), seeds.take(a)).len() <= seeded_pairs(pages.take(b), seeds.take(b)).len(),
        seeded_pairs(pages.take(b), seeds.take(b)).take(seeded_pairs(pages.take(a), seeds.take(a)).len() as int)
            == seeded_pairs(pages.take(a), seeds.take(a)),
    decreases b - a,
{
    let da = seeded_pairs(pages.take(a), seeds.take(a));
    if a == b {
        assert(da.take(da.len() as int) =~= da);
    } else {
        lemma_seeded_pairs_prefix(pages, seeds, a, b - 1);
        lemma_seeded_pairs_step(pages, seeds, b - 1);
        let cur = seeded_pairs(pages.take(b - 1), seeds.take(b - 1));
        assert((cur + page_pairs(pages[b - 1], seeds[b - 1])).take(da.len() as int) =~= cur.take(da.len() as int));
    }
}

/// Successive graphs `gs` write the pairs one after the other.
pub open spec fn writes_chain(gs: Seq<Graph>, pairs: Seq<(NodeId, Seq<Seq<char>>)>) -> bool {
    &&& gs.len() == pairs.len() + 1
    &&& forall|t: int| 0 <= t < pairs.len() ==> #[trigger] components_written(gs[t], gs[t + 1], pairs[t].0, pairs[t].1)
}

proof fn lemma_seeded_pairs_step(pages: Seq<PageNode>, seeds: Seq<Vec<Vec<&str>>>, i: int)
    requires
        0 <= i < pages.len(),
        i < seeds.len(),
    ensures
        seeded_pairs(pages.take(i + 1), seeds.take(i + 1)) == seeded_pairs(pages.take(i), seeds.take(i)) + page_pairs(
            pages[i],
            seeds[i],
        ),
{
    assert(pages.take(i + 1).take(i) =~= pages.take(i));
    assert(seeds.take(i + 1).take(i) =~= seeds.take(i));
}

proof fn lemma_seeded_pairs_full(pages: Seq<PageNode>, seeds: Seq<Vec<Vec<&str>>>)
    ensures
        seeded_pairs(pages, seeds) == seeded_pairs(
            pages.take(if pages.len() <= seeds.len() { pages.len() as int } else { seeds.len() as int }),
            seeds.take(if pages.len() <= seeds.len() { pages.len() as int } else { seeds.len() as int }),
        ),
{
    let n = if pages.len() <= seeds.len() { pages.len() as int } else { seeds.len() as int };
    if n > 0 {
        assert(pages.take(n).take(n - 1) =~= pages.take(n - 1));
        assert(seeds.take(n).take(n - 1) =~= seeds.take(n - 1));
        assert(pages.take(n)[n - 1] == pages[n - 1]);
        assert(seeds.take(n)[n - 1] == seeds[n - 1]);
    }
}

/// Write each seeded pod's labels as its components, page by page and pod by pod,
/// pairing pages with seeded pages and pods with seeded pods as far as both go.
pub fn write_components_from_page_seeds(graph: &mut Graph, tree: &PageTree, seeds: &Vec<Vec<Vec<&str>>>)
    requires
        old(graph).wf(),
        old(graph).next_node_id + 2 * total_labels(seeded_pairs(tree.pages@, seeds@)) < u64::MAX,
        old(graph).next_edge_id + 2 * total_labels(seeded_pairs(tree.pages@, seeds@)) < u64::MAX,
        forall|t: int|
            0 <= t < seeded_pairs(tree.pages@, seeds@).len() ==> (#[trigger] seeded_pairs(tree.pages@, seeds@)[t]).1.len()
                <= i64::MAX,
    ensures
        final(graph).wf(),
        final(graph).next_node_id == old(graph).next_node_id + 2 * total_labels(seeded_pairs(tree.pages@, seeds@)),
        exists|gs: Seq<Graph>|
            writes_chain(gs, seeded_pairs(tree.pages@, seeds@)) && gs[0] == *old(graph) && gs.last() == *final(graph),
{
    let ghost all = seeded_pairs(tree.pages@, seeds@);
    let ghost g0 = *graph;
    let np = if tree.pages.len() <= seeds.len() {
        tree.pages.len()
    } else {
        seeds.len()
    };
    proof {
        lemma_seeded_pairs_full(tree.pages@, seeds@);
    }
    let ghost mut gs: Seq<Graph> = seq![*graph];
    let mut i: usize = 0;
    assert(seeded_pairs(tree.pages@.take(0), seeds@.take(0)) =~= Seq::<(NodeId, Seq<Seq<char>>)>::empty());
    while i < np
        invariant
            np <= tree.pages@.len(),
            np <= seeds@.len(),
            i <= np,
            all == seeded_pairs(tree.pages@, seeds@),
            all == seeded_pairs(tree.pages@.take(np as int), seeds@.take(np as int)),
            g0.next_node_id + 2 * total_labels(all) < u64::MAX,
            g0.next_edge_id + 2 * total_labels(all) < u64::MAX,
            forall|t: int| 0 <= t < all.len() ==> (#[trigger] all[t]).1.len() <= i64::MAX,
            graph.wf(),
            writes_chain(gs, seeded_pairs(tree.pages@.take(i as int), seeds@.take(i as int))),
            gs[0] == g0,
            gs.last() == *graph,
            graph.next_node_id == g0.next_node_id + 2 * total_labels(seeded_pairs(tree.pages@.take(i as int), seeds@.take(i as int))),
            graph.next_edge_id == g0.next_edge_id + 2 * total_labels(seeded_pairs(tree.pages@.take(i as int), seeds@.take(i as int))),
        decreases np - i,
    {
        let ghost done = seeded_pairs(tree.pages@.take(i as int), seeds@.take(i as int));
        let page = &tree.pages[i];
        let seed = &seeds[i];
        let nq = if page.pods.len() <= seed.len() {
            page.pods.len()
        } else {
            seed.len()
        };
        let ghost pp = page_pairs(*page, *seed);
        proof {
            lemma_seeded_pairs_step(tree.pages@, seeds@, i as int);
            lemma_seeded_pairs_prefix(tree.pages@, seeds@, i + 1, np as int);
            lemma_seeded_pairs_full(tree.pages@, seeds@);
            assert(all.take((done + pp).len() as int) == done + pp);
            assert((done + pp).len() <= all.len());
        }
        let mut q: usize = 0;
        assert(pp.take(0) =~= Seq::<(NodeId, Seq<Seq<char>>)>::empty());
        assert(done + pp.take(0) =~= done);
        while q < nq
            invariant
                nq == pp.len(),
                q <= nq,
                pp == page_pairs(*page, *seed),
                all.take((done + pp).len() as int) == done + pp,
                (done + pp).len() <= all.len(),
                g0.next_node_id + 2 * total_labels(all) < u64::MAX,
                g0.next_edge_id + 2 * total_labels(all) < u64::MAX,
                forall|t: int| 0 <= t < all.len() ==> (#[trigger] all[t]).1.len() <= i64::MAX,
                graph.wf(),
                writes_chain(gs, done + pp.take(q as int)),
                gs[0] == g0,
                gs.last() == *graph,
                graph.next_node_id == g0.next_node_id + 2 * total_labels(done + pp.take(q as int)),
                graph.next_edge_id == g0.next_edge_id + 2 * total_labels(done + pp.take(q as int)),
            decreases nq - q,
        {
            let ghost cur = done + pp.take(q as int);
            let ghost nxt = done + pp.take(q + 1);
            proof {
                assert(nxt =~= cur.push(pp[q as int]));
                assert(nxt.drop_last() =~= cur);
                let c = done.len() + q;
                assert(all.take((done + pp).len() as int)[c] == all[c]);
                assert((done + pp)[c] == pp[q as int]);
                assert(all[c] == pp[q as int]);
                lemma_total_labels_take(all, (done.len() + q + 1) as int);
                assert(all.take((done.len() + q + 1) as int) =~= nxt) by {
                    assert(all.take((done + pp).len() as int).take((done.len() + q + 1) as int) =~= all.take((done.len() + q + 1) as int));
                }
            }
            let labels: &Vec<&str> = &seed[q];
            write_pod_components(graph, page.pods[q].node_id, labels.as_slice());
            proof {
                let gs2 = gs.push(*graph);
                assert forall|t: int| 0 <= t < nxt.len() implies #[trigger] components_written(gs2[t], gs2[t + 1], nxt[t].0, nxt[t].1) by {
                    if t < cur.len() {
                        assert(gs2[t] == gs[t]);
                        assert(gs2[t + 1] == gs[t + 1]);
                        assert(nxt[t] == cur[t]);
                    } else {
                        assert(gs2[t] == gs.last());
                        assert(nxt[t] == pp[q as int]);
                    }
                }
                gs = gs2;
            }
            q = q + 1;
        }
        proof {
            assert(pp.take(nq as int) =~= pp);
            lemma_seeded_pairs_step(tree.pages@, seeds@, i as int);
        }
        i = i + 1;
    }
    proof {
        assert(writes_chain(gs, all) && gs[0] == g0 && gs.last() == *graph);
    }
}

/// Binding parity of the page cache, and each seeded pod's component labels equal to
/// its seeded labels.
pub fn component_parity(graph: &Graph, workspace_node: NodeId, tree: &PageTree, seeds: &Vec<Vec<Vec<&str>>>) -> (ok: bool)
    requires
        graph.wf(),
    ensures
        ok == (binding_parity_spec(*graph, workspace_node, *tree) && forall|t: int|
            0 <= t < seeded_pairs(tree.pages@, seeds@).len() ==> component_labels_of(
                *graph,
                binding_children_spec(*graph, (#[trigger] seeded_pairs(tree.pages@, seeds@)[t]).0),
            ) == seeded_pairs(tree.pages@, seeds@)[t].1),
{
    if !binding_parity(graph, workspace_node, tree) {
        return false;
    }
    let ghost all = seeded_pairs(tree.pages@, seeds@);
    let np = if tree.pages.len() <= seeds.len() {
        tree.pages.len()
    } else {
        seeds.len()
    };
    proof {
        lemma_seeded_pairs_full(tree.pages@, seeds@);
    }
    let mut i: usize = 0;
    assert(seeded_pairs(tree.pages@.take(0), seeds@.take(0)) =~= Seq::<(NodeId, Seq<Seq<char>>)>::empty());
    while i < np
        invariant
            graph.wf(),
            binding_parity_spec(*graph, workspace_node, *tree),
            np <= tree.pages@.len(),
            np <= seeds@.len(),
            i <= np,
            all == seeded_pairs(tree.pages@, seeds@),
            all == seeded_pairs(tree.pages@.take(np as int), seeds@.take(np as int)),
            forall|t: int|
                0 <= t < seeded_pairs(tree.pages@.take(i as int), seeds@.take(i as int)).len() ==> component_labels_of(
                    *graph,
                    binding_children_spec(*graph, (#[trigger] seeded_pairs(tree.pages@.take(i as int), seeds@.take(i as int))[t]).0),
                ) == seeded_pairs(tree.pages@.take(i as int), seeds@.take(i as int))[t].1,
        decreases np - i,
    {
        let ghost done = seeded_pairs(tree.pages@.take(i as int), seeds@.take(i as int));
        let page = &tree.pages[i];
        let seed = &seeds[i];
        let ghost pp = page_pairs(*page, *seed);
        proof {
            lemma_seeded_pairs_step(tree.pages@, seeds@, i as int);
            lemma_seeded_pairs_prefix(tree.pages@, seeds@, i + 1, np as int);
            lemma_seeded_pairs_full(tree.pages@, seeds@);
            assert(all.take((done + pp).len() as int) == done + pp);
        }
        let nq = if page.pods.len() <= seed.len() {
            page.pods.len()
        } else {
            seed.len()
        };
        let mut q: usize = 0;
        while q < nq
            invariant
                graph.wf(),
                nq == pp.len(),
                q <= nq,
                pp == page_pairs(*page, *seed),
                all == seeded_pairs(tree.pages@, seeds@),
                all.take((done + pp).len() as int) == done + pp,
                (done + pp).len() <= all.len(),
                forall|t: int| 0 <= t < q ==> component_labels_of(*graph, binding_children_spec(*graph, (#[trigger] pp[t]).0)) == pp[t].1,
            decreases nq - q,
        {
            let labels = crate::components::component_labels(graph, page.pods[q].node_id);
            let expected: &Vec<&str> = &seed[q];
            if !labels_match(&labels, expected) {
                proof {
                    let c = done.len() + q;
                    assert((done + pp)[c] == pp[q as int]);
                    assert(all.take((done + pp).len() as int)[c] == all[c]);
                    assert(all[c] == pp[q as int]);
                    assert(component_labels_of(*graph, binding_children_spec(*graph, all[c].0)) != all[c].1);
                }
                return false;
            }
            q = q + 1;
        }
        proof {
            let nxt = seeded_pairs(tree.pages@.take(i + 1), seeds@.take(i + 1));
            assert(nxt == done + pp);
            assert forall|t: int| 0 <= t < nxt.len() implies component_labels_of(
                *graph,
                binding_children_spec(*graph, (#[trigger] nxt[t]).0),
            ) == nxt[t].1 by {
                if t < done.len() {
                    assert(nxt[t] == done[t]);
                } else {
                    assert(nxt[t] == pp[t - done.len()]);
                }
            }
        }
        i = i + 1;
    }
    true
}

/// Component parity as an assertion: callers must establish it, and the labels are
/// still compared to confirm it.
pub fn assert_component_parity(graph: &Graph, workspace_node: NodeId, tree: &PageTree, seeds: &Vec<Vec<Vec<&str>>>)
    requires
        graph.wf(),
        binding_parity_spec(*graph, workspace_node, *tree),
        forall|t: int|
            0 <= t < seeded_pairs(tree.pages@, seeds@).len() ==> component_labels_of(
                *graph,
                binding_children_spec(*graph, (#[trigger] seeded_pairs(tree.pages@, seeds@)[t]).0),
            ) == seeded_pairs(tree.pages@, seeds@)[t].1,
{
    let ok = component_parity(graph, workspace_node, tree, seeds);
    assert(ok);
}

/// Whether `labels` equal `expected`, text for text.
fn labels_match(labels: &Vec<String>, expected: &Vec<&str>) -> (r: bool)
    ensures
        r == (crate::text::views(labels@) == expected@.map_values(|l: &str| l@)),
{
    if labels.len() != expected.len() {
        proof {
            assert(crate::text::views(labels@).len() != expected@.map_values(|l: &str| l@).len());
        }
        return false;
    }
    let n = labels.len();
    let mut i: usize = 0;
    while i < n
        invariant
            n == labels@.len(),
            n == expected@.len(),
            i <= n,
            forall|k: int| 0 <= k < i ==> labels@[k]@ == expected@[k]@,
        decreases n - i,
    {
        if !crate::text::text_eq(labels[i].as_str(), expected[i]) {
            proof {
                assert(crate::text::views(labels@)[i as int] != expected@.map_values(|l: &str| l@)[i as int]);
            }
            return false;
        }
        i = i + 1;
    }
    assert(crate::text::views(labels@) =~= expected@.map_values(|l: &str| l@));
    true
}

} // verus!
