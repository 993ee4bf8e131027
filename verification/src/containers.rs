//! Container hierarchy written into the composed graph: `UIView` nodes joined by
//! ordered `Binding` edges (root → workspace → page → pod → component → particle slot),
//! plus the Home navigation `Signal` edges.

use crate::graph::{EdgeId, EdgeKind, Graph, HyperEdge, NodeId, PropMap, PropValue, PropValueView, SpaceClass};
use crate::order::{key_order, lemma_key_order_total, sort_keys};
use crate::text::{text_eq, views};
use vstd::prelude::*;
use vstd::relations::*;

verus! {

broadcast use vstd::seq_lib::group_to_multiset_ensures, vstd::multiset::group_multiset_axioms;

/// The `"order"` of a Binding edge; edges without an integer order sort last.
pub open spec fn edge_order(e: HyperEdge) -> i64 {
    match e.props.get_spec("order"@) {
        Some(PropValueView::I64(v)) => v,
        _ => i64::MAX,
    }
}

/// `e` is a containment edge out of `parent`.
pub open spec fn is_binding_from(e: HyperEdge, parent: NodeId) -> bool {
    e.kind == EdgeKind::Binding && e.sources@.contains(parent)
}

/// The `(order, child id)` keys that one edge contributes under `parent`.
pub open spec fn edge_keys(e: HyperEdge, parent: NodeId) -> Seq<(i64, u64)> {
    if is_binding_from(e, parent) {
        e.targets@.map_values(|t: NodeId| (edge_order(e), t.0))
    } else {
        Seq::empty()
    }
}

/// All `(order, child id)` keys under `parent`, in edge storage order.
pub open spec fn binding_keys(edges: Seq<HyperEdge>, parent: NodeId) -> Seq<(i64, u64)>
    decreases edges.len(),
{
    if edges.len() == 0 {
        Seq::empty()
    } else {
        binding_keys(edges.drop_last(), parent) + edge_keys(edges.last(), parent)
    }
}

/// Children of `parent` via Binding edges, ordered by `(order, id)`.
pub open spec fn binding_children_spec(g: Graph, parent: NodeId) -> Seq<NodeId> {
    binding_keys(g.edges@, parent).sort_by(key_order()).map_values(|k: (i64, u64)| NodeId(k.1))
}

/// The properties of a fresh Binding edge: exactly one, `"order"`.
pub open spec fn is_order_only(m: PropMap, order: i64) -> bool {
    forall|k: Seq<char>| #[trigger] m.get_spec(k) == if k == "order"@ {
        Some(PropValueView::I64(order))
    } else {
        None
    }
}

/// `e` is a fresh containment edge `parent → child` at position `order`.
pub open spec fn is_fresh_binding(e: HyperEdge, parent: NodeId, child: NodeId, order: i64) -> bool {
    &&& e.kind == EdgeKind::Binding
    &&& e.sources@ == seq![parent]
    &&& e.targets@ == seq![child]
    &&& e.label is None
    &&& is_order_only(e.props, order)
}

/// Whether `x` occurs in `v`.
pub fn ids_contain(v: &Vec<NodeId>, x: NodeId) -> (r: bool)
    ensures
        r == v@.contains(x),
{
    let n = v.len();
    let mut i: usize = 0;
    while i < n
        invariant
            n == v@.len(),
            i <= n,
            forall|k: int| 0 <= k < i ==> v@[k] != x,
        decreases n - i,
    {
        if v[i] == x {
            return true;
        }
        i = i + 1;
    }
    false
}

/// Insert a `UIView` node labelled `label` and return its id.
pub fn insert_uiview(graph: &mut Graph, label: String) -> (id: NodeId)
    requires
        old(graph).wf(),
        old(graph).next_node_id < u64::MAX,
    ensures
        final(graph).wf(),
        id.0 == old(graph).next_node_id,
        !old(graph).has_node(id),
        final(graph).next_node_id == old(graph).next_node_id + 1,
        final(graph).next_edge_id == old(graph).next_edge_id,
        final(graph).edges@ == old(graph).edges@,
        final(graph).nodes@.drop_last() == old(graph).nodes@,
        final(graph).nodes@.len() == old(graph).nodes@.len() + 1,
        final(graph).nodes@.last().id == id,
        final(graph).nodes@.last().space_class == SpaceClass::UIView,
        final(graph).nodes@.last().label@ == label@,
        final(graph).nodes@.last().props.entries@.len() == 0,
{
    graph.insert_node(SpaceClass::UIView, label, PropMap::new())
}

/// App-level root: an ordinary `UIView` labelled `"root"`, parent of every workspace.
pub fn insert_root(graph: &mut Graph) -> (id: NodeId)
    requires
        old(graph).wf(),
        old(graph).next_node_id < u64::MAX,
    ensures
        final(graph).wf(),
        id.0 == old(graph).next_node_id,
        final(graph).next_node_id == old(graph).next_node_id + 1,
        final(graph).next_edge_id == old(graph).next_edge_id,
        final(graph).edges@ == old(graph).edges@,
        final(graph).nodes@.drop_last() == old(graph).nodes@,
        final(graph).nodes@.len() == old(graph).nodes@.len() + 1,
        final(graph).nodes@.last().id == id,
        final(graph).nodes@.last().space_class == SpaceClass::UIView,
        final(graph).nodes@.last().label@ == "root"@,
        final(graph).nodes@.last().props.entries@.len() == 0,
{
    insert_uiview(graph, String::from_str("root"))
}

/// Insert a containment Binding edge `parent → child` carrying `"order" = order`.
pub fn insert_binding(graph: &mut Graph, parent: NodeId, child: NodeId, order: i64) -> (id: EdgeId)
    requires
        old(graph).wf(),
        old(graph).next_edge_id < u64::MAX,
    ensures
        final(graph).wf(),
        id.0 == old(graph).next_edge_id,
        final(graph).next_edge_id == old(graph).next_edge_id + 1,
        final(graph).next_node_id == old(graph).next_node_id,
        final(graph).nodes@ == old(graph).nodes@,
        final(graph).edges@.len() == old(graph).edges@.len() + 1,
        final(graph).edges@.drop_last() == old(graph).edges@,
        final(graph).edges@.last().id == id,
        is_fresh_binding(final(graph).edges@.last(), parent, child, order),
{
    let mut props = PropMap::new();
    props.insert(String::from_str("order"), PropValue::I64(order));
    let mut sources: Vec<NodeId> = Vec::new();
    sources.push(parent);
    let mut targets: Vec<NodeId> = Vec::new();
    targets.push(child);
    let id = graph.insert_edge(EdgeKind::Binding, sources, targets, None, props);
    assert(graph.edges@.last().sources@ =~= seq![parent]);
    assert(graph.edges@.last().targets@ =~= seq![child]);
    id
}

/// Children of `parent` via Binding edges, sorted by `"order"` and then by id.
pub fn binding_children(graph: &Graph, parent: NodeId) -> (kids: Vec<NodeId>)
    requires
        graph.wf(),
    ensures
        kids@ == binding_children_spec(*graph, parent),
{
    let mut keys: Vec<(i64, u64)> = Vec::new();
    let n = graph.edges.len();
    let mut i: usize = 0;
    while i < n
        invariant
            graph.wf(),
            n == graph.edges@.len(),
            i <= n,
            keys@ == binding_keys(graph.edges@.take(i as int), parent),
        decreases n - i,
    {
        let e = &graph.edges[i];
        proof {
            assert(graph.edges@.take(i + 1).drop_last() =~= graph.edges@.take(i as int));
            assert(graph.edges@.take(i + 1).last() == *e);
        }
        if e.kind == EdgeKind::Binding && ids_contain(&e.sources, parent) {
            let order: i64 = match e.props.get("order") {
                Some(PropValue::I64(v)) => *v,
                _ => i64::MAX,
            };
            assert(order == edge_order(*e));
            let m = e.targets.len();
            let mut j: usize = 0;
            let ghost base = keys@;
            while j < m
                invariant
                    m == e.targets@.len(),
                    j <= m,
                    is_binding_from(*e, parent),
                    order == edge_order(*e),
                    keys@ == base + edge_keys(*e, parent).take(j as int),
                decreases m - j,
            {
                let t = e.targets[j];
                keys.push((order, t.0));
                assert(edge_keys(*e, parent).take(j + 1) =~= edge_keys(*e, parent).take(j as int).push(
                    (order, t.0),
                ));
                j = j + 1;
            }
            assert(edge_keys(*e, parent).take(m as int) =~= edge_keys(*e, parent));
        } else {
            assert(edge_keys(*e, parent) =~= Seq::<(i64, u64)>::empty());
            assert(keys@ =~= keys@ + edge_keys(*e, parent));
        }
        i = i + 1;
    }
    assert(graph.edges@.take(n as int) =~= graph.edges@);
    let ghost unsorted = keys@;
    sort_keys(&mut keys);
    proof {
        lemma_key_order_total();
        unsorted.lemma_sort_by_ensures(key_order());
        vstd::seq_lib::lemma_sorted_unique(keys@, unsorted.sort_by(key_order()), key_order());
    }
    let mut kids: Vec<NodeId> = Vec::new();
    let k = keys.len();
    let mut p: usize = 0;
    while p < k
        invariant
            k == keys@.len(),
            p <= k,
            kids@ == keys@.take(p as int).map_values(|key: (i64, u64)| NodeId(key.1)),
        decreases k - p,
    {
        kids.push(NodeId(keys[p].1));
        assert(keys@.take(p + 1) =~= keys@.take(p as int).push(keys@[p as int]));
        assert(kids@ =~= keys@.take(p + 1).map_values(|key: (i64, u64)| NodeId(key.1)));
        p = p + 1;
    }
    assert(keys@.take(k as int) =~= keys@);
    kids
}


/// Which edges a rewrite drops before writing fresh ones.
pub enum EdgeRule {
    /// Binding edges whose sources are exactly `[parent]`.
    BindingsFrom(NodeId),
    /// Signal edges whose sources are exactly `[home]` and whose label is one of `labels`.
    NavSignals { home: NodeId, labels: Vec<String> },
    /// Ordered, role-free Binding edges out of `pod` or out of one of `components`
    /// that reach one of `dropped`.
    PodComponents { pod: NodeId, components: Vec<NodeId>, dropped: Vec<NodeId> },
}

/// Some element of `xs` is in `set`.
pub open spec fn meets(xs: Seq<NodeId>, set: Seq<NodeId>) -> bool {
    exists|k: int| 0 <= k < xs.len() && set.contains(#[trigger] xs[k])
}

/// `e` is a component containment edge to clear from `pod`.
pub open spec fn clears_component(e: HyperEdge, pod: NodeId, components: Seq<NodeId>, dropped: Seq<NodeId>) -> bool {
    &&& e.kind == EdgeKind::Binding
    &&& (e.sources@ == seq![pod] || meets(e.sources@, components))
    &&& meets(e.targets@, dropped)
    &&& e.props.has("order"@)
    &&& !e.props.has("role"@)
}

/// Whether `rule` drops `e`.
pub open spec fn rule_holds(rule: EdgeRule, e: HyperEdge) -> bool {
    match rule {
        EdgeRule::BindingsFrom(parent) => e.kind == EdgeKind::Binding && e.sources@ == seq![parent],
        EdgeRule::NavSignals { home, labels } => {
            &&& e.kind == EdgeKind::Signal
            &&& e.sources@ == seq![home]
            &&& label_in(e.label, views(labels@))
        },
        EdgeRule::PodComponents { pod, components, dropped } => clears_component(e, pod, components@, dropped@),
    }
}

/// The label is present and one of `labels`.
pub open spec fn label_in(label: Option<String>, labels: Seq<Seq<char>>) -> bool {
    match label {
        Some(l) => labels.contains(l@),
        None => false,
    }
}

/// The edges that survive rewiring the Home's navigation Signals for `labels`.
pub open spec fn nav_kept(home: NodeId, labels: Seq<Seq<char>>) -> spec_fn(HyperEdge) -> bool {
    |e: HyperEdge| !(e.kind == EdgeKind::Signal && e.sources@ == seq![home] && label_in(e.label, labels))
}

/// The edges that `rule` keeps.
pub open spec fn kept_by(rule: EdgeRule) -> spec_fn(HyperEdge) -> bool {
    |e: HyperEdge| !rule_holds(rule, e)
}

/// `sources == [x]`.
fn sources_are(v: &Vec<NodeId>, x: NodeId) -> (r: bool)
    ensures
        r == (v@ == seq![x]),
{
    if v.len() == 1 && v[0] == x {
        assert(v@ =~= seq![x]);
        true
    } else {
        false
    }
}

/// Whether `x` is one of `labels`.
fn labels_contain(labels: &Vec<String>, x: &String) -> (r: bool)
    ensures
        r == views(labels@).contains(x@),
{
    let n = labels.len();
    let mut i: usize = 0;
    while i < n
        invariant
            n == labels@.len(),
            i <= n,
            forall|k: int| 0 <= k < i ==> labels@[k]@ != x@,
        decreases n - i,
    {
        if text_eq(labels[i].as_str(), x.as_str()) {
            assert(views(labels@)[i as int] == x@);
            return true;
        }
        i = i + 1;
    }
    assert forall|k: int| 0 <= k < views(labels@).len() implies views(labels@)[k] != x@ by {
        assert(views(labels@)[k] == labels@[k]@);
    }
    false
}

/// Whether some element of `xs` is in `set`.
fn meets_exec(xs: &Vec<NodeId>, set: &Vec<NodeId>) -> (r: bool)
    ensures
        r == meets(xs@, set@),
{
    let n = xs.len();
    let mut i: usize = 0;
    while i < n
        invariant
            n == xs@.len(),
            i <= n,
            forall|k: int| 0 <= k < i ==> !set@.contains(#[trigger] xs@[k]),
        decreases n - i,
    {
        if ids_contain(set, xs[i]) {
            return true;
        }
        i = i + 1;
    }
    false
}

/// Evaluate [`rule_holds`].
fn rule_matches(rule: &EdgeRule, e: &HyperEdge) -> (r: bool)
    requires
        e.props.wf(),
    ensures
        r == rule_holds(*rule, *e),
{
    match rule {
        EdgeRule::BindingsFrom(parent) => e.kind == EdgeKind::Binding && sources_are(&e.sources, *parent),
        EdgeRule::NavSignals { home, labels } => {
            if e.kind == EdgeKind::Signal && sources_are(&e.sources, *home) {
                match &e.label {
                    Some(l) => labels_contain(labels, l),
                    None => false,
                }
            } else {
                false
            }
        },
        EdgeRule::PodComponents { pod, components, dropped } => {
            proof {
                reveal_strlit("order");
                reveal_strlit("role");
            }
            e.kind == EdgeKind::Binding && (sources_are(&e.sources, *pod) || meets_exec(&e.sources, components))
                && meets_exec(&e.targets, dropped) && e.props.contains_key("order") && !e.props.contains_key("role")
        },
    }
}

/// Drop every edge that `rule` matches, keeping the others in order.
pub fn remove_matching_edges(graph: &mut Graph, rule: &EdgeRule)
    requires
        old(graph).wf(),
    ensures
        final(graph).wf(),
        final(graph).edges@ == old(graph).edges@.filter(kept_by(*rule)),
        final(graph).nodes@ == old(graph).nodes@,
        final(graph).next_node_id == old(graph).next_node_id,
        final(graph).next_edge_id == old(graph).next_edge_id,
{
    let ghost orig = graph.edges@;
    let mut rest: Vec<HyperEdge> = Vec::new();
    std::mem::swap(&mut graph.edges, &mut rest);
    let n = rest.len();
    let mut k: usize = 0;
    assert(orig.skip(0) =~= orig);
    assert(orig.take(0).filter(kept_by(*rule)) =~= Seq::<HyperEdge>::empty()) by {
        reveal(Seq::filter);
    }
    while k < n
        invariant
            n == orig.len(),
            k <= n,
            rest@ == orig.skip(k as int),
            graph.edges@ == orig.take(k as int).filter(kept_by(*rule)),
            graph.nodes@ == old(graph).nodes@,
            graph.next_node_id == old(graph).next_node_id,
            graph.next_edge_id == old(graph).next_edge_id,
            orig == old(graph).edges@,
            old(graph).wf(),
            forall|a: int, b: int|
                0 <= a < b < graph.edges@.len() ==> #[trigger] graph.edges@[a].id.0 < #[trigger] graph.edges@[b].id.0,
            forall|a: int, b: int|
                0 <= a < graph.edges@.len() && k <= b < n ==> #[trigger] graph.edges@[a].id.0 < #[trigger] orig[b].id.0,
            forall|a: int| 0 <= a < graph.edges@.len() ==> #[trigger] graph.edges@[a].id.0 < graph.next_edge_id,
            forall|a: int| 0 <= a < graph.edges@.len() ==> #[trigger] graph.edges@[a].props.wf(),
        decreases n - k,
    {
        let e = rest.remove(0);
        assert(e == orig[k as int]);
        assert(orig.take(k + 1) =~= orig.take(k as int).push(e));
        proof {
            orig.take(k as int).lemma_filter_push(e, kept_by(*rule));
        }
        let ghost before = graph.edges@;
        assert(orig[k as int].props.wf());
        if !rule_matches(rule, &e) {
            graph.edges.push(e);
            assert forall|a: int, b: int|
                0 <= a < graph.edges@.len() && k + 1 <= b < n implies #[trigger] graph.edges@[a].id.0 < #[trigger] orig[b].id.0 by {
                if a < before.len() {
                    assert(before[a].id.0 < orig[b].id.0);
                } else {
                    assert(orig[k as int].id.0 < orig[b].id.0);
                }
            }
            assert forall|a: int, b: int|
                0 <= a < b < graph.edges@.len() implies #[trigger] graph.edges@[a].id.0 < #[trigger] graph.edges@[b].id.0 by {
                if b == before.len() {
                    assert(before[a].id.0 < orig[k as int].id.0);
                } else {
                    assert(before[a].id.0 < before[b].id.0);
                }
            }
            assert forall|a: int| 0 <= a < graph.edges@.len() implies #[trigger] graph.edges@[a].id.0 < graph.next_edge_id by {
                if a == before.len() {
                    assert(orig[k as int].id.0 < graph.next_edge_id);
                } else {
                    assert(before[a].id.0 < graph.next_edge_id);
                }
            }
            assert forall|a: int| 0 <= a < graph.edges@.len() implies #[trigger] graph.edges@[a].props.wf() by {
                if a == before.len() {
                    assert(orig[k as int].props.wf());
                } else {
                    assert(before[a].props.wf());
                }
            }
        }
        assert(rest@ =~= orig.skip(k + 1));
        k = k + 1;
    }
    assert(orig.take(n as int) =~= orig);
}


pub proof fn lemma_binding_keys_concat(a: Seq<HyperEdge>, b: Seq<HyperEdge>, parent: NodeId)
    ensures
        binding_keys(a + b, parent) == binding_keys(a, parent) + binding_keys(b, parent),
    decreases b.len(),
{
    if b.len() == 0 {
        assert(a + b =~= a);
        assert(binding_keys(a, parent) + binding_keys(b, parent) =~= binding_keys(a, parent));
    } else {
        assert((a + b).drop_last() =~= a + b.drop_last());
        assert((a + b).last() == b.last());
        lemma_binding_keys_concat(a, b.drop_last(), parent);
        assert(binding_keys(a + b, parent) =~= binding_keys(a, parent) + binding_keys(b, parent));
    }
}

/// The keys of `n` fresh bindings `parent → children[k]` at orders `0..n`.
pub open spec fn ordinal_keys(children: Seq<NodeId>) -> Seq<(i64, u64)> {
    Seq::new(children.len(), |k: int| (k as i64, children[k].0))
}

pub proof fn lemma_fresh_binding_keys(e: HyperEdge, parent: NodeId, child: NodeId, order: i64)
    requires
        is_fresh_binding(e, parent, child, order),
    ensures
        edge_keys(e, parent) == seq![(order, child.0)],
{
    assert(e.props.get_spec("order"@) == Some(PropValueView::I64(order)));
    assert(e.sources@[0] == parent);
    assert(e.sources@.contains(parent));
    assert(edge_keys(e, parent) =~= seq![(order, child.0)]);
}

/// Keys that are strictly ascending come out of the sort unchanged.
pub proof fn lemma_sorted_keys_fixed(s: Seq<(i64, u64)>)
    requires
        sorted_by(s, key_order()),
    ensures
        s.sort_by(key_order()) == s,
{
    lemma_key_order_total();
    s.lemma_sort_by_ensures(key_order());
    vstd::seq_lib::lemma_sorted_unique(s, s.sort_by(key_order()), key_order());
}

/// Rewrite the root's Binding edges so that its children are exactly `workspace_nodes`, in order.
pub fn bind_workspaces_to_root(graph: &mut Graph, root: NodeId, workspace_nodes: &Vec<NodeId>)
    requires
        old(graph).wf(),
        old(graph).next_edge_id + workspace_nodes@.len() < u64::MAX,
        workspace_nodes@.len() <= i64::MAX,
    ensures
        rebound(*old(graph), *final(graph), root, workspace_nodes@),
{
    rebind_children(graph, root, workspace_nodes);
}

/// Every Binding edge out of `parent` has `[parent]` as its whole source list.
pub open spec fn sole_parent(edges: Seq<HyperEdge>, parent: NodeId) -> bool {
    forall|i: int| 0 <= i < edges.len() && is_binding_from(#[trigger] edges[i], parent) ==> edges[i].sources@ == seq![parent]
}

/// `after` is `before` with `parent`'s own Binding edges replaced by fresh ones to
/// `children` at orders `0..`; when `parent` had no shared Binding edges, its children
/// are then exactly `children`.
pub open spec fn rebound(before: Graph, after: Graph, parent: NodeId, children: Seq<NodeId>) -> bool {
    let kept = before.edges@.filter(kept_by(EdgeRule::BindingsFrom(parent)));
    &&& after.wf()
    &&& after.nodes@ == before.nodes@
    &&& after.next_node_id == before.next_node_id
    &&& after.next_edge_id == before.next_edge_id + children.len()
    &&& after.edges@.len() == kept.len() + children.len()
    &&& after.edges@.take(kept.len() as int) == kept
    &&& forall|k: int| 0 <= k < children.len() ==> is_fresh_binding(
        #[trigger] after.edges@[kept.len() + k],
        parent,
        children[k],
        k as i64,
    )
    &&& sole_parent(before.edges@, parent) ==> binding_children_spec(after, parent) == children
}

/// Replace `parent`'s Binding edges (those whose sources are exactly `[parent]`) with fresh
/// ones to `children`, in order, at orders `0..`.
pub fn rebind_children(graph: &mut Graph, root: NodeId, workspace_nodes: &Vec<NodeId>)
    requires
        old(graph).wf(),
        old(graph).next_edge_id + workspace_nodes@.len() < u64::MAX,
        workspace_nodes@.len() <= i64::MAX,
    ensures
        rebound(*old(graph), *final(graph), root, workspace_nodes@),
{
    let rule = EdgeRule::BindingsFrom(root);
    remove_matching_edges(graph, &rule);
    let ghost kept = graph.edges@;
    let n = workspace_nodes.len();
    let mut i: usize = 0;
    assert(graph.edges@.take(kept.len() as int) =~= kept);
    while i < n
        invariant
            graph.wf(),
            n == workspace_nodes@.len(),
            n <= i64::MAX,
            i <= n,
            graph.nodes@ == old(graph).nodes@,
            graph.next_node_id == old(graph).next_node_id,
            graph.next_edge_id == old(graph).next_edge_id + i,
            old(graph).next_edge_id + n < u64::MAX,
            graph.edges@.len() == kept.len() + i,
            graph.edges@.take(kept.len() as int) == kept,
            forall|k: int| 0 <= k < i ==> is_fresh_binding(
                #[trigger] graph.edges@[kept.len() + k],
                root,
                workspace_nodes@[k],
                k as i64,
            ),
        decreases n - i,
    {
        let ghost before = graph.edges@;
        insert_binding(graph, root, workspace_nodes[i], i as i64);
        assert(graph.edges@.take(kept.len() as int) =~= before.take(kept.len() as int));
        assert forall|k: int| 0 <= k < i + 1 implies is_fresh_binding(
            #[trigger] graph.edges@[kept.len() + k],
            root,
            workspace_nodes@[k],
            k as i64,
        ) by {
            if k < i {
                assert(graph.edges@[kept.len() + k] == before[kept.len() + k]);
            }
        }
        i = i + 1;
    }
    proof {
        let fresh = graph.edges@.skip(kept.len() as int);
        assert(graph.edges@ =~= kept + fresh);
        if sole_parent(old(graph).edges@, root) {
            lemma_binding_keys_concat(kept, fresh, root);
            lemma_no_binding_keys(old(graph).edges@, root);
            assert forall|k: int| 0 <= k < fresh.len() implies is_fresh_binding(#[trigger] fresh[k], root, workspace_nodes@[k], k as i64) by {
                assert(fresh[k] == graph.edges@[kept.len() + k]);
            }
            lemma_fresh_keys(fresh, workspace_nodes@, root, n as int);
            assert(fresh.take(n as int) =~= fresh);
            assert(workspace_nodes@.take(n as int) =~= workspace_nodes@);
            let keys = ordinal_keys(workspace_nodes@);
            assert(binding_keys(graph.edges@, root) =~= keys);
            assert(sorted_by(keys, key_order()));
            lemma_sorted_keys_fixed(keys);
            assert(binding_children_spec(*graph, root) =~= workspace_nodes@);
        }
    }
}

/// Rewriting one parent's Binding edges leaves the keys of every other parent as
/// they were.
pub proof fn lemma_rebound_keeps_others(before: Graph, after: Graph, parent: NodeId, children: Seq<NodeId>, x: NodeId)
    requires
        rebound(before, after, parent, children),
        x != parent,
    ensures
        binding_keys(after.edges@, x) == binding_keys(before.edges@, x),
{
    let kept = before.edges@.filter(kept_by(EdgeRule::BindingsFrom(parent)));
    let fresh = after.edges@.skip(kept.len() as int);
    assert(after.edges@ =~= kept + fresh);
    lemma_binding_keys_concat(kept, fresh, x);
    assert forall|k: int| 0 <= k < fresh.len() implies !is_binding_from(#[trigger] fresh[k], x) by {
        assert(fresh[k] == after.edges@[kept.len() + k]);
        assert(is_fresh_binding(after.edges@[kept.len() + k], parent, children[k], k as i64));
        if fresh[k].sources@.contains(x) {
            assert(fresh[k].sources@[0] == x);
        }
    }
    lemma_no_keys_from(fresh, x);
    lemma_filter_other_parent(before.edges@, parent, x);
}

proof fn lemma_no_keys_from(edges: Seq<HyperEdge>, x: NodeId)
    requires
        forall|k: int| 0 <= k < edges.len() ==> !is_binding_from(#[trigger] edges[k], x),
    ensures
        binding_keys(edges, x) == Seq::<(i64, u64)>::empty(),
    decreases edges.len(),
{
    if edges.len() > 0 {
        let init = edges.drop_last();
        assert forall|k: int| 0 <= k < init.len() implies !is_binding_from(#[trigger] init[k], x) by {
            assert(init[k] == edges[k]);
        }
        lemma_no_keys_from(init, x);
        assert(edges[edges.len() - 1] == edges.last());
        assert(edge_keys(edges.last(), x) =~= Seq::<(i64, u64)>::empty());
    }
}

proof fn lemma_filter_other_parent(edges: Seq<HyperEdge>, parent: NodeId, x: NodeId)
    requires
        x != parent,
    ensures
        binding_keys(edges.filter(kept_by(EdgeRule::BindingsFrom(parent))), x) == binding_keys(edges, x),
    decreases edges.len(),
{
    let p = kept_by(EdgeRule::BindingsFrom(parent));
    if edges.len() > 0 {
        let init = edges.drop_last();
        assert(edges =~= init.push(edges.last()));
        init.lemma_filter_push(edges.last(), p);
        lemma_filter_other_parent(init, parent, x);
        if p(edges.last()) {
            assert(init.filter(p).push(edges.last()).drop_last() =~= init.filter(p));
        } else {
            let e = edges.last();
            if e.sources@.contains(x) {
                assert(e.sources@[0] == x);
            }
            assert(edge_keys(e, x) =~= Seq::<(i64, u64)>::empty());
        }
    } else {
        assert(edges.filter(p) =~= Seq::<HyperEdge>::empty()) by {
            reveal(Seq::filter);
        }
    }
}

/// Fresh bindings at orders `0..m` contribute exactly their ordinal keys.
pub proof fn lemma_fresh_keys(fresh: Seq<HyperEdge>, children: Seq<NodeId>, parent: NodeId, m: int)
    requires
        0 <= m <= fresh.len(),
        fresh.len() == children.len(),
        forall|k: int| 0 <= k < fresh.len() ==> is_fresh_binding(#[trigger] fresh[k], parent, children[k], k as i64),
    ensures
        binding_keys(fresh.take(m), parent) == ordinal_keys(children.take(m)),
    decreases m,
{
    if m == 0 {
        assert(ordinal_keys(children.take(0)) =~= Seq::<(i64, u64)>::empty());
    } else {
        lemma_fresh_keys(fresh, children, parent, m - 1);
        assert(fresh.take(m).drop_last() =~= fresh.take(m - 1));
        assert(fresh.take(m).last() == fresh[m - 1]);
        lemma_fresh_binding_keys(fresh[m - 1], parent, children[m - 1], (m - 1) as i64);
        assert(ordinal_keys(children.take(m)) =~= ordinal_keys(children.take(m - 1)).push(
            ((m - 1) as i64, children[m - 1].0),
        ));
    }
}

/// When every Binding edge out of `parent` has `[parent]` as its whole source list,
/// dropping those edges leaves no keys under `parent`.
pub proof fn lemma_no_binding_keys(edges: Seq<HyperEdge>, parent: NodeId)
    requires
        forall|i: int| 0 <= i < edges.len() && is_binding_from(#[trigger] edges[i], parent) ==> edges[i].sources@
            == seq![parent],
    ensures
        binding_keys(edges.filter(kept_by(EdgeRule::BindingsFrom(parent))), parent) == Seq::<(i64, u64)>::empty(),
    decreases edges.len(),
{
    let p = kept_by(EdgeRule::BindingsFrom(parent));
    if edges.len() > 0 {
        let init = edges.drop_last();
        assert(edges =~= init.push(edges.last()));
        init.lemma_filter_push(edges.last(), p);
        assert forall|i: int| 0 <= i < init.len() && is_binding_from(#[trigger] init[i], parent) implies init[i].sources@
            == seq![parent] by {
            assert(init[i] == edges[i]);
        }
        lemma_no_binding_keys(init, parent);
        if p(edges.last()) {
            let f = init.filter(p);
            assert(f.push(edges.last()).drop_last() =~= f);
            assert(!is_binding_from(edges.last(), parent)) by {
                assert(edges[edges.len() - 1] == edges.last());
            }
        }
    } else {
        assert(edges.filter(p) =~= Seq::<HyperEdge>::empty()) by {
            reveal(Seq::filter);
        }
    }
}


/// Append one workspace under the root, after its current children.
pub fn bind_workspace_to_root(graph: &mut Graph, root: NodeId, workspace: NodeId)
    requires
        old(graph).wf(),
        old(graph).next_edge_id < u64::MAX,
    ensures
        final(graph).wf(),
        final(graph).nodes@ == old(graph).nodes@,
        final(graph).next_node_id == old(graph).next_node_id,
        final(graph).next_edge_id == old(graph).next_edge_id + 1,
        final(graph).edges@.drop_last() == old(graph).edges@,
        final(graph).edges@.len() == old(graph).edges@.len() + 1,
        is_fresh_binding(
            final(graph).edges@.last(),
            root,
            workspace,
            binding_children_spec(*old(graph), root).len() as i64,
        ),
{
    let order = binding_children(graph, root).len() as i64;
    insert_binding(graph, root, workspace, order);
}

/// `e` is a Home navigation Signal for `label`.
pub open spec fn is_nav_edge(e: HyperEdge, home: NodeId, label: Seq<char>) -> bool {
    &&& e.kind == EdgeKind::Signal
    &&& e.sources@ == seq![home]
    &&& match e.label {
        Some(l) => l@ == label,
        None => false,
    }
}

/// First target of the first navigation Signal for `label` that has a target.
pub open spec fn nav_target(edges: Seq<HyperEdge>, home: NodeId, label: Seq<char>) -> Option<NodeId>
    decreases edges.len(),
{
    if edges.len() == 0 {
        None
    } else if is_nav_edge(edges[0], home, label) && edges[0].targets@.len() > 0 {
        Some(edges[0].targets@[0])
    } else {
        nav_target(edges.drop_first(), home, label)
    }
}

/// `e` is a fresh navigation Signal `home → target` labelled `label`.
pub open spec fn is_fresh_nav(e: HyperEdge, home: NodeId, target: NodeId, label: Seq<char>) -> bool {
    &&& e.kind == EdgeKind::Signal
    &&& e.sources@ == seq![home]
    &&& e.targets@ == seq![target]
    &&& e.label matches Some(l) && l@ == label
    &&& e.props.entries@.len() == 0
}

/// What wiring Home's navigation gives: each target whose open id comes first among
/// the targets is the answer for that id, and an id that was not wired, and had no
/// Home Signal before, has no answer.
pub open spec fn nav_wired(before: Graph, after: Graph, home: NodeId, targets: Seq<(NodeId, Seq<char>)>) -> bool {
    &&& forall|k: int| 0 <= k < targets.len() && (forall|j: int| 0 <= j < k ==> targets[j].1 != targets[k].1)
        ==> #[trigger] nav_target(after.edges@, home, targets[k].1) == Some(targets[k].0)
    &&& forall|label: Seq<char>|
        (forall|k: int| 0 <= k < targets.len() ==> targets[k].1 != label) && (forall|i: int|
            0 <= i < before.edges@.len() ==> !is_nav_edge(#[trigger] before.edges@[i], home, label))
            ==> #[trigger] nav_target(after.edges@, home, label) is None
}

/// After wiring Home's navigation for targets with pairwise distinct open ids, resolving
/// an id gives its target when the id was wired, and nothing when it was not and Home
/// had no Signal for it before.
pub proof fn lemma_resolve_after_wiring(
    before: Graph,
    after: Graph,
    home: NodeId,
    targets: Seq<(NodeId, Seq<char>)>,
    open_id: Seq<char>,
)
    requires
        nav_wired(before, after, home, targets),
        forall|i: int, j: int| 0 <= i < j < targets.len() ==> targets[i].1 != targets[j].1,
    ensures
        forall|k: int| 0 <= k < targets.len() && targets[k].1 == open_id ==> nav_target(after.edges@, home, open_id) == Some(
            targets[k].0,
        ),
        (forall|k: int| 0 <= k < targets.len() ==> targets[k].1 != open_id) && (forall|i: int|
            0 <= i < before.edges@.len() ==> !is_nav_edge(#[trigger] before.edges@[i], home, open_id)) ==> nav_target(
            after.edges@,
            home,
            open_id,
        ) is None,
{
    assert forall|k: int| 0 <= k < targets.len() && targets[k].1 == open_id implies nav_target(after.edges@, home, open_id)
        == Some(targets[k].0) by {
        assert(forall|j: int| 0 <= j < k ==> targets[j].1 != targets[k].1);
        assert(nav_target(after.edges@, home, targets[k].1) == Some(targets[k].0));
    }
}

/// Wire Home → workspace navigation as Signal edges, one per `(target, open_id)`,
/// replacing earlier Home Signals that carry one of those open ids.
pub fn wire_home_nav_signals(graph: &mut Graph, home: NodeId, targets: &Vec<(NodeId, String)>)
    requires
        old(graph).wf(),
        old(graph).next_edge_id + targets@.len() < u64::MAX,
    ensures
        final(graph).wf(),
        final(graph).nodes@ == old(graph).nodes@,
        final(graph).next_node_id == old(graph).next_node_id,
        final(graph).next_edge_id == old(graph).next_edge_id + targets@.len(),
        ({
            let labels = targets@.map_values(|t: (NodeId, String)| t.1@);
            let kept = old(graph).edges@.filter(nav_kept(home, labels));
            &&& final(graph).edges@.len() == kept.len() + targets@.len()
            &&& final(graph).edges@.take(kept.len() as int) == kept
            &&& forall|k: int| 0 <= k < targets@.len() ==> is_fresh_nav(
                #[trigger] final(graph).edges@[kept.len() + k],
                home,
                targets@[k].0,
                targets@[k].1@,
            )
        }),
        forall|k: int| 0 <= k < targets@.len() && (forall|j: int| 0 <= j < k ==> targets@[j].1@ != targets@[k].1@)
            ==> #[trigger] nav_target(final(graph).edges@, home, targets@[k].1@) == Some(targets@[k].0),
        forall|label: Seq<char>|
            !targets@.map_values(|t: (NodeId, String)| t.1@).contains(label) && (forall|i: int|
                0 <= i < old(graph).edges@.len() ==> !is_nav_edge(#[trigger] old(graph).edges@[i], home, label))
                ==> #[trigger] nav_target(final(graph).edges@, home, label) is None,
        nav_wired(*old(graph), *final(graph), home, targets@.map_values(|t: (NodeId, String)| (t.0, t.1@))),
{
    let n = targets.len();
    let mut labels: Vec<String> = Vec::new();
    let mut i: usize = 0;
    while i < n
        invariant
            n == targets@.len(),
            i <= n,
            labels@.len() == i,
            views(labels@) == targets@.take(i as int).map_values(|t: (NodeId, String)| t.1@),
        decreases n - i,
    {
        let ghost before = labels@;
        let c = targets[i].1.clone();
        labels.push(c);
        assert forall|k: int| 0 <= k < i + 1 implies views(labels@)[k] == targets@.take(i + 1).map_values(
            |t: (NodeId, String)| t.1@,
        )[k] by {
            if k < i {
                assert(labels@[k] == before[k]);
                assert(views(before)[k] == targets@.take(i as int).map_values(|t: (NodeId, String)| t.1@)[k]);
            } else {
                assert(labels@[k] == c);
            }
        }
        assert(views(labels@) =~= targets@.take(i + 1).map_values(|t: (NodeId, String)| t.1@));
        i = i + 1;
    }
    assert(targets@.take(n as int) =~= targets@);
    let ghost label_views = views(labels@);
    let rule = EdgeRule::NavSignals { home, labels };
    remove_matching_edges(graph, &rule);
    let ghost kept = graph.edges@;
    assert(kept_by(rule) =~= nav_kept(home, label_views));
    assert(graph.edges@.take(kept.len() as int) =~= kept);
    let mut i: usize = 0;
    while i < n
        invariant
            graph.wf(),
            n == targets@.len(),
            i <= n,
            graph.nodes@ == old(graph).nodes@,
            graph.next_node_id == old(graph).next_node_id,
            graph.next_edge_id == old(graph).next_edge_id + i,
            old(graph).next_edge_id + n < u64::MAX,
            graph.edges@.len() == kept.len() + i,
            graph.edges@.take(kept.len() as int) == kept,
            forall|k: int| 0 <= k < i ==> is_fresh_nav(
                #[trigger] graph.edges@[kept.len() + k],
                home,
                targets@[k].0,
                targets@[k].1@,
            ),
        decreases n - i,
    {
        let ghost before = graph.edges@;
        let mut sources: Vec<NodeId> = Vec::new();
        sources.push(home);
        let mut tgt: Vec<NodeId> = Vec::new();
        tgt.push(targets[i].0);
        let label = targets[i].1.clone();
        graph.insert_edge(EdgeKind::Signal, sources, tgt, Some(label), PropMap::new());
        assert(graph.edges@.last().sources@ =~= seq![home]);
        assert(graph.edges@.last().targets@ =~= seq![targets@[i as int].0]);
        assert(graph.edges@.take(kept.len() as int) =~= before.take(kept.len() as int));
        assert forall|k: int| 0 <= k < i + 1 implies is_fresh_nav(
            #[trigger] graph.edges@[kept.len() + k],
            home,
            targets@[k].0,
            targets@[k].1@,
        ) by {
            if k < i {
                assert(graph.edges@[kept.len() + k] == before[kept.len() + k]);
            }
        }
        i = i + 1;
    }
    proof {
        let fresh = graph.edges@.skip(kept.len() as int);
        assert(graph.edges@ =~= kept + fresh);
        assert forall|label: Seq<char>|
            !label_views.contains(label) && (forall|i: int|
                0 <= i < old(graph).edges@.len() ==> !is_nav_edge(#[trigger] old(graph).edges@[i], home, label))
                implies #[trigger] nav_target(graph.edges@, home, label) is None by {
            assert forall|a: int| 0 <= a < graph.edges@.len() implies !is_nav_edge(#[trigger] graph.edges@[a], home, label) by {
                if a < kept.len() {
                    assert(graph.edges@[a] == kept[a]);
                    assert(kept.contains(kept[a]));
                    old(graph).edges@.lemma_filter_contains_rev(kept_by(rule), kept[a]);
                    let j = choose|j: int| 0 <= j < old(graph).edges@.len() && old(graph).edges@[j] == kept[a];
                    assert(!is_nav_edge(old(graph).edges@[j], home, label));
                } else {
                    let k = a - kept.len();
                    assert(is_fresh_nav(graph.edges@[kept.len() + k], home, targets@[k].0, targets@[k].1@));
                    assert(label_views[k] == targets@[k].1@);
                    assert(label_views.contains(targets@[k].1@));
                }
            }
            lemma_nav_target_skip(graph.edges@, Seq::<HyperEdge>::empty(), home, label);
            assert(graph.edges@ + Seq::<HyperEdge>::empty() =~= graph.edges@);
        }
        assert forall|label: Seq<char>|
            !label_views.contains(label) && (forall|i: int|
                0 <= i < old(graph).edges@.len() ==> !is_nav_edge(#[trigger] old(graph).edges@[i], home, label))
                implies #[trigger] nav_target(graph.edges@, home, label) is None by {
            assert forall|a: int| 0 <= a < graph.edges@.len() implies !is_nav_edge(#[trigger] graph.edges@[a], home, label) by {
                if a < kept.len() {
                    assert(graph.edges@[a] == kept[a]);
                    assert(kept.contains(kept[a]));
                    old(graph).edges@.lemma_filter_contains_rev(kept_by(rule), kept[a]);
                    let j = choose|j: int| 0 <= j < old(graph).edges@.len() && old(graph).edges@[j] == kept[a];
                    assert(!is_nav_edge(old(graph).edges@[j], home, label));
                } else {
                    let k = a - kept.len();
                    assert(is_fresh_nav(graph.edges@[kept.len() + k], home, targets@[k].0, targets@[k].1@));
                    assert(label_views[k] == targets@[k].1@);
                    assert(label_views.contains(targets@[k].1@));
                }
            }
            lemma_nav_target_skip(graph.edges@, Seq::<HyperEdge>::empty(), home, label);
            assert(graph.edges@ + Seq::<HyperEdge>::empty() =~= graph.edges@);
        }
        assert forall|k: int| 0 <= k < n && (forall|j: int| 0 <= j < k ==> targets@[j].1@ != targets@[k].1@)
            implies #[trigger] nav_target(graph.edges@, home, targets@[k].1@) == Some(targets@[k].0) by {
            let l = targets@[k].1@;
            assert(label_views[k] == l);
            assert(label_views.contains(l));
            assert forall|a: int| 0 <= a < kept.len() implies !is_nav_edge(#[trigger] kept[a], home, l) by {
                old(graph).edges@.lemma_filter_pred(kept_by(rule), a);
                assert(!rule_holds(rule, kept[a]));
                if is_nav_edge(kept[a], home, l) {
                    assert(label_in(kept[a].label, label_views));
                }
            }
            lemma_nav_target_skip(kept, fresh, home, l);
            assert(fresh.skip(0) =~= fresh);
            assert forall|a: int| 0 <= a < fresh.len() implies is_fresh_nav(#[trigger] fresh[a], home, targets@[a].0, targets@[a].1@) by {
                assert(fresh[a] == graph.edges@[kept.len() + a]);
            }
            lemma_nav_target_first(fresh, targets@, home, k, 0);
        }
        let tv = targets@.map_values(|t: (NodeId, String)| (t.0, t.1@));
        assert forall|k: int| 0 <= k < tv.len() && (forall|j: int| 0 <= j < k ==> tv[j].1 != tv[k].1) implies #[trigger] nav_target(
            graph.edges@,
            home,
            tv[k].1,
        ) == Some(tv[k].0) by {
            assert(tv[k] == (targets@[k].0, targets@[k].1@));
            assert forall|j: int| 0 <= j < k implies targets@[j].1@ != targets@[k].1@ by {
                assert(tv[j] == (targets@[j].0, targets@[j].1@));
            }
            assert(nav_target(graph.edges@, home, targets@[k].1@) == Some(targets@[k].0));
        }
        assert forall|label: Seq<char>|
            (forall|k: int| 0 <= k < tv.len() ==> tv[k].1 != label) && (forall|i: int|
                0 <= i < old(graph).edges@.len() ==> !is_nav_edge(#[trigger] old(graph).edges@[i], home, label))
                implies #[trigger] nav_target(graph.edges@, home, label) is None by {
            if label_views.contains(label) {
                let k = choose|k: int| 0 <= k < label_views.len() && label_views[k] == label;
                assert(tv[k] == (targets@[k].0, targets@[k].1@));
                assert(label_views[k] == targets@[k].1@);
            }
            assert(!label_views.contains(label));
        }
    }
}

/// A prefix without navigation Signals for `label` does not change the answer.
pub proof fn lemma_nav_target_skip(a: Seq<HyperEdge>, b: Seq<HyperEdge>, home: NodeId, label: Seq<char>)
    requires
        forall|i: int| 0 <= i < a.len() ==> !is_nav_edge(#[trigger] a[i], home, label),
    ensures
        nav_target(a + b, home, label) == nav_target(b, home, label),
    decreases a.len(),
{
    if a.len() > 0 {
        assert((a + b)[0] == a[0]);
        assert((a + b).drop_first() =~= a.drop_first() + b);
        assert forall|i: int| 0 <= i < a.drop_first().len() implies !is_nav_edge(#[trigger] a.drop_first()[i], home, label) by {
            assert(a.drop_first()[i] == a[i + 1]);
        }
        lemma_nav_target_skip(a.drop_first(), b, home, label);
    } else {
        assert(a + b =~= b);
    }
}

/// In a run of fresh navigation Signals, the first one with the label answers.
pub proof fn lemma_nav_target_first(
    fresh: Seq<HyperEdge>,
    targets: Seq<(NodeId, String)>,
    home: NodeId,
    k: int,
    from: int,
)
    requires
        fresh.len() == targets.len(),
        0 <= from <= k < targets.len(),
        forall|a: int| 0 <= a < fresh.len() ==> is_fresh_nav(#[trigger] fresh[a], home, targets[a].0, targets[a].1@),
        forall|j: int| 0 <= j < k ==> targets[j].1@ != targets[k].1@,
    ensures
        nav_target(fresh.skip(from), home, targets[k].1@) == Some(targets[k].0),
    decreases k - from,
{
    let s = fresh.skip(from);
    assert(s[0] == fresh[from]);
    if from < k {
        assert(!is_nav_edge(fresh[from], home, targets[k].1@));
        assert(s.drop_first() =~= fresh.skip(from + 1));
        lemma_nav_target_first(fresh, targets, home, k, from + 1);
    } else {
        assert(fresh[k].targets@[0] == targets[k].0);
    }
}

/// Resolve a Home `OpenWorkspace` intent by walking the Home's outbound Signal edges.
pub fn resolve_home_nav_target(graph: &Graph, home: NodeId, open_id: &str) -> (r: Option<NodeId>)
    requires
        graph.wf(),
    ensures
        r == nav_target(graph.edges@, home, open_id@),
{
    let n = graph.edges.len();
    let mut i: usize = 0;
    assert(graph.edges@.skip(0) =~= graph.edges@);
    while i < n
        invariant
            n == graph.edges@.len(),
            i <= n,
            nav_target(graph.edges@, home, open_id@) == nav_target(graph.edges@.skip(i as int), home, open_id@),
        decreases n - i,
    {
        let e = &graph.edges[i];
        let ghost s = graph.edges@.skip(i as int);
        assert(s[0] == *e);
        assert(s.drop_first() =~= graph.edges@.skip(i + 1));
        if e.kind == EdgeKind::Signal && sources_are(&e.sources, home) {
            let hit = match &e.label {
                Some(l) => text_eq(l.as_str(), open_id),
                None => false,
            };
            if hit && e.targets.len() > 0 {
                return Some(e.targets[0]);
            }
        }
        i = i + 1;
    }
    assert(graph.edges@.skip(n as int) =~= Seq::<HyperEdge>::empty());
    None
}

} // verus!



