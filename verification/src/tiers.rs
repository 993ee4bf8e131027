//! Binding depth ("tier") from a root: breadth-first walk over containment edges,
//! written back onto the nodes as the `"tier"` property.

use crate::containers::{binding_children, binding_children_spec, binding_keys, edge_keys, edge_order, is_binding_from};
use crate::graph::{Graph, HyperEdge, Node, NodeId, PropValue, PropValueView};
use crate::order::{key_order, lemma_key_order_total};
use vstd::prelude::*;

verus! {

broadcast use vstd::seq_lib::group_to_multiset_ensures, vstd::multiset::group_multiset_axioms;

/// `b` is a Binding child of `a`.
pub open spec fn is_child(g: Graph, a: NodeId, b: NodeId) -> bool {
    exists|i: int|
        0 <= i < g.edges@.len() && #[trigger] is_binding_from(g.edges@[i], a) && g.edges@[i].targets@.contains(b)
}

/// Step `i` of `p` follows a Binding edge.
pub open spec fn step(g: Graph, p: Seq<NodeId>, i: int) -> bool {
    is_child(g, p[i], p[i + 1])
}

/// `p` is a walk down Binding edges.
pub open spec fn is_walk(g: Graph, p: Seq<NodeId>) -> bool {
    forall|i: int| 0 <= i < p.len() - 1 ==> #[trigger] step(g, p, i)
}

/// `n` is `d` Binding steps below `root` along some walk.
pub open spec fn reaches_in(g: Graph, root: NodeId, n: NodeId, d: nat) -> bool {
    exists|p: Seq<NodeId>| p.len() == d + 1 && p[0] == root && p[d as int] == n && #[trigger] is_walk(g, p)
}

/// `n` can be reached from `root` down Binding edges.
pub open spec fn reachable(g: Graph, root: NodeId, n: NodeId) -> bool {
    exists|d: nat| #[trigger] reaches_in(g, root, n, d)
}

/// `d` is the fewest Binding steps from `root` to `n`.
pub open spec fn is_distance(g: Graph, root: NodeId, n: NodeId, d: nat) -> bool {
    reaches_in(g, root, n, d) && forall|e: nat| e < d ==> !#[trigger] reaches_in(g, root, n, e)
}

/// The Binding depth of `n` below `root` (meaningful when reachable).
pub open spec fn distance(g: Graph, root: NodeId, n: NodeId) -> nat {
    choose|d: nat| is_distance(g, root, n, d)
}

pub proof fn lemma_binding_keys_contains(edges: Seq<HyperEdge>, parent: NodeId, key: (i64, u64))
    ensures
        binding_keys(edges, parent).contains(key) <==> exists|i: int|
            0 <= i < edges.len() && #[trigger] is_binding_from(edges[i], parent) && edge_order(edges[i]) == key.0
                && edges[i].targets@.contains(NodeId(key.1)),
    decreases edges.len(),
{
    if edges.len() > 0 {
        let init = edges.drop_last();
        let e = edges.last();
        lemma_binding_keys_contains(init, parent, key);
        let ks = binding_keys(edges, parent);
        assert(ks == binding_keys(init, parent) + edge_keys(e, parent));
        if ks.contains(key) {
            let j = choose|j: int| 0 <= j < ks.len() && ks[j] == key;
            if j >= binding_keys(init, parent).len() {
                let t = j - binding_keys(init, parent).len();
                assert(edge_keys(e, parent)[t] == key);
                assert(is_binding_from(e, parent));
                assert(e.targets@[t] == NodeId(key.1));
                assert(edges[edges.len() - 1] == e);
            } else {
                assert(binding_keys(init, parent)[j] == key);
                let i = choose|i: int|
                    0 <= i < init.len() && #[trigger] is_binding_from(init[i], parent) && edge_order(init[i]) == key.0
                        && init[i].targets@.contains(NodeId(key.1));
                assert(edges[i] == init[i]);
            }
        }
        if exists|i: int|
            0 <= i < edges.len() && #[trigger] is_binding_from(edges[i], parent) && edge_order(edges[i]) == key.0
                && edges[i].targets@.contains(NodeId(key.1)) {
            let i = choose|i: int|
                0 <= i < edges.len() && #[trigger] is_binding_from(edges[i], parent) && edge_order(edges[i]) == key.0
                    && edges[i].targets@.contains(NodeId(key.1));
            if i == edges.len() - 1 {
                let t = choose|t: int| 0 <= t < e.targets@.len() && e.targets@[t] == NodeId(key.1);
                assert(edge_keys(e, parent)[t] == key);
                assert(ks[binding_keys(init, parent).len() + t] == key);
            } else {
                assert(init[i] == edges[i]);
                assert(binding_keys(init, parent).contains(key));
                let j = choose|j: int| 0 <= j < binding_keys(init, parent).len() && binding_keys(init, parent)[j] == key;
                assert(ks[j] == key);
            }
        }
    }
}


/// The children listed by [`binding_children_spec`] are exactly the Binding children.
pub proof fn lemma_children_contains(g: Graph, a: NodeId, b: NodeId)
    ensures
        binding_children_spec(g, a).contains(b) <==> is_child(g, a, b),
{
    let keys = binding_keys(g.edges@, a);
    lemma_key_order_total();
    keys.lemma_sort_by_ensures(key_order());
    let sorted = keys.sort_by(key_order());
    let kids = binding_children_spec(g, a);
    assert(kids == sorted.map_values(|k: (i64, u64)| NodeId(k.1)));
    if kids.contains(b) {
        let j = choose|j: int| 0 <= j < kids.len() && kids[j] == b;
        let key = sorted[j];
        assert(sorted.to_multiset().count(key) > 0);
        assert(keys.contains(key));
        lemma_binding_keys_contains(g.edges@, a, key);
        let i = choose|i: int|
            0 <= i < g.edges@.len() && #[trigger] is_binding_from(g.edges@[i], a) && edge_order(g.edges@[i]) == key.0
                && g.edges@[i].targets@.contains(NodeId(key.1));
        assert(NodeId(key.1) == b);
    }
    if is_child(g, a, b) {
        let i = choose|i: int|
            0 <= i < g.edges@.len() && #[trigger] is_binding_from(g.edges@[i], a) && g.edges@[i].targets@.contains(b);
        let key = (edge_order(g.edges@[i]), b.0);
        lemma_binding_keys_contains(g.edges@, a, key);
        assert(keys.contains(key));
        assert(keys.to_multiset().count(key) > 0);
        assert(sorted.contains(key));
        let j = choose|j: int| 0 <= j < sorted.len() && sorted[j] == key;
        assert(kids[j] == b);
    }
}


/// Every edge target, edge by edge.
pub open spec fn all_targets(edges: Seq<HyperEdge>) -> Seq<NodeId>
    decreases edges.len(),
{
    if edges.len() == 0 {
        Seq::empty()
    } else {
        all_targets(edges.drop_last()) + edges.last().targets@
    }
}

pub proof fn lemma_all_targets_contains(edges: Seq<HyperEdge>, i: int, t: NodeId)
    requires
        0 <= i < edges.len(),
        edges[i].targets@.contains(t),
    ensures
        all_targets(edges).contains(t),
    decreases edges.len(),
{
    let init = edges.drop_last();
    if i == edges.len() - 1 {
        let k = choose|k: int| 0 <= k < edges[i].targets@.len() && edges[i].targets@[k] == t;
        assert(all_targets(edges)[all_targets(init).len() + k] == t);
    } else {
        assert(init[i] == edges[i]);
        lemma_all_targets_contains(init, i, t);
        let k = choose|k: int| 0 <= k < all_targets(init).len() && all_targets(init)[k] == t;
        assert(all_targets(edges)[k] == t);
    }
}

/// The ids that a walk from `root` can possibly meet.
pub open spec fn candidates(g: Graph, root: NodeId) -> Seq<NodeId> {
    all_targets(g.edges@).push(root)
}

/// A duplicate-free sequence drawn from `t` is no longer than `t`.
pub proof fn lemma_distinct_within(s: Seq<NodeId>, t: Seq<NodeId>)
    requires
        s.no_duplicates(),
        forall|i: int| 0 <= i < s.len() ==> t.contains(#[trigger] s[i]),
    ensures
        s.len() <= t.len(),
{
    s.unique_seq_to_set();
    t.lemma_cardinality_of_set();
    assert(s.to_set().subset_of(t.to_set())) by {
        assert forall|x: NodeId| s.to_set().contains(x) implies t.to_set().contains(x) by {
            let i = choose|i: int| 0 <= i < s.len() && s[i] == x;
        }
    }
    vstd::set_lib::lemma_len_subset(s.to_set(), t.to_set());
}

/// The ids of a walk's entries.
pub open spec fn entry_ids(w: Seq<(NodeId, u64)>) -> Seq<NodeId> {
    w.map_values(|e: (NodeId, u64)| e.0)
}

/// Entry `j` was appended while expanding an earlier entry among the first `h`, one level up.
pub open spec fn has_parent(g: Graph, w: Seq<(NodeId, u64)>, h: int, j: int) -> bool {
    exists|p: int| 0 <= p < j && p < h && w[j].1 == w[p].1 + 1 && #[trigger] is_child(g, w[p].0, w[j].0)
}

/// Facts a breadth-first walk keeps once its first `h` entries have been expanded.
pub open spec fn walk_inv(g: Graph, root: NodeId, w: Seq<(NodeId, u64)>, h: int) -> bool {
    &&& 1 <= w.len()
    &&& 0 <= h <= w.len()
    &&& w[0] == (root, 0u64)
    &&& forall|i: int, j: int| 0 <= i < j < w.len() ==> #[trigger] w[i].0 != #[trigger] w[j].0
    &&& forall|i: int, j: int| 0 <= i <= j < w.len() ==> #[trigger] w[i].1 <= #[trigger] w[j].1
    &&& forall|j: int| 0 <= j < w.len() ==> #[trigger] w[j].1 <= j
    &&& h < w.len() ==> forall|j: int| h <= j < w.len() ==> #[trigger] w[j].1 <= w[h].1 + 1
    &&& forall|j: int| 0 < j < w.len() ==> #[trigger] has_parent(g, w, h, j)
    &&& forall|p: int, c: NodeId|
        0 <= p < h && #[trigger] is_child(g, w[p].0, c) ==> exists|j: int|
            0 <= j < w.len() && w[j].0 == c && #[trigger] w[j].1 <= w[p].1 + 1
}

pub proof fn lemma_walk_len_bound(g: Graph, root: NodeId, w: Seq<(NodeId, u64)>)
    requires
        forall|i: int, j: int| 0 <= i < j < w.len() ==> #[trigger] w[i].0 != #[trigger] w[j].0,
        forall|j: int| 0 <= j < w.len() ==> candidates(g, root).contains(#[trigger] w[j].0),
    ensures
        w.len() <= candidates(g, root).len(),
{
    let ids = entry_ids(w);
    assert forall|i: int, j: int| 0 <= i < ids.len() && 0 <= j < ids.len() && i != j implies ids[i] != ids[j] by {
        if i < j {
            assert(w[i].0 != w[j].0);
        } else {
            assert(w[j].0 != w[i].0);
        }
    }
    assert forall|i: int| 0 <= i < ids.len() implies candidates(g, root).contains(#[trigger] ids[i]) by {
        assert(ids[i] == w[i].0);
    }
    lemma_distinct_within(ids, candidates(g, root));
}

/// Expanding entry `h` (appending its unseen children one level deeper) keeps the walk invariant.
pub proof fn lemma_walk_step(
    g: Graph,
    root: NodeId,
    w0: Seq<(NodeId, u64)>,
    w1: Seq<(NodeId, u64)>,
    h: int,
    kids: Seq<NodeId>,
)
    requires
        walk_inv(g, root, w0, h),
        h < w0.len(),
        kids == binding_children_spec(g, w0[h].0),
        w1.len() >= w0.len(),
        w1.take(w0.len() as int) == w0,
        forall|j: int| w0.len() <= j < w1.len() ==> #[trigger] w1[j].1 == w0[h].1 + 1 && is_child(g, w0[h].0, w1[j].0),
        forall|i: int, j: int| 0 <= i < j < w1.len() ==> #[trigger] w1[i].0 != #[trigger] w1[j].0,
        forall|q: int| 0 <= q < kids.len() ==> exists|j: int| 0 <= j < w1.len() && w1[j].0 == #[trigger] kids[q] && w1[j].1 <= w0[h].1 + 1,
    ensures
        walk_inv(g, root, w1, h + 1),
{
    let u = w0[h].0;
    let d = w0[h].1;
    assert forall|j: int| 0 <= j < w0.len() implies #[trigger] w1[j] == w0[j] by {
        assert(w1.take(w0.len() as int)[j] == w1[j]);
    }
    assert forall|i: int, j: int| 0 <= i <= j < w1.len() implies #[trigger] w1[i].1 <= #[trigger] w1[j].1 by {
        if j < w0.len() {
            assert(w0[i].1 <= w0[j].1);
        } else if i < w0.len() {
            if i < h {
                assert(w0[i].1 <= w0[h].1);
            } else {
                assert(w0[i].1 <= w0[h].1 + 1);
            }
        }
    }
    assert forall|j: int| 0 <= j < w1.len() implies #[trigger] w1[j].1 <= j by {
        if j < w0.len() {
            assert(w0[j].1 <= j);
        } else {
            assert(w0[h].1 <= h);
        }
    }
    if h + 1 < w1.len() {
        assert forall|j: int| h + 1 <= j < w1.len() implies #[trigger] w1[j].1 <= w1[h + 1].1 + 1 by {
            assert(w1[h].1 <= w1[h + 1].1);
            if j < w0.len() {
                assert(w0[j].1 <= w0[h].1 + 1);
            }
        }
    }
    assert forall|j: int| 0 < j < w1.len() implies #[trigger] has_parent(g, w1, h + 1, j) by {
        if j < w0.len() {
            assert(has_parent(g, w0, h, j));
            let p = choose|p: int| 0 <= p < j && p < h && w0[j].1 == w0[p].1 + 1 && #[trigger] is_child(g, w0[p].0, w0[j].0);
            assert(w1[p] == w0[p]);
            assert(w1[j] == w0[j]);
        } else {
            assert(w1[h] == w0[h]);
            assert(w1[j].1 == w0[h].1 + 1 && is_child(g, w0[h].0, w1[j].0));
            assert(is_child(g, w1[h].0, w1[j].0));
        }
    }
    assert forall|p: int, c: NodeId| 0 <= p < h + 1 && #[trigger] is_child(g, w1[p].0, c) implies exists|j: int|
        0 <= j < w1.len() && w1[j].0 == c && #[trigger] w1[j].1 <= w1[p].1 + 1 by {
        assert(w1[p] == w0[p]);
        if p < h {
            let j = choose|j: int| 0 <= j < w0.len() && w0[j].0 == c && #[trigger] w0[j].1 <= w0[p].1 + 1;
            assert(w1[j] == w0[j]);
        } else {
            lemma_children_contains(g, u, c);
            let q = choose|q: int| 0 <= q < kids.len() && kids[q] == c;
            let j = choose|j: int| 0 <= j < w1.len() && w1[j].0 == #[trigger] kids[q] && w1[j].1 <= w0[h].1 + 1;
            assert(w1[j].1 <= w1[p].1 + 1);
        }
    }
}

/// Every entry of a walk lies its recorded depth below the root.
pub proof fn lemma_entry_reaches(g: Graph, root: NodeId, w: Seq<(NodeId, u64)>, h: int, j: int)
    requires
        walk_inv(g, root, w, h),
        0 <= j < w.len(),
    ensures
        reaches_in(g, root, w[j].0, w[j].1 as nat),
    decreases j,
{
    if j == 0 {
        let p = seq![root];
        assert(is_walk(g, p));
    } else {
        assert(has_parent(g, w, h, j));
        let p = choose|p: int| 0 <= p < j && p < h && w[j].1 == w[p].1 + 1 && #[trigger] is_child(g, w[p].0, w[j].0);
        lemma_entry_reaches(g, root, w, h, p);
        let d = w[p].1 as nat;
        let q = choose|q: Seq<NodeId>| q.len() == d + 1 && q[0] == root && q[d as int] == w[p].0 && #[trigger] is_walk(g, q);
        let q2 = q.push(w[j].0);
        assert forall|i: int| 0 <= i < q2.len() - 1 implies #[trigger] step(g, q2, i) by {
            if i < q.len() - 1 {
                assert(step(g, q, i));
            }
        }
        assert(is_walk(g, q2));
    }
}

/// Along any walk from the root, a finished breadth-first walk has already met every node,
/// no deeper than the walk's length.
pub proof fn lemma_walk_covers(g: Graph, root: NodeId, w: Seq<(NodeId, u64)>, q: Seq<NodeId>)
    requires
        walk_inv(g, root, w, w.len() as int),
        q.len() >= 1,
        q[0] == root,
        is_walk(g, q),
    ensures
        exists|j: int| 0 <= j < w.len() && w[j].0 == q.last() && w[j].1 <= q.len() - 1,
    decreases q.len(),
{
    if q.len() == 1 {
        assert(w[0].0 == q.last());
    } else {
        let q1 = q.drop_last();
        assert forall|i: int| 0 <= i < q1.len() - 1 implies #[trigger] step(g, q1, i) by {
            assert(step(g, q, i));
        }
        lemma_walk_covers(g, root, w, q1);
        let j1 = choose|j: int| 0 <= j < w.len() && w[j].0 == q1.last() && w[j].1 <= q1.len() - 1;
        assert(step(g, q, q.len() - 2));
        assert(is_child(g, w[j1].0, q.last()));
        let j = choose|j: int| 0 <= j < w.len() && w[j].0 == q.last() && #[trigger] w[j].1 <= w[j1].1 + 1;
    }
}

/// A finished walk records exact depths and meets every reachable node.
pub proof fn lemma_walk_complete(g: Graph, root: NodeId, w: Seq<(NodeId, u64)>)
    requires
        walk_inv(g, root, w, w.len() as int),
    ensures
        forall|i: int| 0 <= i < w.len() ==> is_distance(g, root, #[trigger] w[i].0, w[i].1 as nat),
        forall|n: NodeId| #[trigger] reachable(g, root, n) ==> exists|i: int| 0 <= i < w.len() && w[i].0 == n,
{
    assert forall|i: int| 0 <= i < w.len() implies is_distance(g, root, #[trigger] w[i].0, w[i].1 as nat) by {
        lemma_entry_reaches(g, root, w, w.len() as int, i);
        assert forall|e: nat| e < w[i].1 as nat implies !#[trigger] reaches_in(g, root, w[i].0, e) by {
            if reaches_in(g, root, w[i].0, e) {
                let q = choose|q: Seq<NodeId>| q.len() == e + 1 && q[0] == root && q[e as int] == w[i].0 && #[trigger] is_walk(g, q);
                lemma_walk_covers(g, root, w, q);
                let j = choose|j: int| 0 <= j < w.len() && w[j].0 == q.last() && w[j].1 <= q.len() - 1;
                if j != i {
                    if j < i {
                        assert(w[j].0 != w[i].0);
                    } else {
                        assert(w[i].0 != w[j].0);
                    }
                }
            }
        }
    }
    assert forall|n: NodeId| #[trigger] reachable(g, root, n) implies exists|i: int| 0 <= i < w.len() && w[i].0 == n by {
        let d = choose|d: nat| #[trigger] reaches_in(g, root, n, d);
        let q = choose|q: Seq<NodeId>| q.len() == d + 1 && q[0] == root && q[d as int] == n && #[trigger] is_walk(g, q);
        lemma_walk_covers(g, root, w, q);
    }
}

/// Whether `id` is among the walk's entries.
fn walk_contains(w: &Vec<(NodeId, u64)>, id: NodeId) -> (r: Option<usize>)
    ensures
        match r {
            Some(j) => j < w@.len() && w@[j as int].0 == id,
            None => forall|j: int| 0 <= j < w@.len() ==> #[trigger] w@[j].0 != id,
        },
{
    let n = w.len();
    let mut i: usize = 0;
    while i < n
        invariant
            n == w@.len(),
            i <= n,
            forall|j: int| 0 <= j < i ==> #[trigger] w@[j].0 != id,
        decreases n - i,
    {
        if w[i].0 == id {
            return Some(i);
        }
        i = i + 1;
    }
    None
}

/// Breadth-first walk down Binding edges from `root`: every node reachable from
/// `root`, once, with its Binding depth, in order of depth.
pub fn binding_walk(graph: &Graph, root: NodeId) -> (w: Vec<(NodeId, u64)>)
    requires
        graph.wf(),
    ensures
        w@.len() >= 1,
        w@[0] == (root, 0u64),
        forall|i: int, j: int| 0 <= i < j < w@.len() ==> #[trigger] w@[i].0 != #[trigger] w@[j].0,
        forall|i: int| 0 <= i < w@.len() ==> is_distance(*graph, root, #[trigger] w@[i].0, w@[i].1 as nat),
        forall|n: NodeId| #[trigger] reachable(*graph, root, n) ==> exists|i: int| 0 <= i < w@.len() && w@[i].0 == n,
{
    let mut w: Vec<(NodeId, u64)> = Vec::new();
    w.push((root, 0u64));
    let mut h: usize = 0;
    let ghost cand = candidates(*graph, root);
    proof {
        assert(cand[cand.len() - 1] == root);
    }
    while h < w.len()
        invariant
            graph.wf(),
            walk_inv(*graph, root, w@, h as int),
            forall|j: int| 0 <= j < w@.len() ==> cand.contains(#[trigger] w@[j].0),
            cand == candidates(*graph, root),
        decreases cand.len() + 1 - h,
    {
        proof {
            lemma_walk_len_bound(*graph, root, w@);
        }
        let u = w[h].0;
        let d = w[h].1;
        let kids = binding_children(graph, u);
        let m = kids.len();
        let mut k: usize = 0;
        let ghost w0 = w@;
        let wlen0 = w.len();
        while k < m
            invariant
                graph.wf(),
                cand == candidates(*graph, root),
                m == kids@.len(),
                kids@ == binding_children_spec(*graph, u),
                k <= m,
                wlen0 == w0.len(),
                h < w0.len(),
                w0[h as int] == (u, d),
                walk_inv(*graph, root, w0, h as int),
                w@.len() >= w0.len(),
                w@.take(w0.len() as int) == w0,
                forall|j: int| w0.len() <= j < w@.len() ==> #[trigger] w@[j].1 == d + 1 && is_child(*graph, u, w@[j].0),
                forall|i: int, j: int| 0 <= i < j < w@.len() ==> #[trigger] w@[i].0 != #[trigger] w@[j].0,
                forall|j: int| 0 <= j < w@.len() ==> cand.contains(#[trigger] w@[j].0),
                forall|q: int| 0 <= q < k ==> exists|j: int| 0 <= j < w@.len() && w@[j].0 == #[trigger] kids@[q] && w@[j].1 <= d + 1,
            decreases m - k,
        {
            let c = kids[k];
            let ghost wprev = w@;
            proof {
                assert(kids@.contains(c));
                lemma_children_contains(*graph, u, c);
            }
            let ghost mut jc: int = 0;
            match walk_contains(&w, c) {
                Some(j) => {
                    proof {
                        jc = j as int;
                        if j < w0.len() {
                            assert(w@[j as int] == w0[j as int]);
                            if (j as int) < (h as int) {
                                assert(w0[j as int].1 <= w0[h as int].1);
                            } else {
                                assert(w0[j as int].1 <= w0[h as int].1 + 1);
                            }
                        }
                    }
                },
                None => {
                    proof {
                        lemma_walk_len_bound(*graph, root, w0);
                        assert(w0[h as int].1 <= h);
                        assert(h < wlen0);
                        let i0 = choose|i: int|
                            0 <= i < graph.edges@.len() && #[trigger] is_binding_from(graph.edges@[i], u) && graph.edges@[i].targets@.contains(c);
                        lemma_all_targets_contains(graph.edges@, i0, c);
                        assert(cand[0 as int] == cand[0 as int]);
                        let kk = choose|kk: int| 0 <= kk < all_targets(graph.edges@).len() && all_targets(graph.edges@)[kk] == c;
                        assert(cand[kk] == c);
                    }
                    let ghost before = w@;
                    w.push((c, d + 1));
                    proof {
                        jc = before.len() as int;
                        assert(w@.take(w0.len() as int) =~= before.take(w0.len() as int));
                        assert forall|j: int| 0 <= j < w@.len() implies cand.contains(#[trigger] w@[j].0) by {
                            if j < before.len() {
                                assert(w@[j] == before[j]);
                            } else {
                                let kk = choose|kk: int| 0 <= kk < cand.len() && cand[kk] == c;
                            }
                        }
                    }
                },
            }
            proof {
                assert forall|q: int| 0 <= q < k + 1 implies exists|j: int|
                    0 <= j < w@.len() && w@[j].0 == #[trigger] kids@[q] && w@[j].1 <= d + 1 by {
                    if q == k {
                        let j = jc;
                        assert(w@[j].0 == c);
                        if j >= w0.len() {
                            assert(w@[j].1 == d + 1);
                        } else {
                            assert(w@[j] == w0[j]);
                            if j < h {
                                assert(w0[j].1 <= w0[h as int].1);
                            } else {
                                assert(w0[j].1 <= w0[h as int].1 + 1);
                            }
                        }
                    } else {
                        let j = choose|j: int| 0 <= j < wprev.len() && wprev[j].0 == #[trigger] kids@[q] && wprev[j].1 <= d + 1;
                        assert(w@.len() >= wprev.len());
                        assert(w@[j] == wprev[j]);
                    }
                }
            }
            k = k + 1;
        }
        proof {
            lemma_walk_step(*graph, root, w0, w@, h as int, kids@);
        }
        h = h + 1;
    }
    proof {
        lemma_walk_complete(*graph, root, w@);
    }
    w
}


pub proof fn lemma_distance_unique(g: Graph, root: NodeId, n: NodeId, d: nat)
    requires
        is_distance(g, root, n, d),
    ensures
        distance(g, root, n) == d,
{
    let e = distance(g, root, n);
    assert(is_distance(g, root, n, e));
    if e < d {
        assert(!reaches_in(g, root, n, e));
    } else if d < e {
        assert(!reaches_in(g, root, n, d));
    }
}

/// The cached `"tier"` of every node reachable from `root` is its Binding depth.
pub open spec fn tiers_consistent_spec(g: Graph, root: NodeId) -> bool {
    forall|n: NodeId| #[trigger] reachable(g, root, n) ==> g.has_node(n)
        && g.nodes@[g.node_index(n)].props.get_spec("tier"@) == Some(PropValueView::I64(distance(g, root, n) as i64))
}

/// `after` is `before` with its `"tier"` set to `tier` and nothing else changed.
pub open spec fn with_tier(before: Node, after: Node, tier: i64) -> bool {
    &&& after.id == before.id
    &&& after.space_class == before.space_class
    &&& after.label == before.label
    &&& after.props.wf()
    &&& after.props.get_spec("tier"@) == Some(PropValueView::I64(tier))
    &&& forall|k: Seq<char>| k != "tier"@ ==> #[trigger] after.props.get_spec(k) == before.props.get_spec(k)
}

/// Breadth-first walk from `root` over Binding edges, writing each reached node's
/// depth as its `"tier"`.
pub fn derive_tiers(graph: &mut Graph, root: NodeId)
    requires
        old(graph).wf(),
    ensures
        final(graph).wf(),
        final(graph).edges@ == old(graph).edges@,
        final(graph).next_node_id == old(graph).next_node_id,
        final(graph).next_edge_id == old(graph).next_edge_id,
        final(graph).nodes@.len() == old(graph).nodes@.len(),
        forall|i: int| 0 <= i < old(graph).nodes@.len() ==> {
            let id = old(graph).nodes@[i].id;
            if reachable(*old(graph), root, id) {
                with_tier(old(graph).nodes@[i], #[trigger] final(graph).nodes@[i], distance(*old(graph), root, id) as i64)
            } else {
                final(graph).nodes@[i] == old(graph).nodes@[i]
            }
        },
        (forall|n: NodeId| #[trigger] reachable(*old(graph), root, n) ==> old(graph).has_node(n))
            ==> tiers_consistent_spec(*final(graph), root),
{
    let ghost g0 = *graph;
    let walk = binding_walk(graph, root);
    let n = walk.len();
    let mut k: usize = 0;
    while k < n
        invariant
            graph.wf(),
            n == walk@.len(),
            k <= n,
            graph.edges@ == g0.edges@,
            graph.next_node_id == g0.next_node_id,
            graph.next_edge_id == g0.next_edge_id,
            graph.nodes@.len() == g0.nodes@.len(),
            forall|i: int, j: int| 0 <= i < j < walk@.len() ==> #[trigger] walk@[i].0 != #[trigger] walk@[j].0,
            forall|i: int| 0 <= i < g0.nodes@.len() ==> (#[trigger] graph.nodes@[i]).id == g0.nodes@[i].id,
            forall|i: int, j: int| 0 <= i < g0.nodes@.len() && 0 <= j < k && walk@[j].0 == g0.nodes@[i].id
                ==> with_tier(g0.nodes@[i], #[trigger] graph.nodes@[i], #[trigger] walk@[j].1 as i64),
            forall|i: int| 0 <= i < g0.nodes@.len() && (forall|j: int| 0 <= j < k ==> walk@[j].0 != g0.nodes@[i].id)
                ==> #[trigger] graph.nodes@[i] == g0.nodes@[i],
        decreases n - k,
    {
        let (id, d) = walk[k];
        let ghost gb = *graph;
        graph.set_node_prop(id, String::from_str("tier"), PropValue::I64(d as i64));
        assert forall|i: int| 0 <= i < g0.nodes@.len() implies (#[trigger] graph.nodes@[i]).id == g0.nodes@[i].id by {
            assert(gb.nodes@[i].id == g0.nodes@[i].id);
        }
        assert forall|i: int, j: int| 0 <= i < g0.nodes@.len() && 0 <= j < k + 1 && walk@[j].0 == g0.nodes@[i].id
            implies with_tier(g0.nodes@[i], #[trigger] graph.nodes@[i], #[trigger] walk@[j].1 as i64) by {
            assert(gb.nodes@[i].id == g0.nodes@[i].id);
            if j == k {
                assert(gb.nodes@[i].props.wf());
                assert(graph.nodes@[i].props.wf());
                if forall|jj: int| 0 <= jj < k ==> walk@[jj].0 != g0.nodes@[i].id {
                    assert(gb.nodes@[i] == g0.nodes@[i]);
                } else {
                    let jj = choose|jj: int| 0 <= jj < k && walk@[jj].0 == g0.nodes@[i].id;
                    assert(walk@[jj].0 != walk@[k as int].0);
                }
            } else {
                assert(walk@[j].0 != walk@[k as int].0);
                assert(graph.nodes@[i] == gb.nodes@[i]);
            }
        }
        assert forall|i: int| 0 <= i < g0.nodes@.len() && (forall|j: int| 0 <= j < k + 1 ==> walk@[j].0 != g0.nodes@[i].id)
            implies #[trigger] graph.nodes@[i] == g0.nodes@[i] by {
            assert(walk@[k as int].0 != g0.nodes@[i].id);
            assert(gb.nodes@[i].id == g0.nodes@[i].id);
        }
        k = k + 1;
    }
    proof {
        assert forall|i: int| 0 <= i < g0.nodes@.len() implies {
            let id = g0.nodes@[i].id;
            if reachable(g0, root, id) {
                with_tier(g0.nodes@[i], #[trigger] graph.nodes@[i], distance(g0, root, id) as i64)
            } else {
                graph.nodes@[i] == g0.nodes@[i]
            }
        } by {
            let id = g0.nodes@[i].id;
            if reachable(g0, root, id) {
                let j = choose|j: int| 0 <= j < walk@.len() && walk@[j].0 == id;
                assert(is_distance(g0, root, walk@[j].0, walk@[j].1 as nat));
                lemma_distance_unique(g0, root, id, walk@[j].1 as nat);
                assert(with_tier(g0.nodes@[i], graph.nodes@[i], walk@[j].1 as i64));
            } else {
                assert forall|j: int| 0 <= j < n implies walk@[j].0 != id by {
                    if walk@[j].0 == id {
                        assert(is_distance(g0, root, walk@[j].0, walk@[j].1 as nat));
                        assert(reaches_in(g0, root, id, walk@[j].1 as nat));
                    }
                }
            }
        }
        if forall|m: NodeId| #[trigger] reachable(g0, root, m) ==> g0.has_node(m) {
            assert forall|m: NodeId| #[trigger] reachable(*graph, root, m) implies graph.has_node(m)
                && graph.nodes@[graph.node_index(m)].props.get_spec("tier"@) == Some(
                PropValueView::I64(distance(*graph, root, m) as i64),
            ) by {
                lemma_same_edges_same_walks(g0, *graph, root, m);
                let j = choose|j: int| 0 <= j < walk@.len() && walk@[j].0 == m;
                assert(is_distance(g0, root, m, walk@[j].1 as nat));
                lemma_distance_unique(g0, root, m, walk@[j].1 as nat);
                assert(is_distance(*graph, root, m, walk@[j].1 as nat));
                lemma_distance_unique(*graph, root, m, walk@[j].1 as nat);
                let i = g0.node_index(m);
                assert(g0.nodes@[i].id == m);
                assert(graph.nodes@[i].id == m);
                graph.lemma_node_index(i);
                assert(with_tier(g0.nodes@[i], graph.nodes@[i], distance(g0, root, m) as i64));
            }
        }
    }
}

/// Reachability and depth depend only on the edges.
pub proof fn lemma_same_edges_same_walks(g1: Graph, g2: Graph, root: NodeId, n: NodeId)
    requires
        g1.edges@ == g2.edges@,
    ensures
        reachable(g1, root, n) == reachable(g2, root, n),
        forall|d: nat| #[trigger] is_distance(g1, root, n, d) == is_distance(g2, root, n, d),
{
    assert forall|a: NodeId, b: NodeId| is_child(g1, a, b) == is_child(g2, a, b) by {}
    assert forall|p: Seq<NodeId>| is_walk(g1, p) == is_walk(g2, p) by {
        assert forall|i: int| step(g1, p, i) == step(g2, p, i) by {}
    }
    assert forall|d: nat| reaches_in(g1, root, n, d) == reaches_in(g2, root, n, d) by {}
    assert forall|d: nat| is_distance(g1, root, n, d) == is_distance(g2, root, n, d) by {}
    assert(reachable(g1, root, n) == reachable(g2, root, n));
}

/// Tier consistency as an assertion: callers must establish it, and the tiers are
/// still re-walked to confirm it.
pub fn assert_tier_consistency(graph: &Graph, root: NodeId)
    requires
        graph.wf(),
        tiers_consistent_spec(*graph, root),
{
    let ok = tiers_consistent(graph, root);
    assert(ok);
}

/// Re-walk Binding depth from `root` and check every cached `"tier"` against it;
/// `false` when a reached id has no node or a node's tier differs.
pub fn tiers_consistent(graph: &Graph, root: NodeId) -> (ok: bool)
    requires
        graph.wf(),
    ensures
        ok == tiers_consistent_spec(*graph, root),
{
    let walk = binding_walk(graph, root);
    let n = walk.len();
    let mut k: usize = 0;
    while k < n
        invariant
            graph.wf(),
            n == walk@.len(),
            k <= n,
            forall|i: int| 0 <= i < walk@.len() ==> is_distance(*graph, root, #[trigger] walk@[i].0, walk@[i].1 as nat),
            forall|m: NodeId| #[trigger] reachable(*graph, root, m) ==> exists|i: int| 0 <= i < walk@.len() && walk@[i].0 == m,
            forall|j: int| 0 <= j < k ==> graph.has_node(#[trigger] walk@[j].0)
                && graph.nodes@[graph.node_index(walk@[j].0)].props.get_spec("tier"@) == Some(
                PropValueView::I64(walk@[j].1 as i64),
            ),
        decreases n - k,
    {
        let (id, d) = walk[k];
        proof {
            assert(is_distance(*graph, root, id, d as nat));
            lemma_distance_unique(*graph, root, id, d as nat);
        }
        match graph.find_node(id) {
            None => {
                assert(reaches_in(*graph, root, id, d as nat));
                assert(reachable(*graph, root, id));
                return false;
            },
            Some(i) => {
                proof {
                    graph.lemma_node_index(i as int);
                }
                let ok = match graph.nodes[i].props.get("tier") {
                    Some(PropValue::I64(v)) => *v == d as i64,
                    _ => false,
                };
                if !ok {
                    assert(reaches_in(*graph, root, id, d as nat));
                    assert(reachable(*graph, root, id));
                    assert(graph.nodes@[graph.node_index(id)].props.get_spec("tier"@) != Some(
                        PropValueView::I64(distance(*graph, root, id) as i64),
                    ));
                    return false;
                }
            },
        }
        k = k + 1;
    }
    proof {
        assert forall|m: NodeId| #[trigger] reachable(*graph, root, m) implies graph.has_node(m)
            && graph.nodes@[graph.node_index(m)].props.get_spec("tier"@) == Some(
            PropValueView::I64(distance(*graph, root, m) as i64),
        ) by {
            let j = choose|j: int| 0 <= j < walk@.len() && walk@[j].0 == m;
            lemma_distance_unique(*graph, root, m, walk@[j].1 as nat);
        }
    }
    true
}

} // verus!



