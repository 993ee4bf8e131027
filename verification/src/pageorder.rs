//! Keeping the page cache in the order of the workspace's Binding children.

use crate::containers::{binding_children, binding_children_spec};
use crate::graph::{Graph, NodeId};
use crate::pagetree::{PageNode, PageTree};
use vstd::prelude::*;

verus! {

broadcast use vstd::seq_lib::group_to_multiset_ensures, vstd::multiset::group_multiset_axioms;

/// Index of the last occurrence of `x` in `kids`.
pub open spec fn last_index(kids: Seq<NodeId>, x: NodeId) -> Option<int>
    decreases kids.len(),
{
    if kids.len() == 0 {
        None
    } else if kids.last() == x {
        Some(kids.len() - 1)
    } else {
        last_index(kids.drop_last(), x)
    }
}

/// Spacing between two Binding positions in a page's sort key: room for every page id.
pub open spec fn key_stride() -> int {
    0x1_0000_0000
}

/// The page's sort key: its position among the Binding children, then its page id;
/// every page without a Binding has the same key, `usize::MAX` positions on.
pub open spec fn page_key(kids: Seq<NodeId>, p: PageNode) -> int {
    match last_index(kids, p.node_id) {
        Some(i) => i * key_stride() + p.id.0,
        None => usize::MAX as int * key_stride(),
    }
}

/// The page has no Binding under the workspace.
pub open spec fn unbound(kids: Seq<NodeId>) -> spec_fn(PageNode) -> bool {
    |p: PageNode| last_index(kids, p.node_id) is None
}

/// Index of the first page with the smallest key.
pub open spec fn first_min(ps: Seq<PageNode>, kids: Seq<NodeId>) -> int
    decreases ps.len(),
{
    if ps.len() <= 1 {
        0
    } else {
        let m = first_min(ps.drop_last(), kids);
        if page_key(kids, ps.last()) < page_key(kids, ps[m]) {
            ps.len() - 1
        } else {
            m
        }
    }
}

pub proof fn lemma_first_min(ps: Seq<PageNode>, kids: Seq<NodeId>)
    requires
        ps.len() > 0,
    ensures
        0 <= first_min(ps, kids) < ps.len(),
        forall|j: int| 0 <= j < ps.len() ==> page_key(kids, #[trigger] ps[j]) >= page_key(kids, ps[first_min(ps, kids)]),
        forall|j: int| 0 <= j < first_min(ps, kids) ==> page_key(kids, #[trigger] ps[j]) > page_key(kids, ps[first_min(ps, kids)]),
    decreases ps.len(),
{
    if ps.len() > 1 {
        let t = ps.drop_last();
        lemma_first_min(t, kids);
        let m = first_min(t, kids);
        let mm = first_min(ps, kids);
        assert(t[m] == ps[m]);
        assert forall|j: int| 0 <= j < ps.len() implies page_key(kids, #[trigger] ps[j]) >= page_key(kids, ps[mm]) by {
            if j < t.len() {
                assert(t[j] == ps[j]);
                assert(page_key(kids, t[j]) >= page_key(kids, t[m]));
            }
        }
        assert forall|j: int| 0 <= j < mm implies page_key(kids, #[trigger] ps[j]) > page_key(kids, ps[mm]) by {
            assert(t[j] == ps[j]);
            if mm == m {
                assert(page_key(kids, t[j]) > page_key(kids, t[m]));
            } else {
                assert(page_key(kids, t[j]) >= page_key(kids, t[m]));
            }
        }
    }
}

/// Pages ordered by key, smallest first; among equal keys the earlier page first.
pub open spec fn synced_order(ps: Seq<PageNode>, kids: Seq<NodeId>) -> Seq<PageNode>
    decreases ps.len(),
{
    if ps.len() == 0 {
        Seq::empty()
    } else {
        let m = first_min(ps, kids);
        proof {
            lemma_first_min(ps, kids);
        }
        seq![ps[m]] + synced_order(ps.remove(m), kids)
    }
}

/// Reorder the page cache to the workspace's Binding child order; pages bound at the
/// same position come in page-id order. Pages without a matching Binding go last,
/// keeping their current relative order.
pub fn sync_page_order_from_bindings(graph: &Graph, workspace_node: NodeId, tree: &mut PageTree)
    requires
        graph.wf(),
    ensures
        final(tree).pages@ == synced_order(old(tree).pages@, binding_children_spec(*graph, workspace_node)),
{
    let kids = binding_children(graph, workspace_node);
    let ghost orig = tree.pages@;
    let mut rest: Vec<PageNode> = Vec::new();
    std::mem::swap(&mut rest, &mut tree.pages);
    let mut keys: Vec<u128> = Vec::new();
    let n = rest.len();
    let mut i: usize = 0;
    while i < n
        invariant
            n == rest@.len(),
            i <= n,
            keys@.len() == i,
            forall|k: int| 0 <= k < i ==> keys@[k] == page_key(kids@, #[trigger] rest@[k]),
        decreases n - i,
    {
        let pos = position_of(&kids, rest[i].node_id);
        let ghost li = last_index(kids@, rest@[i as int].node_id);
        proof {
            lemma_last_index_bound(kids@, rest@[i as int].node_id);
            assert(kids@.len() == kids.len());
            if li is Some {
                assert(pos == li->0);
                assert(pos < usize::MAX);
            } else {
                assert(pos == usize::MAX);
            }
        }
        let key: u128 = if pos == usize::MAX {
            (usize::MAX as u128) * 0x1_0000_0000
        } else {
            (pos as u128) * 0x1_0000_0000 + (rest[i].id.0 as u128)
        };
        assert(key == page_key(kids@, rest@[i as int]));
        keys.push(key);
        i = i + 1;
    }
    let mut out: Vec<PageNode> = Vec::new();
    while rest.len() > 0
        invariant
            keys@.len() == rest@.len(),
            forall|k: int| 0 <= k < rest@.len() ==> keys@[k] == page_key(kids@, #[trigger] rest@[k]),
            out@ + synced_order(rest@, kids@) == synced_order(orig, kids@),
        decreases rest@.len(),
    {
        let m = first_min_index(&keys, Ghost(rest@), Ghost(kids@));
        proof {
            lemma_first_min(rest@, kids@);
        }
        let ghost before = rest@;
        let page = rest.remove(m);
        keys.remove(m);
        proof {
            assert(synced_order(before, kids@) == seq![before[m as int]] + synced_order(before.remove(m as int), kids@));
            assert(out@.push(page) + synced_order(rest@, kids@) == out@ + synced_order(before, kids@));
        }
        out.push(page);
    }
    assert(synced_order(rest@, kids@) == Seq::<PageNode>::empty());
    assert(out@ == synced_order(orig, kids@));
    tree.pages = out;
}

/// Position of the last occurrence of `x` in `kids`, or `usize::MAX`.
fn position_of(kids: &Vec<NodeId>, x: NodeId) -> (r: usize)
    ensures
        r == match last_index(kids@, x) {
            Some(i) => i,
            None => usize::MAX as int,
        },
{
    let mut i: usize = kids.len();
    assert(kids@.take(i as int) == kids@);
    while i > 0
        invariant
            i <= kids@.len(),
            last_index(kids@, x) == last_index(kids@.take(i as int), x),
        decreases i,
    {
        let ghost t = kids@.take(i as int);
        assert(t.drop_last() == kids@.take(i - 1));
        if kids[i - 1] == x {
            return i - 1;
        }
        i = i - 1;
    }
    usize::MAX
}

/// Index of the first smallest key; the keys are those of `ps`.
fn first_min_index(keys: &Vec<u128>, Ghost(ps): Ghost<Seq<PageNode>>, Ghost(kids): Ghost<Seq<NodeId>>) -> (m: usize)
    requires
        keys@.len() == ps.len(),
        ps.len() > 0,
        forall|k: int| 0 <= k < ps.len() ==> keys@[k] == page_key(kids, #[trigger] ps[k]),
    ensures
        m == first_min(ps, kids),
{
    let n = keys.len();
    let mut best: usize = 0;
    let mut i: usize = 1;
    assert(ps.take(1).len() == 1);
    while i < n
        invariant
            n == keys@.len(),
            n == ps.len(),
            1 <= i <= n,
            forall|k: int| 0 <= k < ps.len() ==> keys@[k] == page_key(kids, #[trigger] ps[k]),
            best == first_min(ps.take(i as int), kids),
            best < i,
        decreases n - i,
    {
        let ghost t = ps.take(i + 1);
        assert(t.drop_last() == ps.take(i as int));
        assert(t.last() == ps[i as int]);
        assert(t[best as int] == ps[best as int]);
        if keys[i] < keys[best] {
            best = i;
        }
        i = i + 1;
    }
    assert(ps.take(n as int) == ps);
    best
}

/// Syncing holds exactly the pages it was given.
pub proof fn lemma_synced_order_permutes(ps: Seq<PageNode>, kids: Seq<NodeId>)
    ensures
        synced_order(ps, kids).to_multiset() == ps.to_multiset(),
    decreases ps.len(),
{
    if ps.len() > 0 {
        lemma_first_min(ps, kids);
        let m = first_min(ps, kids);
        lemma_synced_order_permutes(ps.remove(m), kids);
        vstd::seq_lib::lemma_multiset_commutative(seq![ps[m]], synced_order(ps.remove(m), kids));
        assert(seq![ps[m]].to_multiset() == vstd::multiset::Multiset::<PageNode>::empty().insert(ps[m])) by {
            assert(seq![ps[m]] == Seq::<PageNode>::empty().push(ps[m]));
        }
    }
}

/// After syncing, pages come in non-decreasing position order: Bound pages in
/// Binding order, then the pages without a Binding.
pub proof fn lemma_synced_order_sorted(ps: Seq<PageNode>, kids: Seq<NodeId>)
    ensures
        forall|i: int, j: int|
            0 <= i < j < synced_order(ps, kids).len() ==> page_key(kids, #[trigger] synced_order(ps, kids)[i]) <= page_key(
                kids,
                #[trigger] synced_order(ps, kids)[j],
            ),
    decreases ps.len(),
{
    if ps.len() > 0 {
        lemma_first_min(ps, kids);
        let m = first_min(ps, kids);
        let rest = ps.remove(m);
        let tail = synced_order(rest, kids);
        lemma_synced_order_sorted(rest, kids);
        lemma_synced_order_permutes(rest, kids);
        let out = synced_order(ps, kids);
        assert(out == seq![ps[m]] + tail);
        assert forall|i: int, j: int| 0 <= i < j < out.len() implies page_key(kids, #[trigger] out[i]) <= page_key(
            kids,
            #[trigger] out[j],
        ) by {
            if i == 0 {
                let y = out[j];
                assert(y == tail[j - 1]);
                assert(tail.contains(y));
                assert(tail.to_multiset().count(y) > 0);
                assert(rest.contains(y));
                let k = choose|k: int| 0 <= k < rest.len() && rest[k] == y;
                let kk = if k < m { k } else { k + 1 };
                assert(ps[kk] == y);
            } else {
                assert(out[i] == tail[i - 1]);
                assert(out[j] == tail[j - 1]);
            }
        }
    }
}

/// Pages without a Binding keep their relative order.
pub proof fn lemma_synced_order_keeps_unbound(ps: Seq<PageNode>, kids: Seq<NodeId>)
    requires
        kids.len() < usize::MAX,
    ensures
        synced_order(ps, kids).filter(unbound(kids)) == ps.filter(unbound(kids)),
    decreases ps.len(),
{
    broadcast use vstd::seq_lib::group_seq_lib_default;

    if ps.len() > 0 {
        lemma_first_min(ps, kids);
        let m = first_min(ps, kids);
        let rest = ps.remove(m);
        lemma_synced_order_keeps_unbound(rest, kids);
        let p = unbound(kids);
        seq![ps[m]].lemma_filter_len(p);
        assert(synced_order(ps, kids) == seq![ps[m]] + synced_order(rest, kids));
        assert(ps == ps.subrange(0, m) + seq![ps[m]] + ps.subrange(m + 1, ps.len() as int));
        assert(rest == ps.subrange(0, m) + ps.subrange(m + 1, ps.len() as int));
        if last_index(kids, ps[m].node_id) is None {
            lemma_last_index_bound(kids, ps[0].node_id);
            assert(page_key(kids, ps[0]) <= page_key(kids, ps[m]));
            assert(m == 0) by {
                if m > 0 {
                    assert(page_key(kids, ps[0]) > page_key(kids, ps[m]));
                }
            }
            assert(p(ps[m]));
            let e = Seq::<PageNode>::empty();
            e.lemma_filter_prepend(ps[m], p);
            e.lemma_filter_len(p);
            assert(seq![ps[m]] + e == seq![ps[m]]);
            assert(seq![ps[m]].filter(p) == seq![ps[m]]);
        } else {
            assert(!p(ps[m]));
            let e = Seq::<PageNode>::empty();
            e.lemma_filter_prepend(ps[m], p);
            e.lemma_filter_len(p);
            assert(seq![ps[m]] + e == seq![ps[m]]);
            assert(seq![ps[m]].filter(p) == Seq::<PageNode>::empty());
        }
    }
}

proof fn lemma_last_index_bound(kids: Seq<NodeId>, x: NodeId)
    ensures
        match last_index(kids, x) {
            Some(i) => 0 <= i < kids.len(),
            None => true,
        },
    decreases kids.len(),
{
    if kids.len() > 0 {
        lemma_last_index_bound(kids.drop_last(), x);
    }
}

/// In a list of distinct nodes, a node's last occurrence is its only one.
proof fn lemma_last_index_distinct(kids: Seq<NodeId>, k: int)
    requires
        0 <= k < kids.len(),
        forall|i: int, j: int| 0 <= i < kids.len() && 0 <= j < kids.len() && i != j ==> kids[i] != kids[j],
    ensures
        last_index(kids, kids[k]) == Some(k),
    decreases kids.len(),
{
    if kids.last() != kids[k] {
        let t = kids.drop_last();
        assert(t[k] == kids[k]);
        lemma_last_index_distinct(t, k);
    }
}

/// With keys strictly ascending along the list, the first smallest key is the first.
proof fn lemma_first_min_ascending(ps: Seq<PageNode>, kids: Seq<NodeId>)
    requires
        forall|i: int, j: int| 0 <= i < j < ps.len() ==> page_key(kids, #[trigger] ps[i]) < page_key(kids, #[trigger] ps[j]),
    ensures
        first_min(ps, kids) == 0,
    decreases ps.len(),
{
    if ps.len() > 1 {
        let t = ps.drop_last();
        assert forall|i: int, j: int| 0 <= i < j < t.len() implies page_key(kids, #[trigger] t[i]) < page_key(kids, #[trigger] t[j]) by {
            assert(t[i] == ps[i] && t[j] == ps[j]);
        }
        lemma_first_min_ascending(t, kids);
        assert(t[0] == ps[0]);
        assert(page_key(kids, ps[0]) < page_key(kids, ps[ps.len() - 1]));
    }
}

/// With keys strictly ascending along the list, syncing keeps the list as it is.
proof fn lemma_synced_order_ascending(ps: Seq<PageNode>, kids: Seq<NodeId>)
    requires
        forall|i: int, j: int| 0 <= i < j < ps.len() ==> page_key(kids, #[trigger] ps[i]) < page_key(kids, #[trigger] ps[j]),
    ensures
        synced_order(ps, kids) == ps,
    decreases ps.len(),
{
    if ps.len() > 0 {
        lemma_first_min_ascending(ps, kids);
        let rest = ps.remove(0);
        assert forall|i: int, j: int| 0 <= i < j < rest.len() implies page_key(kids, #[trigger] rest[i]) < page_key(kids, #[trigger] rest[j]) by {
            assert(rest[i] == ps[i + 1] && rest[j] == ps[j + 1]);
        }
        lemma_synced_order_ascending(rest, kids);
        assert(seq![ps[0]] + rest =~= ps);
    }
}

/// Re-sorting a cache that is already bound in order changes nothing: when the
/// workspace's Binding children are the cache's page nodes, in cache order and pairwise
/// distinct (as a dual write leaves them), syncing keeps every page where it is.
pub proof fn lemma_resync_after_write_is_identity(g: Graph, workspace_node: NodeId, tree: PageTree)
    requires
        crate::components::binding_parity_spec(g, workspace_node, tree),
        crate::pagetree::pages_apart(tree.pages@, workspace_node),
    ensures
        synced_order(tree.pages@, binding_children_spec(g, workspace_node)) == tree.pages@,
{
    let ps = tree.pages@;
    let kids = binding_children_spec(g, workspace_node);
    assert(kids == crate::pagetree::page_nodes(tree));
    assert forall|i: int, j: int| 0 <= i < kids.len() && 0 <= j < kids.len() && i != j implies kids[i] != kids[j] by {
        assert(kids[i] == ps[i].node_id && kids[j] == ps[j].node_id);
    }
    assert forall|i: int, j: int| 0 <= i < j < ps.len() implies page_key(kids, #[trigger] ps[i]) < page_key(kids, #[trigger] ps[j]) by {
        assert(kids[i] == ps[i].node_id && kids[j] == ps[j].node_id);
        lemma_last_index_distinct(kids, i);
        lemma_last_index_distinct(kids, j);
    }
    lemma_synced_order_ascending(ps, kids);
}

/// Re-sorting pages right after a dual write changes nothing: when the write
/// conditions held before the write (as the dual write's contract states, parity
/// then follows), syncing the written cache by its Binding order keeps every page where
/// it is.
pub proof fn lemma_dual_write_then_resync(g0: Graph, t0: PageTree, g1: Graph, t1: PageTree, workspace_node: NodeId)
    requires
        crate::pagetree::write_conditions(g0, t0.pages@, workspace_node),
        crate::pagetree::write_conditions(g0, t0.pages@, workspace_node) ==> crate::pagetree::pages_apart(
            t1.pages@,
            workspace_node,
        ) && crate::components::binding_parity_spec(g1, workspace_node, t1),
    ensures
        synced_order(t1.pages@, binding_children_spec(g1, workspace_node)) == t1.pages@,
{
    lemma_resync_after_write_is_identity(g1, workspace_node, t1);
}

} // verus!
