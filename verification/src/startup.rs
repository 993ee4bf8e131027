//! Bringing the shell up: the restored (or seeded) workspaces are bound under the
//! app root, the Home dashboard gets one navigation Signal per launchable
//! workspace, and the focus chain starts at the active workspace.

use crate::containers::{
    bind_workspaces_to_root, binding_children_spec, binding_keys, edge_keys, is_fresh_nav, nav_kept,
    nav_target, sole_parent, wire_home_nav_signals,
};
use crate::graph::{EdgeKind, Graph, HyperEdge, NodeId};
use crate::shell::{
    find_open_id, home_open_id, is_first_shown, is_first_with_node, is_first_with_open_id, open_target, open_target_index, startup_chain,
    startup_focus, Shell, ShellWorkspace,
};
use vstd::prelude::*;

verus! {

/// Index of the first workspace opened from `o`.
pub open spec fn first_open(ws: Seq<ShellWorkspace>, o: Seq<char>) -> Option<int> {
    if exists|i: int| is_first_with_open_id(ws, o, i) {
        Some(choose|i: int| is_first_with_open_id(ws, o, i))
    } else {
        None
    }
}

/// Navigation targets for the open ids `ids`: the node of the first workspace
/// opened from each id, where there is one, with the id as label.
pub open spec fn nav_pairs(ws: Seq<ShellWorkspace>, ids: Seq<Seq<char>>) -> Seq<(NodeId, Seq<char>)>
    decreases ids.len(),
{
    if ids.len() == 0 {
        Seq::empty()
    } else {
        nav_pairs(ws, ids.drop_last()) + match first_open(ws, ids.last()) {
            Some(i) => seq![(ws[i].node_id, ids.last())],
            None => Seq::empty(),
        }
    }
}

/// The focus chain starts at workspace `k`: the first shown one, or the first one
/// when none is shown.
pub open spec fn focus_starts_at(ws: Seq<ShellWorkspace>, focus: Seq<crate::shell::FocusItem>, k: int) -> bool {
    &&& is_first_shown(ws, k) || (k == 0 && forall|j: int|
        0 <= j < ws.len() ==> (#[trigger] ws[j]).intent != crate::overrides::Visibility::Shown)
    &&& focus == startup_chain(ws[k])
}

/// No two workspaces share a graph node.
pub open spec fn nodes_distinct(ws: Seq<ShellWorkspace>) -> bool {
    forall|i: int, j: int| 0 <= i < j < ws.len() ==> (#[trigger] ws[i]).node_id != (#[trigger] ws[j]).node_id
}

/// No text occurs twice.
pub open spec fn texts_distinct(ids: Seq<Seq<char>>) -> bool {
    forall|i: int, j: int| 0 <= i < j < ids.len() ==> ids[i] != ids[j]
}

proof fn lemma_first_open(ws: Seq<ShellWorkspace>, o: Seq<char>, i: int)
    requires
        is_first_with_open_id(ws, o, i),
    ensures
        first_open(ws, o) == Some(i),
{
    let c = choose|c: int| is_first_with_open_id(ws, o, c);
    if c < i {
        assert(ws[c].open_id@ != o);
    } else if c > i {
        assert(ws[i].open_id@ != o);
    }
}

/// The pairs' labels are among `ids` and, when `ids` are distinct, distinct too; an
/// id with a workspace has its pair.
proof fn lemma_nav_pairs(ws: Seq<ShellWorkspace>, ids: Seq<Seq<char>>)
    ensures
        forall|k: int| 0 <= k < nav_pairs(ws, ids).len() ==> ids.contains(#[trigger] nav_pairs(ws, ids)[k].1),
        forall|k: int| 0 <= k < nav_pairs(ws, ids).len() ==> first_open(ws, (#[trigger] nav_pairs(ws, ids)[k]).1) is Some
            && nav_pairs(ws, ids)[k].0 == ws[first_open(ws, nav_pairs(ws, ids)[k].1)->0].node_id,
        texts_distinct(ids) ==> forall|a: int, b: int|
            0 <= a < b < nav_pairs(ws, ids).len() ==> (#[trigger] nav_pairs(ws, ids)[a]).1 != (#[trigger] nav_pairs(ws, ids)[b]).1,
        forall|o: Seq<char>|
            ids.contains(o) && #[trigger] first_open(ws, o) is Some ==> exists|k: int|
                0 <= k < nav_pairs(ws, ids).len() && #[trigger] nav_pairs(ws, ids)[k].1 == o,
    decreases ids.len(),
{
    if ids.len() > 0 {
        let init = ids.drop_last();
        lemma_nav_pairs(ws, init);
        let p0 = nav_pairs(ws, init);
        let p = nav_pairs(ws, ids);
        let last = ids.last();
        assert forall|k: int| 0 <= k < p.len() implies ids.contains(#[trigger] p[k].1) by {
            if k < p0.len() {
                assert(p[k] == p0[k]);
                let j = choose|j: int| 0 <= j < init.len() && init[j] == p0[k].1;
                assert(ids[j] == init[j]);
            } else {
                assert(p[k].1 == last);
                assert(ids[ids.len() - 1] == last);
            }
        }
        assert forall|k: int| 0 <= k < p.len() implies first_open(ws, (#[trigger] p[k]).1) is Some && p[k].0
            == ws[first_open(ws, p[k].1)->0].node_id by {
            if k < p0.len() {
                assert(p[k] == p0[k]);
            }
        }
        if texts_distinct(ids) {
            assert(texts_distinct(init)) by {
                assert forall|a: int, b: int| 0 <= a < b < init.len() implies init[a] != init[b] by {
                    assert(init[a] == ids[a] && init[b] == ids[b]);
                }
            }
            assert forall|a: int, b: int| 0 <= a < b < p.len() implies (#[trigger] p[a]).1 != (#[trigger] p[b]).1 by {
                if b < p0.len() {
                    assert(p[a] == p0[a] && p[b] == p0[b]);
                } else {
                    assert(p[a] == p0[a]);
                    assert(p[b].1 == last);
                    let j = choose|j: int| 0 <= j < init.len() && init[j] == p0[a].1;
                    assert(ids[j] == init[j]);
                    assert(ids[ids.len() - 1] == last);
                }
            }
        }
        assert forall|o: Seq<char>| ids.contains(o) && #[trigger] first_open(ws, o) is Some implies exists|k: int|
            0 <= k < p.len() && #[trigger] p[k].1 == o by {
            let j = choose|j: int| 0 <= j < ids.len() && ids[j] == o;
            if j < ids.len() - 1 {
                assert(init[j] == o);
                assert(init.contains(o));
                let k = choose|k: int| 0 <= k < p0.len() && #[trigger] p0[k].1 == o;
                assert(p[k] == p0[k]);
            } else {
                assert(o == last);
                assert(p[p0.len() as int].1 == o);
            }
        }
    } else {
        assert forall|o: Seq<char>| ids.contains(o) && #[trigger] first_open(ws, o) is Some implies exists|k: int|
            0 <= k < nav_pairs(ws, ids).len() && #[trigger] nav_pairs(ws, ids)[k].1 == o by {}
    }
}

/// Navigation targets for the open ids `ids`.
pub fn nav_targets(ws: &Vec<ShellWorkspace>, ids: &Vec<&str>) -> (r: Vec<(NodeId, String)>)
    ensures
        r@.map_values(|t: (NodeId, String)| (t.0, t.1@)) == nav_pairs(ws@, ids@.map_values(|s: &str| s@)),
{
    let ghost idv = ids@.map_values(|s: &str| s@);
    let mut r: Vec<(NodeId, String)> = Vec::new();
    let n = ids.len();
    let mut j: usize = 0;
    while j < n
        invariant
            n == ids@.len(),
            j <= n,
            idv == ids@.map_values(|s: &str| s@),
            r@.map_values(|t: (NodeId, String)| (t.0, t.1@)) == nav_pairs(ws@, idv.take(j as int)),
        decreases n - j,
    {
        let o: &str = ids[j];
        let ghost before = r@.map_values(|t: (NodeId, String)| (t.0, t.1@));
        let ghost t = idv.take(j + 1);
        assert(t.drop_last() =~= idv.take(j as int));
        assert(t.last() == o@);
        match find_open_id(ws, o) {
            Some(i) => {
                proof {
                    lemma_first_open(ws@, o@, i as int);
                }
                r.push((ws[i].node_id, String::from_str(o)));
                assert(r@.map_values(|t: (NodeId, String)| (t.0, t.1@)) =~= before + seq![(ws@[i as int].node_id, o@)]);
            },
            None => {
                assert(first_open(ws@, o@) is None);
                assert(r@.map_values(|t: (NodeId, String)| (t.0, t.1@)) =~= before + Seq::<(NodeId, Seq<char>)>::empty());
            },
        }
        j = j + 1;
    }
    assert(idv.take(n as int) =~= idv);
    r
}

/// Dropping and adding navigation Signals leaves every Binding child list as it was.
proof fn lemma_signals_keep_bindings(before: Seq<HyperEdge>, after: Seq<HyperEdge>, home: NodeId, labels: Seq<Seq<char>>, parent: NodeId)
    requires
        after.len() >= before.filter(nav_kept(home, labels)).len(),
        after.take(before.filter(nav_kept(home, labels)).len() as int) == before.filter(nav_kept(home, labels)),
        forall|k: int|
            before.filter(nav_kept(home, labels)).len() <= k < after.len() ==> (#[trigger] after[k]).kind == EdgeKind::Signal,
    ensures
        binding_keys(after, parent) == binding_keys(before, parent),
{
    let kept = before.filter(nav_kept(home, labels));
    lemma_filter_keeps_keys(before, home, labels, parent);
    let fresh = after.skip(kept.len() as int);
    assert(after =~= kept + fresh);
    crate::containers::lemma_binding_keys_concat(kept, fresh, parent);
    lemma_signal_keys(fresh, parent);
}

proof fn lemma_signal_keys(edges: Seq<HyperEdge>, parent: NodeId)
    requires
        forall|k: int| 0 <= k < edges.len() ==> (#[trigger] edges[k]).kind == EdgeKind::Signal,
    ensures
        binding_keys(edges, parent) == Seq::<(i64, u64)>::empty(),
    decreases edges.len(),
{
    if edges.len() > 0 {
        let init = edges.drop_last();
        assert forall|k: int| 0 <= k < init.len() implies (#[trigger] init[k]).kind == EdgeKind::Signal by {
            assert(init[k] == edges[k]);
        }
        lemma_signal_keys(init, parent);
        assert(edges[edges.len() - 1] == edges.last());
        assert(edge_keys(edges.last(), parent) =~= Seq::<(i64, u64)>::empty());
    }
}

proof fn lemma_filter_keeps_keys(edges: Seq<HyperEdge>, home: NodeId, labels: Seq<Seq<char>>, parent: NodeId)
    ensures
        binding_keys(edges.filter(nav_kept(home, labels)), parent) == binding_keys(edges, parent),
    decreases edges.len(),
{
    let p = nav_kept(home, labels);
    if edges.len() > 0 {
        let init = edges.drop_last();
        assert(edges =~= init.push(edges.last()));
        init.lemma_filter_push(edges.last(), p);
        lemma_filter_keeps_keys(init, home, labels, parent);
        if p(edges.last()) {
            assert(init.filter(p).push(edges.last()).drop_last() =~= init.filter(p));
        } else {
            assert(edge_keys(edges.last(), parent) =~= Seq::<(i64, u64)>::empty());
        }
    } else {
        assert(edges.filter(p) =~= Seq::<HyperEdge>::empty()) by {
            reveal(Seq::filter);
        }
    }
}

impl Shell {
    /// Bring the shell up over restored or seeded `workspaces`: bind them under
    /// `root` in order; when there is a Home workspace, wire its navigation Signals
    /// to the first workspace opened from each of `nav_open_ids`; start the focus
    /// chain at the first shown workspace, or the first one.
    #[verifier::rlimit(40)]
    pub fn new(
        workspaces: Vec<ShellWorkspace>,
        next_workspace_id: u64,
        graph: Graph,
        root: NodeId,
        nav_open_ids: &Vec<&str>,
    ) -> (s: Shell)
        requires
            graph.wf(),
            workspaces@.len() > 0,
            workspaces@.len() <= i64::MAX,
            graph.next_edge_id + workspaces@.len() + nav_open_ids@.len() < u64::MAX,
        ensures
            s.workspaces@ == workspaces@,
            s.next_workspace_id == next_workspace_id,
            s.graph.wf(),
            s.graph.nodes@ == graph.nodes@,
            s.graph.next_node_id == graph.next_node_id,
            exists|k: int| #[trigger] focus_starts_at(workspaces@, s.focus@, k),
            sole_parent(graph.edges@, root) ==> binding_children_spec(s.graph, root) == workspaces@.map_values(
                |w: ShellWorkspace| w.node_id,
            ),
            forall|o: Seq<char>|
                (exists|h: int| is_first_with_open_id(workspaces@, home_open_id(), h)) && nodes_distinct(workspaces@)
                    && texts_distinct(nav_open_ids@.map_values(|x: &str| x@)) && nav_open_ids@.map_values(|x: &str| x@).contains(o)
                    && #[trigger] first_open(workspaces@, o) is Some ==> open_target(s.workspaces@, s.graph, o) == Some(
                    workspaces@[first_open(workspaces@, o)->0].id,
                ),
    {
        let mut graph = graph;
        let ghost g0 = graph;
        let mut nodes: Vec<NodeId> = Vec::new();
        let n = workspaces.len();
        let mut i: usize = 0;
        while i < n
            invariant
                n == workspaces@.len(),
                i <= n,
                nodes@ == workspaces@.map_values(|w: ShellWorkspace| w.node_id).take(i as int),
            decreases n - i,
        {
            nodes.push(workspaces[i].node_id);
            assert(workspaces@.map_values(|w: ShellWorkspace| w.node_id).take(i + 1) =~= workspaces@.map_values(
                |w: ShellWorkspace| w.node_id,
            ).take(i as int).push(workspaces@[i as int].node_id));
            i = i + 1;
        }
        assert(workspaces@.map_values(|w: ShellWorkspace| w.node_id).take(n as int) =~= workspaces@.map_values(
            |w: ShellWorkspace| w.node_id,
        ));
        bind_workspaces_to_root(&mut graph, root, &nodes);
        let ghost g1 = graph;
        let ghost idv = nav_open_ids@.map_values(|x: &str| x@);
        match find_open_id(&workspaces, "home") {
            Some(h) => {
                let targets = nav_targets(&workspaces, nav_open_ids);
                proof {
                    assert(nav_pairs(workspaces@, idv).len() <= idv.len()) by {
                        lemma_nav_pairs_len(workspaces@, idv);
                    }
                }
                let home = workspaces[h].node_id;
                wire_home_nav_signals(&mut graph, home, &targets);
                proof {
                    let labels = targets@.map_values(|t: (NodeId, String)| t.1@);
                    let kept = g1.edges@.filter(nav_kept(home, labels));
                    assert forall|k: int| kept.len() <= k < graph.edges@.len() implies (#[trigger] graph.edges@[k]).kind
                        == EdgeKind::Signal by {
                        assert(is_fresh_nav(graph.edges@[kept.len() + (k - kept.len())], home, targets@[k - kept.len()].0, targets@[k - kept.len()].1@));
                    }
                    lemma_signals_keep_bindings(g1.edges@, graph.edges@, home, labels, root);
                    reveal_strlit("home");
                    lemma_first_open(workspaces@, home_open_id(), h as int);
                    lemma_nav_pairs(workspaces@, idv);
                    let pairs = nav_pairs(workspaces@, idv);
                    assert(targets@.map_values(|t: (NodeId, String)| (t.0, t.1@)) == pairs);
                    assert forall|k: int| 0 <= k < targets@.len() implies #[trigger] targets@[k].1@ == pairs[k].1 && targets@[k].0
                        == pairs[k].0 by {
                        assert(targets@.map_values(|t: (NodeId, String)| (t.0, t.1@))[k] == (targets@[k].0, targets@[k].1@));
                    }
                    assert forall|o: Seq<char>|
                        nodes_distinct(workspaces@) && texts_distinct(idv) && idv.contains(o) && #[trigger] first_open(
                            workspaces@,
                            o,
                        ) is Some implies open_target(workspaces@, graph, o) == Some(workspaces@[first_open(workspaces@, o)->0].id) by {
                        let k = choose|k: int| 0 <= k < pairs.len() && #[trigger] pairs[k].1 == o;
                        assert(targets@[k].1@ == o);
                        assert forall|j: int| 0 <= j < k implies targets@[j].1@ != targets@[k].1@ by {
                            assert(targets@[j].1@ == pairs[j].1);
                        }
                        assert(nav_target(graph.edges@, home, targets@[k].1@) == Some(targets@[k].0));
                        let i = first_open(workspaces@, o)->0;
                        assert(pairs[k].0 == workspaces@[i].node_id);
                        assert(is_first_with_node(workspaces@, workspaces@[i].node_id, i)) by {
                            assert forall|j: int| 0 <= j < i implies (#[trigger] workspaces@[j]).node_id != workspaces@[i].node_id by {
                                assert(workspaces@[j].node_id != workspaces@[i].node_id);
                            }
                        }
                        let hc = choose|h: int| is_first_with_open_id(workspaces@, home_open_id(), h);
                        lemma_first_open(workspaces@, home_open_id(), hc);
                        assert(hc == h);
                        let kc = choose|k: int| is_first_with_node(workspaces@, workspaces@[i].node_id, k);
                        if kc != i {
                            if kc < i {
                                assert(workspaces@[kc].node_id != workspaces@[i].node_id);
                            } else {
                                assert(workspaces@[i].node_id != workspaces@[kc].node_id);
                            }
                        }
                        assert(is_first_with_open_id(workspaces@, home_open_id(), hc));
                        assert(workspaces@[hc].node_id == home);
                        assert(nav_target(graph.edges@, workspaces@[hc].node_id, o) == Some(workspaces@[i].node_id));
                        assert(is_first_with_node(workspaces@, workspaces@[i].node_id, kc));
                        crate::shell::lemma_open_target_index(workspaces@, graph, o, hc, i);
                    }
                }
            },
            None => {
                proof {
                    reveal_strlit("home");
                    assert(!exists|h: int| is_first_with_open_id(workspaces@, home_open_id(), h));
                }
            },
        }
        let (active, focus) = startup_focus(&workspaces);
        let ghost wsv = workspaces@;
        let ghost a = active as int;
        assert((is_first_shown(wsv, a) || (a == 0 && forall|j: int|
            0 <= j < wsv.len() ==> (#[trigger] wsv[j]).intent != crate::overrides::Visibility::Shown))
            && focus@ == startup_chain(wsv[a]));
        let s = Shell { workspaces, focus, next_workspace_id, graph };
        assert(focus_starts_at(wsv, s.focus@, a));
        s
    }
}

proof fn lemma_nav_pairs_len(ws: Seq<ShellWorkspace>, ids: Seq<Seq<char>>)
    ensures
        nav_pairs(ws, ids).len() <= ids.len(),
    decreases ids.len(),
{
    if ids.len() > 0 {
        lemma_nav_pairs_len(ws, ids.drop_last());
    }
}

/// The next workspace id at startup: the saved counter when a session was restored,
/// else one past the seeded workspaces.
pub fn startup_next_workspace_id(saved_counter: Option<u64>, seeded_count: usize) -> (n: u64)
    requires
        saved_counter is None ==> seeded_count < u64::MAX,
    ensures
        n == match saved_counter {
            Some(c) => c as int,
            None => seeded_count + 1,
        },
{
    match saved_counter {
        Some(c) => c,
        None => seeded_count as u64 + 1,
    }
}

} // verus!
