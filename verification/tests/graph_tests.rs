use innovator_workspace::overrides::Overrides;
use innovator_workspace::components::{
    assert_binding_parity, binding_parity, component_labels, count_page_tree_containers, count_particle_slots, entity_count,
    first_entity_id, is_entity, particle_slot,
};
use innovator_workspace::containers::{
    bind_workspace_to_root, bind_workspaces_to_root, binding_children, insert_binding, insert_root, insert_uiview,
    resolve_home_nav_target, wire_home_nav_signals,
};
use innovator_workspace::graph::{EdgeKind, Graph, NodeId, PropMap, PropValue, SpaceClass};
use innovator_workspace::pagetree::{dual_write_page_tree, PageId, PageNode, PageTree, Pod, PodId};
use innovator_workspace::tiers::{assert_tier_consistency, derive_tiers, tiers_consistent};
use innovator_workspace::valence::{decode_valence, encode_valence, valence_report};

fn prop<'a>(graph: &'a Graph, id: NodeId, key: &str) -> Option<&'a PropValue> {
    let i = graph.find_node(id)?;
    graph.nodes[i].props.get(key)
}

#[test]
fn derive_tiers_three_level_binding_tree() {
    let mut graph = Graph::new();
    let root = insert_uiview(&mut graph, "root".to_string());
    let mid = insert_uiview(&mut graph, "mid".to_string());
    let leaf = insert_uiview(&mut graph, "leaf".to_string());
    insert_binding(&mut graph, root, mid, 0);
    insert_binding(&mut graph, mid, leaf, 0);

    derive_tiers(&mut graph, root);
    assert_tier_consistency(&graph, root);
    assert!(tiers_consistent(&graph, root));

    assert_eq!(prop(&graph, root, "tier"), Some(&PropValue::I64(0)));
    assert_eq!(prop(&graph, mid, "tier"), Some(&PropValue::I64(1)));
    assert_eq!(prop(&graph, leaf, "tier"), Some(&PropValue::I64(2)));
}

#[test]
fn valence_roundtrip_delimiter_encoding() {
    let encoded = encode_valence(&["pointer", "text"]).unwrap();
    assert_eq!(
        decode_valence(Some(&encoded)),
        vec!["pointer".to_string(), "text".to_string()]
    );
    assert!(encode_valence(&[]).is_none());
    assert!(decode_valence(None).is_empty());
}

#[test]
fn valence_report_detects_imbalance() {
    let mut graph = Graph::new();
    let root = insert_uiview(&mut graph, "comp".to_string());
    let emitter = insert_uiview(&mut graph, "particle:src".to_string());
    let absorber = insert_uiview(&mut graph, "particle:sink".to_string());
    insert_binding(&mut graph, root, emitter, 0);
    insert_binding(&mut graph, root, absorber, 1);
    assert!(graph.set_node_prop(emitter, "valence_emit".to_string(), encode_valence(&["text"]).unwrap()));
    assert!(graph.set_node_prop(absorber, "valence_absorb".to_string(), encode_valence(&["pointer"]).unwrap()));

    let report = valence_report(&graph, root);
    assert_eq!(report.emitters, 1);
    assert_eq!(report.absorbers, 1);
    assert_eq!(report.unmatched_emits, vec!["text".to_string()]);
    assert_eq!(report.unmatched_absorbs, vec!["pointer".to_string()]);

    // Balance text by giving the absorber a text absorb too.
    assert!(graph.set_node_prop(absorber, "valence_absorb".to_string(), encode_valence(&["text"]).unwrap()));
    let balanced = valence_report(&graph, root);
    assert!(balanced.unmatched_emits.is_empty());
    assert!(balanced.unmatched_absorbs.is_empty());
}

#[test]
fn valence_encoding_joins_with_unit_separator() {
    let encoded = encode_valence(&["a", "b"]).unwrap();
    assert_eq!(encoded, PropValue::Text("a\u{1f}b".to_string()));
    assert_eq!(decode_valence(Some(&PropValue::I64(3))), Vec::<String>::new());
    assert_eq!(decode_valence(Some(&PropValue::Text(String::new()))), Vec::<String>::new());
}

#[test]
fn valence_report_ignores_nodes_outside_the_space() {
    let mut graph = Graph::new();
    let root = insert_uiview(&mut graph, "comp".to_string());
    let outside = insert_uiview(&mut graph, "loose".to_string());
    assert!(graph.set_node_prop(outside, "valence_emit".to_string(), encode_valence(&["text"]).unwrap()));
    let report = valence_report(&graph, root);
    assert_eq!(report.emitters, 0);
    assert!(report.unmatched_emits.is_empty());
}

#[test]
fn binding_children_sorted_by_order_then_id() {
    let mut graph = Graph::new();
    let parent = insert_uiview(&mut graph, "p".to_string());
    let a = insert_uiview(&mut graph, "a".to_string());
    let b = insert_uiview(&mut graph, "b".to_string());
    let c = insert_uiview(&mut graph, "c".to_string());
    insert_binding(&mut graph, parent, a, 5);
    insert_binding(&mut graph, parent, b, 1);
    insert_binding(&mut graph, parent, c, 1);
    assert_eq!(binding_children(&graph, parent), vec![b, c, a]);
    assert_eq!(binding_children(&graph, a), Vec::<NodeId>::new());
}

#[test]
fn bind_workspaces_to_root_replaces_prior_bindings() {
    let mut graph = Graph::new();
    let root = insert_root(&mut graph);
    let w1 = insert_uiview(&mut graph, "w1".to_string());
    let w2 = insert_uiview(&mut graph, "w2".to_string());
    bind_workspaces_to_root(&mut graph, root, &vec![w1, w2]);
    assert_eq!(binding_children(&graph, root), vec![w1, w2]);
    bind_workspaces_to_root(&mut graph, root, &vec![w2, w1]);
    assert_eq!(binding_children(&graph, root), vec![w2, w1]);
}

#[test]
fn home_nav_signal_resolves_and_rewires() {
    let mut graph = Graph::new();
    let home = insert_uiview(&mut graph, "home".to_string());
    let a = insert_uiview(&mut graph, "a".to_string());
    let b = insert_uiview(&mut graph, "b".to_string());
    wire_home_nav_signals(&mut graph, home, &vec![(a, "structural_analysis".to_string())]);
    assert_eq!(resolve_home_nav_target(&graph, home, "structural_analysis"), Some(a));
    assert_eq!(resolve_home_nav_target(&graph, home, "project_management"), None);
    wire_home_nav_signals(&mut graph, home, &vec![(b, "structural_analysis".to_string())]);
    assert_eq!(resolve_home_nav_target(&graph, home, "structural_analysis"), Some(b));
    let signals = graph.edges.iter().filter(|e| e.kind == EdgeKind::Signal).count();
    assert_eq!(signals, 1);
}

fn sample_tree() -> PageTree {
    PageTree {
        pages: vec![
            PageNode {
        pod_overrides: Overrides::new(),
                id: PageId(0),
                node_id: NodeId(0),
                label: "Navigation".to_string(),
                pods: vec![
                    Pod { id: PodId(0), node_id: NodeId(0), title: "Walls".to_string(), collapsed: false },
                    Pod { id: PodId(1), node_id: NodeId(0), title: "Summary".to_string(), collapsed: false },
                ],
            },
            PageNode {
        pod_overrides: Overrides::new(),
                id: PageId(1),
                node_id: NodeId(0),
                label: "Results".to_string(),
                pods: vec![Pod { id: PodId(0), node_id: NodeId(0), title: "Table".to_string(), collapsed: false }],
            },
        ],
    }
}

#[test]
fn dual_write_gives_binding_parity() {
    let mut graph = Graph::new();
    let ws = insert_uiview(&mut graph, "ws".to_string());
    let mut tree = sample_tree();
    dual_write_page_tree(&mut graph, ws, &mut tree);
    assert!(tree.pages.iter().all(|p| graph.contains_node(p.node_id)));
    assert!(binding_parity(&graph, ws, &tree));
    assert_binding_parity(&graph, ws, &tree);
    let pages: Vec<NodeId> = tree.pages.iter().map(|p| p.node_id).collect();
    assert_eq!(binding_children(&graph, ws), pages);
    let pods: Vec<NodeId> = tree.pages[0].pods.iter().map(|p| p.node_id).collect();
    assert_eq!(binding_children(&graph, tree.pages[0].node_id), pods);
    assert_eq!(count_page_tree_containers(&tree), 5);
    // A second write keeps the same nodes and parity.
    let before: Vec<NodeId> = tree.pages.iter().map(|p| p.node_id).collect();
    dual_write_page_tree(&mut graph, ws, &mut tree);
    let after: Vec<NodeId> = tree.pages.iter().map(|p| p.node_id).collect();
    assert_eq!(before, after);
    assert!(binding_parity(&graph, ws, &tree));
}

#[test]
fn component_labels_skip_particle_slots() {
    let mut graph = Graph::new();
    let pod = insert_uiview(&mut graph, "pod".to_string());
    let c1 = insert_uiview(&mut graph, "Span".to_string());
    let c2 = insert_uiview(&mut graph, "Height".to_string());
    let slot = insert_uiview(&mut graph, "particle:Span".to_string());
    insert_binding(&mut graph, pod, c1, 0);
    insert_binding(&mut graph, pod, c2, 1);
    insert_binding(&mut graph, c1, slot, 0);
    assert_eq!(component_labels(&graph, pod), vec!["Span".to_string(), "Height".to_string()]);
    assert_eq!(particle_slot(&graph, c1), Some(slot));
    assert_eq!(particle_slot(&graph, c2), None);
    let tree = PageTree {
        pages: vec![PageNode {
        pod_overrides: Overrides::new(),
            id: PageId(0),
            node_id: NodeId(0),
            label: "p".to_string(),
            pods: vec![Pod { id: PodId(0), node_id: pod, title: "pod".to_string(), collapsed: false }],
        }],
    };
    assert_eq!(count_particle_slots(&graph, &tree), 1);
}

#[test]
fn entity_queries_see_only_entity_nodes() {
    let mut graph = Graph::new();
    let view = insert_uiview(&mut graph, "view".to_string());
    assert_eq!(entity_count(&graph), 0);
    assert_eq!(first_entity_id(&graph), None);
    let wall = graph.insert_node(SpaceClass::Entity, "Wall 1".to_string(), PropMap::new());
    let wall2 = graph.insert_node(SpaceClass::Entity, "Wall 2".to_string(), PropMap::new());
    assert_eq!(entity_count(&graph), 2);
    assert_eq!(first_entity_id(&graph), Some(wall));
    assert!(is_entity(&graph, wall2));
    assert!(!is_entity(&graph, view));
    assert!(!is_entity(&graph, NodeId(999)));
}

#[test]
fn bind_workspace_to_root_appends_after_existing_children() {
    let mut graph = Graph::new();
    let root = insert_root(&mut graph);
    let w1 = insert_uiview(&mut graph, "w1".to_string());
    let w2 = insert_uiview(&mut graph, "w2".to_string());
    let w3 = insert_uiview(&mut graph, "w3".to_string());
    bind_workspaces_to_root(&mut graph, root, &vec![w1, w2]);
    bind_workspace_to_root(&mut graph, root, w3);
    assert_eq!(binding_children(&graph, root), vec![w1, w2, w3]);
}
