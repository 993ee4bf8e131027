use innovator_workspace::overrides::Overrides;
use innovator_workspace::components::{component_labels, count_particle_slots, particle_slot};
use innovator_workspace::containers::{binding_children, insert_binding, insert_uiview};
use innovator_workspace::graph::{Graph, NodeId, PropMap, PropValue, SpaceClass};
use innovator_workspace::handlers::{record_page_edit, signal_report, PageEdit, PageEditOutcome, SignalResult};
use innovator_workspace::pageorder::sync_page_order_from_bindings;
use innovator_workspace::pagetree::{dual_write_page_tree, PageId, PageNode, PageTree, Pod, PodId};
use innovator_workspace::persist::restored_body_kind;
use innovator_workspace::podcomponents::{assert_component_parity, component_parity, write_components_from_page_seeds, write_pod_components};
use innovator_workspace::results::summary_from_results;
use innovator_workspace::shell::BodyKind;
use innovator_workspace::tiers::derive_tiers;
use innovator_workspace::split::{
    fold_vertical, page_node_from_seed, page_tree_from_seeds, PageLayout, PageSeed, PodSeed, SeamDirection,
};
use innovator_workspace::templates::{apply_templates, restore_templates, TemplateBook};
use innovator_workspace::valence::decode_valence;

fn page(id: u32, node: NodeId, pods: usize) -> PageNode {
    PageNode {
        pod_overrides: Overrides::new(),
        id: PageId(id),
        node_id: node,
        label: format!("page {id}"),
        pods: (0..pods).map(|q| Pod { id: PodId(q as u32), node_id: NodeId(0), title: format!("pod {q}"), collapsed: false }).collect(),
    }
}

#[test]
fn write_pod_components_replaces_components_and_adds_slots() {
    let mut graph = Graph::new();
    let pod = insert_uiview(&mut graph, "pod".to_string());
    write_pod_components(&mut graph, pod, &["Span", "Height"]);
    assert_eq!(component_labels(&graph, pod), vec!["Span".to_string(), "Height".to_string()]);
    let comps = binding_children(&graph, pod);
    assert_eq!(comps.len(), 2);
    let slot = particle_slot(&graph, comps[0]).expect("slot");
    let i = graph.find_node(slot).unwrap();
    assert_eq!(graph.nodes[i].label, "particle:Span");
    assert_eq!(decode_valence(graph.nodes[i].props.get("valence_emit")), vec!["text".to_string()]);
    let nodes_before = graph.nodes.len();

    write_pod_components(&mut graph, pod, &["Load"]);
    assert_eq!(component_labels(&graph, pod), vec!["Load".to_string()]);
    // the two old components and their slots are gone, one new pair added
    assert_eq!(graph.nodes.len(), nodes_before - 4 + 2);
    assert!(!graph.contains_node(comps[0]));
    assert!(!graph.contains_node(slot));
}

#[test]
fn role_tagged_bindings_survive_component_rewrite() {
    let mut graph = Graph::new();
    let pod = insert_uiview(&mut graph, "pod".to_string());
    let wall = graph.insert_node(SpaceClass::Entity, "Wall".to_string(), PropMap::new());
    insert_binding(&mut graph, pod, wall, 9);
    write_pod_components(&mut graph, pod, &["A"]);
    let kids = binding_children(&graph, pod);
    assert_eq!(kids.len(), 2);
    assert_eq!(kids[1], wall);
    assert!(graph.contains_node(wall));
    assert_eq!(component_labels(&graph, pod), vec!["A".to_string()]);
}

#[test]
fn particle_slots_reach_tier_depth_five_in_small_tree() {
    let mut graph = Graph::new();
    let root = insert_uiview(&mut graph, "root".to_string());
    let ws = insert_uiview(&mut graph, "ws".to_string());
    insert_binding(&mut graph, root, ws, 0);
    let mut tree = PageTree { pages: vec![page(0, NodeId(0), 1)] };
    dual_write_page_tree(&mut graph, ws, &mut tree);
    write_pod_components(&mut graph, tree.pages[0].pods[0].node_id, &["Span"]);
    derive_tiers(&mut graph, root);
    let comp = binding_children(&graph, tree.pages[0].pods[0].node_id)[0];
    let slot = particle_slot(&graph, comp).unwrap();
    let i = graph.find_node(slot).unwrap();
    assert_eq!(graph.nodes[i].props.get("tier"), Some(&PropValue::I64(5)));
    assert_eq!(count_particle_slots(&graph, &tree), 1);
}

#[test]
fn seeded_components_give_component_parity() {
    let mut graph = Graph::new();
    let ws = insert_uiview(&mut graph, "ws".to_string());
    let mut tree = PageTree { pages: vec![page(0, NodeId(0), 2), page(1, NodeId(0), 1)] };
    dual_write_page_tree(&mut graph, ws, &mut tree);
    let seeds: Vec<Vec<Vec<&str>>> = vec![vec![vec!["Walls"], vec!["Span", "Height"]], vec![vec!["Table"]]];
    write_components_from_page_seeds(&mut graph, &tree, &seeds);
    assert!(component_parity(&graph, ws, &tree, &seeds));
    assert_component_parity(&graph, ws, &tree, &seeds);
    assert_eq!(component_labels(&graph, tree.pages[0].pods[1].node_id), vec!["Span".to_string(), "Height".to_string()]);
    let other: Vec<Vec<Vec<&str>>> = vec![vec![vec!["Walls"], vec!["Span"]]];
    assert!(!component_parity(&graph, ws, &tree, &other));
}

#[test]
fn page_order_follows_bindings_with_unbound_pages_last() {
    let mut graph = Graph::new();
    let ws = insert_uiview(&mut graph, "ws".to_string());
    let a = insert_uiview(&mut graph, "a".to_string());
    let b = insert_uiview(&mut graph, "b".to_string());
    insert_binding(&mut graph, ws, b, 0);
    insert_binding(&mut graph, ws, a, 1);
    let mut tree = PageTree {
        pages: vec![page(7, NodeId(900), 0), page(1, a, 0), page(3, NodeId(901), 0), page(2, b, 0)],
    };
    sync_page_order_from_bindings(&graph, ws, &mut tree);
    let ids: Vec<u32> = tree.pages.iter().map(|p| p.id.0).collect();
    assert_eq!(ids, vec![2, 1, 7, 3]);
}

#[test]
fn results_summary_reads_typed_properties() {
    let mut props = PropMap::new();
    props.insert("overall_pass".to_string(), PropValue::Bool(true));
    props.insert("governing".to_string(), PropValue::Text("Shear".to_string()));
    props.insert("run_timestamp".to_string(), PropValue::I64(1700));
    let mut graph = Graph::new();
    let id = graph.insert_node(SpaceClass::Entity, "results".to_string(), props);
    let node = &graph.nodes[graph.find_node(id).unwrap()];
    let s = summary_from_results(node);
    assert!(s.overall_pass);
    assert_eq!(s.governing, "Shear");
    assert_eq!(s.run_timestamp, 1700);

    let mut odd = PropMap::new();
    odd.insert("overall_pass".to_string(), PropValue::Text("yes".to_string()));
    odd.insert("run_timestamp".to_string(), PropValue::Bool(false));
    let id2 = graph.insert_node(SpaceClass::Entity, "results".to_string(), odd);
    let s2 = summary_from_results(&graph.nodes[graph.find_node(id2).unwrap()]);
    assert!(!s2.overall_pass);
    assert_eq!(s2.governing, "—");
    assert_eq!(s2.run_timestamp, 0);
}

#[test]
fn saved_open_ids_choose_bodies() {
    assert_eq!(restored_body_kind("home"), BodyKind::Home);
    assert_eq!(restored_body_kind("structural_analysis"), BodyKind::Analysis);
    assert_eq!(restored_body_kind("devtools_graph"), BodyKind::GraphView);
    assert_eq!(restored_body_kind("project_management"), BodyKind::Placeholder);
    assert_eq!(restored_body_kind(""), BodyKind::Placeholder);
}


#[test]
fn templates_follow_splits_merges_and_saves() {
    let mut book = TemplateBook::new();
    book.assign_new_page(PageId(3), "generic");
    book.set_pod_template(PageId(3), PodId(2), "results_table".to_string());
    book.set_page_template(PageId(1), "input_form".to_string());
    assert_eq!(book.page_template_of(PageId(3)).map(|s| s.as_str()), Some("generic"));
    assert_eq!(book.pod_template_of(PageId(3), PodId(0)).map(|s| s.as_str()), Some("generic"));
    let pages = book.capture_page_templates();
    assert_eq!(pages, vec![(1, "input_form".to_string()), (3, "generic".to_string())]);
    let pods = book.capture_pod_templates();
    assert_eq!(pods, vec![(3, 0, "generic".to_string()), (3, 2, "results_table".to_string())]);
    let restored = restore_templates(&pages, &pods);
    assert_eq!(restored.capture_page_templates(), pages);
    assert_eq!(restored.capture_pod_templates(), pods);

    book.retire_pages(&vec![PageId(3)]);
    assert!(book.page_template_of(PageId(3)).is_none());
    assert!(book.pod_template_of(PageId(3), PodId(2)).is_none());
    assert_eq!(book.page_template_of(PageId(1)).map(|s| s.as_str()), Some("input_form"));

    let dup = restore_templates(&vec![(5, "a".to_string()), (5, "b".to_string())], &vec![(u32::MAX, u32::MAX, "z".to_string())]);
    assert_eq!(dup.page_template_of(PageId(5)).map(|s| s.as_str()), Some("b"));
    assert_eq!(dup.pod_template_of(PageId(u32::MAX), PodId(u32::MAX)).map(|s| s.as_str()), Some("z"));
}


fn leaf_ids(t: &PageLayout, out: &mut Vec<u32>) {
    match t {
        PageLayout::Leaf(p) => out.push(p.id.0),
        PageLayout::Split { direction, first, second } => {
            assert_eq!(*direction, SeamDirection::Vertical);
            leaf_ids(first, out);
            leaf_ids(second, out);
        }
    }
}

#[test]
fn seeded_pages_fold_into_vertical_splits_in_order() {
    let seeds = vec![
        PageSeed { label: "Navigation", pods: vec![PodSeed { label: "Walls" }, PodSeed { label: "Summary" }] },
        PageSeed { label: "Analysis", pods: vec![PodSeed { label: "Input" }] },
        PageSeed { label: "Results", pods: vec![] },
    ];
    let t = page_tree_from_seeds(&seeds);
    let mut ids = Vec::new();
    leaf_ids(&t, &mut ids);
    assert_eq!(ids, vec![0, 1, 2]);
    match &t {
        PageLayout::Split { first, .. } => match first.as_ref() {
            PageLayout::Leaf(p) => {
                assert_eq!(p.label, "Navigation");
                assert_eq!(p.pods.len(), 2);
                assert_eq!(p.pods[1].id, PodId(1));
                assert_eq!(p.pods[1].title, "Summary");
            }
            _ => panic!("first page should be a leaf"),
        },
        _ => panic!("three pages should split"),
    }
    let empty = page_tree_from_seeds(&vec![]);
    match empty {
        PageLayout::Leaf(p) => {
            assert_eq!(p.id, PageId(0));
            assert!(p.pods.is_empty());
        }
        _ => panic!("no seeds give one page"),
    }
    let single = fold_vertical(vec![page_node_from_seed(PageId(4), &seeds[1])]);
    let mut one = Vec::new();
    leaf_ids(&single, &mut one);
    assert_eq!(one, vec![4]);
}

#[test]
fn templates_are_written_onto_page_and_pod_nodes() {
    let mut graph = Graph::new();
    let ws = insert_uiview(&mut graph, "ws".to_string());
    let mut tree = PageTree { pages: vec![page(0, NodeId(0), 2), page(1, NodeId(0), 1)] };
    dual_write_page_tree(&mut graph, ws, &mut tree);
    let mut book = TemplateBook::new();
    book.set_page_template(PageId(1), "results".to_string());
    book.set_pod_template(PageId(0), PodId(1), "wall_list".to_string());
    apply_templates(&mut graph, &tree, &book);
    let prop = |id: NodeId| graph.nodes[graph.find_node(id).unwrap()].props.get("template_id");
    assert_eq!(prop(tree.pages[1].node_id), Some(&PropValue::Text("results".to_string())));
    assert_eq!(prop(tree.pages[0].pods[1].node_id), Some(&PropValue::Text("wall_list".to_string())));
    assert_eq!(prop(tree.pages[0].node_id), None);
    assert_eq!(prop(tree.pages[0].pods[0].node_id), None);
}

#[test]
fn page_edits_update_templates() {
    let mut book = TemplateBook::new();
    let out = record_page_edit(&mut book, &PageEdit::Split { new_page: Some(PageId(4)) }, "generic");
    assert_eq!(out, PageEditOutcome { bindings_changed: true, rebuild: true, clear_menu: true });
    assert_eq!(book.page_template_of(PageId(4)).map(|s| s.as_str()), Some("generic"));
    assert_eq!(book.pod_template_of(PageId(4), PodId(0)).map(|s| s.as_str()), Some("generic"));
    let refused = record_page_edit(&mut book, &PageEdit::Split { new_page: None }, "generic");
    assert_eq!(refused, PageEditOutcome { bindings_changed: false, rebuild: false, clear_menu: true });
    let reset = record_page_edit(&mut book, &PageEdit::ResetRatio, "generic");
    assert_eq!(reset, PageEditOutcome { bindings_changed: false, rebuild: true, clear_menu: true });
    let merged = record_page_edit(&mut book, &PageEdit::Merge { retired: Some(vec![PageId(4)]) }, "generic");
    assert_eq!(merged, PageEditOutcome { bindings_changed: true, rebuild: true, clear_menu: true });
    assert!(book.page_template_of(PageId(4)).is_none());
    assert!(book.pod_template_of(PageId(4), PodId(0)).is_none());
}

#[test]
fn workspace_signal_reports() {
    assert_eq!(signal_report(&SignalResult::NothingDone), (false, None));
    assert_eq!(signal_report(&SignalResult::WallCreated(NodeId(42))), (true, Some("signal: New Wall (42)".to_string())));
    assert_eq!(
        signal_report(&SignalResult::WallSelected(NodeId(7))),
        (true, Some("signal: Wall Selected (7)".to_string()))
    );
    assert_eq!(
        signal_report(&SignalResult::NoActiveWall),
        (false, Some("signal: Run Analysis — no active wall".to_string()))
    );
    assert_eq!(signal_report(&SignalResult::AnalysisComplete), (true, Some("signal: AnalysisComplete".to_string())));
    assert_eq!(signal_report(&SignalResult::Saved), (false, Some("signal: Save".to_string())));
    assert_eq!(
        signal_report(&SignalResult::Exported("/tmp/r.pdf".to_string())),
        (false, Some("signal: Export PDF → /tmp/r.pdf".to_string()))
    );
    assert_eq!(
        signal_report(&SignalResult::ExportFailed("disk full".to_string())),
        (false, Some("signal: Export failed (disk full)".to_string()))
    );
    assert_eq!(signal_report(&SignalResult::NoResults), (false, Some("signal: Export — no results".to_string())));
}
