use innovator_workspace::analysis::{
    apply_field_write, field_builder_step, workspace_signal_step, FieldDraft, FieldKind, FieldWrite, WallAction, WallEvent,
    WallState,
};
use innovator_workspace::containers::{
    binding_children, insert_binding, insert_uiview, resolve_home_nav_target, wire_home_nav_signals,
};
use innovator_workspace::graph::{Graph, Node, NodeId, PropMap, PropValue, SpaceClass};
use innovator_workspace::handlers::{signal_report, SignalResult};
use innovator_workspace::pageorder::sync_page_order_from_bindings;
use innovator_workspace::pagetree::{dual_write_page_tree, PageId, PageNode, PageTree, PodId};
use innovator_workspace::overrides::{ContainerId, SizeClass, Visibility};
use innovator_workspace::persist::{PersistedCollapseEntry, PersistedOverrides, PersistedSizeClass, PersistedVisibility};
use innovator_workspace::popups::{
    clear_menu_after_page_signal, page_menu_items, popup_step, promote_input_to_hybrid, startup_input_class, InputClass,
    MenuChange, MenuSignal, PageSide, PopupInput, Popups,
};
use innovator_workspace::split::SeamDirection;
use innovator_workspace::overrides::Overrides;
use innovator_workspace::restore::{
    capture_workspace, restore_page_tree, restore_workspace, stub_pod_node, ContainerState, SavedContainer, SavedPage,
    SavedPod, SavedWorkspace,
};
use innovator_workspace::templates::TemplateBook;
use innovator_workspace::shell::BodyKind;
use innovator_workspace::signal::AnalysisAction;
use innovator_workspace::split::{page_node_from_seed, PageSeed, PodSeed};
use innovator_workspace::startup::startup_next_workspace_id;

fn seeded_tree(seeds: &[(&'static str, &[&'static str])]) -> PageTree {
    let pages = seeds
        .iter()
        .enumerate()
        .map(|(i, (label, pods))| {
            let seed = PageSeed { label: *label, pods: pods.iter().map(|l| PodSeed { label: *l }).collect() };
            page_node_from_seed(PageId(i as u32), &seed)
        })
        .collect();
    PageTree { pages }
}

fn ids_and_nodes(tree: &PageTree) -> Vec<(u32, NodeId)> {
    tree.pages.iter().map(|p| (p.id.0, p.node_id)).collect()
}

fn node_prop<'a>(graph: &'a Graph, id: NodeId, key: &str) -> Option<&'a PropValue> {
    let i = graph.find_node(id)?;
    graph.nodes[i].props.get(key)
}

#[test]
fn cascade_resolution_matches_binding_order_across_seeded_workspaces() {
    let mut graph = Graph::new();
    let workspaces: Vec<(&'static str, Vec<(&'static str, &[&'static str])>)> = vec![
        ("Home", vec![("Launch", &["Workspaces", "Recent"][..]), ("Activity", &["Feed"][..])]),
        (
            "Structural Analysis",
            vec![("Walls", &["Wall List", "Input"][..]), ("Analysis", &["Results"][..]), ("Report", &["Export"][..])],
        ),
        ("Project Management", vec![("Board", &["Tasks"][..]), ("Timeline", &[][..])]),
    ];
    for (label, seeds) in workspaces {
        let mut tree = seeded_tree(&seeds);
        assert!(tree.pages.iter().all(|p| p.node_id == NodeId(0)));
        let workspace_node = insert_uiview(&mut graph, label.to_string());
        dual_write_page_tree(&mut graph, workspace_node, &mut tree);

        let binding_ids = binding_children(&graph, workspace_node);
        assert_eq!(tree.pages.iter().map(|page| page.node_id).collect::<Vec<_>>(), binding_ids);
        for page in &tree.pages {
            let pods: Vec<NodeId> = page.pods.iter().map(|p| p.node_id).collect();
            assert_eq!(binding_children(&graph, page.node_id), pods);
        }

        let direct = ids_and_nodes(&tree);
        let mut binding_ordered = PageTree { pages: Vec::new() };
        std::mem::swap(&mut binding_ordered, &mut tree);
        sync_page_order_from_bindings(&graph, workspace_node, &mut binding_ordered);
        assert_eq!(direct, ids_and_nodes(&binding_ordered));
    }
}

#[test]
fn sync_orders_pages_on_one_binding_by_page_id() {
    let mut graph = Graph::new();
    let ws = insert_uiview(&mut graph, "ws".to_string());
    let shared = insert_uiview(&mut graph, "shared".to_string());
    let other = insert_uiview(&mut graph, "other".to_string());
    insert_binding(&mut graph, ws, shared, 0);
    insert_binding(&mut graph, ws, other, 1);
    let page = |id: u32, node: NodeId| PageNode { pod_overrides: Overrides::new(), id: PageId(id), node_id: node, label: String::new(), pods: Vec::new() };
    let mut tree = PageTree {
        pages: vec![page(9, NodeId(500)), page(4, other), page(6, shared), page(2, shared), page(1, NodeId(501))],
    };
    sync_page_order_from_bindings(&graph, ws, &mut tree);
    let ids: Vec<u32> = tree.pages.iter().map(|p| p.id.0).collect();
    assert_eq!(ids, vec![2, 6, 4, 9, 1]);
}

fn saved_state(id: u64, label: &str, intent: PersistedVisibility) -> SavedContainer {
    SavedContainer { id, label: label.to_string(), icon: String::new(), intent }
}

fn saved_pages() -> Vec<SavedPage> {
    vec![
        SavedPage {
            id: 0,
            label: "Walls".to_string(),
            pods: vec![
                SavedPod { id: 0, title: "Wall List".to_string(), state: saved_state(100, "Wall List", PersistedVisibility::Shown) },
                SavedPod { id: 1, title: "Input".to_string(), state: saved_state(101, "Input", PersistedVisibility::Collapsed) },
            ],
            pod_overrides: PersistedOverrides {
                entries: Vec::new(),
                collapse_entries: vec![PersistedCollapseEntry {
                    id: 100,
                    class: PersistedSizeClass::Compact,
                    collapsed: true,
                }],
            },
        },
        SavedPage {
            id: 3,
            label: "Results".to_string(),
            pods: vec![SavedPod { id: 0, title: "Table".to_string(), state: saved_state(102, "Table", PersistedVisibility::Hidden) }],
            pod_overrides: PersistedOverrides { entries: Vec::new(), collapse_entries: Vec::new() },
        },
    ]
}

fn empty_overrides() -> PersistedOverrides {
    PersistedOverrides { entries: Vec::new(), collapse_entries: Vec::new() }
}

#[test]
fn restore_page_tree_keeps_ids_labels_and_pods() {
    let tree = restore_page_tree(&saved_pages());
    assert_eq!(tree.pages.len(), 2);
    assert_eq!(tree.pages[1].id, PageId(3));
    assert_eq!(tree.pages[1].label, "Results");
    assert_eq!(tree.pages[0].pods[1].title, "Input");
    assert_eq!(tree.pages[0].pods[1].id, PodId(1));
    assert!(tree.pages.iter().all(|p| p.node_id == NodeId(0)));
    assert!(!tree.pages[0].pods[0].collapsed);
    assert!(tree.pages[0].pods[1].collapsed);
    assert!(!tree.pages[1].pods[0].collapsed);
    // The saved collapse flag stays; the collapsed pod (container 101) gets one in every
    // size class that has none.
    assert_eq!(tree.pages[0].pod_overrides.get_collapse(ContainerId(100), SizeClass::Compact), Some(true));
    assert_eq!(tree.pages[0].pod_overrides.get_collapse(ContainerId(100), SizeClass::Large), None);
    assert_eq!(tree.pages[0].pod_overrides.get_collapse(ContainerId(101), SizeClass::Medium), Some(true));
    assert_eq!(tree.pages[1].pod_overrides.get_collapse(ContainerId(102), SizeClass::Medium), None);
}

#[test]
fn restore_analysis_workspace_writes_tree_and_templates() {
    let mut graph = Graph::new();
    let ws = insert_uiview(&mut graph, "Structural Analysis".to_string());
    let pw = SavedWorkspace {
        open_id: "structural_analysis".to_string(),
        state: SavedContainer {
            id: 7,
            label: "Structural Analysis".to_string(),
            icon: "beam".to_string(),
            intent: PersistedVisibility::Shown,
        },
        focused_page: Some(3),
        pages: Some(saved_pages()),
        page_overrides: empty_overrides(),
        page_templates: Some(vec![(3, "results_table".to_string())]),
        pod_templates: Some(vec![(0, 1, "input_form".to_string())]),
        next_page_id: Some(4),
    };
    let known: &[&'static str] = &["home", "structural_analysis", "project_management"];
    let w = restore_workspace(&mut graph, ws, PageTree { pages: Vec::new() }, &pw, known, "project_management");
    assert_eq!(w.open_id, "structural_analysis");
    assert_eq!(w.kind, BodyKind::Analysis);
    assert_eq!(w.state.id, ContainerId(7));
    assert_eq!(w.state.label, "Structural Analysis");
    assert_eq!(w.state.icon, "beam");
    assert_eq!(w.state.intent, Visibility::Shown);
    assert_eq!(w.pod_states.len(), 2);
    assert_eq!(w.pod_states[0][1].intent, Visibility::Collapsed);
    assert!(w.tree.pages[0].pods[1].collapsed);
    assert_eq!(w.focused_page, Some(PageId(3)));
    assert_eq!(w.next_page_id, Some(4));
    let pages: Vec<NodeId> = w.tree.pages.iter().map(|p| p.node_id).collect();
    assert_eq!(binding_children(&graph, ws), pages);
    assert!(pages.iter().all(|n| *n != NodeId(0)));
    let mut all: Vec<u64> = Vec::new();
    for p in &w.tree.pages {
        all.push(p.node_id.0);
        all.extend(p.pods.iter().map(|q| q.node_id.0));
    }
    let count = all.len();
    all.sort();
    all.dedup();
    assert_eq!(all.len(), count);
    assert_eq!(
        node_prop(&graph, w.tree.pages[1].node_id, "template_id"),
        Some(&PropValue::Text("results_table".to_string()))
    );
    assert_eq!(
        node_prop(&graph, w.tree.pages[0].pods[1].node_id, "template_id"),
        Some(&PropValue::Text("input_form".to_string()))
    );
    assert_eq!(node_prop(&graph, w.tree.pages[0].node_id, "template_id"), None);
    assert_eq!(w.templates.page_template_of(PageId(3)), Some(&"results_table".to_string()));
}

#[test]
fn restore_unknown_workspace_falls_back_and_keeps_seeded_tree() {
    let mut graph = Graph::new();
    let ws = insert_uiview(&mut graph, "Project Management".to_string());
    let mut seeded = seeded_tree(&[("Board", &["Tasks"][..])]);
    dual_write_page_tree(&mut graph, ws, &mut seeded);
    let seeded_nodes: Vec<NodeId> = seeded.pages.iter().map(|p| p.node_id).collect();
    let pw = SavedWorkspace {
        open_id: "retired_workspace".to_string(),
        state: saved_state(9, "Retired", PersistedVisibility::Hidden),
        focused_page: None,
        pages: None,
        page_overrides: empty_overrides(),
        page_templates: Some(vec![(0, "ignored".to_string())]),
        pod_templates: None,
        next_page_id: Some(9),
    };
    let known: &[&'static str] = &["home", "structural_analysis", "project_management"];
    let w = restore_workspace(&mut graph, ws, seeded, &pw, known, "project_management");
    assert_eq!(w.open_id, "project_management");
    assert_eq!(w.kind, BodyKind::Placeholder);
    assert_eq!(w.state.intent, Visibility::Hidden);
    assert!(w.pod_states.is_empty());
    assert_eq!(w.next_page_id, None);
    assert_eq!(w.focused_page, None);
    assert_eq!(w.templates.page_template_of(PageId(0)), None);
    let nodes: Vec<NodeId> = w.tree.pages.iter().map(|p| p.node_id).collect();
    assert_eq!(nodes, seeded_nodes);
    assert_eq!(node_prop(&graph, nodes[0], "template_id"), None);
}

fn results_props() -> PropMap {
    let mut props = PropMap::new();
    props.insert("overall_pass".to_string(), PropValue::Bool(true));
    props.insert("governing".to_string(), PropValue::Text("Shear".to_string()));
    props.insert("run_timestamp".to_string(), PropValue::I64(42));
    props
}

fn results_node(graph: &mut Graph) -> Node {
    let id = graph.insert_node(SpaceClass::Entity, "results".to_string(), results_props());
    Node { id, space_class: SpaceClass::Entity, label: "results".to_string(), props: results_props() }
}

#[test]
fn new_wall_becomes_active_and_forgets_results() {
    let graph = Graph::new();
    let mut state = WallState { active_wall: Some(NodeId(3)), last_results: None, last_analysis: None };
    let out = workspace_signal_step(&mut state, &graph, WallEvent::NewWall(NodeId(8)));
    assert_eq!(state.active_wall, Some(NodeId(8)));
    assert!(state.last_results.is_none() && state.last_analysis.is_none());
    assert_eq!(out.action, WallAction::FocusWall(NodeId(8)));
    let (rebuild, status) = signal_report(&out.result);
    assert!(rebuild);
    assert_eq!(status, Some("signal: New Wall (8)".to_string()));
}

#[test]
fn selecting_a_listed_wall_loads_its_summary() {
    let mut graph = Graph::new();
    let loaded = results_node(&mut graph);
    let mut state = WallState { active_wall: None, last_results: None, last_analysis: None };
    let out = workspace_signal_step(
        &mut state,
        &graph,
        WallEvent::WallSelected { id: NodeId(5), known: true, loaded: Some(loaded) },
    );
    assert_eq!(state.active_wall, Some(NodeId(5)));
    let summary = state.last_analysis.as_ref().unwrap();
    assert!(summary.overall_pass);
    assert_eq!(summary.governing, "Shear");
    assert_eq!(summary.run_timestamp, 42);
    assert!(state.last_results.is_some());
    assert!(matches!(out.result, SignalResult::WallSelected(NodeId(5))));
    assert_eq!(signal_report(&out.result), (true, Some("signal: Wall Selected (5)".to_string())));

    let out2 = workspace_signal_step(
        &mut state,
        &graph,
        WallEvent::WallSelected { id: NodeId(6), known: false, loaded: None },
    );
    assert_eq!(state.active_wall, Some(NodeId(5)));
    assert!(matches!(out2.result, SignalResult::NothingDone));
    assert_eq!(out2.action, WallAction::Nothing);
}

#[test]
fn run_analysis_without_wall_reports_and_does_not_rebuild() {
    let mut graph = Graph::new();
    let mut state = WallState { active_wall: None, last_results: None, last_analysis: None };
    let out = workspace_signal_step(&mut state, &graph, WallEvent::RunAnalysis);
    assert!(matches!(out.result, SignalResult::NoActiveWall));
    assert_eq!(out.action, WallAction::Nothing);
    assert_eq!(signal_report(&out.result), (false, Some("signal: Run Analysis — no active wall".to_string())));
    assert!(state.active_wall.is_none());

    // A stale wall id counts as no wall; a wall in the graph runs the engine.
    state.active_wall = Some(NodeId(77));
    let stale = workspace_signal_step(&mut state, &graph, WallEvent::RunAnalysis);
    assert!(matches!(stale.result, SignalResult::NoActiveWall));
    let wall = graph.insert_node(SpaceClass::Entity, "Wall 1".to_string(), PropMap::new());
    state.active_wall = Some(wall);
    let run = workspace_signal_step(&mut state, &graph, WallEvent::RunAnalysis);
    assert_eq!(run.action, WallAction::RunEngine(wall));
    assert!(matches!(run.result, SignalResult::NothingDone));

    let results = results_node(&mut graph);
    let done = workspace_signal_step(&mut state, &graph, WallEvent::AnalysisDone(results));
    assert!(matches!(done.result, SignalResult::AnalysisComplete));
    assert!(state.last_analysis.as_ref().unwrap().overall_pass);
    let export = workspace_signal_step(&mut state, &graph, WallEvent::Export);
    assert_eq!(export.action, WallAction::ExportResults);
}

#[test]
fn export_without_results_reports_none() {
    let graph = Graph::new();
    let mut state = WallState { active_wall: None, last_results: None, last_analysis: None };
    let out = workspace_signal_step(&mut state, &graph, WallEvent::Export);
    assert!(matches!(out.result, SignalResult::NoResults));
    assert_eq!(signal_report(&out.result), (false, Some("signal: Export — no results".to_string())));
    let save = workspace_signal_step(&mut state, &graph, WallEvent::Save);
    assert!(matches!(save.result, SignalResult::Saved));
}

#[test]
fn field_builder_opens_sets_kind_and_confirms() {
    let mut draft: Option<FieldDraft> = None;
    let kind_first = field_builder_step(&mut draft, Some(NodeId(4)), AnalysisAction::FieldKindText);
    assert!(!kind_first.rebuild && draft.is_none() && kind_first.kind_set.is_none());

    let open = field_builder_step(&mut draft, Some(NodeId(4)), AnalysisAction::OpenFieldBuilder);
    assert!(open.rebuild);
    assert_eq!(open.status, Some("signal: FieldBuilder open".to_string()));
    assert_eq!(draft.as_ref().unwrap().kind, FieldKind::Number);

    draft.as_mut().unwrap().label = "Cover".to_string();
    let kind = field_builder_step(&mut draft, Some(NodeId(4)), AnalysisAction::FieldKindBool);
    assert!(kind.rebuild);
    assert_eq!(kind.kind_set, Some(FieldKind::Bool));
    assert_eq!(draft.as_ref().unwrap().kind, FieldKind::Bool);

    let confirm = field_builder_step(&mut draft, Some(NodeId(4)), AnalysisAction::ConfirmFieldBuilder);
    assert!(confirm.rebuild && draft.is_none());
    let write = confirm.write.unwrap();
    assert_eq!(write.wall, NodeId(4));
    assert_eq!(write.label, "Cover");
    assert_eq!(write.kind, FieldKind::Bool);
}

#[test]
fn field_builder_confirm_without_wall_writes_nothing() {
    let mut draft: Option<FieldDraft> = None;
    field_builder_step(&mut draft, None, AnalysisAction::OpenFieldBuilder);
    let confirm = field_builder_step(&mut draft, None, AnalysisAction::ConfirmFieldBuilder);
    assert!(confirm.rebuild && confirm.write.is_none() && draft.is_none());
    field_builder_step(&mut draft, None, AnalysisAction::OpenFieldBuilder);
    let cancel = field_builder_step(&mut draft, None, AnalysisAction::CancelFieldBuilder);
    assert_eq!(cancel.status, Some("signal: FieldBuilder cancel".to_string()));
    assert!(draft.is_none());
}

#[test]
fn popups_toggle_overlay_and_open_and_dismiss_menu() {
    let none = PopupInput { f10: false, left_press: false, menu_trigger_fired: false, menu_requested: false, page_signal: false };
    let mut p = Popups { overlay_open: false, menu_pending: false };
    let out = popup_step(&mut p, PopupInput { f10: true, ..none });
    assert!(p.overlay_open && out.rebuild && out.menu == MenuChange::Keep);
    let out = popup_step(&mut p, PopupInput { menu_requested: true, left_press: true, ..none });
    assert!(p.menu_pending && out.menu == MenuChange::Open && out.rebuild);
    let out = popup_step(&mut p, PopupInput { menu_trigger_fired: true, page_signal: true, ..none });
    assert!(p.menu_pending && out.menu == MenuChange::Keep);
    let out = popup_step(&mut p, PopupInput { left_press: true, ..none });
    assert!(!p.menu_pending && out.menu == MenuChange::Dismiss && !out.rebuild);
    let out = popup_step(&mut p, PopupInput { f10: true, ..none });
    assert!(!p.overlay_open && out.rebuild);
}

#[test]
fn startup_counter_comes_from_session_or_seeds() {
    assert_eq!(startup_next_workspace_id(Some(7), 3), 7);
    assert_eq!(startup_next_workspace_id(None, 4), 5);
}

#[test]
fn unwired_open_id_resolves_to_nothing() {
    let mut graph = Graph::new();
    let home = insert_uiview(&mut graph, "home".to_string());
    let pm = insert_uiview(&mut graph, "pm".to_string());
    wire_home_nav_signals(&mut graph, home, &vec![(pm, "project_management".to_string())]);
    assert_eq!(resolve_home_nav_target(&graph, home, "project_management"), Some(pm));
    assert_eq!(resolve_home_nav_target(&graph, home, "structural_analysis"), None);
}

#[test]
fn stub_labels_find_their_pod() {
    let mut tree = restore_page_tree(&saved_pages());
    tree.pages[0].pods[1].node_id = NodeId(40);
    tree.pages[1].pods[0].node_id = NodeId(41);
    assert_eq!(stub_pod_node(&tree, 0, 1), Some(NodeId(40)));
    assert_eq!(stub_pod_node(&tree, 3, 0), Some(NodeId(41)));
    assert_eq!(stub_pod_node(&tree, 3, 5), None);
    assert_eq!(stub_pod_node(&tree, 7, 0), None);
}

#[test]
fn captured_workspace_restores_to_the_same_pages_and_templates() {
    let mut graph = Graph::new();
    let ws = insert_uiview(&mut graph, "Structural Analysis".to_string());
    let mut live = seeded_tree(&[("Walls", &["Wall List", "Input"][..]), ("Results", &["Table"][..])]);
    dual_write_page_tree(&mut graph, ws, &mut live);
    let mut book = TemplateBook::new();
    book.set_page_template(PageId(1), "results_table".to_string());
    book.set_pod_template(PageId(0), PodId(0), "wall_list".to_string());
    let live_state = ContainerState {
        id: ContainerId(7),
        label: "Structural Analysis".to_string(),
        icon: "beam".to_string(),
        intent: Visibility::Shown,
    };
    let live_pod_states: Vec<Vec<ContainerState>> = live
        .pages
        .iter()
        .map(|p| {
            p.pods
                .iter()
                .map(|q| ContainerState {
                    id: ContainerId(200 + q.id.0 as u64),
                    label: q.title.clone(),
                    icon: String::new(),
                    intent: if q.id.0 == 1 { Visibility::Collapsed } else { Visibility::Shown },
                })
                .collect()
        })
        .collect();
    let saved = capture_workspace(
        "structural_analysis",
        BodyKind::Analysis,
        &live_state,
        &live,
        &live_pod_states,
        &Overrides::new(),
        PageId(1),
        &book,
        2,
    );
    assert_eq!(saved.focused_page, Some(1));
    assert_eq!(saved.next_page_id, Some(2));
    assert_eq!(saved.pages.as_ref().unwrap()[0].pods[1].title, "Input");

    let mut fresh = Graph::new();
    let ws2 = insert_uiview(&mut fresh, "Structural Analysis".to_string());
    let known: &[&'static str] = &["structural_analysis"];
    let back = restore_workspace(&mut fresh, ws2, PageTree { pages: Vec::new() }, &saved, known, "structural_analysis");
    let live_shape: Vec<(u32, String, Vec<(u32, String)>)> = live
        .pages
        .iter()
        .map(|p| (p.id.0, p.label.clone(), p.pods.iter().map(|q| (q.id.0, q.title.clone())).collect()))
        .collect();
    let back_shape: Vec<(u32, String, Vec<(u32, String)>)> = back
        .tree
        .pages
        .iter()
        .map(|p| (p.id.0, p.label.clone(), p.pods.iter().map(|q| (q.id.0, q.title.clone())).collect()))
        .collect();
    assert_eq!(live_shape, back_shape);
    assert_eq!(back.templates.page_template_of(PageId(1)), Some(&"results_table".to_string()));
    assert_eq!(back.templates.pod_template_of(PageId(0), PodId(0)), Some(&"wall_list".to_string()));
    assert_eq!(back.focused_page, Some(PageId(1)));
    assert_eq!(back.next_page_id, Some(2));

    assert_eq!(back.state.id, ContainerId(7));
    assert_eq!(back.state.icon, "beam");
    assert_eq!(back.state.intent, Visibility::Shown);
    assert!(back.tree.pages[0].pods[1].collapsed);
    assert!(!back.tree.pages[0].pods[0].collapsed);
    assert_eq!(back.pod_states[0][1].id, ContainerId(201));
    let other = capture_workspace(
        "home",
        BodyKind::Home,
        &live_state,
        &live,
        &live_pod_states,
        &Overrides::new(),
        PageId(0),
        &book,
        2,
    );
    assert!(other.page_templates.is_none() && other.pod_templates.is_none() && other.next_page_id.is_none());
}

#[test]
fn popups_start_closed_and_page_signals_drop_the_menu() {
    let mut p = Popups::initial();
    assert!(!p.overlay_open && !p.menu_pending);
    p.menu_pending = true;
    p.overlay_open = true;
    clear_menu_after_page_signal(&mut p);
    assert!(!p.menu_pending && p.overlay_open);
    let mut class = startup_input_class();
    assert_eq!(class, InputClass::Pointer);
    promote_input_to_hybrid(&mut class);
    assert_eq!(class, InputClass::Hybrid);
    promote_input_to_hybrid(&mut class);
    assert_eq!(class, InputClass::Hybrid);
    let mut touch = InputClass::Touch;
    promote_input_to_hybrid(&mut touch);
    assert_eq!(touch, InputClass::Touch);
}

#[test]
fn seam_menu_lists_split_merge_and_reset() {
    let items = page_menu_items(12, SeamDirection::Vertical, PageSide::Second);
    let labels: Vec<&str> = items.iter().map(|i| i.label).collect();
    assert_eq!(labels, vec!["Split vertical", "Split horizontal", "Merge ←", "Merge →", "Reset 50/50"]);
    assert_eq!(
        items[1].signal,
        MenuSignal::Split { seam: 12, direction: SeamDirection::Horizontal, side: PageSide::Second }
    );
    assert_eq!(items[2].signal, MenuSignal::Merge { seam: 12, keep: PageSide::First });
    assert_eq!(items[4].signal, MenuSignal::ResetRatio { seam: 12 });
    let across = page_menu_items(3, SeamDirection::Horizontal, PageSide::First);
    assert_eq!(across[2].label, "Merge ↑");
    assert_eq!(across[3].label, "Merge ↓");
}

#[test]
fn confirmed_field_is_written_onto_the_wall() {
    let mut graph = Graph::new();
    let wall = graph.insert_node(SpaceClass::Entity, "Wall 1".to_string(), PropMap::new());
    let other = graph.insert_node(SpaceClass::Entity, "Wall 2".to_string(), PropMap::new());
    let number = FieldWrite {
        wall,
        label: "Cover".to_string(),
        kind: FieldKind::Number,
        unit: "mm".to_string(),
        initial_bits: 2.5f64.to_bits(),
    };
    let (found, status) = apply_field_write(&mut graph, &number, "cover");
    assert!(found);
    assert_eq!(status, "signal: custom field cover");
    assert_eq!(node_prop(&graph, wall, "cover"), Some(&PropValue::Float(2.5f64.to_bits())));
    assert_eq!(node_prop(&graph, wall, "cover__unit"), Some(&PropValue::Text("mm".to_string())));
    assert_eq!(node_prop(&graph, other, "cover"), None);

    let flag = FieldWrite {
        wall,
        label: "Braced".to_string(),
        kind: FieldKind::Bool,
        unit: "ignored".to_string(),
        initial_bits: (-0.0f64).to_bits(),
    };
    apply_field_write(&mut graph, &flag, "braced");
    assert_eq!(node_prop(&graph, wall, "braced"), Some(&PropValue::Bool(false)));
    assert_eq!(node_prop(&graph, wall, "braced__unit"), None);
    let on = FieldWrite { initial_bits: 1.0f64.to_bits(), ..flag };
    apply_field_write(&mut graph, &on, "braced");
    assert_eq!(node_prop(&graph, wall, "braced"), Some(&PropValue::Bool(true)));

    let text = FieldWrite {
        wall,
        label: "Notes".to_string(),
        kind: FieldKind::Text,
        unit: String::new(),
        initial_bits: 0,
    };
    apply_field_write(&mut graph, &text, "notes");
    assert_eq!(node_prop(&graph, wall, "notes"), Some(&PropValue::Text(String::new())));

    let missing = FieldWrite { wall: NodeId(999), ..text };
    let (found, _) = apply_field_write(&mut graph, &missing, "notes");
    assert!(!found);
}

#[test]
fn confirm_hands_out_the_initial_value() {
    let mut draft: Option<FieldDraft> = None;
    field_builder_step(&mut draft, Some(NodeId(2)), AnalysisAction::OpenFieldBuilder);
    assert_eq!(draft.as_ref().unwrap().initial_bits, 0);
    draft.as_mut().unwrap().initial_bits = 3.0f64.to_bits();
    let out = field_builder_step(&mut draft, Some(NodeId(2)), AnalysisAction::ConfirmFieldBuilder);
    assert_eq!(out.write.unwrap().initial_bits, 3.0f64.to_bits());
}
