use innovator_workspace::containers::{binding_children, insert_root, insert_uiview, wire_home_nav_signals};
use innovator_workspace::graph::{Graph, NodeId};
use innovator_workspace::kind::WorkspaceKind;
use innovator_workspace::overrides::{ContainerId, Overrides, SizeClass, Visibility};
use innovator_workspace::page::Page;
use innovator_workspace::pagetree::{PageId, PodId};
use innovator_workspace::persist::{
    capture_overrides, capture_size_class, capture_visibility, intern_open_id, migrate_legacy_pod_collapse,
    restore_overrides, restore_size_class, restore_visibility, PersistedCollapseEntry, PersistedOverrideEntry,
    PersistedOverrides, PersistedSizeClass, PersistedVisibility, PodState, PERSIST_VERSION,
};
use innovator_workspace::registry::{Capability, CapabilitySet, WorkspaceDescriptor, WorkspaceRegistry};
use innovator_workspace::routing::{
    route_field_commit, route_sink_pointer, route_trigger, CommitRoute, SinkRoute, TriggerRoute, TriggerTables,
};
use innovator_workspace::shell::{
    add_workspace, handle_app_signal, open_workspace, select_workspace, startup_focus, update_focus_from_pointer,
    AppSignalOutcome, BodyKind, FocusItem, Shell, ShellWorkspace,
};
use innovator_workspace::signal::AppSignal;
use innovator_workspace::text::append_decimal;
use innovator_workspace::workspace::{default_pod_icons, EmptyWorkspace, ParticleId, WorkspaceId};

#[test]
fn collapse_overrides_roundtrip_scoped_by_size_class() {
    let mut o = Overrides::new();
    o.set_collapse(ContainerId(10), SizeClass::Compact, true);
    o.set_collapse(ContainerId(10), SizeClass::Large, false);
    let persisted = capture_overrides(&o);
    let restored = restore_overrides(&persisted);
    assert_eq!(restored.get_collapse(ContainerId(10), SizeClass::Compact), Some(true));
    assert_eq!(restored.get_collapse(ContainerId(10), SizeClass::Large), Some(false));
    assert!(restored.get_collapse(ContainerId(10), SizeClass::Medium).is_none());
}

#[test]
fn overrides_roundtrip_scoped_by_size_class() {
    let mut o = Overrides::new();
    o.set(ContainerId(10), SizeClass::Large, 0.5f32.to_bits());
    o.set(ContainerId(10), SizeClass::Compact, 0.2f32.to_bits());
    let persisted = capture_overrides(&o);
    let restored = restore_overrides(&persisted);
    let large = f32::from_bits(restored.get(ContainerId(10), SizeClass::Large).unwrap());
    let compact = f32::from_bits(restored.get(ContainerId(10), SizeClass::Compact).unwrap());
    assert!((large - 0.5).abs() < 1e-6);
    assert!((compact - 0.2).abs() < 1e-6);
    // Large entry does not affect Medium.
    assert!(restored.get(ContainerId(10), SizeClass::Medium).is_none());
}

#[test]
fn captured_overrides_are_sorted_by_container_then_class() {
    let mut o = Overrides::new();
    o.set(ContainerId(7), SizeClass::Large, 1);
    o.set(ContainerId(3), SizeClass::Medium, 2);
    o.set(ContainerId(7), SizeClass::Compact, 3);
    o.set(ContainerId(3), SizeClass::Medium, 4);
    let p = capture_overrides(&o);
    assert_eq!(
        p.entries,
        vec![
            PersistedOverrideEntry { id: 3, class: PersistedSizeClass::Medium, fraction_bits: 4 },
            PersistedOverrideEntry { id: 7, class: PersistedSizeClass::Compact, fraction_bits: 3 },
            PersistedOverrideEntry { id: 7, class: PersistedSizeClass::Large, fraction_bits: 1 },
        ]
    );
    assert!(p.collapse_entries.is_empty());
}

#[test]
fn restoring_lets_the_later_duplicate_win() {
    let p = PersistedOverrides {
        entries: vec![
            PersistedOverrideEntry { id: 1, class: PersistedSizeClass::Large, fraction_bits: 10 },
            PersistedOverrideEntry { id: 1, class: PersistedSizeClass::Large, fraction_bits: 20 },
        ],
        collapse_entries: vec![PersistedCollapseEntry { id: 2, class: PersistedSizeClass::Compact, collapsed: true }],
    };
    let o = restore_overrides(&p);
    assert_eq!(o.get(ContainerId(1), SizeClass::Large), Some(20));
    assert_eq!(o.get_collapse(ContainerId(2), SizeClass::Compact), Some(true));
    assert_eq!(o.get_collapse(ContainerId(1), SizeClass::Large), None);
}

#[test]
fn visibility_and_size_class_mappings_roundtrip() {
    for v in [Visibility::Shown, Visibility::Collapsed, Visibility::Hidden] {
        assert_eq!(restore_visibility(capture_visibility(v)), v);
    }
    assert_eq!(capture_visibility(Visibility::Collapsed), PersistedVisibility::Collapsed);
    for c in [SizeClass::Compact, SizeClass::Medium, SizeClass::Expanded, SizeClass::Large] {
        assert_eq!(restore_size_class(capture_size_class(c)), c);
    }
    assert_eq!(restore_size_class(PersistedSizeClass::Expanded), SizeClass::Expanded);
    assert_eq!(PERSIST_VERSION, 1);
}

#[test]
fn legacy_collapsed_pods_gain_flags_in_every_class() {
    let mut o = Overrides::new();
    o.set_collapse(ContainerId(5), SizeClass::Medium, false);
    let pods = [
        PodState { container: ContainerId(5), intent: Visibility::Collapsed },
        PodState { container: ContainerId(6), intent: Visibility::Shown },
    ];
    migrate_legacy_pod_collapse(&pods, &mut o);
    assert_eq!(o.get_collapse(ContainerId(5), SizeClass::Compact), Some(true));
    assert_eq!(o.get_collapse(ContainerId(5), SizeClass::Medium), Some(false));
    assert_eq!(o.get_collapse(ContainerId(5), SizeClass::Expanded), Some(true));
    assert_eq!(o.get_collapse(ContainerId(5), SizeClass::Large), Some(true));
    assert_eq!(o.get_collapse(ContainerId(6), SizeClass::Large), None);
}

#[test]
fn intern_open_id_falls_back_for_unknown_ids() {
    let known = ["home", "structural_analysis", "project_management"];
    assert_eq!(intern_open_id("structural_analysis", &known, "project_management"), "structural_analysis");
    assert_eq!(intern_open_id("bogus", &known, "project_management"), "project_management");
    assert_eq!(intern_open_id("", &known, "project_management"), "project_management");
}

fn ws(id: u64, open_id: &'static str, kind: BodyKind, intent: Visibility, node: NodeId) -> ShellWorkspace {
    ShellWorkspace {
        id: WorkspaceId(id),
        container: ContainerId(100 + id),
        label: open_id.to_string(),
        open_id,
        kind,
        intent,
        node_id: node,
        focused_page: PageId(1),
    }
}

fn sample_shell() -> Shell {
    let mut graph = Graph::new();
    let home = insert_uiview(&mut graph, "Home".to_string());
    let sa = insert_uiview(&mut graph, "Structural Analysis".to_string());
    let pm = insert_uiview(&mut graph, "Project Management".to_string());
    wire_home_nav_signals(
        &mut graph,
        home,
        &vec![(sa, "structural_analysis".to_string()), (pm, "project_management".to_string())],
    );
    Shell {
        workspaces: vec![
            ws(1, "home", BodyKind::Home, Visibility::Shown, home),
            ws(2, "structural_analysis", BodyKind::Analysis, Visibility::Hidden, sa),
            ws(3, "project_management", BodyKind::Placeholder, Visibility::Hidden, pm),
        ],
        focus: vec![FocusItem::Container(ContainerId(101))],
        next_workspace_id: 4,
        graph,
    }
}

fn shown(shell: &Shell) -> Vec<u64> {
    shell.workspaces.iter().filter(|w| w.intent == Visibility::Shown).map(|w| w.id.0).collect()
}

#[test]
fn set_active_shows_exactly_the_selected_workspace() {
    let mut shell = sample_shell();
    assert!(shell.set_active(WorkspaceId(2)));
    assert_eq!(shown(&shell), vec![2]);
    assert_eq!(shell.active().unwrap().id, WorkspaceId(2));
    assert_eq!(shell.focus, vec![FocusItem::Container(ContainerId(102)), FocusItem::Page(PageId(1))]);
    assert!(shell.set_active(WorkspaceId(1)));
    assert_eq!(shell.focus, vec![FocusItem::Container(ContainerId(101))]);
    assert!(!shell.set_active(WorkspaceId(9)));
    assert_eq!(shown(&shell), vec![1]);
}

#[test]
fn add_workspace_titles_and_selects_the_new_structural_workspace() {
    let mut shell = sample_shell();
    assert_eq!(shell.next_structural_title(), "Structural Analysis 2");
    let id = add_workspace(&mut shell, ContainerId(50), NodeId(77), PageId(0));
    assert_eq!(id, WorkspaceId(4));
    assert_eq!(shell.next_workspace_id, 5);
    let added = shell.workspaces.last().unwrap();
    assert_eq!(added.label, "Structural Analysis 2");
    assert_eq!(added.open_id, "structural_analysis");
    assert_eq!(shown(&shell), vec![4]);
    assert_eq!(shell.focus, vec![FocusItem::Container(ContainerId(50)), FocusItem::Page(PageId(0))]);
    assert_eq!(shell.next_structural_title(), "Structural Analysis 3");
}

#[test]
fn open_workspace_follows_the_home_signal() {
    let mut shell = sample_shell();
    assert!(open_workspace(&mut shell, "project_management"));
    assert_eq!(shown(&shell), vec![3]);
    assert!(!open_workspace(&mut shell, "devtools_graph"));
    assert_eq!(shown(&shell), vec![3]);
}

#[test]
fn open_workspace_without_home_does_nothing() {
    let mut shell = sample_shell();
    shell.workspaces.remove(0);
    assert!(!open_workspace(&mut shell, "structural_analysis"));
    assert!(shown(&shell).is_empty());
}

#[test]
fn app_signals_route_to_selection_and_adding() {
    let mut shell = sample_shell();
    assert_eq!(handle_app_signal(&mut shell, AppSignal::SelectWorkspace(WorkspaceId(3))), AppSignalOutcome::Rebuild);
    assert_eq!(shown(&shell), vec![3]);
    assert_eq!(handle_app_signal(&mut shell, AppSignal::SelectWorkspace(WorkspaceId(42))), AppSignalOutcome::Unchanged);
    assert_eq!(handle_app_signal(&mut shell, AppSignal::AddWorkspace), AppSignalOutcome::AddStructural);
    assert_eq!(shell.workspaces.len(), 3);
    assert_eq!(
        handle_app_signal(&mut shell, AppSignal::OpenWorkspace("structural_analysis")),
        AppSignalOutcome::Rebuild
    );
    assert_eq!(shown(&shell), vec![2]);
}

#[test]
fn pointer_focus_updates_chain_and_focused_page() {
    let mut shell = sample_shell();
    assert!(shell.set_active(WorkspaceId(2)));
    assert!(update_focus_from_pointer(&mut shell, Some((PageId(2), Some(PodId(4))))));
    assert_eq!(
        shell.focus,
        vec![FocusItem::Container(ContainerId(102)), FocusItem::Page(PageId(2)), FocusItem::Pod(PodId(4))]
    );
    assert_eq!(shell.workspaces[1].focused_page, PageId(2));
    assert!(!update_focus_from_pointer(&mut shell, Some((PageId(2), Some(PodId(4))))));
    assert!(!update_focus_from_pointer(&mut shell, None));
}

#[test]
fn show_page_focuses_page_in_paged_bodies() {
    let mut shell = sample_shell();
    assert!(!shell.show_page(PageId(3)));
    assert_eq!(shell.focus, vec![FocusItem::Container(ContainerId(101)), FocusItem::Page(PageId(3))]);
    assert!(shell.set_active(WorkspaceId(3)));
    assert!(shell.show_page(PageId(0)));
    assert_eq!(shell.workspaces[2].focused_page, PageId(0));
}

#[test]
fn startup_prefers_the_shown_workspace() {
    let shell = sample_shell();
    let (i, chain) = startup_focus(&shell.workspaces);
    assert_eq!(i, 0);
    assert_eq!(chain, vec![FocusItem::Container(ContainerId(101)), FocusItem::Page(PageId(1))]);
    let mut hidden = sample_shell().workspaces;
    for w in hidden.iter_mut() {
        w.intent = Visibility::Hidden;
    }
    hidden[0].kind = BodyKind::GraphView;
    let (i, chain) = startup_focus(&hidden);
    assert_eq!(i, 0);
    assert_eq!(chain, vec![FocusItem::Container(ContainerId(101))]);
}

#[test]
fn decimal_text_of_numbers() {
    let mut s = String::from("n=");
    append_decimal(&mut s, 0);
    assert_eq!(s, "n=0");
    let mut t = String::new();
    append_decimal(&mut t, 1024);
    assert_eq!(t, "1024");
    let mut u = String::new();
    append_decimal(&mut u, u64::MAX);
    assert_eq!(u, u64::MAX.to_string());
}

fn tables() -> TriggerTables {
    TriggerTables {
        context_menu: vec![ParticleId(1)],
        tab_strip: vec![ParticleId(2), ParticleId(1)],
        home_actions: vec![ParticleId(3)],
        header: vec![ParticleId(4)],
        nav: vec![ParticleId(5)],
        results: vec![ParticleId(6)],
        analysis_actions: vec![ParticleId(7)],
        promote_props: vec![ParticleId(8)],
        icon_rail: vec![ParticleId(9)],
        pod_collapse: vec![ParticleId(10)],
        page_show: vec![ParticleId(11)],
        page_split: vec![ParticleId(12), ParticleId(2)],
    }
}

#[test]
fn triggers_route_by_table_precedence() {
    let t = tables();
    assert_eq!(route_trigger(&t, ParticleId(1)), Some(TriggerRoute::ContextMenu));
    assert_eq!(route_trigger(&t, ParticleId(2)), Some(TriggerRoute::TabStrip));
    assert_eq!(route_trigger(&t, ParticleId(7)), Some(TriggerRoute::AnalysisAction));
    assert_eq!(route_trigger(&t, ParticleId(12)), Some(TriggerRoute::PageSplit));
    assert_eq!(route_trigger(&t, ParticleId(99)), None);
}

#[test]
fn field_commits_and_sink_pointers_route() {
    let builder = vec![ParticleId(1)];
    let fields = vec![ParticleId(1), ParticleId(2)];
    assert_eq!(route_field_commit(&builder, &fields, ParticleId(1)), Some(CommitRoute::Builder));
    assert_eq!(route_field_commit(&builder, &fields, ParticleId(2)), Some(CommitRoute::Field));
    assert_eq!(route_field_commit(&builder, &fields, ParticleId(3)), None);
    let sinks = vec![(ParticleId(5), NodeId(50)), (ParticleId(6), NodeId(60))];
    assert_eq!(route_sink_pointer(Some(ParticleId(5)), &sinks, ParticleId(5), false), Some(SinkRoute::WallView));
    assert_eq!(route_sink_pointer(None, &sinks, ParticleId(6), true), Some(SinkRoute::WallSelected(NodeId(60))));
    assert_eq!(route_sink_pointer(None, &sinks, ParticleId(6), false), None);
    assert_eq!(route_sink_pointer(None, &sinks, ParticleId(7), true), None);
}

#[test]
fn registry_filters_by_capability_and_finds_by_kind() {
    let mut reg = WorkspaceRegistry::new();
    reg.register(WorkspaceDescriptor { kind_id: "home", label: "Home", icon: "H", required: vec![] });
    reg.register(WorkspaceDescriptor {
        kind_id: "structural_analysis",
        label: "Structural Analysis",
        icon: "S",
        required: vec![Capability(1), Capability(2)],
    });
    reg.register(WorkspaceDescriptor {
        kind_id: "project_management",
        label: "Project Management",
        icon: "P",
        required: vec![Capability(3)],
    });
    let caps = CapabilitySet { granted: vec![Capability(2), Capability(1)] };
    assert_eq!(reg.available_for(&caps), vec![0, 1]);
    let none = CapabilitySet { granted: vec![] };
    assert_eq!(reg.available_for(&none), vec![0]);
    assert_eq!(reg.find("project_management").unwrap().label, "Project Management");
    assert!(reg.find("missing").is_none());
    assert!(caps.has(Capability(1)));
    assert!(!caps.has(Capability(3)));
}

#[test]
fn kinds_pages_and_icons() {
    assert_eq!(WorkspaceKind::Analysis.default_title(), "Structural Analysis");
    assert_eq!(WorkspaceKind::Empty.default_title(), "Empty");
    assert_eq!(Page::all(), [Page::Navigation, Page::Analysis, Page::Results]);
    assert_eq!(Page::Results.title(), "Results");
    assert_eq!(Page::Analysis.leaf_id(), 1);
    let icons = default_pod_icons(8);
    assert_eq!(icons.len(), 8);
    assert_eq!(icons[0], (0, "≡"));
    assert_eq!(icons[7], (7, "•"));
    let e = EmptyWorkspace::new(WorkspaceId(9));
    assert_eq!(e.tab.id, WorkspaceId(9));
    assert_eq!(e.tab.kind, WorkspaceKind::Empty);
}


#[test]
fn start_binds_workspaces_wires_home_and_focuses_the_shown_one() {
    let mut graph = Graph::new();
    let root = insert_root(&mut graph);
    let home = insert_uiview(&mut graph, "Home".to_string());
    let sa = insert_uiview(&mut graph, "Structural Analysis".to_string());
    let gv = insert_uiview(&mut graph, "Graph".to_string());
    let workspaces = vec![
        ws(1, "home", BodyKind::Home, Visibility::Hidden, home),
        ws(2, "structural_analysis", BodyKind::Analysis, Visibility::Shown, sa),
        ws(3, "devtools_graph", BodyKind::GraphView, Visibility::Hidden, gv),
    ];
    let nav = vec!["structural_analysis", "project_management", "devtools_graph"];
    let mut shell = Shell::new(workspaces, 4, graph, root, &nav);
    assert_eq!(binding_children(&shell.graph, root), vec![home, sa, gv]);
    assert_eq!(shell.focus, vec![FocusItem::Container(ContainerId(102)), FocusItem::Page(PageId(1))]);
    assert!(open_workspace(&mut shell, "devtools_graph"));
    assert_eq!(shown(&shell), vec![3]);
    assert!(!open_workspace(&mut shell, "project_management"));
    assert!(open_workspace(&mut shell, "structural_analysis"));
    assert_eq!(shown(&shell), vec![2]);
}

#[test]
fn select_workspace_reports_whether_it_selected() {
    let mut shell = sample_shell();
    assert!(select_workspace(&mut shell, WorkspaceId(3)));
    assert_eq!(shown(&shell), vec![3]);
    assert!(!select_workspace(&mut shell, WorkspaceId(77)));
    assert_eq!(shown(&shell), vec![3]);
}

#[test]
fn default_registry_is_empty() {
    let reg = WorkspaceRegistry::default();
    assert!(reg.descriptors.is_empty());
    assert!(reg.find("home").is_none());
}
