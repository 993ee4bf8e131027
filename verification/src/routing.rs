//! Which handler a fired UI event belongs to. Trigger particles are looked up in
//! the shell's trigger tables in a fixed precedence order; field commits and sink
//! pointers have their own small tables.

use crate::graph::NodeId;
use crate::workspace::ParticleId;
use vstd::prelude::*;

verus! {

/// The table a fired trigger was found in.
#[derive(Debug, Clone, Copy, PartialEq, Eq, Structural)]
pub enum TriggerRoute {
    /// Page context menu entry (also dismisses the menu).
    ContextMenu,
    /// Workspace tab strip (an app signal).
    TabStrip,
    /// Home dashboard action (an app signal).
    HomeAction,
    /// Workspace header action (a workspace signal).
    Header,
    /// Navigation page trigger (a workspace signal).
    Nav,
    /// Results page trigger (a workspace signal).
    Results,
    /// Analysis form action.
    AnalysisAction,
    /// Promote-property trigger.
    PromoteProp,
    /// Icon rail entry: scroll to a pod.
    IconRail,
    /// Pod collapse toggle.
    PodCollapse,
    /// Page rail entry: show a page.
    PageShow,
    /// Split-page trigger.
    PageSplit,
}

/// Trigger particle ids of each table the shell consults.
#[derive(Debug)]
pub struct TriggerTables {
    pub context_menu: Vec<ParticleId>,
    pub tab_strip: Vec<ParticleId>,
    pub home_actions: Vec<ParticleId>,
    pub header: Vec<ParticleId>,
    pub nav: Vec<ParticleId>,
    pub results: Vec<ParticleId>,
    pub analysis_actions: Vec<ParticleId>,
    pub promote_props: Vec<ParticleId>,
    pub icon_rail: Vec<ParticleId>,
    pub pod_collapse: Vec<ParticleId>,
    pub page_show: Vec<ParticleId>,
    pub page_split: Vec<ParticleId>,
}

/// The first table, in precedence order, that holds `id`.
pub open spec fn trigger_route(t: TriggerTables, id: ParticleId) -> Option<TriggerRoute> {
    if t.context_menu@.contains(id) {
        Some(TriggerRoute::ContextMenu)
    } else if t.tab_strip@.contains(id) {
        Some(TriggerRoute::TabStrip)
    } else if t.home_actions@.contains(id) {
        Some(TriggerRoute::HomeAction)
    } else if t.header@.contains(id) {
        Some(TriggerRoute::Header)
    } else if t.nav@.contains(id) {
        Some(TriggerRoute::Nav)
    } else if t.results@.contains(id) {
        Some(TriggerRoute::Results)
    } else if t.analysis_actions@.contains(id) {
        Some(TriggerRoute::AnalysisAction)
    } else if t.promote_props@.contains(id) {
        Some(TriggerRoute::PromoteProp)
    } else if t.icon_rail@.contains(id) {
        Some(TriggerRoute::IconRail)
    } else if t.pod_collapse@.contains(id) {
        Some(TriggerRoute::PodCollapse)
    } else if t.page_show@.contains(id) {
        Some(TriggerRoute::PageShow)
    } else if t.page_split@.contains(id) {
        Some(TriggerRoute::PageSplit)
    } else {
        None
    }
}

/// Whether `v` holds `id`.
pub fn holds(v: &Vec<ParticleId>, id: ParticleId) -> (r: bool)
    ensures
        r == v@.contains(id),
{
    let n = v.len();
    let mut i: usize = 0;
    while i < n
        invariant
            n == v@.len(),
            i <= n,
            forall|k: int| 0 <= k < i ==> v@[k] != id,
        decreases n - i,
    {
        if v[i] == id {
            assert(v@[i as int] == id);
            return true;
        }
        i = i + 1;
    }
    false
}

/// Route a fired trigger to the first table that holds it.
pub fn route_trigger(t: &TriggerTables, id: ParticleId) -> (r: Option<TriggerRoute>)
    ensures
        r == trigger_route(*t, id),
{
    if holds(&t.context_menu, id) {
        Some(TriggerRoute::ContextMenu)
    } else if holds(&t.tab_strip, id) {
        Some(TriggerRoute::TabStrip)
    } else if holds(&t.home_actions, id) {
        Some(TriggerRoute::HomeAction)
    } else if holds(&t.header, id) {
        Some(TriggerRoute::Header)
    } else if holds(&t.nav, id) {
        Some(TriggerRoute::Nav)
    } else if holds(&t.results, id) {
        Some(TriggerRoute::Results)
    } else if holds(&t.analysis_actions, id) {
        Some(TriggerRoute::AnalysisAction)
    } else if holds(&t.promote_props, id) {
        Some(TriggerRoute::PromoteProp)
    } else if holds(&t.icon_rail, id) {
        Some(TriggerRoute::IconRail)
    } else if holds(&t.pod_collapse, id) {
        Some(TriggerRoute::PodCollapse)
    } else if holds(&t.page_show, id) {
        Some(TriggerRoute::PageShow)
    } else if holds(&t.page_split, id) {
        Some(TriggerRoute::PageSplit)
    } else {
        None
    }
}

/// Which editor a committed field belongs to.
#[derive(Debug, Clone, Copy, PartialEq, Eq, Structural)]
pub enum CommitRoute {
    /// A field of the field builder.
    Builder,
    /// A property field of the input form.
    Field,
}

/// Route a field commit: field-builder slots first, then property fields.
pub fn route_field_commit(builder_slots: &Vec<ParticleId>, field_props: &Vec<ParticleId>, id: ParticleId) -> (r: Option<
    CommitRoute,
>)
    ensures
        r == if builder_slots@.contains(id) {
            Some(CommitRoute::Builder)
        } else if field_props@.contains(id) {
            Some(CommitRoute::Field)
        } else {
            None
        },
{
    if holds(builder_slots, id) {
        Some(CommitRoute::Builder)
    } else if holds(field_props, id) {
        Some(CommitRoute::Field)
    } else {
        None
    }
}

/// What a pointer event on a sink particle means.
#[derive(Debug, Clone, Copy, PartialEq, Eq, Structural)]
pub enum SinkRoute {
    /// Pointer input for the wall view.
    WallView,
    /// A wall was picked from the wall list.
    WallSelected(NodeId),
}

/// The wall node listed under sink `id` first, if any.
pub open spec fn wall_of(sinks: Seq<(ParticleId, NodeId)>, id: ParticleId) -> Option<NodeId>
    decreases sinks.len(),
{
    if sinks.len() == 0 {
        None
    } else if sinks[0].0 == id {
        Some(sinks[0].1)
    } else {
        wall_of(sinks.drop_first(), id)
    }
}

/// Route a sink pointer event: the wall view's sink takes every pointer event; a
/// wall-list sink selects its wall when the pointer is released.
pub fn route_sink_pointer(
    wall_view_sink: Option<ParticleId>,
    wall_sinks: &Vec<(ParticleId, NodeId)>,
    id: ParticleId,
    released: bool,
) -> (r: Option<SinkRoute>)
    ensures
        r == if wall_view_sink == Some(id) {
            Some(SinkRoute::WallView)
        } else if released {
            match wall_of(wall_sinks@, id) {
                Some(n) => Some(SinkRoute::WallSelected(n)),
                None => None,
            }
        } else {
            None
        },
{
    let is_view = match wall_view_sink {
        Some(v) => v == id,
        None => false,
    };
    if is_view {
        return Some(SinkRoute::WallView);
    }
    if !released {
        return None;
    }
    let n = wall_sinks.len();
    let mut i: usize = 0;
    assert(wall_sinks@.skip(0) =~= wall_sinks@);
    while i < n
        invariant
            n == wall_sinks@.len(),
            i <= n,
            wall_view_sink != Some(id),
            released,
            wall_of(wall_sinks@, id) == wall_of(wall_sinks@.skip(i as int), id),
        decreases n - i,
    {
        let e = wall_sinks[i];
        assert(wall_sinks@.skip(i as int)[0] == e);
        assert(wall_sinks@.skip(i as int).drop_first() =~= wall_sinks@.skip(i + 1));
        if e.0 == id {
            assert(wall_sinks@.skip(i as int).len() > 0);
            assert(wall_of(wall_sinks@.skip(i as int), id) == Some(e.1));
            return Some(SinkRoute::WallSelected(e.1));
        }
        i = i + 1;
    }
    assert(wall_sinks@.skip(n as int).len() == 0);
    None
}

} // verus!
