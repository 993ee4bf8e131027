//! The decisions of an analysis workspace: what a workspace signal does to the active
//! wall and its results, and what the field builder does with each of its actions.
//! The wall store, the results store and the engine answer through the events.

use crate::graph::{Graph, Node, NodeId, PropValue, PropValueView};
use crate::handlers::SignalResult;
use crate::results::{governing_of, pass_of, summary_from_results, timestamp_of, ResultsSummary};
use crate::signal::AnalysisAction;
use vstd::prelude::*;
use vstd::string::StrSliceExecFns;

verus! {

/// The wall-analysis state of an analysis workspace.
#[derive(Debug)]
pub struct WallState {
    pub active_wall: Option<NodeId>,
    /// The results node of the last analysis.
    pub last_results: Option<Node>,
    /// Its summary.
    pub last_analysis: Option<ResultsSummary>,
}

/// A workspace signal, together with what the stores answered for it.
#[derive(Debug)]
pub enum WallEvent {
    /// New Wall: the wall store created the wall with this node.
    NewWall(NodeId),
    /// A wall was picked: `known` tells whether the workspace lists it, `loaded` is the
    /// results stored for it.
    WallSelected { id: NodeId, known: bool, loaded: Option<Node> },
    /// Run Analysis was asked for.
    RunAnalysis,
    /// The engine ran on the active wall; this is its stored results node.
    AnalysisDone(Node),
    /// Analysis completion was reported.
    AnalysisComplete,
    /// Save was asked for.
    Save,
    /// Export was asked for.
    Export,
}

/// The outside work that follows a workspace signal.
#[derive(Debug, Clone, Copy, PartialEq, Eq, Structural)]
pub enum WallAction {
    Nothing,
    /// Point the wall pods at this wall: the wall list's streams, the input form's
    /// binding, and an emptied results pod (refilled from the last results, if any).
    FocusWall(NodeId),
    /// Run the engine on this wall, store its results and report `AnalysisDone`.
    RunEngine(NodeId),
    /// Export the last results and report how it went.
    ExportResults,
}

/// What a workspace signal came to, and the work that follows it.
#[derive(Debug)]
pub struct WallOutcome {
    pub result: SignalResult,
    pub action: WallAction,
}

/// `s` is the summary of the results node `n`.
pub open spec fn summarizes(s: ResultsSummary, n: Node) -> bool {
    &&& s.overall_pass == pass_of(n.props.get_spec("overall_pass"@))
    &&& s.governing@ == governing_of(n.props.get_spec("governing"@))
    &&& s.run_timestamp == timestamp_of(n.props.get_spec("run_timestamp"@))
}

/// `after` is `before` with the results (and their summary) replaced by `loaded`.
pub open spec fn results_set(after: WallState, loaded: Option<Node>) -> bool {
    &&& after.last_results == loaded
    &&& match loaded {
        Some(n) => after.last_analysis is Some && summarizes(after.last_analysis->0, n),
        None => after.last_analysis is None,
    }
}

/// Apply a workspace signal to the wall state of the active analysis workspace.
/// New Wall makes the new wall active and forgets the results; selecting a listed wall
/// makes it active with its stored results; Run Analysis asks the engine to run on the
/// active wall when the graph holds it, else reports that there is none; a finished run
/// keeps its results; Export exports the last results, or reports that there are none.
pub fn workspace_signal_step(state: &mut WallState, graph: &Graph, event: WallEvent) -> (out: WallOutcome)
    requires
        graph.wf(),
        match event {
            WallEvent::WallSelected { loaded: Some(n), .. } => n.props.wf(),
            WallEvent::AnalysisDone(n) => n.props.wf(),
            _ => true,
        },
    ensures
        match event {
            WallEvent::NewWall(id) => {
                &&& final(state).active_wall == Some(id)
                &&& final(state).last_results is None
                &&& final(state).last_analysis is None
                &&& out.result == SignalResult::WallCreated(id)
                &&& out.action == WallAction::FocusWall(id)
            },
            WallEvent::WallSelected { id, known, loaded } => if known {
                &&& final(state).active_wall == Some(id)
                &&& results_set(*final(state), loaded)
                &&& out.result == SignalResult::WallSelected(id)
                &&& out.action == WallAction::FocusWall(id)
            } else {
                &&& *final(state) == *old(state)
                &&& out.result == SignalResult::NothingDone
                &&& out.action == WallAction::Nothing
            },
            WallEvent::RunAnalysis => {
                &&& *final(state) == *old(state)
                &&& match old(state).active_wall {
                    Some(w) => if graph.has_node(w) {
                        out.result == SignalResult::NothingDone && out.action == WallAction::RunEngine(w)
                    } else {
                        out.result == SignalResult::NoActiveWall && out.action == WallAction::Nothing
                    },
                    None => out.result == SignalResult::NoActiveWall && out.action == WallAction::Nothing,
                }
            },
            WallEvent::AnalysisDone(n) => {
                &&& final(state).active_wall == old(state).active_wall
                &&& results_set(*final(state), Some(n))
                &&& out.result == SignalResult::AnalysisComplete
                &&& out.action == WallAction::Nothing
            },
            WallEvent::AnalysisComplete => *final(state) == *old(state) && out.result == SignalResult::AnalysisComplete
                && out.action == WallAction::Nothing,
            WallEvent::Save => *final(state) == *old(state) && out.result == SignalResult::Saved && out.action
                == WallAction::Nothing,
            WallEvent::Export => {
                &&& *final(state) == *old(state)
                &&& if old(state).last_results is Some {
                    out.result == SignalResult::NothingDone && out.action == WallAction::ExportResults
                } else {
                    out.result == SignalResult::NoResults && out.action == WallAction::Nothing
                }
            },
        },
{
    match event {
        WallEvent::NewWall(id) => {
            state.active_wall = Some(id);
            state.last_results = None;
            state.last_analysis = None;
            WallOutcome { result: SignalResult::WallCreated(id), action: WallAction::FocusWall(id) }
        },
        WallEvent::WallSelected { id, known, loaded } => {
            if known {
                state.active_wall = Some(id);
                let summary = match &loaded {
                    Some(n) => Some(summary_from_results(n)),
                    None => None,
                };
                state.last_analysis = summary;
                state.last_results = loaded;
                WallOutcome { result: SignalResult::WallSelected(id), action: WallAction::FocusWall(id) }
            } else {
                WallOutcome { result: SignalResult::NothingDone, action: WallAction::Nothing }
            }
        },
        WallEvent::RunAnalysis => match state.active_wall {
            Some(w) => {
                if graph.contains_node(w) {
                    WallOutcome { result: SignalResult::NothingDone, action: WallAction::RunEngine(w) }
                } else {
                    WallOutcome { result: SignalResult::NoActiveWall, action: WallAction::Nothing }
                }
            },
            None => WallOutcome { result: SignalResult::NoActiveWall, action: WallAction::Nothing },
        },
        WallEvent::AnalysisDone(n) => {
            let summary = summary_from_results(&n);
            state.last_analysis = Some(summary);
            state.last_results = Some(n);
            WallOutcome { result: SignalResult::AnalysisComplete, action: WallAction::Nothing }
        },
        WallEvent::AnalysisComplete => WallOutcome { result: SignalResult::AnalysisComplete, action: WallAction::Nothing },
        WallEvent::Save => WallOutcome { result: SignalResult::Saved, action: WallAction::Nothing },
        WallEvent::Export => {
            if state.last_results.is_some() {
                WallOutcome { result: SignalResult::NothingDone, action: WallAction::ExportResults }
            } else {
                WallOutcome { result: SignalResult::NoResults, action: WallAction::Nothing }
            }
        },
    }
}

/// The type of a custom wall field.
#[derive(Debug, Clone, Copy, PartialEq, Eq, Structural)]
pub enum FieldKind {
    Number,
    Text,
    Bool,
}

/// A custom field being built; its initial number is held by its IEEE-754 bits.
#[derive(Debug)]
pub struct FieldDraft {
    pub label: String,
    pub kind: FieldKind,
    pub unit: String,
    pub initial_bits: u64,
}

/// A confirmed custom field, to be written as a property of `wall`.
#[derive(Debug)]
pub struct FieldWrite {
    pub wall: NodeId,
    pub label: String,
    pub kind: FieldKind,
    pub unit: String,
    pub initial_bits: u64,
}

/// What a field-builder action came to.
#[derive(Debug)]
pub struct FieldBuilderOutcome {
    /// Rebuild the workspace.
    pub rebuild: bool,
    /// Status text for opening and cancelling the builder.
    pub status: Option<String>,
    /// The kind the draft was switched to.
    pub kind_set: Option<FieldKind>,
    /// The field to write when a draft was confirmed with an active wall.
    pub write: Option<FieldWrite>,
}

/// The kind that a kind action picks.
pub open spec fn action_kind(action: AnalysisAction) -> Option<FieldKind> {
    match action {
        AnalysisAction::FieldKindNumber => Some(FieldKind::Number),
        AnalysisAction::FieldKindText => Some(FieldKind::Text),
        AnalysisAction::FieldKindBool => Some(FieldKind::Bool),
        _ => None,
    }
}

/// Apply a field-builder action: open starts a fresh draft (empty label and unit, a
/// number starting at zero), cancel drops the draft, a kind action switches the draft's kind when there
/// is a draft, and confirm takes the draft and, when a wall is active, hands it out to
/// be written onto that wall.
pub fn field_builder_step(draft: &mut Option<FieldDraft>, active_wall: Option<NodeId>, action: AnalysisAction) -> (out:
    FieldBuilderOutcome)
    ensures
        match action {
            AnalysisAction::OpenFieldBuilder => {
                &&& (*final(draft)) is Some
                &&& (*final(draft))->0.label@ == Seq::<char>::empty()
                &&& (*final(draft))->0.unit@ == Seq::<char>::empty()
                &&& (*final(draft))->0.kind == FieldKind::Number
                &&& (*final(draft))->0.initial_bits == 0
                &&& out.rebuild
                &&& out.status is Some && out.status->0@ == "signal: FieldBuilder open"@
                &&& out.kind_set is None && out.write is None
            },
            AnalysisAction::CancelFieldBuilder => {
                &&& (*final(draft)) is None
                &&& out.rebuild
                &&& out.status is Some && out.status->0@ == "signal: FieldBuilder cancel"@
                &&& out.kind_set is None && out.write is None
            },
            AnalysisAction::ConfirmFieldBuilder => {
                &&& (*final(draft)) is None
                &&& out.rebuild
                &&& out.status is None && out.kind_set is None
                &&& match (*old(draft), active_wall) {
                    (Some(d), Some(w)) => out.write is Some && out.write->0.wall == w && out.write->0.label@ == d.label@
                        && out.write->0.kind == d.kind && out.write->0.unit@ == d.unit@ && out.write->0.initial_bits
                        == d.initial_bits,
                    _ => out.write is None,
                }
            },
            _ => {
                &&& out.status is None && out.write is None
                &&& match *old(draft) {
                    Some(d) => {
                        &&& (*final(draft)) is Some
                        &&& (*final(draft))->0.kind == action_kind(action)->0
                        &&& (*final(draft))->0.label == d.label && (*final(draft))->0.unit == d.unit
                        &&& (*final(draft))->0.initial_bits == d.initial_bits
                        &&& out.rebuild && out.kind_set == action_kind(action)
                    },
                    None => (*final(draft)) is None && !out.rebuild && out.kind_set is None,
                }
            },
        },
{
    match action {
        AnalysisAction::OpenFieldBuilder => {
            *draft = Some(FieldDraft { label: String::new(), kind: FieldKind::Number, unit: String::new(), initial_bits: 0 });
            FieldBuilderOutcome {
                rebuild: true,
                status: Some(String::from_str("signal: FieldBuilder open")),
                kind_set: None,
                write: None,
            }
        },
        AnalysisAction::CancelFieldBuilder => {
            *draft = None;
            FieldBuilderOutcome {
                rebuild: true,
                status: Some(String::from_str("signal: FieldBuilder cancel")),
                kind_set: None,
                write: None,
            }
        },
        AnalysisAction::ConfirmFieldBuilder => {
            let taken = draft.take();
            let write = match (taken, active_wall) {
                (Some(d), Some(w)) => Some(
                    FieldWrite { wall: w, label: d.label, kind: d.kind, unit: d.unit, initial_bits: d.initial_bits },
                ),
                _ => None,
            };
            FieldBuilderOutcome { rebuild: true, status: None, kind_set: None, write }
        },
        _ => {
            let kind = match action {
                AnalysisAction::FieldKindNumber => FieldKind::Number,
                AnalysisAction::FieldKindText => FieldKind::Text,
                _ => FieldKind::Bool,
            };
            match draft {
                Some(d) => {
                    d.kind = kind;
                    FieldBuilderOutcome { rebuild: true, status: None, kind_set: Some(kind), write: None }
                },
                None => FieldBuilderOutcome { rebuild: false, status: None, kind_set: None, write: None },
            }
        },
    }
}

/// The value a confirmed field starts with: the initial number for a number, an empty
/// text for a text, and for a flag whether the initial number is other than zero (of
/// either sign).
pub open spec fn field_value(w: FieldWrite) -> PropValueView {
    match w.kind {
        FieldKind::Number => PropValueView::Float(w.initial_bits),
        FieldKind::Text => PropValueView::Text(Seq::empty()),
        FieldKind::Bool => PropValueView::Bool(w.initial_bits & 0x7fff_ffff_ffff_ffffu64 != 0),
    }
}

/// The key of the unit property that goes with the property `key`.
pub open spec fn unit_key(key: Seq<char>) -> Seq<char> {
    key + "__unit"@
}

/// A number field with a unit also records the unit.
pub open spec fn writes_unit(w: FieldWrite) -> bool {
    w.kind == FieldKind::Number && w.unit@.len() > 0
}

/// `after` is the wall `before` with the field `w` written under `key`.
pub open spec fn field_written(before: Node, after: Node, w: FieldWrite, key: Seq<char>) -> bool {
    &&& after.id == before.id
    &&& after.space_class == before.space_class
    &&& after.label == before.label
    &&& after.props.get_spec(key) == Some(field_value(w))
    &&& after.props.get_spec(unit_key(key)) == if writes_unit(w) {
        Some(PropValueView::Text(w.unit@))
    } else {
        before.props.get_spec(unit_key(key))
    }
    &&& forall|k: Seq<char>| k != key && k != unit_key(key) ==> #[trigger] after.props.get_spec(k) == before.props.get_spec(k)
}

/// Write a confirmed custom field onto its wall under `key`: the field's value by kind,
/// and for a number with a unit also the unit under `{key}__unit`; every other property
/// and node stays. Returns the status line and whether the wall was found.
pub fn apply_field_write(graph: &mut Graph, write: &FieldWrite, key: &str) -> (out: (bool, String))
    requires
        old(graph).wf(),
    ensures
        final(graph).wf(),
        out.0 == old(graph).has_node(write.wall),
        out.1@ == "signal: custom field "@ + key@,
        final(graph).edges@ == old(graph).edges@,
        final(graph).next_node_id == old(graph).next_node_id,
        final(graph).next_edge_id == old(graph).next_edge_id,
        final(graph).nodes@.len() == old(graph).nodes@.len(),
        forall|i: int| 0 <= i < old(graph).nodes@.len() && old(graph).nodes@[i].id != write.wall
            ==> #[trigger] final(graph).nodes@[i] == old(graph).nodes@[i],
        forall|i: int| 0 <= i < old(graph).nodes@.len() && old(graph).nodes@[i].id == write.wall ==> #[trigger] field_written(
            old(graph).nodes@[i],
            final(graph).nodes@[i],
            *write,
            key@,
        ),
{
    let value = match write.kind {
        FieldKind::Number => PropValue::Float(write.initial_bits),
        FieldKind::Text => PropValue::Text(String::new()),
        FieldKind::Bool => PropValue::Bool(write.initial_bits & 0x7fff_ffff_ffff_ffffu64 != 0),
    };
    proof {
        assert(value@ == field_value(*write)) by {
            reveal_strlit("");
        }
    }
    let ghost g0 = *graph;
    let k1 = String::from_str(key);
    let found = graph.set_node_prop(write.wall, k1, value);
    let ghost g1 = *graph;
    let mut ukey = String::from_str(key);
    ukey.append("__unit");
    proof {
        reveal_strlit("__unit");
        assert(ukey@ == unit_key(key@));
        assert(ukey@.len() == key@.len() + 6);
        assert(unit_key(key@) != key@);
    }
    if write.kind == FieldKind::Number && write.unit.as_str().unicode_len() > 0 {
        let uval = PropValue::Text(write.unit.clone());
        graph.set_node_prop(write.wall, ukey, uval);
        proof {
            assert(writes_unit(*write));
            assert forall|i: int| 0 <= i < g0.nodes@.len() && g0.nodes@[i].id != write.wall implies #[trigger] graph.nodes@[i]
                == g0.nodes@[i] by {
                assert(g1.nodes@[i] == g0.nodes@[i]);
            }
            assert forall|i: int| 0 <= i < g0.nodes@.len() && g0.nodes@[i].id == write.wall implies #[trigger] field_written(
                g0.nodes@[i],
                graph.nodes@[i],
                *write,
                key@,
            ) by {
                assert(g1.nodes@[i].id == write.wall);
                assert(graph.nodes@[i].id == write.wall);
                assert(graph.nodes@[i].space_class == g1.nodes@[i].space_class);
                assert(graph.nodes@[i].label == g1.nodes@[i].label);
                assert(graph.nodes@[i].props.get_spec(unit_key(key@)) == Some(PropValueView::Text(write.unit@)));
                assert(g1.nodes@[i].props.get_spec(key@) == Some(field_value(*write)));
                assert(graph.nodes@[i].props.get_spec(key@) == g1.nodes@[i].props.get_spec(key@));
                assert forall|k: Seq<char>| k != key@ && k != unit_key(key@) implies #[trigger] graph.nodes@[i].props.get_spec(k)
                    == g0.nodes@[i].props.get_spec(k) by {
                    assert(graph.nodes@[i].props.get_spec(k) == g1.nodes@[i].props.get_spec(k));
                    assert(g1.nodes@[i].props.get_spec(k) == g0.nodes@[i].props.get_spec(k));
                }
            }
        }
    } else {
        proof {
            assert(!writes_unit(*write));
            assert forall|i: int| 0 <= i < g0.nodes@.len() && g0.nodes@[i].id == write.wall implies #[trigger] field_written(
                g0.nodes@[i],
                graph.nodes@[i],
                *write,
                key@,
            ) by {
                assert(graph.nodes@[i].id == write.wall);
                assert(graph.nodes@[i].props.get_spec(key@) == Some(field_value(*write)));
                assert forall|k: Seq<char>| k != key@ && k != unit_key(key@) implies #[trigger] graph.nodes@[i].props.get_spec(k)
                    == g0.nodes@[i].props.get_spec(k) by {}
                assert(graph.nodes@[i].props.get_spec(unit_key(key@)) == g0.nodes@[i].props.get_spec(unit_key(key@)));
            }
        }
    }
    let mut status = String::from_str("signal: custom field ");
    status.append(key);
    (found, status)
}

} // verus!
