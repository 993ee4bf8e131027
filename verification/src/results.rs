//! Reading the summary of a stored analysis results node.

use crate::graph::{Node, PropValue, PropValueView};
use vstd::prelude::*;

verus! {

/// The headline fields of an analysis results node.
#[derive(Debug)]
pub struct ResultsSummary {
    pub overall_pass: bool,
    /// Governing check, `"—"` when the node names none.
    pub governing: String,
    pub run_timestamp: i64,
}

pub open spec fn pass_of(v: Option<PropValueView>) -> bool {
    v == Some(PropValueView::Bool(true))
}

pub open spec fn governing_of(v: Option<PropValueView>) -> Seq<char> {
    match v {
        Some(PropValueView::Text(s)) => s,
        _ => "—"@,
    }
}

pub open spec fn timestamp_of(v: Option<PropValueView>) -> i64 {
    match v {
        Some(PropValueView::I64(t)) => t,
        _ => 0,
    }
}

/// Summary of a results node: `overall_pass` only when the property is `true`,
/// the governing check when it is text, the run time when it is an integer.
pub fn summary_from_results(results: &Node) -> (s: ResultsSummary)
    requires
        results.props.wf(),
    ensures
        s.overall_pass == pass_of(results.props.get_spec("overall_pass"@)),
        s.overall_pass <==> results.props.get_spec("overall_pass"@) == Some(PropValueView::Bool(true)),
        s.governing@ == governing_of(results.props.get_spec("governing"@)),
        s.run_timestamp == timestamp_of(results.props.get_spec("run_timestamp"@)),
{
    proof {
        reveal_strlit("overall_pass");
        reveal_strlit("governing");
        reveal_strlit("run_timestamp");
        reveal_strlit("—");
    }
    let overall_pass = match results.props.get("overall_pass") {
        Some(PropValue::Bool(b)) => *b,
        _ => false,
    };
    let governing = match results.props.get("governing") {
        Some(PropValue::Text(t)) => t.clone(),
        _ => String::from_str("—"),
    };
    let run_timestamp = match results.props.get("run_timestamp") {
        Some(PropValue::I64(v)) => *v,
        _ => 0,
    };
    ResultsSummary { overall_pass, governing, run_timestamp }
}

/// A stored boolean `overall_pass` reads as exactly that boolean (a stored `false` is a
/// failed run); anything that is not a boolean reads as a failure.
pub proof fn law_pass_reads_the_stored_flag(v: Option<PropValueView>)
    ensures
        forall|b: bool| #[trigger] pass_of(Some(PropValueView::Bool(b))) == b,
        !(v matches Some(PropValueView::Bool(_))) ==> !pass_of(v),
{
}

} // verus!
