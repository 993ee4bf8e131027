//! Persisted layout records and the mappings between them and the live layout
//! model. Only authored intent is persisted; split fractions travel as the bits of
//! their `f32`.

use crate::overrides::{assoc_last, ContainerId, Overrides, SizeClass, Visibility};
use crate::shell::BodyKind;
use crate::text::text_eq;
use vstd::prelude::*;

verus! {

/// Version written into every saved session.
pub const PERSIST_VERSION: u32 = 1;

#[derive(Debug, Clone, Copy, PartialEq, Eq, Structural)]
pub enum PersistedVisibility {
    Shown,
    Collapsed,
    Hidden,
}

#[derive(Debug, Clone, Copy, PartialEq, Eq, Structural)]
pub enum PersistedSizeClass {
    Compact,
    Medium,
    Expanded,
    Large,
}

#[derive(Debug, Clone, Copy, PartialEq, Eq, Structural)]
pub enum PersistedSeamDirection {
    Vertical,
    Horizontal,
}

pub open spec fn visibility_to_persisted(v: Visibility) -> PersistedVisibility {
    match v {
        Visibility::Shown => PersistedVisibility::Shown,
        Visibility::Collapsed => PersistedVisibility::Collapsed,
        Visibility::Hidden => PersistedVisibility::Hidden,
    }
}

pub open spec fn visibility_from_persisted(v: PersistedVisibility) -> Visibility {
    match v {
        PersistedVisibility::Shown => Visibility::Shown,
        PersistedVisibility::Collapsed => Visibility::Collapsed,
        PersistedVisibility::Hidden => Visibility::Hidden,
    }
}

pub open spec fn class_to_persisted(c: SizeClass) -> PersistedSizeClass {
    match c {
        SizeClass::Compact => PersistedSizeClass::Compact,
        SizeClass::Medium => PersistedSizeClass::Medium,
        SizeClass::Expanded => PersistedSizeClass::Expanded,
        SizeClass::Large => PersistedSizeClass::Large,
    }
}

pub open spec fn class_from_persisted(c: PersistedSizeClass) -> SizeClass {
    match c {
        PersistedSizeClass::Compact => SizeClass::Compact,
        PersistedSizeClass::Medium => SizeClass::Medium,
        PersistedSizeClass::Expanded => SizeClass::Expanded,
        PersistedSizeClass::Large => SizeClass::Large,
    }
}

pub fn capture_visibility(v: Visibility) -> (p: PersistedVisibility)
    ensures
        p == visibility_to_persisted(v),
{
    match v {
        Visibility::Shown => PersistedVisibility::Shown,
        Visibility::Collapsed => PersistedVisibility::Collapsed,
        Visibility::Hidden => PersistedVisibility::Hidden,
    }
}

pub fn restore_visibility(p: PersistedVisibility) -> (v: Visibility)
    ensures
        v == visibility_from_persisted(p),
{
    match p {
        PersistedVisibility::Shown => Visibility::Shown,
        PersistedVisibility::Collapsed => Visibility::Collapsed,
        PersistedVisibility::Hidden => Visibility::Hidden,
    }
}

pub fn capture_size_class(c: SizeClass) -> (p: PersistedSizeClass)
    ensures
        p == class_to_persisted(c),
{
    match c {
        SizeClass::Compact => PersistedSizeClass::Compact,
        SizeClass::Medium => PersistedSizeClass::Medium,
        SizeClass::Expanded => PersistedSizeClass::Expanded,
        SizeClass::Large => PersistedSizeClass::Large,
    }
}

pub fn restore_size_class(p: PersistedSizeClass) -> (c: SizeClass)
    ensures
        c == class_from_persisted(p),
{
    match p {
        PersistedSizeClass::Compact => SizeClass::Compact,
        PersistedSizeClass::Medium => SizeClass::Medium,
        PersistedSizeClass::Expanded => SizeClass::Expanded,
        PersistedSizeClass::Large => SizeClass::Large,
    }
}

/// Restoring a captured visibility gives it back, and capturing a restored one too.
pub proof fn lemma_visibility_roundtrip(v: Visibility, p: PersistedVisibility)
    ensures
        visibility_from_persisted(visibility_to_persisted(v)) == v,
        visibility_to_persisted(visibility_from_persisted(p)) == p,
{
}

/// Restoring a captured size class gives it back, and capturing a restored one too.
pub proof fn lemma_size_class_roundtrip(c: SizeClass, p: PersistedSizeClass)
    ensures
        class_from_persisted(class_to_persisted(c)) == c,
        class_to_persisted(class_from_persisted(p)) == p,
{
}

/// One persisted split fraction.
#[derive(Debug, Clone, Copy, PartialEq, Eq, Structural)]
pub struct PersistedOverrideEntry {
    pub id: u64,
    pub class: PersistedSizeClass,
    pub fraction_bits: u32,
}

/// One persisted collapse flag.
#[derive(Debug, Clone, Copy, PartialEq, Eq, Structural)]
pub struct PersistedCollapseEntry {
    pub id: u64,
    pub class: PersistedSizeClass,
    pub collapsed: bool,
}

/// Persisted overrides: fractions and collapse flags, each in ascending key order.
#[derive(Debug)]
pub struct PersistedOverrides {
    pub entries: Vec<PersistedOverrideEntry>,
    pub collapse_entries: Vec<PersistedCollapseEntry>,
}

pub open spec fn fraction_entry(e: (u64, SizeClass, u32)) -> PersistedOverrideEntry {
    PersistedOverrideEntry { id: e.0, class: class_to_persisted(e.1), fraction_bits: e.2 }
}

pub open spec fn collapse_entry(e: (u64, SizeClass, bool)) -> PersistedCollapseEntry {
    PersistedCollapseEntry { id: e.0, class: class_to_persisted(e.1), collapsed: e.2 }
}

pub open spec fn fraction_key(e: PersistedOverrideEntry) -> (u64, SizeClass, u32) {
    (e.id, class_from_persisted(e.class), e.fraction_bits)
}

pub open spec fn collapse_key(e: PersistedCollapseEntry) -> (u64, SizeClass, bool) {
    (e.id, class_from_persisted(e.class), e.collapsed)
}

/// The persisted fraction entries of a live map.
pub open spec fn captured_fractions(s: Seq<(u64, SizeClass, u32)>) -> Seq<PersistedOverrideEntry> {
    s.map_values(|e: (u64, SizeClass, u32)| fraction_entry(e))
}

/// The persisted collapse entries of a live map.
pub open spec fn captured_collapse(s: Seq<(u64, SizeClass, bool)>) -> Seq<PersistedCollapseEntry> {
    s.map_values(|e: (u64, SizeClass, bool)| collapse_entry(e))
}

/// The fraction that restoring `p` yields under `(id, class)`: the last entry with
/// that key wins.
pub open spec fn restored_fraction(p: Seq<PersistedOverrideEntry>, id: u64, class: SizeClass) -> Option<u32> {
    assoc_last(p.map_values(|e: PersistedOverrideEntry| fraction_key(e)), (id, class))
}

/// The collapse flag that restoring `p` yields under `(id, class)`.
pub open spec fn restored_collapse(p: Seq<PersistedCollapseEntry>, id: u64, class: SizeClass) -> Option<bool> {
    assoc_last(p.map_values(|e: PersistedCollapseEntry| collapse_key(e)), (id, class))
}

/// Capture overrides for saving, in ascending `(container, size class)` order.
pub fn capture_overrides(o: &Overrides) -> (p: PersistedOverrides)
    requires
        o.wf(),
    ensures
        p.entries@ == captured_fractions(o.fractions.entries@),
        p.collapse_entries@ == captured_collapse(o.collapse.entries@),
{
    let mut entries: Vec<PersistedOverrideEntry> = Vec::new();
    let n = o.fractions.entries.len();
    let mut i: usize = 0;
    while i < n
        invariant
            n == o.fractions.entries@.len(),
            i <= n,
            entries@ == captured_fractions(o.fractions.entries@.take(i as int)),
        decreases n - i,
    {
        let e = o.fractions.entries[i];
        entries.push(PersistedOverrideEntry { id: e.0, class: capture_size_class(e.1), fraction_bits: e.2 });
        proof {
            assert(o.fractions.entries@.take(i + 1) == o.fractions.entries@.take(i as int).push(e));
        }
        i = i + 1;
    }
    assert(o.fractions.entries@.take(n as int) == o.fractions.entries@);
    let mut collapse_entries: Vec<PersistedCollapseEntry> = Vec::new();
    let m = o.collapse.entries.len();
    let mut j: usize = 0;
    while j < m
        invariant
            m == o.collapse.entries@.len(),
            j <= m,
            collapse_entries@ == captured_collapse(o.collapse.entries@.take(j as int)),
        decreases m - j,
    {
        let e = o.collapse.entries[j];
        collapse_entries.push(PersistedCollapseEntry { id: e.0, class: capture_size_class(e.1), collapsed: e.2 });
        proof {
            assert(o.collapse.entries@.take(j + 1) == o.collapse.entries@.take(j as int).push(e));
        }
        j = j + 1;
    }
    assert(o.collapse.entries@.take(m as int) == o.collapse.entries@);
    PersistedOverrides { entries, collapse_entries }
}

/// Restore overrides from a save: entries are applied in order, so a later entry
/// under the same key replaces an earlier one.
pub fn restore_overrides(p: &PersistedOverrides) -> (o: Overrides)
    ensures
        o.wf(),
        forall|id: u64, class: SizeClass| #[trigger] o.fractions.get_spec(id, class) == restored_fraction(p.entries@, id, class),
        forall|id: u64, class: SizeClass| #[trigger] o.collapse.get_spec(id, class) == restored_collapse(p.collapse_entries@, id, class),
{
    let mut o = Overrides::new();
    let n = p.entries.len();
    let mut i: usize = 0;
    while i < n
        invariant
            n == p.entries@.len(),
            i <= n,
            o.wf(),
            forall|id: u64, class: SizeClass| #[trigger] o.fractions.get_spec(id, class) == restored_fraction(p.entries@.take(i as int), id, class),
            forall|id: u64, class: SizeClass| #[trigger] o.collapse.get_spec(id, class) == None::<bool>,
        decreases n - i,
    {
        let e = p.entries[i];
        let class = restore_size_class(e.class);
        o.set(ContainerId(e.id), class, e.fraction_bits);
        proof {
            let f = |x: PersistedOverrideEntry| fraction_key(x);
            let t = p.entries@.take(i + 1);
            assert(t.map_values(f).drop_last() == p.entries@.take(i as int).map_values(f));
            assert(t.map_values(f).last() == fraction_key(e));
        }
        i = i + 1;
    }
    assert(p.entries@.take(n as int) == p.entries@);
    let m = p.collapse_entries.len();
    let mut j: usize = 0;
    while j < m
        invariant
            n == p.entries@.len(),
            m == p.collapse_entries@.len(),
            j <= m,
            o.wf(),
            forall|id: u64, class: SizeClass| #[trigger] o.fractions.get_spec(id, class) == restored_fraction(p.entries@, id, class),
            forall|id: u64, class: SizeClass| #[trigger] o.collapse.get_spec(id, class) == restored_collapse(p.collapse_entries@.take(j as int), id, class),
        decreases m - j,
    {
        let e = p.collapse_entries[j];
        let class = restore_size_class(e.class);
        o.set_collapse(ContainerId(e.id), class, e.collapsed);
        proof {
            let f = |x: PersistedCollapseEntry| collapse_key(x);
            let t = p.collapse_entries@.take(j + 1);
            assert(t.map_values(f).drop_last() == p.collapse_entries@.take(j as int).map_values(f));
            assert(t.map_values(f).last() == collapse_key(e));
        }
        j = j + 1;
    }
    assert(p.collapse_entries@.take(m as int) == p.collapse_entries@);
    o
}

/// Restoring what was captured gives back every fraction and collapse flag, scoped
/// by container and size class.
pub proof fn lemma_overrides_roundtrip(o: Overrides)
    requires
        o.wf(),
    ensures
        forall|id: u64, class: SizeClass| #[trigger] restored_fraction(captured_fractions(o.fractions.entries@), id, class)
            == o.fractions.get_spec(id, class),
        forall|id: u64, class: SizeClass| #[trigger] restored_collapse(captured_collapse(o.collapse.entries@), id, class)
            == o.collapse.get_spec(id, class),
{
    let fs = o.fractions.entries@;
    let f = |x: PersistedOverrideEntry| fraction_key(x);
    assert(captured_fractions(fs).map_values(f) =~= fs);
    let cs = o.collapse.entries@;
    let g = |x: PersistedCollapseEntry| collapse_key(x);
    assert(captured_collapse(cs).map_values(g) =~= cs);
}

/// The live state of one pod as the legacy collapse migration reads it.
#[derive(Debug, Clone, Copy, PartialEq, Eq, Structural)]
pub struct PodState {
    pub container: ContainerId,
    pub intent: Visibility,
}

/// Some pod of `pods` with container `id` has a collapsed intent.
pub open spec fn legacy_collapsed(pods: Seq<PodState>, id: u64) -> bool {
    exists|j: int| 0 <= j < pods.len() && (#[trigger] pods[j]).container.0 == id && pods[j].intent == Visibility::Collapsed
}

/// Record `true` under `(id, class)` unless a flag is already there.
fn fill_collapse(o: &mut Overrides, id: ContainerId, class: SizeClass)
    requires
        old(o).wf(),
    ensures
        final(o).wf(),
        final(o).fractions == old(o).fractions,
        final(o).collapse.get_spec(id.0, class) == match old(o).collapse.get_spec(id.0, class) {
            Some(b) => Some(b),
            None => Some(true),
        },
        forall|id2: u64, class2: SizeClass| (id2, class2) != (id.0, class) ==> #[trigger] final(o).collapse.get_spec(id2, class2)
            == old(o).collapse.get_spec(id2, class2),
{
    if o.get_collapse(id, class).is_none() {
        o.set_collapse(id, class, true);
    }
}

/// Older saves kept collapse in the pod's intent, for every size class at once:
/// give each collapsed pod a collapse flag in every size class that has none.
pub fn migrate_legacy_pod_collapse(pods: &[PodState], o: &mut Overrides)
    requires
        old(o).wf(),
    ensures
        final(o).wf(),
        final(o).fractions == old(o).fractions,
        forall|id: u64, class: SizeClass| #[trigger] final(o).collapse.get_spec(id, class) == match old(o).collapse.get_spec(id, class) {
            Some(b) => Some(b),
            None => if legacy_collapsed(pods@, id) {
                Some(true)
            } else {
                None
            },
        },
{
    let ghost start = *o;
    let n = pods.len();
    let mut i: usize = 0;
    while i < n
        invariant
            n == pods@.len(),
            i <= n,
            o.wf(),
            o.fractions == start.fractions,
            forall|id: u64, class: SizeClass| #[trigger] o.collapse.get_spec(id, class) == match start.collapse.get_spec(id, class) {
                Some(b) => Some(b),
                None => if legacy_collapsed(pods@.take(i as int), id) {
                    Some(true)
                } else {
                    None
                },
            },
        decreases n - i,
    {
        let pod = pods[i];
        let ghost before = *o;
        if pod.intent == Visibility::Collapsed {
            fill_collapse(o, pod.container, SizeClass::Compact);
            fill_collapse(o, pod.container, SizeClass::Medium);
            fill_collapse(o, pod.container, SizeClass::Expanded);
            fill_collapse(o, pod.container, SizeClass::Large);
        }
        proof {
            let prev = pods@.take(i as int);
            let next = pods@.take(i + 1);
            assert(next[i as int] == pod);
            assert forall|id: u64| legacy_collapsed(next, id) == (legacy_collapsed(prev, id) || (pod.container.0 == id
                && pod.intent == Visibility::Collapsed)) by {
                if legacy_collapsed(prev, id) {
                    let j = choose|j: int| 0 <= j < prev.len() && (#[trigger] prev[j]).container.0 == id && prev[j].intent
                        == Visibility::Collapsed;
                    assert(next[j] == prev[j]);
                }
                if legacy_collapsed(next, id) {
                    let j = choose|j: int| 0 <= j < next.len() && (#[trigger] next[j]).container.0 == id && next[j].intent
                        == Visibility::Collapsed;
                    if j < i {
                        assert(prev[j] == next[j]);
                    }
                }
            }
            assert forall|id: u64, class: SizeClass| #[trigger] o.collapse.get_spec(id, class) == match start.collapse.get_spec(id, class) {
                Some(b) => Some(b),
                None => if legacy_collapsed(next, id) {
                    Some(true)
                } else {
                    None
                },
            } by {
                assert(legacy_collapsed(next, id) == (legacy_collapsed(prev, id) || (pod.container.0 == id && pod.intent
                    == Visibility::Collapsed)));
                assert(before.collapse.get_spec(id, class) == match start.collapse.get_spec(id, class) {
                    Some(b) => Some(b),
                    None => if legacy_collapsed(prev, id) {
                        Some(true)
                    } else {
                        None
                    },
                });
            }
        }
        i = i + 1;
    }
    assert(pods@.take(n as int) == pods@);
}

/// Interned workspace open id: the entry of `known` equal to `s`, or `fallback`
/// when `s` is none of them.
pub fn intern_open_id(s: &str, known: &[&'static str], fallback: &'static str) -> (r: &'static str)
    ensures
        (exists|i: int| 0 <= i < known@.len() && (#[trigger] known@[i])@ == s@) ==> r@ == s@,
        !(exists|i: int| 0 <= i < known@.len() && (#[trigger] known@[i])@ == s@) ==> r == fallback,
        (exists|i: int| 0 <= i < known@.len() && r == #[trigger] known@[i]) || r == fallback,
{
    let n = known.len();
    let mut i: usize = 0;
    while i < n
        invariant
            n == known@.len(),
            i <= n,
            forall|k: int| 0 <= k < i ==> (#[trigger] known@[k])@ != s@,
        decreases n - i,
    {
        let candidate: &'static str = known[i];
        if text_eq(candidate, s) {
            return candidate;
        }
        i = i + 1;
    }
    fallback
}

/// The body a saved workspace is restored into, chosen by its open id.
pub open spec fn restored_kind(open_id: Seq<char>) -> BodyKind {
    if open_id == "home"@ {
        BodyKind::Home
    } else if open_id == "structural_analysis"@ {
        BodyKind::Analysis
    } else if open_id == "devtools_graph"@ {
        BodyKind::GraphView
    } else {
        BodyKind::Placeholder
    }
}

/// The body kind for a saved workspace's open id: Home, Structural Analysis and the
/// graph view by name, a placeholder for every other id.
pub fn restored_body_kind(open_id: &str) -> (k: BodyKind)
    ensures
        k == restored_kind(open_id@),
{
    proof {
        reveal_strlit("home");
        reveal_strlit("structural_analysis");
        reveal_strlit("devtools_graph");
    }
    if text_eq(open_id, "home") {
        BodyKind::Home
    } else if text_eq(open_id, "structural_analysis") {
        BodyKind::Analysis
    } else if text_eq(open_id, "devtools_graph") {
        BodyKind::GraphView
    } else {
        BodyKind::Placeholder
    }
}

} // verus!
