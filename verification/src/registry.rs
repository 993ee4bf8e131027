//! Registry of the workspace kinds a user can open, filtered by the capabilities
//! each kind requires.

use crate::text::text_eq;
use vstd::prelude::*;

verus! {

/// A capability a user may hold.
#[derive(Debug, Clone, Copy, PartialEq, Eq, Structural)]
pub struct Capability(pub u64);

/// The capabilities granted to the current user.
#[derive(Debug)]
pub struct CapabilitySet {
    pub granted: Vec<Capability>,
}

impl CapabilitySet {
    pub fn has(&self, c: Capability) -> (r: bool)
        ensures
            r == self.granted@.contains(c),
    {
        let n = self.granted.len();
        let mut i: usize = 0;
        while i < n
            invariant
                n == self.granted@.len(),
                i <= n,
                forall|k: int| 0 <= k < i ==> self.granted@[k] != c,
            decreases n - i,
        {
            if self.granted[i] == c {
                assert(self.granted@[i as int] == c);
                return true;
            }
            i = i + 1;
        }
        false
    }
}

/// What the launcher knows of a workspace kind.
#[derive(Debug)]
pub struct WorkspaceDescriptor {
    /// Stable key stored in saves and configuration, such as `"structural_analysis"`.
    pub kind_id: &'static str,
    /// Label shown in the launcher and tab strip.
    pub label: &'static str,
    /// Glyph shown in the launcher grid.
    pub icon: &'static str,
    /// Capabilities needed to open the kind; empty means everyone may.
    pub required: Vec<Capability>,
}

/// `caps` grants everything `d` requires (trivially so when it requires nothing).
pub open spec fn may_open(d: WorkspaceDescriptor, caps: Seq<Capability>) -> bool {
    forall|k: int| 0 <= k < d.required@.len() ==> caps.contains(#[trigger] d.required@[k])
}

/// Indices of the descriptors of `ds` that `caps` may open, in registration order.
pub open spec fn available_indices(ds: Seq<WorkspaceDescriptor>, caps: Seq<Capability>) -> Seq<int>
    decreases ds.len(),
{
    if ds.len() == 0 {
        Seq::empty()
    } else if may_open(ds.last(), caps) {
        available_indices(ds.drop_last(), caps).push(ds.len() - 1)
    } else {
        available_indices(ds.drop_last(), caps)
    }
}

/// `i` is the first index of `ds` registered under `kind_id`.
pub open spec fn is_first_kind(ds: Seq<WorkspaceDescriptor>, kind_id: Seq<char>, i: int) -> bool {
    &&& 0 <= i < ds.len()
    &&& ds[i].kind_id@ == kind_id
    &&& forall|j: int| 0 <= j < i ==> (#[trigger] ds[j]).kind_id@ != kind_id
}

/// Available workspace kinds, in registration order.
#[derive(Debug)]
pub struct WorkspaceRegistry {
    pub descriptors: Vec<WorkspaceDescriptor>,
}

fn may_open_exec(d: &WorkspaceDescriptor, caps: &CapabilitySet) -> (r: bool)
    ensures
        r == may_open(*d, caps.granted@),
{
    let n = d.required.len();
    let mut i: usize = 0;
    while i < n
        invariant
            n == d.required@.len(),
            i <= n,
            forall|k: int| 0 <= k < i ==> caps.granted@.contains(#[trigger] d.required@[k]),
        decreases n - i,
    {
        if !caps.has(d.required[i]) {
            return false;
        }
        i = i + 1;
    }
    true
}

impl WorkspaceRegistry {
    pub fn new() -> (r: WorkspaceRegistry)
        ensures
            r.descriptors@.len() == 0,
    {
        WorkspaceRegistry { descriptors: Vec::new() }
    }

    pub fn register(&mut self, d: WorkspaceDescriptor)
        ensures
            final(self).descriptors@ == old(self).descriptors@.push(d),
    {
        self.descriptors.push(d);
    }

    /// Indices of the descriptors the current user may open.
    pub fn available_for(&self, caps: &CapabilitySet) -> (r: Vec<usize>)
        ensures
            r@.map_values(|i: usize| i as int) == available_indices(self.descriptors@, caps.granted@),
    {
        let mut r: Vec<usize> = Vec::new();
        let n = self.descriptors.len();
        let mut i: usize = 0;
        while i < n
            invariant
                n == self.descriptors@.len(),
                i <= n,
                r@.map_values(|i: usize| i as int) == available_indices(self.descriptors@.take(i as int), caps.granted@),
            decreases n - i,
        {
            proof {
                let t = self.descriptors@.take(i + 1);
                assert(t.drop_last() == self.descriptors@.take(i as int));
                assert(t.last() == self.descriptors@[i as int]);
            }
            if may_open_exec(&self.descriptors[i], caps) {
                r.push(i);
                proof {
                    assert(r@.map_values(|i: usize| i as int) =~= available_indices(
                        self.descriptors@.take(i as int),
                        caps.granted@,
                    ).push(i as int));
                }
            }
            i = i + 1;
        }
        assert(self.descriptors@.take(n as int) == self.descriptors@);
        r
    }

    /// The first descriptor registered under `kind_id`.
    pub fn find(&self, kind_id: &str) -> (r: Option<&WorkspaceDescriptor>)
        ensures
            match r {
                Some(d) => exists|i: int| is_first_kind(self.descriptors@, kind_id@, i) && self.descriptors@[i] == *d,
                None => forall|j: int| 0 <= j < self.descriptors@.len() ==> (#[trigger] self.descriptors@[j]).kind_id@
                    != kind_id@,
            },
    {
        let n = self.descriptors.len();
        let mut i: usize = 0;
        while i < n
            invariant
                n == self.descriptors@.len(),
                i <= n,
                forall|j: int| 0 <= j < i ==> (#[trigger] self.descriptors@[j]).kind_id@ != kind_id@,
            decreases n - i,
        {
            if text_eq(self.descriptors[i].kind_id, kind_id) {
                assert(is_first_kind(self.descriptors@, kind_id@, i as int));
                return Some(&self.descriptors[i]);
            }
            i = i + 1;
        }
        None
    }
}

impl Default for WorkspaceRegistry {
    fn default() -> (r: WorkspaceRegistry)
        ensures
            r.descriptors@.len() == 0,
    {
        WorkspaceRegistry::new()
    }
}

} // verus!
