//! The composed-view graph that workspace containers are written into:
//! nodes with a space class, label and properties, joined by typed hyperedges.

use crate::text::text_eq;
use vstd::prelude::*;

verus! {

/// Identity of a graph node.
#[derive(Debug, Clone, Copy, PartialEq, Eq, Structural)]
pub struct NodeId(pub u64);

/// Identity of a graph hyperedge.
#[derive(Debug, Clone, Copy, PartialEq, Eq, Structural)]
pub struct EdgeId(pub u64);

/// Which space a node lives in.
#[derive(Debug, Clone, Copy, PartialEq, Eq, Structural)]
pub enum SpaceClass {
    /// Domain entities (walls and the like).
    Entity,
    /// UI containers: workspaces, pages, pods, components, particle slots.
    UIView,
}

/// What a hyperedge means.
#[derive(Debug, Clone, Copy, PartialEq, Eq, Structural)]
pub enum EdgeKind {
    /// Containment, ordered by the `"order"` property.
    Binding,
    /// Navigation / message wiring.
    Signal,
    /// Broadcast of a value to many nodes.
    Wave,
}

/// A property value.
#[derive(Debug)]
pub enum PropValue {
    I64(i64),
    /// A floating-point number, held by its IEEE-754 bits.
    Float(u64),
    Bool(bool),
    Text(String),
}

/// The mathematical value of a [`PropValue`].
pub enum PropValueView {
    I64(i64),
    Float(u64),
    Bool(bool),
    Text(Seq<char>),
}

impl View for PropValue {
    type V = PropValueView;

    open spec fn view(&self) -> PropValueView {
        match self {
            PropValue::I64(v) => PropValueView::I64(*v),
            PropValue::Float(b) => PropValueView::Float(*b),
            PropValue::Bool(b) => PropValueView::Bool(*b),
            PropValue::Text(s) => PropValueView::Text(s@),
        }
    }
}

impl PartialEq for PropValue {
    fn eq(&self, other: &Self) -> (r: bool) {
        let r = match self {
            PropValue::I64(a) => match other {
                PropValue::I64(b) => *a == *b,
                _ => false,
            },
            PropValue::Float(a) => match other {
                PropValue::Float(b) => *a == *b,
                _ => false,
            },
            PropValue::Bool(a) => match other {
                PropValue::Bool(b) => *a == *b,
                _ => false,
            },
            PropValue::Text(a) => match other {
                PropValue::Text(b) => crate::text::text_eq(a.as_str(), b.as_str()),
                _ => false,
            },
        };
        r
    }
}

impl vstd::std_specs::cmp::PartialEqSpecImpl for PropValue {
    open spec fn obeys_eq_spec() -> bool {
        true
    }

    open spec fn eq_spec(&self, other: &Self) -> bool {
        self@ == other@
    }
}

/// One keyed property.
#[derive(Debug)]
pub struct PropEntry {
    pub key: String,
    pub value: PropValue,
}

/// A property map: keyed values, each key at most once.
#[derive(Debug)]
pub struct PropMap {
    pub entries: Vec<PropEntry>,
}

impl PropMap {
    pub open spec fn keys(&self) -> Seq<Seq<char>> {
        self.entries@.map_values(|e: PropEntry| e.key@)
    }

    /// No key is stored twice.
    pub open spec fn wf(&self) -> bool {
        forall|i: int, j: int|
            0 <= i < j < self.entries@.len() ==> #[trigger] self.entries@[i].key@ != #[trigger] self.entries@[j].key@
    }

    pub open spec fn has(&self, k: Seq<char>) -> bool {
        exists|i: int| 0 <= i < self.entries@.len() && #[trigger] self.entries@[i].key@ == k
    }

    /// The value stored under `k`, if any.
    pub open spec fn get_spec(&self, k: Seq<char>) -> Option<PropValueView> {
        if self.has(k) {
            let i = choose|i: int| 0 <= i < self.entries@.len() && #[trigger] self.entries@[i].key@ == k;
            Some(self.entries@[i].value@)
        } else {
            None
        }
    }

    pub fn new() -> (m: PropMap)
        ensures
            m.wf(),
            m.entries@.len() == 0,
            forall|k: Seq<char>| #[trigger] m.get_spec(k) == None::<PropValueView>,
    {
        PropMap { entries: Vec::new() }
    }

    /// Index of the entry stored under `key`.
    pub fn position(&self, key: &str) -> (r: Option<usize>)
        requires
            self.wf(),
        ensures
            match r {
                Some(i) => i < self.entries@.len() && self.entries@[i as int].key@ == key@,
                None => !self.has(key@),
            },
    {
        let n = self.entries.len();
        let mut i: usize = 0;
        while i < n
            invariant
                n == self.entries@.len(),
                i <= n,
                forall|k: int| 0 <= k < i ==> #[trigger] self.entries@[k].key@ != key@,
            decreases n - i,
        {
            if text_eq(self.entries[i].key.as_str(), key) {
                return Some(i);
            }
            i = i + 1;
        }
        None
    }

    /// The value stored under `key`.
    pub fn get(&self, key: &str) -> (r: Option<&PropValue>)
        requires
            self.wf(),
        ensures
            match r {
                Some(v) => self.get_spec(key@) == Some(v@),
                None => self.get_spec(key@) == None::<PropValueView>,
            },
    {
        match self.position(key) {
            Some(i) => {
                proof {
                    self.lemma_get_at(i as int);
                }
                Some(&self.entries[i].value)
            },
            None => None,
        }
    }

    pub fn contains_key(&self, key: &str) -> (r: bool)
        requires
            self.wf(),
        ensures
            r == self.has(key@),
            r == self.get_spec(key@) is Some,
    {
        self.position(key).is_some()
    }

    pub proof fn lemma_get_at(&self, i: int)
        requires
            self.wf(),
            0 <= i < self.entries@.len(),
        ensures
            self.get_spec(self.entries@[i].key@) == Some(self.entries@[i].value@),
    {
        let k = self.entries@[i].key@;
        assert(self.has(k));
        let j = choose|j: int| 0 <= j < self.entries@.len() && #[trigger] self.entries@[j].key@ == k;
        if j != i {
            if j < i {
                assert(self.entries@[j].key@ != self.entries@[i].key@);
            } else {
                assert(self.entries@[i].key@ != self.entries@[j].key@);
            }
        }
    }

    /// Store `value` under `key`, replacing what was there.
    pub fn insert(&mut self, key: String, value: PropValue)
        requires
            old(self).wf(),
        ensures
            final(self).wf(),
            final(self).get_spec(key@) == Some(value@),
            forall|k: Seq<char>| k != key@ ==> #[trigger] final(self).get_spec(k) == old(self).get_spec(k),
    {
        let ghost old_entries = self.entries@;
        let ghost kv = key@;
        let ghost vv = value@;
        match self.position(key.as_str()) {
            Some(i) => {
                self.entries.remove(i);
                self.entries.insert(i, PropEntry { key, value });
                assert forall|a: int, b: int|
                    0 <= a < b < self.entries@.len() implies #[trigger] self.entries@[a].key@ != #[trigger] self.entries@[b].key@ by {
                    if a != i && b != i {
                        assert(old_entries[a].key@ != old_entries[b].key@);
                    } else if a == i {
                        assert(old_entries[i as int].key@ != old_entries[b].key@);
                    } else {
                        assert(old_entries[a].key@ != old_entries[i as int].key@);
                    }
                }
                proof {
                    self.lemma_get_at(i as int);
                }
                assert forall|k: Seq<char>| k != kv implies #[trigger] self.get_spec(k) == old(self).get_spec(k) by {
                    if old(self).has(k) {
                        let j = choose|j: int| 0 <= j < old_entries.len() && #[trigger] old_entries[j].key@ == k;
                        old(self).lemma_get_at(j);
                        assert(j != i);
                        assert(self.entries@[j] == old_entries[j]);
                        self.lemma_get_at(j);
                    } else {
                        if self.has(k) {
                            let j = choose|j: int| 0 <= j < self.entries@.len() && #[trigger] self.entries@[j].key@ == k;
                            assert(j != i);
                            assert(old_entries[j].key@ == k);
                        }
                    }
                }
            },
            None => {
                self.entries.push(PropEntry { key, value });
                let ghost n = old_entries.len();
                assert forall|a: int, b: int|
                    0 <= a < b < self.entries@.len() implies #[trigger] self.entries@[a].key@ != #[trigger] self.entries@[b].key@ by {
                    if b == n {
                        assert(old_entries[a].key@ != kv) by {
                            if old_entries[a].key@ == kv {
                                assert(old(self).has(kv));
                            }
                        }
                    } else {
                        assert(old_entries[a].key@ != old_entries[b].key@);
                    }
                }
                proof {
                    self.lemma_get_at(n as int);
                }
                assert forall|k: Seq<char>| k != kv implies #[trigger] self.get_spec(k) == old(self).get_spec(k) by {
                    if old(self).has(k) {
                        let j = choose|j: int| 0 <= j < old_entries.len() && #[trigger] old_entries[j].key@ == k;
                        old(self).lemma_get_at(j);
                        assert(self.entries@[j] == old_entries[j]);
                        self.lemma_get_at(j);
                    } else {
                        if self.has(k) {
                            let j = choose|j: int| 0 <= j < self.entries@.len() && #[trigger] self.entries@[j].key@ == k;
                            assert(j != n);
                            assert(old_entries[j].key@ == k);
                        }
                    }
                }
            },
        }
    }
}

/// A graph node.
#[derive(Debug)]
pub struct Node {
    pub id: NodeId,
    pub space_class: SpaceClass,
    pub label: String,
    pub props: PropMap,
}

/// A hyperedge from `sources` to `targets`.
#[derive(Debug)]
pub struct HyperEdge {
    pub id: EdgeId,
    pub kind: EdgeKind,
    pub sources: Vec<NodeId>,
    pub targets: Vec<NodeId>,
    pub label: Option<String>,
    pub props: PropMap,
}

/// The composed graph.  Nodes and edges are kept in insertion order, which is
/// also ascending id order; ids are handed out from the two counters.
#[derive(Debug)]
pub struct Graph {
    pub nodes: Vec<Node>,
    pub edges: Vec<HyperEdge>,
    pub next_node_id: u64,
    pub next_edge_id: u64,
}

impl Graph {
    /// Ids ascend in storage order and stay below the counters; property keys are unique.
    pub open spec fn wf(&self) -> bool {
        &&& forall|i: int, j: int|
            0 <= i < j < self.nodes@.len() ==> #[trigger] self.nodes@[i].id.0 < #[trigger] self.nodes@[j].id.0
        &&& forall|i: int| 0 <= i < self.nodes@.len() ==> #[trigger] self.nodes@[i].id.0 < self.next_node_id
        &&& forall|i: int| 0 <= i < self.nodes@.len() ==> #[trigger] self.nodes@[i].props.wf()
        &&& forall|i: int, j: int|
            0 <= i < j < self.edges@.len() ==> #[trigger] self.edges@[i].id.0 < #[trigger] self.edges@[j].id.0
        &&& forall|i: int| 0 <= i < self.edges@.len() ==> #[trigger] self.edges@[i].id.0 < self.next_edge_id
        &&& forall|i: int| 0 <= i < self.edges@.len() ==> #[trigger] self.edges@[i].props.wf()
    }

    /// Whether a node with this id is stored.
    pub open spec fn has_node(&self, id: NodeId) -> bool {
        exists|i: int| 0 <= i < self.nodes@.len() && #[trigger] self.nodes@[i].id == id
    }

    /// Storage index of the node with this id (meaningful when [`Self::has_node`]).
    pub open spec fn node_index(&self, id: NodeId) -> int {
        choose|i: int| 0 <= i < self.nodes@.len() && #[trigger] self.nodes@[i].id == id
    }

    pub proof fn lemma_node_index(&self, i: int)
        requires
            self.wf(),
            0 <= i < self.nodes@.len(),
        ensures
            self.has_node(self.nodes@[i].id),
            self.node_index(self.nodes@[i].id) == i,
    {
        let id = self.nodes@[i].id;
        assert(self.has_node(id));
        let j = self.node_index(id);
        if j < i {
            assert(self.nodes@[j].id.0 < self.nodes@[i].id.0);
        } else if j > i {
            assert(self.nodes@[i].id.0 < self.nodes@[j].id.0);
        }
    }

    pub fn new() -> (g: Graph)
        ensures
            g.wf(),
            g.nodes@.len() == 0,
            g.edges@.len() == 0,
            g.next_node_id == 1,
            g.next_edge_id == 1,
    {
        Graph { nodes: Vec::new(), edges: Vec::new(), next_node_id: 1, next_edge_id: 1 }
    }

    /// Add a node under a fresh id and return that id.
    pub fn insert_node(&mut self, space_class: SpaceClass, label: String, props: PropMap) -> (id: NodeId)
        requires
            old(self).wf(),
            props.wf(),
            old(self).next_node_id < u64::MAX,
        ensures
            final(self).wf(),
            id.0 == old(self).next_node_id,
            !old(self).has_node(id),
            final(self).next_node_id == old(self).next_node_id + 1,
            final(self).next_edge_id == old(self).next_edge_id,
            final(self).edges@ == old(self).edges@,
            final(self).nodes@.len() == old(self).nodes@.len() + 1,
            final(self).nodes@.drop_last() == old(self).nodes@,
            final(self).nodes@.last().id == id,
            final(self).nodes@.last().space_class == space_class,
            final(self).nodes@.last().label@ == label@,
            final(self).nodes@.last().props == props,
    {
        let id = NodeId(self.next_node_id);
        self.next_node_id = self.next_node_id + 1;
        let ghost old_nodes = self.nodes@;
        assert forall|a: int| 0 <= a < old_nodes.len() implies #[trigger] old_nodes[a].id != id by {
            assert(old_nodes[a].id.0 < id.0);
        }
        self.nodes.push(Node { id, space_class, label, props });
        assert forall|a: int| 0 <= a < self.nodes@.len() implies #[trigger] self.nodes@[a].id.0 < self.next_node_id by {
            if a < old_nodes.len() {
                assert(old_nodes[a].id.0 < id.0);
            }
        }
        assert forall|a: int| 0 <= a < self.nodes@.len() implies #[trigger] self.nodes@[a].props.wf() by {
            if a < old_nodes.len() {
                assert(old_nodes[a].props.wf());
            }
        }
        assert(self.nodes@.drop_last() =~= old_nodes);
        assert forall|a: int, b: int| 0 <= a < b < self.nodes@.len()
            implies #[trigger] self.nodes@[a].id.0 < #[trigger] self.nodes@[b].id.0 by {
            if b < old_nodes.len() {
                assert(old_nodes[a].id.0 < old_nodes[b].id.0);
            } else {
                assert(old_nodes[a].id.0 < id.0);
            }
        }
        id
    }

    /// Add a hyperedge under a fresh id and return that id.
    pub fn insert_edge(
        &mut self,
        kind: EdgeKind,
        sources: Vec<NodeId>,
        targets: Vec<NodeId>,
        label: Option<String>,
        props: PropMap,
    ) -> (id: EdgeId)
        requires
            old(self).wf(),
            props.wf(),
            old(self).next_edge_id < u64::MAX,
        ensures
            final(self).wf(),
            id.0 == old(self).next_edge_id,
            final(self).next_edge_id == old(self).next_edge_id + 1,
            final(self).next_node_id == old(self).next_node_id,
            final(self).nodes@ == old(self).nodes@,
            final(self).edges@.len() == old(self).edges@.len() + 1,
            final(self).edges@.drop_last() == old(self).edges@,
            final(self).edges@.last().id == id,
            final(self).edges@.last().kind == kind,
            final(self).edges@.last().sources@ == sources@,
            final(self).edges@.last().targets@ == targets@,
            final(self).edges@.last().label == label,
            final(self).edges@.last().props == props,
    {
        let id = EdgeId(self.next_edge_id);
        self.next_edge_id = self.next_edge_id + 1;
        let ghost old_edges = self.edges@;
        self.edges.push(HyperEdge { id, kind, sources, targets, label, props });
        assert forall|a: int| 0 <= a < self.edges@.len() implies #[trigger] self.edges@[a].id.0 < self.next_edge_id by {
            if a < old_edges.len() {
                assert(old_edges[a].id.0 < id.0);
            }
        }
        assert forall|a: int| 0 <= a < self.edges@.len() implies #[trigger] self.edges@[a].props.wf() by {
            if a < old_edges.len() {
                assert(old_edges[a].props.wf());
            }
        }
        assert(self.edges@.drop_last() =~= old_edges);
        assert forall|a: int, b: int| 0 <= a < b < self.edges@.len()
            implies #[trigger] self.edges@[a].id.0 < #[trigger] self.edges@[b].id.0 by {
            if b < old_edges.len() {
                assert(old_edges[a].id.0 < old_edges[b].id.0);
            } else {
                assert(old_edges[a].id.0 < id.0);
            }
        }
        id
    }

    /// Storage index of the node with this id.
    pub fn find_node(&self, id: NodeId) -> (r: Option<usize>)
        requires
            self.wf(),
        ensures
            match r {
                Some(i) => i < self.nodes@.len() && self.nodes@[i as int].id == id && self.has_node(id)
                    && self.node_index(id) == i,
                None => !self.has_node(id),
            },
    {
        let n = self.nodes.len();
        let mut i: usize = 0;
        while i < n
            invariant
                self.wf(),
                n == self.nodes@.len(),
                i <= n,
                forall|k: int| 0 <= k < i ==> #[trigger] self.nodes@[k].id != id,
            decreases n - i,
        {
            if self.nodes[i].id == id {
                proof {
                    self.lemma_node_index(i as int);
                }
                return Some(i);
            }
            i = i + 1;
        }
        None
    }

    /// Whether a node with this id is stored.
    pub fn contains_node(&self, id: NodeId) -> (r: bool)
        requires
            self.wf(),
        ensures
            r == self.has_node(id),
    {
        self.find_node(id).is_some()
    }

    /// Store `value` under `key` on the node `id`; `false` when there is no such node.
    pub fn set_node_prop(&mut self, id: NodeId, key: String, value: PropValue) -> (found: bool)
        requires
            old(self).wf(),
        ensures
            final(self).wf(),
            found == old(self).has_node(id),
            final(self).edges@ == old(self).edges@,
            final(self).next_node_id == old(self).next_node_id,
            final(self).next_edge_id == old(self).next_edge_id,
            final(self).nodes@.len() == old(self).nodes@.len(),
            forall|i: int| 0 <= i < old(self).nodes@.len() && old(self).nodes@[i].id != id
                ==> #[trigger] final(self).nodes@[i] == old(self).nodes@[i],
            forall|i: int| 0 <= i < old(self).nodes@.len() && old(self).nodes@[i].id == id ==> {
                &&& #[trigger] final(self).nodes@[i].id == id
                &&& final(self).nodes@[i].space_class == old(self).nodes@[i].space_class
                &&& final(self).nodes@[i].label == old(self).nodes@[i].label
                &&& final(self).nodes@[i].props.get_spec(key@) == Some(value@)
                &&& forall|k: Seq<char>| k != key@ ==> #[trigger] final(self).nodes@[i].props.get_spec(k)
                    == old(self).nodes@[i].props.get_spec(k)
            },
    {
        match self.find_node(id) {
            None => false,
            Some(i) => {
                let ghost old_nodes = self.nodes@;
                let mut node = self.nodes.remove(i);
                assert(node == old_nodes[i as int]);
                node.props.insert(key, value);
                self.nodes.insert(i, node);
                assert forall|a: int| 0 <= a < old_nodes.len() && old_nodes[a].id == id implies a == i by {
                    if a < i {
                        assert(old_nodes[a].id.0 < old_nodes[i as int].id.0);
                    } else if a > i {
                        assert(old_nodes[i as int].id.0 < old_nodes[a].id.0);
                    }
                }
                assert forall|a: int, b: int| 0 <= a < b < self.nodes@.len()
                    implies #[trigger] self.nodes@[a].id.0 < #[trigger] self.nodes@[b].id.0 by {
                    assert(old_nodes[a].id.0 < old_nodes[b].id.0);
                }
                true
            },
        }
    }
}

} // verus!
