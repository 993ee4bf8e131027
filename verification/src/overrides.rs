//! Per-container layout overrides scoped by size class: a split fraction (kept as
//! the bits of its `f32`, which the library only stores and compares by key) and a
//! collapse flag, each keyed by `(container, size class)`.

use vstd::prelude::*;

verus! {

/// Identity of a layout container (workspace, page or pod).
#[derive(Debug, Clone, Copy, PartialEq, Eq, Structural)]
pub struct ContainerId(pub u64);

/// Authored visibility intent of a layout container.
#[derive(Debug, Clone, Copy, PartialEq, Eq, Structural)]
pub enum Visibility {
    Shown,
    Collapsed,
    Hidden,
}

/// Responsive size class of the layout viewport.
#[derive(Debug, Clone, Copy, PartialEq, Eq, Structural)]
pub enum SizeClass {
    Compact,
    Medium,
    Expanded,
    Large,
}

/// Position of a size class from smallest to largest.
pub open spec fn class_rank(c: SizeClass) -> nat {
    match c {
        SizeClass::Compact => 0,
        SizeClass::Medium => 1,
        SizeClass::Expanded => 2,
        SizeClass::Large => 3,
    }
}

pub fn class_rank_exec(c: SizeClass) -> (r: u8)
    ensures
        r == class_rank(c),
{
    match c {
        SizeClass::Compact => 0,
        SizeClass::Medium => 1,
        SizeClass::Expanded => 2,
        SizeClass::Large => 3,
    }
}

/// Key order: by container id, then by size class.
pub open spec fn key_lt(a: (u64, SizeClass), b: (u64, SizeClass)) -> bool {
    a.0 < b.0 || (a.0 == b.0 && class_rank(a.1) < class_rank(b.1))
}

/// The value stored last under `k` in `s`, if any.
pub open spec fn assoc_last<V>(s: Seq<(u64, SizeClass, V)>, k: (u64, SizeClass)) -> Option<V>
    decreases s.len(),
{
    if s.len() == 0 {
        None
    } else if (s.last().0, s.last().1) == k {
        Some(s.last().2)
    } else {
        assoc_last(s.drop_last(), k)
    }
}

/// Keys strictly ascending in [`key_lt`] order.
pub open spec fn keys_ascending<V>(s: Seq<(u64, SizeClass, V)>) -> bool {
    forall|i: int, j: int| 0 <= i < j < s.len() ==> #[trigger] key_lt((s[i].0, s[i].1), (s[j].0, s[j].1))
}

pub proof fn lemma_key_lt_irreflexive(a: (u64, SizeClass))
    ensures
        !key_lt(a, a),
{
}

pub proof fn lemma_class_rank_injective(a: SizeClass, b: SizeClass)
    ensures
        class_rank(a) == class_rank(b) ==> a == b,
{
}

/// In a key-ascending sequence, the value under `k` is the one at the index holding `k`.
pub proof fn lemma_assoc_ascending<V>(s: Seq<(u64, SizeClass, V)>, i: int)
    requires
        keys_ascending(s),
        0 <= i < s.len(),
    ensures
        assoc_last(s, (s[i].0, s[i].1)) == Some(s[i].2),
    decreases s.len(),
{
    if i < s.len() - 1 {
        let l = s.len() - 1;
        assert(key_lt((s[i].0, s[i].1), (s[l].0, s[l].1)));
        assert((s.last().0, s.last().1) != (s[i].0, s[i].1));
        let t = s.drop_last();
        assert forall|a: int, b: int| 0 <= a < b < t.len() implies #[trigger] key_lt((t[a].0, t[a].1), (t[b].0, t[b].1)) by {
            assert(key_lt((s[a].0, s[a].1), (s[b].0, s[b].1)));
        }
        lemma_assoc_ascending(t, i);
        assert(t[i] == s[i]);
    }
}

/// In a key-ascending sequence, a key held nowhere has no value.
pub proof fn lemma_assoc_absent<V>(s: Seq<(u64, SizeClass, V)>, k: (u64, SizeClass))
    requires
        forall|i: int| 0 <= i < s.len() ==> (#[trigger] s[i].0, s[i].1) != k,
    ensures
        assoc_last(s, k) is None,
    decreases s.len(),
{
    if s.len() > 0 {
        assert((s[s.len() - 1].0, s[s.len() - 1].1) != k);
        let t = s.drop_last();
        assert forall|i: int| 0 <= i < t.len() implies (#[trigger] t[i].0, t[i].1) != k by {
            assert(t[i] == s[i]);
        }
        lemma_assoc_absent(t, k);
    }
}

/// Values keyed by `(container, size class)`, stored in ascending key order.
#[derive(Debug)]
pub struct OverrideMap<V> {
    pub entries: Vec<(u64, SizeClass, V)>,
}

impl<V: Copy> OverrideMap<V> {
    /// Keys are stored once each, in ascending order.
    pub open spec fn wf(&self) -> bool {
        keys_ascending(self.entries@)
    }

    /// The value stored under `(id, class)`.
    pub open spec fn get_spec(&self, id: u64, class: SizeClass) -> Option<V> {
        assoc_last(self.entries@, (id, class))
    }

    pub fn new() -> (m: Self)
        ensures
            m.wf(),
            m.entries@.len() == 0,
            forall|id: u64, class: SizeClass| #[trigger] m.get_spec(id, class) is None,
    {
        OverrideMap { entries: Vec::new() }
    }

    /// Whether the keys are stored once each, in ascending order.
    pub fn is_well_formed(&self) -> (r: bool)
        ensures
            r == self.wf(),
    {
        let n = self.entries.len();
        if n == 0 {
            return true;
        }
        let mut i: usize = 1;
        while i < n
            invariant
                n == self.entries@.len(),
                1 <= i <= n,
                forall|a: int, b: int| 0 <= a < b < i ==> #[trigger] key_lt(
                    (self.entries@[a].0, self.entries@[a].1),
                    (self.entries@[b].0, self.entries@[b].1),
                ),
            decreases n - i,
        {
            let p = self.entries[i - 1];
            let c = self.entries[i];
            if !(p.0 < c.0 || (p.0 == c.0 && class_rank_exec(p.1) < class_rank_exec(c.1))) {
                assert(!key_lt(
                    (self.entries@[i - 1].0, self.entries@[i - 1].1),
                    (self.entries@[i as int].0, self.entries@[i as int].1),
                ));
                return false;
            }
            assert forall|a: int, b: int| 0 <= a < b < i + 1 implies #[trigger] key_lt(
                (self.entries@[a].0, self.entries@[a].1),
                (self.entries@[b].0, self.entries@[b].1),
            ) by {
                if b == i && a < i - 1 {
                    assert(key_lt((self.entries@[a].0, self.entries@[a].1), (self.entries@[i - 1].0, self.entries@[i - 1].1)));
                }
            }
            i = i + 1;
        }
        true
    }

    /// First index whose key is not below `(id, class)`.
    fn lower_bound(&self, id: u64, class: SizeClass) -> (i: usize)
        requires
            self.wf(),
        ensures
            i <= self.entries@.len(),
            forall|j: int| 0 <= j < i ==> #[trigger] key_lt((self.entries@[j].0, self.entries@[j].1), (id, class)),
            i < self.entries@.len() ==> !key_lt((self.entries@[i as int].0, self.entries@[i as int].1), (id, class)),
    {
        let n = self.entries.len();
        let r = class_rank_exec(class);
        let mut i: usize = 0;
        while i < n
            invariant
                n == self.entries@.len(),
                r == class_rank(class),
                i <= n,
                forall|j: int| 0 <= j < i ==> #[trigger] key_lt((self.entries@[j].0, self.entries@[j].1), (id, class)),
            decreases n - i,
        {
            let e = self.entries[i];
            let below = e.0 < id || (e.0 == id && class_rank_exec(e.1) < r);
            if !below {
                return i;
            }
            i = i + 1;
        }
        i
    }

    /// The value stored under `(id, class)`.
    pub fn get(&self, id: u64, class: SizeClass) -> (v: Option<V>)
        requires
            self.wf(),
        ensures
            v == self.get_spec(id, class),
    {
        let i = self.lower_bound(id, class);
        proof {
            lemma_class_rank_injective(class, class);
        }
        if i < self.entries.len() && self.entries[i].0 == id && class_rank_exec(self.entries[i].1) == class_rank_exec(class) {
            proof {
                lemma_class_rank_injective(self.entries@[i as int].1, class);
                lemma_assoc_ascending(self.entries@, i as int);
            }
            Some(self.entries[i].2)
        } else {
            proof {
                assert forall|j: int| 0 <= j < self.entries@.len() implies (#[trigger] self.entries@[j].0, self.entries@[j].1) != (id, class) by {
                    if j < i {
                        lemma_key_lt_irreflexive((id, class));
                    } else if j > i {
                        assert(key_lt((self.entries@[i as int].0, self.entries@[i as int].1), (self.entries@[j].0, self.entries@[j].1)));
                    }
                }
                lemma_assoc_absent(self.entries@, (id, class));
            }
            None
        }
    }

    /// Store `v` under `(id, class)`, replacing what was there.
    pub fn set(&mut self, id: u64, class: SizeClass, v: V)
        requires
            old(self).wf(),
        ensures
            final(self).wf(),
            final(self).get_spec(id, class) == Some(v),
            forall|id2: u64, class2: SizeClass| (id2, class2) != (id, class) ==> #[trigger] final(self).get_spec(id2, class2)
                == old(self).get_spec(id2, class2),
    {
        let ghost old_entries = self.entries@;
        let i = self.lower_bound(id, class);
        let hit = i < self.entries.len() && self.entries[i].0 == id && class_rank_exec(self.entries[i].1) == class_rank_exec(
            class,
        );
        if hit {
            proof {
                lemma_class_rank_injective(self.entries@[i as int].1, class);
            }
            self.entries[i] = (id, class, v);
        } else {
            self.entries.insert(i, (id, class, v));
        }
        let ghost s = self.entries@;
        assert forall|a: int, b: int| 0 <= a < b < s.len() implies #[trigger] key_lt((s[a].0, s[a].1), (s[b].0, s[b].1)) by {
            if hit {
                if a == i {
                    assert(key_lt((old_entries[a].0, old_entries[a].1), (old_entries[b].0, old_entries[b].1)));
                } else if b == i {
                    assert(key_lt((old_entries[a].0, old_entries[a].1), (old_entries[b].0, old_entries[b].1)));
                } else {
                    assert(key_lt((old_entries[a].0, old_entries[a].1), (old_entries[b].0, old_entries[b].1)));
                }
            } else {
                if b < i {
                    assert(key_lt((old_entries[a].0, old_entries[a].1), (old_entries[b].0, old_entries[b].1)));
                } else if a > i {
                    assert(key_lt((old_entries[a - 1].0, old_entries[a - 1].1), (old_entries[b - 1].0, old_entries[b - 1].1)));
                } else if a == i {
                    if b - 1 > i {
                        assert(key_lt((old_entries[i as int].0, old_entries[i as int].1), (old_entries[b - 1].0, old_entries[b - 1].1)));
                    }
                    assert(!key_lt((old_entries[i as int].0, old_entries[i as int].1), (id, class)));
                    assert((old_entries[i as int].0, old_entries[i as int].1) != (id, class)) by {
                        if (old_entries[i as int].0, old_entries[i as int].1) == (id, class) {
                            lemma_class_rank_injective(class, class);
                        }
                    }
                } else {
                    if b == i {
                    } else {
                        assert(old_entries[b - 1] == s[b]);
                    }
                }
            }
        }
        proof {
            let idx = if hit { i as int } else { i as int };
            assert(s[idx] == (id, class, v));
            lemma_assoc_ascending(s, idx);
            assert forall|id2: u64, class2: SizeClass| (id2, class2) != (id, class) implies #[trigger] self.get_spec(id2, class2)
                == old(self).get_spec(id2, class2) by {
                let k = (id2, class2);
                if exists|j: int| 0 <= j < old_entries.len() && (old_entries[j].0, old_entries[j].1) == k {
                    let j = choose|j: int| 0 <= j < old_entries.len() && (old_entries[j].0, old_entries[j].1) == k;
                    lemma_assoc_ascending(old_entries, j);
                    let j2 = if hit || j < i { j } else { j + 1 };
                    assert(s[j2] == old_entries[j]);
                    lemma_assoc_ascending(s, j2);
                } else {
                    lemma_assoc_absent(old_entries, k);
                    assert forall|j: int| 0 <= j < s.len() implies (#[trigger] s[j].0, s[j].1) != k by {
                        if j != idx {
                            let jo = if hit || j < i { j } else { j - 1 };
                            assert(s[j] == old_entries[jo]);
                        }
                    }
                    lemma_assoc_absent(s, k);
                }
            }
        }
    }
}

/// Layout overrides: split fractions and collapse flags, each per `(container, size class)`.
#[derive(Debug)]
pub struct Overrides {
    pub fractions: OverrideMap<u32>,
    pub collapse: OverrideMap<bool>,
}

impl Overrides {
    pub open spec fn wf(&self) -> bool {
        self.fractions.wf() && self.collapse.wf()
    }

    /// Whether both maps are well formed.
    pub fn is_well_formed(&self) -> (r: bool)
        ensures
            r == self.wf(),
    {
        self.fractions.is_well_formed() && self.collapse.is_well_formed()
    }

    pub fn new() -> (o: Overrides)
        ensures
            o.wf(),
            o.fractions.entries@.len() == 0,
            o.collapse.entries@.len() == 0,
    {
        Overrides { fractions: OverrideMap::new(), collapse: OverrideMap::new() }
    }

    /// Split fraction (as `f32` bits) for `id` at `class`.
    pub fn get(&self, id: ContainerId, class: SizeClass) -> (r: Option<u32>)
        requires
            self.wf(),
        ensures
            r == self.fractions.get_spec(id.0, class),
    {
        self.fractions.get(id.0, class)
    }

    pub fn set(&mut self, id: ContainerId, class: SizeClass, fraction_bits: u32)
        requires
            old(self).wf(),
        ensures
            final(self).wf(),
            final(self).collapse == old(self).collapse,
            final(self).fractions.get_spec(id.0, class) == Some(fraction_bits),
            forall|id2: u64, class2: SizeClass| (id2, class2) != (id.0, class) ==> #[trigger] final(self).fractions.get_spec(
                id2,
                class2,
            ) == old(self).fractions.get_spec(id2, class2),
    {
        self.fractions.set(id.0, class, fraction_bits);
    }

    /// Collapse flag for `id` at `class`.
    pub fn get_collapse(&self, id: ContainerId, class: SizeClass) -> (r: Option<bool>)
        requires
            self.wf(),
        ensures
            r == self.collapse.get_spec(id.0, class),
    {
        self.collapse.get(id.0, class)
    }

    pub fn set_collapse(&mut self, id: ContainerId, class: SizeClass, collapsed: bool)
        requires
            old(self).wf(),
        ensures
            final(self).wf(),
            final(self).fractions == old(self).fractions,
            final(self).collapse.get_spec(id.0, class) == Some(collapsed),
            forall|id2: u64, class2: SizeClass| (id2, class2) != (id.0, class) ==> #[trigger] final(self).collapse.get_spec(
                id2,
                class2,
            ) == old(self).collapse.get_spec(id2, class2),
    {
        self.collapse.set(id.0, class, collapsed);
    }
}

} // verus!
