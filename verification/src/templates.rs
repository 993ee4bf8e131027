//! Templates assigned to the pages and pods of a workspace, as a map kept in
//! ascending key order: pages by id, pods by `(page, pod)`.

use crate::graph::{Graph, NodeId, PropValue, PropValueView};
use crate::pagetree::{PageId, PageNode, PageTree, PodId};
use vstd::prelude::*;

verus! {

/// Key of a pod's template: page first, then pod.
pub open spec fn pod_key(page: u32, pod: u32) -> int {
    page * 0x1_0000_0000 + pod
}

/// Keys ascend strictly.
pub open spec fn keys_ascend(s: Seq<(u64, String)>) -> bool {
    forall|i: int, j: int| 0 <= i < j < s.len() ==> (#[trigger] s[i]).0 < (#[trigger] s[j]).0
}

/// The text stored under `k` in `s`.
pub open spec fn lookup(s: Seq<(u64, String)>, k: u64) -> Option<Seq<char>> {
    if exists|i: int| 0 <= i < s.len() && (#[trigger] s[i]).0 == k {
        let i = choose|i: int| 0 <= i < s.len() && (#[trigger] s[i]).0 == k;
        Some(s[i].1@)
    } else {
        None
    }
}

pub proof fn lemma_lookup_at(s: Seq<(u64, String)>, i: int)
    requires
        keys_ascend(s),
        0 <= i < s.len(),
    ensures
        lookup(s, s[i].0) == Some(s[i].1@),
{
    let k = s[i].0;
    assert(exists|j: int| 0 <= j < s.len() && (#[trigger] s[j]).0 == k);
    let j = choose|j: int| 0 <= j < s.len() && (#[trigger] s[j]).0 == k;
    if j < i {
        assert(s[j].0 < s[i].0);
    } else if j > i {
        assert(s[i].0 < s[j].0);
    }
}

/// Texts keyed by `u64`, in ascending key order.
#[derive(Debug)]
pub struct TemplateMap {
    pub entries: Vec<(u64, String)>,
}

impl TemplateMap {
    pub open spec fn wf(&self) -> bool {
        keys_ascend(self.entries@)
    }

    pub open spec fn get_spec(&self, k: u64) -> Option<Seq<char>> {
        lookup(self.entries@, k)
    }

    pub fn new() -> (m: TemplateMap)
        ensures
            m.wf(),
            m.entries@.len() == 0,
            forall|k: u64| #[trigger] m.get_spec(k) is None,
    {
        TemplateMap { entries: Vec::new() }
    }

    /// First index whose key is at least `k`.
    fn lower_bound(&self, k: u64) -> (i: usize)
        requires
            self.wf(),
        ensures
            i <= self.entries@.len(),
            forall|j: int| 0 <= j < i ==> (#[trigger] self.entries@[j]).0 < k,
            i < self.entries@.len() ==> self.entries@[i as int].0 >= k,
    {
        let n = self.entries.len();
        let mut i: usize = 0;
        while i < n
            invariant
                n == self.entries@.len(),
                i <= n,
                forall|j: int| 0 <= j < i ==> (#[trigger] self.entries@[j]).0 < k,
            decreases n - i,
        {
            if self.entries[i].0 >= k {
                return i;
            }
            i = i + 1;
        }
        i
    }

    pub fn get(&self, k: u64) -> (r: Option<&String>)
        requires
            self.wf(),
        ensures
            match r {
                Some(v) => self.get_spec(k) == Some(v@),
                None => self.get_spec(k) is None,
            },
    {
        let i = self.lower_bound(k);
        if i < self.entries.len() && self.entries[i].0 == k {
            proof {
                lemma_lookup_at(self.entries@, i as int);
            }
            Some(&self.entries[i].1)
        } else {
            proof {
                assert forall|j: int| 0 <= j < self.entries@.len() implies (#[trigger] self.entries@[j]).0 != k by {
                    if j > i {
                        assert(self.entries@[i as int].0 < self.entries@[j].0);
                    }
                }
            }
            None
        }
    }

    /// Store `v` under `k`, replacing what was there.
    pub fn insert(&mut self, k: u64, v: String)
        requires
            old(self).wf(),
        ensures
            final(self).wf(),
            final(self).get_spec(k) == Some(v@),
            forall|k2: u64| k2 != k ==> #[trigger] final(self).get_spec(k2) == old(self).get_spec(k2),
    {
        let ghost old_entries = self.entries@;
        let ghost vv = v@;
        let i = self.lower_bound(k);
        let hit = i < self.entries.len() && self.entries[i].0 == k;
        if hit {
            self.entries.remove(i);
        }
        self.entries.insert(i, (k, v));
        let ghost s = self.entries@;
        assert(s.len() == if hit { old_entries.len() } else { old_entries.len() + 1 });
        assert forall|a: int| 0 <= a < s.len() && a != i implies #[trigger] s[a] == old_entries[if hit || a < i {
            a
        } else {
            a - 1
        }] by {}
        assert forall|a: int, b: int| 0 <= a < b < s.len() implies (#[trigger] s[a]).0 < (#[trigger] s[b]).0 by {
            let oa = if hit || a < i { a } else { a - 1 };
            let ob = if hit || b < i { b } else { b - 1 };
            if a != i && b != i {
                assert(old_entries[oa].0 < old_entries[ob].0);
            } else if a == i {
                if hit {
                    assert(old_entries[i as int].0 < old_entries[ob].0);
                } else if ob < old_entries.len() {
                    assert(old_entries[i as int].0 >= k);
                    assert(old_entries[i as int].0 <= old_entries[ob].0);
                }
            } else {
                assert(old_entries[oa].0 < k);
            }
        }
        proof {
            lemma_lookup_at(s, i as int);
            assert forall|k2: u64| k2 != k implies #[trigger] self.get_spec(k2) == old(self).get_spec(k2) by {
                if exists|j: int| 0 <= j < old_entries.len() && (#[trigger] old_entries[j]).0 == k2 {
                    let j = choose|j: int| 0 <= j < old_entries.len() && (#[trigger] old_entries[j]).0 == k2;
                    lemma_lookup_at(old_entries, j);
                    let j2 = if hit || j < i { j } else { j + 1 };
                    assert(s[j2] == old_entries[j]);
                    lemma_lookup_at(s, j2);
                } else {
                    assert forall|j: int| 0 <= j < s.len() implies (#[trigger] s[j]).0 != k2 by {
                        if j != i {
                            let jo = if hit || j < i { j } else { j - 1 };
                            assert(s[j] == old_entries[jo]);
                        }
                    }
                }
            }
        }
    }

    /// Drop every entry whose key lies in `lo..=hi`.
    pub fn remove_range(&mut self, lo: u64, hi: u64)
        requires
            old(self).wf(),
        ensures
            final(self).wf(),
            forall|k: u64| #[trigger] final(self).get_spec(k) == if lo <= k <= hi {
                None
            } else {
                old(self).get_spec(k)
            },
    {
        let ghost old_entries = self.entries@;
        let i = self.lower_bound(lo);
        let ghost dropped: int = 0;
        while i < self.entries.len() && self.entries[i].0 <= hi
            invariant
                i <= self.entries@.len(),
                0 <= dropped,
                i + dropped <= old_entries.len(),
                self.entries@.len() + dropped == old_entries.len(),
                forall|j: int| 0 <= j < i ==> #[trigger] self.entries@[j] == old_entries[j],
                forall|j: int| i <= j < self.entries@.len() ==> #[trigger] self.entries@[j] == old_entries[j + dropped],
                forall|j: int| i <= j < i + dropped ==> lo <= (#[trigger] old_entries[j]).0 <= hi,
                forall|j: int| 0 <= j < i ==> (#[trigger] old_entries[j]).0 < lo,
                i < old_entries.len() ==> old_entries[i as int].0 >= lo,
                keys_ascend(old_entries),
            decreases self.entries@.len() - i,
        {
            proof {
                assert(old_entries[i + dropped].0 >= lo) by {
                    if dropped > 0 {
                        assert(old_entries[i as int].0 <= old_entries[i + dropped].0);
                    }
                }
            }
            self.entries.remove(i);
            proof {
                dropped = dropped + 1;
            }
        }
        let ghost s = self.entries@;
        assert forall|a: int, b: int| 0 <= a < b < s.len() implies (#[trigger] s[a]).0 < (#[trigger] s[b]).0 by {
            let oa = if a < i { a } else { a + dropped };
            let ob = if b < i { b } else { b + dropped };
            assert(old_entries[oa].0 < old_entries[ob].0);
        }
        proof {
            assert forall|k: u64| #[trigger] self.get_spec(k) == if lo <= k <= hi {
                None
            } else {
                old(self).get_spec(k)
            } by {
                if exists|j: int| 0 <= j < old_entries.len() && (#[trigger] old_entries[j]).0 == k {
                    let j = choose|j: int| 0 <= j < old_entries.len() && (#[trigger] old_entries[j]).0 == k;
                    lemma_lookup_at(old_entries, j);
                    if j < i {
                        assert(s[j] == old_entries[j]);
                        lemma_lookup_at(s, j);
                    } else if j >= i + dropped {
                        assert(s[j - dropped] == old_entries[j]);
                        lemma_lookup_at(s, j - dropped);
                        assert(!(lo <= k <= hi)) by {
                            if i < s.len() {
                                assert(s[i as int] == old_entries[i + dropped]);
                                if j > i + dropped {
                                    assert(old_entries[i + dropped].0 < old_entries[j].0);
                                }
                            }
                        }
                    } else {
                        assert forall|a: int| 0 <= a < s.len() implies (#[trigger] s[a]).0 != k by {
                            if a < i {
                                assert(s[a] == old_entries[a]);
                                assert(old_entries[a].0 < old_entries[j].0);
                            } else {
                                assert(s[a] == old_entries[a + dropped]);
                                assert(old_entries[j].0 < old_entries[a + dropped].0);
                            }
                        }
                    }
                } else {
                    assert forall|a: int| 0 <= a < s.len() implies (#[trigger] s[a]).0 != k by {
                        if a < i {
                            assert(s[a] == old_entries[a]);
                        } else {
                            assert(s[a] == old_entries[a + dropped]);
                        }
                    }
                }
            }
        }
    }
}

fn pod_key_exec(page: u32, pod: u32) -> (k: u64)
    ensures
        k == pod_key(page, pod),
{
    assert((page as u64) * 0x1_0000_0000u64 + (pod as u64) <= u64::MAX) by (nonlinear_arith)
        requires
            page <= u32::MAX,
            pod <= u32::MAX,
    ;
    (page as u64) * 0x1_0000_0000u64 + (pod as u64)
}

proof fn lemma_pod_key_split(k: u64)
    ensures
        0 <= k / 0x1_0000_0000 <= u32::MAX,
        0 <= k % 0x1_0000_0000 <= u32::MAX,
        pod_key((k / 0x1_0000_0000) as u32, (k % 0x1_0000_0000) as u32) == k,
{
}

proof fn lemma_pod_key_range(page: u32, pod: u32, p2: u32)
    ensures
        (pod_key(page, 0) <= pod_key(p2, pod) <= pod_key(page, u32::MAX)) <==> p2 == page,
{
    if p2 < page {
        assert(pod_key(p2, pod) < pod_key(page, 0)) by (nonlinear_arith)
            requires
                p2 < page,
                pod <= u32::MAX,
        ;
    } else if p2 > page {
        assert(pod_key(p2, pod) > pod_key(page, u32::MAX)) by (nonlinear_arith)
            requires
                p2 > page,
        ;
    }
}

proof fn lemma_pod_key_injective(a: u32, b: u32, c: u32, d: u32)
    ensures
        pod_key(a, b) == pod_key(c, d) ==> a == c && b == d,
{
    if a < c {
        lemma_pod_key_range(c, d, a);
        lemma_pod_key_range(a, b, a);
    } else if a > c {
        lemma_pod_key_range(a, b, c);
        lemma_pod_key_range(c, d, c);
    }
}

/// Templates of pages (keyed by page id) and of pods (keyed by page and pod).
#[derive(Debug)]
pub struct TemplateBook {
    pub pages: TemplateMap,
    pub pods: TemplateMap,
}

/// The text stored last under `page` in `es`.
pub open spec fn last_page_entry(es: Seq<(u32, String)>, page: u32) -> Option<Seq<char>>
    decreases es.len(),
{
    if es.len() == 0 {
        None
    } else if es.last().0 == page {
        Some(es.last().1@)
    } else {
        last_page_entry(es.drop_last(), page)
    }
}

/// The text stored last under `(page, pod)` in `es`.
pub open spec fn last_pod_entry(es: Seq<(u32, u32, String)>, page: u32, pod: u32) -> Option<Seq<char>>
    decreases es.len(),
{
    if es.len() == 0 {
        None
    } else if es.last().0 == page && es.last().1 == pod {
        Some(es.last().2@)
    } else {
        last_pod_entry(es.drop_last(), page, pod)
    }
}

impl TemplateBook {
    /// Both maps are ordered and page keys are page ids.
    pub open spec fn wf(&self) -> bool {
        &&& self.pages.wf()
        &&& self.pods.wf()
        &&& forall|i: int| 0 <= i < self.pages.entries@.len() ==> (#[trigger] self.pages.entries@[i]).0 <= u32::MAX
    }

    pub open spec fn page_template(&self, page: u32) -> Option<Seq<char>> {
        self.pages.get_spec(page as u64)
    }

    pub open spec fn pod_template(&self, page: u32, pod: u32) -> Option<Seq<char>> {
        self.pods.get_spec(pod_key(page, pod) as u64)
    }

    pub fn new() -> (b: TemplateBook)
        ensures
            b.wf(),
            forall|p: u32| #[trigger] b.page_template(p) is None,
            forall|p: u32, q: u32| #[trigger] b.pod_template(p, q) is None,
    {
        TemplateBook { pages: TemplateMap::new(), pods: TemplateMap::new() }
    }

    pub fn page_template_of(&self, page: PageId) -> (r: Option<&String>)
        requires
            self.wf(),
        ensures
            match r {
                Some(t) => self.page_template(page.0) == Some(t@),
                None => self.page_template(page.0) is None,
            },
    {
        self.pages.get(page.0 as u64)
    }

    pub fn pod_template_of(&self, page: PageId, pod: PodId) -> (r: Option<&String>)
        requires
            self.wf(),
        ensures
            match r {
                Some(t) => self.pod_template(page.0, pod.0) == Some(t@),
                None => self.pod_template(page.0, pod.0) is None,
            },
    {
        self.pods.get(pod_key_exec(page.0, pod.0))
    }

    pub fn set_page_template(&mut self, page: PageId, template: String)
        requires
            old(self).wf(),
        ensures
            final(self).wf(),
            final(self).page_template(page.0) == Some(template@),
            forall|p: u32| p != page.0 ==> #[trigger] final(self).page_template(p) == old(self).page_template(p),
            final(self).pods == old(self).pods,
    {
        let ghost old_pages = self.pages;
        self.pages.insert(page.0 as u64, template);
        proof {
            assert forall|i: int| 0 <= i < self.pages.entries@.len() implies (#[trigger] self.pages.entries@[i]).0 <= u32::MAX by {
                let k = self.pages.entries@[i].0;
                lemma_lookup_at(self.pages.entries@, i);
                assert(self.pages.get_spec(k) is Some);
                if k != page.0 as u64 {
                    assert(old_pages.get_spec(k) is Some);
                    let j = choose|j: int| 0 <= j < old_pages.entries@.len() && (#[trigger] old_pages.entries@[j]).0 == k;
                    assert(old_pages.entries@[j].0 <= u32::MAX);
                }
            }
            assert forall|p: u32| p != page.0 implies #[trigger] self.page_template(p) == old(self).page_template(p) by {
                assert(p as u64 != page.0 as u64);
            }
        }
    }

    pub fn set_pod_template(&mut self, page: PageId, pod: PodId, template: String)
        requires
            old(self).wf(),
        ensures
            final(self).wf(),
            final(self).pod_template(page.0, pod.0) == Some(template@),
            forall|p: u32, q: u32| (p, q) != (page.0, pod.0) ==> #[trigger] final(self).pod_template(p, q) == old(self).pod_template(p, q),
            final(self).pages == old(self).pages,
    {
        let k = pod_key_exec(page.0, pod.0);
        self.pods.insert(k, template);
        proof {
            assert forall|p: u32, q: u32| (p, q) != (page.0, pod.0) implies #[trigger] self.pod_template(p, q) == old(self).pod_template(p, q) by {
                lemma_pod_key_injective(p, q, page.0, pod.0);
                lemma_pod_key_split(k);
                assert(0 <= pod_key(p, q) <= u64::MAX) by (nonlinear_arith)
                    requires
                        p <= u32::MAX,
                        q <= u32::MAX,
                ;
            }
        }
    }

    /// A page made by a split gets `template`, and so does its first pod.
    pub fn assign_new_page(&mut self, page: PageId, template: &str)
        requires
            old(self).wf(),
        ensures
            final(self).wf(),
            final(self).page_template(page.0) == Some(template@),
            final(self).pod_template(page.0, 0) == Some(template@),
            forall|p: u32| p != page.0 ==> #[trigger] final(self).page_template(p) == old(self).page_template(p),
            forall|p: u32, q: u32| (p, q) != (page.0, 0u32) ==> #[trigger] final(self).pod_template(p, q) == old(self).pod_template(p, q),
    {
        let ghost start = *self;
        self.set_page_template(page, String::from_str(template));
        let ghost mid = *self;
        self.set_pod_template(page, PodId(0), String::from_str(template));
        assert forall|p: u32| p != page.0 implies #[trigger] self.page_template(p) == start.page_template(p) by {
            assert(mid.page_template(p) == start.page_template(p));
        }
        assert forall|p: u32, q: u32| (p, q) != (page.0, 0u32) implies #[trigger] self.pod_template(p, q) == start.pod_template(
            p,
            q,
        ) by {
            assert(mid.pod_template(p, q) == start.pod_template(p, q));
        }
    }

    /// A page retired by a merge loses its template and those of its pods.
    pub fn retire_page(&mut self, page: PageId)
        requires
            old(self).wf(),
        ensures
            final(self).wf(),
            forall|p: u32| #[trigger] final(self).page_template(p) == if p == page.0 {
                None
            } else {
                old(self).page_template(p)
            },
            forall|p: u32, q: u32| #[trigger] final(self).pod_template(p, q) == if p == page.0 {
                None
            } else {
                old(self).pod_template(p, q)
            },
    {
        let ghost old_pages = self.pages;
        self.pages.remove_range(page.0 as u64, page.0 as u64);
        let lo = pod_key_exec(page.0, 0);
        let hi = pod_key_exec(page.0, u32::MAX);
        self.pods.remove_range(lo, hi);
        proof {
            assert forall|i: int| 0 <= i < self.pages.entries@.len() implies (#[trigger] self.pages.entries@[i]).0 <= u32::MAX by {
                let k = self.pages.entries@[i].0;
                lemma_lookup_at(self.pages.entries@, i);
                assert(self.pages.get_spec(k) is Some);
                assert(old_pages.get_spec(k) is Some);
                let j = choose|j: int| 0 <= j < old_pages.entries@.len() && (#[trigger] old_pages.entries@[j]).0 == k;
                assert(old_pages.entries@[j].0 <= u32::MAX);
            }
            assert forall|p: u32, q: u32| #[trigger] self.pod_template(p, q) == if p == page.0 {
                None
            } else {
                old(self).pod_template(p, q)
            } by {
                lemma_pod_key_range(page.0, q, p);
                assert(0 <= pod_key(p, q) <= u64::MAX) by (nonlinear_arith)
                    requires
                        p <= u32::MAX,
                        q <= u32::MAX,
                ;
            }
        }
    }

    /// Retire each of `pages`.
    pub fn retire_pages(&mut self, pages: &Vec<PageId>)
        requires
            old(self).wf(),
        ensures
            final(self).wf(),
            forall|p: u32| #[trigger] final(self).page_template(p) == if pages@.contains(PageId(p)) {
                None
            } else {
                old(self).page_template(p)
            },
            forall|p: u32, q: u32| #[trigger] final(self).pod_template(p, q) == if pages@.contains(PageId(p)) {
                None
            } else {
                old(self).pod_template(p, q)
            },
    {
        let ghost start = *self;
        let n = pages.len();
        let mut i: usize = 0;
        while i < n
            invariant
                n == pages@.len(),
                i <= n,
                self.wf(),
                forall|p: u32| #[trigger] self.page_template(p) == if pages@.take(i as int).contains(PageId(p)) {
                    None
                } else {
                    start.page_template(p)
                },
                forall|p: u32, q: u32| #[trigger] self.pod_template(p, q) == if pages@.take(i as int).contains(PageId(p)) {
                    None
                } else {
                    start.pod_template(p, q)
                },
            decreases n - i,
        {
            let page = pages[i];
            self.retire_page(page);
            proof {
                let t = pages@.take(i + 1);
                assert(t == pages@.take(i as int).push(page));
                assert forall|p: u32| t.contains(PageId(p)) == (pages@.take(i as int).contains(PageId(p)) || p == page.0) by {
                    if t.contains(PageId(p)) {
                        let j = choose|j: int| 0 <= j < t.len() && t[j] == PageId(p);
                        if j < i {
                            assert(pages@.take(i as int)[j] == PageId(p));
                        }
                    }
                    if p == page.0 {
                        assert(t[i as int] == PageId(p));
                    }
                    if pages@.take(i as int).contains(PageId(p)) {
                        let j = choose|j: int| 0 <= j < i && pages@.take(i as int)[j] == PageId(p);
                        assert(t[j] == PageId(p));
                    }
                }
            }
            i = i + 1;
        }
        assert(pages@.take(n as int) == pages@);
    }

    /// Page templates for saving, in ascending page order.
    pub fn capture_page_templates(&self) -> (r: Vec<(u32, String)>)
        requires
            self.wf(),
        ensures
            r@.len() == self.pages.entries@.len(),
            forall|i: int| 0 <= i < r@.len() ==> (#[trigger] r@[i]).0 == self.pages.entries@[i].0 && r@[i].1@
                == self.pages.entries@[i].1@,
    {
        let mut r: Vec<(u32, String)> = Vec::new();
        let n = self.pages.entries.len();
        let mut i: usize = 0;
        while i < n
            invariant
                self.wf(),
                n == self.pages.entries@.len(),
                i <= n,
                r@.len() == i,
                forall|k: int| 0 <= k < i ==> (#[trigger] r@[k]).0 == self.pages.entries@[k].0 && r@[k].1@
                    == self.pages.entries@[k].1@,
            decreases n - i,
        {
            let e = &self.pages.entries[i];
            assert(self.pages.entries@[i as int].0 <= u32::MAX);
            r.push((e.0 as u32, e.1.clone()));
            i = i + 1;
        }
        r
    }

    /// Pod templates for saving, in ascending `(page, pod)` order.
    pub fn capture_pod_templates(&self) -> (r: Vec<(u32, u32, String)>)
        requires
            self.wf(),
        ensures
            r@.len() == self.pods.entries@.len(),
            forall|i: int| 0 <= i < r@.len() ==> pod_key((#[trigger] r@[i]).0, r@[i].1) == self.pods.entries@[i].0 && r@[i].2@
                == self.pods.entries@[i].1@,
    {
        let mut r: Vec<(u32, u32, String)> = Vec::new();
        let n = self.pods.entries.len();
        let mut i: usize = 0;
        while i < n
            invariant
                n == self.pods.entries@.len(),
                i <= n,
                r@.len() == i,
                forall|k: int| 0 <= k < i ==> pod_key((#[trigger] r@[k]).0, r@[k].1) == self.pods.entries@[k].0 && r@[k].2@
                    == self.pods.entries@[k].1@,
            decreases n - i,
        {
            let e = &self.pods.entries[i];
            proof {
                lemma_pod_key_split(e.0);
            }
            let page = (e.0 / 0x1_0000_0000u64) as u32;
            let pod = (e.0 % 0x1_0000_0000u64) as u32;
            r.push((page, pod, e.1.clone()));
            i = i + 1;
        }
        r
    }
}

/// Page templates from a save; a later entry for the same page wins.
pub fn restore_page_templates(entries: &Vec<(u32, String)>) -> (m: TemplateMap)
    ensures
        m.wf(),
        forall|i: int| 0 <= i < m.entries@.len() ==> (#[trigger] m.entries@[i]).0 <= u32::MAX,
        forall|p: u32| #[trigger] m.get_spec(p as u64) == last_page_entry(entries@, p),
{
    let mut m = TemplateMap::new();
    let n = entries.len();
    let mut i: usize = 0;
    while i < n
        invariant
            n == entries@.len(),
            i <= n,
            m.wf(),
            forall|k: int| 0 <= k < m.entries@.len() ==> (#[trigger] m.entries@[k]).0 <= u32::MAX,
            forall|p: u32| #[trigger] m.get_spec(p as u64) == last_page_entry(entries@.take(i as int), p),
        decreases n - i,
    {
        let ghost before = m;
        let e = &entries[i];
        m.insert(e.0 as u64, e.1.clone());
        proof {
            let t = entries@.take(i + 1);
            assert(t.drop_last() == entries@.take(i as int));
            assert(t.last() == entries@[i as int]);
            assert forall|k: int| 0 <= k < m.entries@.len() implies (#[trigger] m.entries@[k]).0 <= u32::MAX by {
                let key = m.entries@[k].0;
                lemma_lookup_at(m.entries@, k);
                assert(m.get_spec(key) is Some);
                if key != e.0 as u64 {
                    assert(before.get_spec(key) is Some);
                    let j = choose|j: int| 0 <= j < before.entries@.len() && (#[trigger] before.entries@[j]).0 == key;
                    assert(before.entries@[j].0 <= u32::MAX);
                }
            }
            assert forall|p: u32| #[trigger] m.get_spec(p as u64) == last_page_entry(t, p) by {
                if p != e.0 {
                    assert(p as u64 != e.0 as u64);
                }
            }
        }
        i = i + 1;
    }
    assert(entries@.take(n as int) == entries@);
    m
}

/// Pod templates from a save; a later entry for the same page and pod wins.
pub fn restore_pod_templates(entries: &Vec<(u32, u32, String)>) -> (m: TemplateMap)
    ensures
        m.wf(),
        forall|p: u32, q: u32| #[trigger] m.get_spec(pod_key(p, q) as u64) == last_pod_entry(entries@, p, q),
{
    let mut m = TemplateMap::new();
    let n = entries.len();
    let mut i: usize = 0;
    while i < n
        invariant
            n == entries@.len(),
            i <= n,
            m.wf(),
            forall|p: u32, q: u32| #[trigger] m.get_spec(pod_key(p, q) as u64) == last_pod_entry(entries@.take(i as int), p, q),
        decreases n - i,
    {
        let e = &entries[i];
        let k = pod_key_exec(e.0, e.1);
        m.insert(k, e.2.clone());
        proof {
            let t = entries@.take(i + 1);
            assert(t.drop_last() == entries@.take(i as int));
            assert(t.last() == entries@[i as int]);
            assert forall|p: u32, q: u32| #[trigger] m.get_spec(pod_key(p, q) as u64) == last_pod_entry(t, p, q) by {
                lemma_pod_key_injective(p, q, e.0, e.1);
                assert(0 <= pod_key(p, q) <= u64::MAX) by (nonlinear_arith)
                    requires
                        p <= u32::MAX,
                        q <= u32::MAX,
                ;
            }
        }
        i = i + 1;
    }
    assert(entries@.take(n as int) == entries@);
    m
}

/// The templates of a saved workspace.
pub fn restore_templates(pages: &Vec<(u32, String)>, pods: &Vec<(u32, u32, String)>) -> (b: TemplateBook)
    ensures
        b.wf(),
        forall|p: u32| #[trigger] b.page_template(p) == last_page_entry(pages@, p),
        forall|p: u32, q: u32| #[trigger] b.pod_template(p, q) == last_pod_entry(pods@, p, q),
{
    TemplateBook { pages: restore_page_templates(pages), pods: restore_pod_templates(pods) }
}

/// The template writes for one page: the page's own, then each pod's, in order.
pub open spec fn page_writes(book: TemplateBook, page: PageNode) -> Seq<(NodeId, Option<Seq<char>>)> {
    seq![(page.node_id, book.page_template(page.id.0))] + Seq::new(
        page.pods@.len(),
        |q: int| (page.pods@[q].node_id, book.pod_template(page.id.0, page.pods@[q].id.0)),
    )
}

/// The template writes for `pages`, page by page.
pub open spec fn tree_writes(book: TemplateBook, pages: Seq<PageNode>) -> Seq<(NodeId, Option<Seq<char>>)>
    decreases pages.len(),
{
    if pages.len() == 0 {
        Seq::empty()
    } else {
        tree_writes(book, pages.drop_last()) + page_writes(book, pages.last())
    }
}

/// The template written last onto node `x`, if any.
pub open spec fn last_write(ws: Seq<(NodeId, Option<Seq<char>>)>, x: NodeId) -> Option<Seq<char>>
    decreases ws.len(),
{
    if ws.len() == 0 {
        None
    } else if ws.last().0 == x && ws.last().1 is Some {
        ws.last().1
    } else {
        last_write(ws.drop_last(), x)
    }
}

/// `g` is `g0` with the writes `ws` applied to the `template_id` property.
pub open spec fn templates_applied(g0: Graph, g: Graph, ws: Seq<(NodeId, Option<Seq<char>>)>) -> bool {
    &&& g.wf()
    &&& g.edges@ == g0.edges@
    &&& g.next_node_id == g0.next_node_id
    &&& g.next_edge_id == g0.next_edge_id
    &&& g.nodes@.len() == g0.nodes@.len()
    &&& forall|i: int| 0 <= i < g.nodes@.len() ==> {
        &&& (#[trigger] g.nodes@[i]).id == g0.nodes@[i].id
        &&& g.nodes@[i].space_class == g0.nodes@[i].space_class
        &&& g.nodes@[i].label == g0.nodes@[i].label
        &&& forall|k: Seq<char>| k != "template_id"@ ==> #[trigger] g.nodes@[i].props.get_spec(k) == g0.nodes@[i].props.get_spec(k)
        &&& g.nodes@[i].props.get_spec("template_id"@) == match last_write(ws, g0.nodes@[i].id) {
            Some(t) => Some(PropValueView::Text(t)),
            None => g0.nodes@[i].props.get_spec("template_id"@),
        }
    }
}

/// Apply one write.
fn apply_write(graph: &mut Graph, node: NodeId, template: Option<&String>, Ghost(g0): Ghost<Graph>, Ghost(ws): Ghost<Seq<(NodeId, Option<Seq<char>>)>>)
    requires
        templates_applied(g0, *old(graph), ws),
        template is Some ==> g0.has_node(node),
    ensures
        templates_applied(g0, *final(graph), ws.push((node, match template {
            Some(t) => Some(t@),
            None => None,
        }))),
{
    let ghost w = (node, match template {
        Some(t) => Some(t@),
        None => None::<Seq<char>>,
    });
    let ghost ws2 = ws.push(w);
    assert(ws2.drop_last() == ws);
    assert(ws2.last() == w);
    match template {
        Some(t) => {
            proof {
                reveal_strlit("template_id");
                let j = choose|j: int| 0 <= j < g0.nodes@.len() && #[trigger] g0.nodes@[j].id == node;
                assert(graph.nodes@[j].id == node);
                assert(graph.has_node(node));
            }
            let ghost before = *graph;
            let key = String::from_str("template_id");
            assert(key@ == "template_id"@);
            graph.set_node_prop(node, key, PropValue::Text(t.clone()));
            proof {
                assert forall|i: int| 0 <= i < graph.nodes@.len() implies {
                    &&& (#[trigger] graph.nodes@[i]).id == g0.nodes@[i].id
                    &&& graph.nodes@[i].space_class == g0.nodes@[i].space_class
                    &&& graph.nodes@[i].label == g0.nodes@[i].label
                    &&& forall|k: Seq<char>| k != "template_id"@ ==> #[trigger] graph.nodes@[i].props.get_spec(k)
                        == g0.nodes@[i].props.get_spec(k)
                    &&& graph.nodes@[i].props.get_spec("template_id"@) == match last_write(ws2, g0.nodes@[i].id) {
                        Some(t) => Some(PropValueView::Text(t)),
                        None => g0.nodes@[i].props.get_spec("template_id"@),
                    }
                } by {
                    assert(before.nodes@[i].id == g0.nodes@[i].id);
                    if before.nodes@[i].id == node {
                        assert(graph.nodes@[i].id == node);
                        assert forall|k: Seq<char>| k != "template_id"@ implies #[trigger] graph.nodes@[i].props.get_spec(k)
                            == g0.nodes@[i].props.get_spec(k) by {
                            assert(graph.nodes@[i].props.get_spec(k) == before.nodes@[i].props.get_spec(k));
                            assert(before.nodes@[i].props.get_spec(k) == g0.nodes@[i].props.get_spec(k));
                        }
                    } else {
                        assert(graph.nodes@[i] == before.nodes@[i]);
                    }
                }
            }
        },
        None => {},
    }
}

/// Write each page's template, and each pod's, onto its node as `template_id`;
/// where several writes reach one node, the last one stays.
pub fn apply_templates(graph: &mut Graph, tree: &PageTree, book: &TemplateBook)
    requires
        old(graph).wf(),
        book.wf(),
        forall|k: int|
            0 <= k < tree_writes(*book, tree.pages@).len() && (#[trigger] tree_writes(*book, tree.pages@)[k]).1 is Some
                ==> old(graph).has_node(tree_writes(*book, tree.pages@)[k].0),
    ensures
        templates_applied(*old(graph), *final(graph), tree_writes(*book, tree.pages@)),
{
    let ghost g0 = *graph;
    let ghost all = tree_writes(*book, tree.pages@);
    let n = tree.pages.len();
    let mut i: usize = 0;
    proof {
        assert(tree.pages@.take(0) =~= Seq::<PageNode>::empty());
        assert forall|x: int| 0 <= x < graph.nodes@.len() implies {
            &&& (#[trigger] graph.nodes@[x]).id == g0.nodes@[x].id
            &&& graph.nodes@[x].space_class == g0.nodes@[x].space_class
            &&& graph.nodes@[x].label == g0.nodes@[x].label
            &&& forall|k: Seq<char>| k != "template_id"@ ==> #[trigger] graph.nodes@[x].props.get_spec(k)
                == g0.nodes@[x].props.get_spec(k)
            &&& graph.nodes@[x].props.get_spec("template_id"@) == match last_write(tree_writes(*book, tree.pages@.take(0)), g0.nodes@[x].id) {
                Some(t) => Some(PropValueView::Text(t)),
                None => g0.nodes@[x].props.get_spec("template_id"@),
            }
        } by {}
        lemma_tree_writes_prefix(*book, tree.pages@, n as int);
    }
    while i < n
        invariant
            n == tree.pages@.len(),
            i <= n,
            book.wf(),
            all == tree_writes(*book, tree.pages@),
            forall|k: int| 0 <= k < all.len() && (#[trigger] all[k]).1 is Some ==> g0.has_node(all[k].0),
            templates_applied(g0, *graph, tree_writes(*book, tree.pages@.take(i as int))),
        decreases n - i,
    {
        let page = &tree.pages[i];
        let ghost done = tree_writes(*book, tree.pages@.take(i as int));
        let ghost pw = page_writes(*book, *page);
        proof {
            lemma_tree_writes_prefix(*book, tree.pages@, i + 1);
            assert(tree.pages@.take(i + 1).drop_last() =~= tree.pages@.take(i as int));
            assert(tree.pages@.take(i + 1).last() == *page);
            assert(tree_writes(*book, tree.pages@.take(i + 1)) == done + pw);
            assert(all.take((done + pw).len() as int) == done + pw);
            assert((done + pw).len() <= all.len());
            let c = done.len() as int;
            assert(all[c] == (done + pw)[c]);
        }
        apply_write(graph, page.node_id, book.page_template_of(page.id), Ghost(g0), Ghost(done));
        let m = page.pods.len();
        let mut q: usize = 0;
        proof {
            assert(done.push(pw[0]) =~= done + pw.take(1));
        }
        while q < m
            invariant
                m == page.pods@.len(),
                q <= m,
                book.wf(),
                pw == page_writes(*book, *page),
                all.take((done + pw).len() as int) == done + pw,
                (done + pw).len() <= all.len(),
                forall|k: int| 0 <= k < all.len() && (#[trigger] all[k]).1 is Some ==> g0.has_node(all[k].0),
                templates_applied(g0, *graph, done + pw.take(q + 1)),
            decreases m - q,
        {
            let pod = &page.pods[q];
            proof {
                let c = done.len() + q + 1;
                assert(all[c] == (done + pw)[c]);
                assert(pw[q + 1] == (pod.node_id, book.pod_template(page.id.0, pod.id.0)));
                assert((done + pw.take(q + 1)).push(pw[q + 1]) =~= done + pw.take(q + 2));
            }
            apply_write(graph, pod.node_id, book.pod_template_of(page.id, pod.id), Ghost(g0), Ghost(done + pw.take(q + 1)));
            q = q + 1;
        }
        proof {
            assert(pw.take(m + 1) =~= pw);
        }
        i = i + 1;
    }
    assert(tree.pages@.take(n as int) =~= tree.pages@);
}

proof fn lemma_tree_writes_prefix(book: TemplateBook, pages: Seq<PageNode>, a: int)
    requires
        0 <= a <= pages.len(),
    ensures
        tree_writes(book, pages.take(a)).len() <= tree_writes(book, pages).len(),
        tree_writes(book, pages).take(tree_writes(book, pages.take(a)).len() as int) == tree_writes(book, pages.take(a)),
    decreases pages.len() - a,
{
    if a == pages.len() {
        assert(pages.take(a) =~= pages);
        let t = tree_writes(book, pages);
        assert(t.take(t.len() as int) =~= t);
    } else {
        lemma_tree_writes_prefix(book, pages, a + 1);
        let b = pages.take(a + 1);
        assert(b.drop_last() =~= pages.take(a));
        let ta = tree_writes(book, pages.take(a));
        let tb = tree_writes(book, b);
        assert(tb == ta + page_writes(book, b.last()));
        let t = tree_writes(book, pages);
        assert(t.take(ta.len() as int) =~= t.take(tb.len() as int).take(ta.len() as int));
    }
}

proof fn lemma_lookup_drop_last(s: Seq<(u64, String)>, k: u64)
    requires
        keys_ascend(s),
        s.len() > 0,
        k != s.last().0,
    ensures
        lookup(s, k) == lookup(s.drop_last(), k),
{
    let t = s.drop_last();
    assert forall|i: int, j: int| 0 <= i < j < t.len() implies (#[trigger] t[i]).0 < (#[trigger] t[j]).0 by {
        assert(t[i] == s[i] && t[j] == s[j]);
    }
    if exists|i: int| 0 <= i < s.len() && (#[trigger] s[i]).0 == k {
        let i = choose|i: int| 0 <= i < s.len() && (#[trigger] s[i]).0 == k;
        lemma_lookup_at(s, i);
        assert(i < s.len() - 1);
        assert(t[i] == s[i]);
        lemma_lookup_at(t, i);
    } else {
        assert forall|i: int| 0 <= i < t.len() implies (#[trigger] t[i]).0 != k by {
            assert(t[i] == s[i]);
        }
    }
}

/// Restoring captured page templates gives every page its template back.
pub proof fn lemma_page_templates_roundtrip(entries: Seq<(u64, String)>, captured: Seq<(u32, String)>)
    requires
        keys_ascend(entries),
        captured.len() == entries.len(),
        forall|i: int| 0 <= i < captured.len() ==> (#[trigger] captured[i]).0 == entries[i].0 && captured[i].1@ == entries[i].1@,
    ensures
        forall|p: u32| #[trigger] last_page_entry(captured, p) == lookup(entries, p as u64),
    decreases entries.len(),
{
    if entries.len() > 0 {
        let e2 = entries.drop_last();
        let c2 = captured.drop_last();
        assert forall|i: int, j: int| 0 <= i < j < e2.len() implies (#[trigger] e2[i]).0 < (#[trigger] e2[j]).0 by {
            assert(e2[i] == entries[i] && e2[j] == entries[j]);
        }
        assert forall|i: int| 0 <= i < c2.len() implies (#[trigger] c2[i]).0 == e2[i].0 && c2[i].1@ == e2[i].1@ by {
            assert(c2[i] == captured[i] && e2[i] == entries[i]);
        }
        lemma_page_templates_roundtrip(e2, c2);
        let l = entries.len() - 1;
        assert(captured.last() == captured[l]);
        assert(entries.last() == entries[l]);
        assert forall|p: u32| #[trigger] last_page_entry(captured, p) == lookup(entries, p as u64) by {
            if captured.last().0 == p {
                lemma_lookup_at(entries, l);
            } else {
                assert(last_page_entry(c2, p) == lookup(e2, p as u64));
                lemma_lookup_drop_last(entries, p as u64);
            }
        }
    } else {
        assert forall|p: u32| #[trigger] last_page_entry(captured, p) == lookup(entries, p as u64) by {}
    }
}

/// Restoring captured pod templates gives every pod its template back.
pub proof fn lemma_pod_templates_roundtrip(entries: Seq<(u64, String)>, captured: Seq<(u32, u32, String)>)
    requires
        keys_ascend(entries),
        captured.len() == entries.len(),
        forall|i: int| 0 <= i < captured.len() ==> pod_key((#[trigger] captured[i]).0, captured[i].1) == entries[i].0
            && captured[i].2@ == entries[i].1@,
    ensures
        forall|p: u32, q: u32| #[trigger] last_pod_entry(captured, p, q) == lookup(entries, pod_key(p, q) as u64),
    decreases entries.len(),
{
    if entries.len() > 0 {
        let e2 = entries.drop_last();
        let c2 = captured.drop_last();
        assert forall|i: int, j: int| 0 <= i < j < e2.len() implies (#[trigger] e2[i]).0 < (#[trigger] e2[j]).0 by {
            assert(e2[i] == entries[i] && e2[j] == entries[j]);
        }
        assert forall|i: int| 0 <= i < c2.len() implies pod_key((#[trigger] c2[i]).0, c2[i].1) == e2[i].0 && c2[i].2@ == e2[i].1@ by {
            assert(c2[i] == captured[i] && e2[i] == entries[i]);
        }
        lemma_pod_templates_roundtrip(e2, c2);
        let l = entries.len() - 1;
        assert(captured.last() == captured[l]);
        assert(entries.last() == entries[l]);
        assert forall|p: u32, q: u32| #[trigger] last_pod_entry(captured, p, q) == lookup(entries, pod_key(p, q) as u64) by {
            assert(0 <= pod_key(p, q) <= u64::MAX) by (nonlinear_arith)
                requires
                    p <= u32::MAX,
                    q <= u32::MAX,
            ;
            lemma_pod_key_injective(p, q, captured.last().0, captured.last().1);
            if captured.last().0 == p && captured.last().1 == q {
                lemma_lookup_at(entries, l);
            } else {
                assert(last_pod_entry(c2, p, q) == lookup(e2, pod_key(p, q) as u64));
                lemma_lookup_drop_last(entries, pod_key(p, q) as u64);
            }
        }
    } else {
        assert forall|p: u32, q: u32| #[trigger] last_pod_entry(captured, p, q) == lookup(entries, pod_key(p, q) as u64) by {}
    }
}

} // verus!
