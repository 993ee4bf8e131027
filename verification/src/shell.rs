//! The app shell's workspace list and its selection rules: which workspace is
//! shown, the focus chain that follows a selection, adding Structural Analysis
//! workspaces and opening seeded workspaces through the Home navigation graph.

use crate::containers::{nav_target, resolve_home_nav_target};
use crate::graph::{Graph, NodeId};
use crate::overrides::{ContainerId, Visibility};
use crate::pagetree::{PageId, PodId};
use crate::signal::AppSignal;
use crate::text::{append_decimal, decimal, text_eq};
use crate::workspace::WorkspaceId;
use vstd::prelude::*;

verus! {

/// Which body a live workspace hosts.
#[derive(Debug, Clone, Copy, PartialEq, Eq, Structural)]
pub enum BodyKind {
    Home,
    Analysis,
    GraphView,
    Placeholder,
}

/// One element of the workspace → page → pod focus chain.
#[derive(Debug, Clone, Copy, PartialEq, Eq, Structural)]
pub enum FocusItem {
    Container(ContainerId),
    Page(PageId),
    Pod(PodId),
}

/// What the shell knows of one live workspace.
#[derive(Debug)]
pub struct ShellWorkspace {
    pub id: WorkspaceId,
    /// Layout container of the workspace.
    pub container: ContainerId,
    pub label: String,
    /// Seed key the workspace was opened from (`"home"`, `"structural_analysis"`, ...).
    pub open_id: &'static str,
    pub kind: BodyKind,
    pub intent: Visibility,
    /// The workspace's `UIView` in the composed graph.
    pub node_id: NodeId,
    pub focused_page: PageId,
}

/// The shell: workspaces in tab order, the focus chain, the next workspace id and
/// the composed graph.
#[derive(Debug)]
pub struct Shell {
    pub workspaces: Vec<ShellWorkspace>,
    pub focus: Vec<FocusItem>,
    pub next_workspace_id: u64,
    pub graph: Graph,
}

/// Open id of the Home dashboard.
pub open spec fn home_open_id() -> Seq<char> {
    "home"@
}

/// Open id (and label) of Structural Analysis workspaces.
pub open spec fn structural_open_id() -> Seq<char> {
    "structural_analysis"@
}

pub open spec fn structural_label() -> Seq<char> {
    "Structural Analysis"@
}

/// Workspace ids are distinct and below the next id to hand out.
pub open spec fn ids_fresh(ws: Seq<ShellWorkspace>, next: u64) -> bool {
    &&& forall|i: int, j: int| 0 <= i < j < ws.len() ==> (#[trigger] ws[i]).id != (#[trigger] ws[j]).id
    &&& forall|i: int| 0 <= i < ws.len() ==> (#[trigger] ws[i]).id.0 < next
}

/// `i` is the first index of `ws` whose workspace is shown.
pub open spec fn is_first_shown(ws: Seq<ShellWorkspace>, i: int) -> bool {
    &&& 0 <= i < ws.len()
    &&& ws[i].intent == Visibility::Shown
    &&& forall|j: int| 0 <= j < i ==> (#[trigger] ws[j]).intent != Visibility::Shown
}

/// `i` is the first index of `ws` holding workspace `id`.
pub open spec fn is_first_with_id(ws: Seq<ShellWorkspace>, id: WorkspaceId, i: int) -> bool {
    &&& 0 <= i < ws.len()
    &&& ws[i].id == id
    &&& forall|j: int| 0 <= j < i ==> (#[trigger] ws[j]).id != id
}

pub open spec fn has_id(ws: Seq<ShellWorkspace>, id: WorkspaceId) -> bool {
    exists|i: int| 0 <= i < ws.len() && (#[trigger] ws[i]).id == id
}

/// Focus chain after selecting `w`: the workspace, then its focused page when the
/// body is paged through the selection path (Home keeps the workspace alone).
pub open spec fn selection_chain(w: ShellWorkspace) -> Seq<FocusItem> {
    match w.kind {
        BodyKind::Home => seq![FocusItem::Container(w.container)],
        _ => seq![FocusItem::Container(w.container), FocusItem::Page(w.focused_page)],
    }
}

/// Focus chain at start-up for the active workspace: the graph view keeps the
/// workspace alone, the other bodies add their focused page.
pub open spec fn startup_chain(w: ShellWorkspace) -> Seq<FocusItem> {
    match w.kind {
        BodyKind::GraphView => seq![FocusItem::Container(w.container)],
        _ => seq![FocusItem::Container(w.container), FocusItem::Page(w.focused_page)],
    }
}

/// `w` with its visibility intent replaced.
pub open spec fn with_intent(w: ShellWorkspace, v: Visibility) -> ShellWorkspace {
    ShellWorkspace {
        id: w.id,
        container: w.container,
        label: w.label,
        open_id: w.open_id,
        kind: w.kind,
        intent: v,
        node_id: w.node_id,
        focused_page: w.focused_page,
    }
}

/// `w` with its focused page replaced.
pub open spec fn with_focused_page(w: ShellWorkspace, p: PageId) -> ShellWorkspace {
    ShellWorkspace {
        id: w.id,
        container: w.container,
        label: w.label,
        open_id: w.open_id,
        kind: w.kind,
        intent: w.intent,
        node_id: w.node_id,
        focused_page: p,
    }
}

/// Every workspace hidden but those with id `id`, which are shown.
pub open spec fn only_shown(ws: Seq<ShellWorkspace>, id: WorkspaceId) -> Seq<ShellWorkspace> {
    Seq::new(
        ws.len(),
        |i: int|
            with_intent(
                ws[i],
                if ws[i].id == id {
                    Visibility::Shown
                } else {
                    Visibility::Hidden
                },
            ),
    )
}

/// Number of workspaces opened from `open_id`.
pub open spec fn count_open_id(ws: Seq<ShellWorkspace>, open_id: Seq<char>) -> nat
    decreases ws.len(),
{
    if ws.len() == 0 {
        0
    } else {
        count_open_id(ws.drop_last(), open_id) + if ws.last().open_id@ == open_id {
            1nat
        } else {
            0nat
        }
    }
}

proof fn lemma_count_open_id_le(ws: Seq<ShellWorkspace>, open_id: Seq<char>)
    ensures
        count_open_id(ws, open_id) <= ws.len(),
    decreases ws.len(),
{
    if ws.len() > 0 {
        lemma_count_open_id_le(ws.drop_last(), open_id);
    }
}

/// Title of the `n`-th Structural Analysis workspace.
pub open spec fn structural_title(n: nat) -> Seq<char> {
    structural_label() + " "@ + decimal(n)
}

/// First index of `ws` whose open id is `open_id`.
pub open spec fn is_first_with_open_id(ws: Seq<ShellWorkspace>, open_id: Seq<char>, i: int) -> bool {
    &&& 0 <= i < ws.len()
    &&& ws[i].open_id@ == open_id
    &&& forall|j: int| 0 <= j < i ==> (#[trigger] ws[j]).open_id@ != open_id
}

/// First index of `ws` whose graph node is `node`.
pub open spec fn is_first_with_node(ws: Seq<ShellWorkspace>, node: NodeId, i: int) -> bool {
    &&& 0 <= i < ws.len()
    &&& ws[i].node_id == node
    &&& forall|j: int| 0 <= j < i ==> (#[trigger] ws[j]).node_id != node
}

/// The workspace that opening `open_id` from Home selects, if any: Home is the first
/// workspace opened from `"home"`, its navigation Signal for `open_id` names a
/// node, and the first workspace on that node is the one selected.
pub open spec fn open_target(ws: Seq<ShellWorkspace>, g: Graph, open_id: Seq<char>) -> Option<WorkspaceId> {
    match open_target_index(ws, g, open_id) {
        Some(k) => Some(ws[k].id),
        None => None,
    }
}

/// Index of the workspace that opening `open_id` from Home selects (see
/// [`open_target`]).
pub open spec fn open_target_index(ws: Seq<ShellWorkspace>, g: Graph, open_id: Seq<char>) -> Option<int> {
    if exists|h: int| is_first_with_open_id(ws, home_open_id(), h) {
        let h = choose|h: int| is_first_with_open_id(ws, home_open_id(), h);
        match nav_target(g.edges@, ws[h].node_id, open_id) {
            Some(node) => if exists|k: int| is_first_with_node(ws, node, k) {
                Some(choose|k: int| is_first_with_node(ws, node, k))
            } else {
                None
            },
            None => None,
        }
    } else {
        None
    }
}

/// Opening `open_id` selects the first workspace on the node that Home's Signal for
/// `open_id` targets.
pub proof fn lemma_open_target_index(ws: Seq<ShellWorkspace>, g: Graph, open_id: Seq<char>, h: int, k: int)
    requires
        is_first_with_open_id(ws, home_open_id(), h),
        nav_target(g.edges@, ws[h].node_id, open_id) == Some(ws[k].node_id),
        is_first_with_node(ws, ws[k].node_id, k),
    ensures
        open_target_index(ws, g, open_id) == Some(k),
{
    let hc = choose|h: int| is_first_with_open_id(ws, home_open_id(), h);
    if hc < h {
        assert(ws[hc].open_id@ != home_open_id());
    } else if hc > h {
        assert(ws[h].open_id@ != home_open_id());
    }
    let node = ws[k].node_id;
    let kc = choose|k: int| is_first_with_node(ws, node, k);
    if kc < k {
        assert(ws[kc].node_id != node);
    } else if kc > k {
        assert(ws[k].node_id != node);
    }
}

/// Focus chain for a pointer hit on `hit.0` (and pod `hit.1`) in the workspace
/// whose container is `container`.
pub open spec fn pointer_chain(container: ContainerId, hit: (PageId, Option<PodId>)) -> Seq<FocusItem> {
    match hit.1 {
        Some(pod) => seq![FocusItem::Container(container), FocusItem::Page(hit.0), FocusItem::Pod(pod)],
        None => seq![FocusItem::Container(container), FocusItem::Page(hit.0)],
    }
}

/// Whether two focus chains are equal.
pub fn focus_equal(a: &Vec<FocusItem>, b: &Vec<FocusItem>) -> (r: bool)
    ensures
        r == (a@ == b@),
{
    if a.len() != b.len() {
        return false;
    }
    let n = a.len();
    let mut i: usize = 0;
    while i < n
        invariant
            n == a@.len(),
            n == b@.len(),
            i <= n,
            forall|k: int| 0 <= k < i ==> a@[k] == b@[k],
        decreases n - i,
    {
        if a[i] != b[i] {
            return false;
        }
        i = i + 1;
    }
    assert(a@ =~= b@);
    true
}

/// What the caller does after an app signal.
#[derive(Debug, Clone, Copy, PartialEq, Eq, Structural)]
pub enum AppSignalOutcome {
    /// The selection changed: rebuild the active workspace.
    Rebuild,
    /// Nothing changed.
    Unchanged,
    /// Build a new Structural Analysis workspace and hand it to [`add_workspace`].
    AddStructural,
}

/// Index of the first shown workspace.
pub fn first_shown(ws: &Vec<ShellWorkspace>) -> (r: Option<usize>)
    ensures
        match r {
            Some(i) => is_first_shown(ws@, i as int),
            None => forall|j: int| 0 <= j < ws@.len() ==> (#[trigger] ws@[j]).intent != Visibility::Shown,
        },
{
    let n = ws.len();
    let mut i: usize = 0;
    while i < n
        invariant
            n == ws@.len(),
            i <= n,
            forall|j: int| 0 <= j < i ==> (#[trigger] ws@[j]).intent != Visibility::Shown,
        decreases n - i,
    {
        if ws[i].intent == Visibility::Shown {
            return Some(i);
        }
        i = i + 1;
    }
    None
}

/// Index of the first workspace opened from `open_id`.
pub fn find_open_id(ws: &Vec<ShellWorkspace>, open_id: &str) -> (r: Option<usize>)
    ensures
        match r {
            Some(i) => is_first_with_open_id(ws@, open_id@, i as int),
            None => forall|j: int| 0 <= j < ws@.len() ==> (#[trigger] ws@[j]).open_id@ != open_id@,
        },
{
    let n = ws.len();
    let mut i: usize = 0;
    while i < n
        invariant
            n == ws@.len(),
            i <= n,
            forall|j: int| 0 <= j < i ==> (#[trigger] ws@[j]).open_id@ != open_id@,
        decreases n - i,
    {
        if text_eq(ws[i].open_id, open_id) {
            return Some(i);
        }
        i = i + 1;
    }
    None
}

fn chain_for_selection(w: &ShellWorkspace) -> (chain: Vec<FocusItem>)
    ensures
        chain@ == selection_chain(*w),
        w.kind == BodyKind::Home ==> chain@ == seq![FocusItem::Container(w.container)],
        w.kind != BodyKind::Home ==> chain@ == seq![FocusItem::Container(w.container), FocusItem::Page(w.focused_page)],
{
    match w.kind {
        BodyKind::Home => vec![FocusItem::Container(w.container)],
        _ => vec![FocusItem::Container(w.container), FocusItem::Page(w.focused_page)],
    }
}

fn chain_for_startup(w: &ShellWorkspace) -> (chain: Vec<FocusItem>)
    ensures
        chain@ == startup_chain(*w),
        w.kind == BodyKind::GraphView ==> chain@ == seq![FocusItem::Container(w.container)],
        w.kind != BodyKind::GraphView ==> chain@ == seq![FocusItem::Container(w.container), FocusItem::Page(w.focused_page)],
{
    match w.kind {
        BodyKind::GraphView => vec![FocusItem::Container(w.container)],
        _ => vec![FocusItem::Container(w.container), FocusItem::Page(w.focused_page)],
    }
}

/// The workspace active at start-up (the first shown one, else the first one) and
/// its focus chain.
pub fn startup_focus(ws: &Vec<ShellWorkspace>) -> (r: (usize, Vec<FocusItem>))
    requires
        ws@.len() > 0,
    ensures
        r.0 < ws@.len(),
        is_first_shown(ws@, r.0 as int) || (r.0 == 0 && forall|j: int| 0 <= j < ws@.len() ==> (#[trigger] ws@[j]).intent
            != Visibility::Shown),
        r.1@ == startup_chain(ws@[r.0 as int]),
        r.1@[0] == FocusItem::Container(ws@[r.0 as int].container),
        ws@[r.0 as int].kind == BodyKind::GraphView <==> r.1@.len() == 1,
        ws@[r.0 as int].kind != BodyKind::GraphView ==> r.1@.len() == 2 && r.1@[1] == FocusItem::Page(ws@[r.0 as int].focused_page),
{
    let i = match first_shown(ws) {
        Some(i) => i,
        None => 0,
    };
    let chain = chain_for_startup(&ws[i]);
    (i, chain)
}

impl Shell {
    pub open spec fn wf(&self) -> bool {
        &&& self.graph.wf()
        &&& ids_fresh(self.workspaces@, self.next_workspace_id)
    }

    /// The shown workspace: the first one whose intent is `Shown`.
    pub fn active(&self) -> (r: Option<&ShellWorkspace>)
        ensures
            match r {
                Some(w) => exists|i: int| is_first_shown(self.workspaces@, i) && self.workspaces@[i] == *w,
                None => forall|j: int| 0 <= j < self.workspaces@.len() ==> (#[trigger] self.workspaces@[j]).intent
                    != Visibility::Shown,
            },
    {
        match first_shown(&self.workspaces) {
            Some(i) => Some(&self.workspaces[i]),
            None => None,
        }
    }

    /// Index of the first workspace with id `id`.
    pub fn index_of(&self, id: WorkspaceId) -> (r: Option<usize>)
        ensures
            match r {
                Some(i) => is_first_with_id(self.workspaces@, id, i as int),
                None => !has_id(self.workspaces@, id),
            },
    {
        let n = self.workspaces.len();
        let mut i: usize = 0;
        while i < n
            invariant
                n == self.workspaces@.len(),
                i <= n,
                forall|j: int| 0 <= j < i ==> (#[trigger] self.workspaces@[j]).id != id,
            decreases n - i,
        {
            if self.workspaces[i].id == id {
                return Some(i);
            }
            i = i + 1;
        }
        None
    }

    fn index_of_open_id(&self, open_id: &str) -> (r: Option<usize>)
        ensures
            match r {
                Some(i) => is_first_with_open_id(self.workspaces@, open_id@, i as int),
                None => forall|j: int| 0 <= j < self.workspaces@.len() ==> (#[trigger] self.workspaces@[j]).open_id@ != open_id@,
            },
    {
        find_open_id(&self.workspaces, open_id)
    }

    fn index_of_node(&self, node: NodeId) -> (r: Option<usize>)
        ensures
            match r {
                Some(i) => is_first_with_node(self.workspaces@, node, i as int),
                None => forall|j: int| 0 <= j < self.workspaces@.len() ==> (#[trigger] self.workspaces@[j]).node_id != node,
            },
    {
        let n = self.workspaces.len();
        let mut i: usize = 0;
        while i < n
            invariant
                n == self.workspaces@.len(),
                i <= n,
                forall|j: int| 0 <= j < i ==> (#[trigger] self.workspaces@[j]).node_id != node,
            decreases n - i,
        {
            if self.workspaces[i].node_id == node {
                return Some(i);
            }
            i = i + 1;
        }
        None
    }

    /// Hide every workspace, then show `id` and point the focus chain at it.
    /// Returns `false`, changing nothing, when no workspace has that id.
    pub fn set_active(&mut self, id: WorkspaceId) -> (found: bool)
        ensures
            found == has_id(old(self).workspaces@, id),
            !found ==> *final(self) == *old(self),
            found ==> final(self).workspaces@ == only_shown(old(self).workspaces@, id),
            found ==> exists|k: int| is_first_with_id(old(self).workspaces@, id, k) && final(self).focus@ == selection_chain(
                old(self).workspaces@[k],
            ),
            final(self).next_workspace_id == old(self).next_workspace_id,
            final(self).graph == old(self).graph,
    {
        let k = match self.index_of(id) {
            Some(k) => k,
            None => return false,
        };
        let ghost before = self.workspaces@;
        let ghost next = self.next_workspace_id;
        let ghost graph = self.graph;
        let n = self.workspaces.len();
        let mut i: usize = 0;
        while i < n
            invariant
                self.next_workspace_id == next,
                self.graph == graph,
                n == self.workspaces@.len(),
                n == before.len(),
                i <= n,
                forall|j: int| 0 <= j < i ==> #[trigger] self.workspaces@[j] == only_shown(before, id)[j],
                forall|j: int| i <= j < n ==> #[trigger] self.workspaces@[j] == before[j],
            decreases n - i,
        {
            let shown = self.workspaces[i].id == id;
            let v = if shown {
                Visibility::Shown
            } else {
                Visibility::Hidden
            };
            self.workspaces[i].intent = v;
            i = i + 1;
        }
        assert(self.workspaces@ == only_shown(before, id));
        let chain = chain_for_selection(&self.workspaces[k]);
        assert(selection_chain(self.workspaces@[k as int]) == selection_chain(before[k as int]));
        self.focus = chain;
        true
    }

    /// Text of the title for the next Structural Analysis workspace:
    /// `"Structural Analysis {n}"`, `n` counting the existing ones plus this one.
    pub fn next_structural_title(&self) -> (title: String)
        requires
            self.workspaces@.len() < u64::MAX,
        ensures
            title@ == structural_title(count_open_id(self.workspaces@, structural_open_id()) + 1),
    {
        let n = self.workspaces.len();
        let mut count: u64 = 0;
        let mut i: usize = 0;
        proof {
            reveal_strlit("structural_analysis");
        }
        while i < n
            invariant
                n == self.workspaces@.len(),
                i <= n,
                count == count_open_id(self.workspaces@.take(i as int), structural_open_id()),
                count <= i,
            decreases n - i,
        {
            proof {
                assert(self.workspaces@.take(i + 1).drop_last() == self.workspaces@.take(i as int));
            }
            if text_eq(self.workspaces[i].open_id, "structural_analysis") {
                count = count + 1;
            }
            i = i + 1;
        }
        assert(self.workspaces@.take(n as int) == self.workspaces@);
        let mut title = String::from_str("Structural Analysis ");
        proof {
            reveal_strlit("Structural Analysis ");
            reveal_strlit("Structural Analysis");
            reveal_strlit(" ");
            assert("Structural Analysis "@ == structural_label() + " "@);
        }
        append_decimal(&mut title, count + 1);
        title
    }

    /// Show `page` in the active workspace (a page-rail trigger): an Analysis or
    /// Placeholder body focuses it, and the focus chain becomes workspace → page.
    /// Returns whether the body's focused page was written (the layout needs a
    /// rebuild).
    pub fn show_page(&mut self, page: PageId) -> (rebuild: bool)
        ensures
            old(self).wf() ==> final(self).wf(),
            final(self).graph == old(self).graph,
            final(self).next_workspace_id == old(self).next_workspace_id,
            !(exists|i: int| is_first_shown(old(self).workspaces@, i)) ==> *final(self) == *old(self) && !rebuild,
            (exists|i: int| is_first_shown(old(self).workspaces@, i)) ==> {
                let i = choose|i: int| is_first_shown(old(self).workspaces@, i);
                let w = old(self).workspaces@[i];
                &&& rebuild == (w.kind == BodyKind::Analysis || w.kind == BodyKind::Placeholder)
                &&& final(self).focus@ == seq![FocusItem::Container(w.container), FocusItem::Page(page)]
                &&& final(self).workspaces@ == if rebuild {
                    old(self).workspaces@.update(i, with_focused_page(w, page))
                } else {
                    old(self).workspaces@
                }
            },
    {
        let i = match first_shown(&self.workspaces) {
            Some(i) => i,
            None => return false,
        };
        proof {
            let c = choose|j: int| is_first_shown(self.workspaces@, j);
            if c < i {
            } else if c > i {
                assert(self.workspaces@[i as int].intent == Visibility::Shown);
            }
            assert(c == i);
        }
        let container = self.workspaces[i].container;
        let kind = self.workspaces[i].kind;
        let rebuild = kind == BodyKind::Analysis || kind == BodyKind::Placeholder;
        if rebuild {
            self.workspaces[i].focused_page = page;
        }
        self.focus = vec![FocusItem::Container(container), FocusItem::Page(page)];
        rebuild
    }
}

/// Select workspace `id` from the tab strip. Returns whether it was selected (the
/// active workspace is then rebuilt); nothing changes for an unknown id.
pub fn select_workspace(shell: &mut Shell, id: WorkspaceId) -> (selected: bool)
    requires
        old(shell).wf(),
    ensures
        final(shell).wf(),
        selected == has_id(old(shell).workspaces@, id),
        !selected ==> *final(shell) == *old(shell),
        selected ==> final(shell).workspaces@ == only_shown(old(shell).workspaces@, id),
        selected ==> exists|k: int| is_first_with_id(old(shell).workspaces@, id, k) && final(shell).focus@ == selection_chain(
            old(shell).workspaces@[k],
        ),
        selected ==> exists|k: int| #[trigger] is_first_with_id(old(shell).workspaces@, id, k) && final(shell).focus@[0]
            == FocusItem::Container(old(shell).workspaces@[k].container) && (old(shell).workspaces@[k].kind == BodyKind::Home
            <==> final(shell).focus@.len() == 1) && (old(shell).workspaces@[k].kind != BodyKind::Home ==> final(shell).focus@.len()
            == 2 && final(shell).focus@[1] == FocusItem::Page(old(shell).workspaces@[k].focused_page)),
        final(shell).next_workspace_id == old(shell).next_workspace_id,
        final(shell).graph == old(shell).graph,
{
    let ghost ws = shell.workspaces@;
    let selected = shell.set_active(id);
    proof {
        assert forall|i: int, j: int| 0 <= i < j < shell.workspaces@.len() implies (#[trigger] shell.workspaces@[i]).id
            != (#[trigger] shell.workspaces@[j]).id by {
            assert(shell.workspaces@[i].id == ws[i].id);
            assert(shell.workspaces@[j].id == ws[j].id);
        }
        assert forall|i: int| 0 <= i < shell.workspaces@.len() implies (#[trigger] shell.workspaces@[i]).id.0
            < shell.next_workspace_id by {
            assert(shell.workspaces@[i].id == ws[i].id);
        }
    }
    selected
}

/// `+` on the tab strip: add a Structural Analysis workspace under the next id,
/// titled by [`Shell::next_structural_title`], and select it. The caller built the
/// workspace's container, graph node and first page.
pub fn add_workspace(shell: &mut Shell, container: ContainerId, node_id: NodeId, focused_page: PageId) -> (id: WorkspaceId)
    requires
        old(shell).wf(),
        old(shell).next_workspace_id < u64::MAX,
        old(shell).workspaces@.len() < u64::MAX,
    ensures
        final(shell).wf(),
        id.0 == old(shell).next_workspace_id,
        final(shell).next_workspace_id == old(shell).next_workspace_id + 1,
        final(shell).graph == old(shell).graph,
        final(shell).workspaces@.len() == old(shell).workspaces@.len() + 1,
        forall|i: int| 0 <= i < old(shell).workspaces@.len() ==> #[trigger] final(shell).workspaces@[i] == with_intent(
            old(shell).workspaces@[i],
            Visibility::Hidden,
        ),
        final(shell).workspaces@.last().id == id,
        final(shell).workspaces@.last().container == container,
        final(shell).workspaces@.last().label@ == structural_title(
            count_open_id(old(shell).workspaces@, structural_open_id()) + 1,
        ),
        final(shell).workspaces@.last().open_id@ == structural_open_id(),
        final(shell).workspaces@.last().kind == BodyKind::Analysis,
        final(shell).workspaces@.last().intent == Visibility::Shown,
        final(shell).workspaces@.last().node_id == node_id,
        final(shell).workspaces@.last().focused_page == focused_page,
        final(shell).focus@ == seq![FocusItem::Container(container), FocusItem::Page(focused_page)],
{
    let id = WorkspaceId(shell.next_workspace_id);
    shell.next_workspace_id = shell.next_workspace_id + 1;
    let label = shell.next_structural_title();
    let ghost before = shell.workspaces@;
    proof {
        reveal_strlit("structural_analysis");
    }
    shell.workspaces.push(
        ShellWorkspace {
            id,
            container,
            label,
            open_id: "structural_analysis",
            kind: BodyKind::Analysis,
            intent: Visibility::Hidden,
            node_id,
            focused_page,
        },
    );
    let ghost pushed = shell.workspaces@;
    assert(has_id(pushed, id)) by {
        assert(pushed[before.len() as int].id == id);
    }
    let found = shell.set_active(id);
    proof {
        let k = choose|k: int| is_first_with_id(pushed, id, k) && shell.focus@ == selection_chain(pushed[k]);
        if k < before.len() {
            assert(pushed[k] == before[k]);
        }
        assert(k == before.len());
        assert forall|i: int, j: int| 0 <= i < j < shell.workspaces@.len() implies (#[trigger] shell.workspaces@[i]).id
            != (#[trigger] shell.workspaces@[j]).id by {
            assert(shell.workspaces@[i].id == pushed[i].id);
            assert(shell.workspaces@[j].id == pushed[j].id);
            if j < before.len() {
                assert(pushed[i] == before[i]);
                assert(pushed[j] == before[j]);
            } else {
                assert(pushed[i] == before[i]);
            }
        }
        assert forall|i: int| 0 <= i < shell.workspaces@.len() implies (#[trigger] shell.workspaces@[i]).id.0
            < shell.next_workspace_id by {
            assert(shell.workspaces@[i].id == pushed[i].id);
            if i < before.len() {
                assert(pushed[i] == before[i]);
            }
        }
        assert forall|i: int| 0 <= i < before.len() implies #[trigger] shell.workspaces@[i] == with_intent(
            before[i],
            Visibility::Hidden,
        ) by {
            assert(pushed[i] == before[i]);
            assert(before[i].id != id);
        }
    }
    id
}

/// Open a seeded workspace from the Home dashboard: walk Home's navigation
/// Signal for `open_id` to its target node and select the workspace on it.
/// Returns whether a workspace was selected.
pub fn open_workspace(shell: &mut Shell, open_id: &str) -> (selected: bool)
    requires
        old(shell).wf(),
    ensures
        final(shell).wf(),
        selected == open_target(old(shell).workspaces@, old(shell).graph, open_id@) is Some,
        !selected ==> *final(shell) == *old(shell),
        selected ==> final(shell).workspaces@ == only_shown(
            old(shell).workspaces@,
            open_target(old(shell).workspaces@, old(shell).graph, open_id@)->0,
        ),
        selected ==> final(shell).focus@ == selection_chain(
            old(shell).workspaces@[open_target_index(old(shell).workspaces@, old(shell).graph, open_id@)->0],
        ),
        final(shell).graph == old(shell).graph,
        final(shell).next_workspace_id == old(shell).next_workspace_id,
{
    let ghost ws = shell.workspaces@;
    let h = match shell.index_of_open_id("home") {
        Some(h) => h,
        None => {
            proof {
                reveal_strlit("home");
                assert(!exists|h: int| is_first_with_open_id(ws, home_open_id(), h));
            }
            return false;
        },
    };
    proof {
        reveal_strlit("home");
        assert(is_first_with_open_id(ws, home_open_id(), h as int));
        let hc = choose|h: int| is_first_with_open_id(ws, home_open_id(), h);
        assert(hc == h);
    }
    let home_node = shell.workspaces[h].node_id;
    let target = match resolve_home_nav_target(&shell.graph, home_node, open_id) {
        Some(t) => t,
        None => return false,
    };
    let k = match shell.index_of_node(target) {
        Some(k) => k,
        None => return false,
    };
    proof {
        let kc = choose|k: int| is_first_with_node(ws, target, k);
        assert(kc == k);
    }
    let id = shell.workspaces[k].id;
    assert(has_id(ws, id)) by {
        assert(ws[k as int].id == id);
    }
    let selected = select_workspace(shell, id);
    proof {
        let k2 = choose|k2: int| is_first_with_id(ws, id, k2) && shell.focus@ == selection_chain(ws[k2]);
        if k2 < k {
            assert(ws[k2].id != ws[k as int].id);
        } else if k2 > k {
            assert(ws[k as int].id != ws[k2].id);
        }
    }
    selected
}

/// Pointer-down inside the pages area of the active workspace. `hit` is the page
/// under the pointer and the pod under it, if any (`None` when no page is hit).
/// Focus moves to that workspace → page (→ pod) chain; an Analysis or
/// Placeholder body also takes the page as its focused page. Returns whether the
/// chain changed.
pub fn update_focus_from_pointer(shell: &mut Shell, hit: Option<(PageId, Option<PodId>)>) -> (changed: bool)
    ensures
        old(shell).wf() ==> final(shell).wf(),
        final(shell).graph == old(shell).graph,
        final(shell).next_workspace_id == old(shell).next_workspace_id,
        final(shell).workspaces@.len() == old(shell).workspaces@.len(),
        changed == ((exists|i: int| is_first_shown(old(shell).workspaces@, i)) && hit is Some && old(shell).focus@
            != pointer_chain(old(shell).workspaces@[choose|i: int| is_first_shown(old(shell).workspaces@, i)].container, hit->0)),
        !changed ==> *final(shell) == *old(shell),
        changed ==> {
            let i = choose|i: int| is_first_shown(old(shell).workspaces@, i);
            let w = old(shell).workspaces@[i];
            &&& final(shell).focus@ == pointer_chain(w.container, hit->0)
            &&& final(shell).workspaces@ == if w.kind == BodyKind::Analysis || w.kind == BodyKind::Placeholder {
                old(shell).workspaces@.update(i, with_focused_page(w, (hit->0).0))
            } else {
                old(shell).workspaces@
            }
        },
{
    let i = match first_shown(&shell.workspaces) {
        Some(i) => i,
        None => return false,
    };
    proof {
        let c = choose|j: int| is_first_shown(shell.workspaces@, j);
        if c < i {
        } else if c > i {
            assert(shell.workspaces@[i as int].intent == Visibility::Shown);
        }
        assert(c == i);
    }
    let (page, pod) = match hit {
        Some(h) => h,
        None => return false,
    };
    let container = shell.workspaces[i].container;
    let mut chain = vec![FocusItem::Container(container), FocusItem::Page(page)];
    match pod {
        Some(p) => chain.push(FocusItem::Pod(p)),
        None => {},
    }
    assert(chain@ == pointer_chain(container, (page, pod)));
    if focus_equal(&shell.focus, &chain) {
        return false;
    }
    let kind = shell.workspaces[i].kind;
    if kind == BodyKind::Analysis || kind == BodyKind::Placeholder {
        shell.workspaces[i].focused_page = page;
    }
    shell.focus = chain;
    true
}

/// Route a tab-strip or Home dashboard signal.
pub fn handle_app_signal(shell: &mut Shell, signal: AppSignal) -> (outcome: AppSignalOutcome)
    requires
        old(shell).wf(),
    ensures
        final(shell).wf(),
        final(shell).graph == old(shell).graph,
        final(shell).next_workspace_id == old(shell).next_workspace_id,
        match signal {
            AppSignal::SelectWorkspace(id) => {
                &&& (outcome == AppSignalOutcome::Rebuild) == has_id(old(shell).workspaces@, id)
                &&& outcome != AppSignalOutcome::AddStructural
                &&& outcome == AppSignalOutcome::Rebuild ==> final(shell).workspaces@ == only_shown(old(shell).workspaces@, id)
                &&& outcome == AppSignalOutcome::Rebuild ==> exists|k: int|
                    is_first_with_id(old(shell).workspaces@, id, k) && final(shell).focus@ == selection_chain(
                        old(shell).workspaces@[k],
                    )
                &&& outcome == AppSignalOutcome::Unchanged ==> *final(shell) == *old(shell)
            },
            AppSignal::OpenWorkspace(open_id) => {
                &&& (outcome == AppSignalOutcome::Rebuild) == open_target(old(shell).workspaces@, old(shell).graph, open_id@) is Some
                &&& outcome != AppSignalOutcome::AddStructural
                &&& outcome == AppSignalOutcome::Rebuild ==> final(shell).workspaces@ == only_shown(
                    old(shell).workspaces@,
                    open_target(old(shell).workspaces@, old(shell).graph, open_id@)->0,
                )
                &&& outcome == AppSignalOutcome::Rebuild ==> final(shell).focus@ == selection_chain(
                    old(shell).workspaces@[open_target_index(old(shell).workspaces@, old(shell).graph, open_id@)->0],
                )
                &&& outcome == AppSignalOutcome::Unchanged ==> *final(shell) == *old(shell)
            },
            AppSignal::AddWorkspace => outcome == AppSignalOutcome::AddStructural && *final(shell) == *old(shell),
        },
{
    match signal {
        AppSignal::SelectWorkspace(id) => {
            if select_workspace(shell, id) {
                AppSignalOutcome::Rebuild
            } else {
                AppSignalOutcome::Unchanged
            }
        },
        AppSignal::OpenWorkspace(open_id) => {
            if open_workspace(shell, open_id) {
                AppSignalOutcome::Rebuild
            } else {
                AppSignalOutcome::Unchanged
            }
        },
        AppSignal::AddWorkspace => AppSignalOutcome::AddStructural,
    }
}

/// After a successful selection of `id` among workspaces with distinct ids,
/// exactly one workspace is shown, and it is the one with that id.
pub proof fn lemma_selection_shows_one(ws: Seq<ShellWorkspace>, next: u64, id: WorkspaceId, k: int)
    requires
        ids_fresh(ws, next),
        0 <= k < ws.len(),
        ws[k].id == id,
    ensures
        is_first_shown(only_shown(ws, id), k),
        forall|i: int| 0 <= i < ws.len() && i != k ==> (#[trigger] only_shown(ws, id)[i]).intent == Visibility::Hidden,
        only_shown(ws, id)[k].id == id,
{
    assert forall|i: int| 0 <= i < ws.len() && i != k implies (#[trigger] only_shown(ws, id)[i]).intent == Visibility::Hidden by {
        if i < k {
            assert(ws[i].id != ws[k].id);
        } else {
            assert(ws[k].id != ws[i].id);
        }
    }
}

/// Selecting a workspace focuses its container and then, for every body but Home, its
/// focused page: the chain starts at the container, has one item for Home and two
/// otherwise, and the second is the focused page.
pub proof fn law_selection_chain_shape(w: ShellWorkspace)
    ensures
        selection_chain(w)[0] == FocusItem::Container(w.container),
        w.kind == BodyKind::Home <==> selection_chain(w).len() == 1,
        w.kind != BodyKind::Home ==> selection_chain(w).len() == 2 && selection_chain(w)[1] == FocusItem::Page(w.focused_page),
{
}

/// At start-up the active workspace's chain starts at its container and, for every body
/// but the graph view, goes on to its focused page; only the graph view's chain has a
/// single item.
pub proof fn law_startup_chain_shape(w: ShellWorkspace)
    ensures
        startup_chain(w)[0] == FocusItem::Container(w.container),
        w.kind == BodyKind::GraphView <==> startup_chain(w).len() == 1,
        w.kind != BodyKind::GraphView ==> startup_chain(w).len() == 2 && startup_chain(w)[1] == FocusItem::Page(w.focused_page),
{
}

/// The chains at selection and at start-up agree for analysis and placeholder bodies:
/// both end at the focused page.
pub proof fn law_selection_and_startup_agree(w: ShellWorkspace)
    requires
        w.kind == BodyKind::Analysis || w.kind == BodyKind::Placeholder,
    ensures
        selection_chain(w) == startup_chain(w),
        selection_chain(w).last() == FocusItem::Page(w.focused_page),
{
}

} // verus!
