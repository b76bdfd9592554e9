//! Workstation panel state: collapsible shelves, dopesheet row disclosure,
//! the short texts the ledger and inspector show, and the workspace's
//! selection and engine-cache generations.

use crate::text::{chars_of, slice_of, starts_with, starts_with_chars, string_of, trim, trim_of};
use vstd::prelude::*;

verus! {

/// Identifies a collapsible shelf region in the workstation layout.
#[derive(Clone, Copy, Debug, PartialEq, Eq, Hash, Structural)]
pub enum WorkstationShelfId {
    StageHierarchy,
    StageLedger,
    TowerInspector,
    TowerOtlEditor,
    TowerLayerStack,
    TowerStageComposer,
    InspectorPipelineOverview,
    InspectorGlobalPerformance,
}

impl WorkstationShelfId {
    pub open spec fn spec_index(self) -> int {
        match self {
            WorkstationShelfId::StageHierarchy => 0,
            WorkstationShelfId::StageLedger => 1,
            WorkstationShelfId::TowerInspector => 2,
            WorkstationShelfId::TowerOtlEditor => 3,
            WorkstationShelfId::TowerLayerStack => 4,
            WorkstationShelfId::TowerStageComposer => 5,
            WorkstationShelfId::InspectorPipelineOverview => 6,
            WorkstationShelfId::InspectorGlobalPerformance => 7,
        }
    }

    pub open spec fn spec_element_key(self) -> Seq<char> {
        match self {
            WorkstationShelfId::StageHierarchy => "stage-hierarchy"@,
            WorkstationShelfId::StageLedger => "stage-ledger"@,
            WorkstationShelfId::TowerInspector => "tower-inspector"@,
            WorkstationShelfId::TowerOtlEditor => "tower-otl-editor"@,
            WorkstationShelfId::TowerLayerStack => "tower-layer-stack"@,
            WorkstationShelfId::TowerStageComposer => "tower-stage-composer"@,
            WorkstationShelfId::InspectorPipelineOverview => "inspector-pipeline-overview"@,
            WorkstationShelfId::InspectorGlobalPerformance => "inspector-global-performance"@,
        }
    }

    pub fn element_key(self) -> (r: &'static str)
        ensures
            r@ == self.spec_element_key(),
    {
        match self {
            WorkstationShelfId::StageHierarchy => "stage-hierarchy",
            WorkstationShelfId::StageLedger => "stage-ledger",
            WorkstationShelfId::TowerInspector => "tower-inspector",
            WorkstationShelfId::TowerOtlEditor => "tower-otl-editor",
            WorkstationShelfId::TowerLayerStack => "tower-layer-stack",
            WorkstationShelfId::TowerStageComposer => "tower-stage-composer",
            WorkstationShelfId::InspectorPipelineOverview => "inspector-pipeline-overview",
            WorkstationShelfId::InspectorGlobalPerformance => "inspector-global-performance",
        }
    }

    pub fn index(self) -> (r: usize)
        ensures
            r == self.spec_index(),
    {
        match self {
            WorkstationShelfId::StageHierarchy => 0,
            WorkstationShelfId::StageLedger => 1,
            WorkstationShelfId::TowerInspector => 2,
            WorkstationShelfId::TowerOtlEditor => 3,
            WorkstationShelfId::TowerLayerStack => 4,
            WorkstationShelfId::TowerStageComposer => 5,
            WorkstationShelfId::InspectorPipelineOverview => 6,
            WorkstationShelfId::InspectorGlobalPerformance => 7,
        }
    }
}

/// Expanded/collapsed state for workstation shelves: one flag per shelf,
/// indexed by [`WorkstationShelfId::index`].
#[derive(Debug, PartialEq, Eq)]
pub struct WorkstationShelfState {
    collapsed: Vec<bool>,
}

impl View for WorkstationShelfState {
    type V = Set<WorkstationShelfId>;

    /// The collapsed shelves.
    closed spec fn view(&self) -> Set<WorkstationShelfId> {
        Set::new(
            |s: WorkstationShelfId|
                self.collapsed@.len() == 8 && self.collapsed@[s.spec_index()],
        )
    }
}

impl WorkstationShelfState {
    #[verifier::type_invariant]
    spec fn well_formed(self) -> bool {
        self.collapsed@.len() == 8
    }

    /// Every shelf expanded.
    pub fn new() -> (s: WorkstationShelfState)
        ensures
            s@ == Set::<WorkstationShelfId>::empty(),
    {
        let s = WorkstationShelfState { collapsed: vec![false, false, false, false, false, false, false, false] };
        assert(s@ =~= Set::<WorkstationShelfId>::empty());
        s
    }

    pub fn is_expanded(&self, shelf: WorkstationShelfId) -> (r: bool)
        ensures
            r == !self@.contains(shelf),
    {
        proof {
            use_type_invariant(self);
        }
        !self.collapsed[shelf.index()]
    }

    pub fn set_expanded(&mut self, shelf: WorkstationShelfId, expanded: bool)
        ensures
            final(self)@ == if expanded {
                old(self)@.remove(shelf)
            } else {
                old(self)@.insert(shelf)
            },
    {
        proof {
            use_type_invariant(&*self);
        }
        let i = shelf.index();
        let ghost before = self.collapsed@;
        let mut flags = self.collapsed.clone();
        assert(flags@ =~= before);
        flags.set(i, !expanded);
        self.collapsed = flags;
        proof {
            assert forall|s: WorkstationShelfId| s.spec_index() == i implies s == shelf by {}
        }
        assert(self@ =~= if expanded {
            old(self)@.remove(shelf)
        } else {
            old(self)@.insert(shelf)
        });
    }

    /// Collapse an expanded shelf, expand a collapsed one.
    pub fn toggle(&mut self, shelf: WorkstationShelfId)
        ensures
            final(self)@ == if old(self)@.contains(shelf) {
                old(self)@.remove(shelf)
            } else {
                old(self)@.insert(shelf)
            },
    {
        let expanded = self.is_expanded(shelf);
        self.set_expanded(shelf, !expanded);
    }
}

impl Clone for WorkstationShelfState {
    fn clone(&self) -> (r: Self)
        ensures
            r@ == self@,
    {
        proof {
            use_type_invariant(self);
        }
        let flags = self.collapsed.clone();
        assert(flags@ =~= self.collapsed@);
        let r = WorkstationShelfState { collapsed: flags };
        assert(r@ =~= self@);
        r
    }
}

impl Default for WorkstationShelfState {
    fn default() -> (s: Self)
        ensures
            s@ == Set::<WorkstationShelfId>::empty(),
    {
        WorkstationShelfState::new()
    }
}

/// Toggling a shelf twice leaves every shelf as it was; setting a shelf's
/// expansion is what reading it back gives.
pub proof fn lemma_shelf_toggle_twice(collapsed: Set<WorkstationShelfId>, shelf: WorkstationShelfId)
    ensures
        ({
            let once = if collapsed.contains(shelf) {
                collapsed.remove(shelf)
            } else {
                collapsed.insert(shelf)
            };
            let twice = if once.contains(shelf) {
                once.remove(shelf)
            } else {
                once.insert(shelf)
            };
            twice == collapsed
        }),
        !collapsed.remove(shelf).contains(shelf),
        collapsed.insert(shelf).contains(shelf),
{
    if collapsed.contains(shelf) {
        assert(collapsed.remove(shelf).insert(shelf) =~= collapsed);
    } else {
        assert(collapsed.insert(shelf).remove(shelf) =~= collapsed);
    }
}

// ---------------------------------------------------------------------------
// Dopesheet row disclosure
// ---------------------------------------------------------------------------

/// Disclosure state of the topology dopesheet rows: the paths whose twist
/// the user flipped. Shallow rows (depth 0 and 1) are open unless flipped;
/// deeper rows are closed unless flipped.
#[derive(Debug)]
pub struct DopesheetUiState {
    expanded_paths: Vec<String>,
}

pub open spec fn path_views(v: Seq<String>) -> Seq<Seq<char>> {
    Seq::new(v.len(), |i: int| v[i]@)
}

pub open spec fn spec_is_expanded(flipped: Set<Seq<char>>, path: Seq<char>, depth: int) -> bool {
    if depth <= 1 {
        !flipped.contains(path)
    } else {
        flipped.contains(path)
    }
}

impl View for DopesheetUiState {
    type V = Set<Seq<char>>;

    /// The flipped paths.
    closed spec fn view(&self) -> Set<Seq<char>> {
        path_views(self.expanded_paths@).to_set()
    }
}

impl DopesheetUiState {
    #[verifier::type_invariant]
    spec fn no_duplicates(self) -> bool {
        path_views(self.expanded_paths@).no_duplicates()
    }

    pub fn new() -> (s: DopesheetUiState)
        ensures
            s@ == Set::<Seq<char>>::empty(),
    {
        let s = DopesheetUiState { expanded_paths: Vec::new() };
        assert(path_views(s.expanded_paths@) =~= Seq::<Seq<char>>::empty());
        assert(s@ =~= Set::<Seq<char>>::empty());
        s
    }

    fn position_of(&self, path: &String) -> (r: Option<usize>)
        ensures
            r matches Some(i) ==> i < self.expanded_paths@.len() && path_views(
                self.expanded_paths@,
            )[i as int] == path@,
            r is None ==> !self@.contains(path@),
    {
        let mut i: usize = 0;
        while i < self.expanded_paths.len()
            invariant
                i <= self.expanded_paths@.len(),
                forall|j: int| 0 <= j < i ==> path_views(self.expanded_paths@)[j] != path@,
            decreases self.expanded_paths.len() - i,
        {
            if self.expanded_paths[i] == *path {
                return Some(i);
            }
            i = i + 1;
        }
        proof {
            if self@.contains(path@) {
                let j = choose|j: int| 0 <= j < path_views(self.expanded_paths@).len() && path_views(self.expanded_paths@)[j] == path@;
            }
        }
        None
    }

    /// Whether the row for `path` at `tree_depth` shows its children.
    pub fn is_expanded(&self, path: &str, tree_depth: usize) -> (r: bool)
        ensures
            r == spec_is_expanded(self@, path@, tree_depth as int),
    {
        let key = path.to_owned();
        let found = self.position_of(&key);
        let flipped = found.is_some();
        proof {
            if let Some(i) = found {
                assert(path_views(self.expanded_paths@)[i as int] == key@);
                assert(path_views(self.expanded_paths@).contains(key@));
            }
        }
        if tree_depth <= 1 {
            !flipped
        } else {
            flipped
        }
    }

    /// Flip the twist of the row for `path`.
    pub fn toggle_expansion(&mut self, path: &str)
        ensures
            final(self)@ == if old(self)@.contains(path@) {
                old(self)@.remove(path@)
            } else {
                old(self)@.insert(path@)
            },
    {
        proof {
            use_type_invariant(&*self);
        }
        let key = path.to_owned();
        let ghost before = path_views(self.expanded_paths@);
        match self.position_of(&key) {
            Some(i) => {
                let mut paths: Vec<String> = Vec::new();
                std::mem::swap(&mut paths, &mut self.expanded_paths);
                paths.remove(i);
                proof {
                    assert(path_views(paths@) =~= before.remove(i as int));
                    before.remove_ensures(i as int);
                    assert forall|x: Seq<char>| #[trigger] path_views(paths@).to_set().contains(x) <==> (before.to_set().contains(x) && x != key@) by {
                        if x != key@ && before.contains(x) {
                            let j = choose|j: int| 0 <= j < before.len() && before[j] == x;
                            if j < i {
                                assert(path_views(paths@)[j] == x);
                            } else {
                                assert(j != i);
                                assert(path_views(paths@)[j - 1] == x);
                            }
                        }
                        if path_views(paths@).contains(x) {
                            let j = choose|j: int| 0 <= j < path_views(paths@).len() && path_views(paths@)[j] == x;
                            if j < i {
                                assert(before[j] == x);
                                assert(j != i as int);
                            } else {
                                assert(before[j + 1] == x);
                            }
                        }
                    }
                }
                self.expanded_paths = paths;
                assert(self@ =~= old(self)@.remove(path@));
            },
            None => {
                let mut paths: Vec<String> = Vec::new();
                std::mem::swap(&mut paths, &mut self.expanded_paths);
                paths.push(key);
                proof {
                    assert(path_views(paths@) =~= before.push(path@));
                    assert(!before.contains(path@));
                    assert forall|x: Seq<char>| #[trigger] before.push(path@).to_set().contains(x) <==> (
                    before.to_set().contains(x) || x == path@) by {
                        if before.contains(x) {
                            let j = choose|j: int| 0 <= j < before.len() && before[j] == x;
                            assert(before.push(path@)[j] == x);
                        }
                        if x == path@ {
                            assert(before.push(path@)[before.len() as int] == x);
                        }
                        if before.push(path@).contains(x) && x != path@ {
                            let j = choose|j: int| 0 <= j < before.push(path@).len() && before.push(path@)[j] == x;
                            assert(j < before.len());
                            assert(before[j] == x);
                        }
                    }
                    assert(before.push(path@).no_duplicates()) by {
                        assert forall|a: int, b: int| 0 <= a < b < before.push(path@).len() implies before.push(path@)[a] != before.push(path@)[b] by {
                            if b == before.len() {
                                assert(before[a] != path@);
                            }
                        }
                    }
                }
                self.expanded_paths = paths;
                assert(self@ =~= old(self)@.insert(path@));
            },
        }
    }
}

impl Clone for DopesheetUiState {
    fn clone(&self) -> (r: Self)
        ensures
            r@ == self@,
    {
        proof {
            use_type_invariant(self);
        }
        let paths = self.expanded_paths.clone();
        assert(path_views(paths@) =~= path_views(self.expanded_paths@)) by {
            assert forall|i: int| 0 <= i < paths@.len() implies paths@[i] == self.expanded_paths@[i] by {
                assert(vstd::pervasive::cloned(self.expanded_paths@[i], paths@[i]));
            }
        }
        DopesheetUiState { expanded_paths: paths }
    }
}

impl Default for DopesheetUiState {
    fn default() -> (s: Self)
        ensures
            s@ == Set::<Seq<char>>::empty(),
    {
        DopesheetUiState::new()
    }
}


/// Flipping a row's twist inverts whether that row is expanded, at any depth,
/// and leaves every other row as it was; flipping it twice restores the state.
pub proof fn lemma_toggle_expansion_flips(
    flipped: Set<Seq<char>>,
    path: Seq<char>,
    other: Seq<char>,
    depth: int,
)
    requires
        other != path,
    ensures
        ({
            let after = if flipped.contains(path) {
                flipped.remove(path)
            } else {
                flipped.insert(path)
            };
            &&& spec_is_expanded(after, path, depth) == !spec_is_expanded(flipped, path, depth)
            &&& spec_is_expanded(after, other, depth) == spec_is_expanded(flipped, other, depth)
            &&& (if after.contains(path) {
                after.remove(path)
            } else {
                after.insert(path)
            }) == flipped
        }),
{
    if flipped.contains(path) {
        assert(flipped.remove(path).insert(path) =~= flipped);
    } else {
        assert(flipped.insert(path).remove(path) =~= flipped);
    }
}

// ---------------------------------------------------------------------------
// Short display texts
// ---------------------------------------------------------------------------

/// Index just after the last `/` of `p` (0 without one).
pub open spec fn after_last_slash(p: Seq<char>, j: int) -> int
    decreases j,
{
    if j <= 0 || j > p.len() {
        0
    } else if p[j - 1] == '/' {
        j
    } else {
        after_last_slash(p, j - 1)
    }
}

/// The ledger shows a prim by its leaf name, or by its whole path when the
/// leaf is a generated `node_…` name.
pub open spec fn spec_ledger_prim_label(prim_path: Seq<char>) -> Seq<char> {
    let leaf = prim_path.subrange(after_last_slash(prim_path, prim_path.len() as int), prim_path.len() as int);
    if starts_with(leaf, "node_"@) {
        prim_path
    } else {
        leaf
    }
}

proof fn lemma_after_last_slash(p: Seq<char>, j: int)
    requires
        0 <= j <= p.len(),
    ensures
        0 <= after_last_slash(p, j) <= j,
    decreases j,
{
    if j > 0 && p[j - 1] != '/' {
        lemma_after_last_slash(p, j - 1);
    }
}

pub fn ledger_prim_label(prim_path: &str) -> (r: String)
    ensures
        r@ == spec_ledger_prim_label(prim_path@),
{
    let p = chars_of(prim_path);
    proof {
        lemma_after_last_slash(p@, p@.len() as int);
    }
    let mut k = p.len();
    while k > 0 && p[k - 1] != '/'
        invariant
            k <= p@.len(),
            after_last_slash(p@, p@.len() as int) == after_last_slash(p@, k as int),
        decreases k,
    {
        k = k - 1;
    }
    let leaf = slice_of(&p, k, p.len());
    if starts_with_chars(&leaf, &chars_of("node_")) {
        prim_path.to_owned()
    } else {
        string_of(&leaf)
    }
}

/// A metadata value, or `—` when it is blank.
pub open spec fn spec_metadata_display(value: Seq<char>) -> Seq<char> {
    if trim(value).len() == 0 {
        "—"@
    } else {
        value
    }
}

pub fn metadata_display(value: &str) -> (r: String)
    ensures
        r@ == spec_metadata_display(value@),
{
    if trim_of(&chars_of(value)).len() == 0 {
        "—".to_owned()
    } else {
        value.to_owned()
    }
}

pub fn dopesheet_empty_message(loose_otl_sandbox: bool) -> (r: &'static str)
    ensures
        r@ == if loose_otl_sandbox {
            "OTL sandbox — add assets or OTL scripts to the canvas, or import a portfolio layer."@
        } else {
            "No strategy topology compiled — wire portfolio integrators or load assets."@
        },
{
    if loose_otl_sandbox {
        "OTL sandbox — add assets or OTL scripts to the canvas, or import a portfolio layer."
    } else {
        "No strategy topology compiled — wire portfolio integrators or load assets."
    }
}

// ---------------------------------------------------------------------------
// Panels and tabs
// ---------------------------------------------------------------------------

/// Workstation panel identifiers for layout focus tracking.
#[derive(Clone, Copy, Debug, PartialEq, Eq, Hash, Structural)]
pub enum PanelType {
    StageComposer,
    NodeCanvas,
    ParamInspector,
    OtlEditor,
    RenderViewport,
}

/// Every panel, in layout order.
pub fn default_active_panels() -> (r: Vec<PanelType>)
    ensures
        r@ == seq![
            PanelType::StageComposer,
            PanelType::NodeCanvas,
            PanelType::ParamInspector,
            PanelType::OtlEditor,
            PanelType::RenderViewport,
        ],
{
    let r = vec![
        PanelType::StageComposer,
        PanelType::NodeCanvas,
        PanelType::ParamInspector,
        PanelType::OtlEditor,
        PanelType::RenderViewport,
    ];
    assert(r@ =~= seq![
        PanelType::StageComposer,
        PanelType::NodeCanvas,
        PanelType::ParamInspector,
        PanelType::OtlEditor,
        PanelType::RenderViewport,
    ]);
    r
}

/// Tabs of the inspector column.
#[derive(Clone, Copy, Debug, PartialEq, Eq, Structural)]
pub enum WorkspaceTab {
    ParamInspector,
    OtlEditor,
}

impl Default for WorkspaceTab {
    fn default() -> (r: Self)
        ensures
            r == WorkspaceTab::ParamInspector,
    {
        WorkspaceTab::ParamInspector
    }
}

impl WorkspaceTab {
    pub open spec fn spec_label(self) -> Seq<char> {
        match self {
            WorkspaceTab::ParamInspector => "Param Inspector"@,
            WorkspaceTab::OtlEditor => "OTL Script Editor"@,
        }
    }

    pub fn label(self) -> (r: &'static str)
        ensures
            r@ == self.spec_label(),
    {
        match self {
            WorkspaceTab::ParamInspector => "Param Inspector",
            WorkspaceTab::OtlEditor => "OTL Script Editor",
        }
    }
}

// ---------------------------------------------------------------------------
// Dirty graph nodes
// ---------------------------------------------------------------------------

/// Tracks down-chain signal/portfolio graph nodes needing recomputation.
#[derive(Debug)]
pub struct ExecutionGraphCache {
    dirty_nodes: Vec<String>,
}

impl View for ExecutionGraphCache {
    type V = Set<Seq<char>>;

    /// The prim paths marked dirty.
    closed spec fn view(&self) -> Set<Seq<char>> {
        path_views(self.dirty_nodes@).to_set()
    }
}

/// Appending a path that is not there keeps a list free of repeats and adds
/// exactly that path to its set.
proof fn lemma_push_new(before: Seq<Seq<char>>, p: Seq<char>)
    requires
        before.no_duplicates(),
        !before.contains(p),
    ensures
        before.push(p).no_duplicates(),
        before.push(p).to_set() == before.to_set().insert(p),
{
    assert forall|x: Seq<char>| #[trigger] before.push(p).to_set().contains(x) <==> (
    before.to_set().contains(x) || x == p) by {
        if before.contains(x) {
            let j = choose|j: int| 0 <= j < before.len() && before[j] == x;
            assert(before.push(p)[j] == x);
        }
        if x == p {
            assert(before.push(p)[before.len() as int] == x);
        }
        if before.push(p).contains(x) && x != p {
            let j = choose|j: int| 0 <= j < before.push(p).len() && before.push(p)[j] == x;
            assert(j < before.len());
            assert(before[j] == x);
        }
    }
    assert(before.push(p).to_set() =~= before.to_set().insert(p));
    assert forall|a: int, b: int| 0 <= a < b < before.push(p).len() implies before.push(p)[a]
        != before.push(p)[b] by {
        if b == before.len() {
            assert(before[a] != p);
        }
    }
}

impl ExecutionGraphCache {
    #[verifier::type_invariant]
    spec fn no_duplicates(self) -> bool {
        path_views(self.dirty_nodes@).no_duplicates()
    }

    pub fn new() -> (r: Self)
        ensures
            r@ == Set::<Seq<char>>::empty(),
    {
        let r = ExecutionGraphCache { dirty_nodes: Vec::new() };
        assert(path_views(r.dirty_nodes@) =~= Seq::<Seq<char>>::empty());
        assert(r@ =~= Set::<Seq<char>>::empty());
        r
    }

    /// Mark the node at `prim_path` for recomputation.
    pub fn dirty_graph_node(&mut self, prim_path: &str)
        ensures
            final(self)@ == old(self)@.insert(prim_path@),
    {
        proof {
            use_type_invariant(&*self);
        }
        let key = prim_path.to_owned();
        let ghost before = path_views(self.dirty_nodes@);
        let mut i: usize = 0;
        while i < self.dirty_nodes.len()
            invariant
                i <= self.dirty_nodes@.len(),
                before == path_views(self.dirty_nodes@),
                key@ == prim_path@,
                forall|j: int| 0 <= j < i ==> #[trigger] before[j] != key@,
            decreases self.dirty_nodes.len() - i,
        {
            if self.dirty_nodes[i] == key {
                assert(before[i as int] == key@);
                assert(before.contains(key@));
                assert(self@ =~= old(self)@.insert(prim_path@));
                return;
            }
            i = i + 1;
        }
        let mut nodes: Vec<String> = Vec::new();
        std::mem::swap(&mut nodes, &mut self.dirty_nodes);
        nodes.push(key);
        proof {
            assert(path_views(nodes@) =~= before.push(prim_path@));
            lemma_push_new(before, prim_path@);
        }
        self.dirty_nodes = nodes;
        assert(self@ =~= old(self)@.insert(prim_path@));
    }

    /// The dirty prim paths, each once.
    pub fn dirty_nodes(&self) -> (r: &Vec<String>)
        ensures
            path_views(r@).to_set() == self@,
            path_views(r@).no_duplicates(),
    {
        proof {
            use_type_invariant(self);
        }
        &self.dirty_nodes
    }

    /// Hand out the dirty prim paths (each once) and forget them.
    pub fn take_dirty_nodes(&mut self) -> (r: Vec<String>)
        ensures
            path_views(r@).to_set() == old(self)@,
            path_views(r@).no_duplicates(),
            final(self)@ == Set::<Seq<char>>::empty(),
    {
        proof {
            use_type_invariant(&*self);
        }
        let mut nodes: Vec<String> = Vec::new();
        assert(path_views(nodes@) =~= Seq::<Seq<char>>::empty());
        std::mem::swap(&mut nodes, &mut self.dirty_nodes);
        assert(self@ =~= Set::<Seq<char>>::empty());
        nodes
    }

    /// Forget every dirty prim path.
    pub fn clear_dirty_nodes(&mut self)
        ensures
            final(self)@ == Set::<Seq<char>>::empty(),
    {
        let mut nodes: Vec<String> = Vec::new();
        assert(path_views(nodes@) =~= Seq::<Seq<char>>::empty());
        std::mem::swap(&mut nodes, &mut self.dirty_nodes);
        assert(self@ =~= Set::<Seq<char>>::empty());
    }
}

impl Default for ExecutionGraphCache {
    fn default() -> (r: Self)
        ensures
            r@ == Set::<Seq<char>>::empty(),
    {
        ExecutionGraphCache::new()
    }
}

// ---------------------------------------------------------------------------
// Workspace selection and engine cache
// ---------------------------------------------------------------------------

/// The generation after `g`: one more, wrapping to 0 after `u64::MAX`.
pub open spec fn next_generation(g: u64) -> u64 {
    if g == u64::MAX {
        0
    } else {
        (g + 1) as u64
    }
}

fn bump(g: u64) -> (r: u64)
    ensures
        r == next_generation(g),
        r != g,
{
    g.wrapping_add(1)
}

pub open spec fn opt_path(o: Option<String>) -> Option<Seq<char>> {
    match o {
        Some(s) => Some(s@),
        None => None,
    }
}

fn same_opt_path(a: &Option<String>, b: &Option<String>) -> (r: bool)
    ensures
        r == (opt_path(*a) == opt_path(*b)),
{
    match (a, b) {
        (Some(x), Some(y)) => *x == *y,
        (None, None) => true,
        _ => false,
    }
}

/// The workspace's shared selection, panel layout, edit-target layer and
/// engine-cache bookkeeping.
pub struct WorkspaceState {
    selected_path: Option<String>,
    ui_selection_generation: u64,
    active_panels: Vec<PanelType>,
    engine_cache_generation: u64,
    execution_engine: ExecutionGraphCache,
    edit_target_layer: Option<String>,
}

pub struct WorkspaceStateModel {
    pub selected_path: Option<Seq<char>>,
    /// Stepped on every change of the selection.
    pub selection_generation: u64,
    pub active_panels: Seq<PanelType>,
    /// Stepped on every edit that makes compiled engine state stale.
    pub engine_generation: u64,
    /// Prim paths whose graph nodes need recomputing.
    pub dirty: Set<Seq<char>>,
    pub edit_target_layer: Option<Seq<char>>,
}

impl View for WorkspaceState {
    type V = WorkspaceStateModel;

    closed spec fn view(&self) -> WorkspaceStateModel {
        WorkspaceStateModel {
            selected_path: opt_path(self.selected_path),
            selection_generation: self.ui_selection_generation,
            active_panels: self.active_panels@,
            engine_generation: self.engine_cache_generation,
            dirty: self.execution_engine@,
            edit_target_layer: opt_path(self.edit_target_layer),
        }
    }
}

/// The state after selecting `p`: unchanged when `p` is already selected,
/// else `p` selected and the selection generation stepped.
pub open spec fn model_select(m: WorkspaceStateModel, p: Option<Seq<char>>) -> WorkspaceStateModel {
    if p == m.selected_path {
        m
    } else {
        WorkspaceStateModel {
            selected_path: p,
            selection_generation: next_generation(m.selection_generation),
            ..m
        }
    }
}

/// The state after an edit of the prim at `prim_path`.
pub open spec fn model_record_edit(m: WorkspaceStateModel, prim_path: Seq<char>) -> WorkspaceStateModel {
    WorkspaceStateModel {
        dirty: m.dirty.insert(prim_path),
        engine_generation: next_generation(m.engine_generation),
        ..m
    }
}

impl WorkspaceState {
    /// Nothing selected, every panel shown, nothing dirty, both generations
    /// at 0, and `edit_target_layer` as the edit target.
    pub fn new(edit_target_layer: Option<String>) -> (r: Self)
        ensures
            r@.selected_path is None,
            r@.selection_generation == 0,
            r@.active_panels == seq![
                PanelType::StageComposer,
                PanelType::NodeCanvas,
                PanelType::ParamInspector,
                PanelType::OtlEditor,
                PanelType::RenderViewport,
            ],
            r@.engine_generation == 0,
            r@.dirty == Set::<Seq<char>>::empty(),
            r@.edit_target_layer == opt_path(edit_target_layer),
    {
        WorkspaceState {
            selected_path: None,
            ui_selection_generation: 0,
            active_panels: default_active_panels(),
            engine_cache_generation: 0,
            execution_engine: ExecutionGraphCache::new(),
            edit_target_layer,
        }
    }

    pub fn selected_path(&self) -> (r: Option<&String>)
        ensures
            match r {
                Some(s) => self@.selected_path == Some(s@),
                None => self@.selected_path is None,
            },
    {
        self.selected_path.as_ref()
    }

    pub fn ui_selection_generation(&self) -> (r: u64)
        ensures
            r == self@.selection_generation,
    {
        self.ui_selection_generation
    }

    pub fn active_panels(&self) -> (r: &Vec<PanelType>)
        ensures
            r@ == self@.active_panels,
    {
        &self.active_panels
    }

    pub fn engine_cache_generation(&self) -> (r: u64)
        ensures
            r == self@.engine_generation,
    {
        self.engine_cache_generation
    }

    /// Whether edits have happened since the engine was compiled at
    /// `last_compiled_generation`.
    pub fn is_engine_cache_dirty(&self, last_compiled_generation: u64) -> (r: bool)
        ensures
            r == (self@.engine_generation != last_compiled_generation),
    {
        self.engine_cache_generation != last_compiled_generation
    }

    pub fn execution_engine(&self) -> (r: &ExecutionGraphCache)
        ensures
            r@ == self@.dirty,
    {
        &self.execution_engine
    }

    pub fn edit_target_layer(&self) -> (r: Option<&String>)
        ensures
            match r {
                Some(s) => self@.edit_target_layer == Some(s@),
                None => self@.edit_target_layer is None,
            },
    {
        self.edit_target_layer.as_ref()
    }

    /// Change the edit target; `false` (and nothing changed) when `layer` is
    /// the current one.
    pub fn set_edit_target_layer(&mut self, layer: Option<String>) -> (changed: bool)
        ensures
            changed == (opt_path(layer) != old(self)@.edit_target_layer),
            final(self)@ == (WorkspaceStateModel { edit_target_layer: opt_path(layer), ..old(self)@ }),
    {
        if same_opt_path(&self.edit_target_layer, &layer) {
            return false;
        }
        self.edit_target_layer = layer;
        true
    }

    /// Select `path`; a change of selection steps the selection generation.
    /// Returns `false` (and changes nothing) when `path` is already selected.
    pub fn set_selected_path(&mut self, path: Option<String>) -> (changed: bool)
        ensures
            changed == (opt_path(path) != old(self)@.selected_path),
            final(self)@ == model_select(old(self)@, opt_path(path)),
    {
        if same_opt_path(&self.selected_path, &path) {
            return false;
        }
        self.selected_path = path;
        self.ui_selection_generation = bump(self.ui_selection_generation);
        true
    }

    pub fn set_active_panels(&mut self, panels: Vec<PanelType>)
        ensures
            final(self)@ == (WorkspaceStateModel { active_panels: panels@, ..old(self)@ }),
    {
        self.active_panels = panels;
    }

    /// Mark compiled engine state stale.
    pub fn invalidate_engine_cache(&mut self)
        ensures
            final(self)@ == (WorkspaceStateModel {
                engine_generation: next_generation(old(self)@.engine_generation),
                ..old(self)@
            }),
            final(self)@.engine_generation != old(self)@.engine_generation,
    {
        self.engine_cache_generation = bump(self.engine_cache_generation);
    }

    /// An edit of the prim at `prim_path`: its graph node is marked dirty and
    /// the engine cache goes stale.
    pub fn record_prim_edit(&mut self, prim_path: &str)
        ensures
            final(self)@ == model_record_edit(old(self)@, prim_path@),
    {
        self.execution_engine.dirty_graph_node(prim_path);
        self.invalidate_engine_cache();
    }

    /// Fresh results came in: no node is dirty any more.
    pub fn clear_dirty_nodes(&mut self)
        ensures
            final(self)@ == (WorkspaceStateModel { dirty: Set::<Seq<char>>::empty(), ..old(self)@ }),
    {
        self.execution_engine.clear_dirty_nodes();
    }
}

/// Selecting the same path a second time changes nothing more.
pub proof fn lemma_select_twice(m: WorkspaceStateModel, p: Option<Seq<char>>)
    ensures
        model_select(model_select(m, p), p) == model_select(m, p),
{
}

/// After an edit, a cache compiled at the generation before it is stale.
pub proof fn lemma_edit_makes_cache_stale(m: WorkspaceStateModel, prim_path: Seq<char>)
    ensures
        model_record_edit(m, prim_path).engine_generation != m.engine_generation,
        model_record_edit(m, prim_path).dirty.contains(prim_path),
{
}

} // verus!
