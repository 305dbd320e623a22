//! The multiplexer's state: tabs, panes, the split tree of each tab, and
//! the cached slot projection of the active tab; plus the lookups that
//! every operation shares.

use vstd::prelude::*;
use crate::mux::ops::pane_ids_of_tab;

verus! {

/// Most panes one tab may hold (also the number of pane slots).
pub const MAX_PANES: i64 = 6;
/// Ratio a dragged divider snaps to.
pub const MAGNET_TARGET: i64 = 500;
/// Distance (per mille) within which a divider snaps.
pub const MAGNET_THRESH: i64 = 40;
/// Smallest share (per mille) a split child may keep.
pub const MIN_PANE: i64 = 100;

/// A tab: the root of its split tree, its focused pane and its zoomed
/// pane (0 = none).
#[derive(Clone, Copy, PartialEq, Eq, Structural, Debug)]
pub struct Tab {
    pub id: i64,
    pub root: i64,
    pub active_pane: i64,
    pub zoomed_pane: i64,
}

/// A node of a tab's split tree: a leaf holds a pane (`pane != 0`), a
/// branch splits its rectangle along `axis` (1 = side by side, otherwise
/// stacked) at `ratio` per mille between `first` and `second`.
#[derive(Clone, Copy, PartialEq, Eq, Structural, Debug)]
pub struct Node {
    pub id: i64,
    pub tab: i64,
    pub axis: i64,
    pub ratio: i64,
    pub first: i64,
    pub second: i64,
    pub pane: i64,
}

/// A pane: a terminal session handle and its model key (`pane-<id>`).
#[derive(Debug)]
pub struct Pane {
    pub id: i64,
    pub handle: i64,
    pub key: String,
    pub tab: i64,
    pub program: String,
    pub cwd: String,
    pub cols: i64,
    pub rows: i64,
    pub exited: bool,
}

/// One slot of the projection: kind 0 = empty, 1 = pane, 2 = divider;
/// coordinates are per mille of the content area.
#[derive(Debug)]
pub struct RectSlot {
    pub kind: i64,
    pub pane: i64,
    pub key: String,
    pub branch: i64,
    pub axis: i64,
    pub x: i64,
    pub y: i64,
    pub w: i64,
    pub h: i64,
}

/// The whole multiplexer state (one workspace).
#[derive(Debug)]
pub struct Mux {
    pub panes: Vec<Pane>,
    pub tabs: Vec<Tab>,
    pub nodes: Vec<Node>,
    /// Active tab id (0 = not initialised).
    pub active_tab: i64,
    pub next_pane_id: i64,
    pub next_tab_id: i64,
    pub next_node_id: i64,
    /// Bumped on every structural change; invalidates the projection.
    pub layout_epoch: i64,
    /// Epoch the projection was computed at (-1 = never).
    pub rect_cache_epoch: i64,
    pub rects: Vec<RectSlot>,
    /// Queued user actions `(code, arg)`, oldest first.
    pub act_codes: Vec<i64>,
    pub act_args: Vec<i64>,
    pub cols: i64,
    pub rows: i64,
    pub exited: bool,
    pub booted: bool,
    pub bl_alerts_total: i64,
    pub bl_pending_mb: i64,
    pub bl_paused: i64,
    pub bl_dropped: i64,
    pub tick_counter: i64,
    pub last_full_tick: i64,
}

/// Position of the last pane with id `id` (-1 = none).
pub open spec fn pane_pos(s: Seq<Pane>, id: i64) -> int
    decreases s.len(),
{
    if s.len() == 0 {
        -1
    } else if s.last().id == id {
        s.len() - 1
    } else {
        pane_pos(s.drop_last(), id)
    }
}

/// Position of the last node with id `id` (-1 = none).
pub open spec fn node_pos(s: Seq<Node>, id: i64) -> int
    decreases s.len(),
{
    if s.len() == 0 {
        -1
    } else if s.last().id == id {
        s.len() - 1
    } else {
        node_pos(s.drop_last(), id)
    }
}

/// Position of the last tab with id `id` (-1 = none).
pub open spec fn tab_pos(s: Seq<Tab>, id: i64) -> int
    decreases s.len(),
{
    if s.len() == 0 {
        -1
    } else if s.last().id == id {
        s.len() - 1
    } else {
        tab_pos(s.drop_last(), id)
    }
}

/// Position of the last node whose pane is `pane` (-1 = none).
pub open spec fn leaf_pos(s: Seq<Node>, pane: i64) -> int
    decreases s.len(),
{
    if s.len() == 0 {
        -1
    } else if s.last().pane == pane {
        s.len() - 1
    } else {
        leaf_pos(s.drop_last(), pane)
    }
}

pub proof fn lemma_pane_pos(s: Seq<Pane>, id: i64)
    ensures
        -1 <= pane_pos(s, id) < s.len(),
        pane_pos(s, id) == -1 <==> (forall|j: int| 0 <= j < s.len() ==> s[j].id != id),
        pane_pos(s, id) >= 0 ==> s[pane_pos(s, id)].id == id,
        forall|j: int| pane_pos(s, id) < j < s.len() ==> s[j].id != id,
    decreases s.len(),
{
    if s.len() > 0 {
        lemma_pane_pos(s.drop_last(), id);
        if s.last().id != id {
            assert forall|j: int| 0 <= j < s.len() - 1 implies s[j] == s.drop_last()[j] by {}
        }
    }
}

pub proof fn lemma_node_pos(s: Seq<Node>, id: i64)
    ensures
        -1 <= node_pos(s, id) < s.len(),
        node_pos(s, id) == -1 <==> (forall|j: int| 0 <= j < s.len() ==> s[j].id != id),
        node_pos(s, id) >= 0 ==> s[node_pos(s, id)].id == id,
        forall|j: int| node_pos(s, id) < j < s.len() ==> s[j].id != id,
    decreases s.len(),
{
    if s.len() > 0 {
        lemma_node_pos(s.drop_last(), id);
        if s.last().id != id {
            assert forall|j: int| 0 <= j < s.len() - 1 implies s[j] == s.drop_last()[j] by {}
        }
    }
}

pub proof fn lemma_tab_pos(s: Seq<Tab>, id: i64)
    ensures
        -1 <= tab_pos(s, id) < s.len(),
        tab_pos(s, id) == -1 <==> (forall|j: int| 0 <= j < s.len() ==> s[j].id != id),
        tab_pos(s, id) >= 0 ==> s[tab_pos(s, id)].id == id,
        forall|j: int| tab_pos(s, id) < j < s.len() ==> s[j].id != id,
    decreases s.len(),
{
    if s.len() > 0 {
        lemma_tab_pos(s.drop_last(), id);
        if s.last().id != id {
            assert forall|j: int| 0 <= j < s.len() - 1 implies s[j] == s.drop_last()[j] by {}
        }
    }
}

pub proof fn lemma_leaf_pos(s: Seq<Node>, pane: i64)
    ensures
        -1 <= leaf_pos(s, pane) < s.len(),
        leaf_pos(s, pane) == -1 <==> (forall|j: int| 0 <= j < s.len() ==> s[j].pane != pane),
        leaf_pos(s, pane) >= 0 ==> s[leaf_pos(s, pane)].pane == pane,
        forall|j: int| leaf_pos(s, pane) < j < s.len() ==> s[j].pane != pane,
    decreases s.len(),
{
    if s.len() > 0 {
        lemma_leaf_pos(s.drop_last(), pane);
        if s.last().pane != pane {
            assert forall|j: int| 0 <= j < s.len() - 1 implies s[j] == s.drop_last()[j] by {}
        }
    }
}

/// With at most one match, the last match is the match.
pub proof fn lemma_pane_pos_unique(s: Seq<Pane>, id: i64, k: int)
    requires
        0 <= k < s.len(),
        s[k].id == id,
        forall|i: int, j: int| 0 <= i < j < s.len() ==> s[i].id != s[j].id,
    ensures
        pane_pos(s, id) == k,
{
    lemma_pane_pos(s, id);
}

pub proof fn lemma_node_pos_unique(s: Seq<Node>, id: i64, k: int)
    requires
        0 <= k < s.len(),
        s[k].id == id,
        forall|i: int, j: int| 0 <= i < j < s.len() ==> s[i].id != s[j].id,
    ensures
        node_pos(s, id) == k,
{
    lemma_node_pos(s, id);
}

pub proof fn lemma_tab_pos_unique(s: Seq<Tab>, id: i64, k: int)
    requires
        0 <= k < s.len(),
        s[k].id == id,
        forall|i: int, j: int| 0 <= i < j < s.len() ==> s[i].id != s[j].id,
    ensures
        tab_pos(s, id) == k,
{
    lemma_tab_pos(s, id);
}

/// Every leaf names an existing pane of its own tab and has no children,
/// and no two nodes name the same (non-zero) pane.
pub open spec fn leaves_ok(panes: Seq<Pane>, nodes: Seq<Node>) -> bool {
    &&& forall|i: int|
        0 <= i < nodes.len() && #[trigger] nodes[i].pane != 0 ==> {
            &&& pane_pos(panes, nodes[i].pane) >= 0
            &&& panes[pane_pos(panes, nodes[i].pane)].tab == nodes[i].tab
            &&& nodes[i].first == 0
            &&& nodes[i].second == 0
        }
    &&& forall|i: int, j: int|
        0 <= i < nodes.len() && 0 <= j < nodes.len() && i != j && nodes[i].pane != 0
            ==> #[trigger] nodes[i].pane != #[trigger] nodes[j].pane
}

/// Branch links stay inside one tab: a link never names an id not yet
/// handed out, and a link that names an existing node names one of the
/// same tab.
pub open spec fn links_ok(nodes: Seq<Node>, next_node_id: i64) -> bool {
    &&& forall|i: int| 0 <= i < nodes.len() ==> #[trigger] nodes[i].first < next_node_id && nodes[i].second < next_node_id
    &&& forall|i: int, j: int|
        #![trigger nodes[i], nodes[j]]
        0 <= i < nodes.len() && 0 <= j < nodes.len() && (nodes[i].first == nodes[j].id || nodes[i].second == nodes[j].id)
            ==> nodes[i].tab == nodes[j].tab
}

/// Leaves (nodes holding a pane) of tab `t`.
pub open spec fn leaf_count(nodes: Seq<Node>, t: i64) -> nat
    decreases nodes.len(),
{
    if nodes.len() == 0 {
        0
    } else {
        leaf_count(nodes.drop_last(), t) + (if nodes.last().tab == t && nodes.last().pane != 0 {
            1nat
        } else {
            0nat
        })
    }
}

/// Branches (nodes holding no pane) of tab `t`.
pub open spec fn branch_count(nodes: Seq<Node>, t: i64) -> nat
    decreases nodes.len(),
{
    if nodes.len() == 0 {
        0
    } else {
        branch_count(nodes.drop_last(), t) + (if nodes.last().tab == t && nodes.last().pane == 0 {
            1nat
        } else {
            0nat
        })
    }
}

/// Each tab's split tree is a full binary tree: one branch fewer than
/// leaves (or nothing at all), and every existing tab has a leaf.
pub open spec fn counts_ok(nodes: Seq<Node>, tabs: Seq<Tab>) -> bool {
    &&& forall|t: i64|
        #[trigger] leaf_count(nodes, t) == branch_count(nodes, t) + 1 || (leaf_count(nodes, t) == 0
            && branch_count(nodes, t) == 0)
    &&& forall|i: int| 0 <= i < tabs.len() ==> leaf_count(nodes, #[trigger] tabs[i].id) >= 1
}

/// A tab's focus is a pane id already handed out, and when it names an
/// existing pane it names one of the tab's own.
pub open spec fn focus_owned(panes: Seq<Pane>, tabs: Seq<Tab>, next_pane_id: i64) -> bool {
    &&& forall|i: int| 0 <= i < tabs.len() ==> 0 < #[trigger] tabs[i].active_pane < next_pane_id
    &&& forall|i: int|
        0 <= i < tabs.len() && pane_pos(panes, #[trigger] tabs[i].active_pane) >= 0
            ==> panes[pane_pos(panes, tabs[i].active_pane)].tab == tabs[i].id
}

/// Tables with the same ids position by position find ids alike.
pub proof fn lemma_pane_pos_same_ids(a: Seq<Pane>, b: Seq<Pane>, id: i64)
    requires
        a.len() == b.len(),
        forall|i: int| 0 <= i < a.len() ==> a[i].id == b[i].id,
    ensures
        pane_pos(a, id) == pane_pos(b, id),
    decreases a.len(),
{
    if a.len() > 0 {
        lemma_pane_pos_same_ids(a.drop_last(), b.drop_last(), id);
        assert(a.last().id == b.last().id);
    }
}

/// Focus ownership survives a pane table whose ids and tabs stay put.
pub proof fn lemma_focus_owned_same_panes(a: Seq<Pane>, b: Seq<Pane>, tabs: Seq<Tab>, next: i64)
    requires
        focus_owned(a, tabs, next),
        a.len() == b.len(),
        forall|i: int| 0 <= i < a.len() ==> a[i].id == b[i].id && a[i].tab == b[i].tab,
    ensures
        focus_owned(b, tabs, next),
{
    assert forall|i: int|
        0 <= i < tabs.len() && pane_pos(b, #[trigger] tabs[i].active_pane) >= 0
            implies b[pane_pos(b, tabs[i].active_pane)].tab == tabs[i].id by {
        lemma_pane_pos_same_ids(a, b, tabs[i].active_pane);
        lemma_pane_pos(a, tabs[i].active_pane);
    }
}

/// No tab holds more than `MAX_PANES` panes.
pub open spec fn panes_capped(panes: Seq<Pane>) -> bool {
    forall|t: i64| #[trigger] pane_ids_of_tab(panes, t).len() <= MAX_PANES
}

/// Panes are counted per tab additively over concatenation.
pub proof fn lemma_count_concat(a: Seq<Pane>, b: Seq<Pane>, t: i64)
    ensures
        pane_ids_of_tab(a + b, t).len() == pane_ids_of_tab(a, t).len() + pane_ids_of_tab(b, t).len(),
    decreases b.len(),
{
    if b.len() == 0 {
        assert(a + b =~= a);
    } else {
        lemma_count_concat(a, b.drop_last(), t);
        assert((a + b).drop_last() =~= a + b.drop_last());
        assert((a + b).last() == b.last());
    }
}

/// Appending a pane adds one to its own tab's count only.
pub proof fn lemma_count_push(s: Seq<Pane>, p: Pane, t: i64)
    ensures
        pane_ids_of_tab(s.push(p), t).len() == pane_ids_of_tab(s, t).len() + (if p.tab == t { 1int } else { 0int }),
{
    assert(s.push(p).drop_last() =~= s);
}

/// A tab that no pane names has no panes.
pub proof fn lemma_count_absent(s: Seq<Pane>, t: i64)
    requires
        forall|i: int| 0 <= i < s.len() ==> s[i].tab != t,
    ensures
        pane_ids_of_tab(s, t).len() == 0,
    decreases s.len(),
{
    if s.len() > 0 {
        lemma_count_absent(s.drop_last(), t);
    }
}

/// Removing a pane never raises a tab's count.
pub proof fn lemma_count_remove(s: Seq<Pane>, k: int, t: i64)
    requires
        0 <= k < s.len(),
    ensures
        pane_ids_of_tab(s.remove(k), t).len() <= pane_ids_of_tab(s, t).len(),
{
    let a = s.take(k);
    let b = s.skip(k + 1);
    assert(s.remove(k) =~= a + b);
    assert(s =~= a.push(s[k]) + b);
    lemma_count_concat(a, b, t);
    lemma_count_concat(a.push(s[k]), b, t);
    lemma_count_push(a, s[k], t);
}

/// Tables with the same tabs position by position count alike.
pub proof fn lemma_count_same_tabs(a: Seq<Pane>, b: Seq<Pane>, t: i64)
    requires
        a.len() == b.len(),
        forall|i: int| 0 <= i < a.len() ==> a[i].tab == b[i].tab,
    ensures
        pane_ids_of_tab(a, t).len() == pane_ids_of_tab(b, t).len(),
    decreases a.len(),
{
    if a.len() > 0 {
        lemma_count_same_tabs(a.drop_last(), b.drop_last(), t);
        assert(a.last().tab == b.last().tab);
    }
}

impl Mux {
    /// The state invariant that every operation keeps: ids are unique,
    /// positive and below the next fresh id; every pane belongs to an
    /// existing tab; every leaf names an existing pane of its own tab,
    /// no two leaves name the same pane, and leaves have no children;
    /// split ratios lie within [0, 1000]; the active tab is 0 or exists;
    /// every slot of the projection lies inside the unit square; no tab
    /// holds more than `MAX_PANES` panes; branch links stay inside one
    /// tab; a tab's focus is none or one of its own panes; every tab's
    /// tree has one branch fewer than leaves, and at least one leaf; the projection
    /// cache is never ahead of the layout, and when it is current it holds
    /// the projection.
    pub open spec fn wf(&self) -> bool {
        let panes = self.panes@;
        let tabs = self.tabs@;
        let nodes = self.nodes@;
        &&& 1 <= self.next_pane_id
        &&& 1 <= self.next_tab_id
        &&& 1 <= self.next_node_id
        &&& panes.len() < self.next_pane_id
        &&& tabs.len() < self.next_tab_id
        &&& nodes.len() < self.next_node_id
        &&& forall|i: int, j: int| 0 <= i < j < panes.len() ==> panes[i].id != panes[j].id
        &&& forall|i: int, j: int| 0 <= i < j < tabs.len() ==> tabs[i].id != tabs[j].id
        &&& forall|i: int, j: int| 0 <= i < j < nodes.len() ==> nodes[i].id != nodes[j].id
        &&& forall|i: int| 0 <= i < panes.len() ==> 0 < #[trigger] panes[i].id < self.next_pane_id
        &&& forall|i: int| 0 <= i < tabs.len() ==> 0 < #[trigger] tabs[i].id < self.next_tab_id
        &&& forall|i: int| 0 <= i < nodes.len() ==> 0 < #[trigger] nodes[i].id < self.next_node_id
        &&& forall|i: int| 0 <= i < panes.len() ==> tab_pos(tabs, #[trigger] panes[i].tab) >= 0
        &&& forall|i: int|
            0 <= i < nodes.len() ==> 0 <= #[trigger] nodes[i].ratio <= 1000
        &&& leaves_ok(panes, nodes)
        &&& self.active_tab == 0 || tab_pos(tabs, self.active_tab) >= 0
        &&& forall|i: int| 0 <= i < self.rects@.len() ==> #[trigger] self.rects@[i].in_unit()
        &&& panes_capped(panes)
        &&& links_ok(nodes, self.next_node_id)
        &&& focus_owned(panes, tabs, self.next_pane_id)
        &&& counts_ok(nodes, tabs)
        &&& self.rect_cache_epoch <= self.layout_epoch
        &&& (self.rect_cache_epoch == self.layout_epoch ==> self.is_projection(self.rects@))
    }
}

impl RectSlot {
    /// The slot lies inside the unit square (per mille).
    pub open spec fn in_unit(&self) -> bool {
        &&& 0 <= self.x
        &&& 0 <= self.w
        &&& self.x + self.w <= 1000
        &&& 0 <= self.y
        &&& 0 <= self.h
        &&& self.y + self.h <= 1000
    }
}

/// `xs` without the element at `idx` (unchanged when `idx` is out of range).
pub open spec fn without_index<T>(xs: Seq<T>, idx: int) -> Seq<T> {
    if 0 <= idx < xs.len() {
        xs.remove(idx)
    } else {
        xs
    }
}

/// Copy of `xs` without the element at `idx` (out of range = a copy).
pub fn list_remove_int(xs: Vec<i64>, idx: i64) -> (out: Vec<i64>)
    ensures
        out@ == without_index(xs@, idx as int),
{
    let mut out: Vec<i64> = Vec::new();
    let n: usize = xs.len();
    let mut i: usize = 0;
    while i < n
        invariant
            n == xs@.len(),
            i <= n,
            0 <= idx < i ==> out@ == xs@.take(i as int).remove(idx as int),
            !(0 <= idx < i) ==> out@ == xs@.take(i as int),
        decreases n - i,
    {
        if idx < 0 || idx as u64 != i as u64 {
            out.push(xs[i]);
        }
        proof {
            assert(xs@.take(i as int + 1) =~= xs@.take(i as int).push(xs@[i as int]));
            if 0 <= idx < i {
                assert(xs@.take(i as int + 1).remove(idx as int) =~= xs@.take(i as int).remove(
                    idx as int,
                ).push(xs@[i as int]));
            }
            if idx == i as int {
                assert(xs@.take(i as int + 1).remove(idx as int) =~= xs@.take(i as int));
            }
        }
        i = i + 1;
    }
    proof {
        assert(xs@.take(n as int) =~= xs@);
    }
    out
}

/// Copy of `xs` without the element at `idx` (out of range = a copy).
pub fn list_remove_bool(xs: Vec<bool>, idx: i64) -> (out: Vec<bool>)
    ensures
        out@ == without_index(xs@, idx as int),
{
    let mut out: Vec<bool> = Vec::new();
    let n: usize = xs.len();
    let mut i: usize = 0;
    while i < n
        invariant
            n == xs@.len(),
            i <= n,
            0 <= idx < i ==> out@ == xs@.take(i as int).remove(idx as int),
            !(0 <= idx < i) ==> out@ == xs@.take(i as int),
        decreases n - i,
    {
        if idx < 0 || idx as u64 != i as u64 {
            out.push(xs[i]);
        }
        proof {
            assert(xs@.take(i as int + 1) =~= xs@.take(i as int).push(xs@[i as int]));
            if 0 <= idx < i {
                assert(xs@.take(i as int + 1).remove(idx as int) =~= xs@.take(i as int).remove(
                    idx as int,
                ).push(xs@[i as int]));
            }
            if idx == i as int {
                assert(xs@.take(i as int + 1).remove(idx as int) =~= xs@.take(i as int));
            }
        }
        i = i + 1;
    }
    proof {
        assert(xs@.take(n as int) =~= xs@);
    }
    out
}

/// Copy of `xs` without the element at `idx` (out of range = a copy).
pub fn list_remove_str(xs: Vec<String>, idx: i64) -> (out: Vec<String>)
    ensures
        out@ == without_index(xs@, idx as int),
{
    let mut out: Vec<String> = Vec::new();
    let n: usize = xs.len();
    let mut i: usize = 0;
    while i < n
        invariant
            n == xs@.len(),
            i <= n,
            0 <= idx < i ==> out@ == xs@.take(i as int).remove(idx as int),
            !(0 <= idx < i) ==> out@ == xs@.take(i as int),
        decreases n - i,
    {
        if idx < 0 || idx as u64 != i as u64 {
            out.push(xs[i].clone());
        }
        proof {
            assert(xs@.take(i as int + 1) =~= xs@.take(i as int).push(xs@[i as int]));
            if 0 <= idx < i {
                assert(xs@.take(i as int + 1).remove(idx as int) =~= xs@.take(i as int).remove(
                    idx as int,
                ).push(xs@[i as int]));
            }
            if idx == i as int {
                assert(xs@.take(i as int + 1).remove(idx as int) =~= xs@.take(i as int));
            }
        }
        i = i + 1;
    }
    proof {
        assert(xs@.take(n as int) =~= xs@);
    }
    out
}

/// Membership test on a list of integers.
pub fn contains_int(xs: Vec<i64>, v: i64) -> (r: bool)
    ensures
        r == xs@.contains(v),
{
    let n: usize = xs.len();
    let mut i: usize = 0;
    while i < n
        invariant
            n == xs@.len(),
            i <= n,
            forall|j: int| 0 <= j < i ==> xs@[j] != v,
        decreases n - i,
    {
        if xs[i] == v {
            assert(xs@[i as int] == v);
            return true;
        }
        i = i + 1;
    }
    false
}

/// Index of the pane `pane_id` (-1 = none).
pub fn pane_index(mux: &Mux, pane_id: i64) -> (r: i64)
    requires
        mux.panes@.len() < i64::MAX,
    ensures
        r == pane_pos(mux.panes@, pane_id),
{
    let n: usize = mux.panes.len();
    let mut i: usize = 0;
    let mut hit: i64 = -1;
    while i < n
        invariant
            n == mux.panes@.len() < i64::MAX,
            i <= n,
            hit == pane_pos(mux.panes@.take(i as int), pane_id),
        decreases n - i,
    {
        proof {
            assert(mux.panes@.take(i as int + 1).drop_last() =~= mux.panes@.take(i as int));
        }
        if mux.panes[i].id == pane_id {
            hit = i as i64;
        }
        i = i + 1;
    }
    proof {
        assert(mux.panes@.take(n as int) =~= mux.panes@);
    }
    hit
}

/// Index of the node `node_id` (-1 = none).
pub fn node_index(mux: &Mux, node_id: i64) -> (r: i64)
    requires
        mux.nodes@.len() < i64::MAX,
    ensures
        r == node_pos(mux.nodes@, node_id),
{
    let n: usize = mux.nodes.len();
    let mut i: usize = 0;
    let mut hit: i64 = -1;
    while i < n
        invariant
            n == mux.nodes@.len() < i64::MAX,
            i <= n,
            hit == node_pos(mux.nodes@.take(i as int), node_id),
        decreases n - i,
    {
        proof {
            assert(mux.nodes@.take(i as int + 1).drop_last() =~= mux.nodes@.take(i as int));
        }
        if mux.nodes[i].id == node_id {
            hit = i as i64;
        }
        i = i + 1;
    }
    proof {
        assert(mux.nodes@.take(n as int) =~= mux.nodes@);
    }
    hit
}

/// Index of the tab `tab_id` (-1 = none).
pub fn tab_index(mux: &Mux, tab_id: i64) -> (r: i64)
    requires
        mux.tabs@.len() < i64::MAX,
    ensures
        r == tab_pos(mux.tabs@, tab_id),
{
    let n: usize = mux.tabs.len();
    let mut i: usize = 0;
    let mut hit: i64 = -1;
    while i < n
        invariant
            n == mux.tabs@.len() < i64::MAX,
            i <= n,
            hit == tab_pos(mux.tabs@.take(i as int), tab_id),
        decreases n - i,
    {
        proof {
            assert(mux.tabs@.take(i as int + 1).drop_last() =~= mux.tabs@.take(i as int));
        }
        if mux.tabs[i].id == tab_id {
            hit = i as i64;
        }
        i = i + 1;
    }
    proof {
        assert(mux.tabs@.take(n as int) =~= mux.tabs@);
    }
    hit
}

/// Id of the leaf node holding pane `pane_id` (0 = none).
pub fn leaf_node_of_pane(mux: &Mux, pane_id: i64) -> (r: i64)
    requires
        mux.nodes@.len() < i64::MAX,
    ensures
        r == (if leaf_pos(mux.nodes@, pane_id) >= 0 {
            mux.nodes@[leaf_pos(mux.nodes@, pane_id)].id
        } else {
            0
        }),
{
    let n: usize = mux.nodes.len();
    let mut i: usize = 0;
    let mut hit: i64 = 0;
    while i < n
        invariant
            n == mux.nodes@.len() < i64::MAX,
            i <= n,
            hit == (if leaf_pos(mux.nodes@.take(i as int), pane_id) >= 0 {
                mux.nodes@[leaf_pos(mux.nodes@.take(i as int), pane_id)].id
            } else {
                0
            }),
        decreases n - i,
    {
        proof {
            assert(mux.nodes@.take(i as int + 1).drop_last() =~= mux.nodes@.take(i as int));
            lemma_leaf_pos(mux.nodes@.take(i as int), pane_id);
        }
        if mux.nodes[i].pane == pane_id {
            hit = mux.nodes[i].id;
        }
        i = i + 1;
    }
    proof {
        assert(mux.nodes@.take(n as int) =~= mux.nodes@);
    }
    hit
}

} // verus!
