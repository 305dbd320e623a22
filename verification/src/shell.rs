//! The window shell around the multiplexer: what each user event does to
//! the shell's own state and to the mux, the tab strip it shows, and the
//! pixel placement of the projected slots.

use vstd::prelude::*;
use crate::mux::model::{Mux, Tab, RectSlot, pane_pos, tab_pos, lemma_tab_pos};
use crate::mux::ops::{mux_enqueue, mux_focus_id, focus_post, enqueue_post};
use crate::mux::layout::{slot_at, rects_ready, mux_rect_branch};
use crate::mux::nav::{mux_focus_dir, nav_target};
use crate::mux::resize::{mux_resize_branch, resize_post, raw_ratio, settle, trunc_div};
use crate::mux::view::{
    mux_tab_count, mux_tab_id_at, mux_tab_is_active_at, mux_tab_title_at, tab_title,
    mux_pane_cols, mux_pane_rows,
};
use crate::config::{Config, term_profile_names};
use crate::text::{push_str_chars, string_from_chars};

verus! {

/// Height of the tab strip, in pixels.
pub const TAB_STRIP_H: i64 = 40;

/// Height of the status bar, in pixels.
pub const STATUS_BAR_H: i64 = 24;

/// What the shell asks of the terminal engine after an event.
#[derive(Clone, Copy, Debug, PartialEq, Eq, Structural)]
pub enum AppEffect {
    /// Nothing to do.
    Nothing,
    /// Interrupt the focused session.
    Interrupt,
    /// Pump typed input to the visible sessions, then re-read their lines.
    PumpInput,
    /// Re-read the lines and cursors of the pane slots.
    ReadLines,
}

/// A user event of the shell window. `Menu` carries the menu item the
/// engine handed over (3 = interrupt); `Tick` carries the window size and
/// is handed over after the host has run the queued actions and harvested
/// the sessions for that tick, so it sees the workspace after them;
/// `Drag` carries the pointer in per-mille coordinates of the pane area.
#[derive(Clone, Copy, Debug, PartialEq, Eq, Structural)]
pub enum AppMsg {
    Tick(i32, i32),
    KeyIn,
    Menu(i32),
    TabActivate(i32),
    TabClose(i32),
    NewTab,
    NewTabProfile(i32),
    ProfileMenu,
    Split(i32),
    Zoom,
    CloseFocusPane,
    SchemeToggle,
    Shortcut(i32),
    Press(i32),
    Drag(i32, i32),
    Drop,
}

/// Pixel placement of one pane slot, with the grid size of its pane.
#[derive(Clone, Debug)]
pub struct PaneSlotPx {
    pub kind: i64,
    pub key: String,
    pub x: i64,
    pub y: i64,
    pub w: i64,
    pub h: i64,
    pub cols: i64,
    pub rows: i64,
}

/// Pixel placement of one divider slot.
#[derive(Clone, Copy, Debug, PartialEq, Eq, Structural)]
pub struct DividerPx {
    pub branch: i64,
    pub axis: i64,
    pub x: i64,
    pub y: i64,
    pub w: i64,
    pub h: i64,
}

/// The shell's own state: the tab strip, the colour scheme, the window
/// and pane-area size, the placement of the six pane slots and five
/// dividers, an ongoing divider drag, and the profile menu.
#[derive(Debug)]
pub struct App {
    pub cols: i64,
    pub rows: i64,
    pub tab_ids: Vec<i64>,
    pub tab_labels: Vec<String>,
    pub scheme: i64,
    pub client_w: i64,
    pub client_h: i64,
    pub tab_h: i64,
    pub status_h: i64,
    pub panes_px: Vec<PaneSlotPx>,
    pub dividers_px: Vec<DividerPx>,
    pub dragging: i64,
    pub drag_branch: i64,
    pub drag_w: i64,
    pub drag_h: i64,
    pub last_ver: i64,
    pub profile_names: Vec<String>,
    pub profile_menu: i64,
}

/// A pixel extent as the window system hands it over.
pub open spec fn extent_ok(v: int) -> bool {
    i32::MIN <= v <= i32::MAX
}

/// A pixel extent a slot may be scaled to (the difference of two
/// window extents at most).
pub open spec fn area_ok(v: int) -> bool {
    -0x1_0000_0000 <= v <= 0x1_0000_0000
}

impl App {
    /// Six pane slots, five dividers, sizes in pixel range.
    pub open spec fn wf(&self) -> bool {
        &&& self.panes_px@.len() == 6
        &&& self.dividers_px@.len() == 5
        &&& extent_ok(self.client_w as int)
        &&& extent_ok(self.client_h as int)
        &&& extent_ok(self.tab_h as int)
        &&& extent_ok(self.status_h as int)
    }
}

/// 0 <-> 1; anything else becomes 1.
pub open spec fn toggled(v: i64) -> i64 {
    if v == 1 { 0 } else { 1 }
}

/// Kind of projected slot `k` (1-based; 0 when absent).
pub open spec fn slot_kind(r: Seq<RectSlot>, k: i64) -> i64 {
    match slot_at(r, k) { Some(s) => s.kind, None => 0 }
}

/// Pane of projected slot `k` (0 when absent).
pub open spec fn slot_pane(r: Seq<RectSlot>, k: i64) -> i64 {
    match slot_at(r, k) { Some(s) => s.pane, None => 0 }
}

/// Key of projected slot `k` (empty when absent).
pub open spec fn slot_key(r: Seq<RectSlot>, k: i64) -> Seq<char> {
    match slot_at(r, k) { Some(s) => s.key@, None => Seq::empty() }
}

/// Branch of projected slot `k` (0 when absent).
pub open spec fn slot_branch(r: Seq<RectSlot>, k: i64) -> i64 {
    match slot_at(r, k) { Some(s) => s.branch, None => 0 }
}

/// Split axis of projected slot `k` (0 when absent).
pub open spec fn slot_axis(r: Seq<RectSlot>, k: i64) -> i64 {
    match slot_at(r, k) { Some(s) => s.axis, None => 0 }
}

/// Per-mille rectangle of projected slot `k` (all 0 when absent).
pub open spec fn slot_x(r: Seq<RectSlot>, k: i64) -> i64 {
    match slot_at(r, k) { Some(s) => s.x, None => 0 }
}

pub open spec fn slot_y(r: Seq<RectSlot>, k: i64) -> i64 {
    match slot_at(r, k) { Some(s) => s.y, None => 0 }
}

pub open spec fn slot_w(r: Seq<RectSlot>, k: i64) -> i64 {
    match slot_at(r, k) { Some(s) => s.w, None => 0 }
}

pub open spec fn slot_h(r: Seq<RectSlot>, k: i64) -> i64 {
    match slot_at(r, k) { Some(s) => s.h, None => 0 }
}

/// A per-mille coordinate scaled to `extent` pixels, truncated toward 0.
pub open spec fn px(v: i64, extent: int) -> int {
    trunc_div(v * extent, 1000)
}

/// Grid columns of pane `id` (100 when unknown).
pub open spec fn pane_cols_of(m: &Mux, id: i64) -> i64 {
    if pane_pos(m.panes@, id) < 0 { 100 } else { m.panes@[pane_pos(m.panes@, id)].cols }
}

/// Grid rows of pane `id` (30 when unknown).
pub open spec fn pane_rows_of(m: &Mux, id: i64) -> i64 {
    if pane_pos(m.panes@, id) < 0 { 30 } else { m.panes@[pane_pos(m.panes@, id)].rows }
}

/// `p` places pane slot `k` of `m`'s projection in a `cw` x `ch` area.
pub open spec fn pane_px_placed(p: PaneSlotPx, m: &Mux, k: i64, cw: int, ch: int) -> bool {
    let r = m.rects@;
    &&& p.kind == slot_kind(r, k)
    &&& p.key@ == slot_key(r, k)
    &&& p.x == px(slot_x(r, k), cw)
    &&& p.y == px(slot_y(r, k), ch)
    &&& p.w == px(slot_w(r, k), cw)
    &&& p.h == px(slot_h(r, k), ch)
}

/// `p` places pane slot `k` and carries its pane's grid size.
pub open spec fn pane_px_ok(p: PaneSlotPx, m: &Mux, k: i64, cw: int, ch: int) -> bool {
    &&& pane_px_placed(p, m, k, cw, ch)
    &&& p.cols == pane_cols_of(m, slot_pane(m.rects@, k))
    &&& p.rows == pane_rows_of(m, slot_pane(m.rects@, k))
}

/// `d` places divider slot `k` of `m`'s projection in a `cw` x `ch` area.
pub open spec fn divider_px_ok(d: DividerPx, m: &Mux, k: i64, cw: int, ch: int) -> bool {
    let r = m.rects@;
    &&& d.branch == slot_branch(r, k)
    &&& d.axis == slot_axis(r, k)
    &&& d.x == px(slot_x(r, k), cw)
    &&& d.y == px(slot_y(r, k), ch)
    &&& d.w == px(slot_w(r, k), cw)
    &&& d.h == px(slot_h(r, k), ch)
}

/// Ids of the tabs, in order.
pub open spec fn tab_ids_of(tabs: Seq<Tab>) -> Seq<i64> {
    tabs.map_values(|t: Tab| t.id)
}

/// Label of tab `i` in the strip: its title, marked when it is active.
pub open spec fn tab_label(m: &Mux, i: int) -> Seq<char> {
    if m.tabs@[i].id == m.active_tab {
        seq!['●', ' '] + tab_title(i)
    } else {
        tab_title(i)
    }
}

/// `labels` are the strip labels of `m`'s tabs.
pub open spec fn tab_labels_ok(labels: Seq<String>, m: &Mux) -> bool {
    &&& labels.len() == m.tabs@.len()
    &&& forall|i: int| 0 <= i < labels.len() ==> (#[trigger] labels[i])@ == tab_label(m, i)
}

/// Position of the active tab in the strip (0 when there is none).
pub open spec fn cur_tab_index(m: &Mux) -> int {
    if m.active_pos() >= 0 { m.active_pos() } else { 0 }
}

/// The position before `c` among `n`, wrapping to the last.
pub open spec fn prev_index(c: int, n: int) -> int {
    if c - 1 < 0 { n - 1 } else { c - 1 }
}

/// The position after `c` among `n`, wrapping to the first.
pub open spec fn next_index(c: int, n: int) -> int {
    if c + 1 >= n { 0 } else { c + 1 }
}

/// Id of the tab at `i` (0 when out of range).
pub open spec fn tab_id_or_zero(tabs: Seq<Tab>, i: int) -> i64 {
    if 0 <= i < tabs.len() { tabs[i].id } else { 0 }
}

/// Stepping forward then back (or back then forward) through `n` tabs
/// returns to the tab one started from.
pub proof fn lemma_tab_cycle(c: int, n: int)
    requires
        0 <= c < n,
    ensures
        prev_index(next_index(c, n), n) == c,
        next_index(prev_index(c, n), n) == c,
        0 <= prev_index(c, n) < n,
        0 <= next_index(c, n) < n,
{
}

/// Toggling a 0/1 flag twice gives it back.
pub proof fn lemma_toggle_twice(v: i64)
    requires
        v == 0 || v == 1,
    ensures
        toggled(toggled(v)) == v,
        toggled(v) == 0 || toggled(v) == 1,
{
}

/// The ratio a drag of `branch_id` to `(px, py)` settles on (-1 when it
/// is no draggable branch).
pub open spec fn drag_ratio(m: &Mux, branch_id: i64, x: int, y: int) -> i64 {
    match raw_ratio(m, branch_id, x, y) {
        None => -1i64,
        Some(raw) => settle(raw),
    }
}

/// What moving the focus in direction `d` does.
pub open spec fn focus_dir_post(o: &Mux, f: &Mux, d: i64) -> bool {
    let t = nav_target(o, d);
    if t < 0 {
        f.unchanged_from(o)
    } else {
        focus_post(o, f, t, if pane_pos(o.panes@, t) < 0 { -1i64 } else { 1i64 })
    }
}

/// `v * extent / 1000` with truncation toward zero.
fn scale(v: i64, extent: i64) -> (r: i64)
    requires
        0 <= v <= 1000,
        area_ok(extent as int),
    ensures
        r == px(v, extent as int),
{
    assert(-1000 * 0x1_0000_0000 <= v * extent <= 1000 * 0x1_0000_0000) by (nonlinear_arith)
        requires
            0 <= v <= 1000,
            -0x1_0000_0000 <= extent <= 0x1_0000_0000,
    ;
    let a: i64 = v * extent;
    if a >= 0 {
        a / 1000
    } else {
        -((-a) / 1000)
    }
}

/// The projected slots of a well-formed mux lie in the unit square.
proof fn lemma_slot_in_unit(m: &Mux, k: i64)
    requires
        m.wf(),
    ensures
        0 <= slot_x(m.rects@, k) <= 1000,
        0 <= slot_y(m.rects@, k) <= 1000,
        0 <= slot_w(m.rects@, k) <= 1000,
        0 <= slot_h(m.rects@, k) <= 1000,
{
    if 1 <= k <= m.rects@.len() {
        assert(m.rects@[k - 1].in_unit());
    }
}

/// Place pane slot `k` of the (current) projection in a `cw` x `ch` area.
fn pane_slot_px(mux: &Mux, k: i64, cw: i64, ch: i64) -> (p: PaneSlotPx)
    requires
        mux.wf(),
        area_ok(cw as int),
        area_ok(ch as int),
    ensures
        pane_px_ok(p, mux, k, cw as int, ch as int),
{
    proof {
        lemma_slot_in_unit(mux, k);
    }
    if 1 <= k && k as u64 <= mux.rects.len() as u64 {
        let s = &mux.rects[(k - 1) as usize];
        let cols: i64 = mux_pane_cols(mux, s.pane);
        let rows: i64 = mux_pane_rows(mux, s.pane);
        PaneSlotPx {
            kind: s.kind,
            key: s.key.clone(),
            x: scale(s.x, cw),
            y: scale(s.y, ch),
            w: scale(s.w, cw),
            h: scale(s.h, ch),
            cols,
            rows,
        }
    } else {
        let cols: i64 = mux_pane_cols(mux, 0);
        let rows: i64 = mux_pane_rows(mux, 0);
        PaneSlotPx {
            kind: 0,
            key: String::new(),
            x: scale(0, cw),
            y: scale(0, ch),
            w: scale(0, cw),
            h: scale(0, ch),
            cols,
            rows,
        }
    }
}

/// Place divider slot `k` of the (current) projection in a `cw` x `ch` area.
fn divider_slot_px(mux: &Mux, k: i64, cw: i64, ch: i64) -> (d: DividerPx)
    requires
        mux.wf(),
        area_ok(cw as int),
        area_ok(ch as int),
    ensures
        divider_px_ok(d, mux, k, cw as int, ch as int),
{
    proof {
        lemma_slot_in_unit(mux, k);
    }
    if 1 <= k && k as u64 <= mux.rects.len() as u64 {
        let s = &mux.rects[(k - 1) as usize];
        DividerPx {
            branch: s.branch,
            axis: s.axis,
            x: scale(s.x, cw),
            y: scale(s.y, ch),
            w: scale(s.w, cw),
            h: scale(s.h, ch),
        }
    } else {
        DividerPx { branch: 0, axis: 0, x: scale(0, cw), y: scale(0, ch), w: scale(0, cw), h: scale(0, ch) }
    }
}

/// The tab strip: the tab ids in order, and their labels (the active
/// tab's marked with a dot).
pub fn tab_strip(mux: &Mux) -> (r: (Vec<i64>, Vec<String>))
    requires
        mux.wf(),
    ensures
        r.0@ == tab_ids_of(mux.tabs@),
        tab_labels_ok(r.1@, mux),
{
    let n: i64 = mux_tab_count(mux);
    let mut ids: Vec<i64> = Vec::new();
    let mut labels: Vec<String> = Vec::new();
    let mut i: i64 = 0;
    while i < n
        invariant
            n == mux.tabs@.len(),
            mux.wf(),
            0 <= i <= n,
            ids@ == tab_ids_of(mux.tabs@).take(i as int),
            labels@.len() == i,
            forall|j: int| 0 <= j < i ==> (#[trigger] labels@[j])@ == tab_label(mux, j),
        decreases n - i,
    {
        proof {
            assert(tab_ids_of(mux.tabs@).take(i + 1) =~= tab_ids_of(mux.tabs@).take(i as int).push(
                mux.tabs@[i as int].id,
            ));
        }
        ids.push(mux_tab_id_at(mux, i));
        let title: String = mux_tab_title_at(i);
        if mux_tab_is_active_at(mux, i) == 1 {
            let mut v: Vec<char> = Vec::new();
            v.push('●');
            v.push(' ');
            push_str_chars(&mut v, title.as_str());
            labels.push(string_from_chars(v.as_slice()));
        } else {
            labels.push(title);
        }
        i = i + 1;
    }
    proof {
        assert(tab_ids_of(mux.tabs@).take(n as int) =~= tab_ids_of(mux.tabs@));
    }
    (ids, labels)
}

/// Position of the active tab in the strip, found as the shell does it:
/// the last position marked active, 0 when none is.
pub fn active_strip_index(mux: &Mux) -> (r: i64)
    requires
        mux.wf(),
    ensures
        r == cur_tab_index(mux),
{
    let cnt: i64 = mux_tab_count(mux);
    let mut cur: i64 = 0;
    let mut i: i64 = 0;
    while i < cnt
        invariant
            cnt == mux.tabs@.len(),
            mux.wf(),
            0 <= i <= cnt,
            cur == (if tab_pos(mux.tabs@.take(i as int), mux.active_tab) >= 0 {
                tab_pos(mux.tabs@.take(i as int), mux.active_tab)
            } else {
                0
            }),
        decreases cnt - i,
    {
        proof {
            assert(mux.tabs@.take(i + 1).drop_last() =~= mux.tabs@.take(i as int));
            assert(mux.tabs@.take(i + 1).last() == mux.tabs@[i as int]);
        }
        if mux_tab_is_active_at(mux, i) == 1 {
            cur = i;
        }
        i = i + 1;
    }
    proof {
        assert(mux.tabs@.take(cnt as int) =~= mux.tabs@);
        lemma_tab_pos(mux.tabs@, mux.active_tab);
        if mux.active_tab == 0 {
            if tab_pos(mux.tabs@, 0) >= 0 {
                assert(mux.tabs@[tab_pos(mux.tabs@, 0)].id > 0);
            }
        }
    }
    cur
}


/// Place all six pane slots of the (current) projection.
fn place_panes(mux: &Mux, slots: &mut Vec<PaneSlotPx>, cw: i64, ch: i64)
    requires
        mux.wf(),
        old(slots)@.len() == 6,
        area_ok(cw as int),
        area_ok(ch as int),
    ensures
        final(slots)@.len() == 6,
        forall|k: int| 0 <= k < 6 ==> pane_px_ok(#[trigger] final(slots)@[k], mux, (k + 1) as i64, cw as int, ch as int),
{
    let mut k: usize = 0;
    while k < 6
        invariant
            mux.wf(),
            area_ok(cw as int),
            area_ok(ch as int),
            slots@.len() == 6,
            k <= 6,
            forall|j: int| 0 <= j < k ==> pane_px_ok(#[trigger] slots@[j], mux, (j + 1) as i64, cw as int, ch as int),
        decreases 6 - k,
    {
        let p = pane_slot_px(mux, (k + 1) as i64, cw, ch);
        slots.set(k, p);
        k = k + 1;
    }
}

/// Place all five divider slots of the (current) projection.
fn place_dividers(mux: &Mux, divs: &mut Vec<DividerPx>, cw: i64, ch: i64)
    requires
        mux.wf(),
        old(divs)@.len() == 5,
        area_ok(cw as int),
        area_ok(ch as int),
    ensures
        final(divs)@.len() == 5,
        forall|k: int| 0 <= k < 5 ==> divider_px_ok(#[trigger] final(divs)@[k], mux, (k + 7) as i64, cw as int, ch as int),
{
    let mut k: usize = 0;
    while k < 5
        invariant
            mux.wf(),
            area_ok(cw as int),
            area_ok(ch as int),
            divs@.len() == 5,
            k <= 5,
            forall|j: int| 0 <= j < k ==> divider_px_ok(#[trigger] divs@[j], mux, (j + 7) as i64, cw as int, ch as int),
        decreases 5 - k,
    {
        let d = divider_slot_px(mux, (k + 7) as i64, cw, ch);
        divs.set(k, d);
        k = k + 1;
    }
}

/// Re-read the grid size of the pane behind every pane slot that shows one.
fn refresh_grids(mux: &Mux, slots: &mut Vec<PaneSlotPx>)
    requires
        mux.wf(),
        old(slots)@.len() == 6,
    ensures
        final(slots)@.len() == 6,
        forall|k: int| 0 <= k < 6 ==> grid_refreshed(old(slots)@[k], #[trigger] final(slots)@[k], mux, (k + 1) as i64),
{
    let mut k: usize = 0;
    while k < 6
        invariant
            mux.wf(),
            slots@.len() == 6,
            k <= 6,
            forall|j: int| 0 <= j < k ==> grid_refreshed(old(slots)@[j], #[trigger] slots@[j], mux, (j + 1) as i64),
            forall|j: int| k <= j < 6 ==> #[trigger] slots@[j] == old(slots)@[j],
        decreases 6 - k,
    {
        let q: i64 = slot_pane_id(mux, (k + 1) as i64);
        if slots[k].kind == 1 {
            let cols: i64 = mux_pane_cols(mux, q);
            let rows: i64 = mux_pane_rows(mux, q);
            let p = PaneSlotPx {
                kind: slots[k].kind,
                key: slots[k].key.clone(),
                x: slots[k].x,
                y: slots[k].y,
                w: slots[k].w,
                h: slots[k].h,
                cols,
                rows,
            };
            slots.set(k, p);
        }
        k = k + 1;
    }
}

/// Pane of projected slot `k` (0 when absent).
fn slot_pane_id(mux: &Mux, k: i64) -> (r: i64)
    ensures
        r == slot_pane(mux.rects@, k),
{
    if 1 <= k && k as u64 <= mux.rects.len() as u64 {
        mux.rects[(k - 1) as usize].pane
    } else {
        0
    }
}

/// `p1` is `p0` with the grid size re-read when the slot shows a pane.
pub open spec fn grid_refreshed(p0: PaneSlotPx, p1: PaneSlotPx, m: &Mux, k: i64) -> bool {
    &&& p1.kind == p0.kind
    &&& p1.key@ == p0.key@
    &&& p1.x == p0.x
    &&& p1.y == p0.y
    &&& p1.w == p0.w
    &&& p1.h == p0.h
    &&& if p0.kind == 1 {
        &&& p1.cols == pane_cols_of(m, slot_pane(m.rects@, k))
        &&& p1.rows == pane_rows_of(m, slot_pane(m.rects@, k))
    } else {
        &&& p1.cols == p0.cols
        &&& p1.rows == p0.rows
    }
}

/// What a tick does to the workspace as it stands after the tick's
/// queued actions ran: the tab strip is rebuilt, and when the layout
/// version or the window size moved, every slot is placed anew in the
/// window (pane area = window height less the tab strip); the grid size
/// of each shown pane is re-read.
pub open spec fn tick_post(a0: &App, a1: &App, m0: &Mux, m1: &Mux, nw: int, nh: int) -> bool {
    let changed = m0.layout_epoch != a0.last_ver || nw != a0.client_w || nh != a0.client_h;
    &&& m1.refreshed_from(m0)
    &&& a1.tab_ids@ == tab_ids_of(m0.tabs@)
    &&& tab_labels_ok(a1.tab_labels@, m0)
    &&& a1.cols == m0.cols
    &&& a1.rows == m0.rows
    &&& a1.scheme == a0.scheme
    &&& a1.tab_h == a0.tab_h
    &&& a1.status_h == a0.status_h
    &&& a1.dragging == a0.dragging
    &&& a1.drag_branch == a0.drag_branch
    &&& a1.drag_w == a0.drag_w
    &&& a1.drag_h == a0.drag_h
    &&& a1.profile_names@ == a0.profile_names@
    &&& a1.profile_menu == a0.profile_menu
    &&& if changed {
        &&& a1.client_w == nw
        &&& a1.client_h == nh
        &&& a1.last_ver == m0.layout_epoch
        &&& forall|k: int| 0 <= k < 6 ==> pane_px_ok(#[trigger] a1.panes_px@[k], m1, (k + 1) as i64, nw, nh - a0.tab_h)
        &&& forall|k: int| 0 <= k < 5 ==> divider_px_ok(#[trigger] a1.dividers_px@[k], m1, (k + 7) as i64, nw, nh - a0.tab_h)
    } else {
        &&& a1.client_w == a0.client_w
        &&& a1.client_h == a0.client_h
        &&& a1.last_ver == a0.last_ver
        &&& a1.dividers_px@ == a0.dividers_px@
        &&& forall|k: int| 0 <= k < 6 ==> grid_refreshed(a0.panes_px@[k], #[trigger] a1.panes_px@[k], m1, (k + 1) as i64)
    }
}

/// What a keyboard shortcut does (`n` as the shell numbers them): 1 new
/// tab, 2 close the focused pane, 3 split across, 4 split along, 5 zoom,
/// 6 and 7 the previous tab, 8 the next tab (both wrapping), 9 toggle the
/// colour scheme, 10..13 move the focus up, down, left, right.
pub open spec fn shortcut_post(a0: &App, a1: &App, m0: &Mux, m1: &Mux, n: i32) -> bool {
    let cnt = m0.tabs@.len() as int;
    if n == 9 {
        &&& *m1 == *m0
        &&& *a1 == App { scheme: toggled(a0.scheme), ..*a0 }
    } else {
        &&& *a1 == *a0
        &&& if n == 1 {
            enqueue_post(m0, m1, 1, 0)
        } else if n == 2 {
            enqueue_post(m0, m1, 3, m0.focus_pane())
        } else if n == 3 {
            enqueue_post(m0, m1, 2, 1)
        } else if n == 4 {
            enqueue_post(m0, m1, 2, 0)
        } else if n == 5 {
            enqueue_post(m0, m1, 4, m0.focus_pane())
        } else if n == 6 || n == 7 {
            enqueue_post(m0, m1, 5, tab_id_or_zero(m0.tabs@, prev_index(cur_tab_index(m0), cnt)))
        } else if n == 8 {
            enqueue_post(m0, m1, 5, tab_id_or_zero(m0.tabs@, next_index(cur_tab_index(m0), cnt)))
        } else if 10 <= n <= 13 {
            focus_dir_post(m0, m1, (n - 10) as i64)
        } else {
            *m1 == *m0
        }
    }
}

/// What each event does to the shell and to the mux, and what the shell
/// then asks of the engine.
pub open spec fn on_post(a0: &App, a1: &App, m0: &Mux, m1: &Mux, msg: AppMsg, r: AppEffect) -> bool {
    match msg {
        AppMsg::Tick(nw, nh) => r == AppEffect::ReadLines && tick_post(a0, a1, m0, m1, nw as int, nh as int),
        AppMsg::KeyIn => r == AppEffect::PumpInput && *a1 == *a0 && *m1 == *m0,
        AppMsg::Menu(item) => {
            &&& r == (if item == 3 { AppEffect::Interrupt } else { AppEffect::Nothing })
            &&& *a1 == *a0
            &&& *m1 == *m0
        },
        AppMsg::TabActivate(i) => r == AppEffect::Nothing && *a1 == *a0
            && enqueue_post(m0, m1, 5, tab_id_or_zero(m0.tabs@, i as int)),
        AppMsg::TabClose(i) => r == AppEffect::Nothing && *a1 == *a0
            && enqueue_post(m0, m1, 6, tab_id_or_zero(m0.tabs@, i as int)),
        AppMsg::NewTab => r == AppEffect::Nothing && *a1 == *a0 && enqueue_post(m0, m1, 1, 0),
        AppMsg::NewTabProfile(i) => r == AppEffect::Nothing && *a1 == (App { profile_menu: 0, ..*a0 })
            && enqueue_post(m0, m1, 1, (i + 1) as i64),
        AppMsg::ProfileMenu => r == AppEffect::Nothing && *m1 == *m0
            && *a1 == (App { profile_menu: toggled(a0.profile_menu), ..*a0 }),
        AppMsg::Split(ax) => r == AppEffect::Nothing && *a1 == *a0 && enqueue_post(m0, m1, 2, ax as i64),
        AppMsg::Zoom => r == AppEffect::Nothing && *a1 == *a0 && enqueue_post(m0, m1, 4, m0.focus_pane()),
        AppMsg::CloseFocusPane => r == AppEffect::Nothing && *a1 == *a0
            && enqueue_post(m0, m1, 3, m0.focus_pane()),
        AppMsg::SchemeToggle => r == AppEffect::Nothing && *m1 == *m0
            && *a1 == (App { scheme: toggled(a0.scheme), ..*a0 }),
        AppMsg::Shortcut(n) => r == AppEffect::Nothing && shortcut_post(a0, a1, m0, m1, n),
        AppMsg::Press(k) => {
            &&& r == AppEffect::Nothing
            &&& m1.refreshed_from(m0)
            &&& *a1 == (App {
                dragging: 1,
                drag_branch: slot_branch(m1.rects@, k as i64),
                drag_w: a0.client_w,
                drag_h: (a0.client_h - a0.tab_h - a0.status_h) as i64,
                ..*a0
            })
        },
        AppMsg::Drag(x, y) => {
            &&& r == AppEffect::Nothing
            &&& *a1 == *a0
            &&& resize_post(m0, m1, a0.drag_branch, x as int, y as int, drag_ratio(m0, a0.drag_branch, x as int, y as int))
        },
        AppMsg::Drop => {
            &&& r == AppEffect::Nothing
            &&& *m1 == *m0
            &&& *a1 == (App { dragging: 0, drag_branch: 0, drag_w: 0, drag_h: 0, ..*a0 })
        },
    }
}

impl App {
    /// Handle one event (see [`on_post`]).
    pub fn on(&mut self, mux: &mut Mux, msg: AppMsg) -> (r: AppEffect)
        requires
            old(self).wf(),
            old(mux).wf(),
            msg is Drag ==> old(mux).layout_epoch < i64::MAX,
        ensures
            final(self).wf(),
            final(mux).wf(),
            on_post(old(self), final(self), old(mux), final(mux), msg, r),
    {
        match msg {
            AppMsg::Tick(nw, nh) => {
                self.tick(mux, nw, nh);
                AppEffect::ReadLines
            },
            AppMsg::KeyIn => AppEffect::PumpInput,
            AppMsg::Menu(item) => {
                if item == 3 {
                    AppEffect::Interrupt
                } else {
                    AppEffect::Nothing
                }
            },
            AppMsg::TabActivate(i) => {
                let tid: i64 = mux_tab_id_at(mux, i as i64);
                mux_enqueue(mux, 5, tid);
                AppEffect::Nothing
            },
            AppMsg::TabClose(i) => {
                let tid: i64 = mux_tab_id_at(mux, i as i64);
                mux_enqueue(mux, 6, tid);
                AppEffect::Nothing
            },
            AppMsg::NewTab => {
                mux_enqueue(mux, 1, 0);
                AppEffect::Nothing
            },
            AppMsg::NewTabProfile(i) => {
                mux_enqueue(mux, 1, i as i64 + 1);
                self.profile_menu = 0;
                AppEffect::Nothing
            },
            AppMsg::ProfileMenu => {
                if self.profile_menu == 1 {
                    self.profile_menu = 0;
                } else {
                    self.profile_menu = 1;
                }
                AppEffect::Nothing
            },
            AppMsg::Split(ax) => {
                mux_enqueue(mux, 2, ax as i64);
                AppEffect::Nothing
            },
            AppMsg::Zoom => {
                let fid: i64 = mux_focus_id(mux);
                mux_enqueue(mux, 4, fid);
                AppEffect::Nothing
            },
            AppMsg::CloseFocusPane => {
                let fid: i64 = mux_focus_id(mux);
                mux_enqueue(mux, 3, fid);
                AppEffect::Nothing
            },
            AppMsg::SchemeToggle => {
                if self.scheme == 1 {
                    self.scheme = 0;
                } else {
                    self.scheme = 1;
                }
                AppEffect::Nothing
            },
            AppMsg::Shortcut(n) => {
                self.shortcut(mux, n);
                AppEffect::Nothing
            },
            AppMsg::Press(k) => {
                let b: i64 = mux_rect_branch(mux, k as i64);
                self.drag_branch = b;
                self.dragging = 1;
                self.drag_w = self.client_w;
                self.drag_h = self.client_h - self.tab_h - self.status_h;
                AppEffect::Nothing
            },
            AppMsg::Drag(x, y) => {
                mux_resize_branch(mux, self.drag_branch, x as i64, y as i64);
                AppEffect::Nothing
            },
            AppMsg::Drop => {
                self.dragging = 0;
                self.drag_branch = 0;
                self.drag_w = 0;
                self.drag_h = 0;
                AppEffect::Nothing
            },
        }
    }

    /// Handle keyboard shortcut `n` (see [`shortcut_post`]).
    fn shortcut(&mut self, mux: &mut Mux, n: i32)
        requires
            old(self).wf(),
            old(mux).wf(),
        ensures
            final(self).wf(),
            final(mux).wf(),
            shortcut_post(old(self), final(self), old(mux), final(mux), n),
    {
        if n == 1 {
            mux_enqueue(mux, 1, 0);
        } else if n == 2 {
            let fid: i64 = mux_focus_id(mux);
            mux_enqueue(mux, 3, fid);
        } else if n == 3 {
            mux_enqueue(mux, 2, 1);
        } else if n == 4 {
            mux_enqueue(mux, 2, 0);
        } else if n == 5 {
            let fid: i64 = mux_focus_id(mux);
            mux_enqueue(mux, 4, fid);
        } else if n == 6 || n == 7 {
            let cnt: i64 = mux_tab_count(mux);
            let cur: i64 = active_strip_index(mux);
            let mut prv: i64 = cur - 1;
            if prv < 0 {
                prv = cnt - 1;
            }
            let ptid: i64 = mux_tab_id_at(mux, prv);
            mux_enqueue(mux, 5, ptid);
        } else if n == 8 {
            let cnt: i64 = mux_tab_count(mux);
            let cur: i64 = active_strip_index(mux);
            proof {
                lemma_tab_pos(mux.tabs@, mux.active_tab);
            }
            let mut nxt: i64 = cur + 1;
            if nxt >= cnt {
                nxt = 0;
            }
            let ntid: i64 = mux_tab_id_at(mux, nxt);
            mux_enqueue(mux, 5, ntid);
        } else if n == 9 {
            if self.scheme == 1 {
                self.scheme = 0;
            } else {
                self.scheme = 1;
            }
        } else if 10 <= n && n <= 13 {
            mux_focus_dir(mux, (n - 10) as i64);
        }
    }

    /// Handle a tick with window size `nw` x `nh` (see [`tick_post`]).
    fn tick(&mut self, mux: &mut Mux, nw: i32, nh: i32)
        requires
            old(self).wf(),
            old(mux).wf(),
        ensures
            final(self).wf(),
            final(mux).wf(),
            tick_post(old(self), final(self), old(mux), final(mux), nw as int, nh as int),
    {
        let (ids, labels) = tab_strip(mux);
        self.tab_ids = ids;
        self.tab_labels = labels;
        let ver: i64 = mux.layout_epoch;
        let changed: bool = ver != self.last_ver || nw as i64 != self.client_w || nh as i64 != self.client_h;
        rects_ready(mux);
        if changed {
            self.client_w = nw as i64;
            self.client_h = nh as i64;
            let cw: i64 = nw as i64;
            let ch: i64 = nh as i64 - self.tab_h;
            place_panes(mux, &mut self.panes_px, cw, ch);
            place_dividers(mux, &mut self.dividers_px, cw, ch);
            self.last_ver = ver;
        }
        refresh_grids(mux, &mut self.panes_px);
        self.cols = mux.cols;
        self.rows = mux.rows;
    }
}


/// Kind and key of pane slot `k`, not yet placed (grid 100 x 30).
fn bare_slot(mux: &Mux, k: i64) -> (p: PaneSlotPx)
    ensures
        p.kind == slot_kind(mux.rects@, k),
        p.key@ == slot_key(mux.rects@, k),
        p.x == 0,
        p.y == 0,
        p.w == 0,
        p.h == 0,
        p.cols == 100,
        p.rows == 30,
{
    if 1 <= k && k as u64 <= mux.rects.len() as u64 {
        let s = &mux.rects[(k - 1) as usize];
        PaneSlotPx { kind: s.kind, key: s.key.clone(), x: 0, y: 0, w: 0, h: 0, cols: 100, rows: 30 }
    } else {
        PaneSlotPx { kind: 0, key: String::new(), x: 0, y: 0, w: 0, h: 0, cols: 100, rows: 30 }
    }
}

/// The shell as it opens in an `nw` x `nh` window on `m`: the tab strip,
/// the first two pane slots placed in the pane area (window less tab
/// strip and status bar; only the first with its pane's grid size), the
/// other pane slots known by kind and key only, no dividers yet, the
/// profile names of `cfg`, scheme 0 and no drag or menu open.
pub open spec fn init_post(a: &App, m: &Mux, cfg: &Config, nw: int, nh: int) -> bool {
    let ch = nh - TAB_STRIP_H - STATUS_BAR_H;
    &&& a.tab_ids@ == tab_ids_of(m.tabs@)
    &&& tab_labels_ok(a.tab_labels@, m)
    &&& a.client_w == nw
    &&& a.client_h == nh
    &&& a.tab_h == TAB_STRIP_H
    &&& a.status_h == STATUS_BAR_H
    &&& pane_px_ok(a.panes_px@[0], m, 1, nw, ch)
    &&& pane_px_placed(a.panes_px@[1], m, 2, nw, ch)
    &&& a.panes_px@[1].cols == 100
    &&& a.panes_px@[1].rows == 30
    &&& forall|k: int| 2 <= k < 6 ==> {
        &&& (#[trigger] a.panes_px@[k]).kind == slot_kind(m.rects@, (k + 1) as i64)
        &&& a.panes_px@[k].key@ == slot_key(m.rects@, (k + 1) as i64)
        &&& a.panes_px@[k].x == 0
        &&& a.panes_px@[k].y == 0
        &&& a.panes_px@[k].w == 0
        &&& a.panes_px@[k].h == 0
        &&& a.panes_px@[k].cols == 100
        &&& a.panes_px@[k].rows == 30
    }
    &&& forall|k: int| 0 <= k < 5 ==> #[trigger] a.dividers_px@[k] == (DividerPx {
        branch: 0, axis: 0, x: 0, y: 0, w: 0, h: 0,
    })
    &&& a.last_ver == m.layout_epoch
    &&& a.cols == m.cols
    &&& a.rows == m.rows
    &&& a.profile_names@.len() == cfg@.profiles.len()
    &&& forall|i: int| 0 <= i < a.profile_names@.len() ==> (#[trigger] a.profile_names@[i])@ == cfg@.profiles[i].name
    &&& a.scheme == 0
    &&& a.dragging == 0
    &&& a.drag_branch == 0
    &&& a.drag_w == 0
    &&& a.drag_h == 0
    &&& a.profile_menu == 0
}

impl App {
    /// Open the shell in an `nw` x `nh` window (see [`init_post`]).
    pub fn new(mux: &mut Mux, cfg: &Config, nw: i32, nh: i32) -> (a: App)
        requires
            old(mux).wf(),
        ensures
            final(mux).wf(),
            final(mux).refreshed_from(old(mux)),
            a.wf(),
            init_post(&a, final(mux), cfg, nw as int, nh as int),
    {
        let (ids, labels) = tab_strip(mux);
        rects_ready(mux);
        let cw: i64 = nw as i64;
        let ch: i64 = nh as i64 - TAB_STRIP_H - STATUS_BAR_H;
        let first = pane_slot_px(mux, 1, cw, ch);
        let second = pane_slot_px(mux, 2, cw, ch);
        let mut panes_px: Vec<PaneSlotPx> = Vec::new();
        panes_px.push(first);
        panes_px.push(PaneSlotPx {
            kind: second.kind,
            key: second.key,
            x: second.x,
            y: second.y,
            w: second.w,
            h: second.h,
            cols: 100,
            rows: 30,
        });
        let mut k: i64 = 3;
        while k <= 6
            invariant
                3 <= k <= 7,
                panes_px@.len() == k - 1,
                pane_px_ok(panes_px@[0], mux, 1, cw as int, ch as int),
                pane_px_placed(panes_px@[1], mux, 2, cw as int, ch as int),
                panes_px@[1].cols == 100,
                panes_px@[1].rows == 30,
                forall|j: int| 2 <= j < k - 1 ==> {
                    &&& (#[trigger] panes_px@[j]).kind == slot_kind(mux.rects@, (j + 1) as i64)
                    &&& panes_px@[j].key@ == slot_key(mux.rects@, (j + 1) as i64)
                    &&& panes_px@[j].x == 0
                    &&& panes_px@[j].y == 0
                    &&& panes_px@[j].w == 0
                    &&& panes_px@[j].h == 0
                    &&& panes_px@[j].cols == 100
                    &&& panes_px@[j].rows == 30
                },
            decreases 7 - k,
        {
            panes_px.push(bare_slot(mux, k));
            k = k + 1;
        }
        let none = DividerPx { branch: 0, axis: 0, x: 0, y: 0, w: 0, h: 0 };
        let mut dividers_px: Vec<DividerPx> = Vec::new();
        let mut j: usize = 0;
        while j < 5
            invariant
                j <= 5,
                dividers_px@.len() == j,
                forall|i: int| 0 <= i < j ==> #[trigger] dividers_px@[i] == none,
            decreases 5 - j,
        {
            dividers_px.push(none);
            j = j + 1;
        }
        App {
            cols: mux.cols,
            rows: mux.rows,
            tab_ids: ids,
            tab_labels: labels,
            scheme: 0,
            client_w: cw,
            client_h: nh as i64,
            tab_h: TAB_STRIP_H,
            status_h: STATUS_BAR_H,
            panes_px,
            dividers_px,
            dragging: 0,
            drag_branch: 0,
            drag_w: 0,
            drag_h: 0,
            last_ver: mux.layout_epoch,
            profile_names: term_profile_names(cfg),
            profile_menu: 0,
        }
    }
}

} // verus!
