//! Structural operations: creating tabs and panes, splitting, focusing,
//! zooming, closing, and the action queue.

use vstd::prelude::*;
use crate::mux::model::{
    Mux, Pane, Tab, list_remove_int, pane_index, tab_index, pane_pos, tab_pos, lemma_pane_pos,
    lemma_tab_pos,
};
use crate::text::int_decimal;

verus! {

impl Mux {
    /// Headroom for the fresh-id counters and the layout epoch.
    pub open spec fn room(&self) -> bool {
        &&& self.next_pane_id < i64::MAX
        &&& self.next_node_id < i64::MAX - 1
        &&& self.next_tab_id < i64::MAX
        &&& self.layout_epoch < i64::MAX
    }

    /// The bookkeeping that tree operations leave alone.
    pub open spec fn same_side_state(&self, other: &Mux) -> bool {
        &&& self.rects@ == other.rects@
        &&& self.rect_cache_epoch == other.rect_cache_epoch
        &&& self.act_codes@ == other.act_codes@
        &&& self.act_args@ == other.act_args@
        &&& self.cols == other.cols
        &&& self.rows == other.rows
        &&& self.exited == other.exited
        &&& self.booted == other.booted
        &&& self.bl_alerts_total == other.bl_alerts_total
        &&& self.bl_pending_mb == other.bl_pending_mb
        &&& self.bl_paused == other.bl_paused
        &&& self.bl_dropped == other.bl_dropped
        &&& self.tick_counter == other.tick_counter
        &&& self.last_full_tick == other.last_full_tick
    }

    /// Same tree, same counters, same side state.
    pub open spec fn unchanged_from(&self, other: &Mux) -> bool {
        &&& self.panes@ == other.panes@
        &&& self.tabs@ == other.tabs@
        &&& self.nodes@ == other.nodes@
        &&& self.active_tab == other.active_tab
        &&& self.next_pane_id == other.next_pane_id
        &&& self.next_tab_id == other.next_tab_id
        &&& self.next_node_id == other.next_node_id
        &&& self.layout_epoch == other.layout_epoch
        &&& self.same_side_state(other)
    }

    /// Everything but the action queue is as in `other`.
    pub open spec fn same_but_queue(&self, other: &Mux) -> bool {
        &&& self.panes@ == other.panes@
        &&& self.tabs@ == other.tabs@
        &&& self.nodes@ == other.nodes@
        &&& self.active_tab == other.active_tab
        &&& self.next_pane_id == other.next_pane_id
        &&& self.next_tab_id == other.next_tab_id
        &&& self.next_node_id == other.next_node_id
        &&& self.layout_epoch == other.layout_epoch
        &&& self.rects@ == other.rects@
        &&& self.rect_cache_epoch == other.rect_cache_epoch
        &&& self.cols == other.cols
        &&& self.rows == other.rows
        &&& self.exited == other.exited
        &&& self.booted == other.booted
        &&& self.bl_alerts_total == other.bl_alerts_total
        &&& self.bl_pending_mb == other.bl_pending_mb
        &&& self.bl_paused == other.bl_paused
        &&& self.bl_dropped == other.bl_dropped
        &&& self.tick_counter == other.tick_counter
        &&& self.last_full_tick == other.last_full_tick
    }

    /// Index of the active tab (-1 = none).
    pub open spec fn active_pos(&self) -> int {
        if self.active_tab == 0 {
            -1
        } else {
            tab_pos(self.tabs@, self.active_tab)
        }
    }

    /// The focused pane of the active tab (0 = none).
    pub open spec fn focus_pane(&self) -> i64 {
        if self.active_pos() < 0 {
            0
        } else {
            self.tabs@[self.active_pos()].active_pane
        }
    }

    /// Position of the focused pane in the pane table (-1 = none).
    pub open spec fn focus_pos(&self) -> int {
        if self.focus_pane() == 0 {
            -1
        } else {
            pane_pos(self.panes@, self.focus_pane())
        }
    }
}

/// The model key of pane `id`: `pane-<id>`.
pub open spec fn pane_key(id: i64) -> Seq<char> {
    seq!['p', 'a', 'n', 'e', '-'] + int_decimal(id as int)
}

/// What focusing pane `pane_id` leaves behind: -1 and no change for an
/// unknown pane, else 1 with the pane recorded as its tab's focus.
pub open spec fn focus_post(o: &Mux, f: &Mux, pane_id: i64, r: i64) -> bool {
    let pi = pane_pos(o.panes@, pane_id);
    if pi < 0 {
        r == -1 && f.unchanged_from(o)
    } else {
        let ti: int = tab_pos(o.tabs@, o.panes@[pi].tab);
        &&& r == 1
        &&& f.tabs@ == o.tabs@.update(ti, Tab { active_pane: pane_id, ..o.tabs@[ti] })
        &&& f.panes@ == o.panes@
        &&& f.nodes@ == o.nodes@
        &&& f.active_tab == o.active_tab
        &&& f.next_pane_id == o.next_pane_id
        &&& f.next_tab_id == o.next_tab_id
        &&& f.next_node_id == o.next_node_id
        &&& f.layout_epoch == o.layout_epoch
        &&& f.same_side_state(o)
    }
}

/// A fresh, empty multiplexer (not yet initialised).
pub fn mux_new() -> (m: Mux)
    ensures
        m.wf(),
        m.panes@.len() == 0,
        m.tabs@.len() == 0,
        m.nodes@.len() == 0,
        m.active_tab == 0,
        m.next_pane_id == 1,
        m.next_tab_id == 1,
        m.next_node_id == 1,
        m.layout_epoch == 0,
        m.rect_cache_epoch == -1,
        m.rects@.len() == 0,
        m.act_codes@.len() == 0,
        m.act_args@.len() == 0,
        m.cols == 100,
        m.rows == 30,
        !m.exited,
        !m.booted,
        m.bl_alerts_total == 0,
        m.bl_pending_mb == 0,
        m.bl_paused == 0,
        m.bl_dropped == 0,
        m.tick_counter == 0,
        m.last_full_tick == 0,
{
    Mux {
        panes: Vec::new(),
        tabs: Vec::new(),
        nodes: Vec::new(),
        active_tab: 0,
        next_pane_id: 1,
        next_tab_id: 1,
        next_node_id: 1,
        layout_epoch: 0,
        rect_cache_epoch: -1,
        rects: Vec::new(),
        act_codes: Vec::new(),
        act_args: Vec::new(),
        cols: 100,
        rows: 30,
        exited: false,
        booted: false,
        bl_alerts_total: 0,
        bl_pending_mb: 0,
        bl_paused: 0,
        bl_dropped: 0,
        tick_counter: 0,
        last_full_tick: 0,
    }
}

/// Whether the counters have room for one more structural operation.
pub fn mux_has_room(mux: &Mux) -> (r: bool)
    ensures
        r == mux.room(),
{
    mux.next_pane_id < i64::MAX && mux.next_node_id < i64::MAX - 1 && mux.next_tab_id
        < i64::MAX && mux.layout_epoch < i64::MAX
}

/// Invalidates the projection cache; returns the new epoch.
pub fn bump_layout_epoch(mux: &mut Mux) -> (r: i64)
    requires
        old(mux).layout_epoch < i64::MAX,
    ensures
        final(mux).layout_epoch == old(mux).layout_epoch + 1,
        r == final(mux).layout_epoch,
        final(mux).panes@ == old(mux).panes@,
        final(mux).tabs@ == old(mux).tabs@,
        final(mux).nodes@ == old(mux).nodes@,
        final(mux).active_tab == old(mux).active_tab,
        final(mux).next_pane_id == old(mux).next_pane_id,
        final(mux).next_tab_id == old(mux).next_tab_id,
        final(mux).next_node_id == old(mux).next_node_id,
        final(mux).same_side_state(old(mux)),
{
    mux.layout_epoch = mux.layout_epoch + 1;
    mux.layout_epoch
}

/// Index of the active tab (-1 = not initialised).
pub fn active_tab_index(mux: &Mux) -> (r: i64)
    requires
        mux.wf(),
    ensures
        r == mux.active_pos(),
{
    if mux.active_tab == 0 {
        return -1;
    }
    tab_index(mux, mux.active_tab)
}

/// The focused pane of the active tab (0 = none).
pub fn mux_focus_pane_id(mux: &Mux) -> (r: i64)
    requires
        mux.wf(),
    ensures
        r == mux.focus_pane(),
{
    let ti: i64 = active_tab_index(mux);
    if ti < 0 {
        return 0;
    }
    proof {
        lemma_tab_pos(mux.tabs@, mux.active_tab);
        assert(0 <= ti < mux.tabs.len());
    }
    mux.tabs[ti as usize].active_pane
}

/// Engine handle of the focused pane (0 = none).
pub fn mux_focus_handle(mux: &Mux) -> (r: i64)
    requires
        mux.wf(),
    ensures
        r == (if mux.focus_pos() < 0 {
            0
        } else {
            mux.panes@[mux.focus_pos()].handle
        }),
{
    let pid: i64 = mux_focus_pane_id(mux);
    if pid == 0 {
        return 0;
    }
    let pi: i64 = pane_index(mux, pid);
    if pi < 0 {
        return 0;
    }
    proof {
        lemma_pane_pos(mux.panes@, pid);
        assert(0 <= pi < mux.panes.len());
    }
    mux.panes[pi as usize].handle
}

/// Model key of the focused pane ("" = none).
pub fn mux_focus_key_inner(mux: &Mux) -> (r: String)
    requires
        mux.wf(),
    ensures
        r@ == (if mux.focus_pos() < 0 {
            Seq::<char>::empty()
        } else {
            mux.panes@[mux.focus_pos()].key@
        }),
{
    let pid: i64 = mux_focus_pane_id(mux);
    if pid == 0 {
        return String::new();
    }
    let pi: i64 = pane_index(mux, pid);
    if pi < 0 {
        return String::new();
    }
    proof {
        lemma_pane_pos(mux.panes@, pid);
        assert(0 <= pi < mux.panes.len());
    }
    mux.panes[pi as usize].key.clone()
}

/// Model key of the focused pane ("" = none).
pub fn mux_focus_key(mux: &Mux) -> (r: String)
    requires
        mux.wf(),
    ensures
        r@ == (if mux.focus_pos() < 0 {
            Seq::<char>::empty()
        } else {
            mux.panes@[mux.focus_pos()].key@
        }),
{
    mux_focus_key_inner(mux)
}

/// The focused pane of the active tab (0 = none).
pub fn mux_focus_id(mux: &Mux) -> (r: i64)
    requires
        mux.wf(),
    ensures
        r == mux.focus_pane(),
{
    mux_focus_pane_id(mux)
}

/// Ids of the panes of tab `tab`, in table order.
pub open spec fn pane_ids_of_tab(s: Seq<Pane>, tab: i64) -> Seq<i64>
    decreases s.len(),
{
    if s.len() == 0 {
        Seq::empty()
    } else {
        let r = pane_ids_of_tab(s.drop_last(), tab);
        if s.last().tab == tab {
            r.push(s.last().id)
        } else {
            r
        }
    }
}

impl Mux {
    /// The panes on screen: none without an active tab, only the zoomed
    /// pane while zoomed, else every pane of the active tab.
    pub open spec fn visible_ids(&self) -> Seq<i64> {
        if self.active_pos() < 0 {
            Seq::empty()
        } else if self.tabs@[self.active_pos()].zoomed_pane != 0 {
            seq![self.tabs@[self.active_pos()].zoomed_pane]
        } else {
            pane_ids_of_tab(self.panes@, self.active_tab)
        }
    }
}

/// The panes on screen (see [`Mux::visible_ids`]).
pub fn mux_visible_pane_ids(mux: &Mux) -> (out: Vec<i64>)
    requires
        mux.wf(),
    ensures
        out@ == mux.visible_ids(),
{
    let mut out: Vec<i64> = Vec::new();
    let ti: i64 = active_tab_index(mux);
    if ti < 0 {
        return out;
    }
    proof {
        lemma_tab_pos(mux.tabs@, mux.active_tab);
        assert(0 <= ti < mux.tabs.len());
    }
    let zoomed: i64 = mux.tabs[ti as usize].zoomed_pane;
    if zoomed != 0 {
        out.push(zoomed);
        proof {
            assert(out@ =~= seq![zoomed]);
        }
        return out;
    }
    let n: usize = mux.panes.len();
    let mut i: usize = 0;
    while i < n
        invariant
            n == mux.panes@.len(),
            i <= n,
            out@ == pane_ids_of_tab(mux.panes@.take(i as int), mux.active_tab),
        decreases n - i,
    {
        proof {
            assert(mux.panes@.take(i as int + 1).drop_last() =~= mux.panes@.take(i as int));
        }
        if mux.panes[i].tab == mux.active_tab {
            out.push(mux.panes[i].id);
        }
        i = i + 1;
    }
    proof {
        assert(mux.panes@.take(n as int) =~= mux.panes@);
    }
    out
}

/// Number of panes on screen.
pub fn mux_visible_pane_count(mux: &Mux) -> (r: i64)
    requires
        mux.wf(),
    ensures
        r == mux.visible_ids().len(),
        mux.active_pos() < 0 ==> r == 0,
        mux.active_pos() >= 0 ==> 1 <= r <= crate::mux::model::MAX_PANES,
{
    let v = mux_visible_pane_ids(mux);
    proof {
        lemma_pane_ids_of_tab_len(mux.panes@, mux.active_tab);
        crate::mux::model::lemma_tab_pos(mux.tabs@, mux.active_tab);
        if mux.active_pos() >= 0 {
            crate::mux::counts::lemma_tab_has_pane(mux, mux.active_pos());
        }
    }
    v.len() as i64
}

pub proof fn lemma_pane_ids_of_tab_len(s: Seq<Pane>, tab: i64)
    ensures
        pane_ids_of_tab(s, tab).len() <= s.len(),
    decreases s.len(),
{
    if s.len() > 0 {
        lemma_pane_ids_of_tab_len(s.drop_last(), tab);
    }
}

/// Focus pane `pane_id` in its tab: 1, or -1 when the pane (or its tab)
/// is unknown. When the pane's tab is the active one, it becomes the
/// focused pane of the workspace.
pub fn mux_focus(mux: &mut Mux, pane_id: i64) -> (r: i64)
    requires
        old(mux).wf(),
    ensures
        final(mux).wf(),
        focus_post(old(mux), final(mux), pane_id, r),
        final(mux).active_tab == old(mux).active_tab,
        r == 1 ==> (final(mux).focus_pane() == pane_id <==> old(mux).panes@[pane_pos(
            old(mux).panes@,
            pane_id,
        )].tab == old(mux).active_tab),
        r == -1 <==> pane_pos(old(mux).panes@, pane_id) < 0,
{
    let pi: i64 = pane_index(mux, pane_id);
    if pi < 0 {
        return -1;
    }
    proof {
        lemma_pane_pos(mux.panes@, pane_id);
        assert(0 <= pi < mux.panes.len());
    }
    let tab_id: i64 = mux.panes[pi as usize].tab;
    let ti: i64 = tab_index(mux, tab_id);
    if ti < 0 {
        return -1;
    }
    proof {
        lemma_tab_pos(mux.tabs@, tab_id);
        assert(0 <= ti < mux.tabs.len());
    }
    let mut t = mux.tabs[ti as usize];
    t.active_pane = pane_id;
    mux.tabs.set(ti as usize, t);
    proof {
        assert forall|i: int| #![auto] 0 <= i < mux.tabs@.len() implies mux.tabs@[i].id
            == old(mux).tabs@[i].id by {}
        lemma_tabs_same_ids(old(mux).tabs@, mux.tabs@);
        lemma_tab_pos(mux.tabs@, mux.active_tab);
        if mux.focus_pane() == pane_id {
            let ai = mux.active_pos();
            assert(mux.tabs@[ai].active_pane == pane_id);
            assert(mux.panes@[pane_pos(mux.panes@, pane_id)].tab == mux.tabs@[ai].id);
        }
    }
    1
}

/// Tables with the same ids in the same places answer every id lookup alike.
pub proof fn lemma_tabs_same_ids(a: Seq<Tab>, b: Seq<Tab>)
    requires
        a.len() == b.len(),
        forall|i: int| 0 <= i < a.len() ==> #[trigger] a[i].id == b[i].id,
    ensures
        forall|id: i64| #[trigger] tab_pos(a, id) == tab_pos(b, id),
    decreases a.len(),
{
    if a.len() > 0 {
        assert forall|i: int| 0 <= i < a.drop_last().len() implies #[trigger] a.drop_last()[i].id
            == b.drop_last()[i].id by {
            assert(a.drop_last()[i] == a[i]);
            assert(b.drop_last()[i] == b[i]);
        }
        lemma_tabs_same_ids(a.drop_last(), b.drop_last());
        assert forall|id: i64| #[trigger] tab_pos(a, id) == tab_pos(b, id) by {
            assert(a.last().id == b.last().id);
            assert(tab_pos(a.drop_last(), id) == tab_pos(b.drop_last(), id));
        }
    }
}

/// What [`mux_zoom`] does (see its doc comment).
pub open spec fn zoom_post(o: &Mux, f: &Mux, pane_id: i64, r: i64) -> bool {
    &&& (o.active_pos() < 0 ==> r == -1 && f.unchanged_from(o))
    &&& (o.active_pos() >= 0 ==> {
        let ti: int = o.active_pos();
        let was = o.tabs@[ti].zoomed_pane == pane_id;
        &&& r == (if was { 0i64 } else { 1i64 })
        &&& f.tabs@ == o.tabs@.update(ti, Tab { zoomed_pane: if was { 0 } else { pane_id }, ..o.tabs@[ti] })
        &&& f.panes@ == o.panes@
        &&& f.nodes@ == o.nodes@
        &&& f.active_tab == o.active_tab
        &&& f.next_pane_id == o.next_pane_id
        &&& f.next_tab_id == o.next_tab_id
        &&& f.next_node_id == o.next_node_id
        &&& f.layout_epoch == o.layout_epoch + 1
        &&& f.same_side_state(o)
    })
}

/// Toggle zoom of `pane_id` in the active tab: 1 = now zoomed, 0 = zoom
/// cleared (it was zoomed), -1 = no active tab.
pub fn mux_zoom(mux: &mut Mux, pane_id: i64) -> (r: i64)
    requires
        old(mux).wf(),
        old(mux).layout_epoch < i64::MAX,
    ensures
        final(mux).wf(),
        zoom_post(old(mux), final(mux), pane_id, r),
{
    let ti: i64 = active_tab_index(mux);
    if ti < 0 {
        return -1;
    }
    proof {
        lemma_tab_pos(mux.tabs@, mux.active_tab);
        assert(0 <= ti < mux.tabs.len());
    }
    let mut t = mux.tabs[ti as usize];
    let cur: i64 = t.zoomed_pane;
    if cur == pane_id {
        t.zoomed_pane = 0;
    } else {
        t.zoomed_pane = pane_id;
    }
    mux.tabs.set(ti as usize, t);
    proof {
        assert forall|i: int| #![auto] 0 <= i < mux.tabs@.len() implies mux.tabs@[i].id
            == old(mux).tabs@[i].id by {}
        lemma_tabs_same_ids(old(mux).tabs@, mux.tabs@);
    }
    bump_layout_epoch(mux);
    if cur == pane_id {
        0
    } else {
        1
    }
}

/// Activate tab `tab_id`: 1, or -1 when unknown.
pub fn mux_activate_tab(mux: &mut Mux, tab_id: i64) -> (r: i64)
    requires
        old(mux).wf(),
        old(mux).layout_epoch < i64::MAX,
    ensures
        final(mux).wf(),
        tab_pos(old(mux).tabs@, tab_id) < 0 ==> r == -1 && final(mux).unchanged_from(old(mux)),
        tab_pos(old(mux).tabs@, tab_id) >= 0 ==> {
            &&& r == 1
            &&& final(mux).active_tab == tab_id
            &&& final(mux).panes@ == old(mux).panes@
            &&& final(mux).tabs@ == old(mux).tabs@
            &&& final(mux).nodes@ == old(mux).nodes@
            &&& final(mux).next_pane_id == old(mux).next_pane_id
            &&& final(mux).next_tab_id == old(mux).next_tab_id
            &&& final(mux).next_node_id == old(mux).next_node_id
            &&& final(mux).layout_epoch == old(mux).layout_epoch + 1
            &&& final(mux).same_side_state(old(mux))
        },
{
    let ti: i64 = tab_index(mux, tab_id);
    if ti < 0 {
        return -1;
    }
    mux.active_tab = tab_id;
    bump_layout_epoch(mux);
    1
}

/// What [`mux_enqueue`] does: `(code, arg)` joins the back of the queue.
pub open spec fn enqueue_post(o: &Mux, f: &Mux, code: i64, arg: i64) -> bool {
    &&& f.act_codes@ == o.act_codes@.push(code)
    &&& f.act_args@ == o.act_args@.push(arg)
    &&& f.same_but_queue(o)
}

/// Queued actions are taken oldest first: after queueing `(code, arg)`,
/// the next action taken is the one at the head before, or this one on
/// an empty queue; either way it stays queued behind the rest.
pub proof fn lemma_queue_fifo(m0: Mux, m1: Mux, m2: Mux, code: i64, arg: i64, r: Option<(i64, i64)>)
    requires
        m0.act_codes@.len() == m0.act_args@.len(),
        enqueue_post(&m0, &m1, code, arg),
        pop_post(&m1, &m2, r),
    ensures
        m0.act_codes@.len() == 0 ==> r == Some((code, arg)) && m2.act_codes@.len() == 0,
        m0.act_codes@.len() > 0 ==> {
            &&& r == Some((m0.act_codes@[0], m0.act_args@[0]))
            &&& m2.act_codes@ == m0.act_codes@.drop_first().push(code)
            &&& m2.act_args@ == m0.act_args@.drop_first().push(arg)
        },
{
    if m0.act_codes@.len() > 0 {
        assert(m0.act_codes@.push(code).drop_first() =~= m0.act_codes@.drop_first().push(code));
        assert(m0.act_args@.push(arg).drop_first() =~= m0.act_args@.drop_first().push(arg));
    }
}

/// Queue a user action `(code, arg)` for the next tick; always 1.
/// Codes: 1 = new tab (arg = profile slot), 2 = split (arg = axis),
/// 3 = close the focused pane, 4 = zoom (arg = pane), 5 = activate tab,
/// 6 = close tab (arg = tab id).
pub fn mux_enqueue(mux: &mut Mux, code: i64, arg: i64) -> (r: i64)
    requires
        old(mux).wf(),
    ensures
        final(mux).wf(),
        r == 1,
        enqueue_post(old(mux), final(mux), code, arg),
{
    mux.act_codes.push(code);
    mux.act_args.push(arg);
    1
}

/// What [`mux_pop_action`] does (see its doc comment).
pub open spec fn pop_post(o: &Mux, f: &Mux, r: Option<(i64, i64)>) -> bool {
    &&& f.same_but_queue(o)
    &&& (o.act_codes@.len() == 0 || o.act_args@.len() == 0 ==> r is None && f.act_codes@ == o.act_codes@
        && f.act_args@ == o.act_args@)
    &&& (o.act_codes@.len() > 0 && o.act_args@.len() > 0 ==> {
        &&& r == Some((o.act_codes@[0], o.act_args@[0]))
        &&& f.act_codes@ == o.act_codes@.drop_first()
        &&& f.act_args@ == o.act_args@.drop_first()
    })
}

/// Take the oldest queued action `(code, arg)` (`None` = queue empty).
pub fn mux_pop_action(mux: &mut Mux) -> (r: Option<(i64, i64)>)
    requires
        old(mux).wf(),
    ensures
        final(mux).wf(),
        pop_post(old(mux), final(mux), r),
{
    if mux.act_codes.len() == 0 || mux.act_args.len() == 0 {
        return None;
    }
    let code: i64 = mux.act_codes[0];
    let arg: i64 = mux.act_args[0];
    let codes = list_remove_int(mux.act_codes.clone(), 0);
    let args = list_remove_int(mux.act_args.clone(), 0);
    mux.act_codes = codes;
    mux.act_args = args;
    proof {
        assert(old(mux).act_codes@.remove(0) =~= old(mux).act_codes@.drop_first());
        assert(old(mux).act_args@.remove(0) =~= old(mux).act_args@.drop_first());
    }
    Some((code, arg))
}


/// Queued actions taken per tick (a flood of them cannot starve the view).
pub const ACTIONS_PER_TICK: i64 = 8;

/// A queued action, decoded.
#[derive(Clone, Copy, Debug, PartialEq, Eq, Structural)]
pub enum MuxStep {
    /// Open a tab with the profile in this slot (0 = the default profile).
    NewTab(i64),
    /// Split the focused pane along this axis.
    Split(i64),
    /// Close this pane (the focused one when the action is taken).
    ClosePane(i64),
    /// Toggle zoom on this pane.
    Zoom(i64),
    /// Activate this tab.
    ActivateTab(i64),
    /// Close this tab.
    CloseTab(i64),
    /// An unknown code: nothing to do.
    Unknown,
}

/// How action `(code, arg)` reads when the focused pane is `focus`.
pub open spec fn step_of(code: i64, arg: i64, focus: i64) -> MuxStep {
    if code == 1 {
        MuxStep::NewTab(arg)
    } else if code == 2 {
        MuxStep::Split(arg)
    } else if code == 3 {
        MuxStep::ClosePane(focus)
    } else if code == 4 {
        MuxStep::Zoom(arg)
    } else if code == 5 {
        MuxStep::ActivateTab(arg)
    } else if code == 6 {
        MuxStep::CloseTab(arg)
    } else {
        MuxStep::Unknown
    }
}

/// Take the oldest queued action and decode it (`None` = queue empty).
pub fn mux_next_step(mux: &mut Mux) -> (r: Option<MuxStep>)
    requires
        old(mux).wf(),
    ensures
        final(mux).wf(),
        final(mux).same_but_queue(old(mux)),
        old(mux).act_codes@.len() == 0 || old(mux).act_args@.len() == 0 ==> r is None
            && final(mux).act_codes@ == old(mux).act_codes@ && final(mux).act_args@ == old(mux).act_args@,
        old(mux).act_codes@.len() > 0 && old(mux).act_args@.len() > 0 ==> {
            &&& r == Some(step_of(old(mux).act_codes@[0], old(mux).act_args@[0], old(mux).focus_pane()))
            &&& final(mux).act_codes@ == old(mux).act_codes@.drop_first()
            &&& final(mux).act_args@ == old(mux).act_args@.drop_first()
        },
{
    let focus: i64 = mux_focus_pane_id(mux);
    match mux_pop_action(mux) {
        None => None,
        Some((code, arg)) => {
            let step = if code == 1 {
                MuxStep::NewTab(arg)
            } else if code == 2 {
                MuxStep::Split(arg)
            } else if code == 3 {
                MuxStep::ClosePane(focus)
            } else if code == 4 {
                MuxStep::Zoom(arg)
            } else if code == 5 {
                MuxStep::ActivateTab(arg)
            } else if code == 6 {
                MuxStep::CloseTab(arg)
            } else {
                MuxStep::Unknown
            };
            Some(step)
        },
    }
}

} // verus!
