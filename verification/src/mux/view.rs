//! Read-side queries of the multiplexer (tabs, slots, panes), and the
//! terminal-facing bookkeeping: viewport sizes, backlog readings, the
//! tick gate and typing-follows-focus.

use vstd::prelude::*;
use crate::mux::model::{
    Mux, Pane, Tab, RectSlot, MAX_PANES, pane_index, node_index, tab_index, pane_pos, node_pos,
    tab_pos, lemma_pane_pos, lemma_node_pos, lemma_tab_pos, contains_int, lemma_count_same_tabs,
};
use crate::mux::ops::{active_tab_index, mux_visible_pane_ids, lemma_tabs_same_ids, pane_ids_of_tab};
use crate::mux::layout::{rects_ready, slot_at, mux_rect_kind};
use crate::text::{int_decimal, push_decimal, push_str_chars, string_from_chars};

verus! {

/// Split axis of the active tab's root branch (-1 = no active tab, or
/// the root is a leaf or unknown).
pub open spec fn split_axis(m: &Mux) -> i64 {
    let ti = m.active_pos();
    if ti < 0 {
        -1i64
    } else {
        let ri = node_pos(m.nodes@, m.tabs@[ti].root);
        if ri < 0 || m.nodes@[ri].pane != 0 {
            -1i64
        } else {
            m.nodes@[ri].axis
        }
    }
}

/// Split axis of the active tab's root branch (see [`split_axis`]).
pub fn mux_split_axis(mux: &Mux) -> (r: i64)
    requires
        mux.wf(),
    ensures
        r == split_axis(mux),
{
    let ti: i64 = active_tab_index(mux);
    if ti < 0 {
        return -1;
    }
    proof {
        lemma_tab_pos(mux.tabs@, mux.active_tab);
        assert(0 <= ti < mux.tabs.len());
    }
    let root: i64 = mux.tabs[ti as usize].root;
    let ri: i64 = node_index(mux, root);
    proof {
        lemma_node_pos(mux.nodes@, root);
    }
    if ri < 0 {
        return -1;
    }
    assert(0 <= ri < mux.nodes.len());
    if mux.nodes[ri as usize].pane != 0 {
        return -1;
    }
    mux.nodes[ri as usize].axis
}

/// The pane slot that `slot` (1-based, values below 1 read as 1) names, if
/// it is a pane slot within the first `MAX_PANES`.
pub open spec fn pane_slot(rects: Seq<RectSlot>, slot: i64) -> Option<RectSlot> {
    let k: i64 = if slot < 1 { 1 } else { slot };
    if k > MAX_PANES {
        None
    } else {
        match slot_at(rects, k) {
            Some(s) => if s.kind == 1 { Some(s) } else { None },
            None => None,
        }
    }
}

/// Pane id shown in pane slot `slot` (0 = none).
pub fn mux_slot_pane_id(mux: &mut Mux, slot: i64) -> (r: i64)
    requires
        old(mux).wf(),
    ensures
        final(mux).wf(),
        final(mux).refreshed_from(old(mux)),
        r == (match pane_slot(final(mux).rects@, slot) {
            Some(s) => s.pane,
            None => 0,
        }),
{
    rects_ready(mux);
    let mut k: i64 = slot;
    if k < 1 {
        k = 1;
    }
    if k > MAX_PANES {
        return 0;
    }
    let ghost m1 = *mux;
    if mux_rect_kind(mux, k) == 1 {
        assert(mux.rects@ == m1.rects@);
        return mux.rects[(k - 1) as usize].pane;
    }
    0
}

/// Model key of the pane shown in pane slot `slot` ("" = none).
pub fn mux_slot_pane_key(mux: &mut Mux, slot: i64) -> (r: String)
    requires
        old(mux).wf(),
    ensures
        final(mux).wf(),
        final(mux).refreshed_from(old(mux)),
        r@ == (match pane_slot(final(mux).rects@, slot) {
            Some(s) => s.key@,
            None => Seq::<char>::empty(),
        }),
{
    rects_ready(mux);
    let mut k: i64 = slot;
    if k < 1 {
        k = 1;
    }
    if k > MAX_PANES {
        return String::new();
    }
    let ghost m1 = *mux;
    if mux_rect_kind(mux, k) == 1 {
        assert(mux.rects@ == m1.rects@);
        return mux.rects[(k - 1) as usize].key.clone();
    }
    String::new()
}

/// 1 while the active tab has a zoomed pane, else 0.
pub fn mux_zoom_active(mux: &Mux) -> (r: i64)
    requires
        mux.wf(),
    ensures
        r == (if mux.active_pos() >= 0 && mux.tabs@[mux.active_pos()].zoomed_pane != 0 {
            1i64
        } else {
            0i64
        }),
{
    let ti: i64 = active_tab_index(mux);
    if ti < 0 {
        return 0;
    }
    proof {
        lemma_tab_pos(mux.tabs@, mux.active_tab);
        assert(0 <= ti < mux.tabs.len());
    }
    if mux.tabs[ti as usize].zoomed_pane != 0 {
        return 1;
    }
    0
}

/// Number of tabs.
pub fn mux_tab_count(mux: &Mux) -> (r: i64)
    requires
        mux.wf(),
    ensures
        r == mux.tabs@.len(),
{
    mux.tabs.len() as i64
}

/// Id of the tab at position `i` (0 = out of range).
pub fn mux_tab_id_at(mux: &Mux, i: i64) -> (r: i64)
    requires
        mux.wf(),
    ensures
        r == (if 0 <= i < mux.tabs@.len() { mux.tabs@[i as int].id } else { 0 }),
{
    if i < 0 {
        return 0;
    }
    if i as u64 >= mux.tabs.len() as u64 {
        return 0;
    }
    mux.tabs[i as usize].id
}

/// 1 when the tab at position `i` is the active tab, else 0.
pub fn mux_tab_is_active_at(mux: &Mux, i: i64) -> (r: i64)
    requires
        mux.wf(),
    ensures
        r == (if 0 <= i < mux.tabs@.len() && mux.tabs@[i as int].id == mux.active_tab {
            1i64
        } else {
            0i64
        }),
{
    let id: i64 = mux_tab_id_at(mux, i);
    proof {
        if 0 <= i < mux.tabs@.len() {
            assert(mux.tabs@[i as int].id > 0);
        }
    }
    if id == 0 {
        return 0;
    }
    let n: usize = mux.tabs.len();
    assert(0 <= i < n);
    let ui: usize = i as usize;
    if mux.tabs[ui].id == mux.active_tab {
        return 1;
    }
    0
}

/// Title of the tab at position `i`: `shell <i + 1>`.
pub open spec fn tab_title(i: int) -> Seq<char> {
    seq!['s', 'h', 'e', 'l', 'l', ' '] + int_decimal(i + 1)
}

/// Title of the tab at position `i` (see [`tab_title`]).
pub fn mux_tab_title_at(i: i64) -> (r: String)
    requires
        i < i64::MAX,
    ensures
        r@ == tab_title(i as int),
{
    let mut v: Vec<char> = Vec::new();
    v.push('s');
    v.push('h');
    v.push('e');
    v.push('l');
    v.push('l');
    v.push(' ');
    push_decimal(i + 1, &mut v);
    proof {
        assert(v@ =~= tab_title(i as int));
    }
    string_from_chars(v.as_slice())
}

/// The tab-strip record of tab `t` at position `i`: `<id>|<1 if active
/// else 0>|<title>`.
pub open spec fn tab_record(t: Tab, i: int, active: i64) -> Seq<char> {
    int_decimal(t.id as int) + (if t.id == active {
        seq!['|', '1', '|']
    } else {
        seq!['|', '0', '|']
    }) + tab_title(i)
}

/// The tab strip, one record per tab (see [`tab_record`]).
pub fn mux_tabs(mux: &Mux) -> (out: Vec<String>)
    requires
        mux.wf(),
    ensures
        out@.len() == mux.tabs@.len(),
        forall|i: int| 0 <= i < out@.len() ==> (#[trigger] out@[i])@ == tab_record(mux.tabs@[i], i, mux.active_tab),
{
    let mut out: Vec<String> = Vec::new();
    let n: usize = mux.tabs.len();
    let mut i: usize = 0;
    while i < n
        invariant
            mux.wf(),
            n == mux.tabs@.len(),
            i <= n,
            out@.len() == i,
            forall|j: int| 0 <= j < i ==> (#[trigger] out@[j])@ == tab_record(mux.tabs@[j], j, mux.active_tab),
        decreases n - i,
    {
        let mut v: Vec<char> = Vec::new();
        push_decimal(mux.tabs[i].id, &mut v);
        v.push('|');
        if mux.tabs[i].id == mux.active_tab {
            v.push('1');
        } else {
            v.push('0');
        }
        v.push('|');
        let title = mux_tab_title_at(i as i64);
        let tv = crate::text::chars_of(title.as_str());
        let mut j: usize = 0;
        let ghost base = v@;
        while j < tv.len()
            invariant
                j <= tv@.len(),
                v@ == base + tv@.take(j as int),
            decreases tv@.len() - j,
        {
            proof {
                assert(tv@.take(j as int + 1) =~= tv@.take(j as int).push(tv@[j as int]));
            }
            v.push(tv[j]);
            j = j + 1;
        }
        proof {
            assert(tv@.take(tv@.len() as int) =~= tv@);
            assert(v@ =~= tab_record(mux.tabs@[i as int], i as int, mux.active_tab));
        }
        out.push(string_from_chars(v.as_slice()));
        i = i + 1;
    }
    out
}

/// Columns of pane `pane_id`'s viewport (100 when the pane is unknown).
pub fn mux_pane_cols(mux: &Mux, pane_id: i64) -> (r: i64)
    requires
        mux.wf(),
    ensures
        r == (if pane_pos(mux.panes@, pane_id) < 0 {
            100
        } else {
            mux.panes@[pane_pos(mux.panes@, pane_id)].cols
        }),
{
    let pi: i64 = pane_index(mux, pane_id);
    proof {
        lemma_pane_pos(mux.panes@, pane_id);
    }
    if pi < 0 {
        return 100;
    }
    assert(0 <= pi < mux.panes.len());
    mux.panes[pi as usize].cols
}

/// Rows of pane `pane_id`'s viewport (30 when the pane is unknown).
pub fn mux_pane_rows(mux: &Mux, pane_id: i64) -> (r: i64)
    requires
        mux.wf(),
    ensures
        r == (if pane_pos(mux.panes@, pane_id) < 0 {
            30
        } else {
            mux.panes@[pane_pos(mux.panes@, pane_id)].rows
        }),
{
    let pi: i64 = pane_index(mux, pane_id);
    proof {
        lemma_pane_pos(mux.panes@, pane_id);
    }
    if pi < 0 {
        return 30;
    }
    assert(0 <= pi < mux.panes.len());
    mux.panes[pi as usize].rows
}

/// Columns of the focused viewport.
pub fn term_cols(mux: &Mux) -> (r: i64)
    ensures
        r == mux.cols,
{
    mux.cols
}

/// Rows of the focused viewport.
pub fn term_rows(mux: &Mux) -> (r: i64)
    ensures
        r == mux.rows,
{
    mux.rows
}

/// Columns of the focused viewport.
pub fn mux_cols(mux: &Mux) -> (r: i64)
    ensures
        r == mux.cols,
{
    mux.cols
}

/// Rows of the focused viewport.
pub fn mux_rows(mux: &Mux) -> (r: i64)
    ensures
        r == mux.rows,
{
    mux.rows
}

/// Whether the focused session's shell has exited.
pub fn term_exited(mux: &Mux) -> (r: bool)
    ensures
        r == mux.exited,
{
    mux.exited
}

/// Backlog alerts seen so far.
pub fn term_backlog_alerts_total(mux: &Mux) -> (r: i64)
    ensures
        r == mux.bl_alerts_total,
{
    mux.bl_alerts_total
}

/// Pending output of the focused session at the last sample, in MiB.
pub fn term_backlog_pending_mb(mux: &Mux) -> (r: i64)
    ensures
        r == mux.bl_pending_mb,
{
    mux.bl_pending_mb
}

/// Whether the focused session's reader was paused at the last sample.
pub fn term_backlog_paused(mux: &Mux) -> (r: i64)
    ensures
        r == mux.bl_paused,
{
    mux.bl_paused
}

/// Output bytes the focused session had dropped at the last sample.
pub fn term_backlog_dropped(mux: &Mux) -> (r: i64)
    ensures
        r == mux.bl_dropped,
{
    mux.bl_dropped
}

/// One reading of a session's backlog counters.
#[derive(Clone, Copy, PartialEq, Eq, Structural, Debug)]
pub struct BacklogReading {
    /// Alerts raised since the previous reading.
    pub fresh: i64,
    pub pending_mb: i64,
    pub paused: i64,
    pub dropped: i64,
}

/// Record a backlog sample of the focused session (`None` when there is
/// no focused session): the fresh alerts are added to the running total
/// and the other counters replace the stored ones. Returns the number of
/// fresh alerts (0 without a reading).
pub fn term_backlog_sample(mux: &mut Mux, reading: Option<BacklogReading>) -> (r: i64)
    requires
        reading is Some ==> i64::MIN <= old(mux).bl_alerts_total + reading->0.fresh <= i64::MAX,
    ensures
        match reading {
            None => r == 0 && *final(mux) == *old(mux),
            Some(b) => {
                &&& r == b.fresh
                &&& final(mux).bl_alerts_total == old(mux).bl_alerts_total + b.fresh
                &&& final(mux).bl_pending_mb == b.pending_mb
                &&& final(mux).bl_paused == b.paused
                &&& final(mux).bl_dropped == b.dropped
                &&& *final(mux) == (Mux {
                    bl_alerts_total: final(mux).bl_alerts_total,
                    bl_pending_mb: b.pending_mb,
                    bl_paused: b.paused,
                    bl_dropped: b.dropped,
                    ..*old(mux)
                })
            },
        },
{
    match reading {
        None => 0,
        Some(b) => {
            mux.bl_alerts_total = mux.bl_alerts_total + b.fresh;
            mux.bl_pending_mb = b.pending_mb;
            mux.bl_paused = b.paused;
            mux.bl_dropped = b.dropped;
            b.fresh
        },
    }
}

/// Most reads of the focused pane that the first tick makes while its
/// session has not drawn any row yet.
pub const BOOT_READS: i64 = 400;

/// Whether the tick reads the focused pane's rows once more: only before
/// the workspace has booted, while no row has appeared, and for at most
/// `BOOT_READS` reads.
pub fn boot_read_again(mux: &Mux, tries: i64, have_rows: bool) -> (r: bool)
    ensures
        r == (!mux.booted && !have_rows && tries < BOOT_READS),
{
    !mux.booted && !have_rows && tries < BOOT_READS
}

/// Close a tick that reached the focused session: the workspace counts as
/// booted, and it records whether that session has exited.
pub fn finish_tick(mux: &mut Mux, exited: bool)
    requires
        old(mux).wf(),
    ensures
        final(mux).wf(),
        *final(mux) == (Mux { booted: true, exited, ..*old(mux) }),
{
    mux.booted = true;
    mux.exited = exited;
}

/// One step of the tick gate from tick counter `c` and last full tick `l`:
/// the new counter, the new last full tick, and whether a full refresh is
/// due.
pub open spec fn tick_step(c: int, l: int, scroll_pending: bool) -> (int, int, i64) {
    if c + 1 - l >= 3 || scroll_pending {
        (c + 1, c + 1, 1i64)
    } else {
        (c + 1, l, 0i64)
    }
}

/// Full refreshes come regularly. Starting at a full refresh, ticks
/// without pending scrolling answer 0, then 0, then 1, which is a full
/// refresh again. When the counter is not behind the last full tick, one
/// of the next three such ticks is full. A tick with pending scrolling is
/// full.
pub proof fn lemma_tick_refresh_cadence(c: int, l: int)
    ensures
        c == l ==> {
            let s1 = tick_step(c, l, false);
            let s2 = tick_step(s1.0, s1.1, false);
            let s3 = tick_step(s2.0, s2.1, false);
            &&& s1.2 == 0 && s2.2 == 0 && s3.2 == 1
            &&& s3.0 == s3.1
        },
        c >= l ==> {
            let s1 = tick_step(c, l, false);
            let s2 = tick_step(s1.0, s1.1, false);
            let s3 = tick_step(s2.0, s2.1, false);
            s1.2 == 1 || s2.2 == 1 || s3.2 == 1
        },
        tick_step(c, l, true).2 == 1,
{
}

/// Tick gate: a full refresh is due (1) on every third tick since the
/// last full one, or earlier when a visible pane has scrolling pending;
/// otherwise 0. Advances the tick counter.
pub fn tick_gate(mux: &mut Mux, scroll_pending: bool) -> (r: i64)
    requires
        old(mux).tick_counter < i64::MAX,
        old(mux).tick_counter + 1 - old(mux).last_full_tick <= i64::MAX,
        old(mux).tick_counter + 1 - old(mux).last_full_tick >= i64::MIN,
    ensures
        (final(mux).tick_counter as int, final(mux).last_full_tick as int, r) == tick_step(
            old(mux).tick_counter as int,
            old(mux).last_full_tick as int,
            scroll_pending,
        ),
        final(mux).tick_counter == old(mux).tick_counter + 1,
        r == (if final(mux).tick_counter - old(mux).last_full_tick >= 3 || scroll_pending {
            1i64
        } else {
            0i64
        }),
        final(mux).last_full_tick == (if r == 1 {
            final(mux).tick_counter
        } else {
            old(mux).last_full_tick
        }),
        *final(mux) == (Mux {
            tick_counter: final(mux).tick_counter,
            last_full_tick: final(mux).last_full_tick,
            ..*old(mux)
        }),
{
    mux.tick_counter = mux.tick_counter + 1;
    if mux.tick_counter - mux.last_full_tick >= 3 {
        mux.last_full_tick = mux.tick_counter;
        return 1;
    }
    if scroll_pending {
        mux.last_full_tick = mux.tick_counter;
        return 1;
    }
    0
}

/// Typing follows focus: pane `pid` becomes its tab's focus when it
/// belongs to the active tab. 0 without an active tab, else 1.
pub fn set_focus_if_active_tab(mux: &mut Mux, pid: i64) -> (r: i64)
    requires
        old(mux).wf(),
    ensures
        final(mux).wf(),
        r == (if old(mux).active_pos() < 0 { 0i64 } else { 1i64 }),
        final(mux).tabs@ == follow_focus(old(mux), pid),
        *final(mux) == (Mux { tabs: final(mux).tabs, ..*old(mux) }),
{
    let ti: i64 = active_tab_index(mux);
    if ti < 0 {
        return 0;
    }
    proof {
        lemma_tab_pos(mux.tabs@, mux.active_tab);
        assert(0 <= ti < mux.tabs.len());
    }
    let pi: i64 = pane_index(mux, pid);
    proof {
        lemma_pane_pos(mux.panes@, pid);
    }
    if pi >= 0 {
        assert(0 <= pi < mux.panes.len());
        if mux.panes[pi as usize].tab == mux.active_tab {
            let mut t = mux.tabs[ti as usize];
            t.active_pane = pid;
            mux.tabs.set(ti as usize, t);
            proof {
                assert forall|k: int| #![auto] 0 <= k < mux.tabs@.len() implies mux.tabs@[k].id
                    == old(mux).tabs@[k].id by {}
                lemma_tabs_same_ids(old(mux).tabs@, mux.tabs@);
            }
        }
    }
    1
}

/// The tab table after pane `pid` typed: it becomes the active tab's
/// focus when it belongs to the active tab.
pub open spec fn follow_focus(m: &Mux, pid: i64) -> Seq<Tab> {
    follow_focus_in(m.panes@, m.tabs@, m.active_tab, pid)
}

/// [`follow_focus`] over an explicit tab table.
pub open spec fn follow_focus_in(panes: Seq<Pane>, tabs: Seq<Tab>, active: i64, pid: i64) -> Seq<Tab> {
    let ti = if active == 0 { -1 } else { tab_pos(tabs, active) };
    let pi = pane_pos(panes, pid);
    if ti >= 0 && pi >= 0 && panes[pi].tab == active {
        tabs.update(ti, Tab { active_pane: pid, ..tabs[ti] })
    } else {
        tabs
    }
}

/// Sum of the positive entries of `counts`.
pub open spec fn pumped_total(counts: Seq<i64>) -> int
    decreases counts.len(),
{
    if counts.len() == 0 {
        0
    } else {
        pumped_total(counts.drop_last()) + (if counts.last() > 0 { counts.last() as int } else { 0 })
    }
}

/// The tab table after the panes `pids` typed `counts` keys each, in
/// order: each pane that typed anything takes the focus in turn.
pub open spec fn pump_focus(m: &Mux, pids: Seq<i64>, counts: Seq<i64>) -> Seq<Tab>
    decreases pids.len(),
{
    if pids.len() == 0 || counts.len() != pids.len() {
        m.tabs@
    } else {
        let before = pump_focus(m, pids.drop_last(), counts.drop_last());
        if counts.last() > 0 {
            follow_focus_in(m.panes@, before, m.active_tab, pids.last())
        } else {
            before
        }
    }
}

proof fn lemma_pumped_total_bound(counts: Seq<i64>)
    requires
        forall|i: int| 0 <= i < counts.len() ==> counts[i] <= 0x7fff_ffff,
    ensures
        0 <= pumped_total(counts) <= counts.len() * 0x7fff_ffff,
    decreases counts.len(),
{
    if counts.len() > 0 {
        lemma_pumped_total_bound(counts.drop_last());
    }
}

/// Record what the visible panes typed: `counts[i]` keys went from pane
/// `pids[i]` to its session. Panes that typed anything take their tab's
/// focus (in order). Returns the total number of keys.
pub fn term_pump_input(mux: &mut Mux, pids: &Vec<i64>, counts: &Vec<i64>) -> (r: i64)
    requires
        old(mux).wf(),
        pids@.len() == counts@.len(),
        pids@.len() < 0x1_0000_0000,
        forall|i: int| 0 <= i < counts@.len() ==> counts@[i] <= 0x7fff_ffff,
    ensures
        final(mux).wf(),
        r == pumped_total(counts@),
        final(mux).tabs@ == pump_focus(old(mux), pids@, counts@),
        *final(mux) == (Mux { tabs: final(mux).tabs, ..*old(mux) }),
{
    let mut total: i64 = 0;
    let n: usize = pids.len();
    let mut i: usize = 0;
    while i < n
        invariant
            mux.wf(),
            n == pids@.len(),
            n == counts@.len(),
            n < 0x1_0000_0000,
            i <= n,
            forall|j: int| 0 <= j < counts@.len() ==> counts@[j] <= 0x7fff_ffff,
            total == pumped_total(counts@.take(i as int)),
            mux.tabs@ == pump_focus(old(mux), pids@.take(i as int), counts@.take(i as int)),
            *mux == (Mux { tabs: mux.tabs, ..*old(mux) }),
        decreases n - i,
    {
        proof {
            assert(counts@.take(i as int + 1).drop_last() =~= counts@.take(i as int));
            assert(pids@.take(i as int + 1).drop_last() =~= pids@.take(i as int));
            lemma_pumped_total_bound(counts@.take(i as int));
            assert(forall|j: int| 0 <= j < counts@.take(i as int).len() ==> counts@.take(i as int)[j]
                == counts@[j]);
        }
        let c: i64 = counts[i];
        if c > 0 {
            total = total + c;
            let ghost before = *mux;
            set_focus_if_active_tab(mux, pids[i]);
            proof {
                assert(before == (Mux { tabs: before.tabs, ..*old(mux) }));
            }
        }
        i = i + 1;
    }
    proof {
        assert(counts@.take(n as int) =~= counts@);
        assert(pids@.take(n as int) =~= pids@);
    }
    total
}

/// Record the viewport a pane's session now has: the pane's size is
/// stored, and the focused size too when it is the focused pane. 0 when
/// the pane is unknown, else 1.
pub fn record_viewport(mux: &mut Mux, pane_id: i64, cols: i64, rows: i64) -> (r: i64)
    requires
        old(mux).wf(),
    ensures
        final(mux).wf(),
        ({
            let o = *old(mux);
            let pi = pane_pos(o.panes@, pane_id);
            if pi < 0 {
                r == 0 && *final(mux) == o
            } else {
                let is_focus = pane_id == o.focus_pane();
                &&& r == 1
                &&& final(mux).panes@.len() == o.panes@.len()
                &&& forall|j: int| 0 <= j < o.panes@.len() && j != pi ==> #[trigger] final(mux).panes@[j] == o.panes@[j]
                &&& final(mux).panes@[pi].cols == cols
                &&& final(mux).panes@[pi].rows == rows
                &&& final(mux).panes@[pi].id == o.panes@[pi].id
                &&& final(mux).panes@[pi].handle == o.panes@[pi].handle
                &&& final(mux).panes@[pi].key@ == o.panes@[pi].key@
                &&& final(mux).panes@[pi].tab == o.panes@[pi].tab
                &&& final(mux).panes@[pi].program@ == o.panes@[pi].program@
                &&& final(mux).panes@[pi].cwd@ == o.panes@[pi].cwd@
                &&& final(mux).panes@[pi].exited == o.panes@[pi].exited
                &&& final(mux).cols == (if is_focus { cols } else { o.cols })
                &&& final(mux).rows == (if is_focus { rows } else { o.rows })
                &&& *final(mux) == (Mux {
                    panes: final(mux).panes,
                    cols: final(mux).cols,
                    rows: final(mux).rows,
                    ..o
                })
            }
        }),
{
    let pi: i64 = pane_index(mux, pane_id);
    proof {
        lemma_pane_pos(mux.panes@, pane_id);
    }
    if pi < 0 {
        return 0;
    }
    assert(0 <= pi < mux.panes.len());
    let focus: i64 = crate::mux::ops::mux_focus_pane_id(mux);
    let mut p: Pane = mux.panes.remove(pi as usize);
    p.cols = cols;
    p.rows = rows;
    mux.panes.insert(pi as usize, p);
    if pane_id == focus {
        mux.cols = cols;
        mux.rows = rows;
    }
    proof {
        let o = *old(mux);
        let np = mux.panes@;
        assert forall|j: int| 0 <= j < np.len() implies (#[trigger] np[j]).id == o.panes@[j].id
            && np[j].tab == o.panes@[j].tab by {
            if j != pi {
                assert(np[j] == o.panes@[j]);
            }
        }
        assert forall|j: int| 0 <= j < np.len() implies 0 < #[trigger] np[j].id < mux.next_pane_id
            && tab_pos(mux.tabs@, np[j].tab) >= 0 by {
            assert(np[j].id == o.panes@[j].id);
        }
        assert forall|x: int, y: int| 0 <= x < y < np.len() implies np[x].id != np[y].id by {
            assert(np[x].id == o.panes@[x].id);
            assert(np[y].id == o.panes@[y].id);
        }
        assert forall|j: int| 0 <= j < mux.nodes@.len() && #[trigger] mux.nodes@[j].pane != 0 implies {
            &&& pane_pos(np, mux.nodes@[j].pane) >= 0
            &&& np[pane_pos(np, mux.nodes@[j].pane)].tab == mux.nodes@[j].tab
        } by {
            let id = mux.nodes@[j].pane;
            let k = pane_pos(o.panes@, id);
            lemma_pane_pos(o.panes@, id);
            assert(np[k].id == id);
            lemma_pane_pos_unique_view(np, id, k);
        }
        assert forall|t: i64| #[trigger] pane_ids_of_tab(np, t).len() <= MAX_PANES by {
            lemma_count_same_tabs(np, o.panes@, t);
        }
        crate::mux::model::lemma_focus_owned_same_panes(o.panes@, np, mux.tabs@, mux.next_pane_id);
        if mux.rect_cache_epoch == mux.layout_epoch {
            assert forall|j: int| 0 <= j < o.panes@.len() implies (#[trigger] np[j]).id == o.panes@[j].id
                && np[j].key@ == o.panes@[j].key@ by {
                if j != pi {
                    assert(np[j] == o.panes@[j]);
                }
            }
            crate::mux::layout::lemma_projection_same_keys(&o, &*mux, mux.rects@);
        }
    }
    1
}

proof fn lemma_pane_pos_unique_view(s: Seq<Pane>, id: i64, k: int)
    requires
        0 <= k < s.len(),
        s[k].id == id,
        forall|x: int, y: int| 0 <= x < y < s.len() ==> s[x].id != s[y].id,
    ensures
        pane_pos(s, id) == k,
{
    crate::mux::model::lemma_pane_pos_unique(s, id, k);
}

/// Engine handles of the panes that are not on screen (their output is
/// drained without being shown).
pub fn mux_invisible_handles(mux: &Mux) -> (out: Vec<i64>)
    requires
        mux.wf(),
    ensures
        out@ == invisible_handles(mux.panes@, mux.visible_ids()),
{
    let vis = mux_visible_pane_ids(mux);
    let mut out: Vec<i64> = Vec::new();
    let n: usize = mux.panes.len();
    let mut i: usize = 0;
    while i < n
        invariant
            n == mux.panes@.len(),
            i <= n,
            vis@ == mux.visible_ids(),
            out@ == invisible_handles(mux.panes@.take(i as int), vis@),
        decreases n - i,
    {
        proof {
            assert(mux.panes@.take(i as int + 1).drop_last() =~= mux.panes@.take(i as int));
        }
        if !contains_int(vis.clone(), mux.panes[i].id) {
            out.push(mux.panes[i].handle);
        }
        i = i + 1;
    }
    proof {
        assert(mux.panes@.take(n as int) =~= mux.panes@);
    }
    out
}

/// Handles of the panes whose id is not in `vis`, in table order.
pub open spec fn invisible_handles(s: Seq<Pane>, vis: Seq<i64>) -> Seq<i64>
    decreases s.len(),
{
    if s.len() == 0 {
        Seq::empty()
    } else {
        let r = invisible_handles(s.drop_last(), vis);
        if vis.contains(s.last().id) {
            r
        } else {
            r.push(s.last().handle)
        }
    }
}

} // verus!
