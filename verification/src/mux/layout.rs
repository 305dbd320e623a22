//! The slot projection of the active tab: a breadth-first walk of its
//! split tree that yields pane slots (padded to `MAX_PANES`) and divider
//! slots, in per-mille coordinates of the content area.

use vstd::prelude::*;
use crate::mux::model::{
    Mux, Node, Pane, RectSlot, MAX_PANES, node_index, pane_index, node_pos, pane_pos,
    lemma_node_pos, lemma_pane_pos, leaves_ok,
};
use crate::mux::ops::active_tab_index;

verus! {

/// A rectangle (per mille) tagged with a node, pane or branch id and, for
/// dividers, the split axis.
#[derive(Clone, Copy, PartialEq, Eq, Structural, Debug)]
pub struct Area {
    pub id: i64,
    pub axis: i64,
    pub x: i64,
    pub y: i64,
    pub w: i64,
    pub h: i64,
}

impl Area {
    /// The rectangle lies inside the unit square.
    pub open spec fn in_unit(self) -> bool {
        &&& 0 <= self.x
        &&& 0 <= self.w
        &&& self.x + self.w <= 1000
        &&& 0 <= self.y
        &&& 0 <= self.h
        &&& self.y + self.h <= 1000
    }
}

/// The share of `len` that the first child of a split at `ratio` gets.
pub open spec fn share(len: i64, ratio: i64) -> i64 {
    (len * ratio / 1000) as i64
}

/// The first child's rectangle when `a` is split along `axis` at `ratio`.
pub open spec fn first_part(a: Area, axis: i64, ratio: i64, child: i64) -> Area {
    if axis == 1 {
        Area { id: child, axis: 0, x: a.x, y: a.y, w: share(a.w, ratio), h: a.h }
    } else {
        Area { id: child, axis: 0, x: a.x, y: a.y, w: a.w, h: share(a.h, ratio) }
    }
}

/// The second child's rectangle when `a` is split along `axis` at `ratio`.
pub open spec fn second_part(a: Area, axis: i64, ratio: i64, child: i64) -> Area {
    if axis == 1 {
        Area {
            id: child,
            axis: 0,
            x: (a.x + share(a.w, ratio)) as i64,
            y: a.y,
            w: (a.w - share(a.w, ratio)) as i64,
            h: a.h,
        }
    } else {
        Area {
            id: child,
            axis: 0,
            x: a.x,
            y: (a.y + share(a.h, ratio)) as i64,
            w: a.w,
            h: (a.h - share(a.h, ratio)) as i64,
        }
    }
}

/// The zero-width (or zero-height) divider line of branch `id`.
pub open spec fn divider_of(a: Area, id: i64, axis: i64, ratio: i64) -> Area {
    if axis == 1 {
        Area { id, axis, x: (a.x + share(a.w, ratio)) as i64, y: a.y, w: 0, h: a.h }
    } else {
        Area { id, axis, x: a.x, y: (a.y + share(a.h, ratio)) as i64, w: a.w, h: 0 }
    }
}

/// The breadth-first walk from queue position `head`: each visited node
/// that is a leaf adds a pane slot, each branch adds a divider and queues
/// its two children; unknown ids are skipped. The walk stops when the
/// queue is exhausted, after 512 visits, or once the queue holds more than
/// 256 entries. Yields (pane slots, divider slots).
pub open spec fn bfs(nodes: Seq<Node>, q: Seq<Area>, head: int, ps: Seq<Area>, ds: Seq<Area>) -> (Seq<Area>, Seq<Area>)
    decreases 512 - head,
{
    if head < 0 || head >= q.len() || head >= 512 || q.len() > 256 {
        (ps, ds)
    } else {
        let it = q[head];
        let k = node_pos(nodes, it.id);
        if k < 0 {
            bfs(nodes, q, head + 1, ps, ds)
        } else if nodes[k].pane != 0 {
            bfs(nodes, q, head + 1, ps.push(Area { id: nodes[k].pane, axis: 0, ..it }), ds)
        } else {
            let n = nodes[k];
            bfs(
                nodes,
                q.push(first_part(it, n.axis, n.ratio, n.first)).push(
                    second_part(it, n.axis, n.ratio, n.second),
                ),
                head + 1,
                ps,
                ds.push(divider_of(it, n.id, n.axis, n.ratio)),
            )
        }
    }
}

/// The full content area, tagged with node `root`.
pub open spec fn root_area(root: i64) -> Area {
    Area { id: root, axis: 0, x: 0, y: 0, w: 1000, h: 1000 }
}

/// Pane and divider slots of the tree rooted at `root`.
pub open spec fn tree_slots(nodes: Seq<Node>, root: i64) -> (Seq<Area>, Seq<Area>) {
    bfs(nodes, seq![root_area(root)], 0, Seq::empty(), Seq::empty())
}

/// Slot `i` of the pane block: the `i`-th pane slot of `ps`, or an empty
/// slot past its end.
pub open spec fn pane_slot_ok(r: RectSlot, panes: Seq<Pane>, ps: Seq<Area>, i: int) -> bool {
    &&& r.branch == 0
    &&& r.axis == -1
    &&& if i < ps.len() {
        let a = ps[i];
        &&& r.kind == 1
        &&& r.pane == a.id
        &&& r.key@ == panes[pane_pos(panes, a.id)].key@
        &&& r.x == a.x
        &&& r.y == a.y
        &&& r.w == a.w
        &&& r.h == a.h
    } else {
        &&& r.kind == 0
        &&& r.pane == 0
        &&& r.key@ == Seq::<char>::empty()
        &&& r.x == 0
        &&& r.y == 0
        &&& r.w == 0
        &&& r.h == 0
    }
}

/// A divider slot for divider `a`.
pub open spec fn div_slot_ok(r: RectSlot, a: Area) -> bool {
    &&& r.kind == 2
    &&& r.pane == 0
    &&& r.key@ == Seq::<char>::empty()
    &&& r.branch == a.id
    &&& r.axis == a.axis
    &&& r.x == a.x
    &&& r.y == a.y
    &&& r.w == a.w
    &&& r.h == a.h
}

impl Mux {
    /// `rects` is the projection of this state: nothing without an active
    /// tab; one full-size pane slot while a pane is zoomed; otherwise
    /// `MAX_PANES` pane slots followed by one slot per divider.
    pub open spec fn is_projection(&self, rects: Seq<RectSlot>) -> bool {
        let ti = self.active_pos();
        if ti < 0 {
            rects.len() == 0
        } else {
            let t = self.tabs@[ti];
            if t.zoomed_pane != 0 {
                let zp = pane_pos(self.panes@, t.zoomed_pane);
                &&& rects.len() == 1
                &&& rects[0].kind == 1
                &&& rects[0].pane == t.zoomed_pane
                &&& rects[0].key@ == (if zp >= 0 {
                    self.panes@[zp].key@
                } else {
                    Seq::<char>::empty()
                })
                &&& rects[0].branch == 0
                &&& rects[0].axis == -1
                &&& rects[0].x == 0
                &&& rects[0].y == 0
                &&& rects[0].w == 1000
                &&& rects[0].h == 1000
            } else {
                let (ps, ds) = tree_slots(self.nodes@, t.root);
                &&& rects.len() == MAX_PANES + ds.len()
                &&& forall|i: int| 0 <= i < MAX_PANES ==> pane_slot_ok(#[trigger] rects[i], self.panes@, ps, i)
                &&& forall|j: int| 0 <= j < ds.len() ==> div_slot_ok(#[trigger] rects[MAX_PANES + j], ds[j])
            }
        }
    }
}

/// The first child's share never exceeds the whole.
pub proof fn lemma_share(len: i64, ratio: i64)
    requires
        0 <= len <= 1000,
        0 <= ratio <= 1000,
    ensures
        0 <= len * ratio <= 1_000_000,
        0 <= share(len, ratio) <= len,
{
    assert(0 <= len * ratio <= 1_000_000) by (nonlinear_arith)
        requires
            0 <= len <= 1000,
            0 <= ratio <= 1000,
    ;
    assert(len * ratio / 1000 <= len) by (nonlinear_arith)
        requires
            0 <= len <= 1000,
            0 <= ratio <= 1000,
    ;
}

/// Splitting a rectangle inside the unit square keeps both halves and the
/// divider inside it.
pub proof fn lemma_split_in_unit(a: Area, id: i64, axis: i64, ratio: i64, c1: i64, c2: i64)
    requires
        a.in_unit(),
        0 <= ratio <= 1000,
    ensures
        first_part(a, axis, ratio, c1).in_unit(),
        second_part(a, axis, ratio, c2).in_unit(),
        divider_of(a, id, axis, ratio).in_unit(),
{
    lemma_share(a.w, ratio);
    lemma_share(a.h, ratio);
}

/// A branch's divider lies on the edge its two children share: for a
/// side-by-side split (axis 1) at the first child's right edge, which is
/// the second child's left edge, spanning the branch's height; for a
/// stacked split at the first child's bottom edge, which is the second
/// child's top edge, spanning its width. The divider has no thickness.
pub proof fn lemma_divider_on_shared_edge(a: Area, id: i64, axis: i64, ratio: i64, c1: i64, c2: i64)
    requires
        a.in_unit(),
        0 <= ratio <= 1000,
    ensures
        ({
            let d = divider_of(a, id, axis, ratio);
            let f = first_part(a, axis, ratio, c1);
            let s = second_part(a, axis, ratio, c2);
            &&& d.id == id && d.axis == axis
            &&& axis == 1 ==> {
                &&& d.x == f.x + f.w && d.x == s.x
                &&& d.w == 0 && d.y == a.y && d.h == a.h
                &&& f.x == a.x && s.x + s.w == a.x + a.w
            }
            &&& axis != 1 ==> {
                &&& d.y == f.y + f.h && d.y == s.y
                &&& d.h == 0 && d.x == a.x && d.w == a.w
                &&& f.y == a.y && s.y + s.h == a.y + a.h
            }
        }),
{
    lemma_share(a.w, ratio);
    lemma_share(a.h, ratio);
}

/// Runs the breadth-first walk of `tree_slots` over the live node table.
fn collect_slots(mux: &Mux, root: i64) -> (r: (Vec<Area>, Vec<Area>))
    requires
        mux.wf(),
    ensures
        (r.0@, r.1@) == tree_slots(mux.nodes@, root),
        forall|i: int| 0 <= i < r.0@.len() ==> (#[trigger] r.0@[i]).in_unit(),
        forall|i: int| 0 <= i < r.1@.len() ==> (#[trigger] r.1@[i]).in_unit(),
        forall|i: int| 0 <= i < r.0@.len() ==> pane_pos(mux.panes@, (#[trigger] r.0@[i]).id) >= 0,
{
    let mut q: Vec<Area> = Vec::new();
    q.push(Area { id: root, axis: 0, x: 0, y: 0, w: 1000, h: 1000 });
    let mut ps: Vec<Area> = Vec::new();
    let mut ds: Vec<Area> = Vec::new();
    let mut head: usize = 0;
    proof {
        assert(q@ =~= seq![root_area(root)]);
    }
    while head < q.len() && head < 512 && q.len() <= 256
        invariant
            mux.wf(),
            head <= 512,
            q@.len() <= 258,
            bfs(mux.nodes@, q@, head as int, ps@, ds@) == tree_slots(mux.nodes@, root),
            forall|i: int| 0 <= i < q@.len() ==> (#[trigger] q@[i]).in_unit(),
            forall|i: int| 0 <= i < ps@.len() ==> (#[trigger] ps@[i]).in_unit(),
            forall|i: int| 0 <= i < ds@.len() ==> (#[trigger] ds@[i]).in_unit(),
            forall|i: int| 0 <= i < ps@.len() ==> pane_pos(mux.panes@, (#[trigger] ps@[i]).id) >= 0,
        decreases 512 - head,
    {
        let it: Area = q[head];
        head = head + 1;
        let ni: i64 = node_index(mux, it.id);
        proof {
            lemma_node_pos(mux.nodes@, it.id);
            assert(it.in_unit());
        }
        if ni >= 0 {
            assert(0 <= ni < mux.nodes.len());
            let nd: Node = mux.nodes[ni as usize];
            if nd.pane != 0 {
                ps.push(Area { id: nd.pane, axis: 0, x: it.x, y: it.y, w: it.w, h: it.h });
                proof {
                    assert(ps@.last() == Area { id: nd.pane, axis: 0, ..it });
                    assert(mux.nodes@[ni as int].pane != 0);
                }
            } else {
                proof {
                    assert(0 <= nd.ratio <= 1000);
                    lemma_share(it.w, nd.ratio);
                    lemma_share(it.h, nd.ratio);
                    lemma_split_in_unit(it, nd.id, nd.axis, nd.ratio, nd.first, nd.second);
                }
                let mut fw: i64 = it.w;
                let mut fh: i64 = it.h;
                let mut sx: i64 = it.x;
                let mut sy: i64 = it.y;
                let mut sw: i64 = it.w;
                let mut sh: i64 = it.h;
                let dv: Area;
                if nd.axis == 1 {
                    fw = it.w * nd.ratio / 1000;
                    sx = it.x + fw;
                    sw = it.w - fw;
                    dv = Area { id: nd.id, axis: nd.axis, x: it.x + fw, y: it.y, w: 0, h: it.h };
                } else {
                    fh = it.h * nd.ratio / 1000;
                    sy = it.y + fh;
                    sh = it.h - fh;
                    dv = Area { id: nd.id, axis: nd.axis, x: it.x, y: it.y + fh, w: it.w, h: 0 };
                }
                ds.push(dv);
                q.push(Area { id: nd.first, axis: 0, x: it.x, y: it.y, w: fw, h: fh });
                q.push(Area { id: nd.second, axis: 0, x: sx, y: sy, w: sw, h: sh });
                proof {
                    assert(dv == divider_of(it, nd.id, nd.axis, nd.ratio));
                    assert(q@[q@.len() - 2] == first_part(it, nd.axis, nd.ratio, nd.first));
                    assert(q@[q@.len() - 1] == second_part(it, nd.axis, nd.ratio, nd.second));
                }
            }
        }
    }
    (ps, ds)
}

impl Mux {
    /// Everything but the projection cache is as in `other`.
    pub open spec fn same_but_rects(&self, other: &Mux) -> bool {
        &&& self.panes@ == other.panes@
        &&& self.tabs@ == other.tabs@
        &&& self.nodes@ == other.nodes@
        &&& self.active_tab == other.active_tab
        &&& self.next_pane_id == other.next_pane_id
        &&& self.next_tab_id == other.next_tab_id
        &&& self.next_node_id == other.next_node_id
        &&& self.layout_epoch == other.layout_epoch
        &&& self.act_codes@ == other.act_codes@
        &&& self.act_args@ == other.act_args@
        &&& self.cols == other.cols
        &&& self.rows == other.rows
        &&& self.exited == other.exited
        &&& self.booted == other.booted
        &&& self.bl_alerts_total == other.bl_alerts_total
        &&& self.bl_pending_mb == other.bl_pending_mb
        &&& self.bl_paused == other.bl_paused
        &&& self.bl_dropped == other.bl_dropped
        &&& self.tick_counter == other.tick_counter
        &&& self.last_full_tick == other.last_full_tick
    }
}

fn blank_slot() -> (r: RectSlot)
    ensures
        r.kind == 0,
        r.pane == 0,
        r.key@ == Seq::<char>::empty(),
        r.branch == 0,
        r.axis == -1,
        r.x == 0,
        r.y == 0,
        r.w == 0,
        r.h == 0,
{
    RectSlot { kind: 0, pane: 0, key: String::new(), branch: 0, axis: -1, x: 0, y: 0, w: 0, h: 0 }
}

/// Recompute the projection of the active tab into `rects` and mark the
/// cache fresh. Returns 0 when there is no active tab, else 1.
pub fn rects_recompute(mux: &mut Mux) -> (r: i64)
    requires
        old(mux).wf(),
    ensures
        final(mux).wf(),
        old(mux).is_projection(final(mux).rects@),
        final(mux).rect_cache_epoch == old(mux).layout_epoch,
        final(mux).same_but_rects(old(mux)),
        r == (if old(mux).active_pos() < 0 { 0i64 } else { 1i64 }),
{
    let ghost o = *old(mux);
    let ti: i64 = active_tab_index(mux);
    if ti < 0 {
        mux.rects = Vec::new();
        mux.rect_cache_epoch = mux.layout_epoch;
        return 0;
    }
    proof {
        crate::mux::model::lemma_tab_pos(mux.tabs@, mux.active_tab);
        assert(0 <= ti < mux.tabs.len());
    }
    let zoomed: i64 = mux.tabs[ti as usize].zoomed_pane;
    if zoomed != 0 {
        let pi: i64 = pane_index(mux, zoomed);
        proof {
            lemma_pane_pos(mux.panes@, zoomed);
        }
        let key: String = if pi >= 0 {
            assert(0 <= pi < mux.panes.len());
            mux.panes[pi as usize].key.clone()
        } else {
            String::new()
        };
        let mut one: Vec<RectSlot> = Vec::new();
        one.push(RectSlot { kind: 1, pane: zoomed, key, branch: 0, axis: -1, x: 0, y: 0, w: 1000, h: 1000 });
        mux.rects = one;
        mux.rect_cache_epoch = mux.layout_epoch;
        return 1;
    }
    let root: i64 = mux.tabs[ti as usize].root;
    let (ps, ds) = collect_slots(mux, root);
    let mut out: Vec<RectSlot> = Vec::new();
    let mut i: usize = 0;
    while i < 6
        invariant
            mux.wf(),
            i <= 6,
            out@.len() == i,
            forall|j: int| 0 <= j < ps@.len() ==> pane_pos(mux.panes@, (#[trigger] ps@[j]).id) >= 0,
            forall|j: int| 0 <= j < ps@.len() ==> (#[trigger] ps@[j]).in_unit(),
            forall|j: int| 0 <= j < i ==> pane_slot_ok(#[trigger] out@[j], mux.panes@, ps@, j),
            forall|j: int| 0 <= j < i ==> (#[trigger] out@[j]).in_unit(),
        decreases 6 - i,
    {
        if i < ps.len() {
            let a: Area = ps[i];
            let pi: i64 = pane_index(mux, a.id);
            proof {
                lemma_pane_pos(mux.panes@, a.id);
                assert(pane_pos(mux.panes@, ps@[i as int].id) >= 0);
                assert(0 <= pi < mux.panes.len());
            }
            let key: String = mux.panes[pi as usize].key.clone();
            out.push(RectSlot { kind: 1, pane: a.id, key, branch: 0, axis: -1, x: a.x, y: a.y, w: a.w, h: a.h });
        } else {
            out.push(blank_slot());
        }
        i = i + 1;
    }
    let mut j: usize = 0;
    while j < ds.len()
        invariant
            out@.len() == 6 + j,
            j <= ds@.len(),
            forall|a: int| 0 <= a < 6 ==> pane_slot_ok(#[trigger] out@[a], mux.panes@, ps@, a),
            forall|a: int| 0 <= a < 6 ==> (#[trigger] out@[a]).in_unit(),
            forall|a: int| 0 <= a < ds@.len() ==> (#[trigger] ds@[a]).in_unit(),
            forall|a: int| 0 <= a < j ==> div_slot_ok(#[trigger] out@[6 + a], ds@[a]),
            forall|a: int| 6 <= a < 6 + j ==> (#[trigger] out@[a]).in_unit(),
        decreases ds@.len() - j,
    {
        let d: Area = ds[j];
        out.push(RectSlot { kind: 2, pane: 0, key: String::new(), branch: d.id, axis: d.axis, x: d.x, y: d.y, w: d.w, h: d.h });
        proof {
            assert(out@[6 + j as int].in_unit());
        }
        j = j + 1;
    }
    mux.rects = out;
    mux.rect_cache_epoch = mux.layout_epoch;
    proof {
        assert(mux.rects@.len() == MAX_PANES + ds@.len());
        assert forall|a: int| 0 <= a < mux.rects@.len() implies #[trigger] mux.rects@[a].in_unit() by {
            if a >= 6 {
                assert(out@[a].in_unit());
            }
        }
    }
    1
}

/// Every pane slot of the walk names an existing pane when every leaf does.
pub proof fn lemma_bfs_panes_exist(
    panes: Seq<Pane>,
    nodes: Seq<Node>,
    q: Seq<Area>,
    head: int,
    ps: Seq<Area>,
    ds: Seq<Area>,
)
    requires
        leaves_ok(panes, nodes),
        forall|i: int| 0 <= i < ps.len() ==> pane_pos(panes, (#[trigger] ps[i]).id) >= 0,
    ensures
        forall|i: int| 0 <= i < bfs(nodes, q, head, ps, ds).0.len()
            ==> pane_pos(panes, (#[trigger] bfs(nodes, q, head, ps, ds).0[i]).id) >= 0,
    decreases 512 - head,
{
    if head < 0 || head >= q.len() || head >= 512 || q.len() > 256 {
        assert(bfs(nodes, q, head, ps, ds) == (ps, ds));
    } else {
        let it = q[head];
        let k = node_pos(nodes, it.id);
        lemma_node_pos(nodes, it.id);
        if k < 0 {
            assert(bfs(nodes, q, head, ps, ds) == bfs(nodes, q, head + 1, ps, ds));
            lemma_bfs_panes_exist(panes, nodes, q, head + 1, ps, ds);
        } else if nodes[k].pane != 0 {
            let leaf = Area { id: nodes[k].pane, axis: 0, ..it };
            let ps2 = ps.push(leaf);
            assert forall|i: int| 0 <= i < ps2.len() implies pane_pos(panes, (#[trigger] ps2[i]).id) >= 0 by {
                if i < ps.len() {
                    assert(ps2[i] == ps[i]);
                }
            }
            assert(nodes[k].pane != 0);
            assert(pane_pos(panes, leaf.id) >= 0);
            assert(bfs(nodes, q, head, ps, ds) == bfs(nodes, q, head + 1, ps2, ds));
            lemma_bfs_panes_exist(panes, nodes, q, head + 1, ps2, ds);
        } else {
            let n = nodes[k];
            let q2 = q.push(first_part(it, n.axis, n.ratio, n.first)).push(second_part(it, n.axis, n.ratio, n.second));
            let ds2 = ds.push(divider_of(it, n.id, n.axis, n.ratio));
            assert(bfs(nodes, q, head, ps, ds) == bfs(nodes, q2, head + 1, ps, ds2));
            lemma_bfs_panes_exist(panes, nodes, q2, head + 1, ps, ds2);
        }
    }
}

/// The projection reads only the ids and keys of the panes: a pane table
/// that keeps both, position by position, keeps the projection.
pub proof fn lemma_projection_same_keys(a: &Mux, b: &Mux, rects: Seq<RectSlot>)
    requires
        a.is_projection(rects),
        leaves_ok(a.panes@, a.nodes@),
        b.tabs@ == a.tabs@,
        b.nodes@ == a.nodes@,
        b.active_tab == a.active_tab,
        b.panes@.len() == a.panes@.len(),
        forall|i: int| 0 <= i < a.panes@.len() ==> (#[trigger] b.panes@[i]).id == a.panes@[i].id
            && b.panes@[i].key@ == a.panes@[i].key@,
    ensures
        b.is_projection(rects),
{
    assert forall|id: i64| #[trigger] pane_pos(b.panes@, id) == pane_pos(a.panes@, id) by {
        crate::mux::model::lemma_pane_pos_same_ids(a.panes@, b.panes@, id);
    }
    let ti = a.active_pos();
    crate::mux::model::lemma_tab_pos(a.tabs@, a.active_tab);
    if ti >= 0 && a.tabs@[ti].zoomed_pane == 0 {
        let (ps, ds) = tree_slots(a.nodes@, a.tabs@[ti].root);
        lemma_bfs_panes_exist(a.panes@, a.nodes@, seq![root_area(a.tabs@[ti].root)], 0, Seq::empty(), Seq::empty());
        assert forall|i: int| 0 <= i < MAX_PANES implies pane_slot_ok(#[trigger] rects[i], b.panes@, ps, i) by {
            assert(pane_slot_ok(rects[i], a.panes@, ps, i));
            if i < ps.len() {
                lemma_pane_pos(a.panes@, ps[i].id);
                let k = pane_pos(a.panes@, ps[i].id);
                if k >= 0 {
                    assert(b.panes@[k].key@ == a.panes@[k].key@);
                }
            }
        }
    } else if ti >= 0 {
        let zp = pane_pos(a.panes@, a.tabs@[ti].zoomed_pane);
        lemma_pane_pos(a.panes@, a.tabs@[ti].zoomed_pane);
        if zp >= 0 {
            assert(b.panes@[zp].key@ == a.panes@[zp].key@);
        }
    }
}

impl Mux {
    /// `self` is `old` with the projection cache brought up to date: a
    /// stale cache is recomputed, a fresh one is left as it is.
    pub open spec fn refreshed_from(&self, old: &Mux) -> bool {
        if old.rect_cache_epoch != old.layout_epoch {
            &&& old.is_projection(self.rects@)
            &&& self.rect_cache_epoch == old.layout_epoch
            &&& self.same_but_rects(old)
        } else {
            &&& self.rects@ == old.rects@
            &&& self.rect_cache_epoch == old.rect_cache_epoch
            &&& self.same_but_rects(old)
        }
    }
}

/// Bring the projection cache up to date (recompute when the layout epoch
/// moved); always 1.
pub fn rects_ready(mux: &mut Mux) -> (r: i64)
    requires
        old(mux).wf(),
    ensures
        r == 1,
        final(mux).wf(),
        final(mux).refreshed_from(old(mux)),
{
    if mux.rect_cache_epoch != mux.layout_epoch {
        rects_recompute(mux);
    }
    1
}

/// Slot `k` (1-based) of the projection, if it exists.
pub open spec fn slot_at(rects: Seq<RectSlot>, k: i64) -> Option<RectSlot> {
    if 1 <= k <= rects.len() {
        Some(rects[k - 1])
    } else {
        None
    }
}

/// Position of slot `k` (1-based) in `rects`, if it exists.
fn rect_at(rects: &Vec<RectSlot>, k: i64) -> (r: Option<usize>)
    ensures
        r is Some <==> 1 <= k <= rects@.len(),
        r is Some ==> r->0 == k - 1,
{
    if k < 1 {
        return None;
    }
    if k as u64 > rects.len() as u64 {
        return None;
    }
    Some((k - 1) as usize)
}

/// Kind of slot `k` (0 = empty or out of range, 1 = pane, 2 = divider).
pub fn mux_rect_kind(mux: &mut Mux, k: i64) -> (r: i64)
    requires
        old(mux).wf(),
    ensures
        final(mux).wf(),
        final(mux).refreshed_from(old(mux)),
        r == (match slot_at(final(mux).rects@, k) {
            Some(s) => s.kind,
            None => 0,
        }),
{
    rects_ready(mux);
    match rect_at(&mux.rects, k) {
        Some(i) => mux.rects[i].kind,
        None => 0,
    }
}

/// Pane id of slot `k` (0 = none).
pub fn mux_rect_pane(mux: &mut Mux, k: i64) -> (r: i64)
    requires
        old(mux).wf(),
    ensures
        final(mux).wf(),
        final(mux).refreshed_from(old(mux)),
        r == (match slot_at(final(mux).rects@, k) {
            Some(s) => s.pane,
            None => 0,
        }),
{
    rects_ready(mux);
    match rect_at(&mux.rects, k) {
        Some(i) => mux.rects[i].pane,
        None => 0,
    }
}

/// Pane model key of slot `k` ("" = none).
pub fn mux_rect_key(mux: &mut Mux, k: i64) -> (r: String)
    requires
        old(mux).wf(),
    ensures
        final(mux).wf(),
        final(mux).refreshed_from(old(mux)),
        r@ == (match slot_at(final(mux).rects@, k) {
            Some(s) => s.key@,
            None => Seq::<char>::empty(),
        }),
{
    rects_ready(mux);
    match rect_at(&mux.rects, k) {
        Some(i) => mux.rects[i].key.clone(),
        None => String::new(),
    }
}

/// Branch id of divider slot `k` (0 = none).
pub fn mux_rect_branch(mux: &mut Mux, k: i64) -> (r: i64)
    requires
        old(mux).wf(),
    ensures
        final(mux).wf(),
        final(mux).refreshed_from(old(mux)),
        r == (match slot_at(final(mux).rects@, k) {
            Some(s) => s.branch,
            None => 0,
        }),
{
    rects_ready(mux);
    match rect_at(&mux.rects, k) {
        Some(i) => mux.rects[i].branch,
        None => 0,
    }
}

/// Split axis of divider slot `k` (-1 for pane slots, 0 out of range).
pub fn mux_rect_axis(mux: &mut Mux, k: i64) -> (r: i64)
    requires
        old(mux).wf(),
    ensures
        final(mux).wf(),
        final(mux).refreshed_from(old(mux)),
        r == (match slot_at(final(mux).rects@, k) {
            Some(s) => s.axis,
            None => 0,
        }),
{
    rects_ready(mux);
    match rect_at(&mux.rects, k) {
        Some(i) => mux.rects[i].axis,
        None => 0,
    }
}

/// Left edge of slot `k` (per mille).
pub fn mux_rect_x(mux: &mut Mux, k: i64) -> (r: i64)
    requires
        old(mux).wf(),
    ensures
        final(mux).wf(),
        final(mux).refreshed_from(old(mux)),
        r == (match slot_at(final(mux).rects@, k) {
            Some(s) => s.x,
            None => 0,
        }),
{
    rects_ready(mux);
    match rect_at(&mux.rects, k) {
        Some(i) => mux.rects[i].x,
        None => 0,
    }
}

/// Top edge of slot `k` (per mille).
pub fn mux_rect_y(mux: &mut Mux, k: i64) -> (r: i64)
    requires
        old(mux).wf(),
    ensures
        final(mux).wf(),
        final(mux).refreshed_from(old(mux)),
        r == (match slot_at(final(mux).rects@, k) {
            Some(s) => s.y,
            None => 0,
        }),
{
    rects_ready(mux);
    match rect_at(&mux.rects, k) {
        Some(i) => mux.rects[i].y,
        None => 0,
    }
}

/// Width of slot `k` (per mille).
pub fn mux_rect_w(mux: &mut Mux, k: i64) -> (r: i64)
    requires
        old(mux).wf(),
    ensures
        final(mux).wf(),
        final(mux).refreshed_from(old(mux)),
        r == (match slot_at(final(mux).rects@, k) {
            Some(s) => s.w,
            None => 0,
        }),
{
    rects_ready(mux);
    match rect_at(&mux.rects, k) {
        Some(i) => mux.rects[i].w,
        None => 0,
    }
}

/// Height of slot `k` (per mille).
pub fn mux_rect_h(mux: &mut Mux, k: i64) -> (r: i64)
    requires
        old(mux).wf(),
    ensures
        final(mux).wf(),
        final(mux).refreshed_from(old(mux)),
        r == (match slot_at(final(mux).rects@, k) {
            Some(s) => s.h,
            None => 0,
        }),
{
    rects_ready(mux);
    match rect_at(&mux.rects, k) {
        Some(i) => mux.rects[i].h,
        None => 0,
    }
}

/// The layout epoch: bumped on every structural change.
pub fn mux_layout_version(mux: &Mux) -> (r: i64)
    ensures
        r == mux.layout_epoch,
{
    mux.layout_epoch
}

} // verus!
