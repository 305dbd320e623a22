//! Divider dragging: the rectangle of a branch, and the settling of a
//! new split ratio (clamped to keep both children visible, snapped to the
//! middle when close to it).

use vstd::prelude::*;
use crate::mux::model::{
    Mux, Node, Tab, MAGNET_TARGET, MAGNET_THRESH, MIN_PANE, node_index, tab_index, node_pos,
    tab_pos, leaf_pos, lemma_node_pos, lemma_tab_pos, lemma_leaf_pos, leaf_node_of_pane,
    lemma_node_pos_unique,
};
use crate::mux::ops::bump_layout_epoch;
use crate::mux::counts::lemma_counts_ok_same;
use crate::mux::layout::{Area, first_part, second_part, root_area, lemma_split_in_unit, lemma_share};
use crate::mux::close::{parent_pos, lemma_parent_pos, find_parent};

verus! {

/// The depth-first search (last pushed, first visited) for node `target`
/// from stack `st`: a visited branch pushes its first then its second
/// child. Gives up after 512 visits or once the stack holds more than 256
/// entries.
pub open spec fn dfs_find(nodes: Seq<Node>, st: Seq<Area>, guard: int, target: i64) -> Option<Area>
    decreases 512 - guard,
{
    if guard < 0 || st.len() == 0 || guard >= 512 || st.len() > 256 {
        None
    } else {
        let it = st.last();
        let rest = st.drop_last();
        if it.id == target {
            Some(it)
        } else {
            let k = node_pos(nodes, it.id);
            if k >= 0 && nodes[k].pane == 0 {
                let n = nodes[k];
                dfs_find(
                    nodes,
                    rest.push(first_part(it, n.axis, n.ratio, n.first)).push(
                        second_part(it, n.axis, n.ratio, n.second),
                    ),
                    guard + 1,
                    target,
                )
            } else {
                dfs_find(nodes, rest, guard + 1, target)
            }
        }
    }
}

/// The rectangle of node `id` within its tab (the whole area when the
/// node, its tab, or a path to it is not found).
pub open spec fn node_rect(m: &Mux, id: i64) -> Area {
    let k = node_pos(m.nodes@, id);
    if k < 0 {
        root_area(id)
    } else {
        let ti = tab_pos(m.tabs@, m.nodes@[k].tab);
        if ti < 0 {
            root_area(id)
        } else {
            match dfs_find(m.nodes@, seq![root_area(m.tabs@[ti].root)], 0, id) {
                Some(a) => a,
                None => root_area(id),
            }
        }
    }
}

/// Rectangle of node `node_id`, found by walking its tab's tree.
fn rect_of_node(mux: &Mux, node_id: i64) -> (r: Area)
    requires
        mux.wf(),
    ensures
        r == node_rect(mux, node_id),
        r.in_unit(),
{
    let dflt = Area { id: node_id, axis: 0, x: 0, y: 0, w: 1000, h: 1000 };
    let ni: i64 = node_index(mux, node_id);
    proof {
        lemma_node_pos(mux.nodes@, node_id);
    }
    if ni < 0 {
        return dflt;
    }
    assert(0 <= ni < mux.nodes.len());
    let ti: i64 = tab_index(mux, mux.nodes[ni as usize].tab);
    proof {
        lemma_tab_pos(mux.tabs@, mux.nodes@[ni as int].tab);
    }
    if ti < 0 {
        return dflt;
    }
    assert(0 <= ti < mux.tabs.len());
    let mut st: Vec<Area> = Vec::new();
    st.push(Area { id: mux.tabs[ti as usize].root, axis: 0, x: 0, y: 0, w: 1000, h: 1000 });
    proof {
        assert(st@ =~= seq![root_area(mux.tabs@[ti as int].root)]);
    }
    let mut guard: usize = 0;
    while st.len() > 0 && guard < 512 && st.len() <= 256
        invariant
            mux.wf(),
            0 <= ni < mux.nodes@.len(),
            ni == node_pos(mux.nodes@, node_id),
            0 <= ti < mux.tabs@.len(),
            ti == tab_pos(mux.tabs@, mux.nodes@[ni as int].tab),
            guard <= 512,
            st@.len() <= 257,
            dfs_find(mux.nodes@, st@, guard as int, node_id) == dfs_find(
                mux.nodes@,
                seq![root_area(mux.tabs@[ti as int].root)],
                0,
                node_id,
            ),
            forall|i: int| 0 <= i < st@.len() ==> (#[trigger] st@[i]).in_unit(),
        decreases 512 - guard,
    {
        let ghost before = st@;
        guard = guard + 1;
        let it: Area = match st.pop() {
            Some(a) => a,
            None => dflt,
        };
        proof {
            assert(it == before.last());
            assert(st@ =~= before.drop_last());
            assert(it.in_unit());
        }
        if it.id == node_id {
            return it;
        }
        let ci: i64 = node_index(mux, it.id);
        proof {
            lemma_node_pos(mux.nodes@, it.id);
        }
        if ci >= 0 {
            assert(0 <= ci < mux.nodes.len());
            let nd: Node = mux.nodes[ci as usize];
            if nd.pane == 0 {
                proof {
                    assert(0 <= nd.ratio <= 1000);
                    lemma_share(it.w, nd.ratio);
                    lemma_share(it.h, nd.ratio);
                    lemma_split_in_unit(it, nd.id, nd.axis, nd.ratio, nd.first, nd.second);
                }
                let mut fw: i64 = it.w;
                let mut fh: i64 = it.h;
                let mut sx: i64 = it.x;
                let mut sy: i64 = it.y;
                let mut sw: i64 = it.w;
                let mut sh: i64 = it.h;
                if nd.axis == 1 {
                    fw = it.w * nd.ratio / 1000;
                    sx = it.x + fw;
                    sw = it.w - fw;
                } else {
                    fh = it.h * nd.ratio / 1000;
                    sy = it.y + fh;
                    sh = it.h - fh;
                }
                st.push(Area { id: nd.first, axis: 0, x: it.x, y: it.y, w: fw, h: fh });
                st.push(Area { id: nd.second, axis: 0, x: sx, y: sy, w: sw, h: sh });
                proof {
                    assert(st@[st@.len() - 2] == first_part(it, nd.axis, nd.ratio, nd.first));
                    assert(st@[st@.len() - 1] == second_part(it, nd.axis, nd.ratio, nd.second));
                }
            }
        }
    }
    dflt
}

/// Rust's integer division (rounds toward zero), for a positive divisor.
pub open spec fn trunc_div(a: int, b: int) -> int {
    if a >= 0 {
        a / b
    } else {
        -((-a) / b)
    }
}

/// A raw ratio clamped to [MIN_PANE, 1000 - MIN_PANE], then snapped to
/// MAGNET_TARGET when within MAGNET_THRESH of it.
pub open spec fn settle(raw: int) -> i64 {
    let c: int = if raw < MIN_PANE {
        MIN_PANE as int
    } else if raw > 1000 - MIN_PANE {
        1000 - MIN_PANE
    } else {
        raw
    };
    let d: int = if c < MAGNET_TARGET { MAGNET_TARGET - c } else { c - MAGNET_TARGET };
    if d <= MAGNET_THRESH {
        MAGNET_TARGET
    } else {
        c as i64
    }
}

/// The raw ratio that pointer position (`px`, `py`) asks of branch
/// `branch_id`; `None` when the id is unknown, names a leaf, or the
/// branch's rectangle has no extent along its axis.
pub open spec fn raw_ratio(m: &Mux, branch_id: i64, px: int, py: int) -> Option<int> {
    let k = node_pos(m.nodes@, branch_id);
    if k < 0 || m.nodes@[k].pane != 0 {
        None
    } else {
        let a = node_rect(m, branch_id);
        if m.nodes@[k].axis == 1 {
            if a.w <= 0 {
                None
            } else {
                Some(trunc_div((px - a.x) * 1000, a.w as int))
            }
        } else {
            if a.h <= 0 {
                None
            } else {
                Some(trunc_div((py - a.y) * 1000, a.h as int))
            }
        }
    }
}

/// What a resize of branch `branch_id` toward (`px`, `py`) leaves behind.
pub open spec fn resize_post(o: &Mux, f: &Mux, branch_id: i64, px: int, py: int, r: i64) -> bool {
    match raw_ratio(o, branch_id, px, py) {
        None => r == -1 && f.unchanged_from(o),
        Some(raw) => {
            let k = node_pos(o.nodes@, branch_id);
            &&& r == settle(raw)
            &&& f.nodes@ == o.nodes@.update(k, Node { ratio: r, ..o.nodes@[k] })
            &&& f.panes@ == o.panes@
            &&& f.tabs@ == o.tabs@
            &&& f.active_tab == o.active_tab
            &&& f.next_pane_id == o.next_pane_id
            &&& f.next_tab_id == o.next_tab_id
            &&& f.next_node_id == o.next_node_id
            &&& f.layout_epoch == o.layout_epoch + 1
            &&& f.same_side_state(o)
        },
    }
}

/// A drag measures the pointer from the start of the branch's own
/// rectangle, per mille of its extent along the branch's axis: a pointer
/// at `q` per mille of the way across the branch's rectangle (a point
/// that lands exactly on the per-mille grid) sets the ratio to
/// `settle(q)`. So the rectangle's start gives the smallest ratio, its
/// end the largest, and a point on the current divider keeps a settled
/// ratio there.
pub proof fn lemma_drag_measures_from_rect(o: &Mux, f: &Mux, b: i64, px: int, py: int, r: i64, q: int)
    requires
        resize_post(o, f, b, px, py, r),
        node_pos(o.nodes@, b) >= 0,
        o.nodes@[node_pos(o.nodes@, b)].pane == 0,
        0 <= q <= 1000,
    ensures
        ({
            let a = node_rect(o, b);
            let k = node_pos(o.nodes@, b);
            &&& (o.nodes@[k].axis == 1 && a.w > 0 && (a.w * q) % 1000 == 0 && px == a.x + a.w * q / 1000)
                ==> r == settle(q)
            &&& (o.nodes@[k].axis != 1 && a.h > 0 && (a.h * q) % 1000 == 0 && py == a.y + a.h * q / 1000)
                ==> r == settle(q)
        }),
{
    let a = node_rect(o, b);
    let k = node_pos(o.nodes@, b);
    if o.nodes@[k].axis == 1 && a.w > 0 && (a.w * q) % 1000 == 0 && px == a.x + a.w * q / 1000 {
        let w = a.w as int;
        assert((w * q / 1000) * 1000 == w * q) by (nonlinear_arith)
            requires
                (w * q) % 1000 == 0,
        ;
        assert((w * q) / w == q) by (nonlinear_arith)
            requires
                w > 0,
        ;
        assert(w * q >= 0) by (nonlinear_arith)
            requires
                w > 0,
                q >= 0,
        ;
        assert((px - a.x) * 1000 == w * q);
    }
    if o.nodes@[k].axis != 1 && a.h > 0 && (a.h * q) % 1000 == 0 && py == a.y + a.h * q / 1000 {
        let h = a.h as int;
        assert((h * q / 1000) * 1000 == h * q) by (nonlinear_arith)
            requires
                (h * q) % 1000 == 0,
        ;
        assert((h * q) / h == q) by (nonlinear_arith)
            requires
                h > 0,
        ;
        assert(h * q >= 0) by (nonlinear_arith)
            requires
                h > 0,
                q >= 0,
        ;
        assert((py - a.y) * 1000 == h * q);
    }
}

/// A settled ratio keeps both children at least MIN_PANE wide and is
/// either the magnet target or clear of its snapping band.
pub proof fn lemma_settle_range(raw: int)
    ensures
        MIN_PANE <= settle(raw) <= 1000 - MIN_PANE,
        settle(raw) == MAGNET_TARGET || settle(raw) < MAGNET_TARGET - MAGNET_THRESH
            || settle(raw) > MAGNET_TARGET + MAGNET_THRESH,
{
}

/// Settling is idempotent: a settled ratio settles to itself.
pub proof fn lemma_settle_idempotent(raw: int)
    ensures
        settle(settle(raw) as int) == settle(raw),
{
}

proof fn lemma_scaled_bounds(len: i64, ratio: i64)
    requires
        0 <= len <= 1000,
    ensures
        -0x8000_0000_0000_0000 * 1000 <= len * ratio <= 0x7fff_ffff_ffff_ffff * 1000,
        -0x8000_0000_0000_0000 <= trunc_div(len * ratio, 1000) <= 0x7fff_ffff_ffff_ffff,
{
    assert(-0x8000_0000_0000_0000 * 1000 <= len * ratio <= 0x7fff_ffff_ffff_ffff * 1000) by (nonlinear_arith)
        requires
            0 <= len <= 1000,
            -0x8000_0000_0000_0000 <= ratio <= 0x7fff_ffff_ffff_ffff,
    ;
}

fn trunc_div_i128(a: i128, b: i128) -> (r: i128)
    requires
        b > 0,
        -0x1_0000_0000_0000_0000_0000 < a < 0x1_0000_0000_0000_0000_0000,
    ensures
        r == trunc_div(a as int, b as int),
{
    if a >= 0 {
        a / b
    } else {
        -((-a) / b)
    }
}

fn resize_branch_at(mux: &mut Mux, branch_id: i64, px: i128, py: i128) -> (r: i64)
    requires
        old(mux).wf(),
        old(mux).layout_epoch < i64::MAX,
        -0x1_0000_0000_0000_0000 <= px <= 0x1_0000_0000_0000_0000,
        -0x1_0000_0000_0000_0000 <= py <= 0x1_0000_0000_0000_0000,
    ensures
        final(mux).wf(),
        resize_post(old(mux), final(mux), branch_id, px as int, py as int, r),
{
    let ni: i64 = node_index(mux, branch_id);
    proof {
        lemma_node_pos(mux.nodes@, branch_id);
    }
    if ni < 0 {
        return -1;
    }
    assert(0 <= ni < mux.nodes.len());
    if mux.nodes[ni as usize].pane != 0 {
        return -1;
    }
    let rect: Area = rect_of_node(mux, branch_id);
    let axis: i64 = mux.nodes[ni as usize].axis;
    let raw: i128;
    if axis == 1 {
        if rect.w <= 0 {
            return -1;
        }
        raw = trunc_div_i128((px - rect.x as i128) * 1000, rect.w as i128);
    } else {
        if rect.h <= 0 {
            return -1;
        }
        raw = trunc_div_i128((py - rect.y as i128) * 1000, rect.h as i128);
    }
    let mut c: i64;
    if raw < MIN_PANE as i128 {
        c = MIN_PANE;
    } else if raw > (1000 - MIN_PANE) as i128 {
        c = 1000 - MIN_PANE;
    } else {
        c = raw as i64;
    }
    let mut d: i64 = c - MAGNET_TARGET;
    if d < 0 {
        d = 0 - d;
    }
    if d <= MAGNET_THRESH {
        c = MAGNET_TARGET;
    }
    let mut nd: Node = mux.nodes[ni as usize];
    nd.ratio = c;
    mux.nodes.set(ni as usize, nd);
    bump_layout_epoch(mux);
    proof {
        let o = *old(mux);
        let nn = mux.nodes@;
        assert forall|a: int| 0 <= a < nn.len() implies (#[trigger] nn[a]).id == o.nodes@[a].id
            && nn[a].pane == o.nodes@[a].pane && nn[a].tab == o.nodes@[a].tab
            && nn[a].first == o.nodes@[a].first && nn[a].second == o.nodes@[a].second
            && 0 <= nn[a].ratio <= 1000 by {}
        assert forall|a: int| 0 <= a < nn.len() && #[trigger] nn[a].pane != 0 implies {
            &&& crate::mux::model::pane_pos(mux.panes@, nn[a].pane) >= 0
            &&& mux.panes@[crate::mux::model::pane_pos(mux.panes@, nn[a].pane)].tab == nn[a].tab
            &&& nn[a].first == 0
            &&& nn[a].second == 0
        } by {
            assert(o.nodes@[a].pane != 0);
        }
        assert forall|a: int, b: int|
            0 <= a < nn.len() && 0 <= b < nn.len() && a != b && nn[a].pane != 0
                implies #[trigger] nn[a].pane != #[trigger] nn[b].pane by {
            assert(o.nodes@[a].pane != o.nodes@[b].pane);
        }
        lemma_counts_ok_same(o.nodes@, nn, o.tabs@, mux.tabs@);
    }
    c
}

/// Drag branch `branch_id`'s divider to pointer position (`px`, `py`)
/// (per mille of the content area): the ratio becomes the pointer's
/// position along the branch axis within the branch's rectangle, settled
/// by [`settle`]. Returns the new ratio, or -1 when the id is unknown,
/// names a leaf, or the rectangle has no extent.
pub fn mux_resize_branch(mux: &mut Mux, branch_id: i64, px: i64, py: i64) -> (r: i64)
    requires
        old(mux).wf(),
        old(mux).layout_epoch < i64::MAX,
    ensures
        final(mux).wf(),
        resize_post(old(mux), final(mux), branch_id, px as int, py as int, r),
{
    resize_branch_at(mux, branch_id, px as i128, py as i128)
}

/// Set the ratio of the branch holding pane `pane_id`'s leaf to `ratio`
/// per mille (through the same settling as a drag). Returns the new
/// ratio, or -1 when the pane has no leaf or the leaf no parent branch.
pub fn mux_resize_pane(mux: &mut Mux, pane_id: i64, ratio: i64) -> (r: i64)
    requires
        old(mux).wf(),
        old(mux).layout_epoch < i64::MAX,
    ensures
        final(mux).wf(),
        ({
            let o = *old(mux);
            let lp = leaf_pos(o.nodes@, pane_id);
            if lp < 0 {
                r == -1 && final(mux).unchanged_from(&o)
            } else {
                let k = parent_pos(o.nodes@, o.nodes@[lp].id);
                if k < 0 {
                    r == -1 && final(mux).unchanged_from(&o)
                } else {
                    let branch = o.nodes@[k].id;
                    let a = node_rect(&o, branch);
                    resize_post(
                        &o,
                        final(mux),
                        branch,
                        a.x + trunc_div(a.w * ratio, 1000),
                        a.y + trunc_div(a.h * ratio, 1000),
                        r,
                    )
                }
            }
        }),
{
    let leaf: i64 = leaf_node_of_pane(mux, pane_id);
    proof {
        lemma_leaf_pos(mux.nodes@, pane_id);
    }
    if leaf == 0 {
        return -1;
    }
    let (branch, _sibling) = find_parent(mux, leaf);
    proof {
        lemma_parent_pos(mux.nodes@, leaf);
        let k = parent_pos(mux.nodes@, leaf);
        if k >= 0 {
            assert(mux.nodes@[k].id > 0);
        }
    }
    if branch == 0 {
        return -1;
    }
    let rect: Area = rect_of_node(mux, branch);
    proof {
        lemma_scaled_bounds(rect.w, ratio);
        lemma_scaled_bounds(rect.h, ratio);
    }
    let qx: i128 = trunc_div_i128(rect.w as i128 * ratio as i128, 1000);
    let qy: i128 = trunc_div_i128(rect.h as i128 * ratio as i128, 1000);
    let px: i128 = rect.x as i128 + qx;
    let py: i128 = rect.y as i128 + qy;
    resize_branch_at(mux, branch, px, py)
}

} // verus!
