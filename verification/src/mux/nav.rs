//! Directional focus navigation over the pane slots of the projection.

use vstd::prelude::*;
use crate::mux::model::{Mux, RectSlot, MAX_PANES};
use crate::mux::ops::{mux_focus, mux_focus_pane_id, focus_post};

verus! {

/// Number of pane slots that navigation looks at.
pub open spec fn nav_len(rects: Seq<RectSlot>) -> int {
    if rects.len() < MAX_PANES {
        rects.len() as int
    } else {
        MAX_PANES as int
    }
}

/// Horizontal centre of a slot.
pub open spec fn center_x(r: RectSlot) -> int {
    r.x + r.w / 2
}

/// Vertical centre of a slot.
pub open spec fn center_y(r: RectSlot) -> int {
    r.y + r.h / 2
}

/// The last of the first `n` slots that shows pane `cur` (-1 = none).
pub open spec fn cur_slot(rects: Seq<RectSlot>, cur: i64, n: int) -> int
    decreases n,
{
    if n <= 0 {
        -1
    } else if rects[n - 1].kind == 1 && rects[n - 1].pane == cur {
        n - 1
    } else {
        cur_slot(rects, cur, n - 1)
    }
}

/// Score of slot `i` as a move from slot `ci` in direction `d` (0 up,
/// 1 down, 2 left, 3 right): distance along the direction times 1000
/// plus the absolute cross distance; `None` when the slot does not lie
/// strictly in that direction.
pub open spec fn dir_score(rects: Seq<RectSlot>, ci: int, i: int, d: i64) -> Option<int> {
    let ox = center_x(rects[i]) - center_x(rects[ci]);
    let oy = center_y(rects[i]) - center_y(rects[ci]);
    let ax = if ox < 0 { -ox } else { ox };
    let ay = if oy < 0 { -oy } else { oy };
    if d == 0 && oy < 0 {
        Some(-oy * 1000 + ax)
    } else if d == 1 && oy > 0 {
        Some(oy * 1000 + ax)
    } else if d == 2 && ox < 0 {
        Some(-ox * 1000 + ay)
    } else if d == 3 && ox > 0 {
        Some(ox * 1000 + ay)
    } else {
        None
    }
}

/// The best target among the first `n` slots: (pane, score), with pane -1
/// while none qualifies; a later slot wins only with a strictly lower
/// score.
pub open spec fn best_target(rects: Seq<RectSlot>, ci: int, d: i64, n: int) -> (i64, int)
    decreases n,
{
    if n <= 0 {
        (-1i64, 0int)
    } else {
        let (b, bs) = best_target(rects, ci, d, n - 1);
        let i = n - 1;
        if i != ci && rects[i].kind == 1 && dir_score(rects, ci, i, d) is Some && (b < 0
            || dir_score(rects, ci, i, d)->0 < bs) {
            (rects[i].pane, dir_score(rects, ci, i, d)->0)
        } else {
            (b, bs)
        }
    }
}

/// The pane that focus moves to from the focused pane in direction `d`
/// (-1 = stay).
pub open spec fn nav_target(m: &Mux, d: i64) -> i64 {
    let n = nav_len(m.rects@);
    let ci = cur_slot(m.rects@, m.focus_pane(), n);
    if m.focus_pane() == 0 || ci < 0 {
        -1i64
    } else {
        best_target(m.rects@, ci, d, n).0
    }
}

/// Slot `r`'s centre lies strictly in direction `d` (0 up, 1 down, 2 left,
/// 3 right) from slot `c`'s centre.
pub open spec fn lies_toward(c: RectSlot, r: RectSlot, d: i64) -> bool {
    ||| d == 0 && r.y + r.h / 2 < c.y + c.h / 2
    ||| d == 1 && r.y + r.h / 2 > c.y + c.h / 2
    ||| d == 2 && r.x + r.w / 2 < c.x + c.w / 2
    ||| d == 3 && r.x + r.w / 2 > c.x + c.w / 2
}

/// How far slot `r` lies from slot `c` in direction `d`: the distance of
/// their centres along the direction, times 1000, plus the distance
/// across it.
pub open spec fn toward_distance(c: RectSlot, r: RectSlot, d: i64) -> int {
    let dx = (r.x + r.w / 2) - (c.x + c.w / 2);
    let dy = (r.y + r.h / 2) - (c.y + c.h / 2);
    let adx = if dx < 0 { -dx } else { dx };
    let ady = if dy < 0 { -dy } else { dy };
    if d == 0 || d == 1 {
        ady * 1000 + adx
    } else {
        adx * 1000 + ady
    }
}

proof fn lemma_dir_score_toward(rects: Seq<RectSlot>, ci: int, i: int, d: i64)
    ensures
        dir_score(rects, ci, i, d) is Some <==> lies_toward(rects[ci], rects[i], d),
        dir_score(rects, ci, i, d) is Some ==> dir_score(rects, ci, i, d)->0 == toward_distance(rects[ci], rects[i], d),
{
}

/// The best target among the first `n` slots is a pane slot other than
/// the current one that lies that way; and one is found whenever such a
/// slot exists (pane slots naming panes, which have non-negative ids).
proof fn lemma_best_target_toward(rects: Seq<RectSlot>, ci: int, d: i64, n: int)
    requires
        0 <= n <= rects.len(),
        forall|i: int| 0 <= i < n && (#[trigger] rects[i]).kind == 1 ==> rects[i].pane >= 0,
    ensures
        best_target(rects, ci, d, n).0 >= 0 ==> exists|i: int|
            0 <= i < n && i != ci && (#[trigger] rects[i]).kind == 1 && rects[i].pane == best_target(rects, ci, d, n).0
                && lies_toward(rects[ci], rects[i], d),
        (exists|i: int| 0 <= i < n && i != ci && (#[trigger] rects[i]).kind == 1 && lies_toward(rects[ci], rects[i], d))
            ==> best_target(rects, ci, d, n).0 >= 0,
        best_target(rects, ci, d, n).0 >= 0 ==> exists|i: int|
            0 <= i < n && i != ci && (#[trigger] rects[i]).kind == 1 && rects[i].pane == best_target(rects, ci, d, n).0
                && lies_toward(rects[ci], rects[i], d) && toward_distance(rects[ci], rects[i], d)
                == best_target(rects, ci, d, n).1,
        best_target(rects, ci, d, n).0 >= 0 ==> forall|j: int|
            0 <= j < n && j != ci && (#[trigger] rects[j]).kind == 1 && lies_toward(rects[ci], rects[j], d)
                ==> best_target(rects, ci, d, n).1 <= toward_distance(rects[ci], rects[j], d),
    decreases n,
{
    if n > 0 {
        lemma_best_target_toward(rects, ci, d, n - 1);
        let i = n - 1;
        lemma_dir_score_toward(rects, ci, i, d);
        let (b, bs) = best_target(rects, ci, d, n - 1);
        if best_target(rects, ci, d, n).0 >= 0 {
            if i != ci && rects[i].kind == 1 && dir_score(rects, ci, i, d) is Some && (b < 0
                || dir_score(rects, ci, i, d)->0 < bs) {
                assert(rects[i].pane == best_target(rects, ci, d, n).0);
                assert forall|j: int|
                    0 <= j < n && j != ci && (#[trigger] rects[j]).kind == 1 && lies_toward(rects[ci], rects[j], d)
                        implies best_target(rects, ci, d, n).1 <= toward_distance(rects[ci], rects[j], d) by {
                    lemma_dir_score_toward(rects, ci, j, d);
                    if j < n - 1 {
                        assert(b >= 0);
                    }
                }
            } else {
                let w = choose|w: int|
                    0 <= w < n - 1 && w != ci && (#[trigger] rects[w]).kind == 1 && rects[w].pane == b
                        && lies_toward(rects[ci], rects[w], d) && toward_distance(rects[ci], rects[w], d) == bs;
                assert(rects[w].pane == best_target(rects, ci, d, n).0);
                assert forall|j: int|
                    0 <= j < n && j != ci && (#[trigger] rects[j]).kind == 1 && lies_toward(rects[ci], rects[j], d)
                        implies best_target(rects, ci, d, n).1 <= toward_distance(rects[ci], rects[j], d) by {
                    lemma_dir_score_toward(rects, ci, j, d);
                }
            }
        }
        if exists|j: int| 0 <= j < n && j != ci && (#[trigger] rects[j]).kind == 1 && lies_toward(rects[ci], rects[j], d) {
            let j = choose|j: int| 0 <= j < n && j != ci && (#[trigger] rects[j]).kind == 1 && lies_toward(rects[ci], rects[j], d);
            if j < n - 1 {
                assert(b >= 0);
            }
        }
    }
}

/// Directional focus moves only the way asked: the pane it moves to sits
/// in a pane slot, other than the focused one's, whose centre lies
/// strictly in direction `d` (0 up, 1 down, 2 left, 3 right) from the
/// focused slot's centre, and no pane slot lying that way is nearer (by
/// distance along the direction, times 1000, plus distance across it).
/// And it does move whenever some pane slot lies that way (for pane
/// slots that name panes by non-negative ids).
pub proof fn lemma_nav_moves_toward(m: &Mux, d: i64)
    requires
        forall|i: int| 0 <= i < nav_len(m.rects@) && (#[trigger] m.rects@[i]).kind == 1 ==> m.rects@[i].pane >= 0,
    ensures
        ({
            let rs = m.rects@;
            let n = nav_len(rs);
            let ci = cur_slot(rs, m.focus_pane(), n);
            &&& nav_target(m, d) >= 0 ==> exists|i: int|
                0 <= i < n && i != ci && (#[trigger] rs[i]).kind == 1 && rs[i].pane == nav_target(m, d)
                    && lies_toward(rs[ci], rs[i], d) && forall|j: int|
                    0 <= j < n && j != ci && (#[trigger] rs[j]).kind == 1 && lies_toward(rs[ci], rs[j], d)
                        ==> toward_distance(rs[ci], rs[i], d) <= toward_distance(rs[ci], rs[j], d)
            &&& (m.focus_pane() != 0 && ci >= 0 && exists|i: int|
                0 <= i < n && i != ci && (#[trigger] rs[i]).kind == 1 && lies_toward(rs[ci], rs[i], d))
                ==> nav_target(m, d) >= 0
        }),
{
    let rs = m.rects@;
    let n = nav_len(rs);
    let ci = cur_slot(rs, m.focus_pane(), n);
    lemma_best_target_toward(rs, ci, d, n);
    if nav_target(m, d) >= 0 {
        let i = choose|i: int|
            0 <= i < n && i != ci && (#[trigger] rs[i]).kind == 1 && rs[i].pane == best_target(rs, ci, d, n).0
                && lies_toward(rs[ci], rs[i], d) && toward_distance(rs[ci], rs[i], d) == best_target(rs, ci, d, n).1;
        assert(rs[i].pane == nav_target(m, d));
    }
}

/// With a single slot on screen (a zoomed tab) there is no neighbour in
/// any direction.
pub proof fn lemma_single_slot_no_neighbour(m: &Mux, d: i64)
    requires
        m.rects@.len() <= 1,
    ensures
        nav_target(m, d) < 0,
{
    let n = nav_len(m.rects@);
    let ci = cur_slot(m.rects@, m.focus_pane(), n);
    if m.focus_pane() != 0 && ci >= 0 {
        assert(n == 1);
        assert(cur_slot(m.rects@, m.focus_pane(), 0) == -1);
        assert(ci == 0);
        assert(best_target(m.rects@, ci, d, 0).0 == -1);
    }
}

/// Move the focus to the nearest pane slot in direction `d` (0 up,
/// 1 down, 2 left, 3 right), judged by slot centres. Returns the result
/// of focusing that pane, or 0 when there is no focus or no neighbour
/// that way (a zoomed tab shows a single slot, so the focus stays).
pub fn mux_focus_dir(mux: &mut Mux, d: i64) -> (r: i64)
    requires
        old(mux).wf(),
    ensures
        final(mux).wf(),
        nav_target(old(mux), d) < 0 ==> r == 0 && final(mux).unchanged_from(old(mux)),
        nav_target(old(mux), d) >= 0 ==> focus_post(old(mux), final(mux), nav_target(old(mux), d), r),
{
    let cur: i64 = mux_focus_pane_id(mux);
    if cur == 0 {
        return 0;
    }
    let n: usize = if mux.rects.len() < 6 { mux.rects.len() } else { 6 };
    let mut ci: i64 = -1;
    let mut cx: i64 = 0;
    let mut cy: i64 = 0;
    let mut i: usize = 0;
    while i < n
        invariant
            n == nav_len(mux.rects@),
            i <= n,
            mux.wf(),
            ci == cur_slot(mux.rects@, cur, i as int),
            -1 <= ci < i,
            ci >= 0 ==> cx == center_x(mux.rects@[ci as int]) && cy == center_y(mux.rects@[ci as int]),
            ci >= 0 ==> 0 <= cx <= 1000 && 0 <= cy <= 1000,
        decreases n - i,
    {
        let s = &mux.rects[i];
        proof {
            assert(mux.rects@[i as int].in_unit());
        }
        if s.kind == 1 && s.pane == cur {
            ci = i as i64;
            cx = s.x + s.w / 2;
            cy = s.y + s.h / 2;
        }
        i = i + 1;
    }
    if ci < 0 {
        return 0;
    }
    let mut best: i64 = -1;
    let mut best_score: i64 = 0;
    i = 0;
    while i < n
        invariant
            n == nav_len(mux.rects@),
            i <= n,
            mux.wf(),
            0 <= ci < n,
            cx == center_x(mux.rects@[ci as int]),
            cy == center_y(mux.rects@[ci as int]),
            0 <= cx <= 1000,
            0 <= cy <= 1000,
            (best, best_score as int) == best_target(mux.rects@, ci as int, d, i as int),
        decreases n - i,
    {
        let s = &mux.rects[i];
        proof {
            assert(mux.rects@[i as int].in_unit());
        }
        if i as i64 != ci && s.kind == 1 {
            let ox: i64 = s.x + s.w / 2 - cx;
            let oy: i64 = s.y + s.h / 2 - cy;
            let mut ok: i64 = 0;
            let mut primary: i64 = 0;
            let mut cross: i64 = 0;
            if d == 0 && oy < 0 {
                ok = 1;
                primary = 0 - oy;
                cross = ox;
            }
            if d == 1 && oy > 0 {
                ok = 1;
                primary = oy;
                cross = ox;
            }
            if d == 2 && ox < 0 {
                ok = 1;
                primary = 0 - ox;
                cross = oy;
            }
            if d == 3 && ox > 0 {
                ok = 1;
                primary = ox;
                cross = oy;
            }
            if ok == 1 {
                if cross < 0 {
                    cross = 0 - cross;
                }
                let score: i64 = primary * 1000 + cross;
                if best < 0 || score < best_score {
                    best = s.pane;
                    best_score = score;
                }
            }
        }
        i = i + 1;
    }
    proof {
        assert(cur == old(mux).focus_pane());
    }
    if best >= 0 {
        return mux_focus(mux, best);
    }
    0
}

} // verus!
