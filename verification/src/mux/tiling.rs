//! The layout tiles the content area: every split hands its two children
//! disjoint halves that together cover its own rectangle, so pane slots
//! never overlap and, for a complete tree, add up to the whole area.

use vstd::prelude::*;
use crate::mux::model::{Mux, Node, RectSlot, MAX_PANES, node_pos, lemma_node_pos, tab_pos, lemma_tab_pos};
use crate::mux::layout::{
    Area, bfs, share, pane_slot_ok, div_slot_ok, tree_slots, root_area, first_part, second_part, divider_of, lemma_share, lemma_split_in_unit,
};

verus! {

/// Two rectangles do not overlap: one of them is empty, or a vertical or
/// horizontal line separates them.
pub open spec fn apart(ax: int, ay: int, aw: int, ah: int, bx: int, by: int, bw: int, bh: int) -> bool {
    ||| aw <= 0
    ||| ah <= 0
    ||| bw <= 0
    ||| bh <= 0
    ||| ax + aw <= bx
    ||| bx + bw <= ax
    ||| ay + ah <= by
    ||| by + bh <= ay
}

/// Two areas do not overlap.
pub open spec fn areas_apart(a: Area, b: Area) -> bool {
    apart(a.x as int, a.y as int, a.w as int, a.h as int, b.x as int, b.y as int, b.w as int, b.h as int)
}

/// Two layout slots do not overlap.
pub open spec fn slots_apart(a: RectSlot, b: RectSlot) -> bool {
    apart(a.x as int, a.y as int, a.w as int, a.h as int, b.x as int, b.y as int, b.w as int, b.h as int)
}

/// `c` lies inside `p`.
pub open spec fn inside(c: Area, p: Area) -> bool {
    &&& p.x <= c.x
    &&& c.x + c.w <= p.x + p.w
    &&& p.y <= c.y
    &&& c.y + c.h <= p.y + p.h
    &&& 0 <= c.w
    &&& 0 <= c.h
}

/// What is inside a rectangle apart from another is apart from it too.
proof fn lemma_inside_apart(c: Area, p: Area, o: Area)
    requires
        inside(c, p),
        areas_apart(p, o),
    ensures
        areas_apart(c, o),
        areas_apart(o, c),
{
}

/// The halves of a split lie inside the split rectangle and apart.
proof fn lemma_split_halves(a: Area, axis: i64, ratio: i64, c1: i64, c2: i64)
    requires
        a.in_unit(),
        0 <= ratio <= 1000,
    ensures
        inside(first_part(a, axis, ratio, c1), a),
        inside(second_part(a, axis, ratio, c2), a),
        areas_apart(first_part(a, axis, ratio, c1), second_part(a, axis, ratio, c2)),
        first_part(a, axis, ratio, c1).in_unit(),
        second_part(a, axis, ratio, c2).in_unit(),
{
    lemma_share(a.w, ratio);
    lemma_share(a.h, ratio);
    lemma_split_in_unit(a, 0, axis, ratio, c1, c2);
}

/// The live areas of a walk: the queue from `head` on, and the pane
/// slots found so far, all inside the unit square and pairwise apart.
pub open spec fn walk_apart(q: Seq<Area>, head: int, ps: Seq<Area>) -> bool {
    &&& forall|i: int| head <= i < q.len() ==> (#[trigger] q[i]).in_unit()
    &&& forall|i: int| 0 <= i < ps.len() ==> (#[trigger] ps[i]).in_unit()
    &&& forall|i: int, j: int| head <= i < j < q.len() ==> areas_apart(#[trigger] q[i], #[trigger] q[j])
    &&& forall|i: int, j: int| 0 <= i < j < ps.len() ==> areas_apart(#[trigger] ps[i], #[trigger] ps[j])
    &&& forall|i: int, j: int| head <= i < q.len() && 0 <= j < ps.len() ==> areas_apart(
        #[trigger] q[i],
        #[trigger] ps[j],
    )
}

/// Split ratios within [0, 1000].
pub open spec fn ratios_ok(nodes: Seq<Node>) -> bool {
    forall|i: int| 0 <= i < nodes.len() ==> 0 <= #[trigger] nodes[i].ratio <= 1000
}

/// The walk keeps its live areas apart, so the pane slots it yields are
/// pairwise apart.
proof fn lemma_bfs_apart(nodes: Seq<Node>, q: Seq<Area>, head: int, ps: Seq<Area>, ds: Seq<Area>)
    requires
        ratios_ok(nodes),
        0 <= head,
        walk_apart(q, head, ps),
    ensures
        forall|i: int, j: int| 0 <= i < j < bfs(nodes, q, head, ps, ds).0.len() ==> areas_apart(
            #[trigger] bfs(nodes, q, head, ps, ds).0[i],
            #[trigger] bfs(nodes, q, head, ps, ds).0[j],
        ),
    decreases 512 - head,
{
    if head < 0 || head >= q.len() || head >= 512 || q.len() > 256 {
        assert(bfs(nodes, q, head, ps, ds) == (ps, ds));
    } else {
        let it = q[head];
        let k = node_pos(nodes, it.id);
        lemma_node_pos(nodes, it.id);
        if k < 0 {
            assert(bfs(nodes, q, head, ps, ds) == bfs(nodes, q, head + 1, ps, ds));
            lemma_bfs_apart(nodes, q, head + 1, ps, ds);
        } else if nodes[k].pane != 0 {
            let leaf = Area { id: nodes[k].pane, axis: 0, ..it };
            let ps2 = ps.push(leaf);
            assert(walk_apart(q, head + 1, ps2)) by {
                assert forall|i: int, j: int| 0 <= i < j < ps2.len() implies areas_apart(
                    #[trigger] ps2[i],
                    #[trigger] ps2[j],
                ) by {
                    if j == ps.len() {
                        assert(areas_apart(q[head], ps[i]));
                    }
                }
                assert forall|i: int, j: int| head + 1 <= i < q.len() && 0 <= j < ps2.len() implies areas_apart(
                    #[trigger] q[i],
                    #[trigger] ps2[j],
                ) by {
                    if j == ps.len() {
                        assert(areas_apart(q[head], q[i]));
                    }
                }
            }
            assert(bfs(nodes, q, head, ps, ds) == bfs(nodes, q, head + 1, ps2, ds));
            lemma_bfs_apart(nodes, q, head + 1, ps2, ds);
        } else {
            let n = nodes[k];
            assert(0 <= nodes[k].ratio <= 1000);
            let c1 = first_part(it, n.axis, n.ratio, n.first);
            let c2 = second_part(it, n.axis, n.ratio, n.second);
            lemma_split_halves(it, n.axis, n.ratio, n.first, n.second);
            let q2 = q.push(c1).push(c2);
            let len = q.len() as int;
            assert(q2[len] == c1);
            assert(q2[len + 1] == c2);
            assert forall|i: int| 0 <= i < len implies #[trigger] q2[i] == q[i] by {}
            assert(walk_apart(q2, head + 1, ps)) by {
                assert forall|i: int| head + 1 <= i < q2.len() implies (#[trigger] q2[i]).in_unit() by {
                    if i < len {
                        assert(q2[i] == q[i]);
                    }
                }
                assert forall|i: int, j: int| head + 1 <= i < j < q2.len() implies areas_apart(
                    #[trigger] q2[i],
                    #[trigger] q2[j],
                ) by {
                    if j < len {
                        assert(q2[i] == q[i] && q2[j] == q[j]);
                    } else if i < len {
                        assert(q2[i] == q[i]);
                        assert(areas_apart(q[head], q[i]));
                        if j == len {
                            lemma_inside_apart(c1, it, q[i]);
                        } else {
                            lemma_inside_apart(c2, it, q[i]);
                        }
                    } else {
                        assert(i == len && j == len + 1);
                    }
                }
                assert forall|i: int, j: int| head + 1 <= i < q2.len() && 0 <= j < ps.len() implies areas_apart(
                    #[trigger] q2[i],
                    #[trigger] ps[j],
                ) by {
                    if i < len {
                        assert(q2[i] == q[i]);
                    } else {
                        assert(areas_apart(q[head], ps[j]));
                        if i == len {
                            lemma_inside_apart(c1, it, ps[j]);
                        } else {
                            lemma_inside_apart(c2, it, ps[j]);
                        }
                    }
                }
            }
            let ds2 = ds.push(divider_of(it, n.id, n.axis, n.ratio));
            assert(bfs(nodes, q, head, ps, ds) == bfs(nodes, q2, head + 1, ps, ds2));
            lemma_bfs_apart(nodes, q2, head + 1, ps, ds2);
        }
    }
}

/// The pane slots of a tree's layout never overlap.
pub proof fn lemma_tree_slots_apart(nodes: Seq<Node>, root: i64)
    requires
        ratios_ok(nodes),
    ensures
        forall|i: int, j: int| 0 <= i < j < tree_slots(nodes, root).0.len() ==> areas_apart(
            #[trigger] tree_slots(nodes, root).0[i],
            #[trigger] tree_slots(nodes, root).0[j],
        ),
{
    let q = seq![root_area(root)];
    assert(q[0].in_unit());
    lemma_bfs_apart(nodes, q, 0, Seq::empty(), Seq::empty());
}

/// The area of a rectangle.
pub open spec fn area(a: Area) -> int {
    a.w * a.h
}

/// The total area of a list of rectangles.
pub open spec fn area_sum(s: Seq<Area>) -> int
    decreases s.len(),
{
    if s.len() == 0 {
        0
    } else {
        area(s[0]) + area_sum(s.subrange(1, s.len() as int))
    }
}

proof fn lemma_area_sum_concat(s: Seq<Area>, t: Seq<Area>)
    ensures
        area_sum(s + t) == area_sum(s) + area_sum(t),
    decreases s.len(),
{
    if s.len() == 0 {
        assert(s + t =~= t);
    } else {
        assert((s + t).subrange(1, (s + t).len() as int) =~= s.subrange(1, s.len() as int) + t);
        lemma_area_sum_concat(s.subrange(1, s.len() as int), t);
    }
}

proof fn lemma_area_sum_one(a: Area)
    ensures
        area_sum(seq![a]) == area(a),
{
    assert(seq![a].subrange(1, 1) =~= Seq::<Area>::empty());
    assert(area_sum(Seq::<Area>::empty()) == 0);
}

proof fn lemma_area_sum_push(s: Seq<Area>, a: Area)
    ensures
        area_sum(s.push(a)) == area_sum(s) + area(a),
{
    lemma_area_sum_concat(s, seq![a]);
    lemma_area_sum_one(a);
    assert(s.push(a) =~= s + seq![a]);
}

/// The two halves of a split cover exactly the split rectangle.
proof fn lemma_split_area(a: Area, axis: i64, ratio: i64, c1: i64, c2: i64)
    requires
        a.in_unit(),
        0 <= ratio <= 1000,
    ensures
        area(first_part(a, axis, ratio, c1)) + area(second_part(a, axis, ratio, c2)) == area(a),
{
    lemma_share(a.w, ratio);
    lemma_share(a.h, ratio);
    let sw = share(a.w, ratio) as int;
    let sh = share(a.h, ratio) as int;
    let w = a.w as int;
    let h = a.h as int;
    assert(sw * h + (w - sw) * h == w * h) by (nonlinear_arith);
    assert(w * sh + w * (h - sh) == w * h) by (nonlinear_arith);
}

/// The walk from `head` reaches only nodes that exist and runs until the
/// queue is exhausted, without hitting its visit or queue limits.
pub open spec fn walk_whole(nodes: Seq<Node>, q: Seq<Area>, head: int) -> bool
    decreases 512 - head,
{
    if head < 0 {
        false
    } else if head >= q.len() {
        true
    } else if head >= 512 || q.len() > 256 {
        false
    } else {
        let it = q[head];
        let k = node_pos(nodes, it.id);
        if k < 0 {
            false
        } else if nodes[k].pane != 0 {
            walk_whole(nodes, q, head + 1)
        } else {
            let n = nodes[k];
            walk_whole(
                nodes,
                q.push(first_part(it, n.axis, n.ratio, n.first)).push(
                    second_part(it, n.axis, n.ratio, n.second),
                ),
                head + 1,
            )
        }
    }
}

/// A complete walk hands on all the area still queued to its pane slots.
proof fn lemma_bfs_area(nodes: Seq<Node>, q: Seq<Area>, head: int, ps: Seq<Area>, ds: Seq<Area>)
    requires
        ratios_ok(nodes),
        walk_whole(nodes, q, head),
        head <= q.len(),
        forall|i: int| 0 <= head <= i < q.len() ==> (#[trigger] q[i]).in_unit(),
    ensures
        area_sum(bfs(nodes, q, head, ps, ds).0) == area_sum(ps) + area_sum(q.subrange(head, q.len() as int)),
    decreases 512 - head,
{
    if head >= q.len() {
        assert(q.subrange(head, q.len() as int) =~= Seq::<Area>::empty());
        assert(bfs(nodes, q, head, ps, ds) == (ps, ds));
    } else {
        let it = q[head];
        let k = node_pos(nodes, it.id);
        lemma_node_pos(nodes, it.id);
        let rest = q.subrange(head + 1, q.len() as int);
        assert(q.subrange(head, q.len() as int).subrange(1, q.len() - head) =~= rest);
        assert(area_sum(q.subrange(head, q.len() as int)) == area(it) + area_sum(rest));
        if nodes[k].pane != 0 {
            let leaf = Area { id: nodes[k].pane, axis: 0, ..it };
            assert(bfs(nodes, q, head, ps, ds) == bfs(nodes, q, head + 1, ps.push(leaf), ds));
            lemma_area_sum_push(ps, leaf);
            lemma_bfs_area(nodes, q, head + 1, ps.push(leaf), ds);
        } else {
            let n = nodes[k];
            assert(0 <= nodes[k].ratio <= 1000);
            let c1 = first_part(it, n.axis, n.ratio, n.first);
            let c2 = second_part(it, n.axis, n.ratio, n.second);
            lemma_split_halves(it, n.axis, n.ratio, n.first, n.second);
            lemma_split_area(it, n.axis, n.ratio, n.first, n.second);
            let q2 = q.push(c1).push(c2);
            let len = q.len() as int;
            let ds2 = ds.push(divider_of(it, n.id, n.axis, n.ratio));
            assert(bfs(nodes, q, head, ps, ds) == bfs(nodes, q2, head + 1, ps, ds2));
            assert forall|i: int| 0 <= head + 1 <= i < q2.len() implies (#[trigger] q2[i]).in_unit() by {
                if i < len {
                    assert(q2[i] == q[i]);
                }
            }
            assert(q2.subrange(head + 1, q2.len() as int) =~= rest + seq![c1].push(c2));
            lemma_area_sum_concat(rest, seq![c1].push(c2));
            lemma_area_sum_push(seq![c1], c2);
            lemma_area_sum_one(c1);
            lemma_bfs_area(nodes, q2, head + 1, ps, ds2);
        }
    }
}

/// When the split tree is complete (every node it names exists and it
/// stays within the walk's limits), its pane slots cover the whole
/// content area: their areas add up to 1000 x 1000.
pub proof fn lemma_tree_slots_fill(nodes: Seq<Node>, root: i64)
    requires
        ratios_ok(nodes),
        walk_whole(nodes, seq![root_area(root)], 0),
    ensures
        area_sum(tree_slots(nodes, root).0) == 1_000_000,
{
    let q = seq![root_area(root)];
    assert(q[0].in_unit());
    lemma_bfs_area(nodes, q, 0, Seq::empty(), Seq::empty());
    assert(q.subrange(0, 1) =~= q);
    lemma_area_sum_one(root_area(root));
    assert(area_sum(Seq::<Area>::empty()) == 0);
}

/// A complete walk yields one pane slot more than dividers for each
/// queued entry: every leaf takes one entry off the queue, every branch
/// adds one.
proof fn lemma_bfs_counts(nodes: Seq<Node>, q: Seq<Area>, head: int, ps: Seq<Area>, ds: Seq<Area>)
    requires
        walk_whole(nodes, q, head),
        head <= q.len(),
    ensures
        bfs(nodes, q, head, ps, ds).0.len() - ps.len() == bfs(nodes, q, head, ps, ds).1.len() - ds.len()
            + (q.len() - head),
    decreases 512 - head,
{
    if head >= q.len() {
        assert(bfs(nodes, q, head, ps, ds) == (ps, ds));
    } else {
        let it = q[head];
        let k = node_pos(nodes, it.id);
        lemma_node_pos(nodes, it.id);
        if nodes[k].pane != 0 {
            let leaf = Area { id: nodes[k].pane, axis: 0, ..it };
            assert(bfs(nodes, q, head, ps, ds) == bfs(nodes, q, head + 1, ps.push(leaf), ds));
            lemma_bfs_counts(nodes, q, head + 1, ps.push(leaf), ds);
        } else {
            let n = nodes[k];
            let q2 = q.push(first_part(it, n.axis, n.ratio, n.first)).push(second_part(it, n.axis, n.ratio, n.second));
            let ds2 = ds.push(divider_of(it, n.id, n.axis, n.ratio));
            assert(bfs(nodes, q, head, ps, ds) == bfs(nodes, q2, head + 1, ps, ds2));
            lemma_bfs_counts(nodes, q2, head + 1, ps, ds2);
        }
    }
}

/// A complete tree has one divider fewer than panes.
pub proof fn lemma_tree_slots_counts(nodes: Seq<Node>, root: i64)
    requires
        walk_whole(nodes, seq![root_area(root)], 0),
    ensures
        tree_slots(nodes, root).0.len() == tree_slots(nodes, root).1.len() + 1,
{
    lemma_bfs_counts(nodes, seq![root_area(root)], 0, Seq::empty(), Seq::empty());
}

/// The projection of a complete tree with `n` panes (at most
/// `MAX_PANES`): pane slots first, then empty slots, then `n - 1`
/// divider slots.
pub proof fn lemma_pane_slots_dividers(m: &Mux, rects: Seq<RectSlot>)
    requires
        m.wf(),
        m.is_projection(rects),
        m.active_pos() >= 0,
        m.tabs@[m.active_pos()].zoomed_pane == 0,
        walk_whole(m.nodes@, seq![root_area(m.tabs@[m.active_pos()].root)], 0),
        tree_slots(m.nodes@, m.tabs@[m.active_pos()].root).0.len() <= MAX_PANES,
    ensures
        ({
            let n = tree_slots(m.nodes@, m.tabs@[m.active_pos()].root).0.len() as int;
            &&& 1 <= n
            &&& rects.len() == MAX_PANES + n - 1
            &&& forall|i: int| 0 <= i < n ==> (#[trigger] rects[i]).kind == 1
            &&& forall|i: int| n <= i < MAX_PANES ==> (#[trigger] rects[i]).kind == 0
            &&& forall|i: int| MAX_PANES <= i < rects.len() ==> (#[trigger] rects[i]).kind == 2
        }),
{
    let ti = m.active_pos();
    lemma_tab_pos(m.tabs@, m.active_tab);
    let (ps, ds) = tree_slots(m.nodes@, m.tabs@[ti].root);
    lemma_tree_slots_counts(m.nodes@, m.tabs@[ti].root);
    assert forall|i: int| 0 <= i < MAX_PANES implies #[trigger] rects[i].kind == (if i < ps.len() { 1int } else { 0int }) by {
        assert(pane_slot_ok(rects[i], m.panes@, ps, i));
    }
    assert forall|i: int| MAX_PANES <= i < rects.len() implies (#[trigger] rects[i]).kind == 2 by {
        assert(div_slot_ok(rects[MAX_PANES + (i - MAX_PANES)], ds[i - MAX_PANES]));
    }
}

/// The panes the layout shows never overlap: any two pane slots of the
/// projection of a well-formed workspace are apart (one is empty, or a
/// vertical or horizontal line separates them).
pub proof fn lemma_pane_slots_apart(m: &Mux, rects: Seq<RectSlot>)
    requires
        m.wf(),
        m.is_projection(rects),
    ensures
        forall|i: int, j: int|
            0 <= i < j < rects.len() && rects[i].kind == 1 && rects[j].kind == 1 ==> slots_apart(
                #[trigger] rects[i],
                #[trigger] rects[j],
            ),
{
    let ti = m.active_pos();
    lemma_tab_pos(m.tabs@, m.active_tab);
    if ti >= 0 && m.tabs@[ti].zoomed_pane == 0 {
        let (ps, ds) = tree_slots(m.nodes@, m.tabs@[ti].root);
        assert(ratios_ok(m.nodes@));
        lemma_tree_slots_apart(m.nodes@, m.tabs@[ti].root);
        assert forall|i: int, j: int|
            0 <= i < j < rects.len() && rects[i].kind == 1 && rects[j].kind == 1 implies slots_apart(
            #[trigger] rects[i],
            #[trigger] rects[j],
        ) by {
            if j < MAX_PANES {
                assert(pane_slot_ok(rects[i], m.panes@, ps, i));
                assert(pane_slot_ok(rects[j], m.panes@, ps, j));
                assert(i < ps.len() && j < ps.len());
                assert(areas_apart(ps[i], ps[j]));
            } else {
                assert(div_slot_ok(rects[MAX_PANES + (j - MAX_PANES)], ds[j - MAX_PANES]));
            }
        }
    }
}

/// The rectangle of a layout slot, tagged with its pane.
pub open spec fn slot_area(r: RectSlot) -> Area {
    Area { id: r.pane, axis: 0, x: r.x, y: r.y, w: r.w, h: r.h }
}

/// The rectangles of the pane block of a projection.
pub open spec fn pane_block(rects: Seq<RectSlot>) -> Seq<Area> {
    Seq::new(MAX_PANES as nat, |i: int| slot_area(rects[i]))
}

proof fn lemma_area_sum_empties(s: Seq<Area>)
    requires
        forall|i: int| 0 <= i < s.len() ==> area(#[trigger] s[i]) == 0,
    ensures
        area_sum(s) == 0,
    decreases s.len(),
{
    if s.len() > 0 {
        let t = s.subrange(1, s.len() as int);
        assert(area(s[0]) == 0);
        assert forall|i: int| 0 <= i < t.len() implies area(#[trigger] t[i]) == 0 by {
            assert(t[i] == s[i + 1]);
        }
        lemma_area_sum_empties(t);
    }
}

proof fn lemma_area_sum_same(s: Seq<Area>, t: Seq<Area>)
    requires
        s.len() == t.len(),
        forall|i: int| 0 <= i < s.len() ==> area(#[trigger] s[i]) == area(t[i]),
    ensures
        area_sum(s) == area_sum(t),
    decreases s.len(),
{
    if s.len() > 0 {
        let s1 = s.subrange(1, s.len() as int);
        let t1 = t.subrange(1, t.len() as int);
        assert(area(s[0]) == area(t[0]));
        assert forall|i: int| 0 <= i < s1.len() implies area(#[trigger] s1[i]) == area(t1[i]) by {
            assert(s1[i] == s[i + 1] && t1[i] == t[i + 1]);
        }
        lemma_area_sum_same(s1, t1);
    }
}

/// The panes the layout shows tile the content area: when the active tab
/// is not zoomed and its split tree is complete with at most `MAX_PANES`
/// leaves, the pane slots of the projection add up to the whole
/// 1000 x 1000 area (the empty slots count nothing).
pub proof fn lemma_pane_slots_fill(m: &Mux, rects: Seq<RectSlot>)
    requires
        m.wf(),
        m.is_projection(rects),
        m.active_pos() >= 0,
        m.tabs@[m.active_pos()].zoomed_pane == 0,
        walk_whole(m.nodes@, seq![root_area(m.tabs@[m.active_pos()].root)], 0),
        tree_slots(m.nodes@, m.tabs@[m.active_pos()].root).0.len() <= MAX_PANES,
    ensures
        area_sum(pane_block(rects)) == 1_000_000,
{
    let ti = m.active_pos();
    lemma_tab_pos(m.tabs@, m.active_tab);
    let (ps, ds) = tree_slots(m.nodes@, m.tabs@[ti].root);
    assert(ratios_ok(m.nodes@));
    lemma_tree_slots_fill(m.nodes@, m.tabs@[ti].root);
    let b = pane_block(rects);
    let n = ps.len() as int;
    let tail = b.subrange(n, MAX_PANES as int);
    let head = b.subrange(0, n);
    assert forall|i: int| 0 <= i < n implies area(#[trigger] head[i]) == area(ps[i]) by {
        assert(pane_slot_ok(rects[i], m.panes@, ps, i));
        assert(head[i] == slot_area(rects[i]));
    }
    lemma_area_sum_same(head, ps);
    assert forall|i: int| 0 <= i < tail.len() implies area(#[trigger] tail[i]) == 0 by {
        assert(pane_slot_ok(rects[n + i], m.panes@, ps, n + i));
        assert(tail[i] == slot_area(rects[n + i]));
        let (w, h) = (tail[i].w as int, tail[i].h as int);
        assert(w == 0);
        assert(w * h == 0) by (nonlinear_arith)
            requires
                w == 0,
        ;
    }
    lemma_area_sum_empties(tail);
    assert(b =~= b.subrange(0, n) + tail);
    lemma_area_sum_concat(b.subrange(0, n), tail);
}

} // verus!
