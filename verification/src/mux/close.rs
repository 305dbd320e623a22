//! Operations that remove panes: closing a tab and closing a pane (its
//! sibling takes the parent's place). Both return the engine handles the
//! caller must free.

use vstd::prelude::*;
use crate::mux::model::{
    Mux, Pane, Tab, Node, leaves_ok, links_ok, counts_ok, without_index, pane_pos, tab_pos, node_pos, leaf_pos,
    pane_index, node_index, tab_index, leaf_node_of_pane, lemma_pane_pos, lemma_tab_pos,
    lemma_node_pos, lemma_leaf_pos, lemma_pane_pos_unique, lemma_tab_pos_unique,
    lemma_node_pos_unique, lemma_count_concat, lemma_count_push, lemma_count_remove, MAX_PANES,
};
use crate::mux::ops::{bump_layout_epoch, lemma_tabs_same_ids, pane_ids_of_tab};
use crate::mux::grow::{relink, replace_child, lemma_leaves_ok_relink};
use crate::mux::counts::{lemma_counts_ok_close_tab, lemma_counts_ok_close, lemma_counts_ok_same, same_tab_ids};
use crate::mux::owned::{lemma_links_sub, lemma_links_relink, lemma_remove_from, lemma_leftmost_owned, lemma_pane_found_in};

verus! {

/// The panes not in tab `t`, in order.
pub open spec fn panes_outside(s: Seq<Pane>, t: i64) -> Seq<Pane>
    decreases s.len(),
{
    if s.len() == 0 {
        Seq::empty()
    } else {
        let r = panes_outside(s.drop_first(), t);
        if s[0].tab != t {
            seq![s[0]] + r
        } else {
            r
        }
    }
}

/// The nodes not in tab `t`, in order.
pub open spec fn nodes_outside(s: Seq<Node>, t: i64) -> Seq<Node>
    decreases s.len(),
{
    if s.len() == 0 {
        Seq::empty()
    } else {
        let r = nodes_outside(s.drop_first(), t);
        if s[0].tab != t {
            seq![s[0]] + r
        } else {
            r
        }
    }
}

/// Handles of the panes of tab `t`, last pane first.
pub open spec fn handles_desc(s: Seq<Pane>, t: i64) -> Seq<i64>
    decreases s.len(),
{
    if s.len() == 0 {
        Seq::empty()
    } else {
        let r = handles_desc(s.drop_first(), t);
        if s[0].tab == t {
            r.push(s[0].handle)
        } else {
            r
        }
    }
}

/// Dropping a tab's panes never raises any tab's count.
pub proof fn lemma_count_outside(s: Seq<Pane>, tab: i64, t: i64)
    ensures
        pane_ids_of_tab(panes_outside(s, tab), t).len() <= pane_ids_of_tab(s, t).len(),
    decreases s.len(),
{
    if s.len() > 0 {
        let d = s.drop_first();
        lemma_count_outside(d, tab, t);
        assert(s =~= seq![s[0]] + d);
        lemma_count_concat(seq![s[0]], d, t);
        assert(seq![s[0]] =~= Seq::<Pane>::empty().push(s[0]));
        lemma_count_push(Seq::<Pane>::empty(), s[0], t);
        if s[0].tab != tab {
            lemma_count_concat(seq![s[0]], panes_outside(d, tab), t);
        }
    }
}

pub proof fn lemma_panes_outside(s: Seq<Pane>, t: i64)
    ensures
        panes_outside(s, t).len() <= s.len(),
        forall|k: int| 0 <= k < panes_outside(s, t).len() ==> s.contains(#[trigger] panes_outside(s, t)[k])
            && panes_outside(s, t)[k].tab != t,
        forall|j: int| 0 <= j < s.len() && #[trigger] s[j].tab != t ==> panes_outside(s, t).contains(s[j]),
        (forall|i: int, j: int| 0 <= i < j < s.len() ==> s[i].id != s[j].id) ==> (forall|i: int, j: int|
            0 <= i < j < panes_outside(s, t).len() ==> panes_outside(s, t)[i].id != panes_outside(s, t)[j].id),
    decreases s.len(),
{
    if s.len() > 0 {
        let d = s.drop_first();
        lemma_panes_outside(d, t);
        let o = panes_outside(s, t);
        let r = panes_outside(d, t);
        assert forall|k: int| 0 <= k < o.len() implies s.contains(#[trigger] o[k]) && o[k].tab != t by {
            if s[0].tab != t {
                if k == 0 {
                    assert(s[0] == o[0]);
                } else {
                    assert(o[k] == r[k - 1]);
                    let w = choose|w: int| 0 <= w < d.len() && d[w] == r[k - 1];
                    assert(s[w + 1] == d[w]);
                }
            } else {
                assert(o[k] == r[k]);
                let w = choose|w: int| 0 <= w < d.len() && d[w] == r[k];
                assert(s[w + 1] == d[w]);
            }
        }
        assert forall|j: int| 0 <= j < s.len() && #[trigger] s[j].tab != t implies o.contains(s[j]) by {
            if j == 0 {
                assert(o[0] == s[0]);
            } else {
                assert(d[j - 1] == s[j]);
                assert(r.contains(d[j - 1]));
                let w = choose|w: int| 0 <= w < r.len() && r[w] == d[j - 1];
                if s[0].tab != t {
                    assert(o[w + 1] == r[w]);
                } else {
                    assert(o[w] == r[w]);
                }
            }
        }
        if forall|i: int, j: int| 0 <= i < j < s.len() ==> s[i].id != s[j].id {
            assert forall|i: int, j: int| 0 <= i < j < d.len() implies d[i].id != d[j].id by {
                assert(d[i] == s[i + 1] && d[j] == s[j + 1]);
            }
            assert forall|i: int, j: int| 0 <= i < j < o.len() implies o[i].id != o[j].id by {
                if s[0].tab != t {
                    if i == 0 {
                        assert(o[j] == r[j - 1]);
                        assert(d.contains(r[j - 1]));
                        let w = choose|w: int| 0 <= w < d.len() && d[w] == r[j - 1];
                        assert(s[w + 1] == d[w]);
                    } else {
                        assert(o[i] == r[i - 1] && o[j] == r[j - 1]);
                    }
                } else {
                    assert(o[i] == r[i] && o[j] == r[j]);
                }
            }
        }
    }
}

pub proof fn lemma_nodes_outside(s: Seq<Node>, t: i64)
    ensures
        nodes_outside(s, t).len() <= s.len(),
        forall|k: int| 0 <= k < nodes_outside(s, t).len() ==> s.contains(#[trigger] nodes_outside(s, t)[k])
            && nodes_outside(s, t)[k].tab != t,
        forall|j: int| 0 <= j < s.len() && #[trigger] s[j].tab != t ==> nodes_outside(s, t).contains(s[j]),
        (forall|i: int, j: int| 0 <= i < j < s.len() ==> s[i].id != s[j].id) ==> (forall|i: int, j: int|
            0 <= i < j < nodes_outside(s, t).len() ==> nodes_outside(s, t)[i].id != nodes_outside(s, t)[j].id),
    decreases s.len(),
{
    if s.len() > 0 {
        let d = s.drop_first();
        lemma_nodes_outside(d, t);
        let o = nodes_outside(s, t);
        let r = nodes_outside(d, t);
        assert forall|k: int| 0 <= k < o.len() implies s.contains(#[trigger] o[k]) && o[k].tab != t by {
            if s[0].tab != t {
                if k == 0 {
                    assert(s[0] == o[0]);
                } else {
                    assert(o[k] == r[k - 1]);
                    let w = choose|w: int| 0 <= w < d.len() && d[w] == r[k - 1];
                    assert(s[w + 1] == d[w]);
                }
            } else {
                assert(o[k] == r[k]);
                let w = choose|w: int| 0 <= w < d.len() && d[w] == r[k];
                assert(s[w + 1] == d[w]);
            }
        }
        assert forall|j: int| 0 <= j < s.len() && #[trigger] s[j].tab != t implies o.contains(s[j]) by {
            if j == 0 {
                assert(o[0] == s[0]);
            } else {
                assert(d[j - 1] == s[j]);
                assert(r.contains(d[j - 1]));
                let w = choose|w: int| 0 <= w < r.len() && r[w] == d[j - 1];
                if s[0].tab != t {
                    assert(o[w + 1] == r[w]);
                } else {
                    assert(o[w] == r[w]);
                }
            }
        }
        if forall|i: int, j: int| 0 <= i < j < s.len() ==> s[i].id != s[j].id {
            assert forall|i: int, j: int| 0 <= i < j < d.len() implies d[i].id != d[j].id by {
                assert(d[i] == s[i + 1] && d[j] == s[j + 1]);
            }
            assert forall|i: int, j: int| 0 <= i < j < o.len() implies o[i].id != o[j].id by {
                if s[0].tab != t {
                    if i == 0 {
                        assert(o[j] == r[j - 1]);
                        assert(d.contains(r[j - 1]));
                        let w = choose|w: int| 0 <= w < d.len() && d[w] == r[j - 1];
                        assert(s[w + 1] == d[w]);
                    } else {
                        assert(o[i] == r[i - 1] && o[j] == r[j - 1]);
                    }
                } else {
                    assert(o[i] == r[i] && o[j] == r[j]);
                }
            }
        }
    }
}

/// An id-unique table finds a member's id at the member.
pub proof fn lemma_pane_member(s: Seq<Pane>, p: Pane)
    requires
        s.contains(p),
        forall|i: int, j: int| 0 <= i < j < s.len() ==> s[i].id != s[j].id,
    ensures
        pane_pos(s, p.id) >= 0,
        s[pane_pos(s, p.id)] == p,
{
    let w = choose|w: int| 0 <= w < s.len() && s[w] == p;
    lemma_pane_pos_unique(s, p.id, w);
}

pub proof fn lemma_tab_remove(s: Seq<Tab>, k: int, id: i64)
    requires
        0 <= k < s.len(),
        forall|i: int, j: int| 0 <= i < j < s.len() ==> s[i].id != s[j].id,
        tab_pos(s, id) >= 0,
        id != s[k].id,
    ensures
        tab_pos(s.remove(k), id) >= 0,
{
    lemma_tab_pos(s, id);
    let p = tab_pos(s, id);
    let r = s.remove(k);
    if p < k {
        assert(r[p] == s[p]);
        lemma_tab_pos(r, id);
        if tab_pos(r, id) < 0 {
            assert(r[p].id != id);
        }
    } else {
        assert(r[p - 1] == s[p]);
        lemma_tab_pos(r, id);
        if tab_pos(r, id) < 0 {
            assert(r[p - 1].id != id);
        }
    }
}

/// Drop node `node_id`: 1, or 0 when unknown.
pub fn drop_node(mux: &mut Mux, node_id: i64) -> (r: i64)
    requires
        old(mux).nodes@.len() < i64::MAX,
    ensures
        r == (if node_pos(old(mux).nodes@, node_id) >= 0 { 1i64 } else { 0i64 }),
        final(mux).nodes@ == without_index(old(mux).nodes@, node_pos(old(mux).nodes@, node_id)),
        final(mux).panes@ == old(mux).panes@,
        final(mux).tabs@ == old(mux).tabs@,
        final(mux).active_tab == old(mux).active_tab,
        final(mux).next_pane_id == old(mux).next_pane_id,
        final(mux).next_tab_id == old(mux).next_tab_id,
        final(mux).next_node_id == old(mux).next_node_id,
        final(mux).layout_epoch == old(mux).layout_epoch,
        final(mux).same_side_state(old(mux)),
{
    let ni: i64 = node_index(mux, node_id);
    proof {
        lemma_node_pos(old(mux).nodes@, node_id);
    }
    if ni < 0 {
        return 0;
    }
    assert(0 <= ni < mux.nodes.len());
    mux.nodes.remove(ni as usize);
    1
}

/// Drop the pane at index `pi`: always 1 (out of range = no change).
pub fn remove_pane_at(mux: &mut Mux, pi: i64) -> (r: i64)
    ensures
        r == 1,
        final(mux).panes@ == without_index(old(mux).panes@, pi as int),
        final(mux).tabs@ == old(mux).tabs@,
        final(mux).nodes@ == old(mux).nodes@,
        final(mux).active_tab == old(mux).active_tab,
        final(mux).next_pane_id == old(mux).next_pane_id,
        final(mux).next_tab_id == old(mux).next_tab_id,
        final(mux).next_node_id == old(mux).next_node_id,
        final(mux).layout_epoch == old(mux).layout_epoch,
        final(mux).same_side_state(old(mux)),
{
    if pi >= 0 && (pi as u64) < (mux.panes.len() as u64) {
        mux.panes.remove(pi as usize);
    }
    1
}

/// The pane of the leftmost leaf below node `id`, searching at most
/// `fuel` levels deep (0 = none found).
pub open spec fn leftmost(nodes: Seq<Node>, id: i64, fuel: nat) -> i64
    decreases fuel,
{
    if fuel == 0 {
        0
    } else {
        let k = node_pos(nodes, id);
        if k < 0 {
            0
        } else if nodes[k].pane != 0 {
            nodes[k].pane
        } else {
            let l = leftmost(nodes, nodes[k].first, (fuel - 1) as nat);
            if l != 0 {
                l
            } else {
                leftmost(nodes, nodes[k].second, (fuel - 1) as nat)
            }
        }
    }
}

fn leftmost_in(mux: &Mux, node_id: i64, fuel: usize) -> (r: i64)
    requires
        mux.nodes@.len() < i64::MAX,
    ensures
        r == leftmost(mux.nodes@, node_id, fuel as nat),
    decreases fuel,
{
    if fuel == 0 {
        return 0;
    }
    let ni: i64 = node_index(mux, node_id);
    proof {
        lemma_node_pos(mux.nodes@, node_id);
    }
    if ni < 0 {
        return 0;
    }
    assert(0 <= ni < mux.nodes.len());
    let pane: i64 = mux.nodes[ni as usize].pane;
    if pane != 0 {
        return pane;
    }
    let left: i64 = leftmost_in(mux, mux.nodes[ni as usize].first, fuel - 1);
    if left != 0 {
        return left;
    }
    leftmost_in(mux, mux.nodes[ni as usize].second, fuel - 1)
}

/// The pane of the leftmost leaf of the subtree at `node_id` (0 = none);
/// the descent is bounded by the number of nodes, the depth of any tree
/// the operations build.
pub fn leftmost_pane(mux: &Mux, node_id: i64) -> (r: i64)
    requires
        mux.nodes@.len() < i64::MAX,
    ensures
        r == leftmost(mux.nodes@, node_id, mux.nodes@.len()),
{
    leftmost_in(mux, node_id, mux.nodes.len())
}

/// Everything `mux_close_tab` promises, for reuse by `mux_close_pane`.
pub open spec fn close_tab_post(o: &Mux, f: &Mux, tab_id: i64, r: i64, freed: Seq<i64>) -> bool {
    let ti = tab_pos(o.tabs@, tab_id);
    &&& f.same_side_state(o)
    &&& f.next_pane_id == o.next_pane_id
    &&& f.next_tab_id == o.next_tab_id
    &&& f.next_node_id == o.next_node_id
    &&& if ti < 0 {
        r == -1 && freed.len() == 0 && f.unchanged_from(o)
    } else if o.tabs@.len() == 1 {
        r == 0 && freed.len() == 0 && f.unchanged_from(o)
    } else {
        &&& r == 1
        &&& freed == handles_desc(o.panes@, tab_id)
        &&& f.panes@ == panes_outside(o.panes@, tab_id)
        &&& f.nodes@ == nodes_outside(o.nodes@, tab_id)
        &&& f.tabs@ == o.tabs@.remove(ti)
        &&& f.active_tab == (if o.active_tab == tab_id { f.tabs@[0].id } else { o.active_tab })
        &&& f.layout_epoch == o.layout_epoch + 1
    }
}

/// Close tab `tab_id` with all its panes and nodes; if it was active the
/// first remaining tab becomes active. Returns (1 = closed, 0 = refused:
/// it is the last tab, -1 = unknown) and the engine handles to free.
pub fn mux_close_tab(mux: &mut Mux, tab_id: i64) -> (res: (i64, Vec<i64>))
    requires
        old(mux).wf(),
        old(mux).layout_epoch < i64::MAX,
    ensures
        final(mux).wf(),
        close_tab_post(old(mux), final(mux), tab_id, res.0, res.1@),
{
    let mut freed: Vec<i64> = Vec::new();
    let ti: i64 = tab_index(mux, tab_id);
    proof {
        lemma_tab_pos(old(mux).tabs@, tab_id);
    }
    if ti < 0 {
        return (-1, freed);
    }
    if mux.tabs.len() == 1 {
        return (0, freed);
    }
    let mut i: usize = mux.panes.len();
    while i > 0
        invariant
            i <= old(mux).panes@.len(),
            mux.panes@ == old(mux).panes@.take(i as int) + panes_outside(
                old(mux).panes@.skip(i as int),
                tab_id,
            ),
            freed@ == handles_desc(old(mux).panes@.skip(i as int), tab_id),
            mux.tabs@ == old(mux).tabs@,
            mux.nodes@ == old(mux).nodes@,
            mux.active_tab == old(mux).active_tab,
            mux.next_pane_id == old(mux).next_pane_id,
            mux.next_tab_id == old(mux).next_tab_id,
            mux.next_node_id == old(mux).next_node_id,
            mux.layout_epoch == old(mux).layout_epoch,
            mux.same_side_state(old(mux)),
        decreases i,
    {
        let ghost op = old(mux).panes@;
        proof {
            assert(op.skip(i - 1).drop_first() =~= op.skip(i as int));
            assert(op.skip(i - 1)[0] == op[i - 1]);
            assert(mux.panes@[i - 1] == op[i - 1]);
        }
        if mux.panes[i - 1].tab == tab_id {
            freed.push(mux.panes[i - 1].handle);
            mux.panes.remove(i - 1);
            proof {
                assert(mux.panes@ =~= op.take(i - 1) + panes_outside(op.skip(i - 1), tab_id));
            }
        } else {
            proof {
                assert(mux.panes@ =~= op.take(i - 1) + panes_outside(op.skip(i - 1), tab_id));
            }
        }
        i = i - 1;
    }
    proof {
        assert(old(mux).panes@.skip(0) =~= old(mux).panes@);
        assert(mux.panes@ =~= panes_outside(old(mux).panes@, tab_id));
    }
    let mut j: usize = mux.nodes.len();
    while j > 0
        invariant
            j <= old(mux).nodes@.len(),
            mux.nodes@ == old(mux).nodes@.take(j as int) + nodes_outside(
                old(mux).nodes@.skip(j as int),
                tab_id,
            ),
            mux.panes@ == panes_outside(old(mux).panes@, tab_id),
            mux.tabs@ == old(mux).tabs@,
            mux.active_tab == old(mux).active_tab,
            mux.next_pane_id == old(mux).next_pane_id,
            mux.next_tab_id == old(mux).next_tab_id,
            mux.next_node_id == old(mux).next_node_id,
            mux.layout_epoch == old(mux).layout_epoch,
            mux.same_side_state(old(mux)),
        decreases j,
    {
        let ghost on = old(mux).nodes@;
        proof {
            assert(on.skip(j - 1).drop_first() =~= on.skip(j as int));
            assert(on.skip(j - 1)[0] == on[j - 1]);
            assert(mux.nodes@[j - 1] == on[j - 1]);
        }
        if mux.nodes[j - 1].tab == tab_id {
            mux.nodes.remove(j - 1);
        }
        proof {
            assert(mux.nodes@ =~= on.take(j - 1) + nodes_outside(on.skip(j - 1), tab_id));
        }
        j = j - 1;
    }
    proof {
        assert(old(mux).panes@.skip(0) =~= old(mux).panes@);
        assert(old(mux).nodes@.skip(0) =~= old(mux).nodes@);
        assert(mux.nodes@ =~= nodes_outside(old(mux).nodes@, tab_id));
        assert(0 <= ti < mux.tabs.len());
    }
    mux.tabs.remove(ti as usize);
    if mux.active_tab == tab_id {
        if mux.tabs.len() > 0 {
            mux.active_tab = mux.tabs[0].id;
        } else {
            mux.active_tab = 0;
        }
    }
    bump_layout_epoch(mux);
    proof {
        let o = old(mux);
        let ot = o.tabs@;
        let nt = mux.tabs@;
        lemma_panes_outside(o.panes@, tab_id);
        lemma_nodes_outside(o.nodes@, tab_id);
        lemma_tab_pos_unique(ot, tab_id, ti as int);
        assert forall|a: int| 0 <= a < nt.len() implies (#[trigger] nt[a]) == ot[if a < ti { a } else { a + 1 }] by {}
        assert forall|a: int, b: int| 0 <= a < b < nt.len() implies nt[a].id != nt[b].id by {
            assert(nt[a] == ot[if a < ti { a } else { a + 1 }]);
            assert(nt[b] == ot[if b < ti { b } else { b + 1 }]);
        }
        assert forall|a: int| 0 <= a < nt.len() implies 0 < #[trigger] nt[a].id < mux.next_tab_id by {
            assert(nt[a] == ot[if a < ti { a } else { a + 1 }]);
        }
        // remaining panes belong to remaining tabs
        assert forall|a: int| 0 <= a < mux.panes@.len() implies tab_pos(nt, #[trigger] mux.panes@[a].tab) >= 0 by {
            let p = mux.panes@[a];
            let w = choose|w: int| 0 <= w < o.panes@.len() && o.panes@[w] == p;
            lemma_tab_remove(ot, ti as int, p.tab);
        }
        assert forall|a: int| 0 <= a < mux.panes@.len() implies 0 < #[trigger] mux.panes@[a].id < mux.next_pane_id by {
            let p = mux.panes@[a];
            let w = choose|w: int| 0 <= w < o.panes@.len() && o.panes@[w] == p;
        }
        assert forall|a: int| 0 <= a < mux.nodes@.len() implies 0 < #[trigger] mux.nodes@[a].id < mux.next_node_id by {
            let n = mux.nodes@[a];
            let w = choose|w: int| 0 <= w < o.nodes@.len() && o.nodes@[w] == n;
        }
        assert forall|a: int| 0 <= a < mux.nodes@.len() implies 0 <= #[trigger] mux.nodes@[a].ratio <= 1000 by {
            let n = mux.nodes@[a];
            let w = choose|w: int| 0 <= w < o.nodes@.len() && o.nodes@[w] == n;
        }
        // leaves still name existing panes of their tab
        let np = mux.panes@;
        let nn = mux.nodes@;
        assert forall|a: int| 0 <= a < nn.len() && #[trigger] nn[a].pane != 0 implies {
            &&& pane_pos(np, nn[a].pane) >= 0
            &&& np[pane_pos(np, nn[a].pane)].tab == nn[a].tab
            &&& nn[a].first == 0
            &&& nn[a].second == 0
        } by {
            let n = nn[a];
            let w = choose|w: int| 0 <= w < o.nodes@.len() && o.nodes@[w] == n;
            assert(o.nodes@[w].pane != 0);
            let k = pane_pos(o.panes@, n.pane);
            lemma_pane_pos(o.panes@, n.pane);
            assert(o.panes@[k].tab == n.tab);
            assert(np.contains(o.panes@[k]));
            lemma_pane_member(np, o.panes@[k]);
        }
        assert forall|a: int, b: int|
            0 <= a < nn.len() && 0 <= b < nn.len() && a != b && nn[a].pane != 0
                implies #[trigger] nn[a].pane != #[trigger] nn[b].pane by {
            let wa = choose|w: int| 0 <= w < o.nodes@.len() && o.nodes@[w] == nn[a];
            let wb = choose|w: int| 0 <= w < o.nodes@.len() && o.nodes@[w] == nn[b];
            if a < b {
                assert(nn[a].id != nn[b].id);
            } else {
                assert(nn[b].id != nn[a].id);
            }
        }
        if mux.active_tab != 0 {
            if o.active_tab == tab_id {
                lemma_tab_pos_unique(nt, nt[0].id, 0);
            } else {
                lemma_tab_remove(ot, ti as int, o.active_tab);
            }
        }
        assert forall|t: i64| #[trigger] pane_ids_of_tab(np, t).len() <= MAX_PANES by {
            lemma_count_outside(o.panes@, tab_id, t);
        }
        // links and focus only lose entries
        lemma_links_sub(o.nodes@, nn, mux.next_node_id);
        assert(nt =~= ot.remove(ti as int));
        lemma_counts_ok_close_tab(o.nodes@, ot, ti as int);
        assert forall|a: int| 0 <= a < nt.len() implies 0 < #[trigger] nt[a].active_pane < mux.next_pane_id by {
            assert(nt[a] == ot[if a < ti { a } else { a + 1 }]);
        }
        assert forall|a: int|
            0 <= a < nt.len() && pane_pos(np, #[trigger] nt[a].active_pane) >= 0
                implies np[pane_pos(np, nt[a].active_pane)].tab == nt[a].id by {
            let c = if a < ti { a } else { a + 1 };
            assert(nt[a] == ot[c]);
            lemma_pane_found_in(o.panes@, np, nt[a].active_pane);
        }
    }
    (1, freed)
}


/// Position of the last node that holds `child` in a child slot (-1 = none).
pub open spec fn parent_pos(s: Seq<Node>, child: i64) -> int
    decreases s.len(),
{
    if s.len() == 0 {
        -1
    } else if s.last().first == child || s.last().second == child {
        s.len() - 1
    } else {
        parent_pos(s.drop_last(), child)
    }
}

pub proof fn lemma_parent_pos(s: Seq<Node>, child: i64)
    ensures
        -1 <= parent_pos(s, child) < s.len(),
        parent_pos(s, child) >= 0 ==> s[parent_pos(s, child)].first == child
            || s[parent_pos(s, child)].second == child,
    decreases s.len(),
{
    if s.len() > 0 {
        lemma_parent_pos(s.drop_last(), child);
    }
}

/// The other child of `n` when `child` is removed (the second slot wins
/// when both hold it).
pub open spec fn sibling_of(n: Node, child: i64) -> i64 {
    if n.second == child {
        n.first
    } else {
        n.second
    }
}

/// Every node link to `old` redirected to `new` (see [`relink`]).
pub open spec fn relink_all(s: Seq<Node>, old: i64, new: i64) -> Seq<Node> {
    Seq::new(s.len(), |i: int| relink(s[i], old, new))
}

/// Nodes after `id` is dropped (unchanged when absent).
pub open spec fn without_node(s: Seq<Node>, id: i64) -> Seq<Node> {
    without_index(s, node_pos(s, id))
}

pub proof fn lemma_leaves_ok_remove_node(panes: Seq<Pane>, a: Seq<Node>, k: int)
    requires
        leaves_ok(panes, a),
        0 <= k < a.len(),
    ensures
        leaves_ok(panes, a.remove(k)),
{
    let b = a.remove(k);
    assert forall|i: int| 0 <= i < b.len() implies #[trigger] b[i] == a[if i < k { i } else { i + 1 }] by {}
    assert forall|i: int| 0 <= i < b.len() && #[trigger] b[i].pane != 0 implies {
        &&& pane_pos(panes, b[i].pane) >= 0
        &&& panes[pane_pos(panes, b[i].pane)].tab == b[i].tab
        &&& b[i].first == 0
        &&& b[i].second == 0
    } by {
        assert(b[i] == a[if i < k { i } else { i + 1 }]);
    }
    assert forall|i: int, j: int|
        0 <= i < b.len() && 0 <= j < b.len() && i != j && b[i].pane != 0
            implies #[trigger] b[i].pane != #[trigger] b[j].pane by {
        assert(b[i] == a[if i < k { i } else { i + 1 }]);
        assert(b[j] == a[if j < k { j } else { j + 1 }]);
    }
}

pub proof fn lemma_leaves_ok_remove_pane(panes: Seq<Pane>, nodes: Seq<Node>, pi: int)
    requires
        leaves_ok(panes, nodes),
        0 <= pi < panes.len(),
        forall|i: int, j: int| 0 <= i < j < panes.len() ==> panes[i].id != panes[j].id,
        forall|i: int| 0 <= i < nodes.len() ==> #[trigger] nodes[i].pane != panes[pi].id,
    ensures
        leaves_ok(panes.remove(pi), nodes),
{
    let q = panes.remove(pi);
    assert forall|i: int| 0 <= i < q.len() implies #[trigger] q[i] == panes[if i < pi { i } else { i + 1 }] by {}
    assert forall|i: int| 0 <= i < nodes.len() && #[trigger] nodes[i].pane != 0 implies {
        &&& pane_pos(q, nodes[i].pane) >= 0
        &&& q[pane_pos(q, nodes[i].pane)].tab == nodes[i].tab
        &&& nodes[i].first == 0
        &&& nodes[i].second == 0
    } by {
        let k = pane_pos(panes, nodes[i].pane);
        lemma_pane_pos(panes, nodes[i].pane);
        assert(k != pi);
        let k2 = if k < pi { k } else { k - 1 };
        assert(q[k2] == panes[k]);
        assert forall|x: int, y: int| 0 <= x < y < q.len() implies q[x].id != q[y].id by {
            assert(q[x] == panes[if x < pi { x } else { x + 1 }]);
            assert(q[y] == panes[if y < pi { y } else { y + 1 }]);
        }
        lemma_pane_pos_unique(q, nodes[i].pane, k2);
    }
}

/// The branch that holds node `leaf` in a child slot, and the other child
/// of that branch ((0, 0) when no branch holds it; the last such branch
/// wins).
pub(crate) fn find_parent(mux: &Mux, leaf: i64) -> (r: (i64, i64))
    ensures
        ({
            let k = parent_pos(mux.nodes@, leaf);
            if k < 0 {
                r.0 == 0
            } else {
                r.0 == mux.nodes@[k].id && r.1 == sibling_of(mux.nodes@[k], leaf)
            }
        }),
{
    let mut parent: i64 = 0;
    let mut sibling: i64 = 0;
    let n: usize = mux.nodes.len();
    let mut i: usize = 0;
    while i < n
        invariant
            n == mux.nodes@.len(),
            i <= n,
            parent_pos(mux.nodes@.take(i as int), leaf) < 0 ==> parent == 0,
            parent_pos(mux.nodes@.take(i as int), leaf) >= 0 ==> {
                let k = parent_pos(mux.nodes@.take(i as int), leaf);
                &&& parent == mux.nodes@[k].id
                &&& sibling == sibling_of(mux.nodes@[k], leaf)
            },
        decreases n - i,
    {
        proof {
            assert(mux.nodes@.take(i as int + 1).drop_last() =~= mux.nodes@.take(i as int));
            lemma_parent_pos(mux.nodes@.take(i as int), leaf);
        }
        if mux.nodes[i].first == leaf {
            parent = mux.nodes[i].id;
            sibling = mux.nodes[i].second;
        }
        if mux.nodes[i].second == leaf {
            parent = mux.nodes[i].id;
            sibling = mux.nodes[i].first;
        }
        i = i + 1;
    }
    proof {
        assert(mux.nodes@.take(n as int) =~= mux.nodes@);
    }
    (parent, sibling)
}

/// The node list after the branch `parent` and its leaf child `leaf` are
/// detached and `sibling` takes the branch's place.
pub open spec fn detached_nodes(o: Seq<Node>, root_hit: bool, parent: i64, sibling: i64, leaf: i64) -> Seq<Node> {
    let nodes1 = if root_hit { o } else { relink_all(o, parent, sibling) };
    without_node(without_node(nodes1, parent), leaf)
}

/// Detach leaf `leaf` and its parent branch `parent` from tab `tab_id`'s
/// tree, re-hanging `sibling` in the parent's place.
#[verifier::rlimit(40)]
fn detach_leaf(mux: &mut Mux, tab_id: i64, parent: i64, sibling: i64, leaf: i64)
    requires
        old(mux).wf(),
        tab_pos(old(mux).tabs@, tab_id) >= 0,
        node_pos(old(mux).nodes@, leaf) >= 0,
        old(mux).nodes@[node_pos(old(mux).nodes@, leaf)].pane != 0,
        parent_pos(old(mux).nodes@, leaf) >= 0,
        parent == old(mux).nodes@[parent_pos(old(mux).nodes@, leaf)].id,
        sibling == sibling_of(old(mux).nodes@[parent_pos(old(mux).nodes@, leaf)], leaf),
    ensures
        ({
            let o = *old(mux);
            let ti = tab_pos(o.tabs@, tab_id);
            let root_hit = o.tabs@[ti].root == parent;
            &&& final(mux).nodes@ == detached_nodes(o.nodes@, root_hit, parent, sibling, leaf)
            &&& final(mux).tabs@ == (if root_hit {
                o.tabs@.update(ti, Tab { root: sibling, ..o.tabs@[ti] })
            } else {
                o.tabs@
            })
        }),
        leaves_ok(old(mux).panes@, final(mux).nodes@),
        forall|x: int, y: int|
            0 <= x < y < final(mux).nodes@.len() ==> final(mux).nodes@[x].id != final(mux).nodes@[y].id,
        forall|a: int|
            0 <= a < final(mux).nodes@.len() ==> 0 < #[trigger] final(mux).nodes@[a].id < old(mux).next_node_id
                && 0 <= final(mux).nodes@[a].ratio <= 1000,
        forall|a: int|
            0 <= a < final(mux).nodes@.len() ==> #[trigger] final(mux).nodes@[a].pane != old(mux).nodes@[node_pos(
                old(mux).nodes@,
                leaf,
            )].pane,
        links_ok(final(mux).nodes@, old(mux).next_node_id),
        counts_ok(final(mux).nodes@, final(mux).tabs@),
        forall|a: int|
            0 <= a < final(mux).nodes@.len() && (#[trigger] final(mux).nodes@[a]).id == sibling
                ==> final(mux).nodes@[a].tab == old(mux).nodes@[node_pos(old(mux).nodes@, leaf)].tab,
        final(mux).panes@ == old(mux).panes@,
        final(mux).active_tab == old(mux).active_tab,
        final(mux).next_pane_id == old(mux).next_pane_id,
        final(mux).next_tab_id == old(mux).next_tab_id,
        final(mux).next_node_id == old(mux).next_node_id,
        final(mux).layout_epoch == old(mux).layout_epoch,
        final(mux).same_side_state(old(mux)),
{
    let ghost o = *old(mux);
    let ghost k = parent_pos(o.nodes@, leaf);
    let ghost lp = node_pos(o.nodes@, leaf);
    let ghost ti = tab_pos(o.tabs@, tab_id);
    proof {
        lemma_parent_pos(o.nodes@, leaf);
        lemma_node_pos(o.nodes@, leaf);
        lemma_tab_pos(o.tabs@, tab_id);
        assert(o.nodes@[lp].first == 0 && o.nodes@[lp].second == 0);
        assert(leaf > 0);
        assert(k != lp);
        lemma_node_pos_unique(o.nodes@, parent, k);
    }
    replace_child(mux, tab_id, parent, sibling);
    let ghost nodes1 = mux.nodes@;
    proof {
        if !(o.tabs@[ti].root == parent) {
            assert(nodes1 =~= relink_all(o.nodes@, parent, sibling));
            lemma_leaves_ok_relink(o.panes@, o.nodes@, nodes1, parent, sibling);
        } else {
            assert(nodes1 == o.nodes@);
        }
        assert forall|a: int| 0 <= a < nodes1.len() implies (#[trigger] nodes1[a]).id == o.nodes@[a].id
            && nodes1[a].pane == o.nodes@[a].pane && nodes1[a].tab == o.nodes@[a].tab
            && nodes1[a].ratio == o.nodes@[a].ratio by {}
        lemma_node_pos_unique(nodes1, parent, k);
        lemma_node_pos_unique(nodes1, leaf, lp);
        // whatever linked the parent, the sibling and the leaf share its tab
        let on = o.nodes@;
        assert(on[k].first == leaf || on[k].second == leaf);
        assert(on[k].first == on[lp].id || on[k].second == on[lp].id);
        assert(on[k].tab == on[lp].tab);
        assert forall|c: int| 0 <= c < on.len() && (#[trigger] on[c]).id == sibling implies on[c].tab == on[lp].tab by {
            assert(on[k].first == on[c].id || on[k].second == on[c].id);
        }
        if !(o.tabs@[ti].root == parent) {
            assert forall|i: int, j: int|
                #![trigger on[i], on[j]]
                0 <= i < on.len() && 0 <= j < on.len() && (on[i].first == parent || on[i].second == parent)
                    && on[j].id == sibling implies on[i].tab == on[j].tab by {
                assert(on[i].first == on[k].id || on[i].second == on[k].id);
                assert(on[k].first == on[j].id || on[k].second == on[j].id);
            }
            assert(sibling < o.next_node_id) by {
                assert(on[k].first < o.next_node_id && on[k].second < o.next_node_id);
            }
            assert forall|i: int| 0 <= i < on.len() implies #[trigger] nodes1[i] == relink(on[i], parent, sibling) by {}
            lemma_links_relink(on, nodes1, o.next_node_id, parent, sibling);
        }
    }
    drop_node(mux, parent);
    let ghost nodes2 = mux.nodes@;
    let ghost lp2 = if lp < k { lp } else { lp - 1 };
    proof {
        assert(nodes2 == nodes1.remove(k));
        assert forall|a: int| 0 <= a < nodes2.len() implies #[trigger] nodes2[a] == nodes1[if a < k { a } else { a + 1 }] by {}
        assert(nodes2[lp2].id == leaf);
        assert forall|x: int, y: int| 0 <= x < y < nodes2.len() implies nodes2[x].id != nodes2[y].id by {
            assert(nodes2[x] == nodes1[if x < k { x } else { x + 1 }]);
            assert(nodes2[y] == nodes1[if y < k { y } else { y + 1 }]);
        }
        lemma_node_pos_unique(nodes2, leaf, lp2);
        lemma_leaves_ok_remove_node(o.panes@, nodes1, k);
    }
    drop_node(mux, leaf);
    proof {
        let nodes3 = mux.nodes@;
        assert(nodes3 == nodes2.remove(lp2));
        lemma_leaves_ok_remove_node(o.panes@, nodes2, lp2);
        assert forall|a: int| 0 <= a < nodes3.len() implies #[trigger] nodes3[a] == nodes2[if a < lp2 { a } else { a + 1 }] by {}
        assert forall|a: int| 0 <= a < nodes3.len() implies #[trigger] nodes3[a].pane != o.nodes@[lp].pane by {
            let b = if a < lp2 { a } else { a + 1 };
            let c = if b < k { b } else { b + 1 };
            assert(nodes3[a] == nodes2[b]);
            assert(nodes2[b] == nodes1[c]);
            assert(c != lp);
            assert(nodes1[c].pane == o.nodes@[c].pane);
        }
        assert forall|x: int, y: int| 0 <= x < y < nodes3.len() implies nodes3[x].id != nodes3[y].id by {
            assert(nodes3[x] == nodes2[if x < lp2 { x } else { x + 1 }]);
            assert(nodes3[y] == nodes2[if y < lp2 { y } else { y + 1 }]);
        }
        assert forall|a: int| 0 <= a < nodes3.len() implies 0 < #[trigger] nodes3[a].id < o.next_node_id
            && 0 <= nodes3[a].ratio <= 1000 by {
            let b = if a < lp2 { a } else { a + 1 };
            let c = if b < k { b } else { b + 1 };
            assert(nodes3[a] == nodes2[b]);
            assert(nodes2[b] == nodes1[c]);
        }
        assert(nodes3 =~= detached_nodes(o.nodes@, o.tabs@[ti].root == parent, parent, sibling, leaf));
        lemma_remove_from(nodes1, k);
        lemma_remove_from(nodes2, lp2);
        assert forall|a: int| 0 <= a < nodes3.len() implies nodes1.contains(#[trigger] nodes3[a]) by {
            let b = if a < lp2 { a } else { a + 1 };
            let c = if b < k { b } else { b + 1 };
            assert(nodes3[a] == nodes2[b]);
            assert(nodes2[b] == nodes1[c]);
        }
        lemma_links_sub(nodes1, nodes3, o.next_node_id);
        // one branch and one leaf of the leaf's tab go
        let t = o.nodes@[lp].tab;
        assert forall|i: int| 0 <= i < o.nodes@.len() implies (#[trigger] o.nodes@[i]).tab == nodes1[i].tab
            && (o.nodes@[i].pane == 0) == (nodes1[i].pane == 0) by {}
        assert(same_tab_ids(o.tabs@, o.tabs@));
        lemma_counts_ok_same(o.nodes@, nodes1, o.tabs@, o.tabs@);
        assert(o.nodes@[k].first == leaf || o.nodes@[k].second == leaf);
        assert(o.nodes@[k].first == o.nodes@[lp].id || o.nodes@[k].second == o.nodes@[lp].id);
        assert(o.nodes@[k].pane == 0);
        assert(same_tab_ids(o.tabs@, mux.tabs@));
        lemma_counts_ok_close(nodes1, o.tabs@, mux.tabs@, k, lp2, t);
        assert forall|a: int| 0 <= a < nodes3.len() && (#[trigger] nodes3[a]).id == sibling
            implies nodes3[a].tab == o.nodes@[lp].tab by {
            let b = if a < lp2 { a } else { a + 1 };
            let c = if b < k { b } else { b + 1 };
            assert(nodes3[a] == nodes2[b]);
            assert(nodes2[b] == nodes1[c]);
            assert(o.nodes@[c].id == sibling);
        }
    }
}

/// What [`mux_close_pane`] does (see its doc comment): `r` is the result
/// code, `freed` the handles to free.
pub open spec fn close_pane_post(o: &Mux, f: &Mux, pane_id: i64, r: i64, freed: Seq<i64>) -> bool {
    let pi = pane_pos(o.panes@, pane_id);
    let lp = leaf_pos(o.nodes@, pane_id);
    if pi < 0 || lp < 0 {
        r == -1 && freed.len() == 0 && f.unchanged_from(o)
    } else {
        let p = o.panes@[pi];
        let leaf = o.nodes@[lp].id;
        let ti = tab_pos(o.tabs@, p.tab);
        if o.tabs@[ti].root == leaf {
            close_tab_post(o, f, p.tab, r, freed)
        } else {
            let k = parent_pos(o.nodes@, leaf);
            if k < 0 {
                r == 0 && freed.len() == 0 && f.unchanged_from(o)
            } else {
                let parent = o.nodes@[k].id;
                let sib = sibling_of(o.nodes@[k], leaf);
                let root_hit = o.tabs@[ti].root == parent;
                let tabs1 = if root_hit {
                    o.tabs@.update(ti, Tab { root: sib, ..o.tabs@[ti] })
                } else {
                    o.tabs@
                };
                let nodes3 = detached_nodes(o.nodes@, root_hit, parent, sib, leaf);
                let nf = leftmost(nodes3, sib, nodes3.len());
                &&& r == 1
                &&& freed == seq![p.handle]
                &&& f.panes@ == o.panes@.remove(pi)
                &&& f.nodes@ == nodes3
                &&& f.tabs@ == (if tabs1[ti].active_pane == pane_id && nf != 0 {
                    tabs1.update(ti, Tab { active_pane: nf, ..tabs1[ti] })
                } else {
                    tabs1
                })
                &&& f.active_tab == o.active_tab
                &&& f.next_pane_id == o.next_pane_id
                &&& f.next_tab_id == o.next_tab_id
                &&& f.next_node_id == o.next_node_id
                &&& f.layout_epoch == o.layout_epoch + 1
                &&& f.same_side_state(o)
            }
        }
    }
}

/// Close pane `pane_id`: its sibling subtree takes the parent branch's
/// place, the leaf and the branch are dropped, and if it had the focus
/// the focus moves to the leftmost pane of the sibling subtree. Closing
/// the last pane of a tab closes the tab. Returns (1 = closed, 0 = refused
/// or the leaf has no parent, -1 = unknown) and the handles to free.
pub fn mux_close_pane(mux: &mut Mux, pane_id: i64) -> (res: (i64, Vec<i64>))
    requires
        old(mux).wf(),
        old(mux).layout_epoch < i64::MAX,
    ensures
        final(mux).wf(),
        close_pane_post(old(mux), final(mux), pane_id, res.0, res.1@),
{
    let pi: i64 = pane_index(mux, pane_id);
    proof {
        lemma_pane_pos(old(mux).panes@, pane_id);
        lemma_leaf_pos(old(mux).nodes@, pane_id);
    }
    if pi < 0 {
        return (-1, Vec::new());
    }
    assert(0 <= pi < mux.panes.len());
    let tab_id: i64 = mux.panes[pi as usize].tab;
    let leaf: i64 = leaf_node_of_pane(mux, pane_id);
    if leaf == 0 {
        return (-1, Vec::new());
    }
    let ti2: i64 = tab_index(mux, tab_id);
    proof {
        lemma_tab_pos(old(mux).tabs@, tab_id);
        assert(0 <= ti2 < mux.tabs.len());
    }
    if mux.tabs[ti2 as usize].root == leaf {
        return mux_close_tab(mux, tab_id);
    }
    let (parent, sibling) = find_parent(mux, leaf);
    proof {
        lemma_parent_pos(old(mux).nodes@, leaf);
        let k = parent_pos(old(mux).nodes@, leaf);
        if k >= 0 {
            assert(old(mux).nodes@[k].id > 0);
        }
        let lp = leaf_pos(old(mux).nodes@, pane_id);
        lemma_node_pos_unique(old(mux).nodes@, leaf, lp);
    }
    if parent == 0 {
        return (0, Vec::new());
    }
    detach_leaf(mux, tab_id, parent, sibling, leaf);
    let ghost tabs_d = mux.tabs@;
    let h: i64 = mux.panes[pi as usize].handle;
    proof {
        let o = *old(mux);
        assert(o.panes@[pi as int].id == pane_id);
        lemma_leaves_ok_remove_pane(o.panes@, mux.nodes@, pi as int);
    }
    remove_pane_at(mux, pi);
    let mut freed: Vec<i64> = Vec::new();
    freed.push(h);
    proof {
        lemma_tab_pos_unique(old(mux).tabs@, tab_id, ti2 as int);
    }
    if mux.tabs[ti2 as usize].active_pane == pane_id {
        let next_focus: i64 = leftmost_pane(mux, sibling);
        if next_focus != 0 {
            let mut t = mux.tabs[ti2 as usize];
            t.active_pane = next_focus;
            mux.tabs.set(ti2 as usize, t);
        }
    }
    bump_layout_epoch(mux);
    proof {
        let o = *old(mux);
        let np = mux.panes@;
        assert(np == o.panes@.remove(pi as int));
        assert forall|a: int| 0 <= a < np.len() implies #[trigger] np[a] == o.panes@[if a < pi { a } else { a + 1 }] by {}
        assert forall|x: int, y: int| 0 <= x < y < np.len() implies np[x].id != np[y].id by {
            assert(np[x] == o.panes@[if x < pi { x } else { x + 1 }]);
            assert(np[y] == o.panes@[if y < pi { y } else { y + 1 }]);
        }
        assert forall|k2: int| #![auto] 0 <= k2 < mux.tabs@.len() implies mux.tabs@[k2].id == o.tabs@[k2].id by {}
        lemma_tabs_same_ids(o.tabs@, mux.tabs@);
        assert forall|a: int| 0 <= a < np.len() implies 0 < #[trigger] np[a].id < mux.next_pane_id
            && tab_pos(mux.tabs@, np[a].tab) >= 0 by {
            assert(np[a] == o.panes@[if a < pi { a } else { a + 1 }]);
        }
        assert(freed@ =~= seq![o.panes@[pi as int].handle]);
        assert forall|t: i64| #[trigger] pane_ids_of_tab(np, t).len() <= MAX_PANES by {
            lemma_count_remove(o.panes@, pi as int, t);
        }
        // the new focus, if any, is a pane of the closing pane's tab
        let nn = mux.nodes@;
        let lp = leaf_pos(o.nodes@, pane_id);
        lemma_node_pos_unique(o.nodes@, leaf, lp);
        assert(o.nodes@[lp].tab == tab_id) by {
            lemma_pane_pos_unique(o.panes@, pane_id, pi as int);
        }
        lemma_leftmost_owned(np, nn, mux.next_node_id, sibling, tab_id, nn.len());
        assert forall|x: int| 0 <= x < np.len() implies o.panes@.contains(#[trigger] np[x]) by {
            assert(np[x] == o.panes@[if x < pi { x } else { x + 1 }]);
        }
        let nt = mux.tabs@;
        assert forall|a: int| 0 <= a < nt.len() implies nt[a].id == o.tabs@[a].id by {}
        assert forall|a: int| 0 <= a < nt.len() implies 0 < #[trigger] nt[a].active_pane < mux.next_pane_id by {
            assert(tabs_d[a].active_pane == o.tabs@[a].active_pane);
            if nt[a].active_pane != o.tabs@[a].active_pane {
                let nf = nt[a].active_pane;
                lemma_pane_pos(np, nf);
                assert(np[pane_pos(np, nf)].id == nf);
            }
        }
        assert forall|a: int|
            0 <= a < nt.len() && pane_pos(np, #[trigger] nt[a].active_pane) >= 0
                implies np[pane_pos(np, nt[a].active_pane)].tab == nt[a].id by {
            assert(tabs_d[a].active_pane == o.tabs@[a].active_pane);
            if nt[a].active_pane == o.tabs@[a].active_pane {
                lemma_pane_found_in(o.panes@, np, nt[a].active_pane);
            }
        }
    }
    (1, freed)
}
} // verus!
