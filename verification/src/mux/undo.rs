//! What one operation undoes of another.

use vstd::prelude::*;
use crate::mux::model::{
    Mux, Node, Pane, Tab, pane_pos, node_pos, leaf_pos, tab_pos, lemma_pane_pos, lemma_leaf_pos,
    lemma_tab_pos, lemma_pane_pos_unique, lemma_node_pos_unique, lemma_tab_pos_unique,
};
use crate::mux::grow::{split_post, relink, new_tab_post};
use crate::mux::ops::{zoom_post, lemma_tabs_same_ids};
use crate::mux::close::{
    close_pane_post, close_tab_post, parent_pos, sibling_of, relink_all, without_node, detached_nodes,
    panes_outside, nodes_outside, handles_desc,
};

verus! {

/// The node ids a split hands out next are free for it: no node links to
/// the second, no tab has either as its root, and the focused node does
/// not link to itself.
pub open spec fn split_ids_free(m: &Mux) -> bool {
    let a = m.next_node_id;
    let b = m.next_node_id + 1;
    let lp = leaf_pos(m.nodes@, m.focus_pane());
    &&& forall|i: int| 0 <= i < m.nodes@.len() ==> (#[trigger] m.nodes@[i]).first != b && m.nodes@[i].second != b
    &&& forall|i: int| 0 <= i < m.tabs@.len() ==> (#[trigger] m.tabs@[i]).root != a && m.tabs@[i].root != b
    &&& (0 <= lp < m.nodes@.len() ==> m.nodes@[lp].first != m.nodes@[lp].id && m.nodes@[lp].second
        != m.nodes@[lp].id)
}

/// Relinking `old` to `new` and back leaves a node as it was, when it
/// does not link to `new` and is not `old` itself with a link to `old`.
proof fn lemma_relink_back(n: Node, old: i64, new: i64)
    requires
        n.id != new,
        n.first != new,
        n.second != new,
        n.id == old ==> n.first != old && n.second != old,
    ensures
        relink(relink(n, old, new), new, old) == n,
{
}

/// Splitting the focused pane (with a started session) and then closing
/// the pane the split made gives back the tabs, the split tree and the
/// panes as they were, and frees exactly the new session.
pub proof fn lemma_split_then_close_restores(
    m0: Mux,
    m1: Mux,
    m2: Mux,
    axis: i64,
    handle: i64,
    r: i64,
    code: i64,
    freed: Seq<i64>,
)
    requires
        m0.wf(),
        split_ids_free(&m0),
        m0.split_check() == 1,
        handle != 0,
        split_post(&m0, &m1, axis, handle, r),
        m1.wf(),
        close_pane_post(&m1, &m2, r, code, freed),
    ensures
        code == 1,
        freed == seq![handle],
        m2.panes@ == m0.panes@,
        m2.tabs@ == m0.tabs@,
        m2.nodes@ == m0.nodes@,
{
    let ti = m0.active_pos();
    let tab = m0.tabs@[ti];
    let focus = tab.active_pane;
    let lp0 = leaf_pos(m0.nodes@, focus);
    let old_leaf = m0.nodes@[lp0].id;
    let new_leaf = m0.next_node_id;
    let branch = (m0.next_node_id + 1) as i64;
    let len = m0.nodes@.len() as int;
    let lenp = m0.panes@.len() as int;
    let ln = m1.nodes@[len];
    let bn = m1.nodes@[len + 1];
    lemma_tab_pos(m0.tabs@, m0.active_tab);
    lemma_leaf_pos(m0.nodes@, focus);
    assert(0 <= ti < m0.tabs@.len());
    assert(0 <= lp0 < len);
    // the focused pane (if any) exists, so its id was handed out before r
    if focus != 0 {
        assert(m0.nodes@[lp0].pane != 0);
        lemma_pane_pos(m0.panes@, focus);
    }
    assert(focus != r);
    // the new pane is the last one
    assert(m1.panes@[lenp] == m1.panes@.last());
    lemma_pane_pos_unique(m1.panes@, r, lenp);
    let pi = pane_pos(m1.panes@, r);
    let p = m1.panes@[pi];
    // the new leaf is the only node of the new pane
    lemma_leaf_pos(m1.nodes@, r);
    let lp = leaf_pos(m1.nodes@, r);
    assert(lp == len) by {
        if lp > len {
            assert(m1.nodes@[len + 1].pane == 0);
        }
        if lp < len {
            assert(m1.nodes@[len].pane == r);
        }
    }
    let leaf = m1.nodes@[lp].id;
    assert(leaf == new_leaf);
    // the tab keeps its place
    assert(m1.tabs@[ti].id == tab.id);
    lemma_tab_pos_unique(m1.tabs@, tab.id, ti);
    assert(tab_pos(m1.tabs@, p.tab) == ti);
    assert(tab.root != new_leaf && tab.root != branch);
    assert(m1.tabs@[ti].root != leaf);
    // the branch is the parent of the new leaf
    assert(m1.nodes@.last() == bn);
    assert(parent_pos(m1.nodes@, leaf) == len + 1);
    assert(sibling_of(bn, leaf) == old_leaf);
    let root_hit = m1.tabs@[ti].root == branch;
    assert(root_hit == (tab.root == old_leaf));
    let tabs1 = if root_hit {
        m1.tabs@.update(ti, Tab { root: old_leaf, ..m1.tabs@[ti] })
    } else {
        m1.tabs@
    };
    assert(tabs1 =~= m0.tabs@);
    // relinking back restores the nodes before the split
    let nodes1 = if root_hit { m1.nodes@ } else { relink_all(m1.nodes@, branch, old_leaf) };
    assert(nodes1 =~= m0.nodes@.push(ln).push(bn)) by {
        assert forall|i: int| 0 <= i < len implies #[trigger] nodes1[i] == m0.nodes@[i] by {
            if !root_hit {
                let n = m0.nodes@[i];
                assert(n.id < m0.next_node_id);
                assert(n.first != branch && n.second != branch);
                if n.id == old_leaf {
                    lemma_node_pos_unique(m0.nodes@, old_leaf, lp0);
                    lemma_node_pos_unique(m0.nodes@, old_leaf, i);
                }
                lemma_relink_back(n, old_leaf, branch);
            }
        }
    }
    assert(nodes1.last() == bn);
    assert(node_pos(nodes1, branch) == len + 1);
    let nodes2 = without_node(nodes1, branch);
    assert(nodes2 =~= m0.nodes@.push(ln));
    assert(nodes2.last() == ln);
    assert(node_pos(nodes2, leaf) == len);
    assert(without_node(nodes2, leaf) =~= m0.nodes@);
    assert(detached_nodes(m1.nodes@, root_hit, branch, old_leaf, leaf) == m0.nodes@);
    assert(tabs1[ti].active_pane == focus);
    assert(m1.panes@.remove(pi) =~= m0.panes@);
}


/// Dropping tab `t`'s panes from a table with none of them changes nothing.
proof fn lemma_panes_outside_none(s: Seq<Pane>, t: i64)
    requires
        forall|i: int| 0 <= i < s.len() ==> (#[trigger] s[i]).tab != t,
    ensures
        panes_outside(s, t) == s,
    decreases s.len(),
{
    if s.len() > 0 {
        lemma_panes_outside_none(s.drop_first(), t);
        assert(seq![s[0]] + s.drop_first() =~= s);
    }
}

/// A pane of tab `t` appended to a table is dropped with the tab.
proof fn lemma_panes_outside_push(s: Seq<Pane>, p: Pane, t: i64)
    requires
        p.tab == t,
    ensures
        panes_outside(s.push(p), t) == panes_outside(s, t),
    decreases s.len(),
{
    reveal_with_fuel(panes_outside, 2);
    if s.len() == 0 {
        assert(s.push(p).drop_first() =~= Seq::<Pane>::empty());
        assert(s.push(p)[0] == p);
    } else {
        assert(s.push(p).drop_first() =~= s.drop_first().push(p));
        assert(s.push(p)[0] == s[0]);
        lemma_panes_outside_push(s.drop_first(), p, t);
    }
}

/// Dropping tab `t`'s nodes from a list with none of them changes nothing.
proof fn lemma_nodes_outside_none(s: Seq<Node>, t: i64)
    requires
        forall|i: int| 0 <= i < s.len() ==> (#[trigger] s[i]).tab != t,
    ensures
        nodes_outside(s, t) == s,
    decreases s.len(),
{
    if s.len() > 0 {
        lemma_nodes_outside_none(s.drop_first(), t);
        assert(seq![s[0]] + s.drop_first() =~= s);
    }
}

/// A node of tab `t` appended to a list is dropped with the tab.
proof fn lemma_nodes_outside_push(s: Seq<Node>, n: Node, t: i64)
    requires
        n.tab == t,
    ensures
        nodes_outside(s.push(n), t) == nodes_outside(s, t),
    decreases s.len(),
{
    reveal_with_fuel(nodes_outside, 2);
    if s.len() == 0 {
        assert(s.push(n).drop_first() =~= Seq::<Node>::empty());
        assert(s.push(n)[0] == n);
    } else {
        assert(s.push(n).drop_first() =~= s.drop_first().push(n));
        assert(s.push(n)[0] == s[0]);
        lemma_nodes_outside_push(s.drop_first(), n, t);
    }
}

/// The only pane of tab `t` is the appended one: its handle is all that
/// closing the tab frees.
proof fn lemma_handles_desc_single(s: Seq<Pane>, p: Pane, t: i64)
    requires
        p.tab == t,
        forall|i: int| 0 <= i < s.len() ==> (#[trigger] s[i]).tab != t,
    ensures
        handles_desc(s.push(p), t) == seq![p.handle],
    decreases s.len(),
{
    reveal_with_fuel(handles_desc, 2);
    if s.len() == 0 {
        assert(s.push(p).drop_first() =~= Seq::<Pane>::empty());
        assert(s.push(p)[0] == p);
        assert(Seq::<i64>::empty().push(p.handle) =~= seq![p.handle]);
    } else {
        assert(s.push(p).drop_first() =~= s.drop_first().push(p));
        assert(s.push(p)[0] == s[0]);
        lemma_handles_desc_single(s.drop_first(), p, t);
    }
}

/// Opening a tab (with a started session) beside existing ones and then
/// closing it gives back the tabs, the panes and the split trees as they
/// were and frees exactly the new session; the first tab is then active.
pub proof fn lemma_new_tab_then_close_restores(
    m0: Mux,
    m1: Mux,
    m2: Mux,
    handle: i64,
    t: i64,
    code: i64,
    freed: Seq<i64>,
)
    requires
        m0.wf(),
        m0.tabs@.len() >= 1,
        forall|i: int| 0 <= i < m0.nodes@.len() ==> (#[trigger] m0.nodes@[i]).tab != m0.next_tab_id,
        handle != 0,
        new_tab_post(&m0, &m1, handle, t),
        m1.wf(),
        close_tab_post(&m1, &m2, t, code, freed),
    ensures
        code == 1,
        freed == seq![handle],
        m2.panes@ == m0.panes@,
        m2.tabs@ == m0.tabs@,
        m2.nodes@ == m0.nodes@,
        m2.active_tab == m0.tabs@[0].id,
{
    let lt = m0.tabs@.len() as int;
    assert(m1.tabs@.last().id == t);
    assert(tab_pos(m1.tabs@, t) == lt);
    assert(m1.tabs@.remove(lt) =~= m0.tabs@);
    assert forall|i: int| 0 <= i < m0.panes@.len() implies (#[trigger] m0.panes@[i]).tab != t by {
        let k = tab_pos(m0.tabs@, m0.panes@[i].tab);
        lemma_tab_pos(m0.tabs@, m0.panes@[i].tab);
        assert(m0.tabs@[k].id < m0.next_tab_id);
    }
    let p = m1.panes@.last();
    assert(m1.panes@ =~= m0.panes@.push(p));
    lemma_panes_outside_push(m0.panes@, p, t);
    lemma_panes_outside_none(m0.panes@, t);
    lemma_handles_desc_single(m0.panes@, p, t);
    let n = m1.nodes@.last();
    assert(m1.nodes@ =~= m0.nodes@.push(n));
    lemma_nodes_outside_push(m0.nodes@, n, t);
    lemma_nodes_outside_none(m0.nodes@, t);
}


/// Zooming the same pane twice gives back the active tab, when it was
/// unzoomed or zoomed on that pane; for a real pane one call zooms and
/// the other clears.
pub proof fn lemma_zoom_twice_restores(m0: Mux, m1: Mux, m2: Mux, pane_id: i64, r1: i64, r2: i64)
    requires
        m0.wf(),
        m1.wf(),
        m0.active_pos() >= 0 ==> m0.tabs@[m0.active_pos()].zoomed_pane == 0
            || m0.tabs@[m0.active_pos()].zoomed_pane == pane_id,
        zoom_post(&m0, &m1, pane_id, r1),
        zoom_post(&m1, &m2, pane_id, r2),
    ensures
        m2.tabs@ == m0.tabs@,
        m2.panes@ == m0.panes@,
        m2.nodes@ == m0.nodes@,
        m2.active_tab == m0.active_tab,
        m0.active_pos() >= 0 && pane_id != 0 ==> r1 + r2 == 1,
        m0.active_pos() < 0 ==> r1 == -1 && r2 == -1,
{
    if m0.active_pos() >= 0 {
        let ti = m0.active_pos();
        lemma_tab_pos(m0.tabs@, m0.active_tab);
        assert forall|i: int| 0 <= i < m0.tabs@.len() implies #[trigger] m0.tabs@[i].id == m1.tabs@[i].id by {}
        lemma_tabs_same_ids(m0.tabs@, m1.tabs@);
        assert(m1.active_pos() == ti);
        assert(m2.tabs@ =~= m0.tabs@);
    }
}

} // verus!
