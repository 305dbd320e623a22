//! Ownership facts behind the workspace invariant: branch links stay
//! inside one tab, and a tab's focus is one of its own panes. Each lemma
//! covers one way the node or pane tables change.

use vstd::prelude::*;
use crate::mux::model::{
    Mux, Node, Pane, Tab, leaves_ok, links_ok, focus_owned, pane_pos, node_pos, lemma_pane_pos,
    lemma_node_pos, lemma_pane_pos_unique,
};
use crate::mux::grow::{relink, lemma_pane_pos_push};
use crate::mux::close::leftmost;

verus! {

/// Links stay inside one tab in any table whose entries all come from
/// one where they do.
pub proof fn lemma_links_sub(a: Seq<Node>, b: Seq<Node>, next: i64)
    requires
        links_ok(a, next),
        forall|x: int| 0 <= x < b.len() ==> a.contains(#[trigger] b[x]),
    ensures
        links_ok(b, next),
{
    assert forall|i: int| 0 <= i < b.len() implies #[trigger] b[i].first < next && b[i].second < next by {
        assert(a.contains(b[i]));
        let c = choose|c: int| 0 <= c < a.len() && a[c] == b[i];
        assert(a[c] == b[i]);
        assert(a[c].first < next && a[c].second < next);
    }
    assert forall|i: int, j: int|
        #![trigger b[i], b[j]]
        0 <= i < b.len() && 0 <= j < b.len() && (b[i].first == b[j].id || b[i].second == b[j].id)
            implies b[i].tab == b[j].tab by {
        assert(a.contains(b[i]));
        assert(a.contains(b[j]));
        let c = choose|c: int| 0 <= c < a.len() && a[c] == b[i];
        let d = choose|d: int| 0 <= d < a.len() && a[d] == b[j];
        assert(a[c] == b[i] && a[d] == b[j]);
    }
}

/// Every entry left after a removal was there before.
pub proof fn lemma_remove_from(a: Seq<Node>, k: int)
    requires
        0 <= k < a.len(),
    ensures
        forall|x: int| 0 <= x < a.remove(k).len() ==> a.contains(#[trigger] a.remove(k)[x]),
{
    assert forall|x: int| 0 <= x < a.remove(k).len() implies a.contains(#[trigger] a.remove(k)[x]) by {
        let c = if x < k { x } else { x + 1 };
        assert(a[c] == a.remove(k)[x]);
    }
}

/// Redirecting the links to `old` towards `new` keeps links inside one
/// tab when whatever linked `old` shares the tab of node `new`.
pub proof fn lemma_links_relink(a: Seq<Node>, b: Seq<Node>, next: i64, old: i64, new: i64)
    requires
        links_ok(a, next),
        new < next,
        b.len() == a.len(),
        forall|i: int| 0 <= i < a.len() ==> #[trigger] b[i] == relink(a[i], old, new),
        forall|i: int, j: int|
            #![trigger a[i], a[j]]
            0 <= i < a.len() && 0 <= j < a.len() && (a[i].first == old || a[i].second == old) && a[j].id == new
                ==> a[i].tab == a[j].tab,
    ensures
        links_ok(b, next),
{
    assert forall|i: int| 0 <= i < b.len() implies #[trigger] b[i].first < next && b[i].second < next by {
        assert(b[i] == relink(a[i], old, new));
        assert(a[i].first < next && a[i].second < next);
    }
    assert forall|i: int, j: int|
        #![trigger b[i], b[j]]
        0 <= i < b.len() && 0 <= j < b.len() && (b[i].first == b[j].id || b[i].second == b[j].id)
            implies b[i].tab == b[j].tab by {
        assert(b[i] == relink(a[i], old, new));
        assert(b[j] == relink(a[j], old, new));
        assert(a[i].first < next && a[i].second < next);
    }
}

/// Appending a node with a fresh id keeps links inside one tab when its
/// own links name nodes of its tab (or nothing yet handed out).
pub proof fn lemma_links_push(a: Seq<Node>, next: i64, nd: Node, next2: i64)
    requires
        links_ok(a, next),
        forall|i: int| 0 <= i < a.len() ==> (#[trigger] a[i]).id < next,
        next <= nd.id < next2,
        nd.first < next2,
        nd.second < next2,
        forall|j: int| 0 <= j < a.len() && (nd.first == (#[trigger] a[j]).id || nd.second == a[j].id) ==> a[j].tab == nd.tab,
    ensures
        links_ok(a.push(nd), next2),
{
    let b = a.push(nd);
    assert forall|i: int| 0 <= i < b.len() implies #[trigger] b[i].first < next2 && b[i].second < next2 by {
        if i < a.len() {
            assert(b[i] == a[i]);
        }
    }
    assert forall|i: int, j: int|
        #![trigger b[i], b[j]]
        0 <= i < b.len() && 0 <= j < b.len() && (b[i].first == b[j].id || b[i].second == b[j].id)
            implies b[i].tab == b[j].tab by {
        if i < a.len() {
            assert(b[i] == a[i]);
            assert(a[i].first < next && a[i].second < next);
            if j < a.len() {
                assert(b[j] == a[j]);
            }
        } else if j < a.len() {
            assert(b[j] == a[j]);
        }
    }
}

/// Re-linking one branch keeps links inside one tab when its new links
/// name nodes of its tab.
pub proof fn lemma_links_update(a: Seq<Node>, next: i64, k: int, nd: Node)
    requires
        links_ok(a, next),
        0 <= k < a.len(),
        nd.id == a[k].id,
        nd.tab == a[k].tab,
        nd.first < next,
        nd.second < next,
        forall|j: int| 0 <= j < a.len() && (nd.first == (#[trigger] a[j]).id || nd.second == a[j].id) ==> a[j].tab == nd.tab,
    ensures
        links_ok(a.update(k, nd), next),
{
    let b = a.update(k, nd);
    assert forall|i: int| 0 <= i < b.len() implies #[trigger] b[i].first < next && b[i].second < next by {
        if i != k {
            assert(b[i] == a[i]);
        }
    }
    assert forall|i: int, j: int|
        #![trigger b[i], b[j]]
        0 <= i < b.len() && 0 <= j < b.len() && (b[i].first == b[j].id || b[i].second == b[j].id)
            implies b[i].tab == b[j].tab by {
        assert(b[j].id == a[j].id && b[j].tab == a[j].tab);
        if i != k {
            assert(b[i] == a[i]);
        }
    }
}

/// The pane that the leftmost walk from a node of tab `t` finds is an
/// existing pane of tab `t`.
pub proof fn lemma_leftmost_owned(panes: Seq<Pane>, nodes: Seq<Node>, next: i64, id: i64, t: i64, fuel: nat)
    requires
        links_ok(nodes, next),
        leaves_ok(panes, nodes),
        forall|x: int| 0 <= x < nodes.len() && (#[trigger] nodes[x]).id == id ==> nodes[x].tab == t,
    ensures
        leftmost(nodes, id, fuel) != 0 ==> {
            &&& pane_pos(panes, leftmost(nodes, id, fuel)) >= 0
            &&& panes[pane_pos(panes, leftmost(nodes, id, fuel))].tab == t
        },
    decreases fuel,
{
    if fuel > 0 {
        let k = node_pos(nodes, id);
        lemma_node_pos(nodes, id);
        if k >= 0 {
            assert(nodes[k].tab == t);
            if nodes[k].pane == 0 {
                let f = nodes[k].first;
                let s = nodes[k].second;
                assert forall|x: int| 0 <= x < nodes.len() && (#[trigger] nodes[x]).id == f implies nodes[x].tab == t by {
                    assert(nodes[k].first == nodes[x].id);
                }
                assert forall|x: int| 0 <= x < nodes.len() && (#[trigger] nodes[x]).id == s implies nodes[x].tab == t by {
                    assert(nodes[k].second == nodes[x].id);
                }
                lemma_leftmost_owned(panes, nodes, next, f, t, (fuel - 1) as nat);
                lemma_leftmost_owned(panes, nodes, next, s, t, (fuel - 1) as nat);
            }
        }
    }
}

/// Tab tables that agree on ids and focus position by position.
pub open spec fn same_focus(a: Seq<Tab>, b: Seq<Tab>) -> bool {
    &&& a.len() == b.len()
    &&& forall|i: int| 0 <= i < a.len() ==> (#[trigger] b[i]).id == a[i].id && b[i].active_pane == a[i].active_pane
}

/// Focus ownership survives a new pane with a fresh id (and a tab table
/// that keeps every tab's id and focus, with a higher id bound).
pub proof fn lemma_focus_push_pane(panes: Seq<Pane>, tabs: Seq<Tab>, tabs2: Seq<Tab>, next: i64, p: Pane, next2: i64)
    requires
        focus_owned(panes, tabs, next),
        same_focus(tabs, tabs2),
        p.id == next,
        next < next2,
    ensures
        focus_owned(panes.push(p), tabs2, next2),
{
    let ps = panes.push(p);
    assert forall|i: int| 0 <= i < tabs2.len() implies 0 < #[trigger] tabs2[i].active_pane < next2 by {
        assert(tabs2[i].active_pane == tabs[i].active_pane);
    }
    assert forall|i: int|
        0 <= i < tabs2.len() && pane_pos(ps, #[trigger] tabs2[i].active_pane) >= 0
            implies ps[pane_pos(ps, tabs2[i].active_pane)].tab == tabs2[i].id by {
        let ap = tabs2[i].active_pane;
        assert(tabs2[i].id == tabs[i].id && ap == tabs[i].active_pane);
        assert(ap < next);
        lemma_pane_pos_push(panes, p, ap);
        lemma_pane_pos(panes, ap);
        assert(ps[pane_pos(panes, ap)] == panes[pane_pos(panes, ap)]);
    }
}

/// A pane found in a table whose entries all come from a table with
/// unique ids is the same pane there.
pub proof fn lemma_pane_found_in(a: Seq<Pane>, b: Seq<Pane>, id: i64)
    requires
        forall|i: int, j: int| 0 <= i < j < a.len() ==> a[i].id != a[j].id,
        forall|x: int| 0 <= x < b.len() ==> a.contains(#[trigger] b[x]),
        pane_pos(b, id) >= 0,
    ensures
        pane_pos(a, id) >= 0,
        a[pane_pos(a, id)] == b[pane_pos(b, id)],
{
    lemma_pane_pos(b, id);
    let x = pane_pos(b, id);
    assert(a.contains(b[x]));
    let c = choose|c: int| 0 <= c < a.len() && a[c] == b[x];
    lemma_pane_pos_unique(a, id, c);
}

/// The workspace focus, when it names an existing pane, names a pane of
/// the active tab; so focusing a pane of another tab never makes it the
/// workspace focus.
pub proof fn lemma_focus_in_active_tab(m: &Mux)
    requires
        m.wf(),
    ensures
        pane_pos(m.panes@, m.focus_pane()) >= 0 ==> m.panes@[pane_pos(m.panes@, m.focus_pane())].tab
            == m.active_tab,
{
    crate::mux::model::lemma_tab_pos(m.tabs@, m.active_tab);
    lemma_pane_pos(m.panes@, m.focus_pane());
    if m.active_pos() >= 0 {
        assert(m.focus_pane() == m.tabs@[m.active_pos()].active_pane);
    }
}

} // verus!
