//! Counting leaves and branches per tab: how the counts move under the
//! table changes that the operations make, and why every tab keeps a pane.

use vstd::prelude::*;
use crate::mux::model::{
    Mux, Node, Pane, Tab, counts_ok, leaf_count, branch_count, leaves_ok, pane_pos, lemma_pane_pos, lemma_tab_pos,
};
use crate::mux::ops::pane_ids_of_tab;
use crate::mux::close::nodes_outside;

verus! {

/// `n` is a leaf of tab `t`.
pub open spec fn is_leaf_of(n: Node, t: i64) -> bool {
    n.tab == t && n.pane != 0
}

/// `n` is a branch of tab `t`.
pub open spec fn is_branch_of(n: Node, t: i64) -> bool {
    n.tab == t && n.pane == 0
}

pub proof fn lemma_counts_push(s: Seq<Node>, n: Node, t: i64)
    ensures
        leaf_count(s.push(n), t) == leaf_count(s, t) + (if is_leaf_of(n, t) { 1int } else { 0int }),
        branch_count(s.push(n), t) == branch_count(s, t) + (if is_branch_of(n, t) { 1int } else { 0int }),
{
    assert(s.push(n).drop_last() =~= s);
}

pub proof fn lemma_counts_concat(a: Seq<Node>, b: Seq<Node>, t: i64)
    ensures
        leaf_count(a + b, t) == leaf_count(a, t) + leaf_count(b, t),
        branch_count(a + b, t) == branch_count(a, t) + branch_count(b, t),
    decreases b.len(),
{
    if b.len() == 0 {
        assert(a + b =~= a);
    } else {
        lemma_counts_concat(a, b.drop_last(), t);
        assert((a + b).drop_last() =~= a + b.drop_last());
        assert((a + b).last() == b.last());
    }
}

pub proof fn lemma_counts_remove(s: Seq<Node>, k: int, t: i64)
    requires
        0 <= k < s.len(),
    ensures
        leaf_count(s, t) == leaf_count(s.remove(k), t) + (if is_leaf_of(s[k], t) { 1int } else { 0int }),
        branch_count(s, t) == branch_count(s.remove(k), t) + (if is_branch_of(s[k], t) { 1int } else { 0int }),
{
    let a = s.take(k);
    let b = s.skip(k + 1);
    assert(s.remove(k) =~= a + b);
    assert(s =~= a.push(s[k]) + b);
    lemma_counts_concat(a, b, t);
    lemma_counts_concat(a.push(s[k]), b, t);
    lemma_counts_push(a, s[k], t);
}

/// Tables that agree position by position on each node's tab and on
/// whether it holds a pane count alike.
pub proof fn lemma_counts_same_kinds(a: Seq<Node>, b: Seq<Node>, t: i64)
    requires
        a.len() == b.len(),
        forall|i: int| 0 <= i < a.len() ==> (#[trigger] a[i]).tab == b[i].tab && (a[i].pane == 0) == (b[i].pane == 0),
    ensures
        leaf_count(a, t) == leaf_count(b, t),
        branch_count(a, t) == branch_count(b, t),
    decreases a.len(),
{
    if a.len() > 0 {
        let n = (a.len() - 1) as int;
        assert(a[n].tab == b[n].tab);
        lemma_counts_same_kinds(a.drop_last(), b.drop_last(), t);
    }
}

/// Dropping every node of tab `tab` empties its counts and keeps the others.
pub proof fn lemma_counts_outside(s: Seq<Node>, tab: i64, t: i64)
    ensures
        leaf_count(nodes_outside(s, tab), t) == (if t == tab { 0 } else { leaf_count(s, t) }),
        branch_count(nodes_outside(s, tab), t) == (if t == tab { 0 } else { branch_count(s, t) }),
    decreases s.len(),
{
    if s.len() == 0 {
        assert(nodes_outside(s, tab) =~= Seq::<Node>::empty());
    } else {
        let d = s.drop_first();
        lemma_counts_outside(d, tab, t);
        assert(s =~= seq![s[0]] + d);
        lemma_counts_concat(seq![s[0]], d, t);
        assert(seq![s[0]] =~= Seq::<Node>::empty().push(s[0]));
        lemma_counts_push(Seq::<Node>::empty(), s[0], t);
        if s[0].tab != tab {
            lemma_counts_concat(seq![s[0]], nodes_outside(d, tab), t);
        }
    }
}

/// A tab with a leaf has a node that is one.
pub proof fn lemma_leaf_exists(s: Seq<Node>, t: i64) -> (i: int)
    requires
        leaf_count(s, t) >= 1,
    ensures
        0 <= i < s.len(),
        is_leaf_of(s[i], t),
    decreases s.len(),
{
    if is_leaf_of(s.last(), t) {
        (s.len() - 1) as int
    } else {
        let i = lemma_leaf_exists(s.drop_last(), t);
        assert(s[i] == s.drop_last()[i]);
        i
    }
}

/// A tab that no leaf names has no leaves.
pub proof fn lemma_no_leaf(s: Seq<Node>, t: i64)
    requires
        forall|i: int| 0 <= i < s.len() ==> !is_leaf_of(#[trigger] s[i], t),
    ensures
        leaf_count(s, t) == 0,
    decreases s.len(),
{
    if s.len() > 0 {
        assert(!is_leaf_of(s[s.len() - 1], t));
        lemma_no_leaf(s.drop_last(), t);
    }
}

/// A tab that some pane names has a pane.
pub proof fn lemma_pane_ids_nonempty(s: Seq<Pane>, k: int, t: i64)
    requires
        0 <= k < s.len(),
        s[k].tab == t,
    ensures
        pane_ids_of_tab(s, t).len() >= 1,
    decreases s.len(),
{
    if k < s.len() - 1 {
        assert(s.drop_last()[k] == s[k]);
        lemma_pane_ids_nonempty(s.drop_last(), k, t);
    }
}

/// Tab tables with the same ids position by position.
pub open spec fn same_tab_ids(a: Seq<Tab>, b: Seq<Tab>) -> bool {
    &&& a.len() == b.len()
    &&& forall|i: int| 0 <= i < a.len() ==> (#[trigger] b[i]).id == a[i].id
}

/// The counts hold over a node table that keeps every node's tab and
/// kind, and over a tab table that keeps every tab's id.
pub proof fn lemma_counts_ok_same(a: Seq<Node>, b: Seq<Node>, tabs: Seq<Tab>, tabs2: Seq<Tab>)
    requires
        counts_ok(a, tabs),
        a.len() == b.len(),
        forall|i: int| 0 <= i < a.len() ==> (#[trigger] a[i]).tab == b[i].tab && (a[i].pane == 0) == (b[i].pane == 0),
        same_tab_ids(tabs, tabs2),
    ensures
        counts_ok(b, tabs2),
{
    assert forall|t: i64| #[trigger] leaf_count(b, t) == leaf_count(a, t) && branch_count(b, t) == branch_count(a, t) by {
        lemma_counts_same_kinds(a, b, t);
    }
    assert forall|i: int| 0 <= i < tabs2.len() implies leaf_count(b, #[trigger] tabs2[i].id) >= 1 by {
        assert(tabs2[i].id == tabs[i].id);
        assert(leaf_count(a, tabs[i].id) >= 1);
    }
}

/// A new tab `t` starting with one leaf keeps the counts.
pub proof fn lemma_counts_ok_new_tab(a: Seq<Node>, tabs: Seq<Tab>, nd: Node, tab: Tab)
    requires
        counts_ok(a, tabs),
        leaf_count(a, tab.id) == 0,
        is_leaf_of(nd, tab.id),
    ensures
        counts_ok(a.push(nd), tabs.push(tab)),
{
    let b = a.push(nd);
    let tb = tabs.push(tab);
    assert forall|t: i64|
        #[trigger] leaf_count(b, t) == branch_count(b, t) + 1 || (leaf_count(b, t) == 0 && branch_count(b, t) == 0) by {
        lemma_counts_push(a, nd, t);
        assert(leaf_count(a, t) == branch_count(a, t) + 1 || (leaf_count(a, t) == 0 && branch_count(a, t) == 0));
    }
    assert forall|i: int| 0 <= i < tb.len() implies leaf_count(b, #[trigger] tb[i].id) >= 1 by {
        lemma_counts_push(a, nd, tb[i].id);
        if i < tabs.len() {
            assert(tb[i] == tabs[i]);
            assert(leaf_count(a, tabs[i].id) >= 1);
        }
    }
}

/// A split adds one leaf and one branch to a tab that has a leaf.
pub proof fn lemma_counts_ok_split(a: Seq<Node>, tabs: Seq<Tab>, nd: Node, bn: Node, t: i64)
    requires
        counts_ok(a, tabs),
        leaf_count(a, t) >= 1,
        is_leaf_of(nd, t),
        is_branch_of(bn, t),
    ensures
        counts_ok(a.push(nd).push(bn), tabs),
{
    let b = a.push(nd).push(bn);
    assert forall|u: i64|
        #[trigger] leaf_count(b, u) == branch_count(b, u) + 1 || (leaf_count(b, u) == 0 && branch_count(b, u) == 0) by {
        lemma_counts_push(a, nd, u);
        lemma_counts_push(a.push(nd), bn, u);
        assert(leaf_count(a, u) == branch_count(a, u) + 1 || (leaf_count(a, u) == 0 && branch_count(a, u) == 0));
    }
    assert forall|i: int| 0 <= i < tabs.len() implies leaf_count(b, #[trigger] tabs[i].id) >= 1 by {
        lemma_counts_push(a, nd, tabs[i].id);
        lemma_counts_push(a.push(nd), bn, tabs[i].id);
    }
}

/// Closing a pane drops one branch and one leaf of its tab; the tab keeps
/// a leaf, as a tab with a branch has at least two.
pub proof fn lemma_counts_ok_close(a: Seq<Node>, tabs: Seq<Tab>, tabs2: Seq<Tab>, k1: int, k2: int, t: i64)
    requires
        counts_ok(a, tabs),
        0 <= k1 < a.len(),
        is_branch_of(a[k1], t),
        0 <= k2 < a.len() - 1,
        is_leaf_of(a.remove(k1)[k2], t),
        same_tab_ids(tabs, tabs2),
    ensures
        counts_ok(a.remove(k1).remove(k2), tabs2),
{
    let a2 = a.remove(k1);
    let b = a2.remove(k2);
    assert forall|u: i64|
        #[trigger] leaf_count(b, u) == branch_count(b, u) + 1 || (leaf_count(b, u) == 0 && branch_count(b, u) == 0)
        && (u == t ==> leaf_count(b, u) >= 1) && (u != t ==> leaf_count(b, u) == leaf_count(a, u)) by {
        lemma_counts_remove(a, k1, u);
        lemma_counts_remove(a2, k2, u);
        assert(leaf_count(a, u) == branch_count(a, u) + 1 || (leaf_count(a, u) == 0 && branch_count(a, u) == 0));
    }
    assert forall|i: int| 0 <= i < tabs2.len() implies leaf_count(b, #[trigger] tabs2[i].id) >= 1 by {
        assert(tabs2[i].id == tabs[i].id);
        assert(leaf_count(a, tabs[i].id) >= 1);
        assert(leaf_count(b, tabs2[i].id) == branch_count(b, tabs2[i].id) + 1 || (leaf_count(b, tabs2[i].id) == 0 && branch_count(b, tabs2[i].id) == 0));
    }
}

/// Closing tab `tab` drops its nodes and its entry in the tab table.
pub proof fn lemma_counts_ok_close_tab(a: Seq<Node>, tabs: Seq<Tab>, ti: int)
    requires
        counts_ok(a, tabs),
        0 <= ti < tabs.len(),
        forall|i: int, j: int| 0 <= i < j < tabs.len() ==> tabs[i].id != tabs[j].id,
    ensures
        counts_ok(nodes_outside(a, tabs[ti].id), tabs.remove(ti)),
{
    let tab = tabs[ti].id;
    let b = nodes_outside(a, tab);
    let tb = tabs.remove(ti);
    assert forall|u: i64|
        #[trigger] leaf_count(b, u) == branch_count(b, u) + 1 || (leaf_count(b, u) == 0 && branch_count(b, u) == 0) by {
        lemma_counts_outside(a, tab, u);
        assert(leaf_count(a, u) == branch_count(a, u) + 1 || (leaf_count(a, u) == 0 && branch_count(a, u) == 0));
    }
    assert forall|i: int| 0 <= i < tb.len() implies leaf_count(b, #[trigger] tb[i].id) >= 1 by {
        let c = if i < ti { i } else { i + 1 };
        assert(tb[i] == tabs[c]);
        assert(tabs[c].id != tab);
        lemma_counts_outside(a, tab, tb[i].id);
        assert(leaf_count(a, tabs[c].id) >= 1);
    }
}

/// Every tab of a well-formed workspace holds at least one pane.
pub proof fn lemma_tab_has_pane(m: &Mux, i: int)
    requires
        m.wf(),
        0 <= i < m.tabs@.len(),
    ensures
        pane_ids_of_tab(m.panes@, m.tabs@[i].id).len() >= 1,
{
    let t = m.tabs@[i].id;
    let j = lemma_leaf_exists(m.nodes@, t);
    assert(m.nodes@[j].pane != 0);
    let p = m.nodes@[j].pane;
    lemma_pane_pos(m.panes@, p);
    lemma_pane_ids_nonempty(m.panes@, pane_pos(m.panes@, p), t);
}

} // verus!
