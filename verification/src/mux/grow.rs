//! Operations that add panes: a new tab, the first tab, and splitting
//! the focused pane. The engine session is started by the caller; these
//! functions take its handle (0 = the start failed).

use vstd::prelude::*;
use crate::mux::model::{
    Mux, Pane, Tab, Node, MAX_PANES, leaves_ok, links_ok, pane_pos, tab_pos, node_pos, leaf_pos, node_index, tab_index,
    leaf_node_of_pane, lemma_pane_pos, lemma_tab_pos, lemma_node_pos, lemma_leaf_pos,
    lemma_node_pos_unique, lemma_tab_pos_unique, lemma_count_absent, lemma_count_push,
};
use crate::mux::ops::{
    pane_key, pane_ids_of_tab, active_tab_index, bump_layout_epoch, lemma_tabs_same_ids,
    lemma_pane_ids_of_tab_len,
};
use crate::text::{decimal_string, push_decimal, string_from_chars};

use crate::mux::counts::{is_leaf_of, lemma_no_leaf, lemma_counts_ok_new_tab, lemma_counts_ok_split, lemma_counts_ok_same, same_tab_ids};
use crate::mux::owned::{lemma_links_push, lemma_focus_push_pane, lemma_links_relink, lemma_links_update, same_focus};

verus! {

pub proof fn lemma_pane_pos_push(s: Seq<Pane>, p: Pane, id: i64)
    ensures
        pane_pos(s.push(p), id) == (if p.id == id { s.len() as int } else { pane_pos(s, id) }),
{
    assert(s.push(p).drop_last() =~= s);
}

pub proof fn lemma_tab_pos_push(s: Seq<Tab>, t: Tab, id: i64)
    ensures
        tab_pos(s.push(t), id) == (if t.id == id { s.len() as int } else { tab_pos(s, id) }),
{
    assert(s.push(t).drop_last() =~= s);
}

pub proof fn lemma_node_pos_push(s: Seq<Node>, n: Node, id: i64)
    ensures
        node_pos(s.push(n), id) == (if n.id == id { s.len() as int } else { node_pos(s, id) }),
{
    assert(s.push(n).drop_last() =~= s);
}

/// `n` with every child link to `old` redirected to `new` (the node
/// `new` itself is left alone).
pub open spec fn relink(n: Node, old: i64, new: i64) -> Node {
    if n.id == new {
        n
    } else {
        Node {
            first: if n.first == old { new } else { n.first },
            second: if n.second == old { new } else { n.second },
            ..n
        }
    }
}

/// Builds the model key `pane-<id>`.
pub fn make_pane_key(id: i64) -> (k: String)
    ensures
        k@ == pane_key(id),
{
    let mut v: Vec<char> = Vec::new();
    v.push('p');
    v.push('a');
    v.push('n');
    v.push('e');
    v.push('-');
    push_decimal(id, &mut v);
    proof {
        assert(v@ =~= pane_key(id));
    }
    string_from_chars(v.as_slice())
}

/// Re-hang whatever hung at `old_child` (the tab root or a branch slot of
/// tab `tab_id`'s tree) onto `new_child`; always 1.
pub fn replace_child(mux: &mut Mux, tab_id: i64, old_child: i64, new_child: i64) -> (r: i64)
    requires
        old(mux).tabs@.len() < i64::MAX,
        old(mux).nodes@.len() < i64::MAX,
    ensures
        r == 1,
        ({
            let ti = tab_pos(old(mux).tabs@, tab_id);
            if ti >= 0 && old(mux).tabs@[ti].root == old_child {
                &&& final(mux).tabs@ == old(mux).tabs@.update(
                    ti,
                    Tab { root: new_child, ..old(mux).tabs@[ti] },
                )
                &&& final(mux).nodes@ == old(mux).nodes@
            } else {
                &&& final(mux).tabs@ == old(mux).tabs@
                &&& final(mux).nodes@.len() == old(mux).nodes@.len()
                &&& forall|i: int|
                    0 <= i < old(mux).nodes@.len() ==> #[trigger] final(mux).nodes@[i] == relink(
                        old(mux).nodes@[i],
                        old_child,
                        new_child,
                    )
            }
        }),
        final(mux).panes@ == old(mux).panes@,
        final(mux).active_tab == old(mux).active_tab,
        final(mux).next_pane_id == old(mux).next_pane_id,
        final(mux).next_tab_id == old(mux).next_tab_id,
        final(mux).next_node_id == old(mux).next_node_id,
        final(mux).layout_epoch == old(mux).layout_epoch,
        final(mux).same_side_state(old(mux)),
{
    let ti: i64 = tab_index(mux, tab_id);
    proof {
        lemma_tab_pos(old(mux).tabs@, tab_id);
    }
    if ti >= 0 {
        assert(0 <= ti < mux.tabs.len());
        if mux.tabs[ti as usize].root == old_child {
            let mut t = mux.tabs[ti as usize];
            t.root = new_child;
            mux.tabs.set(ti as usize, t);
            return 1;
        }
    }
    let n: usize = mux.nodes.len();
    let mut i: usize = 0;
    while i < n
        invariant
            n == mux.nodes@.len() == old(mux).nodes@.len(),
            i <= n,
            forall|j: int| 0 <= j < i ==> #[trigger] mux.nodes@[j] == relink(old(mux).nodes@[j], old_child, new_child),
            forall|j: int| i <= j < n ==> #[trigger] mux.nodes@[j] == old(mux).nodes@[j],
            mux.tabs@ == old(mux).tabs@,
            mux.panes@ == old(mux).panes@,
            mux.active_tab == old(mux).active_tab,
            mux.next_pane_id == old(mux).next_pane_id,
            mux.next_tab_id == old(mux).next_tab_id,
            mux.next_node_id == old(mux).next_node_id,
            mux.layout_epoch == old(mux).layout_epoch,
            mux.same_side_state(old(mux)),
        decreases n - i,
    {
        let mut nd = mux.nodes[i];
        if nd.id != new_child {
            if nd.first == old_child {
                nd.first = new_child;
            }
            if nd.second == old_child {
                nd.second = new_child;
            }
        }
        mux.nodes.set(i, nd);
        i = i + 1;
    }
    1
}

/// Record a started engine session as a new pane of tab `tab_id` with its
/// own leaf node; returns the leaf id (0 = the session did not start; the
/// pane id is consumed either way).
pub fn spawn_pane_into_tab(
    mux: &mut Mux,
    tab_id: i64,
    axis: i64,
    handle: i64,
    program: String,
) -> (leaf: i64)
    requires
        old(mux).next_pane_id < i64::MAX,
        old(mux).next_node_id < i64::MAX,
    ensures
        final(mux).next_pane_id == old(mux).next_pane_id + 1,
        final(mux).tabs@ == old(mux).tabs@,
        final(mux).active_tab == old(mux).active_tab,
        final(mux).next_tab_id == old(mux).next_tab_id,
        final(mux).layout_epoch == old(mux).layout_epoch,
        final(mux).same_side_state(old(mux)),
        handle == 0 ==> {
            &&& leaf == 0
            &&& final(mux).panes@ == old(mux).panes@
            &&& final(mux).nodes@ == old(mux).nodes@
            &&& final(mux).next_node_id == old(mux).next_node_id
        },
        handle != 0 ==> {
            let p = final(mux).panes@.last();
            &&& leaf == old(mux).next_node_id
            &&& final(mux).next_node_id == old(mux).next_node_id + 1
            &&& final(mux).panes@.len() == old(mux).panes@.len() + 1
            &&& final(mux).panes@.drop_last() == old(mux).panes@
            &&& p.id == old(mux).next_pane_id
            &&& p.handle == handle
            &&& p.key@ == pane_key(p.id)
            &&& p.tab == tab_id
            &&& p.program == program
            &&& p.cwd@ == Seq::<char>::empty()
            &&& p.cols == 100
            &&& p.rows == 30
            &&& !p.exited
            &&& final(mux).nodes@ == old(mux).nodes@.push(
                Node {
                    id: leaf,
                    tab: tab_id,
                    axis,
                    ratio: 500,
                    first: 0,
                    second: 0,
                    pane: old(mux).next_pane_id,
                },
            )
        },
{
    let pid: i64 = mux.next_pane_id;
    mux.next_pane_id = mux.next_pane_id + 1;
    let key = make_pane_key(pid);
    if handle == 0 {
        return 0;
    }
    mux.panes.push(
        Pane {
            id: pid,
            handle,
            key,
            tab: tab_id,
            program,
            cwd: String::new(),
            cols: 100,
            rows: 30,
            exited: false,
        },
    );
    let leaf: i64 = mux.next_node_id;
    mux.next_node_id = mux.next_node_id + 1;
    mux.nodes.push(
        Node { id: leaf, tab: tab_id, axis, ratio: 500, first: 0, second: 0, pane: pid },
    );
    proof {
        assert(mux.panes@.drop_last() =~= old(mux).panes@);
    }
    leaf
}

/// Facts about a well-formed state with a fresh pane and leaf pushed.
proof fn lemma_fresh_leaf_keeps_leaves(old_m: &Mux, panes: Seq<Pane>, nodes: Seq<Node>, p: Pane, nd: Node)
    requires
        old_m.wf(),
        panes == old_m.panes@.push(p),
        nodes == old_m.nodes@.push(nd),
        p.id == old_m.next_pane_id,
        nd.pane == p.id,
        nd.tab == p.tab,
        nd.first == 0,
        nd.second == 0,
    ensures
        leaves_ok(panes, nodes),
{
    let on = old_m.nodes@;
    let op = old_m.panes@;
    assert forall|i: int| 0 <= i < nodes.len() && #[trigger] nodes[i].pane != 0 implies {
        &&& pane_pos(panes, nodes[i].pane) >= 0
        &&& panes[pane_pos(panes, nodes[i].pane)].tab == nodes[i].tab
        &&& nodes[i].first == 0
        &&& nodes[i].second == 0
    } by {
        lemma_pane_pos_push(op, p, nodes[i].pane);
        if i < on.len() {
            assert(nodes[i] == on[i]);
            lemma_pane_pos(op, on[i].pane);
            assert(op[pane_pos(op, on[i].pane)].id < old_m.next_pane_id);
            assert(panes[pane_pos(op, on[i].pane)] == op[pane_pos(op, on[i].pane)]);
        } else {
            assert(nodes[i] == nd);
        }
    }
    assert forall|i: int, j: int|
        0 <= i < nodes.len() && 0 <= j < nodes.len() && i != j && nodes[i].pane != 0
            implies #[trigger] nodes[i].pane != #[trigger] nodes[j].pane by {
        if i < on.len() && j < on.len() {
            assert(nodes[i] == on[i] && nodes[j] == on[j]);
        } else if i < on.len() {
            assert(nodes[i] == on[i]);
            lemma_pane_pos(op, on[i].pane);
            assert(op[pane_pos(op, on[i].pane)].id < old_m.next_pane_id);
        } else {
            assert(nodes[j] == on[j]);
            if on[j].pane != 0 {
                lemma_pane_pos(op, on[j].pane);
                assert(op[pane_pos(op, on[j].pane)].id < old_m.next_pane_id);
            }
        }
    }
}

/// What [`mux_new_tab`] does (see its doc comment).
pub open spec fn new_tab_post(o: &Mux, f: &Mux, handle: i64, r: i64) -> bool {
    &&& f.next_tab_id == o.next_tab_id + 1
    &&& f.next_pane_id == o.next_pane_id + 1
    &&& f.same_side_state(o)
    &&& (handle == 0 ==> {
        &&& r == 0
        &&& f.panes@ == o.panes@
        &&& f.tabs@ == o.tabs@
        &&& f.nodes@ == o.nodes@
        &&& f.active_tab == o.active_tab
        &&& f.layout_epoch == o.layout_epoch
    })
    &&& (handle != 0 ==> {
        &&& r == o.next_tab_id
        &&& f.active_tab == r
        &&& f.tabs@ == o.tabs@.push(
            Tab { id: r, root: o.next_node_id, active_pane: o.next_pane_id, zoomed_pane: 0 },
        )
        &&& f.panes@.len() == o.panes@.len() + 1
        &&& f.panes@.drop_last() == o.panes@
        &&& f.panes@.last().id == o.next_pane_id
        &&& f.panes@.last().handle == handle
        &&& f.panes@.last().tab == r
        &&& f.panes@.last().cols == 100
        &&& f.panes@.last().rows == 30
        &&& f.nodes@ == o.nodes@.push(
            Node {
                id: o.next_node_id,
                tab: r,
                axis: 0,
                ratio: 500,
                first: 0,
                second: 0,
                pane: o.next_pane_id,
            },
        )
        &&& f.layout_epoch == o.layout_epoch + 1
    })
}

/// Open a new tab whose single pane is the started session `handle`
/// (0 = the session did not start); the new tab becomes active. Returns
/// the tab id, or 0 when the session did not start.
pub fn mux_new_tab(mux: &mut Mux, handle: i64, program: String) -> (r: i64)
    requires
        old(mux).wf(),
        old(mux).room(),
    ensures
        final(mux).wf(),
        new_tab_post(old(mux), final(mux), handle, r),
{
    let tab: i64 = mux.next_tab_id;
    mux.next_tab_id = mux.next_tab_id + 1;
    let ghost mid = *mux;
    let leaf: i64 = spawn_pane_into_tab(mux, tab, 0, handle, program);
    if leaf == 0 {
        proof {
            assert forall|i: int| 0 <= i < mux.nodes@.len() && #[trigger] mux.nodes@[i].pane != 0 implies {
                &&& pane_pos(mux.panes@, mux.nodes@[i].pane) >= 0
                &&& mux.panes@[pane_pos(mux.panes@, mux.nodes@[i].pane)].tab == mux.nodes@[i].tab
            } by {
                assert(mux.nodes@[i] == old(mux).nodes@[i]);
            }
            assert(mux.panes@ == old(mux).panes@ && mux.nodes@ == old(mux).nodes@ && mux.tabs@ == old(mux).tabs@);
            assert forall|i: int| 0 <= i < mux.tabs@.len() implies 0 < #[trigger] mux.tabs@[i].active_pane < mux.next_pane_id by {
                assert(mux.tabs@[i] == old(mux).tabs@[i]);
            }
        }
        return 0;
    }
    let ghost p = mux.panes@.last();
    let ghost nd = mux.nodes@.last();
    proof {
        assert(mux.panes@ =~= old(mux).panes@.push(p));
        assert(mux.nodes@ =~= old(mux).nodes@.push(nd));
        lemma_fresh_leaf_keeps_leaves(old(mux), mux.panes@, mux.nodes@, p, nd);
        lemma_node_pos_push(old(mux).nodes@, nd, leaf);
        lemma_node_pos(old(mux).nodes@, leaf);
    }
    let ni: i64 = node_index(mux, leaf);
    assert(ni as int == old(mux).nodes@.len());
    assert(0 <= ni < mux.nodes.len());
    let pane_of_leaf: i64 = mux.nodes[ni as usize].pane;
    mux.tabs.push(Tab { id: tab, root: leaf, active_pane: pane_of_leaf, zoomed_pane: 0 });
    mux.active_tab = tab;
    bump_layout_epoch(mux);
    proof {
        let t = Tab { id: tab, root: leaf, active_pane: pane_of_leaf, zoomed_pane: 0 };
        assert(mux.tabs@ == old(mux).tabs@.push(t));
        assert forall|id: i64| #[trigger] tab_pos(mux.tabs@, id) == (if id == tab { old(mux).tabs@.len() as int } else { tab_pos(old(mux).tabs@, id) }) by {
            lemma_tab_pos_push(old(mux).tabs@, t, id);
        }
        assert forall|i: int| 0 <= i < mux.panes@.len() implies tab_pos(mux.tabs@, #[trigger] mux.panes@[i].tab) >= 0 by {
            if i < old(mux).panes@.len() {
                assert(mux.panes@[i] == old(mux).panes@[i]);
            }
        }
        assert forall|i: int, j: int| 0 <= i < j < mux.panes@.len() implies mux.panes@[i].id != mux.panes@[j].id by {
            if j < old(mux).panes@.len() {
                assert(mux.panes@[i] == old(mux).panes@[i]);
                assert(mux.panes@[j] == old(mux).panes@[j]);
            } else {
                assert(mux.panes@[i] == old(mux).panes@[i]);
            }
        }
        assert forall|i: int| 0 <= i < mux.panes@.len() implies 0 < #[trigger] mux.panes@[i].id < mux.next_pane_id by {
            if i < old(mux).panes@.len() {
                assert(mux.panes@[i] == old(mux).panes@[i]);
            }
        }
        // the fresh tab starts with one pane; every other tab keeps its count
        assert forall|i: int| 0 <= i < old(mux).panes@.len() implies old(mux).panes@[i].tab != tab by {
            let pt = old(mux).panes@[i].tab;
            lemma_tab_pos(old(mux).tabs@, pt);
            assert(old(mux).tabs@[tab_pos(old(mux).tabs@, pt)].id < tab);
        }
        lemma_count_absent(old(mux).panes@, tab);
        assert forall|t: i64| #[trigger] pane_ids_of_tab(mux.panes@, t).len() <= MAX_PANES by {
            lemma_count_push(old(mux).panes@, p, t);
        }
        // the fresh tab has no nodes yet, then one leaf
        assert forall|i: int| 0 <= i < old(mux).nodes@.len() implies !is_leaf_of(#[trigger] old(mux).nodes@[i], tab) by {
            let n = old(mux).nodes@[i];
            if n.pane != 0 {
                lemma_pane_pos(old(mux).panes@, n.pane);
                assert(old(mux).panes@[pane_pos(old(mux).panes@, n.pane)].tab != tab);
            }
        }
        lemma_no_leaf(old(mux).nodes@, tab);
        lemma_counts_ok_new_tab(old(mux).nodes@, old(mux).tabs@, nd, t);
        // the fresh leaf links nothing; the fresh tab's focus is its own pane
        assert forall|i: int| 0 <= i < old(mux).nodes@.len() implies (#[trigger] old(mux).nodes@[i]).id < old(mux).next_node_id by {}
        lemma_links_push(old(mux).nodes@, old(mux).next_node_id, nd, mux.next_node_id);
        lemma_focus_push_pane(old(mux).panes@, old(mux).tabs@, old(mux).tabs@, old(mux).next_pane_id, p, mux.next_pane_id);
        let tabs0 = old(mux).tabs@;
        assert forall|i: int| 0 <= i < mux.tabs@.len() implies 0 < #[trigger] mux.tabs@[i].active_pane < mux.next_pane_id by {
            if i < tabs0.len() {
                assert(mux.tabs@[i] == tabs0[i]);
            }
        }
        assert forall|i: int|
            0 <= i < mux.tabs@.len() && pane_pos(mux.panes@, #[trigger] mux.tabs@[i].active_pane) >= 0
                implies mux.panes@[pane_pos(mux.panes@, mux.tabs@[i].active_pane)].tab == mux.tabs@[i].id by {
            if i < tabs0.len() {
                assert(mux.tabs@[i] == tabs0[i]);
            } else {
                lemma_pane_pos_push(old(mux).panes@, p, p.id);
            }
        }
    }
    tab
}

/// What [`mux_init`] does (see its doc comment).
pub open spec fn init_post(o: &Mux, f: &Mux, handle: i64, r: i64) -> bool {
    &&& o.active_tab != 0 ==> r == 0 && f.unchanged_from(o)
    &&& o.active_tab == 0 ==> {
        &&& (handle == 0 ==> r == 0 && f.active_tab == 0)
        &&& (handle != 0 ==> r == o.next_tab_id && f.active_tab == r)
        &&& f.tabs@.len() == o.tabs@.len() + (if handle == 0 { 0int } else { 1int })
    }
}

/// Initialising is idempotent: once a first call has opened a tab, any
/// later call answers 0 and changes nothing.
pub proof fn lemma_init_idempotent(m0: &Mux, m1: &Mux, m2: &Mux, h1: i64, h2: i64, r1: i64, r2: i64)
    requires
        m0.wf(),
        init_post(m0, m1, h1, r1),
        r1 != 0,
        init_post(m1, m2, h2, r2),
    ensures
        m1.active_tab == r1,
        r2 == 0,
        m2.unchanged_from(m1),
{
}

/// Initialise the workspace with its first tab (session `handle`); a no-op
/// returning 0 once a tab is active. Returns the tab id (0 = the session
/// did not start).
pub fn mux_init(mux: &mut Mux, handle: i64, program: String) -> (r: i64)
    requires
        old(mux).wf(),
        old(mux).room(),
    ensures
        final(mux).wf(),
        init_post(old(mux), final(mux), handle, r),
{
    if mux.active_tab != 0 {
        return 0;
    }
    let tab: i64 = mux_new_tab(mux, handle, program);
    mux.active_tab = tab;
    tab
}

/// Name of profile slot `arg` (1-based; 0 or out of range = "" = default).
pub fn profile_name_of_arg(arg: i64, names: &Vec<String>) -> (r: String)
    ensures
        (1 <= arg <= names@.len()) ==> r == names@[arg - 1],
        !(1 <= arg <= names@.len()) ==> r@ == Seq::<char>::empty(),
{
    if arg <= 0 {
        return String::new();
    }
    if arg as u64 > names.len() as u64 {
        return String::new();
    }
    names[(arg - 1) as usize].clone()
}


/// Redirecting child links away from a non-zero id keeps the leaves intact.
pub proof fn lemma_leaves_ok_relink(panes: Seq<Pane>, a: Seq<Node>, b: Seq<Node>, old_child: i64, new_child: i64)
    requires
        leaves_ok(panes, a),
        old_child != 0,
        a.len() == b.len(),
        forall|i: int| 0 <= i < a.len() ==> #[trigger] b[i] == relink(a[i], old_child, new_child),
    ensures
        leaves_ok(panes, b),
{
    assert forall|i: int| 0 <= i < b.len() && #[trigger] b[i].pane != 0 implies {
        &&& pane_pos(panes, b[i].pane) >= 0
        &&& panes[pane_pos(panes, b[i].pane)].tab == b[i].tab
        &&& b[i].first == 0
        &&& b[i].second == 0
    } by {
        assert(b[i] == relink(a[i], old_child, new_child));
        assert(a[i].pane != 0);
    }
    assert forall|i: int, j: int|
        0 <= i < b.len() && 0 <= j < b.len() && i != j && b[i].pane != 0
            implies #[trigger] b[i].pane != #[trigger] b[j].pane by {
        assert(b[i] == relink(a[i], old_child, new_child));
        assert(b[j] == relink(a[j], old_child, new_child));
        assert(a[i].pane != a[j].pane);
    }
}

/// Adding a branch (no pane) keeps the leaves intact.
pub proof fn lemma_leaves_ok_push_branch(panes: Seq<Pane>, a: Seq<Node>, nd: Node)
    requires
        leaves_ok(panes, a),
        nd.pane == 0,
    ensures
        leaves_ok(panes, a.push(nd)),
{
    let b = a.push(nd);
    assert forall|i: int| 0 <= i < b.len() && #[trigger] b[i].pane != 0 implies {
        &&& pane_pos(panes, b[i].pane) >= 0
        &&& panes[pane_pos(panes, b[i].pane)].tab == b[i].tab
        &&& b[i].first == 0
        &&& b[i].second == 0
    } by {
        assert(b[i] == a[i]);
    }
    assert forall|i: int, j: int|
        0 <= i < b.len() && 0 <= j < b.len() && i != j && b[i].pane != 0
            implies #[trigger] b[i].pane != #[trigger] b[j].pane by {
        assert(b[i] == a[i]);
        if j < a.len() {
            assert(b[j] == a[j]);
        }
    }
}

/// Changing the links of a branch (no pane) keeps the leaves intact.
pub proof fn lemma_leaves_ok_update_branch(panes: Seq<Pane>, a: Seq<Node>, k: int, nd: Node)
    requires
        leaves_ok(panes, a),
        0 <= k < a.len(),
        nd.pane == 0,
    ensures
        leaves_ok(panes, a.update(k, nd)),
{
    let b = a.update(k, nd);
    assert forall|i: int| 0 <= i < b.len() && #[trigger] b[i].pane != 0 implies {
        &&& pane_pos(panes, b[i].pane) >= 0
        &&& panes[pane_pos(panes, b[i].pane)].tab == b[i].tab
        &&& b[i].first == 0
        &&& b[i].second == 0
    } by {
        assert(b[i] == a[i]);
    }
    assert forall|i: int, j: int|
        0 <= i < b.len() && 0 <= j < b.len() && i != j && b[i].pane != 0
            implies #[trigger] b[i].pane != #[trigger] b[j].pane by {
        assert(b[i] == a[i]);
        if j != k {
            assert(b[j] == a[j]);
        }
    }
}

impl Mux {
    /// What a split of the focused pane would answer before starting a
    /// session: 0 = no active tab or the focus has no leaf, -2 = the tab
    /// already holds [`MAX_PANES`] panes, 1 = a session is needed.
    pub open spec fn split_check(&self) -> i64 {
        if self.active_pos() < 0 {
            0
        } else if pane_ids_of_tab(self.panes@, self.tabs@[self.active_pos()].id).len() >= MAX_PANES {
            -2i64
        } else if leaf_pos(self.nodes@, self.tabs@[self.active_pos()].active_pane) < 0 {
            0
        } else {
            1
        }
    }
}

/// Number of panes that belong to tab `tab_id`.
pub fn count_tab_panes(mux: &Mux, tab_id: i64) -> (r: i64)
    requires
        mux.panes@.len() < i64::MAX,
    ensures
        r == pane_ids_of_tab(mux.panes@, tab_id).len(),
{
    let n: usize = mux.panes.len();
    let mut i: usize = 0;
    let mut cnt: i64 = 0;
    while i < n
        invariant
            n == mux.panes@.len() < i64::MAX,
            i <= n,
            cnt == pane_ids_of_tab(mux.panes@.take(i as int), tab_id).len(),
            cnt <= i,
        decreases n - i,
    {
        proof {
            assert(mux.panes@.take(i as int + 1).drop_last() =~= mux.panes@.take(i as int));
        }
        if mux.panes[i].tab == tab_id {
            cnt = cnt + 1;
        }
        i = i + 1;
    }
    proof {
        assert(mux.panes@.take(n as int) =~= mux.panes@);
    }
    cnt
}

/// The answer [`mux_split`] would give before a session is started
/// (see [`Mux::split_check`]).
pub fn mux_split_plan(mux: &Mux) -> (r: i64)
    requires
        mux.wf(),
    ensures
        r == mux.split_check(),
{
    let ti: i64 = active_tab_index(mux);
    if ti < 0 {
        return 0;
    }
    proof {
        lemma_tab_pos(mux.tabs@, mux.active_tab);
        assert(0 <= ti < mux.tabs.len());
    }
    let tab_id: i64 = mux.tabs[ti as usize].id;
    let cnt: i64 = count_tab_panes(mux, tab_id);
    if cnt >= MAX_PANES {
        return -2;
    }
    let focus: i64 = mux.tabs[ti as usize].active_pane;
    let old_leaf: i64 = leaf_node_of_pane(mux, focus);
    proof {
        lemma_leaf_pos(mux.nodes@, focus);
    }
    if old_leaf == 0 {
        return 0;
    }
    1
}

/// Re-hanging the focused leaf under the new branch keeps branch links
/// inside one tab: whatever linked the leaf is of its tab, which is the
/// branch's tab.
proof fn lemma_split_links_kept(
    o: &Mux,
    before: Seq<Node>,
    after: Seq<Node>,
    tab_id: i64,
    ti: int,
    focus: i64,
    old_leaf: i64,
    branch: i64,
    next2: i64,
)
    requires
        o.wf(),
        next2 == o.next_node_id + 2,
        0 <= ti < o.tabs@.len(),
        o.tabs@[ti].id == tab_id,
        o.tabs@[ti].active_pane == focus,
        leaf_pos(o.nodes@, focus) >= 0,
        old_leaf == o.nodes@[leaf_pos(o.nodes@, focus)].id,
        branch == o.next_node_id + 1,
        before.len() == o.nodes@.len() + 2,
        forall|i: int| 0 <= i < o.nodes@.len() ==> #[trigger] before[i] == o.nodes@[i],
        before[o.nodes@.len() as int].id == o.next_node_id,
        before[o.nodes@.len() as int + 1].id == branch,
        before[o.nodes@.len() as int + 1].tab == tab_id,
        links_ok(before, next2),
        after == before || (after.len() == before.len() && forall|i: int|
            0 <= i < before.len() ==> #[trigger] after[i] == relink(before[i], old_leaf, branch)),
    ensures
        links_ok(after, next2),
{
    if after != before {
        let k = leaf_pos(o.nodes@, focus);
        lemma_leaf_pos(o.nodes@, focus);
        assert(before[k] == o.nodes@[k]);
        assert(o.nodes@[k].pane == focus);
        assert(focus != 0);
        assert(o.nodes@[k].tab == tab_id);
        let len = o.nodes@.len() as int;
        assert forall|i: int, j: int|
            #![trigger before[i], before[j]]
            0 <= i < before.len() && 0 <= j < before.len() && (before[i].first == old_leaf
                || before[i].second == old_leaf) && before[j].id == branch
                implies before[i].tab == before[j].tab by {
            if j < len {
                assert(before[j] == o.nodes@[j]);
            }
            assert(before[k].id == old_leaf);
            assert(before[i].first == before[k].id || before[i].second == before[k].id);
        }
        lemma_links_relink(before, after, next2, old_leaf, branch);
    }
}

/// What [`mux_split`] does (see its doc comment).
pub open spec fn split_post(o: &Mux, f: &Mux, axis: i64, handle: i64, r: i64) -> bool {
    &&& (o.split_check() != 1 ==> r == o.split_check() && f.unchanged_from(o))
    &&& (o.split_check() == 1 && handle == 0 ==> {
        &&& r == 0
        &&& f.panes@ == o.panes@
        &&& f.tabs@ == o.tabs@
        &&& f.nodes@ == o.nodes@
        &&& f.next_pane_id == o.next_pane_id + 1
        &&& f.layout_epoch == o.layout_epoch
    })
    &&& (o.split_check() == 1 && handle != 0 ==> {
        let ti = o.active_pos();
        let tab = o.tabs@[ti];
        let old_leaf = o.nodes@[leaf_pos(o.nodes@, tab.active_pane)].id;
        let new_leaf = o.next_node_id;
        let branch = (o.next_node_id + 1) as i64;
        let len = o.nodes@.len() as int;
        &&& r == o.next_pane_id
        &&& f.next_pane_id == o.next_pane_id + 1
        &&& f.next_node_id == o.next_node_id + 2
        &&& f.layout_epoch == o.layout_epoch + 1
        &&& f.panes@.len() == o.panes@.len() + 1
        &&& f.panes@.drop_last() == o.panes@
        &&& f.panes@.last().id == r
        &&& f.panes@.last().handle == handle
        &&& f.panes@.last().tab == tab.id
        &&& f.panes@.last().cols == 100
        &&& f.panes@.last().rows == 30
        &&& f.nodes@.len() == len + 2
        &&& f.nodes@[len] == Node {
            id: new_leaf, tab: tab.id, axis, ratio: 500, first: 0, second: 0, pane: r,
        }
        &&& f.nodes@[len + 1] == Node {
            id: branch, tab: tab.id, axis, ratio: 500, first: old_leaf, second: new_leaf, pane: 0,
        }
        &&& if tab.root == old_leaf {
            &&& f.tabs@ == o.tabs@.update(ti, Tab { root: branch, ..tab })
            &&& forall|i: int| 0 <= i < len ==> #[trigger] f.nodes@[i] == o.nodes@[i]
        } else {
            &&& f.tabs@ == o.tabs@
            &&& forall|i: int| 0 <= i < len ==> #[trigger] f.nodes@[i] == relink(
                o.nodes@[i], old_leaf, branch)
        }
    })
}

/// Splitting a tab whose tree is its focused leaf alone makes the new
/// branch the root: the tab's split axis becomes the axis asked for.
pub proof fn lemma_split_sets_axis(o: &Mux, f: &Mux, axis: i64, handle: i64, r: i64)
    requires
        o.wf(),
        f.wf(),
        split_post(o, f, axis, handle, r),
        f.active_tab == o.active_tab,
        r > 0,
        o.active_pos() >= 0,
        leaf_pos(o.nodes@, o.tabs@[o.active_pos()].active_pane) >= 0,
        o.tabs@[o.active_pos()].root == o.nodes@[leaf_pos(o.nodes@, o.tabs@[o.active_pos()].active_pane)].id,
    ensures
        crate::mux::view::split_axis(f) == axis,
{
    let ti = o.active_pos();
    lemma_tab_pos(o.tabs@, o.active_tab);
    assert(o.split_check() == 1);
    assert(handle != 0);
    let len = o.nodes@.len() as int;
    let branch = (o.next_node_id + 1) as i64;
    assert forall|k: int| #![auto] 0 <= k < f.tabs@.len() implies f.tabs@[k].id == o.tabs@[k].id by {}
    crate::mux::ops::lemma_tabs_same_ids(o.tabs@, f.tabs@);
    assert(f.active_pos() == ti);
    assert(f.tabs@[ti].root == branch);
    lemma_node_pos_unique(f.nodes@, branch, len + 1);
}

/// Split the focused pane of the active tab: its leaf becomes a branch
/// (ratio 500) with the old leaf first and the new pane (session
/// `handle`) second. Returns the new pane id; 0 = no active tab, the
/// focus has no leaf, or the session did not start; -2 = the tab is full.
pub fn mux_split(mux: &mut Mux, axis: i64, handle: i64, program: String) -> (r: i64)
    requires
        old(mux).wf(),
        old(mux).room(),
    ensures
        final(mux).wf(),
        final(mux).same_side_state(old(mux)),
        final(mux).active_tab == old(mux).active_tab,
        split_post(old(mux), final(mux), axis, handle, r),
{
    let plan: i64 = mux_split_plan(mux);
    if plan != 1 {
        return plan;
    }
    let ti: i64 = active_tab_index(mux);
    proof {
        lemma_tab_pos(mux.tabs@, mux.active_tab);
        assert(0 <= ti < mux.tabs.len());
    }
    let tab_id: i64 = mux.tabs[ti as usize].id;
    let focus: i64 = mux.tabs[ti as usize].active_pane;
    let old_leaf: i64 = leaf_node_of_pane(mux, focus);
    proof {
        lemma_leaf_pos(mux.nodes@, focus);
        assert(old_leaf > 0);
    }
    let new_leaf: i64 = spawn_pane_into_tab(mux, tab_id, axis, handle, program);
    if new_leaf == 0 {
        return 0;
    }
    let ghost p = mux.panes@.last();
    let ghost nd = mux.nodes@.last();
    proof {
        assert(mux.panes@ =~= old(mux).panes@.push(p));
        assert(mux.nodes@ =~= old(mux).nodes@.push(nd));
        lemma_fresh_leaf_keeps_leaves(old(mux), mux.panes@, mux.nodes@, p, nd);
    }
    let branch: i64 = mux.next_node_id;
    mux.next_node_id = mux.next_node_id + 1;
    let bnode = Node { id: branch, tab: tab_id, axis, ratio: 500, first: 0, second: 0, pane: 0 };
    mux.nodes.push(bnode);
    let ghost before_relink = mux.nodes@;
    proof {
        let a0 = old(mux).nodes@;
        let a1 = a0.push(nd);
        assert forall|i: int| 0 <= i < a0.len() implies (#[trigger] a0[i]).id < old(mux).next_node_id by {}
        lemma_links_push(a0, old(mux).next_node_id, nd, (old(mux).next_node_id + 1) as i64);
        assert forall|i: int| 0 <= i < a1.len() implies (#[trigger] a1[i]).id < old(mux).next_node_id + 1 by {
            if i < a0.len() {
                assert(a1[i] == a0[i]);
            }
        }
        lemma_links_push(a1, (old(mux).next_node_id + 1) as i64, bnode, mux.next_node_id);
        assert(before_relink =~= a1.push(bnode));
        lemma_leaves_ok_push_branch(mux.panes@, old(mux).nodes@.push(nd), bnode);
    }
    replace_child(mux, tab_id, old_leaf, branch);
    proof {
        lemma_tab_pos_unique(mux.tabs@, tab_id, ti as int);
        lemma_split_links_kept(old(mux), before_relink, mux.nodes@, tab_id, ti as int, focus, old_leaf, branch, mux.next_node_id);
        if !(old(mux).tabs@[ti as int].root == old_leaf) {
            lemma_leaves_ok_relink(mux.panes@, before_relink, mux.nodes@, old_leaf, branch);
        }
        // the branch is the last node and the only one with its id
        assert(mux.nodes@[mux.nodes@.len() - 1].id == branch);
        assert forall|i: int, j: int| 0 <= i < j < mux.nodes@.len() implies mux.nodes@[i].id != mux.nodes@[j].id by {
            assert(mux.nodes@[i].id == before_relink[i].id);
            assert(mux.nodes@[j].id == before_relink[j].id);
            if j < old(mux).nodes@.len() {
                assert(before_relink[i] == old(mux).nodes@[i]);
                assert(before_relink[j] == old(mux).nodes@[j]);
            } else if i < old(mux).nodes@.len() {
                assert(before_relink[i] == old(mux).nodes@[i]);
            }
        }
        lemma_node_pos_unique(mux.nodes@, branch, mux.nodes@.len() - 1);
    }
    let bi: i64 = node_index(mux, branch);
    assert(0 <= bi < mux.nodes.len());
    let mut b = mux.nodes[bi as usize];
    b.first = old_leaf;
    b.second = new_leaf;
    let ghost before_set = mux.nodes@;
    mux.nodes.set(bi as usize, b);
    proof {
        lemma_leaves_ok_update_branch(mux.panes@, before_set, bi as int, b);
        assert forall|j: int| 0 <= j < before_set.len() && (b.first == (#[trigger] before_set[j]).id || b.second == before_set[j].id)
            implies before_set[j].tab == b.tab by {
            assert(before_set[j].id == before_relink[j].id && before_set[j].tab == before_relink[j].tab);
            if j < old(mux).nodes@.len() {
                assert(before_relink[j] == old(mux).nodes@[j]);
            }
        }
        lemma_links_update(before_set, mux.next_node_id, bi as int, b);
        // one more leaf and one more branch in the focused tab
        assert(old(mux).tabs@[ti as int].id == tab_id);
        assert(before_relink =~= old(mux).nodes@.push(nd).push(bnode));
        lemma_counts_ok_split(old(mux).nodes@, old(mux).tabs@, nd, bnode, tab_id);
        assert forall|i: int| 0 <= i < before_relink.len() implies (#[trigger] before_relink[i]).tab == mux.nodes@[i].tab
            && (before_relink[i].pane == 0) == (mux.nodes@[i].pane == 0) by {
            assert(before_set[i].tab == before_relink[i].tab && before_set[i].pane == before_relink[i].pane);
        }
        assert(same_tab_ids(old(mux).tabs@, mux.tabs@));
        lemma_counts_ok_same(before_relink, mux.nodes@, old(mux).tabs@, mux.tabs@);
        assert(same_focus(old(mux).tabs@, mux.tabs@));
        lemma_focus_push_pane(old(mux).panes@, old(mux).tabs@, mux.tabs@, old(mux).next_pane_id, p, mux.next_pane_id);
    }
    bump_layout_epoch(mux);
    proof {
        lemma_node_pos_unique(mux.nodes@, new_leaf, old(mux).nodes@.len() as int);
    }
    let ni: i64 = node_index(mux, new_leaf);
    assert(0 <= ni < mux.nodes.len());
    let r: i64 = mux.nodes[ni as usize].pane;
    proof {
        let pl = mux.panes@;
        assert forall|i: int, j: int| 0 <= i < j < pl.len() implies pl[i].id != pl[j].id by {
            assert(pl[i] == old(mux).panes@[i]);
            if j < old(mux).panes@.len() {
                assert(pl[j] == old(mux).panes@[j]);
            }
        }
        assert forall|i: int| 0 <= i < pl.len() implies 0 < #[trigger] pl[i].id < mux.next_pane_id by {
            if i < old(mux).panes@.len() {
                assert(pl[i] == old(mux).panes@[i]);
            }
        }
        assert forall|i: int| 0 <= i < pl.len() implies tab_pos(mux.tabs@, #[trigger] pl[i].tab) >= 0 by {
            if i < old(mux).panes@.len() {
                assert(pl[i] == old(mux).panes@[i]);
            }
            assert forall|k: int| #![auto] 0 <= k < mux.tabs@.len() implies mux.tabs@[k].id == old(mux).tabs@[k].id by {}
            lemma_tabs_same_ids(old(mux).tabs@, mux.tabs@);
        }
        assert forall|i: int| 0 <= i < mux.nodes@.len() implies 0 < #[trigger] mux.nodes@[i].id < mux.next_node_id by {
            if i < old(mux).nodes@.len() {
                assert(mux.nodes@[i].id == old(mux).nodes@[i].id);
            }
        }
        assert forall|i: int| 0 <= i < mux.nodes@.len() implies 0 <= #[trigger] mux.nodes@[i].ratio <= 1000 by {
            if i < old(mux).nodes@.len() {
                assert(mux.nodes@[i].ratio == old(mux).nodes@[i].ratio);
            }
        }
        assert forall|k: int| #![auto] 0 <= k < mux.tabs@.len() implies mux.tabs@[k].id == old(mux).tabs@[k].id by {}
        lemma_tabs_same_ids(old(mux).tabs@, mux.tabs@);
        assert(pane_ids_of_tab(old(mux).panes@, tab_id).len() < MAX_PANES);
        assert forall|t: i64| #[trigger] pane_ids_of_tab(mux.panes@, t).len() <= MAX_PANES by {
            lemma_count_push(old(mux).panes@, p, t);
        }
    }
    r
}
} // verus!
