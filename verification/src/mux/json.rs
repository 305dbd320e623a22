//! JSON renderings of the multiplexer: the structural snapshot and the
//! layout of the active tab.

use vstd::prelude::*;
use crate::mux::model::{Mux, Node, Pane, RectSlot, Tab};
use crate::mux::ops::{active_tab_index, mux_focus_pane_id, mux_focus_handle, mux_visible_pane_count};
use crate::mux::layout::rects_ready;
use crate::mux::view::{mux_split_axis, mux_slot_pane_id, split_axis, pane_slot};
use crate::text::{int_decimal, push_decimal, push_str_chars, string_from_chars};

verus! {

/// Decimal rendering of an `i64`.
pub open spec fn dec(n: i64) -> Seq<char> {
    int_decimal(n as int)
}

/// A tab as a JSON object.
pub open spec fn tab_json(t: Tab) -> Seq<char> {
    "{\"id\":"@ + dec(t.id) + ",\"root\":"@ + dec(t.root) + ",\"active_pane\":"@ + dec(t.active_pane)
        + ",\"zoomed_pane\":"@ + dec(t.zoomed_pane) + "}"@
}

/// A node as a JSON object.
pub open spec fn node_json(n: Node) -> Seq<char> {
    "{\"id\":"@ + dec(n.id) + ",\"tab\":"@ + dec(n.tab) + ",\"axis\":"@ + dec(n.axis) + ",\"ratio\":"@
        + dec(n.ratio) + ",\"first\":"@ + dec(n.first) + ",\"second\":"@ + dec(n.second)
        + ",\"pane\":"@ + dec(n.pane) + "}"@
}

/// A pane as a JSON object (the key is written as it is).
pub open spec fn pane_json(p: Pane) -> Seq<char> {
    "{\"id\":"@ + dec(p.id) + ",\"handle\":"@ + dec(p.handle) + ",\"key\":\""@ + p.key@ + "\""@
        + ",\"tab\":"@ + dec(p.tab) + ",\"exited\":"@ + (if p.exited {
        "true"@
    } else {
        "false"@
    }) + "}"@
}

/// The tabs as comma-separated JSON objects.
pub open spec fn tabs_json(s: Seq<Tab>) -> Seq<char>
    decreases s.len(),
{
    if s.len() == 0 {
        Seq::empty()
    } else if s.len() == 1 {
        tab_json(s[0])
    } else {
        tabs_json(s.drop_last()) + seq![','] + tab_json(s.last())
    }
}

/// The nodes as comma-separated JSON objects.
pub open spec fn nodes_json(s: Seq<Node>) -> Seq<char>
    decreases s.len(),
{
    if s.len() == 0 {
        Seq::empty()
    } else if s.len() == 1 {
        node_json(s[0])
    } else {
        nodes_json(s.drop_last()) + seq![','] + node_json(s.last())
    }
}

/// The panes as comma-separated JSON objects.
pub open spec fn panes_json(s: Seq<Pane>) -> Seq<char>
    decreases s.len(),
{
    if s.len() == 0 {
        Seq::empty()
    } else if s.len() == 1 {
        pane_json(s[0])
    } else {
        panes_json(s.drop_last()) + seq![','] + pane_json(s.last())
    }
}

/// The structural snapshot: active tab, tabs, nodes, panes, and the
/// focused pane with its handle.
pub open spec fn snapshot_json(m: &Mux) -> Seq<char> {
    "{\"workspace\":{\"active_tab\":"@ + dec(m.active_tab) + "},\"tabs\":["@ + tabs_json(m.tabs@)
        + "],\"nodes\":["@ + nodes_json(m.nodes@) + "],\"panes\":["@ + panes_json(m.panes@)
        + "],\"focus\":{\"pane\":"@ + dec(m.focus_pane()) + ",\"handle\":"@ + dec(
        if m.focus_pos() < 0 {
            0
        } else {
            m.panes@[m.focus_pos()].handle
        },
    ) + "}}"@
}

fn push_tab_json(out: &mut Vec<char>, t: Tab)
    ensures
        final(out)@ == old(out)@ + tab_json(t),
{
    push_str_chars(out, "{\"id\":");
    push_decimal(t.id, out);
    push_str_chars(out, ",\"root\":");
    push_decimal(t.root, out);
    push_str_chars(out, ",\"active_pane\":");
    push_decimal(t.active_pane, out);
    push_str_chars(out, ",\"zoomed_pane\":");
    push_decimal(t.zoomed_pane, out);
    push_str_chars(out, "}");
    proof {
        assert(final(out)@ =~= old(out)@ + tab_json(t));
    }
}

fn push_node_json(out: &mut Vec<char>, n: Node)
    ensures
        final(out)@ == old(out)@ + node_json(n),
{
    push_str_chars(out, "{\"id\":");
    push_decimal(n.id, out);
    push_str_chars(out, ",\"tab\":");
    push_decimal(n.tab, out);
    push_str_chars(out, ",\"axis\":");
    push_decimal(n.axis, out);
    push_str_chars(out, ",\"ratio\":");
    push_decimal(n.ratio, out);
    push_str_chars(out, ",\"first\":");
    push_decimal(n.first, out);
    push_str_chars(out, ",\"second\":");
    push_decimal(n.second, out);
    push_str_chars(out, ",\"pane\":");
    push_decimal(n.pane, out);
    push_str_chars(out, "}");
    proof {
        assert(final(out)@ =~= old(out)@ + node_json(n));
    }
}

fn push_pane_json(out: &mut Vec<char>, p: &Pane)
    ensures
        final(out)@ == old(out)@ + pane_json(*p),
{
    push_str_chars(out, "{\"id\":");
    push_decimal(p.id, out);
    push_str_chars(out, ",\"handle\":");
    push_decimal(p.handle, out);
    push_str_chars(out, ",\"key\":\"");
    push_str_chars(out, p.key.as_str());
    push_str_chars(out, "\"");
    push_str_chars(out, ",\"tab\":");
    push_decimal(p.tab, out);
    push_str_chars(out, ",\"exited\":");
    if p.exited {
        push_str_chars(out, "true");
    } else {
        push_str_chars(out, "false");
    }
    push_str_chars(out, "}");
    proof {
        assert(final(out)@ =~= old(out)@ + pane_json(*p));
    }
}

fn push_tabs_json(out: &mut Vec<char>, tabs: &Vec<Tab>)
    ensures
        final(out)@ == old(out)@ + tabs_json(tabs@),
{
    let ghost b = old(out)@;
    let mut i: usize = 0;
    while i < tabs.len()
        invariant
            i <= tabs@.len(),
            out@ == b + tabs_json(tabs@.take(i as int)),
        decreases tabs@.len() - i,
    {
        proof {
            assert(tabs@.take(i as int + 1).drop_last() =~= tabs@.take(i as int));
        }
        if i > 0 {
            out.push(',');
        }
        push_tab_json(out, tabs[i]);
        proof {
            if i == 0 {
                assert(tabs@.take(1) =~= seq![tabs@[0]]);
            }
            assert(out@ =~= b + tabs_json(tabs@.take(i as int + 1)));
        }
        i = i + 1;
    }
    proof {
        assert(tabs@.take(tabs@.len() as int) =~= tabs@);
    }
}

fn push_nodes_json(out: &mut Vec<char>, nodes: &Vec<Node>)
    ensures
        final(out)@ == old(out)@ + nodes_json(nodes@),
{
    let ghost b = old(out)@;
    let mut i: usize = 0;
    while i < nodes.len()
        invariant
            i <= nodes@.len(),
            out@ == b + nodes_json(nodes@.take(i as int)),
        decreases nodes@.len() - i,
    {
        proof {
            assert(nodes@.take(i as int + 1).drop_last() =~= nodes@.take(i as int));
        }
        if i > 0 {
            out.push(',');
        }
        push_node_json(out, nodes[i]);
        proof {
            if i == 0 {
                assert(nodes@.take(1) =~= seq![nodes@[0]]);
            }
            assert(out@ =~= b + nodes_json(nodes@.take(i as int + 1)));
        }
        i = i + 1;
    }
    proof {
        assert(nodes@.take(nodes@.len() as int) =~= nodes@);
    }
}

fn push_panes_json(out: &mut Vec<char>, panes: &Vec<Pane>)
    ensures
        final(out)@ == old(out)@ + panes_json(panes@),
{
    let ghost b = old(out)@;
    let mut i: usize = 0;
    while i < panes.len()
        invariant
            i <= panes@.len(),
            out@ == b + panes_json(panes@.take(i as int)),
        decreases panes@.len() - i,
    {
        proof {
            assert(panes@.take(i as int + 1).drop_last() =~= panes@.take(i as int));
        }
        if i > 0 {
            out.push(',');
        }
        push_pane_json(out, &panes[i]);
        proof {
            if i == 0 {
                assert(panes@.take(1) =~= seq![panes@[0]]);
            }
            assert(out@ =~= b + panes_json(panes@.take(i as int + 1)));
        }
        i = i + 1;
    }
    proof {
        assert(panes@.take(panes@.len() as int) =~= panes@);
    }
}

/// The structural snapshot as JSON (see [`snapshot_json`]).
pub fn mux_snapshot(mux: &Mux) -> (r: String)
    requires
        mux.wf(),
    ensures
        r@ == snapshot_json(mux),
{
    let mut v: Vec<char> = Vec::new();
    push_str_chars(&mut v, "{\"workspace\":{\"active_tab\":");
    push_decimal(mux.active_tab, &mut v);
    push_str_chars(&mut v, "},\"tabs\":[");
    push_tabs_json(&mut v, &mux.tabs);
    push_str_chars(&mut v, "],\"nodes\":[");
    push_nodes_json(&mut v, &mux.nodes);
    push_str_chars(&mut v, "],\"panes\":[");
    push_panes_json(&mut v, &mux.panes);
    push_str_chars(&mut v, "],\"focus\":{\"pane\":");
    push_decimal(mux_focus_pane_id(mux), &mut v);
    push_str_chars(&mut v, ",\"handle\":");
    push_decimal(mux_focus_handle(mux), &mut v);
    push_str_chars(&mut v, "}}");
    proof {
        assert(v@ =~= snapshot_json(mux));
    }
    string_from_chars(v.as_slice())
}

/// A pane slot of the layout as a JSON object.
pub open spec fn pane_rect_json(r: RectSlot) -> Seq<char> {
    "{\"pane\":"@ + dec(r.pane) + ",\"x\":"@ + dec(r.x) + ",\"y\":"@ + dec(r.y) + ",\"w\":"@ + dec(r.w)
        + ",\"h\":"@ + dec(r.h) + "}"@
}

/// A divider slot of the layout as a JSON object.
pub open spec fn divider_json(r: RectSlot) -> Seq<char> {
    "{\"branch\":"@ + dec(r.branch) + ",\"axis\":"@ + dec(r.axis) + ",\"x\":"@ + dec(r.x) + ",\"y\":"@
        + dec(r.y) + ",\"w\":"@ + dec(r.w) + ",\"h\":"@ + dec(r.h) + "}"@
}

/// The slot as JSON: a pane object for kind 1, a divider object otherwise.
pub open spec fn slot_json(r: RectSlot, kind: i64) -> Seq<char> {
    if kind == 1 {
        pane_rect_json(r)
    } else {
        divider_json(r)
    }
}

/// The slots of kind `kind` as comma-separated JSON objects.
pub open spec fn slots_json(s: Seq<RectSlot>, kind: i64) -> Seq<char>
    decreases s.len(),
{
    if s.len() == 0 {
        Seq::empty()
    } else {
        let pre = slots_json(s.drop_last(), kind);
        if s.last().kind != kind {
            pre
        } else if pre.len() == 0 {
            slot_json(s.last(), kind)
        } else {
            pre + seq![','] + slot_json(s.last(), kind)
        }
    }
}

/// The layout of the active tab as it reads after the projection cache
/// was brought up to date.
pub open spec fn layout_json(m: &Mux) -> Seq<char> {
    let ti = m.active_pos();
    if ti < 0 {
        "{\"tab\":0,\"axis\":-1,\"slots\":[0,0],\"zoom\":0,\"visible\":0,\"focus\":0,\"rects\":[],\"dividers\":[]}"@
    } else {
        let t = m.tabs@[ti];
        let s1 = match pane_slot(m.rects@, 1) {
            Some(s) => s.pane,
            None => 0,
        };
        let s2 = match pane_slot(m.rects@, 2) {
            Some(s) => s.pane,
            None => 0,
        };
        "{\"tab\":"@ + dec(t.id) + ",\"axis\":"@ + dec(split_axis(m)) + ",\"slots\":["@ + dec(s1)
            + ","@ + dec(s2) + "]"@ + ",\"zoom\":"@ + (if t.zoomed_pane != 0 {
            dec(t.zoomed_pane)
        } else {
            "0"@
        }) + ",\"visible\":"@ + dec(m.visible_ids().len() as i64) + ",\"focus\":"@ + dec(
            m.focus_pane(),
        ) + ",\"rects\":["@ + slots_json(m.rects@, 1) + "]"@ + ",\"dividers\":["@ + slots_json(
            m.rects@,
            2,
        ) + "]}"@
    }
}

fn push_slot_json(out: &mut Vec<char>, r: &RectSlot, kind: i64)
    ensures
        final(out)@ == old(out)@ + slot_json(*r, kind),
        final(out)@.len() > old(out)@.len(),
{
    if kind == 1 {
        push_str_chars(out, "{\"pane\":");
        push_decimal(r.pane, out);
    } else {
        push_str_chars(out, "{\"branch\":");
        push_decimal(r.branch, out);
        push_str_chars(out, ",\"axis\":");
        push_decimal(r.axis, out);
    }
    push_str_chars(out, ",\"x\":");
    push_decimal(r.x, out);
    push_str_chars(out, ",\"y\":");
    push_decimal(r.y, out);
    push_str_chars(out, ",\"w\":");
    push_decimal(r.w, out);
    push_str_chars(out, ",\"h\":");
    push_decimal(r.h, out);
    push_str_chars(out, "}");
    proof {
        reveal_strlit("}");
        assert(final(out)@ =~= old(out)@ + slot_json(*r, kind));
    }
}

fn push_slots_json(out: &mut Vec<char>, rects: &Vec<RectSlot>, kind: i64)
    ensures
        final(out)@ == old(out)@ + slots_json(rects@, kind),
{
    let ghost base = old(out)@;
    let mut first: bool = true;
    let mut i: usize = 0;
    while i < rects.len()
        invariant
            i <= rects@.len(),
            out@ == base + slots_json(rects@.take(i as int), kind),
            first == (slots_json(rects@.take(i as int), kind).len() == 0),
        decreases rects@.len() - i,
    {
        proof {
            assert(rects@.take(i as int + 1).drop_last() =~= rects@.take(i as int));
        }
        if rects[i].kind == kind {
            if first {
                first = false;
            } else {
                out.push(',');
            }
            push_slot_json(out, &rects[i], kind);
        }
        proof {
            assert(out@ =~= base + slots_json(rects@.take(i as int + 1), kind));
        }
        i = i + 1;
    }
    proof {
        assert(rects@.take(rects@.len() as int) =~= rects@);
    }
}

/// The layout of the active tab as JSON, after bringing the projection
/// cache up to date: tab id, root split axis, the panes of the first two
/// slots, the zoomed pane, the number of visible panes, the focused pane,
/// and the pane and divider slots.
pub fn mux_layout(mux: &mut Mux) -> (r: String)
    requires
        old(mux).wf(),
    ensures
        final(mux).wf(),
        old(mux).active_pos() >= 0 ==> final(mux).refreshed_from(old(mux)),
        old(mux).active_pos() < 0 ==> *final(mux) == *old(mux),
        r@ == layout_json(final(mux)),
{
    let ti: i64 = active_tab_index(mux);
    if ti < 0 {
        return string_from_chars(
            chars_vec("{\"tab\":0,\"axis\":-1,\"slots\":[0,0],\"zoom\":0,\"visible\":0,\"focus\":0,\"rects\":[],\"dividers\":[]}").as_slice(),
        );
    }
    proof {
        crate::mux::model::lemma_tab_pos(mux.tabs@, mux.active_tab);
        assert(0 <= ti < mux.tabs.len());
    }
    let zoomed: i64 = mux.tabs[ti as usize].zoomed_pane;
    rects_ready(mux);
    let ghost m1 = *mux;
    let mut v: Vec<char> = Vec::new();
    push_str_chars(&mut v, "{\"tab\":");
    push_decimal(mux.tabs[ti as usize].id, &mut v);
    push_str_chars(&mut v, ",\"axis\":");
    push_decimal(mux_split_axis(mux), &mut v);
    push_str_chars(&mut v, ",\"slots\":[");
    let s1: i64 = mux_slot_pane_id(mux, 1);
    push_decimal(s1, &mut v);
    push_str_chars(&mut v, ",");
    let s2: i64 = mux_slot_pane_id(mux, 2);
    push_decimal(s2, &mut v);
    push_str_chars(&mut v, "]");
    assert(mux.rects@ == m1.rects@ && mux.panes@ == m1.panes@ && mux.tabs@ == m1.tabs@
        && mux.nodes@ == m1.nodes@ && mux.active_tab == m1.active_tab);
    push_str_chars(&mut v, ",\"zoom\":");
    if zoomed != 0 {
        push_decimal(zoomed, &mut v);
    } else {
        push_str_chars(&mut v, "0");
    }
    push_str_chars(&mut v, ",\"visible\":");
    push_decimal(mux_visible_pane_count(mux), &mut v);
    push_str_chars(&mut v, ",\"focus\":");
    push_decimal(mux_focus_pane_id(mux), &mut v);
    push_str_chars(&mut v, ",\"rects\":[");
    push_slots_json(&mut v, &mux.rects, 1);
    push_str_chars(&mut v, "]");
    push_str_chars(&mut v, ",\"dividers\":[");
    push_slots_json(&mut v, &mux.rects, 2);
    push_str_chars(&mut v, "]}");
    proof {
        assert(v@ =~= layout_json(mux));
    }
    string_from_chars(v.as_slice())
}

/// The characters of a string slice.
fn chars_vec(s: &str) -> (v: Vec<char>)
    ensures
        v@ == s@,
{
    crate::text::chars_of(s)
}

} // verus!
