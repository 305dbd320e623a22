use autoterm::config::Config;
use autoterm::mux::grow::{mux_init, mux_new_tab, mux_split};
use autoterm::mux::layout::mux_layout_version;
use autoterm::mux::model::Mux;
use autoterm::mux::ops::{mux_activate_tab, mux_focus_id, mux_new, mux_pop_action};
use autoterm::mux::view::record_viewport;
use autoterm::shell::{App, AppEffect, AppMsg, DividerPx};

const PROFILES: &str = r#"
default_profile = "ash"

[[profiles]]
name = "ash"
commandline = 'ash.exe'

[[profiles]]
name = "cmd"
commandline = 'cmd.exe'
"#;

fn booted() -> Mux {
    let mut m = mux_new();
    assert_eq!(mux_init(&mut m, 11, "cmd".to_string()), 1);
    m
}

fn opened(m: &mut Mux) -> App {
    App::new(m, &Config::parse(PROFILES), 802, 482)
}

fn ratio_of(m: &Mux, node: i64) -> i64 {
    m.nodes.iter().find(|n| n.id == node).unwrap().ratio
}

#[test]
fn shell_opens_on_a_fresh_workspace() {
    let mut m = booted();
    let a = opened(&mut m);
    assert_eq!(a.tab_ids, vec![1]);
    assert_eq!(a.tab_labels, vec!["● shell 1".to_string()]);
    assert_eq!((a.client_w, a.client_h, a.tab_h, a.status_h), (802, 482, 40, 24));
    let p = &a.panes_px[0];
    assert_eq!((p.kind, p.key.as_str()), (1, "pane-1"));
    assert_eq!((p.x, p.y, p.w, p.h), (0, 0, 802, 418), "pane area = window less strip and status bar");
    assert_eq!((p.cols, p.rows), (100, 30));
    for k in 1..6 {
        let q = &a.panes_px[k];
        assert_eq!((q.kind, q.key.as_str(), q.x, q.y, q.w, q.h, q.cols, q.rows), (0, "", 0, 0, 0, 0, 100, 30));
    }
    assert_eq!(a.dividers_px, vec![DividerPx { branch: 0, axis: 0, x: 0, y: 0, w: 0, h: 0 }; 5]);
    assert_eq!(a.profile_names, vec!["ash".to_string(), "cmd".to_string()]);
    assert_eq!(a.last_ver, mux_layout_version(&m));
    assert_eq!((a.scheme, a.dragging, a.profile_menu), (0, 0, 0));
}

#[test]
fn quiet_tick_keeps_the_placement_and_rereads_grids() {
    let mut m = booted();
    let mut a = opened(&mut m);
    assert_eq!(record_viewport(&mut m, 1, 80, 24), 1);
    assert_eq!(a.on(&mut m, AppMsg::Tick(802, 482)), AppEffect::ReadLines);
    let p = &a.panes_px[0];
    assert_eq!((p.x, p.y, p.w, p.h), (0, 0, 802, 418), "nothing moved, nothing re-placed");
    assert_eq!((p.cols, p.rows), (80, 24), "a shown pane's grid is re-read");
    assert_eq!((a.cols, a.rows), (80, 24));
}

#[test]
fn tick_after_a_split_places_panes_and_divider() {
    let mut m = booted();
    let mut a = opened(&mut m);
    assert_eq!(mux_split(&mut m, 1, 22, "cmd".to_string()), 2);
    assert_eq!(a.on(&mut m, AppMsg::Tick(802, 482)), AppEffect::ReadLines);
    assert_eq!(a.last_ver, mux_layout_version(&m));
    let (p1, p2) = (&a.panes_px[0], &a.panes_px[1]);
    assert_eq!((p1.kind, p1.x, p1.y, p1.w, p1.h), (1, 0, 0, 401, 442), "after a change the area is window less strip");
    assert_eq!((p2.kind, p2.key.as_str(), p2.x, p2.y, p2.w, p2.h), (1, "pane-2", 401, 0, 401, 442));
    assert_eq!(a.dividers_px[0], DividerPx { branch: 3, axis: 1, x: 401, y: 0, w: 0, h: 442 });
    assert_eq!(a.dividers_px[1], DividerPx { branch: 0, axis: 0, x: 0, y: 0, w: 0, h: 0 });
}

#[test]
fn window_resize_replaces_the_slots() {
    let mut m = booted();
    let mut a = opened(&mut m);
    a.on(&mut m, AppMsg::Tick(1000, 540));
    assert_eq!((a.client_w, a.client_h), (1000, 540));
    let p = &a.panes_px[0];
    assert_eq!((p.w, p.h), (1000, 500));
}

#[test]
fn shortcuts_queue_their_actions() {
    let mut m = booted();
    let mut a = opened(&mut m);
    let cases: [(i32, (i64, i64)); 5] = [(1, (1, 0)), (2, (3, 1)), (3, (2, 1)), (4, (2, 0)), (5, (4, 1))];
    for (n, want) in cases {
        assert_eq!(a.on(&mut m, AppMsg::Shortcut(n)), AppEffect::Nothing);
        assert_eq!(mux_pop_action(&mut m), Some(want), "shortcut {}", n);
    }
    a.on(&mut m, AppMsg::Shortcut(99));
    assert_eq!(mux_pop_action(&mut m), None, "unknown shortcuts do nothing");
}

#[test]
fn buttons_queue_their_actions() {
    let mut m = booted();
    let mut a = opened(&mut m);
    let cases = [
        (AppMsg::NewTab, (1, 0)),
        (AppMsg::Split(1), (2, 1)),
        (AppMsg::Split(0), (2, 0)),
        (AppMsg::Zoom, (4, 1)),
        (AppMsg::CloseFocusPane, (3, 1)),
        (AppMsg::TabActivate(0), (5, 1)),
        (AppMsg::TabClose(0), (6, 1)),
        (AppMsg::TabClose(5), (6, 0)),
    ];
    for (msg, want) in cases {
        assert_eq!(a.on(&mut m, msg), AppEffect::Nothing);
        assert_eq!(mux_pop_action(&mut m), Some(want), "{:?}", msg);
    }
}

#[test]
fn tab_shortcuts_cycle_and_wrap() {
    let mut m = booted();
    assert_eq!(mux_new_tab(&mut m, 33, "cmd".to_string()), 2);
    assert_eq!(mux_new_tab(&mut m, 44, "cmd".to_string()), 3);
    let mut a = opened(&mut m);
    assert_eq!(m.active_tab, 3);
    a.on(&mut m, AppMsg::Shortcut(8));
    assert_eq!(mux_pop_action(&mut m), Some((5, 1)), "next after the last wraps to the first");
    a.on(&mut m, AppMsg::Shortcut(6));
    assert_eq!(mux_pop_action(&mut m), Some((5, 2)));
    a.on(&mut m, AppMsg::Shortcut(7));
    assert_eq!(mux_pop_action(&mut m), Some((5, 2)), "both previous-tab keys agree");
    assert_eq!(mux_activate_tab(&mut m, 1), 1);
    a.on(&mut m, AppMsg::Shortcut(6));
    assert_eq!(mux_pop_action(&mut m), Some((5, 3)), "previous before the first wraps to the last");
    a.on(&mut m, AppMsg::Shortcut(8));
    assert_eq!(mux_pop_action(&mut m), Some((5, 2)));
}

#[test]
fn stepping_forward_then_back_returns_to_the_tab() {
    let mut m = booted();
    mux_new_tab(&mut m, 33, "cmd".to_string());
    mux_new_tab(&mut m, 44, "cmd".to_string());
    let mut a = opened(&mut m);
    for start in [1, 2, 3] {
        assert_eq!(mux_activate_tab(&mut m, start), 1);
        a.on(&mut m, AppMsg::Shortcut(8));
        let (_, next) = mux_pop_action(&mut m).unwrap();
        assert_eq!(mux_activate_tab(&mut m, next), 1);
        a.on(&mut m, AppMsg::Shortcut(6));
        assert_eq!(mux_pop_action(&mut m), Some((5, start)));
    }
}

#[test]
fn tab_strip_marks_the_active_tab() {
    let mut m = booted();
    mux_new_tab(&mut m, 33, "cmd".to_string());
    let mut a = opened(&mut m);
    assert_eq!(a.tab_ids, vec![1, 2]);
    assert_eq!(a.tab_labels, vec!["shell 1".to_string(), "● shell 2".to_string()]);
    mux_activate_tab(&mut m, 1);
    a.on(&mut m, AppMsg::Tick(802, 482));
    assert_eq!(a.tab_labels, vec!["● shell 1".to_string(), "shell 2".to_string()]);
}

#[test]
fn toggles_flip_and_flip_back() {
    let mut m = booted();
    let mut a = opened(&mut m);
    a.on(&mut m, AppMsg::SchemeToggle);
    assert_eq!(a.scheme, 1);
    a.on(&mut m, AppMsg::Shortcut(9));
    assert_eq!(a.scheme, 0, "the scheme shortcut toggles too");
    a.on(&mut m, AppMsg::ProfileMenu);
    assert_eq!(a.profile_menu, 1);
    a.on(&mut m, AppMsg::ProfileMenu);
    assert_eq!(a.profile_menu, 0);
    a.on(&mut m, AppMsg::ProfileMenu);
    assert_eq!(a.on(&mut m, AppMsg::NewTabProfile(1)), AppEffect::Nothing);
    assert_eq!(a.profile_menu, 0, "choosing a profile closes the menu");
    assert_eq!(mux_pop_action(&mut m), Some((1, 2)), "profile slots count from 1");
}

#[test]
fn menu_and_typing_ask_the_engine() {
    let mut m = booted();
    let mut a = opened(&mut m);
    assert_eq!(a.on(&mut m, AppMsg::Menu(3)), AppEffect::Interrupt);
    assert_eq!(a.on(&mut m, AppMsg::Menu(0)), AppEffect::Nothing);
    assert_eq!(a.on(&mut m, AppMsg::Menu(-1)), AppEffect::Nothing);
    assert_eq!(a.on(&mut m, AppMsg::KeyIn), AppEffect::PumpInput);
    assert_eq!(mux_pop_action(&mut m), None);
}

#[test]
fn press_drag_drop_moves_the_divider() {
    let mut m = booted();
    let mut a = opened(&mut m);
    mux_split(&mut m, 1, 22, "cmd".to_string());
    a.on(&mut m, AppMsg::Tick(802, 482));
    a.on(&mut m, AppMsg::Press(7));
    assert_eq!((a.dragging, a.drag_branch, a.drag_w, a.drag_h), (1, 3, 802, 418));
    let v = mux_layout_version(&m);
    a.on(&mut m, AppMsg::Drag(700, 0));
    assert_eq!(ratio_of(&m, 3), 700);
    assert_eq!(mux_layout_version(&m), v + 1);
    a.on(&mut m, AppMsg::Drag(520, 0));
    assert_eq!(ratio_of(&m, 3), 500, "near the middle snaps to it");
    a.on(&mut m, AppMsg::Drop);
    assert_eq!((a.dragging, a.drag_branch, a.drag_w, a.drag_h), (0, 0, 0, 0));
    a.on(&mut m, AppMsg::Drag(300, 0));
    assert_eq!(ratio_of(&m, 3), 500, "no branch is dragged after a drop");
}

#[test]
fn focus_shortcuts_move_between_panes() {
    let mut m = booted();
    let mut a = opened(&mut m);
    mux_split(&mut m, 1, 22, "cmd".to_string());
    a.on(&mut m, AppMsg::Tick(802, 482));
    a.on(&mut m, AppMsg::Shortcut(13));
    assert_eq!(mux_focus_id(&m), 2, "alt+d moves right");
    a.on(&mut m, AppMsg::Shortcut(12));
    assert_eq!(mux_focus_id(&m), 1, "alt+a moves left");
    a.on(&mut m, AppMsg::Shortcut(10));
    assert_eq!(mux_focus_id(&m), 1, "nothing above");
}
