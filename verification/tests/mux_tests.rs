use autoterm::mux::close::{mux_close_pane, mux_close_tab};
use autoterm::mux::grow::{mux_init, mux_new_tab, mux_split};
use autoterm::mux::json::{mux_layout, mux_snapshot};
use autoterm::mux::layout::{
    mux_layout_version, mux_rect_axis, mux_rect_branch, mux_rect_h, mux_rect_key, mux_rect_kind, mux_rect_pane,
    mux_rect_w, mux_rect_x, mux_rect_y, rects_ready,
};
use autoterm::mux::nav::mux_focus_dir;
use autoterm::mux::ops::{
    mux_activate_tab, mux_enqueue, mux_focus, mux_focus_handle, mux_focus_id, mux_focus_key, mux_new,
    mux_next_step, mux_pop_action, MuxStep, mux_visible_pane_count, mux_zoom,
};
use autoterm::mux::resize::{mux_resize_branch, mux_resize_pane};
use autoterm::mux::view::{
    mux_invisible_handles, mux_pane_cols, mux_pane_rows, mux_slot_pane_id, mux_slot_pane_key, mux_split_axis,
    mux_tab_count, mux_tab_id_at, mux_tab_is_active_at, mux_tab_title_at, mux_tabs, mux_zoom_active,
    boot_read_again, finish_tick, record_viewport, set_focus_if_active_tab, term_backlog_sample, term_cols, term_pump_input, term_rows,
    tick_gate, BacklogReading,
};

fn booted() -> autoterm::mux::model::Mux {
    let mut m = mux_new();
    assert_eq!(mux_init(&mut m, 11, "cmd".to_string()), 1);
    m
}

#[test]
fn init_creates_one_tab_with_one_pane() {
    let mut m = booted();
    assert_eq!(m.active_tab, 1);
    assert_eq!(mux_focus_id(&m), 1);
    assert_eq!(mux_focus_key(&m), "pane-1");
    assert_eq!(mux_focus_handle(&m), 11);
    assert_eq!(mux_init(&mut m, 99, "cmd".to_string()), 0, "a second init is a no-op");
    assert_eq!(mux_tab_count(&m), 1);
}

#[test]
fn init_without_session_stays_uninitialised() {
    let mut m = mux_new();
    assert_eq!(mux_init(&mut m, 0, "cmd".to_string()), 0);
    assert_eq!(m.active_tab, 0);
    assert_eq!(mux_focus_id(&m), 0);
}

#[test]
fn snapshot_of_a_fresh_workspace() {
    let m = booted();
    assert_eq!(
        mux_snapshot(&m),
        "{\"workspace\":{\"active_tab\":1},\"tabs\":[{\"id\":1,\"root\":1,\"active_pane\":1,\"zoomed_pane\":0}],\
\"nodes\":[{\"id\":1,\"tab\":1,\"axis\":0,\"ratio\":500,\"first\":0,\"second\":0,\"pane\":1}],\
\"panes\":[{\"id\":1,\"handle\":11,\"key\":\"pane-1\",\"tab\":1,\"exited\":false}],\"focus\":{\"pane\":1,\"handle\":11}}"
    );
}

#[test]
fn single_pane_fills_the_area() {
    let mut m = booted();
    assert_eq!(mux_rect_kind(&mut m, 1), 1);
    assert_eq!(mux_rect_pane(&mut m, 1), 1);
    assert_eq!(mux_rect_key(&mut m, 1), "pane-1");
    assert_eq!((mux_rect_x(&mut m, 1), mux_rect_y(&mut m, 1)), (0, 0));
    assert_eq!((mux_rect_w(&mut m, 1), mux_rect_h(&mut m, 1)), (1000, 1000));
    assert_eq!(mux_rect_axis(&mut m, 1), -1);
    assert_eq!(mux_rect_kind(&mut m, 2), 0, "unused pane slots are empty");
    assert_eq!(mux_rect_kind(&mut m, 7), 0, "no divider without a split");
    assert_eq!(mux_rect_kind(&mut m, 0), 0);
    assert_eq!(mux_split_axis(&m), -1);
}

#[test]
fn side_by_side_split_layout() {
    let mut m = booted();
    let v0 = mux_layout_version(&m);
    assert_eq!(mux_split(&mut m, 1, 22, "cmd".to_string()), 2);
    assert_eq!(mux_layout_version(&m), v0 + 1);
    assert_eq!(mux_focus_id(&m), 1, "splitting keeps the focus");
    assert_eq!(mux_split_axis(&m), 1);
    assert_eq!(
        mux_layout(&mut m),
        "{\"tab\":1,\"axis\":1,\"slots\":[1,2],\"zoom\":0,\"visible\":2,\"focus\":1,\
\"rects\":[{\"pane\":1,\"x\":0,\"y\":0,\"w\":500,\"h\":1000},{\"pane\":2,\"x\":500,\"y\":0,\"w\":500,\"h\":1000}],\
\"dividers\":[{\"branch\":3,\"axis\":1,\"x\":500,\"y\":0,\"w\":0,\"h\":1000}]}"
    );
    assert_eq!(mux_rect_kind(&mut m, 7), 2);
    assert_eq!(mux_rect_branch(&mut m, 7), 3);
    assert_eq!(mux_slot_pane_id(&mut m, 2), 2);
    assert_eq!(mux_slot_pane_key(&mut m, 2), "pane-2");
    assert_eq!(mux_slot_pane_id(&mut m, 0), 1, "slots below 1 read as slot 1");
    assert_eq!(mux_slot_pane_id(&mut m, 7), 0, "only pane slots count");
}

#[test]
fn stacked_split_layout() {
    let mut m = booted();
    assert_eq!(mux_split(&mut m, 0, 22, "cmd".to_string()), 2);
    rects_ready(&mut m);
    assert_eq!(mux_rect_y(&mut m, 2), 500);
    assert_eq!(mux_rect_h(&mut m, 2), 500);
    assert_eq!(mux_rect_w(&mut m, 2), 1000);
    assert_eq!(mux_rect_y(&mut m, 7), 500);
    assert_eq!(mux_rect_h(&mut m, 7), 0);
}

#[test]
fn split_is_capped_at_six_panes() {
    let mut m = booted();
    for h in 2..=6 {
        assert!(mux_split(&mut m, 1, 10 + h, "cmd".to_string()) > 0);
    }
    assert_eq!(mux_split(&mut m, 1, 99, "cmd".to_string()), -2);
    assert_eq!(mux_visible_pane_count(&m), 6);
}

#[test]
fn split_without_session_fails() {
    let mut m = booted();
    assert_eq!(mux_split(&mut m, 1, 0, "cmd".to_string()), 0);
    assert_eq!(mux_visible_pane_count(&m), 1);
}

#[test]
fn directional_focus_moves_between_neighbours() {
    let mut m = booted();
    mux_split(&mut m, 1, 22, "cmd".to_string());
    rects_ready(&mut m);
    assert_eq!(mux_focus_dir(&mut m, 3), 1, "right of pane 1 is pane 2");
    assert_eq!(mux_focus_id(&m), 2);
    assert_eq!(mux_focus_dir(&mut m, 3), 0, "nothing further right");
    assert_eq!(mux_focus_dir(&mut m, 0), 0, "nothing above");
    assert_eq!(mux_focus_dir(&mut m, 2), 1);
    assert_eq!(mux_focus_id(&m), 1);
}

#[test]
fn divider_drag_clamps_and_snaps() {
    let mut m = booted();
    mux_split(&mut m, 1, 22, "cmd".to_string());
    assert_eq!(mux_resize_branch(&mut m, 3, 700, 0), 700);
    assert_eq!(mux_resize_branch(&mut m, 3, 520, 0), 500, "near the middle snaps to it");
    assert_eq!(mux_resize_branch(&mut m, 3, 50, 0), 100, "clamped to the minimum share");
    assert_eq!(mux_resize_branch(&mut m, 3, 5000, 0), 900, "clamped to the maximum share");
    assert_eq!(mux_resize_branch(&mut m, 3, -7, 0), 100);
    assert_eq!(mux_resize_branch(&mut m, 1, 300, 0), -1, "a leaf has no ratio");
    assert_eq!(mux_resize_branch(&mut m, 42, 300, 0), -1, "unknown branch");
    assert_eq!(mux_resize_pane(&mut m, 2, 300), 300);
    assert_eq!(mux_resize_pane(&mut m, 2, 950), 900);
    rects_ready(&mut m);
    assert_eq!(mux_rect_w(&mut m, 1), 900);
    assert_eq!(mux_rect_x(&mut m, 2), 900);
}

#[test]
fn resize_of_a_lone_pane_is_refused() {
    let mut m = booted();
    assert_eq!(mux_resize_pane(&mut m, 1, 300), -1);
    assert_eq!(mux_resize_pane(&mut m, 9, 300), -1);
}

#[test]
fn closing_a_pane_collapses_its_branch() {
    let mut m = booted();
    mux_split(&mut m, 1, 22, "cmd".to_string());
    mux_focus(&mut m, 2);
    let (r, freed) = mux_close_pane(&mut m, 2);
    assert_eq!(r, 1);
    assert_eq!(freed, vec![22]);
    assert_eq!(mux_focus_id(&m), 1, "the focus moves into the sibling subtree");
    rects_ready(&mut m);
    assert_eq!(mux_rect_w(&mut m, 1), 1000);
    assert_eq!(mux_rect_kind(&mut m, 7), 0);
    let (r, freed) = mux_close_pane(&mut m, 1);
    assert_eq!(r, 0, "the last pane of the last tab stays");
    assert!(freed.is_empty());
    assert_eq!(mux_close_pane(&mut m, 77).0, -1);
}

#[test]
fn tabs_open_activate_and_close() {
    let mut m = booted();
    assert_eq!(mux_new_tab(&mut m, 33, "cmd".to_string()), 2);
    assert_eq!(m.active_tab, 2, "a new tab is activated");
    assert_eq!(mux_tab_count(&m), 2);
    assert_eq!(mux_tabs(&m), vec!["1|0|shell 1".to_string(), "2|1|shell 2".to_string()]);
    assert_eq!(mux_tab_id_at(&m, 1), 2);
    assert_eq!(mux_tab_id_at(&m, 2), 0);
    assert_eq!(mux_tab_is_active_at(&m, 1), 1);
    assert_eq!(mux_tab_is_active_at(&m, 0), 0);
    assert_eq!(mux_tab_title_at(4), "shell 5");
    assert_eq!(mux_invisible_handles(&m), vec![11]);
    assert_eq!(mux_activate_tab(&mut m, 1), 1);
    assert_eq!(mux_activate_tab(&mut m, 9), -1);
    let (r, freed) = mux_close_tab(&mut m, 2);
    assert_eq!(r, 1);
    assert_eq!(freed, vec![33]);
    assert_eq!(mux_tab_count(&m), 1);
    assert_eq!(mux_close_tab(&mut m, 1).0, 0, "the last tab stays");
    assert_eq!(mux_close_tab(&mut m, 5).0, -1);
}

#[test]
fn closing_the_active_tab_activates_the_first() {
    let mut m = booted();
    mux_new_tab(&mut m, 33, "cmd".to_string());
    let (r, _) = mux_close_tab(&mut m, 2);
    assert_eq!(r, 1);
    assert_eq!(m.active_tab, 1);
}

#[test]
fn zoom_toggles_a_single_full_slot() {
    let mut m = booted();
    mux_split(&mut m, 1, 22, "cmd".to_string());
    assert_eq!(mux_zoom(&mut m, 2), 1);
    assert_eq!(mux_zoom_active(&m), 1);
    assert_eq!(mux_visible_pane_count(&m), 1);
    assert_eq!(mux_rect_pane(&mut m, 1), 2);
    assert_eq!(mux_rect_w(&mut m, 1), 1000);
    assert_eq!(mux_rect_kind(&mut m, 2), 0, "only one slot while zoomed");
    assert_eq!(mux_focus_dir(&mut m, 2), 0, "no neighbour while zoomed");
    assert_eq!(mux_zoom(&mut m, 2), 0);
    assert_eq!(mux_zoom_active(&m), 0);
}

#[test]
fn action_queue_is_fifo() {
    let mut m = booted();
    mux_enqueue(&mut m, 2, 1);
    mux_enqueue(&mut m, 4, 7);
    assert_eq!(mux_pop_action(&mut m), Some((2, 1)));
    assert_eq!(mux_pop_action(&mut m), Some((4, 7)));
    assert_eq!(mux_pop_action(&mut m), None);
}

#[test]
fn viewport_records_and_defaults() {
    let mut m = booted();
    assert_eq!(mux_pane_cols(&m, 1), 100);
    assert_eq!(mux_pane_rows(&m, 5), 30, "unknown panes read the default");
    assert_eq!(record_viewport(&mut m, 1, 120, 40), 1);
    assert_eq!((mux_pane_cols(&m, 1), mux_pane_rows(&m, 1)), (120, 40));
    assert_eq!((term_cols(&m), term_rows(&m)), (120, 40), "the focused pane sets the focused size");
    mux_split(&mut m, 1, 22, "cmd".to_string());
    assert_eq!(record_viewport(&mut m, 2, 60, 40), 1);
    assert_eq!(term_cols(&m), 120, "another pane leaves the focused size");
    assert_eq!(record_viewport(&mut m, 9, 1, 1), 0);
}

#[test]
fn typing_moves_the_focus() {
    let mut m = booted();
    mux_split(&mut m, 1, 22, "cmd".to_string());
    assert_eq!(term_pump_input(&mut m, &vec![1, 2], &vec![0, 3]), 3);
    assert_eq!(mux_focus_id(&m), 2);
    assert_eq!(term_pump_input(&mut m, &vec![1, 2], &vec![2, 0]), 2);
    assert_eq!(mux_focus_id(&m), 1);
    assert_eq!(set_focus_if_active_tab(&mut m, 99), 1);
    assert_eq!(mux_focus_id(&m), 1);
}

#[test]
fn tick_gate_every_third_tick_or_on_scroll() {
    let mut m = mux_new();
    assert_eq!(tick_gate(&mut m, false), 0);
    assert_eq!(tick_gate(&mut m, false), 0);
    assert_eq!(tick_gate(&mut m, false), 1);
    assert_eq!(tick_gate(&mut m, false), 0);
    assert_eq!(tick_gate(&mut m, true), 1, "pending scroll forces a full tick");
    assert_eq!(tick_gate(&mut m, false), 0);
}

#[test]
fn backlog_samples_accumulate_alerts() {
    let mut m = booted();
    assert_eq!(term_backlog_sample(&mut m, None), 0);
    let r = BacklogReading { fresh: 2, pending_mb: 3, paused: 1, dropped: 4 };
    assert_eq!(term_backlog_sample(&mut m, Some(r)), 2);
    assert_eq!(term_backlog_sample(&mut m, Some(BacklogReading { fresh: 1, ..r })), 1);
    assert_eq!(m.bl_alerts_total, 3);
    assert_eq!((m.bl_pending_mb, m.bl_paused, m.bl_dropped), (3, 1, 4));
}

#[test]
fn queued_actions_decode_in_order() {
    let mut m = booted();
    assert_eq!(mux_next_step(&mut m), None);
    for (code, arg) in [(1, 2), (2, 1), (3, 99), (4, 1), (5, 1), (6, 1), (9, 4)] {
        mux_enqueue(&mut m, code, arg);
    }
    assert_eq!(mux_next_step(&mut m), Some(MuxStep::NewTab(2)));
    assert_eq!(mux_next_step(&mut m), Some(MuxStep::Split(1)));
    assert_eq!(mux_next_step(&mut m), Some(MuxStep::ClosePane(1)), "closing takes the focused pane, not the argument");
    assert_eq!(mux_next_step(&mut m), Some(MuxStep::Zoom(1)));
    assert_eq!(mux_next_step(&mut m), Some(MuxStep::ActivateTab(1)));
    assert_eq!(mux_next_step(&mut m), Some(MuxStep::CloseTab(1)));
    assert_eq!(mux_next_step(&mut m), Some(MuxStep::Unknown));
    assert_eq!(mux_next_step(&mut m), None);
}

#[test]
fn split_then_close_gives_back_the_layout() {
    let mut m = booted();
    mux_new_tab(&mut m, 33, "cmd".to_string());
    assert_eq!(mux_split(&mut m, 0, 44, "cmd".to_string()), 3);
    let before = mux_snapshot(&m);
    let r = mux_split(&mut m, 1, 55, "cmd".to_string());
    assert_eq!(r, 4);
    assert_ne!(mux_snapshot(&m), before);
    assert_eq!(mux_close_pane(&mut m, r), (1, vec![55]));
    assert_eq!(mux_snapshot(&m), before, "tabs, nodes, panes and focus as before the split");
}

#[test]
fn new_tab_then_close_gives_back_the_workspace() {
    let mut m = booted();
    mux_split(&mut m, 1, 22, "cmd".to_string());
    let before = mux_snapshot(&m);
    let t = mux_new_tab(&mut m, 33, "cmd".to_string());
    assert_eq!(t, 2);
    assert_eq!(mux_close_tab(&mut m, t), (1, vec![33]));
    assert_eq!(mux_snapshot(&m), before);
}

#[test]
fn closing_a_new_tab_activates_the_first() {
    let mut m = booted();
    mux_new_tab(&mut m, 33, "cmd".to_string());
    assert_eq!(m.active_tab, 2);
    let t = mux_new_tab(&mut m, 44, "cmd".to_string());
    assert_eq!(mux_close_tab(&mut m, t), (1, vec![44]));
    assert_eq!(m.active_tab, 1, "the first tab, not the one active before");
    assert_eq!(mux_tab_count(&m), 2);
}

#[test]
fn zooming_twice_gives_back_the_tab() {
    let mut m = booted();
    mux_split(&mut m, 1, 22, "cmd".to_string());
    let before = mux_snapshot(&m);
    assert_eq!(mux_zoom(&mut m, 2), 1);
    assert_eq!(mux_zoom_active(&m), 1);
    assert_eq!(mux_zoom(&mut m, 2), 0);
    assert_eq!(mux_snapshot(&m), before);
}

#[test]
fn actions_are_taken_oldest_first() {
    let mut m = booted();
    mux_enqueue(&mut m, 5, 1);
    mux_enqueue(&mut m, 2, 0);
    assert_eq!(mux_pop_action(&mut m), Some((5, 1)));
    mux_enqueue(&mut m, 4, 1);
    assert_eq!(mux_pop_action(&mut m), Some((2, 0)));
    assert_eq!(mux_pop_action(&mut m), Some((4, 1)));
    assert_eq!(mux_pop_action(&mut m), None);
}

#[test]
fn a_lone_pane_has_no_neighbour() {
    let mut m = booted();
    rects_ready(&mut m);
    for d in 0..4 {
        assert_eq!(mux_focus_dir(&mut m, d), 0, "direction {}", d);
        assert_eq!(mux_focus_id(&m), 1);
    }
}

#[test]
fn pane_slots_never_overlap_and_fill_the_area() {
    let mut m = booted();
    for h in 2..=6 {
        assert!(mux_split(&mut m, h % 2, 10 + h, "cmd".to_string()) > 0);
        assert_eq!(mux_focus(&mut m, h), 1);
    }
    let mut boxes: Vec<(i64, i64, i64, i64)> = Vec::new();
    for k in 1..=6 {
        assert_eq!(mux_rect_kind(&mut m, k), 1);
        boxes.push((mux_rect_x(&mut m, k), mux_rect_y(&mut m, k), mux_rect_w(&mut m, k), mux_rect_h(&mut m, k)));
    }
    let mut total = 0;
    for (i, a) in boxes.iter().enumerate() {
        total += a.2 * a.3;
        for b in boxes.iter().skip(i + 1) {
            let apart = a.0 + a.2 <= b.0 || b.0 + b.2 <= a.0 || a.1 + a.3 <= b.1 || b.1 + b.3 <= a.1;
            assert!(apart, "{:?} overlaps {:?}", a, b);
        }
    }
    assert_eq!(total, 1_000_000);
}

#[test]
fn focusing_a_pane_of_a_hidden_tab_keeps_the_workspace_focus() {
    let mut m = booted();
    assert_eq!(mux_split(&mut m, 1, 22, "cmd".to_string()), 2);
    assert_eq!(mux_new_tab(&mut m, 33, "cmd".to_string()), 2);
    assert_eq!(mux_focus_id(&m), 3);
    assert_eq!(mux_focus(&mut m, 2), 1);
    assert_eq!(mux_focus_id(&m), 3, "pane 2 lives in the hidden tab");
    assert_eq!(mux_activate_tab(&mut m, 1), 1);
    assert_eq!(mux_focus_id(&m), 2, "the hidden tab remembered its new focus");
    assert_eq!(mux_focus(&mut m, 42), -1);
    assert_eq!(mux_focus_id(&m), 2);
}

#[test]
fn closing_the_focused_pane_moves_focus_within_its_tab() {
    let mut m = booted();
    assert_eq!(mux_split(&mut m, 1, 22, "cmd".to_string()), 2);
    assert_eq!(mux_split(&mut m, 0, 23, "cmd".to_string()), 3);
    assert_eq!(mux_focus(&mut m, 2), 1);
    let (r, freed) = mux_close_pane(&mut m, 2);
    assert_eq!((r, freed), (1, vec![22]));
    assert_eq!(mux_focus_id(&m), 1);
}

#[test]
fn first_tick_reads_until_rows_appear_then_boots() {
    let mut m = booted();
    assert!(boot_read_again(&m, 0, false));
    assert!(boot_read_again(&m, 399, false));
    assert!(!boot_read_again(&m, 400, false), "at most 400 reads");
    assert!(!boot_read_again(&m, 3, true), "rows appeared");
    finish_tick(&mut m, false);
    assert!(m.booted && !m.exited);
    assert!(!boot_read_again(&m, 0, false), "a booted workspace reads once");
    finish_tick(&mut m, true);
    assert!(m.exited);
}

#[test]
fn panes_come_with_one_divider_fewer() {
    let mut m = booted();
    assert_eq!(mux_split(&mut m, 1, 22, "cmd".to_string()), 2);
    assert_eq!(mux_split(&mut m, 0, 23, "cmd".to_string()), 3);
    for k in 1..=3 {
        assert_eq!(mux_rect_kind(&mut m, k), 1);
    }
    for k in 4..=6 {
        assert_eq!(mux_rect_kind(&mut m, k), 0);
    }
    assert_eq!(mux_rect_kind(&mut m, 7), 2);
    assert_eq!(mux_rect_kind(&mut m, 8), 2);
    assert_eq!(mux_rect_kind(&mut m, 9), 0, "no slot past the last divider");
    assert_eq!(mux_visible_pane_count(&m), 3);
}

#[test]
fn a_tab_keeps_a_visible_pane_when_panes_close() {
    let mut m = booted();
    assert_eq!(mux_split(&mut m, 1, 22, "cmd".to_string()), 2);
    assert_eq!(mux_close_pane(&mut m, 2).0, 1);
    assert_eq!(mux_visible_pane_count(&m), 1);
    assert_eq!(mux_close_pane(&mut m, 1).0, 0, "the last pane of the last tab stays");
    assert_eq!(mux_visible_pane_count(&m), 1);
}
