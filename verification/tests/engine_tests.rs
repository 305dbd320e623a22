use autoterm::engine::{
    clamp_count, cursor_drawn, decode_row_cells, decode_style_color, kind_color, line_bytes, pending_mb,
    pid_report, resize_decision, row_style, spawn_geometry, term_color_key, BacklogAlarm, CellColor, GridSize,
    OverflowLog, StyledCell, TermColor, dirty_rows_report, helper_exit_ok, row_text_bytes, STATUS_CONTROL_C_EXIT};
use autoterm::media::media_json_str;

#[test]
fn color_encoding_kinds() {
    assert_eq!(kind_color(TermColor::Named(1)), 0x0100_0001);
    assert_eq!(kind_color(TermColor::Named(257)), 0);
    assert_eq!(kind_color(TermColor::Indexed(208)), 0x0100_00D0);
    assert_eq!(kind_color(TermColor::Spec(1, 2, 3)), 0x0201_0203);
}

#[test]
fn color_round_trip() {
    for c in [TermColor::Named(3), TermColor::Indexed(200), TermColor::Spec(0xAB, 0xCD, 0xEF)] {
        let back = decode_style_color(kind_color(c));
        let want = match c {
            TermColor::Named(n) => CellColor::Indexed(n as u8),
            TermColor::Indexed(i) => CellColor::Indexed(i),
            TermColor::Spec(r, g, b) => CellColor::Rgb(r, g, b),
        };
        assert_eq!(back, want);
    }
    assert_eq!(decode_style_color(kind_color(TermColor::Named(256))), CellColor::Default);
    assert_eq!(decode_style_color(0x0300_0001), CellColor::Default);
}

#[test]
fn spawn_geometry_defaults() {
    assert_eq!(spawn_geometry(0, -3), (80, 24));
    assert_eq!(spawn_geometry(120, 40), (120, 40));
}

#[test]
fn backlog_alarm_hysteresis_and_take() {
    let mut a = BacklogAlarm::new();
    assert!(!a.check_backlog(1_000_000));
    assert!(a.check_backlog(3_000_000), "crossing the warning line raises");
    assert!(!a.check_backlog(4_000_000), "a sustained backlog raises only once");
    assert!(!a.check_backlog(600_000), "above the clear line the alert stays");
    assert!(a.active);
    assert!(!a.check_backlog(500_000));
    assert!(!a.active, "falling to the clear line lowers the alert");
    assert!(a.check_backlog(2_097_152), "a new episode raises again");
    assert_eq!(a.take_alerts(), 2);
    assert_eq!(a.take_alerts(), 0, "taking empties the count");
}

#[test]
fn overflow_log_rate_limit() {
    let mut l = OverflowLog::new();
    assert!(!l.check_overflow(0, 10));
    assert!(l.check_overflow(3, 10), "the first growth is reported");
    assert!(!l.check_overflow(5, 500), "within a second growth is not reported");
    assert!(l.check_overflow(6, 1010));
    assert!(!l.check_overflow(2, 1020), "a lower count resets the base silently");
    assert_eq!(l.last_count, 2);
    assert_eq!(l.last_ms, 1010);
}

#[test]
fn pending_mb_floors_and_clamps() {
    assert_eq!(pending_mb(-5), 0);
    assert_eq!(pending_mb(1_048_575), 0);
    assert_eq!(pending_mb(3 * 1_048_576 + 7), 3);
}

#[test]
fn line_bytes_appends_crlf() {
    assert_eq!(line_bytes("dir"), b"dir\r\n".to_vec());
    assert_eq!(line_bytes(""), b"\r\n".to_vec());
}

#[test]
fn row_style_interleaves_and_checks_capacity() {
    let line = vec![
        StyledCell { c: 'a', fg: TermColor::Indexed(1), bg: TermColor::Named(256) },
        StyledCell { c: 'b', fg: TermColor::Spec(1, 2, 3), bg: TermColor::Indexed(0) },
    ];
    assert_eq!(row_style(&line, 3), None);
    assert_eq!(
        row_style(&line, 4),
        Some(vec![0x0100_0001, 0, 0x0201_0203, 0x0100_0000])
    );
}

#[test]
fn decode_row_cells_stops_at_styles() {
    let text: Vec<char> = "abc".chars().collect();
    let styles = vec![0x0100_0001, 0, 0x0201_0203, 0x0100_0000];
    let cells = decode_row_cells(&text, &styles, 4);
    assert_eq!(cells.len(), 2);
    assert_eq!(cells[0], ('a', CellColor::Indexed(1), CellColor::Default));
    assert_eq!(cells[1], ('b', CellColor::Rgb(1, 2, 3), CellColor::Indexed(0)));
    assert!(decode_row_cells(&text, &styles, -1).is_empty());
}

#[test]
fn color_keys_and_counters() {
    assert_eq!(term_color_key(TermColor::Named(2)), 3);
    assert_eq!(term_color_key(TermColor::Indexed(5)), 1005);
    assert_eq!(term_color_key(TermColor::Spec(9, 9, 9)), 2000);
    assert_eq!(pid_report(Some(42)), 42);
    assert_eq!(pid_report(Some(u32::MAX)), -1);
    assert_eq!(pid_report(None), -1);
    assert_eq!(clamp_count(u64::MAX), i32::MAX);
    assert_eq!(clamp_count(7), 7);
}

#[test]
fn cursor_drawn_decodes_packed_position() {
    assert_eq!(cursor_drawn(u64::MAX), None);
    assert_eq!(cursor_drawn(3 * 8192 + 17), Some((3, 17)));
}

#[test]
fn grid_size_and_resize() {
    let g = GridSize { cols: 80, rows: 24 };
    assert_eq!(g.columns(), 80);
    assert_eq!(g.screen_lines(), 24);
    assert_eq!(g.total_lines(), 24);
    assert_eq!(resize_decision(g, 80, 24), (g, false));
    assert_eq!(resize_decision(g, 100, 24), (GridSize { cols: 100, rows: 24 }, true));
}

#[test]
fn media_json_string_escapes() {
    assert_eq!(media_json_str("a\"b\\c"), "\"a\\\"b\\\\c\"");
    assert_eq!(media_json_str("x\ny\tz\r"), "\"x\\ny\\tz\\r\"");
    assert_eq!(media_json_str("\u{1}\u{1f}"), "\"\\u0001\\u001f\"");
    assert_eq!(media_json_str("歌"), "\"歌\"");
}

#[test]
fn row_text_fills_what_fits_and_reports_the_need() {
    assert_eq!(row_text_bytes("héllo", 512), (7, b"h\xc3\xa9llo\0".to_vec()));
    assert_eq!(row_text_bytes("abc", 2), (4, b"a\0".to_vec()), "one byte of text, then the terminator");
    assert_eq!(row_text_bytes("abc", 1), (4, vec![0]));
    assert_eq!(row_text_bytes("", 8), (1, vec![0]));
}

#[test]
fn dirty_rows_reports() {
    let rows = vec![3usize, 5, 7];
    assert_eq!(dirty_rows_report(true, &rows, 10, true, 64), (-1, vec![]), "full repaint");
    assert_eq!(dirty_rows_report(false, &vec![], 10, true, 64), (0, vec![]));
    assert_eq!(dirty_rows_report(false, &rows, 10, false, 64), (3, vec![]), "no buffer: just the count");
    assert_eq!(dirty_rows_report(false, &rows, 10, true, 0), (3, vec![]));
    assert_eq!(dirty_rows_report(false, &rows, 10, true, 64), (3, vec![3, 5, 7]));
    assert_eq!(dirty_rows_report(false, &rows, 10, true, 2), (2, vec![3, 5]), "capped by the room");
    assert_eq!(dirty_rows_report(false, &rows, 1, true, 64), (1, vec![3]), "capped by the rows on screen");
    assert_eq!(dirty_rows_report(false, &rows, 0, true, 64), (0, vec![]));
}

#[test]
fn interrupt_helper_outcomes() {
    assert!(helper_exit_ok(Some(0)));
    assert!(helper_exit_ok(Some(STATUS_CONTROL_C_EXIT)), "killed by its own event: the event went out");
    assert_eq!(STATUS_CONTROL_C_EXIT as u32, 0xC000013A);
    assert!(!helper_exit_ok(Some(1)));
    assert!(!helper_exit_ok(None), "no exit code falls back");
}
