use autoterm::dev::{parse_dev_paste, parse_dev_select, parse_input, unescape};
use autoterm::keys::{
    begin_selection_type, cell_to_point, clipboard_shortcut, selection_cell_count, ClickState, edge_band, is_ash_program, key_plan, key_to_bytes, normalize_paste, parse_ctrl_c_mode, AppConfig, CtrlCMode,
    ClipboardShortcut, KeyInput, KeyPlan, Mods, NamedKey, SelectionType, Vertical,
};
use autoterm::width::is_wide;

fn cfg(shell: &str, mode: CtrlCMode) -> AppConfig {
    AppConfig { shell: shell.to_string(), ctrl_c_mode: mode }
}

fn pwsh() -> AppConfig {
    cfg("pwsh", CtrlCMode::Auto)
}

fn key(s: &str) -> KeyInput {
    KeyInput::Character(s.into())
}

#[test]
fn hex_escape() {
    assert_eq!(unescape(r"\x41"), b"A");
    assert_eq!(unescape(r"\x03"), &[0x03]);
    assert_eq!(unescape(r"\x1b[A"), &[0x1b, b'[', b'A']);
    assert_eq!(unescape(r"\x0D"), &[0x0d]);
    assert_eq!(unescape(r"\xzz"), br"\xzz");
    assert_eq!(unescape(r"a\x09b\r"), b"a\tb\r");
}

#[test]
fn unescape_short_escapes_and_edges() {
    assert_eq!(unescape(r"\n"), b"\r");
    assert_eq!(unescape(r"\t"), b"\t");
    assert_eq!(unescape("\\"), b"\\");
    assert_eq!(unescape(r"\x4"), br"\x4");
    assert_eq!(unescape(r"\x"), br"\x");
    assert_eq!(unescape(r"\q"), b"q");
    assert_eq!(unescape("中"), "中".as_bytes());
}

#[test]
fn parse_input_delay_and_text() {
    assert_eq!(parse_input(r"250:ls\r"), (250, b"ls\r".to_vec()));
    assert_eq!(parse_input("+5:x"), (5, b"x".to_vec()));
    assert_eq!(parse_input("abc:x"), (0, b"abc:x".to_vec()));
    assert_eq!(parse_input("plain"), (0, b"plain".to_vec()));
}

#[test]
fn parse_dev_select_forms() {
    let (at, spec) = parse_dev_select("100:1:2-3:4").unwrap();
    assert_eq!(at, 100);
    assert_eq!(spec.ty, SelectionType::Simple);
    assert_eq!(spec.start, (1, 2));
    assert_eq!(spec.end, (3, 4));
    let (_, spec) = parse_dev_select("0:semantic:5:6-7:8").unwrap();
    assert_eq!(spec.ty, SelectionType::Semantic);
    assert_eq!(spec.start, (5, 6));
    let (_, spec) = parse_dev_select("0:lines:0:0-2:0").unwrap();
    assert_eq!(spec.ty, SelectionType::Lines);
    assert!(parse_dev_select("x:1:2-3:4").is_none());
    assert!(parse_dev_select("10:1:2").is_none());
    assert!(parse_dev_select("10:1:2-3").is_none());
}

#[test]
fn parse_dev_paste_forms() {
    assert_eq!(parse_dev_paste("30:hello:there"), Some((30, "hello:there".to_string())));
    assert_eq!(parse_dev_paste("no-colon"), None);
    assert_eq!(parse_dev_paste("-1:x"), None);
}

#[test]
fn ctrl_shift_c_and_v_intercepted() {
    let mods = Mods::ctrl().union(Mods::shift_only());
    assert_eq!(clipboard_shortcut(&key("c"), &mods), Some(ClipboardShortcut::Copy));
    assert_eq!(clipboard_shortcut(&key("C"), &mods), Some(ClipboardShortcut::Copy));
    assert_eq!(clipboard_shortcut(&key("v"), &mods), Some(ClipboardShortcut::Paste));
    assert_eq!(clipboard_shortcut(&key("V"), &mods), Some(ClipboardShortcut::Paste));
}

#[test]
fn other_combinations_fall_through() {
    assert_eq!(
        clipboard_shortcut(&key("c"), &Mods::ctrl()),
        None,
        "Ctrl+C must reach the session as 0x03, not the clipboard"
    );
    assert_eq!(clipboard_shortcut(&key("c"), &Mods::empty()), None);
    assert_eq!(clipboard_shortcut(&key("c"), &Mods::shift_only()), None);
    assert_eq!(clipboard_shortcut(&key("x"), &Mods::ctrl().union(Mods::shift_only())), None);
    assert_eq!(
        clipboard_shortcut(&KeyInput::Character("ae".into()), &Mods::ctrl().union(Mods::shift_only())),
        None
    );
    assert_eq!(
        clipboard_shortcut(&KeyInput::Named(NamedKey::Enter), &Mods::ctrl().union(Mods::shift_only())),
        None
    );
}

#[test]
fn key_bytes_for_controls_shift_and_named() {
    assert_eq!(key_to_bytes(&key("c"), &Mods::ctrl()), Some(vec![0x03]));
    assert_eq!(key_to_bytes(&key("A"), &Mods::ctrl()), Some(vec![0x01]));
    assert_eq!(key_to_bytes(&key("1"), &Mods::ctrl()), None);
    assert_eq!(key_to_bytes(&key("a"), &Mods::shift_only()), Some(b"A".to_vec()));
    assert_eq!(key_to_bytes(&key("1"), &Mods::shift_only()), Some(b"!".to_vec()));
    assert_eq!(key_to_bytes(&key("/"), &Mods::shift_only()), Some(b"?".to_vec()));
    assert_eq!(key_to_bytes(&key("é"), &Mods::empty()), Some("é".as_bytes().to_vec()));
    assert_eq!(key_to_bytes(&key(""), &Mods::empty()), None);
    assert_eq!(key_to_bytes(&KeyInput::Named(NamedKey::Enter), &Mods::empty()), Some(b"\r".to_vec()));
    assert_eq!(key_to_bytes(&KeyInput::Named(NamedKey::ArrowLeft), &Mods::empty()), Some(b"\x1b[D".to_vec()));
    assert_eq!(key_to_bytes(&KeyInput::Named(NamedKey::Delete), &Mods::empty()), Some(b"\x1b[3~".to_vec()));
    assert_eq!(key_to_bytes(&KeyInput::Named(NamedKey::Other), &Mods::empty()), None);
    assert_eq!(key_to_bytes(&KeyInput::Unidentified, &Mods::empty()), None);
}

#[test]
fn wide_char_detection() {
    assert!(is_wide('中'), "CJK is wide");
    assert!(is_wide('あ'), "kana is wide");
    assert!(is_wide('Ａ'), "fullwidth is wide");
    assert!(!is_wide('M'), "ASCII is not wide");
    assert!(!is_wide(' '), "space is not wide");
}

#[test]
fn inside_viewport_has_no_edge() {
    assert_eq!(edge_band(100, 0, 650), None);
    assert_eq!(edge_band(0, 0, 650), None, "the top edge itself is inside");
    assert_eq!(edge_band(650, 0, 650), None, "the bottom edge itself is inside");
}

#[test]
fn beyond_edges_reports_direction() {
    assert_eq!(edge_band(-1, 0, 650), Some(Vertical::Up));
    assert_eq!(edge_band(651, 0, 650), Some(Vertical::Down));
}

#[test]
fn alt_forces_block_and_restarts_click_count() {
    assert_eq!(begin_selection_type(1, Mods::alt_only()), SelectionType::Block);
    assert_eq!(
        begin_selection_type(2, Mods::alt_only()),
        SelectionType::Block,
        "with Alt held a double click must not turn into Semantic"
    );
    assert_eq!(
        begin_selection_type(3, Mods::alt_only().union(Mods::shift_only())),
        SelectionType::Block,
        "Alt+Shift is still Block"
    );
}

#[test]
fn plain_clicks_map_multi_count() {
    assert_eq!(begin_selection_type(1, Mods::empty()), SelectionType::Simple);
    assert_eq!(begin_selection_type(2, Mods::empty()), SelectionType::Semantic);
    assert_eq!(begin_selection_type(3, Mods::empty()), SelectionType::Lines);
    assert_eq!(
        begin_selection_type(4, Mods::empty()),
        SelectionType::Simple,
        "a higher count falls back to Simple"
    );
    assert_eq!(begin_selection_type(2, Mods::shift_only()), SelectionType::Semantic);
}

#[test]
fn page_keys_scroll_the_view() {
    assert_eq!(key_plan(&KeyInput::Named(NamedKey::PageUp), &Mods::empty(), 24, &pwsh()), KeyPlan::Scroll(24));
    assert_eq!(key_plan(&KeyInput::Named(NamedKey::PageDown), &Mods::empty(), 24, &pwsh()), KeyPlan::Scroll(-24));
    let cs = Mods::ctrl().union(Mods::shift_only());
    assert_eq!(key_plan(&KeyInput::Named(NamedKey::PageUp), &cs, 30, &pwsh()), KeyPlan::Scroll(30));
    assert_eq!(key_to_bytes(&KeyInput::Named(NamedKey::PageUp), &Mods::empty()), None);
}

#[test]
fn clipboard_keys_are_intercepted_before_bytes() {
    let cs = Mods::ctrl().union(Mods::shift_only());
    assert_eq!(key_plan(&key("C"), &cs, 24, &pwsh()), KeyPlan::Copy);
    assert_eq!(key_plan(&key("v"), &cs, 24, &pwsh()), KeyPlan::Paste);
    assert_eq!(key_plan(&key("c"), &Mods::ctrl(), 24, &pwsh()), KeyPlan::Interrupt(true), "plain Ctrl+C interrupts twice over");
}

#[test]
fn other_keys_send_their_bytes_or_nothing() {
    assert_eq!(key_plan(&key("a"), &Mods::empty(), 24, &pwsh()), KeyPlan::Send(b"a".to_vec()));
    assert_eq!(key_plan(&KeyInput::Named(NamedKey::Enter), &Mods::empty(), 24, &pwsh()), KeyPlan::Send(b"\r".to_vec()));
    assert_eq!(key_plan(&KeyInput::Named(NamedKey::Other), &Mods::empty(), 24, &pwsh()), KeyPlan::Nothing);
    assert_eq!(key_plan(&KeyInput::Unidentified, &Mods::empty(), 24, &pwsh()), KeyPlan::Nothing);
    assert_eq!(key_plan(&key("1"), &Mods::ctrl(), 24, &pwsh()), KeyPlan::Nothing);
}

#[test]
fn pasted_line_ends_become_carriage_returns() {
    assert_eq!(normalize_paste("a\r\nb\nc\rd"), "a\rb\rc\rd");
    assert_eq!(normalize_paste("\r\r\n"), "\r\r");
    assert_eq!(normalize_paste("\r\n\n"), "\r\r");
    assert_eq!(normalize_paste("héllo\n"), "héllo\r");
    assert_eq!(normalize_paste(""), "");
    assert_eq!(normalize_paste("no breaks"), "no breaks");
}

#[test]
fn presses_on_one_cell_count_up_to_a_triple_click() {
    let mut c = ClickState::new();
    let none = Mods::empty();
    assert_eq!(c.press(1000, (2, 5), none), (1, SelectionType::Simple));
    assert_eq!(c.press(1200, (2, 5), none), (2, SelectionType::Semantic));
    assert_eq!(c.press(1700, (2, 5), none), (3, SelectionType::Lines), "exactly the window still counts");
    assert_eq!(c.press(1800, (2, 5), none), (1, SelectionType::Simple), "a fourth press starts a new run");
}

#[test]
fn a_run_breaks_on_another_cell_or_a_late_press() {
    let mut c = ClickState::new();
    let none = Mods::empty();
    c.press(0, (0, 0), none);
    assert_eq!(c.press(100, (0, 1), none).0, 1, "another cell");
    assert_eq!(c.press(601, (0, 1), none).0, 1, "too late");
    assert_eq!(c.press(500, (0, 1), none).0, 2, "a clock that went back counts as no time");
}

#[test]
fn alt_presses_select_blocks_and_restart_the_run() {
    let mut c = ClickState::new();
    let none = Mods::empty();
    c.press(0, (1, 1), none);
    assert_eq!(c.press(10, (1, 1), Mods::alt_only()), (1, SelectionType::Block));
    assert_eq!(c.press(20, (1, 1), none), (2, SelectionType::Semantic));
}

#[test]
fn release_finishes_only_a_drag() {
    let mut c = ClickState::new();
    assert!(!c.release());
    c.press(0, (0, 0), Mods::empty());
    assert!(c.dragging);
    assert!(c.release());
    assert!(!c.release());
    assert_eq!(c.last_count, 1, "the run is remembered past the release");
}

#[test]
fn selection_cells_per_line() {
    assert_eq!(selection_cell_count(None, 80), 0);
    assert_eq!(selection_cell_count(Some(((2, 3), (2, 7))), 80), 5);
    assert_eq!(selection_cell_count(Some(((0, 5), (1, 2))), 10), 5 + 3);
    assert_eq!(selection_cell_count(Some(((0, 5), (2, 0))), 10), 5 + 10 + 1, "middle lines count whole");
    assert_eq!(selection_cell_count(Some(((1, 7), (1, 3))), 10), 1, "a reversed single line is one cell");
    assert_eq!(selection_cell_count(Some(((-2, 0), (-1, 3))), 4), 8, "history lines count too");
    assert_eq!(selection_cell_count(Some(((3, 0), (1, 0))), 10), 0);
}

#[test]
fn scrolled_cells_map_into_history() {
    assert_eq!(cell_to_point((0, 4), 0), (0, 4));
    assert_eq!(cell_to_point((2, 1), 5), (-3, 1));
    assert_eq!(cell_to_point((23, 79), 23), (0, 79));
}

#[test]
fn ctrl_c_in_auto_mode_spares_ash_the_event() {
    let ctrl = Mods::ctrl();
    assert_eq!(key_plan(&key("c"), &ctrl, 24, &cfg("pwsh", CtrlCMode::Auto)), KeyPlan::Interrupt(true),
        "other shells get the console event, then 0x03");
    assert_eq!(key_plan(&key("C"), &ctrl, 24, &cfg("cmd.exe", CtrlCMode::Auto)), KeyPlan::Interrupt(true));
    assert_eq!(key_plan(&key("c"), &ctrl, 24, &cfg(r"D:\autostack\ash\target\release\ASH.exe", CtrlCMode::Auto)),
        KeyPlan::Send(vec![0x03]), "ash gets the byte alone");
    assert_eq!(key_plan(&key("c"), &ctrl, 24, &cfg("/usr/bin/ash", CtrlCMode::Auto)), KeyPlan::Send(vec![0x03]));
    assert_eq!(key_plan(&key("c"), &ctrl, 24, &cfg("bash", CtrlCMode::Auto)), KeyPlan::Interrupt(true), "bash is not ash");
}

#[test]
fn ctrl_c_modes() {
    let ctrl = Mods::ctrl();
    for shell in ["pwsh", "ash.exe"] {
        assert_eq!(key_plan(&key("c"), &ctrl, 24, &cfg(shell, CtrlCMode::Byte)), KeyPlan::Send(vec![0x03]));
        assert_eq!(key_plan(&key("c"), &ctrl, 24, &cfg(shell, CtrlCMode::Event)), KeyPlan::Interrupt(false));
        assert_eq!(key_plan(&key("c"), &ctrl, 24, &cfg(shell, CtrlCMode::Both)), KeyPlan::Interrupt(true));
    }
    assert_eq!(key_plan(&key("d"), &ctrl, 24, &cfg("pwsh", CtrlCMode::Both)), KeyPlan::Send(vec![0x04]), "only Ctrl+C interrupts");
}

#[test]
fn ctrl_c_mode_names() {
    assert_eq!(parse_ctrl_c_mode("auto"), Some(CtrlCMode::Auto));
    assert_eq!(parse_ctrl_c_mode("byte"), Some(CtrlCMode::Byte));
    assert_eq!(parse_ctrl_c_mode("event"), Some(CtrlCMode::Event));
    assert_eq!(parse_ctrl_c_mode("both"), Some(CtrlCMode::Both));
    assert_eq!(parse_ctrl_c_mode("Auto"), None);
    assert_eq!(parse_ctrl_c_mode(""), None);
}

#[test]
fn ash_is_recognised_by_file_name() {
    assert!(is_ash_program("ash"));
    assert!(is_ash_program("Ash.EXE"));
    assert!(is_ash_program(r"C:\tools\ash.exe"));
    assert!(!is_ash_program("bash"));
    assert!(!is_ash_program("ash.com"));
    assert!(!is_ash_program("ash/pwsh"));
    assert!(!is_ash_program(""));
}
