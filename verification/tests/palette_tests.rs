use autoterm::palette::{palette, palette_color, xterm256, SCHEME_CLASSIC_DARK, SCHEME_LIGHT};
use autoterm::engine::{autoterm_engine_palette_color, term_rgb, TermColor};
use autoterm::palette::named_rgb;

#[test]
fn classic_dark_matches_frozen_render_constants() {
    let pal = palette(SCHEME_CLASSIC_DARK).unwrap();
    assert_eq!(pal.def_fg, 0xE8E8E8);
    assert_eq!(pal.def_bg, 0x060709);
    assert_eq!(pal.base16[0], 0x000000);
    assert_eq!(pal.base16[9], 0xFF0000);
    assert_eq!(pal.base16[15], 0xFFFFFF);
}

#[test]
fn light_scheme_is_light_bg_dark_fg() {
    let pal = palette(SCHEME_LIGHT).unwrap();
    let lum = |c: u32| {
        let (r, g, b) = (c >> 16, (c >> 8) & 0xFF, c & 0xFF);
        0.2126 * r as f32 + 0.7152 * g as f32 + 0.0722 * b as f32
    };
    assert!(lum(pal.def_bg) > 200.0, "light def_bg should be light: {:06X}", pal.def_bg);
    assert!(lum(pal.def_fg) < 150.0, "light def_fg should be dark: {:06X}", pal.def_fg);
}

#[test]
fn palette_color_slot_axes_and_invalid() {
    assert_eq!(palette_color(0, 0, 1), Some(0xE8E8E8));
    assert_eq!(palette_color(0, 1, 0), Some(0x060709));
    assert_eq!(palette_color(1, 0, 1), Some(0x073642));
    assert_eq!(palette_color(1, 1, 0), Some(0xEEE8D5));
    assert_eq!(palette_color(0, 2, 0), Some(0x000000));
    assert_eq!(palette_color(1, 17, 0), Some(0x073642));
    assert_eq!(palette_color(99, 0, 1), None, "unknown scheme");
    assert_eq!(palette_color(0, 18, 0), None, "slot out of range");
    assert_eq!(palette_color(0, 0, 2), None, "invalid is_fg axis");
}

#[test]
fn light_scheme_white_family_readable_on_bg() {
    let pal = palette(SCHEME_LIGHT).unwrap();
    let bg = pal.def_bg;
    let lum = |c: u32| {
        let (r, g, b) = (c >> 16, (c >> 8) & 0xFF, c & 0xFF);
        0.2126 * r as f32 + 0.7152 * g as f32 + 0.0722 * b as f32
    };
    for slot in [7usize, 8, 15] {
        let d = (lum(pal.base16[slot]) - lum(bg)).abs();
        assert!(d > 60.0, "white-family slot {} too close to bg: {:06X}", slot, pal.base16[slot]);
    }
    assert_ne!(pal.base16[15], bg, "bright white must differ from bg");
}

#[test]
fn unknown_scheme_has_no_palette() {
    assert!(palette(2).is_none());
    assert!(palette(-1).is_none());
}

#[test]
fn palette_color_sentinel_for_invalid_queries() {
    assert_eq!(autoterm_engine_palette_color(0, 0, 1), 0xE8E8E8);
    assert_eq!(autoterm_engine_palette_color(1, 9, 0), 0x586E75);
    assert_eq!(autoterm_engine_palette_color(2, 0, 0), 0xFFFF_FFFF);
    assert_eq!(autoterm_engine_palette_color(0, -1, 0), 0xFFFF_FFFF);
    assert_eq!(autoterm_engine_palette_color(0, 0, -1), 0xFFFF_FFFF);
}

#[test]
fn xterm256_table_regions() {
    assert_eq!(xterm256(1), [0x80, 0x00, 0x00]);
    assert_eq!(xterm256(16), [0, 0, 0]);
    assert_eq!(xterm256(208), [255, 135, 0]);
    assert_eq!(xterm256(231), [255, 255, 255]);
    assert_eq!(xterm256(232), [8, 8, 8]);
    assert_eq!(xterm256(255), [238, 238, 238]);
}

const RED: u16 = 1;
const BRIGHT_WHITE: u16 = 15;
const FOREGROUND: u16 = 256;
const BACKGROUND: u16 = 257;
const DIM_RED: u16 = 260;

#[test]
fn named_full_mapping() {
    assert_eq!(term_rgb(TermColor::Named(RED), true), [0x80, 0x00, 0x00]);
    assert_eq!(term_rgb(TermColor::Named(BRIGHT_WHITE), false), [0xff, 0xff, 0xff]);
    assert_eq!(term_rgb(TermColor::Named(DIM_RED), true), [76, 0, 0], "dim = 60% brightness");
    assert_eq!(term_rgb(TermColor::Named(FOREGROUND), true), [0xe8, 0xe8, 0xe8]);
    assert_eq!(term_rgb(TermColor::Named(BACKGROUND), false), [0x10, 0x14, 0x18]);
    assert_ne!(term_rgb(TermColor::Named(DIM_RED), true), term_rgb(TermColor::Named(RED), true));
}

#[test]
fn truecolor_and_indexed() {
    assert_eq!(term_rgb(TermColor::Spec(1, 2, 3), true), [1, 2, 3]);
    assert_eq!(term_rgb(TermColor::Indexed(208), true), xterm256(208));
    assert_eq!(xterm256(16), [0, 0, 0]);
    assert_eq!(xterm256(231), [255, 255, 255]);
    assert_eq!(xterm256(255), [238, 238, 238]);
}

#[test]
fn semantic_and_foreground_names() {
    assert_eq!(named_rgb(258, true), [0xe8, 0xe8, 0xe8], "the cursor colour is the default foreground");
    assert_eq!(named_rgb(258, false), [0x10, 0x14, 0x18]);
    assert_eq!(named_rgb(267, false), [0xff, 0xff, 0xff]);
    assert_eq!(named_rgb(268, true), [0xa8, 0xa8, 0xa8]);
    assert_eq!(named_rgb(266, true), [115, 115, 115], "dim white");
    assert_eq!(named_rgb(100, true), [0xe8, 0xe8, 0xe8]);
}
