//! Colour schemes: default foreground/background plus the base-16 table.

use vstd::prelude::*;

verus! {

/// One colour scheme: default foreground, default background and the
/// sixteen base colours (each `0xRRGGBB`).
pub struct Palette {
    pub def_fg: u32,
    pub def_bg: u32,
    pub base16: [u32; 16],
}

pub const SCHEME_CLASSIC_DARK: i32 = 0;
pub const SCHEME_LIGHT: i32 = 1;
/// Number of built-in schemes.
pub const SCHEME_COUNT: i32 = 2;

/// The table of the classic dark scheme (the xterm base-16 colours).
pub open spec fn classic_dark_table() -> Seq<u32> {
    seq![
        0x000000u32, 0x800000, 0x008000, 0x808000, 0x000080, 0x800080, 0x008080, 0xC0C0C0,
        0x808080, 0xFF0000, 0x00FF00, 0xFFFF00, 0x0000FF, 0xFF00FF, 0x00FFFF, 0xFFFFFF,
    ]
}

/// The table of the light scheme (a Solarized-Light family).
pub open spec fn light_table() -> Seq<u32> {
    seq![
        0x002B36u32, 0xDC322F, 0x859900, 0xB58900, 0x268BD2, 0xD33682, 0x2AA198, 0x586E75,
        0x657B83, 0xCB4B16, 0x859900, 0xB58900, 0x268BD2, 0x6C71C4, 0x2AA198, 0x073642,
    ]
}

/// The colour a scheme gives to a slot: 0 = default foreground,
/// 1 = default background, 2..=17 = base-16 colours; `None` for an
/// unknown scheme or slot.
pub open spec fn scheme_slot(scheme_id: int, slot: int) -> Option<u32> {
    if scheme_id == 0 {
        if slot == 0 { Some(0xE8E8E8u32) }
        else if slot == 1 { Some(0x060709u32) }
        else if 2 <= slot <= 17 { Some(classic_dark_table()[slot - 2]) }
        else { None }
    } else if scheme_id == 1 {
        if slot == 0 { Some(0x073642u32) }
        else if slot == 1 { Some(0xEEE8D5u32) }
        else if 2 <= slot <= 17 { Some(light_table()[slot - 2]) }
        else { None }
    } else {
        None
    }
}

impl Palette {
    /// The palette agrees with scheme `id` on every slot.
    pub open spec fn is_scheme(&self, id: int) -> bool {
        &&& scheme_slot(id, 0) == Some(self.def_fg)
        &&& scheme_slot(id, 1) == Some(self.def_bg)
        &&& forall|i: int| 0 <= i < 16 ==> scheme_slot(id, i + 2) == Some(#[trigger] self.base16@[i])
    }
}

/// The classic dark scheme (scheme 0).
pub fn classic_dark() -> (p: Palette)
    ensures
        p.is_scheme(0),
{
    let p = Palette {
        def_fg: 0xE8E8E8,
        def_bg: 0x060709,
        base16: [
            0x000000, 0x800000, 0x008000, 0x808000, 0x000080, 0x800080, 0x008080, 0xC0C0C0,
            0x808080, 0xFF0000, 0x00FF00, 0xFFFF00, 0x0000FF, 0xFF00FF, 0x00FFFF, 0xFFFFFF,
        ],
    };
    assert(p.base16@ =~= classic_dark_table());
    p
}

/// The light scheme (scheme 1).
pub fn light() -> (p: Palette)
    ensures
        p.is_scheme(1),
{
    let p = Palette {
        def_fg: 0x073642,
        def_bg: 0xEEE8D5,
        base16: [
            0x002B36, 0xDC322F, 0x859900, 0xB58900, 0x268BD2, 0xD33682, 0x2AA198, 0x586E75,
            0x657B83, 0xCB4B16, 0x859900, 0xB58900, 0x268BD2, 0x6C71C4, 0x2AA198, 0x073642,
        ],
    };
    assert(p.base16@ =~= light_table());
    p
}

/// The scheme with id `scheme_id` (`None` for an unknown id).
pub fn palette(scheme_id: i32) -> (r: Option<Palette>)
    ensures
        r is Some <==> (scheme_id == SCHEME_CLASSIC_DARK || scheme_id == SCHEME_LIGHT),
        r is Some ==> r->0.is_scheme(scheme_id as int),
{
    if scheme_id == SCHEME_CLASSIC_DARK {
        Some(classic_dark())
    } else if scheme_id == SCHEME_LIGHT {
        Some(light())
    } else {
        None
    }
}

/// The colour of `slot` in scheme `scheme_id` (see [`scheme_slot`]);
/// `is_fg` must be 0 or 1 (the slot already says which), anything else
/// gives `None`.
pub fn palette_color(scheme_id: i32, slot: i32, is_fg: i32) -> (r: Option<u32>)
    ensures
        r == (if is_fg != 0 && is_fg != 1 { None } else { scheme_slot(scheme_id as int, slot as int) }),
{
    if is_fg != 0 && is_fg != 1 {
        return None;
    }
    let pal = match palette(scheme_id) {
        Some(p) => p,
        None => return None,
    };
    if slot == 0 {
        Some(pal.def_fg)
    } else if slot == 1 {
        Some(pal.def_bg)
    } else if 2 <= slot && slot <= 17 {
        let i: usize = (slot - 2) as usize;
        assert(scheme_slot(scheme_id as int, i as int + 2) == Some(pal.base16@[i as int]));
        Some(pal.base16[i])
    } else {
        None
    }
}

/// The xterm 256-colour table as RGB: 0..=15 the base-16 colours,
/// 16..=231 the 6×6×6 cube over the steps 0, 95, 135, 175, 215, 255,
/// 232..=255 the grey ramp 8, 18, …, 238.
pub open spec fn xterm_rgb(i: u8) -> (u8, u8, u8) {
    if i < 16 {
        let v = classic_dark_table()[i as int];
        ((v / 0x1_0000) as u8, ((v / 0x100) % 0x100) as u8, (v % 0x100) as u8)
    } else if i < 232 {
        let v: int = i - 16;
        (cube_step(v / 36), cube_step((v % 36) / 6), cube_step(v % 6))
    } else {
        let g = (8 + (i - 232) * 10) as u8;
        (g, g, g)
    }
}

/// Level `k` (0..=5) of the colour cube.
pub open spec fn cube_step(k: int) -> u8 {
    if k == 0 { 0 } else if k == 1 { 95 } else if k == 2 { 135 } else if k == 3 { 175 } else if k == 4 { 215 } else { 255 }
}

fn cube_level(k: usize) -> (r: u8)
    ensures
        r == cube_step(k as int),
{
    if k == 0 { 0 } else if k == 1 { 95 } else if k == 2 { 135 } else if k == 3 { 175 } else if k == 4 { 215 } else { 255 }
}

/// RGB of entry `i` of the xterm 256-colour table (see [`xterm_rgb`]).
pub fn xterm256(i: u8) -> (r: [u8; 3])
    ensures
        (r@[0], r@[1], r@[2]) == xterm_rgb(i),
{
    if i < 16 {
        let p = classic_dark();
        let v: u32 = p.base16[i as usize];
        [(v / 0x1_0000) as u8, ((v / 0x100) % 0x100) as u8, (v % 0x100) as u8]
    } else if i < 232 {
        let v: usize = (i - 16) as usize;
        [cube_level(v / 36), cube_level((v % 36) / 6), cube_level(v % 6)]
    } else {
        let g: u8 = 8 + (i - 232) * 10;
        [g, g, g]
    }
}


/// A channel of a dimmed colour: 60% brightness, rounded down.
pub open spec fn dim_channel(v: u8) -> u8 {
    (v * 3 / 5) as u8
}

/// The window's default foreground and background colours.
pub open spec fn default_rgb(is_fg: bool) -> (u8, u8, u8) {
    if is_fg { (0xe8u8, 0xe8u8, 0xe8u8) } else { (0x10u8, 0x14u8, 0x18u8) }
}

/// The RGB the window draws for named colour `code` (the emulator's
/// numbering: 0..=15 the base colours, 256 foreground, 257 background,
/// 258 cursor, 259..=266 the dim base colours, 267 bright and 268 dim
/// foreground): base colours from the xterm table, dim ones at 60%
/// brightness, the bright foreground white, the dim foreground grey, and
/// anything else the default foreground or background.
pub open spec fn named_rgb_spec(code: u16, is_fg: bool) -> (u8, u8, u8) {
    if code < 16 {
        xterm_rgb(code as u8)
    } else if 259 <= code <= 266 {
        let b = xterm_rgb((code - 259) as u8);
        (dim_channel(b.0), dim_channel(b.1), dim_channel(b.2))
    } else if code == 267 {
        (0xffu8, 0xffu8, 0xffu8)
    } else if code == 268 {
        (0xa8u8, 0xa8u8, 0xa8u8)
    } else {
        default_rgb(is_fg)
    }
}

fn dim_u8(v: u8) -> (r: u8)
    ensures
        r == dim_channel(v),
{
    ((v as u16) * 3 / 5) as u8
}

/// The RGB of named colour `code` (see [`named_rgb_spec`]).
pub fn named_rgb(code: u16, is_fg: bool) -> (r: [u8; 3])
    ensures
        (r@[0], r@[1], r@[2]) == named_rgb_spec(code, is_fg),
{
    if code < 16 {
        xterm256(code as u8)
    } else if 259 <= code && code <= 266 {
        let b = xterm256((code - 259) as u8);
        [dim_u8(b[0]), dim_u8(b[1]), dim_u8(b[2])]
    } else if code == 267 {
        [0xff, 0xff, 0xff]
    } else if code == 268 {
        [0xa8, 0xa8, 0xa8]
    } else if is_fg {
        [0xe8, 0xe8, 0xe8]
    } else {
        [0x10, 0x14, 0x18]
    }
}

} // verus!
