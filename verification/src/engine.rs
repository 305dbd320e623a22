//! The engine's data surface: the scalar colour encoding of styled cells
//! and its decoding on the host side, spawn geometry defaults, the scheme
//! colour query with its sentinel, the backlog alarm with hysteresis and
//! the rate-limited eviction log.

use vstd::prelude::*;
use vstd::utf8::encode_utf8;
use crate::palette::{palette_color, scheme_slot, named_rgb, named_rgb_spec, xterm256, xterm_rgb};
use crate::text::utf8_bytes;

verus! {

/// A terminal colour as the emulator reports it: a named colour (by its
/// number: 0..=15 are the base-16 colours, 256 and up are semantic
/// colours such as the default foreground), an RGB triple, or an index
/// into the 256-colour table.
#[derive(Clone, Copy, PartialEq, Eq, Structural, Debug)]
pub enum TermColor {
    Named(u16),
    Spec(u8, u8, u8),
    Indexed(u8),
}

/// The scalar encoding `(kind << 24) | value`: kind 0 = default, 1 =
/// indexed (including the base-16 named colours), 2 = RGB `0xRRGGBB`;
/// semantic named colours (256 and up) fold into the default.
pub open spec fn color_code(c: TermColor) -> u32 {
    match c {
        TermColor::Named(n) => if n < 256 {
            (0x100_0000 + n) as u32
        } else {
            0
        },
        TermColor::Indexed(i) => (0x100_0000 + i) as u32,
        TermColor::Spec(r, g, b) => (0x200_0000 + r * 0x1_0000 + g * 0x100 + b) as u32,
    }
}

/// The scalar encoding of a colour (see [`color_code`]).
pub fn kind_color(c: TermColor) -> (r: u32)
    ensures
        r == color_code(c),
{
    match c {
        TermColor::Named(n) => if n < 256 {
            0x100_0000 + n as u32
        } else {
            0
        },
        TermColor::Indexed(i) => 0x100_0000 + i as u32,
        TermColor::Spec(r, g, b) => 0x200_0000 + (r as u32) * 0x1_0000 + (g as u32) * 0x100 + b as u32,
    }
}

/// A cell colour on the host side.
#[derive(Clone, Copy, PartialEq, Eq, Structural, Debug)]
pub enum CellColor {
    Default,
    Indexed(u8),
    Rgb(u8, u8, u8),
}

/// The colour a scalar stands for: kind 1 keeps the low byte as an index,
/// kind 2 splits the low 24 bits into RGB, every other kind is the
/// default.
pub open spec fn decode_spec(v: u32) -> CellColor {
    let kind = v / 0x100_0000;
    let value = v % 0x100_0000;
    if kind == 1 {
        CellColor::Indexed((value % 0x100) as u8)
    } else if kind == 2 {
        CellColor::Rgb((value / 0x1_0000) as u8, ((value / 0x100) % 0x100) as u8, (value % 0x100) as u8)
    } else {
        CellColor::Default
    }
}

/// The colour a scalar stands for (see [`decode_spec`]).
pub fn decode_style_color(v: u32) -> (r: CellColor)
    ensures
        r == decode_spec(v),
{
    let kind: u32 = v / 0x100_0000;
    let value: u32 = v % 0x100_0000;
    if kind == 1 {
        CellColor::Indexed((value % 0x100) as u8)
    } else if kind == 2 {
        CellColor::Rgb((value / 0x1_0000) as u8, ((value / 0x100) % 0x100) as u8, (value % 0x100) as u8)
    } else {
        CellColor::Default
    }
}

/// What the host makes of an emulator colour after the round trip.
pub open spec fn host_color(c: TermColor) -> CellColor {
    match c {
        TermColor::Named(n) => if n < 256 {
            CellColor::Indexed(n as u8)
        } else {
            CellColor::Default
        },
        TermColor::Indexed(i) => CellColor::Indexed(i),
        TermColor::Spec(r, g, b) => CellColor::Rgb(r, g, b),
    }
}

/// The RGB the window draws for an emulator colour: an RGB colour as it
/// is, an indexed one from the xterm table, a named one as
/// [`named_rgb_spec`] gives it (`is_fg` picks the default foreground or
/// background for the semantic names).
pub open spec fn term_rgb_spec(c: TermColor, is_fg: bool) -> (u8, u8, u8) {
    match c {
        TermColor::Spec(r, g, b) => (r, g, b),
        TermColor::Indexed(i) => xterm_rgb(i),
        TermColor::Named(n) => named_rgb_spec(n, is_fg),
    }
}

/// The RGB the window draws for an emulator colour (see [`term_rgb_spec`]).
pub fn term_rgb(c: TermColor, is_fg: bool) -> (r: [u8; 3])
    ensures
        (r@[0], r@[1], r@[2]) == term_rgb_spec(c, is_fg),
{
    match c {
        TermColor::Spec(r, g, b) => [r, g, b],
        TermColor::Indexed(i) => xterm256(i),
        TermColor::Named(n) => named_rgb(n, is_fg),
    }
}

/// Decoding undoes encoding: indexed and RGB colours and the base-16
/// named colours come back unchanged, semantic named colours come back as
/// the default colour.
pub proof fn lemma_color_round_trip(c: TermColor)
    ensures
        decode_spec(color_code(c)) == host_color(c),
{
    match c {
        TermColor::Named(n) => {},
        TermColor::Indexed(i) => {},
        TermColor::Spec(r, g, b) => {
            assert(0 <= r * 0x1_0000 <= 255 * 0x1_0000) by (nonlinear_arith)
                requires
                    0 <= r <= 255,
            ;
            assert(0 <= g * 0x100 <= 255 * 0x100) by (nonlinear_arith)
                requires
                    0 <= g <= 255,
            ;
            let v: int = 0x200_0000 + r * 0x1_0000 + g * 0x100 + b;
            assert(v / 0x100_0000 == 2);
            assert(v % 0x100_0000 == r * 0x1_0000 + g * 0x100 + b);
            let w: int = r * 0x1_0000 + g * 0x100 + b;
            assert(w / 0x1_0000 == r) by (nonlinear_arith)
                requires
                    w == r * 0x1_0000 + g * 0x100 + b,
                    0 <= g <= 255,
                    0 <= b <= 255,
                    0 <= r <= 255,
            ;
            assert((w / 0x100) % 0x100 == g) by (nonlinear_arith)
                requires
                    w == r * 0x1_0000 + g * 0x100 + b,
                    0 <= g <= 255,
                    0 <= b <= 255,
                    0 <= r <= 255,
            ;
            assert(w % 0x100 == b) by (nonlinear_arith)
                requires
                    w == r * 0x1_0000 + g * 0x100 + b,
                    0 <= g <= 255,
                    0 <= b <= 255,
                    0 <= r <= 255,
            ;
        },
    }
}

/// Grid geometry of a new session: non-positive sizes fall back to
/// 80 columns by 24 rows.
pub fn spawn_geometry(cols: i32, rows: i32) -> (r: (usize, usize))
    ensures
        r.0 == (if cols <= 0 { 80 } else { cols as int }),
        r.1 == (if rows <= 0 { 24 } else { rows as int }),
{
    let c: usize = if cols <= 0 { 80 } else { cols as usize };
    let r: usize = if rows <= 0 { 24 } else { rows as usize };
    (c, r)
}

/// Colour of `slot` in scheme `scheme_id` as `0xRRGGBB`, or the sentinel
/// `0xFFFF_FFFF` (never a valid colour) for an unknown scheme, slot or
/// axis.
pub fn autoterm_engine_palette_color(scheme_id: i32, slot: i32, is_fg: i32) -> (r: u32)
    ensures
        r == (if is_fg != 0 && is_fg != 1 {
            0xFFFF_FFFFu32
        } else {
            match scheme_slot(scheme_id as int, slot as int) {
                Some(v) => v,
                None => 0xFFFF_FFFFu32,
            }
        }),
{
    match palette_color(scheme_id, slot, is_fg) {
        Some(rgb) => rgb,
        None => 0xFFFF_FFFF,
    }
}

/// Every scheme colour fits in 24 bits, so the sentinel never collides
/// with a colour.
pub proof fn lemma_scheme_colors_below_sentinel(scheme_id: int, slot: int)
    ensures
        scheme_slot(scheme_id, slot) matches Some(v) ==> v < 0x100_0000,
{
    if 2 <= slot <= 17 {
        assert(crate::palette::classic_dark_table()[slot - 2] < 0x100_0000);
        assert(crate::palette::light_table()[slot - 2] < 0x100_0000);
    }
}

/// Backlog above which an alert is raised (bytes waiting between the
/// reader and the emulator).
pub const BACKLOG_WARN_BYTES: i32 = 2097152;
/// Backlog at or below which a raised alert clears.
pub const BACKLOG_CLEAR_BYTES: i32 = 524288;

/// Backlog alarm: whether an alert is raised, and how many rising edges
/// have not been taken yet.
#[derive(Clone, Copy, PartialEq, Eq, Structural, Debug)]
pub struct BacklogAlarm {
    pub active: bool,
    pub count: i64,
}

impl BacklogAlarm {
    /// A quiet alarm.
    pub fn new() -> (a: BacklogAlarm)
        ensures
            !a.active,
            a.count == 0,
    {
        BacklogAlarm { active: false, count: 0 }
    }

    /// Feed one backlog sample: crossing up to the warning line raises
    /// the alert and counts one rising edge (returns true); falling to
    /// the clear line lowers it; anything in between changes nothing
    /// (hysteresis).
    pub fn check_backlog(&mut self, pending_bytes: i32) -> (raised: bool)
        requires
            old(self).count < i64::MAX,
        ensures
            raised == (!old(self).active && pending_bytes >= BACKLOG_WARN_BYTES),
            raised ==> final(self).active && final(self).count == old(self).count + 1,
            !raised && old(self).active && pending_bytes <= BACKLOG_CLEAR_BYTES ==> !final(self).active
                && final(self).count == old(self).count,
            !raised && !(old(self).active && pending_bytes <= BACKLOG_CLEAR_BYTES) ==> *final(self)
                == *old(self),
    {
        if !self.active && pending_bytes >= BACKLOG_WARN_BYTES {
            self.active = true;
            self.count = self.count + 1;
            true
        } else {
            if self.active && pending_bytes <= BACKLOG_CLEAR_BYTES {
                self.active = false;
            }
            false
        }
    }

    /// Take the rising edges counted since the last take.
    pub fn take_alerts(&mut self) -> (taken: i64)
        ensures
            taken == old(self).count,
            final(self).count == 0,
            final(self).active == old(self).active,
    {
        let t: i64 = self.count;
        self.count = 0;
        t
    }
}

/// A sustained backlog raises one alert, not one per sample: once raised,
/// samples above the clear line add no edge.
pub proof fn lemma_backlog_one_edge_per_episode(a: BacklogAlarm, pending: i32)
    requires
        a.active,
        pending > BACKLOG_CLEAR_BYTES,
    ensures
        !(!a.active && pending >= BACKLOG_WARN_BYTES),
{
}

/// Eviction log state: the count last reported and when (ms).
#[derive(Clone, Copy, PartialEq, Eq, Structural, Debug)]
pub struct OverflowLog {
    pub last_count: i64,
    pub last_ms: u64,
}

impl OverflowLog {
    /// Nothing reported yet.
    pub fn new() -> (l: OverflowLog)
        ensures
            l.last_count == 0,
            l.last_ms == 0,
    {
        OverflowLog { last_count: 0, last_ms: 0 }
    }

    /// Feed the session's eviction count at time `now_ms`: a count below
    /// the last one (a new session) resets the base silently; a grown
    /// count is reported (returns true) unless the last report is less
    /// than a second old.
    pub fn check_overflow(&mut self, dropped: i64, now_ms: u64) -> (report: bool)
        ensures
            dropped < old(self).last_count ==> !report && final(self).last_count == dropped
                && final(self).last_ms == old(self).last_ms,
            dropped == old(self).last_count ==> !report && *final(self) == *old(self),
            dropped > old(self).last_count ==> report == (old(self).last_ms == 0 || (if now_ms
                >= old(self).last_ms {
                now_ms - old(self).last_ms
            } else {
                0
            }) >= 1000),
            dropped > old(self).last_count && report ==> final(self).last_count == dropped
                && final(self).last_ms == now_ms,
            dropped > old(self).last_count && !report ==> *final(self) == *old(self),
    {
        if dropped < self.last_count {
            self.last_count = dropped;
            return false;
        }
        if dropped == self.last_count {
            return false;
        }
        let since: u64 = if now_ms >= self.last_ms { now_ms - self.last_ms } else { 0 };
        if self.last_ms == 0 || since >= 1000 {
            self.last_count = dropped;
            self.last_ms = now_ms;
            return true;
        }
        false
    }
}

/// Whole MiB of a pending-byte count (negative counts read as 0).
pub fn pending_mb(pending: i32) -> (r: i64)
    ensures
        r == (if pending < 0 { 0 } else { pending as int / 1048576 }),
{
    let p: i64 = if pending < 0 { 0 } else { pending as i64 };
    p / 1048576
}

/// The bytes written to a session for one line of input: the line's
/// UTF-8 followed by CR LF.
pub fn line_bytes(line: &str) -> (b: Vec<u8>)
    ensures
        b@ == encode_utf8(line@) + seq![0x0du8, 0x0au8],
{
    let mut b = utf8_bytes(line);
    b.push(0x0d);
    b.push(0x0a);
    b
}

/// What a row-text request hands out into a `cap`-byte buffer: as many
/// of the text's UTF-8 bytes as fit with room left for the terminating
/// NUL, then the NUL; and the size the whole text needs (its bytes plus
/// the NUL). A buffer without room for the NUL is not accepted.
pub fn row_text_bytes(text: &str, cap: i32) -> (r: (i32, Vec<u8>))
    requires
        cap >= 1,
        encode_utf8(text@).len() < usize::MAX,
    ensures
        r.0 == (encode_utf8(text@).len() + 1) as i32,
        r.1@ == encode_utf8(text@).take(
            if encode_utf8(text@).len() < cap - 1 { encode_utf8(text@).len() as int } else { cap - 1 },
        ).push(0u8),
{
    let bytes = utf8_bytes(text);
    let room: usize = (cap - 1) as usize;
    let n: usize = if bytes.len() < room { bytes.len() } else { room };
    let mut out: Vec<u8> = Vec::new();
    let mut i: usize = 0;
    while i < n
        invariant
            n <= bytes@.len(),
            i <= n,
            out@ == bytes@.take(i as int),
        decreases n - i,
    {
        proof {
            assert(bytes@.take(i as int + 1) =~= bytes@.take(i as int).push(bytes@[i as int]));
        }
        out.push(bytes[i]);
        i = i + 1;
    }
    out.push(0);
    (#[verifier::truncate] ((bytes.len() + 1) as i32), out)
}

/// What a dirty-rows request reports: -1 when the whole screen must be
/// repainted, 0 when nothing changed; otherwise, without an output
/// buffer (or with no room), the number of changed rows; else the
/// changed rows that fit (at most `cap` and at most the `rows_count`
/// rows on screen), written in order, and how many were written.
pub fn dirty_rows_report(full: bool, lines: &Vec<usize>, rows_count: i32, has_out: bool, cap: i32) -> (r: (i32, Vec<i32>))
    requires
        rows_count >= 0,
    ensures
        full ==> r.0 == -1 && r.1@.len() == 0,
        !full && lines@.len() == 0 ==> r.0 == 0 && r.1@.len() == 0,
        !full && lines@.len() > 0 && (!has_out || cap <= 0) ==> r.0 == lines@.len() as i32 && r.1@.len() == 0,
        !full && lines@.len() > 0 && has_out && cap > 0 ==> {
            let room = if cap < rows_count { cap as int } else { rows_count as int };
            let n = if lines@.len() < room { lines@.len() as int } else { room };
            &&& r.0 == n
            &&& r.1@.len() == n
            &&& forall|i: int| 0 <= i < n ==> #[trigger] r.1@[i] == lines@[i] as i32
        },
{
    let mut out: Vec<i32> = Vec::new();
    if full {
        return (-1, out);
    }
    if lines.len() == 0 {
        return (0, out);
    }
    if !has_out || cap <= 0 {
        return (lines.len() as i32, out);
    }
    let room: usize = if cap < rows_count { cap as usize } else { rows_count as usize };
    let n: usize = if lines.len() < room { lines.len() } else { room };
    let mut i: usize = 0;
    while i < n
        invariant
            n <= lines@.len(),
            i <= n,
            out@.len() == i,
            forall|j: int| 0 <= j < i ==> #[trigger] out@[j] == lines@[j] as i32,
        decreases n - i,
    {
        out.push(lines[i] as i32);
        i = i + 1;
    }
    (n as i32, out)
}

/// Exit status of a helper process killed by the console control event
/// it broadcast itself.
pub const STATUS_CONTROL_C_EXIT: i32 = -1073741510;

/// Whether the interrupt helper's exit status (`None` = no code) shows the
/// event was broadcast: a clean exit, or its death by that very event.
/// Any other outcome falls back to sending the interrupt byte.
pub fn helper_exit_ok(code: Option<i32>) -> (r: bool)
    ensures
        r == (code == Some(0i32) || code == Some(STATUS_CONTROL_C_EXIT)),
{
    let c: i32 = match code {
        Some(c) => c,
        None => -1,
    };
    c == 0 || c == STATUS_CONTROL_C_EXIT
}

/// A styled cell of a snapshot row.
#[derive(Clone, Copy, PartialEq, Eq, Structural, Debug)]
pub struct StyledCell {
    pub c: char,
    pub fg: TermColor,
    pub bg: TermColor,
}

/// Encode a row's styles as interleaved foreground/background scalars;
/// `None` when `cap` cannot hold two scalars per cell.
pub fn row_style(line: &Vec<StyledCell>, cap: i32) -> (r: Option<Vec<u32>>)
    requires
        line@.len() * 2 <= i32::MAX,
    ensures
        (r is Some) == (cap >= line@.len() * 2),
        r matches Some(out) ==> out@.len() == line@.len() * 2 && forall|i: int|
            0 <= i < line@.len() ==> out@[2 * i] == color_code(#[trigger] line@[i].fg) && out@[2 * i + 1]
                == color_code(line@[i].bg),
{
    let n: usize = line.len();
    if (cap as i64) < (n as i64) * 2 {
        return None;
    }
    let mut out: Vec<u32> = Vec::new();
    let mut i: usize = 0;
    while i < n
        invariant
            n == line@.len(),
            i <= n,
            out@.len() == 2 * i,
            forall|k: int| 0 <= k < i ==> out@[2 * k] == color_code(#[trigger] line@[k].fg) && out@[2 * k + 1]
                == color_code(line@[k].bg),
        decreases n - i,
    {
        out.push(kind_color(line[i].fg));
        out.push(kind_color(line[i].bg));
        i = i + 1;
    }
    Some(out)
}

/// Cell colours of a snapshot row on the host side: one cell per
/// character of the row text, as far as the style scalars reach
/// (`styled` scalars written, two per cell; a negative count means none).
pub open spec fn cells_spec(text: Seq<char>, styles: Seq<u32>, styled: i32) -> Seq<(char, CellColor, CellColor)> {
    let pairs: int = if styled < 0 { 0 } else { styled as int / 2 };
    let n: int = if text.len() < pairs { text.len() as int } else { pairs };
    Seq::new(n as nat, |i: int| (text[i], decode_spec(styles[2 * i]), decode_spec(styles[2 * i + 1])))
}

/// Host-side cells of a snapshot row (see [`cells_spec`]).
pub fn decode_row_cells(text: &Vec<char>, styles: &Vec<u32>, styled: i32) -> (r: Vec<(char, CellColor, CellColor)>)
    requires
        styled as int <= styles@.len(),
    ensures
        r@ == cells_spec(text@, styles@, styled),
{
    let pairs: usize = if styled < 0 { 0 } else { (styled / 2) as usize };
    let n: usize = if text.len() < pairs { text.len() } else { pairs };
    let mut out: Vec<(char, CellColor, CellColor)> = Vec::new();
    let mut i: usize = 0;
    while i < n
        invariant
            i <= n,
            n <= text@.len(),
            2 * n <= styles@.len(),
            n == (if text@.len() < (if styled < 0 { 0 } else { styled as int / 2 }) {
                text@.len() as int
            } else {
                if styled < 0 { 0 } else { styled as int / 2 }
            }),
            out@.len() == i,
            forall|k: int| 0 <= k < i ==> #[trigger] out@[k] == (text@[k], decode_spec(styles@[2 * k]), decode_spec(styles@[2 * k + 1])),
        decreases n - i,
    {
        let fg = decode_style_color(styles[2 * i]);
        let bg = decode_style_color(styles[2 * i + 1]);
        out.push((text[i], fg, bg));
        i = i + 1;
    }
    proof {
        assert(out@ =~= cells_spec(text@, styles@, styled));
    }
    out
}

/// The hashing key of a colour for row digests: named colours map to
/// 1 + their number, indexed colours to 1000 + the index, RGB to 2000.
pub fn term_color_key(c: TermColor) -> (r: u64)
    ensures
        r == (match c {
            TermColor::Named(n) => 1 + n,
            TermColor::Indexed(i) => 1000 + i,
            TermColor::Spec(_, _, _) => 2000,
        }),
{
    match c {
        TermColor::Named(n) => 1 + n as u64,
        TermColor::Indexed(i) => 1000 + i as u64,
        TermColor::Spec(_, _, _) => 2000,
    }
}

/// The position of the last drawn cursor, decoded from its packed form
/// `row * 8192 + col` (`u64::MAX` = nothing drawn).
pub fn cursor_drawn(packed: u64) -> (r: Option<(usize, usize)>)
    requires
        packed == u64::MAX || packed / 8192 <= usize::MAX,
    ensures
        packed == u64::MAX ==> r is None,
        packed != u64::MAX ==> r == Some(((packed / 8192) as usize, (packed % 8192) as usize)),
{
    if packed == u64::MAX {
        None
    } else {
        Some(((packed / 8192) as usize, (packed % 8192) as usize))
    }
}

/// A shell process id as the engine reports it: -1 when there is none or
/// it does not fit in an `i32`.
pub fn pid_report(pid: Option<u32>) -> (r: i32)
    ensures
        r == (match pid {
            Some(p) => if p <= i32::MAX { p as int } else { -1 },
            None => -1,
        }),
{
    match pid {
        Some(p) => if p <= 0x7fff_ffff {
            p as i32
        } else {
            -1
        },
        None => -1,
    }
}

/// A 64-bit counter as the engine reports it: clamped to `i32::MAX`.
pub fn clamp_count(v: u64) -> (r: i32)
    ensures
        r == (if v > i32::MAX { i32::MAX as int } else { v as int }),
{
    if v > 0x7fff_ffff {
        0x7fff_ffff
    } else {
        v as i32
    }
}

/// Grid size of an emulator session (columns by rows).
#[derive(Clone, Copy, PartialEq, Eq, Structural, Debug)]
pub struct GridSize {
    pub cols: usize,
    pub rows: usize,
}

impl GridSize {
    /// Lines of the grid (no scrollback is counted).
    pub fn total_lines(&self) -> (r: usize)
        ensures
            r == self.rows,
    {
        self.rows
    }

    /// Lines on screen.
    pub fn screen_lines(&self) -> (r: usize)
        ensures
            r == self.rows,
    {
        self.rows
    }

    /// Columns of the grid.
    pub fn columns(&self) -> (r: usize)
        ensures
            r == self.cols,
    {
        self.cols
    }
}

/// Resizing to the current size changes nothing; any other size is
/// taken and marks the session dirty. Returns the new size and whether
/// it changed.
pub fn resize_decision(cur: GridSize, cols: usize, rows: usize) -> (r: (GridSize, bool))
    ensures
        (cur.cols == cols && cur.rows == rows) ==> r == (cur, false),
        !(cur.cols == cols && cur.rows == rows) ==> r == (GridSize { cols, rows }, true),
{
    if cur.cols == cols && cur.rows == rows {
        return (cur, false);
    }
    (GridSize { cols, rows }, true)
}

} // verus!
