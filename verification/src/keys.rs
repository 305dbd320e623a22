//! Keyboard and pointer decisions of the terminal window: which key
//! combinations reach the clipboard, which bytes a key sends to the
//! session, how a press starts a selection, and when a drag has left the
//! viewport.

use vstd::prelude::*;
use vstd::utf8::encode_scalar;
use crate::text::{chars_of, push_utf8, string_from_chars};

verus! {

/// Named (non-character) keys that the terminal handles.
#[derive(Clone, Copy, PartialEq, Eq, Structural, Debug)]
pub enum NamedKey {
    Enter,
    Backspace,
    Tab,
    Escape,
    ArrowUp,
    ArrowDown,
    ArrowRight,
    ArrowLeft,
    Home,
    End,
    Delete,
    PageUp,
    PageDown,
    /// Any other named key.
    Other,
}

/// A key press: the text it produced, a named key, or an unidentified
/// key.
#[derive(Clone, Debug, PartialEq, Eq)]
pub enum KeyInput {
    Character(String),
    Named(NamedKey),
    Unidentified,
}

/// Modifier keys held during a key press or click.
#[derive(Clone, Copy, PartialEq, Eq, Structural, Debug)]
pub struct Mods {
    pub control: bool,
    pub shift: bool,
    pub alt: bool,
    pub logo: bool,
}

impl Mods {
    /// No modifier held.
    pub fn empty() -> (m: Mods)
        ensures
            !m.control && !m.shift && !m.alt && !m.logo,
    {
        Mods { control: false, shift: false, alt: false, logo: false }
    }

    /// Control alone.
    pub fn ctrl() -> (m: Mods)
        ensures
            m.control && !m.shift && !m.alt && !m.logo,
    {
        Mods { control: true, shift: false, alt: false, logo: false }
    }

    /// Shift alone.
    pub fn shift_only() -> (m: Mods)
        ensures
            !m.control && m.shift && !m.alt && !m.logo,
    {
        Mods { control: false, shift: true, alt: false, logo: false }
    }

    /// Alt alone.
    pub fn alt_only() -> (m: Mods)
        ensures
            !m.control && !m.shift && m.alt && !m.logo,
    {
        Mods { control: false, shift: false, alt: true, logo: false }
    }

    /// Both sets of modifiers.
    pub fn union(self, other: Mods) -> (m: Mods)
        ensures
            m.control == (self.control || other.control),
            m.shift == (self.shift || other.shift),
            m.alt == (self.alt || other.alt),
            m.logo == (self.logo || other.logo),
    {
        Mods {
            control: self.control || other.control,
            shift: self.shift || other.shift,
            alt: self.alt || other.alt,
            logo: self.logo || other.logo,
        }
    }
}

/// A clipboard action bound to a key combination.
#[derive(Clone, Copy, PartialEq, Eq, Structural, Debug)]
pub enum ClipboardShortcut {
    Copy,
    Paste,
}

/// ASCII lower case of `c` (other characters unchanged).
pub open spec fn ascii_lower(c: char) -> char {
    if 'A' <= c <= 'Z' {
        ((c as u32) + 32) as char
    } else {
        c
    }
}

/// ASCII upper case of `c` (other characters unchanged).
pub open spec fn ascii_upper(c: char) -> char {
    if 'a' <= c <= 'z' {
        ((c as u32) - 32) as char
    } else {
        c
    }
}

fn to_ascii_lower(c: char) -> (r: char)
    ensures
        r == ascii_lower(c),
{
    if 'A' <= c && c <= 'Z' {
        ((c as u8) + 32) as char
    } else {
        c
    }
}

fn to_ascii_upper(c: char) -> (r: char)
    ensures
        r == ascii_upper(c),
{
    if 'a' <= c && c <= 'z' {
        ((c as u8) - 32) as char
    } else {
        c
    }
}

/// The clipboard action of a key press: Ctrl+Shift with a single
/// character that is `c`/`C` copies, `v`/`V` pastes; anything else is
/// left to [`key_to_bytes`].
pub open spec fn shortcut_of(key: KeyInput, mods: Mods) -> Option<ClipboardShortcut> {
    if !(mods.control && mods.shift) {
        None
    } else {
        match key {
            KeyInput::Character(s) => if s@.len() != 1 {
                None
            } else if ascii_lower(s@[0]) == 'c' {
                Some(ClipboardShortcut::Copy)
            } else if ascii_lower(s@[0]) == 'v' {
                Some(ClipboardShortcut::Paste)
            } else {
                None
            },
            _ => None,
        }
    }
}

/// The clipboard action of a key press (see [`shortcut_of`]).
pub fn clipboard_shortcut(key: &KeyInput, mods: &Mods) -> (r: Option<ClipboardShortcut>)
    ensures
        r == shortcut_of(*key, *mods),
{
    if !(mods.control && mods.shift) {
        return None;
    }
    let s = match key {
        KeyInput::Character(s) => s,
        _ => return None,
    };
    let cs = chars_of(s.as_str());
    if cs.len() != 1 {
        return None;
    }
    let c = to_ascii_lower(cs[0]);
    if c == 'c' {
        Some(ClipboardShortcut::Copy)
    } else if c == 'v' {
        Some(ClipboardShortcut::Paste)
    } else {
        None
    }
}

/// The character that Shift turns `c` into on a US layout (`c` itself
/// when it has no shifted form in the table).
pub open spec fn shifted(c: char) -> char {
    if c == '1' { '!' } else if c == '2' { '@' } else if c == '3' { '#' } else if c == '4' { '$' }
    else if c == '5' { '%' } else if c == '6' { '^' } else if c == '7' { '&' } else if c == '8' { '*' }
    else if c == '9' { '(' } else if c == '0' { ')' } else if c == '-' { '_' } else if c == '=' { '+' }
    else if c == '[' { '{' } else if c == ']' { '}' } else if c == '\\' { '|' } else if c == ';' { ':' }
    else if c == '\'' { '"' } else if c == ',' { '<' } else if c == '.' { '>' } else if c == '/' { '?' }
    else if c == '`' { '~' } else { c }
}

fn shift_char(c: char) -> (r: char)
    ensures
        r == shifted(c),
{
    if c == '1' { '!' } else if c == '2' { '@' } else if c == '3' { '#' } else if c == '4' { '$' }
    else if c == '5' { '%' } else if c == '6' { '^' } else if c == '7' { '&' } else if c == '8' { '*' }
    else if c == '9' { '(' } else if c == '0' { ')' } else if c == '-' { '_' } else if c == '=' { '+' }
    else if c == '[' { '{' } else if c == ']' { '}' } else if c == '\\' { '|' } else if c == ';' { ':' }
    else if c == '\'' { '"' } else if c == ',' { '<' } else if c == '.' { '>' } else if c == '/' { '?' }
    else if c == '`' { '~' } else { c }
}

/// The escape sequence or byte a named key sends (`None` = not handled).
pub open spec fn named_bytes(k: NamedKey) -> Option<Seq<u8>> {
    match k {
        NamedKey::Enter => Some(seq![0x0du8]),
        NamedKey::Backspace => Some(seq![0x7fu8]),
        NamedKey::Tab => Some(seq![0x09u8]),
        NamedKey::Escape => Some(seq![0x1bu8]),
        NamedKey::ArrowUp => Some(seq![0x1bu8, 0x5b, 0x41]),
        NamedKey::ArrowDown => Some(seq![0x1bu8, 0x5b, 0x42]),
        NamedKey::ArrowRight => Some(seq![0x1bu8, 0x5b, 0x43]),
        NamedKey::ArrowLeft => Some(seq![0x1bu8, 0x5b, 0x44]),
        NamedKey::Home => Some(seq![0x1bu8, 0x5b, 0x48]),
        NamedKey::End => Some(seq![0x1bu8, 0x5b, 0x46]),
        NamedKey::Delete => Some(seq![0x1bu8, 0x5b, 0x33, 0x7e]),
        NamedKey::PageUp => None,
        NamedKey::PageDown => None,
        NamedKey::Other => None,
    }
}

/// The bytes a key press sends to the session: Ctrl with a letter sends
/// its control byte (other Ctrl combinations send nothing); Shift upper-
/// cases letters and maps digits and punctuation to their shifted forms;
/// text sends the UTF-8 of its first character; named keys send their
/// escape sequences.
pub open spec fn key_bytes(key: KeyInput, mods: Mods) -> Option<Seq<u8>> {
    match key {
        KeyInput::Character(s) => if s@.len() == 0 {
            None
        } else {
            let c = s@[0];
            if mods.control {
                let l = ascii_lower(c);
                if 'a' <= l <= 'z' {
                    Some(seq![((l as u32) - 96) as u8])
                } else {
                    None
                }
            } else {
                let d = if mods.shift && 'a' <= c <= 'z' {
                    ascii_upper(c)
                } else if mods.shift {
                    shifted(c)
                } else {
                    c
                };
                Some(encode_scalar(d as u32))
            }
        },
        KeyInput::Named(k) => named_bytes(k),
        KeyInput::Unidentified => None,
    }
}

/// The named keys send the usual terminal bytes whatever modifiers are
/// held: Enter CR, Backspace DEL, Tab HT, Escape ESC, Home `ESC [ H`,
/// End `ESC [ F`, Delete `ESC [ 3 ~`; the page keys and other named keys
/// send nothing (the page keys scroll the view instead).
pub proof fn lemma_named_keys_standard(mods: Mods)
    ensures
        key_bytes(KeyInput::Named(NamedKey::Enter), mods) == Some(seq![0x0du8]),
        key_bytes(KeyInput::Named(NamedKey::Backspace), mods) == Some(seq![0x7fu8]),
        key_bytes(KeyInput::Named(NamedKey::Tab), mods) == Some(seq![0x09u8]),
        key_bytes(KeyInput::Named(NamedKey::Escape), mods) == Some(seq![0x1bu8]),
        key_bytes(KeyInput::Named(NamedKey::Home), mods) == Some(seq![0x1bu8, 0x5bu8, 0x48u8]),
        key_bytes(KeyInput::Named(NamedKey::End), mods) == Some(seq![0x1bu8, 0x5bu8, 0x46u8]),
        key_bytes(KeyInput::Named(NamedKey::Delete), mods) == Some(seq![0x1bu8, 0x5bu8, 0x33u8, 0x7eu8]),
        key_bytes(KeyInput::Named(NamedKey::PageUp), mods) is None,
        key_bytes(KeyInput::Named(NamedKey::PageDown), mods) is None,
        key_bytes(KeyInput::Named(NamedKey::Other), mods) is None,
{
}

/// Control with a letter sends that letter's ASCII control code (its
/// position in the alphabet, 1 for `a` through 26 for `z`), the same for
/// upper and lower case.
pub proof fn lemma_ctrl_letter_code(s: String, mods: Mods)
    requires
        mods.control,
        s@.len() > 0,
        ('a' <= s@[0] <= 'z') || ('A' <= s@[0] <= 'Z'),
    ensures
        key_bytes(KeyInput::Character(s), mods) == Some(seq![(if 'a' <= s@[0] <= 'z' {
            (s@[0] as u32) - ('a' as u32) + 1
        } else {
            (s@[0] as u32) - ('A' as u32) + 1
        }) as u8]),
{
}

/// The arrow keys send the standard ANSI cursor sequences whatever
/// modifiers are held: Up `ESC [ A`, Down `ESC [ B`, Right `ESC [ C`,
/// Left `ESC [ D`; and no two named keys send the same bytes.
pub proof fn lemma_named_keys_distinct(mods: Mods, k1: NamedKey, k2: NamedKey)
    ensures
        key_bytes(KeyInput::Named(NamedKey::ArrowUp), mods) == Some(seq![0x1bu8, 0x5bu8, 0x41u8]),
        key_bytes(KeyInput::Named(NamedKey::ArrowDown), mods) == Some(seq![0x1bu8, 0x5bu8, 0x42u8]),
        key_bytes(KeyInput::Named(NamedKey::ArrowRight), mods) == Some(seq![0x1bu8, 0x5bu8, 0x43u8]),
        key_bytes(KeyInput::Named(NamedKey::ArrowLeft), mods) == Some(seq![0x1bu8, 0x5bu8, 0x44u8]),
        k1 != k2 && key_bytes(KeyInput::Named(k1), mods) is Some ==> key_bytes(KeyInput::Named(k1), mods)
            != key_bytes(KeyInput::Named(k2), mods),
{
    lemma_named_keys_standard(mods);
    let b1 = named_bytes(k1);
    let b2 = named_bytes(k2);
    if k1 != k2 && b1 is Some && b2 is Some {
        let s1 = b1->0;
        let s2 = b2->0;
        if s1 == s2 {
            assert(s1.len() == s2.len());
            assert(s1[s1.len() - 1] == s2[s2.len() - 1]);
            assert(s1[0] == s2[0]);
        }
    }
}

fn bytes_of(b: &[u8]) -> (v: Vec<u8>)
    ensures
        v@ == b@,
{
    let mut v: Vec<u8> = Vec::new();
    let mut i: usize = 0;
    while i < b.len()
        invariant
            i <= b@.len(),
            v@ == b@.take(i as int),
        decreases b@.len() - i,
    {
        proof {
            assert(b@.take(i as int + 1) =~= b@.take(i as int).push(b@[i as int]));
        }
        v.push(b[i]);
        i = i + 1;
    }
    proof {
        assert(b@.take(b@.len() as int) =~= b@);
    }
    v
}

/// The bytes a key press sends (see [`key_bytes`]).
pub fn key_to_bytes(key: &KeyInput, mods: &Mods) -> (r: Option<Vec<u8>>)
    ensures
        match key_bytes(*key, *mods) {
            Some(b) => r is Some && r->0@ == b,
            None => r is None,
        },
{
    match key {
        KeyInput::Character(s) => {
            let cs = chars_of(s.as_str());
            if cs.len() == 0 {
                return None;
            }
            let mut c: char = cs[0];
            if mods.control {
                c = to_ascii_lower(c);
                if 'a' <= c && c <= 'z' {
                    let b: u8 = (c as u8) - 96;
                    let mut v: Vec<u8> = Vec::new();
                    v.push(b);
                    proof {
                        assert(v@ =~= seq![((c as u32) - 96) as u8]);
                    }
                    return Some(v);
                }
                return None;
            }
            if mods.shift && 'a' <= c && c <= 'z' {
                c = to_ascii_upper(c);
            } else if mods.shift {
                c = shift_char(c);
            }
            let mut v: Vec<u8> = Vec::new();
            push_utf8(&mut v, c);
            proof {
                assert(v@ =~= encode_scalar(c as u32));
            }
            Some(v)
        },
        KeyInput::Named(k) => match k {
            NamedKey::Enter => Some(bytes_of(&[0x0du8])),
            NamedKey::Backspace => Some(bytes_of(&[0x7fu8])),
            NamedKey::Tab => Some(bytes_of(&[0x09u8])),
            NamedKey::Escape => Some(bytes_of(&[0x1bu8])),
            NamedKey::ArrowUp => Some(bytes_of(&[0x1bu8, 0x5b, 0x41])),
            NamedKey::ArrowDown => Some(bytes_of(&[0x1bu8, 0x5b, 0x42])),
            NamedKey::ArrowRight => Some(bytes_of(&[0x1bu8, 0x5b, 0x43])),
            NamedKey::ArrowLeft => Some(bytes_of(&[0x1bu8, 0x5b, 0x44])),
            NamedKey::Home => Some(bytes_of(&[0x1bu8, 0x5b, 0x48])),
            NamedKey::End => Some(bytes_of(&[0x1bu8, 0x5b, 0x46])),
            NamedKey::Delete => Some(bytes_of(&[0x1bu8, 0x5b, 0x33, 0x7e])),
            NamedKey::PageUp => None,
            NamedKey::PageDown => None,
            NamedKey::Other => None,
        },
        KeyInput::Unidentified => None,
    }
}

/// What a key press does in the terminal window (after a scrolled-back
/// view has been brought back to the bottom).
#[derive(Clone, Debug, PartialEq, Eq)]
pub enum KeyPlan {
    /// Page the view back (positive) or forward by this many lines;
    /// nothing reaches the session.
    Scroll(i32),
    /// Copy the selection.
    Copy,
    /// Paste the clipboard.
    Paste,
    /// Send these bytes to the session.
    Send(Vec<u8>),
    /// Ctrl+C as an interrupt: broadcast the console interrupt event to
    /// the session, then, when the flag is set, also send the byte 0x03.
    Interrupt(bool),
    /// The key does nothing.
    Nothing,
}

/// How Ctrl+C reaches the session: `Auto` sends the byte alone to ash
/// (the console event would end an ash without a handler) and both the
/// event and the byte to any other shell; `Byte` the byte 0x03 alone;
/// `Event` the console interrupt event alone; `Both` the event, then the
/// byte.
#[derive(Clone, Copy, PartialEq, Eq, Structural, Debug)]
pub enum CtrlCMode {
    Auto,
    Byte,
    Event,
    Both,
}

/// The Ctrl+C mode an option names: `auto`, `byte`, `event` or `both`.
pub open spec fn ctrl_c_mode_of(s: Seq<char>) -> Option<CtrlCMode> {
    if s == seq!['a', 'u', 't', 'o'] {
        Some(CtrlCMode::Auto)
    } else if s == seq!['b', 'y', 't', 'e'] {
        Some(CtrlCMode::Byte)
    } else if s == seq!['e', 'v', 'e', 'n', 't'] {
        Some(CtrlCMode::Event)
    } else if s == seq!['b', 'o', 't', 'h'] {
        Some(CtrlCMode::Both)
    } else {
        None
    }
}

/// The Ctrl+C mode an option names (see [`ctrl_c_mode_of`]; `None` =
/// not a mode).
pub fn parse_ctrl_c_mode(s: &str) -> (r: Option<CtrlCMode>)
    ensures
        r == ctrl_c_mode_of(s@),
{
    let cs = chars_of(s);
    let t: [char; 4] = ['a', 'u', 't', 'o'];
    let y: [char; 4] = ['b', 'y', 't', 'e'];
    let e: [char; 5] = ['e', 'v', 'e', 'n', 't'];
    let h: [char; 4] = ['b', 'o', 't', 'h'];
    if chars_equal(&cs, &t) {
        Some(CtrlCMode::Auto)
    } else if chars_equal(&cs, &y) {
        Some(CtrlCMode::Byte)
    } else if chars_equal(&cs, &e) {
        Some(CtrlCMode::Event)
    } else if chars_equal(&cs, &h) {
        Some(CtrlCMode::Both)
    } else {
        None
    }
}

fn chars_equal(a: &Vec<char>, b: &[char]) -> (r: bool)
    ensures
        r == (a@ == b@),
{
    if a.len() != b.len() {
        return false;
    }
    let mut i: usize = 0;
    while i < a.len()
        invariant
            a@.len() == b@.len(),
            i <= a@.len(),
            forall|j: int| 0 <= j < i ==> a@[j] == b@[j],
        decreases a@.len() - i,
    {
        if a[i] != b[i] {
            return false;
        }
        i = i + 1;
    }
    proof {
        assert(a@ =~= b@);
    }
    true
}

/// Position of the last path separator (`/` or `\`) of `s` (-1 = none).
pub open spec fn last_sep(s: Seq<char>) -> int
    decreases s.len(),
{
    if s.len() == 0 {
        -1
    } else if s.last() == '/' || s.last() == '\\' {
        s.len() - 1
    } else {
        last_sep(s.drop_last())
    }
}

proof fn lemma_last_sep(s: Seq<char>)
    ensures
        -1 <= last_sep(s) < s.len(),
    decreases s.len(),
{
    if s.len() > 0 {
        lemma_last_sep(s.drop_last());
    }
}

/// Whether `program` runs ash: its file name is `ash` or `ash.exe`
/// (letters in either case).
pub open spec fn is_ash(program: Seq<char>) -> bool {
    let b = program.skip(last_sep(program) + 1);
    &&& (b.len() == 3 || b.len() == 7)
    &&& ascii_lower(b[0]) == 'a'
    &&& ascii_lower(b[1]) == 's'
    &&& ascii_lower(b[2]) == 'h'
    &&& (b.len() == 7 ==> b[3] == '.' && ascii_lower(b[4]) == 'e' && ascii_lower(b[5]) == 'x'
        && ascii_lower(b[6]) == 'e')
}

/// Whether `program` runs ash (see [`is_ash`]).
pub fn is_ash_program(program: &str) -> (r: bool)
    ensures
        r == is_ash(program@),
{
    let cs = chars_of(program);
    let n: usize = cs.len();
    let mut start: usize = 0;
    let mut i: usize = 0;
    while i < n
        invariant
            n == cs@.len(),
            cs@ == program@,
            i <= n,
            start == last_sep(cs@.take(i as int)) + 1,
        decreases n - i,
    {
        proof {
            assert(cs@.take(i as int + 1).drop_last() =~= cs@.take(i as int));
            assert(cs@.take(i as int + 1).last() == cs@[i as int]);
        }
        if cs[i] == '/' || cs[i] == '\\' {
            start = i + 1;
        }
        i = i + 1;
    }
    proof {
        assert(cs@.take(n as int) =~= cs@);
        lemma_last_sep(cs@);
    }
    let len: usize = n - start;
    let ghost b = cs@.skip(start as int);
    if len != 3 && len != 7 {
        return false;
    }
    proof {
        assert(b.len() == len);
        assert forall|j: int| 0 <= j < len implies b[j] == cs@[start + j] by {}
    }
    let ok: bool = to_ascii_lower(cs[start]) == 'a' && to_ascii_lower(cs[start + 1]) == 's'
        && to_ascii_lower(cs[start + 2]) == 'h';
    if !ok {
        return false;
    }
    if len == 3 {
        return true;
    }
    cs[start + 3] == '.' && to_ascii_lower(cs[start + 4]) == 'e' && to_ascii_lower(cs[start + 5]) == 'x'
        && to_ascii_lower(cs[start + 6]) == 'e'
}

/// Whether Ctrl+C broadcasts the console interrupt event.
pub open spec fn ctrl_c_event(mode: CtrlCMode, ash: bool) -> bool {
    match mode {
        CtrlCMode::Auto => !ash,
        CtrlCMode::Byte => false,
        CtrlCMode::Event => true,
        CtrlCMode::Both => true,
    }
}

/// Whether Ctrl+C sends the byte 0x03.
pub open spec fn ctrl_c_byte(mode: CtrlCMode) -> bool {
    mode != CtrlCMode::Event
}

/// The plan of a key press on a view `rows` lines high, for a session
/// running ash or not under Ctrl+C mode `mode`: PageUp and PageDown page
/// the view; otherwise the clipboard shortcuts come first, then the bytes
/// of [`key_bytes`] — except that Ctrl+C (the byte 0x03), when its mode
/// broadcasts the console event, becomes the interrupt (followed by 0x03
/// when the mode sends the byte too). So in `Auto` mode Ctrl+C on a shell
/// other than ash is the event followed by 0x03, and 0x03 alone on ash.
pub open spec fn key_plan_ok(key: KeyInput, mods: Mods, rows: i32, mode: CtrlCMode, ash: bool, r: KeyPlan) -> bool {
    match key {
        KeyInput::Named(NamedKey::PageUp) => r == KeyPlan::Scroll(rows),
        KeyInput::Named(NamedKey::PageDown) => r == KeyPlan::Scroll((-rows) as i32),
        _ => match shortcut_of(key, mods) {
            Some(ClipboardShortcut::Copy) => r == KeyPlan::Copy,
            Some(ClipboardShortcut::Paste) => r == KeyPlan::Paste,
            None => match key_bytes(key, mods) {
                Some(b) => if b == seq![0x03u8] && ctrl_c_event(mode, ash) {
                    r == KeyPlan::Interrupt(ctrl_c_byte(mode))
                } else {
                    r matches KeyPlan::Send(v) && v@ == b
                },
                None => r == KeyPlan::Nothing,
            },
        },
    }
}

/// The plan of a key press in a window configured by `cfg` (see
/// [`key_plan_ok`]; whether the session runs ash is read from its shell).
pub fn key_plan(key: &KeyInput, mods: &Mods, rows: i32, cfg: &AppConfig) -> (r: KeyPlan)
    requires
        rows > i32::MIN,
    ensures
        key_plan_ok(*key, *mods, rows, cfg.ctrl_c_mode, is_ash(cfg.shell@), r),
{
    match key {
        KeyInput::Named(NamedKey::PageUp) => return KeyPlan::Scroll(rows),
        KeyInput::Named(NamedKey::PageDown) => return KeyPlan::Scroll(-rows),
        _ => {},
    }
    match clipboard_shortcut(key, mods) {
        Some(ClipboardShortcut::Copy) => return KeyPlan::Copy,
        Some(ClipboardShortcut::Paste) => return KeyPlan::Paste,
        None => {},
    }
    match key_to_bytes(key, mods) {
        Some(b) => {
            let is_etx: bool = b.len() == 1 && b[0] == 0x03u8;
            proof {
                assert(is_etx ==> b@ =~= seq![0x03u8]);
                assert(b@ == seq![0x03u8] ==> b@.len() == 1 && b@[0] == 0x03u8);
            }
            if is_etx {
                let ash: bool = is_ash_program(cfg.shell.as_str());
                let event: bool = match cfg.ctrl_c_mode {
                    CtrlCMode::Auto => !ash,
                    CtrlCMode::Byte => false,
                    CtrlCMode::Event => true,
                    CtrlCMode::Both => true,
                };
                if event {
                    let byte: bool = match cfg.ctrl_c_mode {
                        CtrlCMode::Event => false,
                        _ => true,
                    };
                    return KeyPlan::Interrupt(byte);
                }
            }
            KeyPlan::Send(b)
        },
        None => KeyPlan::Nothing,
    }
}

/// Pasted text as the session receives it: every CR LF pair and every
/// remaining LF becomes a CR (the terminal's line submission).
pub open spec fn paste_normalized(s: Seq<char>) -> Seq<char>
    decreases s.len(),
{
    if s.len() == 0 {
        Seq::empty()
    } else if s.len() >= 2 && s[0] == '\r' && s[1] == '\n' {
        seq!['\r'] + paste_normalized(s.skip(2))
    } else if s[0] == '\n' {
        seq!['\r'] + paste_normalized(s.skip(1))
    } else {
        seq![s[0]] + paste_normalized(s.skip(1))
    }
}

/// Pasted text with its line ends made CRs (see [`paste_normalized`]).
pub fn normalize_paste(text: &str) -> (r: String)
    ensures
        r@ == paste_normalized(text@),
{
    let cs = chars_of(text);
    let n: usize = cs.len();
    let mut out: Vec<char> = Vec::new();
    let mut i: usize = 0;
    proof {
        assert(cs@.skip(0) =~= cs@);
        assert(out@ + cs@ =~= cs@);
        assert(out@ + paste_normalized(cs@) =~= paste_normalized(cs@));
    }
    while i < n
        invariant
            n == cs@.len(),
            cs@ == text@,
            i <= n,
            paste_normalized(cs@) == out@ + paste_normalized(cs@.skip(i as int)),
        decreases n - i,
    {
        let ghost rest = cs@.skip(i as int);
        proof {
            assert(rest[0] == cs@[i as int]);
        }
        if cs[i] == '\r' && i + 1 < n && cs[i + 1] == '\n' {
            proof {
                assert(rest[1] == cs@[i + 1]);
                assert(rest.skip(2) =~= cs@.skip(i + 2));
                assert(out@.push('\r') + paste_normalized(cs@.skip(i + 2)) =~= out@ + (seq!['\r']
                    + paste_normalized(rest.skip(2))));
            }
            out.push('\r');
            i = i + 2;
        } else {
            proof {
                assert(rest.skip(1) =~= cs@.skip(i + 1));
            }
            if cs[i] == '\n' {
                proof {
                    assert(out@.push('\r') + paste_normalized(cs@.skip(i + 1)) =~= out@ + (seq!['\r']
                        + paste_normalized(rest.skip(1))));
                }
                out.push('\r');
            } else {
                proof {
                    assert(out@.push(cs@[i as int]) + paste_normalized(cs@.skip(i + 1)) =~= out@ + (
                    seq![rest[0]] + paste_normalized(rest.skip(1))));
                }
                out.push(cs[i]);
            }
            i = i + 1;
        }
    }
    proof {
        assert(cs@.skip(n as int) =~= Seq::<char>::empty());
        assert(out@ + Seq::<char>::empty() =~= out@);
    }
    string_from_chars(out.as_slice())
}

/// How a selection grows from its anchor.
#[derive(Clone, Copy, PartialEq, Eq, Structural, Debug)]
pub enum SelectionType {
    Simple,
    Block,
    Semantic,
    Lines,
}

/// Which half of a cell a pointer position falls in.
#[derive(Clone, Copy, PartialEq, Eq, Structural, Debug)]
pub enum Side {
    Left,
    Right,
}

/// Selection messages from the grid to the window (cells are viewport
/// (row, column)).
#[derive(Clone, Copy, PartialEq, Eq, Debug)]
pub enum SelectMsg {
    /// A press starts a selection of kind `ty` at `cell`.
    Begin { ty: SelectionType, cell: (usize, usize), side: Side },
    /// A drag moves the selection's end to `cell`.
    Extend { cell: (usize, usize), side: Side },
    /// The release finishes the selection.
    Finish,
}

/// The kind of selection a press starts: Alt always selects a block;
/// otherwise a double click selects words, a triple click lines, and
/// anything else plain text.
pub open spec fn selection_type_of(count: u8, mods: Mods) -> SelectionType {
    if mods.alt {
        SelectionType::Block
    } else if count == 2 {
        SelectionType::Semantic
    } else if count == 3 {
        SelectionType::Lines
    } else {
        SelectionType::Simple
    }
}

/// The kind of selection a press starts (see [`selection_type_of`]).
pub fn begin_selection_type(count: u8, mods: Mods) -> (r: SelectionType)
    ensures
        r == selection_type_of(count, mods),
{
    if mods.alt {
        return SelectionType::Block;
    }
    match count {
        2 => SelectionType::Semantic,
        3 => SelectionType::Lines,
        _ => SelectionType::Simple,
    }
}

/// The grid point of viewport cell `(row, col)` when the view is scrolled
/// back `display_offset` lines: history lines are negative.
pub fn cell_to_point(cell: (usize, usize), display_offset: usize) -> (p: (i32, usize))
    requires
        cell.0 <= i32::MAX,
        display_offset <= i32::MAX,
    ensures
        p.0 == cell.0 - display_offset,
        p.1 == cell.1,
{
    (cell.0 as i32 - display_offset as i32, cell.1)
}

/// Cells that line `line` contributes to a selection from
/// `(sl, sc)` to `(el, ec)` on a grid `cols` wide: from the start column
/// (on the first line) or column 0, to the end column (on the last line)
/// or the last column; at least one cell.
pub open spec fn line_cells(line: int, sl: int, sc: nat, el: int, ec: nat, cols: nat) -> nat {
    let begin: nat = if line == sl { sc } else { 0 };
    let last: nat = if line == el { ec } else if cols >= 1 { (cols - 1) as nat } else { 0 };
    (if last >= begin { (last - begin) as nat } else { 0nat }) + 1
}

/// Cells the lines `sl..=upto` contribute (0 when `upto < sl`).
pub open spec fn cells_upto(upto: int, sl: int, sc: nat, el: int, ec: nat, cols: nat) -> nat
    decreases upto - sl + 1,
{
    if upto < sl {
        0
    } else {
        cells_upto(upto - 1, sl, sc, el, ec, cols) + line_cells(upto, sl, sc, el, ec, cols)
    }
}

/// The count only grows line by line.
pub proof fn lemma_cells_upto_monotone(a: int, b: int, sl: int, sc: nat, el: int, ec: nat, cols: nat)
    requires
        a <= b,
    ensures
        cells_upto(a, sl, sc, el, ec, cols) <= cells_upto(b, sl, sc, el, ec, cols),
    decreases b - a,
{
    if a < b {
        lemma_cells_upto_monotone(a, b - 1, sl, sc, el, ec, cols);
    }
}

/// Cells a selection covers (`None` = no selection): the sum over its
/// lines of [`line_cells`].
pub fn selection_cell_count(range: Option<((i32, usize), (i32, usize))>, cols: usize) -> (r: usize)
    requires
        range matches Some(((sl, sc), (el, ec))) ==> cells_upto(el as int, sl as int, sc as nat, el as int, ec as nat, cols as nat) <= usize::MAX,
    ensures
        r == (match range {
            None => 0nat,
            Some(((sl, sc), (el, ec))) => cells_upto(el as int, sl as int, sc as nat, el as int, ec as nat, cols as nat),
        }),
{
    let ((sl, sc), (el, ec)) = match range {
        None => return 0,
        Some(x) => x,
    };
    if el < sl {
        return 0;
    }
    let mut total: usize = 0;
    let mut line: i64 = sl as i64;
    while line <= el as i64
        invariant
            sl <= line <= el + 1,
            total == cells_upto(line - 1, sl as int, sc as nat, el as int, ec as nat, cols as nat),
            cells_upto(el as int, sl as int, sc as nat, el as int, ec as nat, cols as nat) <= usize::MAX,
        decreases el - line + 1,
    {
        let begin: usize = if line == sl as i64 { sc } else { 0 };
        let last: usize = if line == el as i64 { ec } else if cols >= 1 { cols - 1 } else { 0 };
        let part: usize = if last >= begin { last - begin } else { 0 };
        proof {
            lemma_cells_upto_monotone(line as int, el as int, sl as int, sc as nat, el as int, ec as nat, cols as nat);
            assert(part + 1 == line_cells(line as int, sl as int, sc as nat, el as int, ec as nat, cols as nat));
        }
        total = total + part + 1;
        line = line + 1;
    }
    total
}

/// Window, in milliseconds, within which presses on the same cell count
/// as one multi-click run.
pub const MULTI_CLICK_MS: u64 = 500;

/// What the grid remembers between presses: when and on which cell the
/// last press was, how many presses its run has counted, and whether a
/// drag selection is on.
#[derive(Clone, Copy, Debug, PartialEq, Eq)]
pub struct ClickState {
    pub last_at_ms: Option<u64>,
    pub last_count: u8,
    pub last_cell: Option<(usize, usize)>,
    pub dragging: bool,
}

/// A press at `cell` at time `now_ms` continues the run: no Alt, the last
/// press was on the same cell no longer than [`MULTI_CLICK_MS`] ago (a
/// clock that went back counts as no time), and the run has not reached
/// a triple click.
pub open spec fn continues_run(s: ClickState, now_ms: u64, cell: (usize, usize), mods: Mods) -> bool {
    &&& !mods.alt
    &&& s.last_at_ms matches Some(t) && (if now_ms >= t { now_ms - t } else { 0 }) <= MULTI_CLICK_MS
    &&& s.last_cell == Some(cell)
    &&& s.last_count < 3
}

impl ClickState {
    /// No press yet.
    pub fn new() -> (s: ClickState)
        ensures
            s == (ClickState { last_at_ms: None, last_count: 0, last_cell: None, dragging: false }),
    {
        ClickState { last_at_ms: None, last_count: 0, last_cell: None, dragging: false }
    }

    /// A left press at `cell` at time `now_ms`: the run's click count
    /// (1 to 3) and the kind of selection it begins; a drag starts.
    pub fn press(&mut self, now_ms: u64, cell: (usize, usize), mods: Mods) -> (r: (u8, SelectionType))
        ensures
            r.0 == (if continues_run(*old(self), now_ms, cell, mods) { (old(self).last_count + 1) as u8 } else { 1u8 }),
            1 <= r.0 <= 3,
            r.1 == selection_type_of(r.0, mods),
            *final(self) == (ClickState {
                last_at_ms: Some(now_ms),
                last_count: r.0,
                last_cell: Some(cell),
                dragging: true,
            }),
    {
        let recent: bool = match self.last_at_ms {
            Some(t) => {
                let gap: u64 = if now_ms >= t { now_ms - t } else { 0 };
                gap <= MULTI_CLICK_MS
            },
            None => false,
        };
        let same_cell: bool = match self.last_cell {
            Some(c) => c.0 == cell.0 && c.1 == cell.1,
            None => false,
        };
        let count: u8 = if !mods.alt && recent && same_cell && self.last_count < 3 {
            self.last_count + 1
        } else {
            1
        };
        let ty = begin_selection_type(count, mods);
        self.last_at_ms = Some(now_ms);
        self.last_count = count;
        self.last_cell = Some(cell);
        self.dragging = true;
        (count, ty)
    }

    /// A left release: whether it finishes a drag selection (the drag
    /// then ends).
    pub fn release(&mut self) -> (finished: bool)
        ensures
            finished == old(self).dragging,
            *final(self) == (ClickState { dragging: false, ..*old(self) }),
    {
        let was: bool = self.dragging;
        self.dragging = false;
        was
    }
}

/// The direction in which a drag left the viewport.
#[derive(Clone, Copy, PartialEq, Eq, Structural, Debug)]
pub enum Vertical {
    Up,
    Down,
}

/// Where pointer row `y` lies against the viewport `[top, top + height]`:
/// above it (`Up`), below it (`Down`), or inside (`None`, the edges
/// included).
pub fn edge_band(y: i64, top: i64, height: i64) -> (r: Option<Vertical>)
    requires
        i64::MIN <= top + height <= i64::MAX,
    ensures
        r == (if y < top {
            Some(Vertical::Up)
        } else if y > top + height {
            Some(Vertical::Down)
        } else {
            None
        }),
{
    if y < top {
        Some(Vertical::Up)
    } else if y > top + height {
        Some(Vertical::Down)
    } else {
        None
    }
}

/// Window configuration passed in by the launcher.
#[derive(Clone, Debug)]
pub struct AppConfig {
    /// The shell to spawn.
    pub shell: String,
    /// How Ctrl+C reaches the session.
    pub ctrl_c_mode: CtrlCMode,
}

} // verus!
