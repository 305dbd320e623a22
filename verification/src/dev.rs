//! Developer injection syntax: escaped byte strings (`\r \n \t \xHH`),
//! delayed typing `<ms>:<text>`, delayed selections
//! `<ms>:[<kind>:]<r1>:<c1>-<r2>:<c2>` and delayed pastes `<ms>:<text>`.

use vstd::prelude::*;
use vstd::utf8::encode_scalar;
use crate::cmdline::{first_index, lemma_first_index};
use crate::keys::SelectionType;
use crate::text::{chars_of, push_utf8, string_from_chars};

verus! {

/// Whether `c` is a decimal digit.
pub open spec fn is_digit(c: char) -> bool {
    '0' <= c <= '9'
}

/// Decimal value of a digit string.
pub open spec fn digits_val(s: Seq<char>) -> int
    decreases s.len(),
{
    if s.len() == 0 {
        0
    } else {
        digits_val(s.drop_last()) * 10 + ((s.last() as u32) - 48)
    }
}

/// Every character is a decimal digit.
pub open spec fn all_digits(s: Seq<char>) -> bool {
    forall|i: int| 0 <= i < s.len() ==> is_digit(#[trigger] s[i])
}

/// What `str::parse` gives for an unsigned integer type whose largest
/// value is `max`: an optional `+` then one or more decimal digits whose
/// value does not exceed `max`; anything else is an error (`None`).
pub open spec fn parse_unsigned(s: Seq<char>, max: int) -> Option<int> {
    let d = if s.len() > 0 && s[0] == '+' { s.drop_first() } else { s };
    if d.len() == 0 || !all_digits(d) || digits_val(d) > max {
        None
    } else {
        Some(digits_val(d))
    }
}

proof fn lemma_digits_mono(s: Seq<char>, i: int)
    requires
        all_digits(s),
        0 <= i <= s.len(),
    ensures
        0 <= digits_val(s.take(i)) <= digits_val(s),
    decreases s.len() - i,
{
    if i < s.len() {
        lemma_digits_mono(s, i + 1);
        assert(s.take(i + 1).drop_last() =~= s.take(i));
        assert(is_digit(s[i]));
        lemma_digits_nonneg(s.take(i));
    } else {
        assert(s.take(i) =~= s);
        lemma_digits_nonneg(s);
    }
}

proof fn lemma_digits_nonneg(s: Seq<char>)
    requires
        all_digits(s),
    ensures
        digits_val(s) >= 0,
    decreases s.len(),
{
    if s.len() > 0 {
        assert(all_digits(s.drop_last())) by {
            assert forall|i: int| 0 <= i < s.drop_last().len() implies is_digit(#[trigger] s.drop_last()[i]) by {
                assert(s.drop_last()[i] == s[i]);
            }
        }
        lemma_digits_nonneg(s.drop_last());
        assert(is_digit(s.last()));
    }
}

/// Parse `cs[lo..hi]` as an unsigned integer no greater than `max`.
fn parse_unsigned_chars(cs: &Vec<char>, lo: usize, hi: usize, max: u64) -> (r: Option<u64>)
    requires
        lo <= hi <= cs@.len(),
        max >= 9,
    ensures
        match parse_unsigned(cs@.subrange(lo as int, hi as int), max as int) {
            Some(v) => r is Some && v == r->0 as int,
            None => r is None,
        },
        r matches Some(v) ==> v <= max,
{
    let ghost s = cs@.subrange(lo as int, hi as int);
    let mut start: usize = lo;
    if lo < hi && cs[lo] == '+' {
        start = lo + 1;
    }
    let ghost d = cs@.subrange(start as int, hi as int);
    proof {
        if lo < hi {
            assert(s[0] == cs@[lo as int]);
        }
        if lo < hi && cs@[lo as int] == '+' {
            assert(s.drop_first() =~= d);
        } else {
            assert(s =~= d);
        }
    }
    if start >= hi {
        return None;
    }
    let mut k: usize = start;
    while k < hi
        invariant
            start <= k <= hi <= cs@.len(),
            d == cs@.subrange(start as int, hi as int),
            s == cs@.subrange(lo as int, hi as int),
            d == (if s.len() > 0 && s[0] == '+' { s.drop_first() } else { s }),
            d.len() > 0,
            forall|j: int| start <= j < k ==> is_digit(#[trigger] cs@[j]),
        decreases hi - k,
    {
        if !('0' <= cs[k] && cs[k] <= '9') {
            proof {
                assert(!is_digit(d[k - start]));
            }
            return None;
        }
        k = k + 1;
    }
    proof {
        assert forall|j: int| 0 <= j < d.len() implies is_digit(#[trigger] d[j]) by {
            assert(d[j] == cs@[start + j]);
        }
    }
    let mut val: u64 = 0;
    let mut i: usize = start;
    while i < hi
        invariant
            start <= i <= hi <= cs@.len(),
            d == cs@.subrange(start as int, hi as int),
            s == cs@.subrange(lo as int, hi as int),
            d == (if s.len() > 0 && s[0] == '+' { s.drop_first() } else { s }),
            d.len() > 0,
            all_digits(d),
            val as int == digits_val(d.take(i - start)),
            val <= max,
            max >= 9,
        decreases hi - i,
    {
        proof {
            assert(d.take(i - start + 1).drop_last() =~= d.take(i - start));
            assert(d.take(i - start + 1).last() == cs@[i as int]);
            assert(d[i - start] == cs@[i as int]);
            assert(is_digit(d[i - start]));
            lemma_digits_mono(d, i - start + 1);
        }
        let dg: u64 = ((cs[i] as u32) - 48) as u64;
        if val > (max - dg) / 10 {
            proof {
                assert(val * 10 + dg > max) by (nonlinear_arith)
                    requires
                        val > (max - dg) / 10,
                        dg <= 9,
                        dg <= max,
                ;
            }
            return None;
        }
        proof {
            assert(val * 10 + dg <= max) by (nonlinear_arith)
                requires
                    val <= (max - dg) / 10,
                    dg <= 9,
                    dg <= max,
            ;
        }
        val = val * 10 + dg;
        i = i + 1;
    }
    proof {
        assert(d.take(hi - start) =~= d);
    }
    Some(val)
}

/// `s` split around its first `c` (`None` when `c` does not occur).
pub open spec fn split_once(s: Seq<char>, c: char) -> Option<(Seq<char>, Seq<char>)> {
    let i = first_index(s, c);
    if i < 0 {
        None
    } else {
        Some((s.take(i), s.skip(i + 1)))
    }
}

/// Hexadecimal value of a digit character (`None` for other characters).
pub open spec fn hex_val(c: char) -> Option<u8> {
    if '0' <= c <= '9' {
        Some(((c as u32) - 48) as u8)
    } else if 'a' <= c <= 'f' {
        Some(((c as u32) - 87) as u8)
    } else if 'A' <= c <= 'F' {
        Some(((c as u32) - 55) as u8)
    } else {
        None
    }
}

fn hex_digit(c: char) -> (r: Option<u8>)
    ensures
        r == hex_val(c),
{
    if '0' <= c && c <= '9' {
        Some(((c as u32) - 48) as u8)
    } else if 'a' <= c && c <= 'f' {
        Some(((c as u32) - 87) as u8)
    } else if 'A' <= c && c <= 'F' {
        Some(((c as u32) - 55) as u8)
    } else {
        None
    }
}

/// The bytes an escaped string stands for: `\r` and `\n` both give a
/// carriage return, `\t` a tab, `\xHH` the byte with hex value `HH`; a
/// `\x` without two hex digits is kept as written; a backslash before any
/// other character gives that character's low byte; a trailing backslash
/// is kept; other characters give their UTF-8 bytes.
pub open spec fn unescaped(s: Seq<char>) -> Seq<u8>
    decreases s.len(),
{
    if s.len() == 0 {
        Seq::empty()
    } else if s[0] != '\\' {
        encode_scalar(s[0] as u32) + unescaped(s.skip(1))
    } else if s.len() == 1 {
        seq![0x5cu8]
    } else {
        let n = s[1];
        if n == 'r' || n == 'n' {
            seq![0x0du8] + unescaped(s.skip(2))
        } else if n == 't' {
            seq![0x09u8] + unescaped(s.skip(2))
        } else if n == 'x' {
            if s.len() >= 4 && hex_val(s[2]) is Some && hex_val(s[3]) is Some {
                seq![(hex_val(s[2])->0 * 16 + hex_val(s[3])->0) as u8] + unescaped(s.skip(4))
            } else if s.len() >= 4 {
                seq![0x5cu8, 0x78u8] + encode_scalar(s[2] as u32) + encode_scalar(s[3] as u32)
                    + unescaped(s.skip(4))
            } else if s.len() == 3 {
                seq![0x5cu8, 0x78u8] + encode_scalar(s[2] as u32)
            } else {
                seq![0x5cu8, 0x78u8]
            }
        } else {
            seq![((n as u32) % 256) as u8] + unescaped(s.skip(2))
        }
    }
}

/// Text without a backslash stands for its own UTF-8 bytes.
pub proof fn lemma_plain_text_unescapes_to_utf8(s: Seq<char>)
    requires
        forall|i: int| 0 <= i < s.len() ==> s[i] != '\\',
    ensures
        unescaped(s) == vstd::utf8::encode_utf8(s),
    decreases s.len(),
{
    if s.len() > 0 {
        assert(s.skip(1) =~= s.drop_first());
        assert forall|i: int| 0 <= i < s.skip(1).len() implies s.skip(1)[i] != '\\' by {
            assert(s.skip(1)[i] == s[i + 1]);
        }
        lemma_plain_text_unescapes_to_utf8(s.skip(1));
    }
}

/// The bytes of an escaped string (see [`unescaped`]).
pub fn unescape(s: &str) -> (out: Vec<u8>)
    ensures
        out@ == unescaped(s@),
{
    let cs = chars_of(s);
    proof {
        assert(cs@.skip(0) =~= cs@);
    }
    unescape_chars(&cs, 0)
}

fn unescape_chars(cs: &Vec<char>, from: usize) -> (out: Vec<u8>)
    requires
        from <= cs@.len(),
    ensures
        out@ == unescaped(cs@.skip(from as int)),
{
    let mut out: Vec<u8> = Vec::new();
    let mut i: usize = from;
    let n: usize = cs.len();
    while i < n
        invariant
            from <= i <= n,
            n == cs@.len(),
            out@ + unescaped(cs@.skip(i as int)) == unescaped(cs@.skip(from as int)),
        decreases n - i,
    {
        let ghost before = out@;
        let ghost t = cs@.skip(i as int);
        let c: char = cs[i];
        proof {
            assert(t[0] == c);
            assert(t.skip(1) =~= cs@.skip(i as int + 1));
            if n - i >= 2 {
                assert(t.skip(2) =~= cs@.skip(i as int + 2));
            }
            if n - i >= 4 {
                assert(t.skip(4) =~= cs@.skip(i as int + 4));
            }
        }
        if c != '\\' {
            push_utf8(&mut out, c);
            proof {
                assert(out@ + unescaped(cs@.skip(i as int + 1)) =~= before + unescaped(t));
            }
            i = i + 1;
        } else if n - i == 1 {
            out.push(0x5c);
            proof {
                assert(cs@.skip(i as int + 1) =~= Seq::<char>::empty());
                assert(out@ + unescaped(cs@.skip(i as int + 1)) =~= before + unescaped(t));
            }
            i = i + 1;
        } else {
            let nx: char = cs[i + 1];
            proof {
                assert(t[1] == nx);
            }
            if nx == 'r' || nx == 'n' {
                out.push(0x0d);
                proof {
                    assert(out@ + unescaped(cs@.skip(i as int + 2)) =~= before + unescaped(t));
                }
                i = i + 2;
            } else if nx == 't' {
                out.push(0x09);
                proof {
                    assert(out@ + unescaped(cs@.skip(i as int + 2)) =~= before + unescaped(t));
                }
                i = i + 2;
            } else if nx == 'x' {
                if n - i >= 4 {
                    let c1: char = cs[i + 2];
                    let c2: char = cs[i + 3];
                    proof {
                        assert(t[2] == c1);
                        assert(t[3] == c2);
                    }
                    match (hex_digit(c1), hex_digit(c2)) {
                        (Some(h), Some(l)) => {
                            out.push(h * 16 + l);
                        },
                        _ => {
                            out.push(0x5c);
                            out.push(0x78);
                            push_utf8(&mut out, c1);
                            push_utf8(&mut out, c2);
                        },
                    }
                    proof {
                        assert(out@ + unescaped(cs@.skip(i as int + 4)) =~= before + unescaped(t));
                    }
                    i = i + 4;
                } else {
                    out.push(0x5c);
                    out.push(0x78);
                    if n - i == 3 {
                        let c1: char = cs[i + 2];
                        proof {
                            assert(t[2] == c1);
                        }
                        push_utf8(&mut out, c1);
                    }
                    proof {
                        assert(cs@.skip(n as int) =~= Seq::<char>::empty());
                        assert(out@ + unescaped(cs@.skip(n as int)) =~= before + unescaped(t));
                    }
                    i = n;
                }
            } else {
                out.push(((nx as u32) % 256) as u8);
                proof {
                    assert(out@ + unescaped(cs@.skip(i as int + 2)) =~= before + unescaped(t));
                }
                i = i + 2;
            }
        }
    }
    proof {
        assert(cs@.skip(n as int) =~= Seq::<char>::empty());
        assert(out@ + Seq::<u8>::empty() =~= out@);
    }
    out
}

/// Position of the first `c` in `cs[lo..hi]` (as an index of `cs`).
fn find_char(cs: &Vec<char>, lo: usize, hi: usize, c: char) -> (r: Option<usize>)
    requires
        lo <= hi <= cs@.len(),
    ensures
        ({
            let f = first_index(cs@.subrange(lo as int, hi as int), c);
            &&& r is Some <==> f >= 0
            &&& r is Some ==> r->0 == lo + f
            &&& r is Some ==> lo <= r->0 < hi
        }),
{
    let ghost s = cs@.subrange(lo as int, hi as int);
    let mut i: usize = lo;
    while i < hi
        invariant
            lo <= i <= hi <= cs@.len(),
            s == cs@.subrange(lo as int, hi as int),
            forall|j: int| lo <= j < i ==> cs@[j] != c,
        decreases hi - i,
    {
        if cs[i] == c {
            proof {
                lemma_first_index(s, c);
                let f = first_index(s, c);
                assert(s[i - lo] == c);
                if f >= 0 && f < i - lo {
                    assert(s[f] == cs@[lo + f]);
                }
            }
            return Some(i);
        }
        i = i + 1;
    }
    proof {
        lemma_first_index(s, c);
        let f = first_index(s, c);
        if f >= 0 {
            assert(s[f] == cs@[lo + f]);
        }
    }
    None
}

fn sub_string(cs: &Vec<char>, lo: usize, hi: usize) -> (r: String)
    requires
        lo <= hi <= cs@.len(),
    ensures
        r@ == cs@.subrange(lo as int, hi as int),
{
    let mut v: Vec<char> = Vec::new();
    let mut i: usize = lo;
    while i < hi
        invariant
            lo <= i <= hi <= cs@.len(),
            v@ == cs@.subrange(lo as int, i as int),
        decreases hi - i,
    {
        proof {
            assert(cs@.subrange(lo as int, i as int + 1) =~= cs@.subrange(lo as int, i as int).push(cs@[i as int]));
        }
        v.push(cs[i]);
        i = i + 1;
    }
    string_from_chars(v.as_slice())
}

/// Delay (ms) and bytes of a typing injection: `<ms>:<text>` when the
/// part before the first colon parses as a `u64`, else the whole string
/// at once.
pub open spec fn input_spec(s: Seq<char>) -> (u64, Seq<u8>) {
    match split_once(s, ':') {
        Some((n, rest)) => match parse_unsigned(n, u64::MAX as int) {
            Some(ms) => (ms as u64, unescaped(rest)),
            None => (0, unescaped(s)),
        },
        None => (0, unescaped(s)),
    }
}

/// Delay (ms) and bytes of a typing injection (see [`input_spec`]).
pub fn parse_input(s: &str) -> (r: (u64, Vec<u8>))
    ensures
        r.0 == input_spec(s@).0,
        r.1@ == input_spec(s@).1,
{
    let cs = chars_of(s);
    match find_char(&cs, 0, cs.len(), ':') {
        Some(k) => {
            proof {
                assert(cs@.subrange(0, cs@.len() as int) =~= cs@);
                assert(cs@.take(k as int) =~= cs@.subrange(0, k as int));
            }
            match parse_unsigned_chars(&cs, 0, k, u64::MAX) {
                Some(ms) => (ms, unescape_chars(&cs, k + 1)),
                None => {
                    proof {
                        assert(cs@.skip(0) =~= cs@);
                    }
                    (0, unescape_chars(&cs, 0))
                },
            }
        },
        None => {
            proof {
                assert(cs@.subrange(0, cs@.len() as int) =~= cs@);
                assert(cs@.skip(0) =~= cs@);
            }
            (0, unescape_chars(&cs, 0))
        },
    }
}

/// Delay (ms) and text of a paste injection `<ms>:<text>` (`None` without
/// a colon or with a delay that does not parse).
pub open spec fn paste_spec(s: Seq<char>) -> Option<(u64, Seq<char>)> {
    match split_once(s, ':') {
        Some((n, rest)) => match parse_unsigned(n, u64::MAX as int) {
            Some(ms) => Some((ms as u64, rest)),
            None => None,
        },
        None => None,
    }
}

/// Delay (ms) and text of a paste injection (see [`paste_spec`]).
pub fn parse_dev_paste(s: &str) -> (r: Option<(u64, String)>)
    ensures
        match paste_spec(s@) {
            Some((ms, t)) => r is Some && (r->0).0 == ms && (r->0).1@ == t,
            None => r is None,
        },
{
    let cs = chars_of(s);
    let k = match find_char(&cs, 0, cs.len(), ':') {
        Some(k) => k,
        None => {
            proof {
                assert(cs@.subrange(0, cs@.len() as int) =~= cs@);
            }
            return None;
        },
    };
    proof {
        assert(cs@.subrange(0, cs@.len() as int) =~= cs@);
        assert(cs@.take(k as int) =~= cs@.subrange(0, k as int));
        assert(cs@.skip(k as int + 1) =~= cs@.subrange(k as int + 1, cs@.len() as int));
    }
    let ms = match parse_unsigned_chars(&cs, 0, k, u64::MAX) {
        Some(v) => v,
        None => return None,
    };
    Some((ms, sub_string(&cs, k + 1, cs.len())))
}

/// A selection injection: its kind and its start and end cells (viewport
/// (row, column)).
#[derive(Clone, Copy, PartialEq, Eq, Debug)]
pub struct DevSelectSpec {
    pub ty: SelectionType,
    pub start: (usize, usize),
    pub end: (usize, usize),
}

/// A cell `<row>:<col>` (`None` unless both parse as `usize`).
pub open spec fn cell_spec(s: Seq<char>) -> Option<(usize, usize)> {
    match split_once(s, ':') {
        Some((r, c)) => match (parse_unsigned(r, usize::MAX as int), parse_unsigned(c, usize::MAX as int)) {
            (Some(a), Some(b)) => Some((a as usize, b as usize)),
            _ => None,
        },
        None => None,
    }
}

/// Kind prefix of a selection injection: `simple:`, `semantic:` or
/// `lines:` before the cells; anything else leaves the rest whole and
/// selects plain text.
pub open spec fn kind_prefix(rest: Seq<char>) -> (SelectionType, Seq<char>) {
    match split_once(rest, ':') {
        Some((k, r)) => if k == seq!['s', 'i', 'm', 'p', 'l', 'e'] {
            (SelectionType::Simple, r)
        } else if k == seq!['s', 'e', 'm', 'a', 'n', 't', 'i', 'c'] {
            (SelectionType::Semantic, r)
        } else if k == seq!['l', 'i', 'n', 'e', 's'] {
            (SelectionType::Lines, r)
        } else {
            (SelectionType::Simple, rest)
        },
        None => (SelectionType::Simple, rest),
    }
}

/// A selection injection `<ms>:[<kind>:]<r1>:<c1>-<r2>:<c2>` (`None` when
/// any part is missing or does not parse).
pub open spec fn select_spec(s: Seq<char>) -> Option<(u64, DevSelectSpec)> {
    match split_once(s, ':') {
        None => None,
        Some((ms, rest)) => match parse_unsigned(ms, u64::MAX as int) {
            None => None,
            Some(at) => {
                let (ty, cells) = kind_prefix(rest);
                match split_once(cells, '-') {
                    None => None,
                    Some((a, b)) => match (cell_spec(a), cell_spec(b)) {
                        (Some(p), Some(q)) => Some((at as u64, DevSelectSpec { ty, start: p, end: q })),
                        _ => None,
                    },
                }
            },
        },
    }
}

fn parse_cell(cs: &Vec<char>, lo: usize, hi: usize) -> (r: Option<(usize, usize)>)
    requires
        lo <= hi <= cs@.len(),
    ensures
        r == cell_spec(cs@.subrange(lo as int, hi as int)),
{
    let ghost s = cs@.subrange(lo as int, hi as int);
    let k = match find_char(cs, lo, hi, ':') {
        Some(k) => k,
        None => return None,
    };
    proof {
        assert(s.take(k - lo) =~= cs@.subrange(lo as int, k as int));
        assert(s.skip(k - lo + 1) =~= cs@.subrange(k as int + 1, hi as int));
    }
    let m: u64 = usize::MAX as u64;
    assert(m as int == usize::MAX as int);
    let r = parse_unsigned_chars(cs, lo, k, m);
    let c = parse_unsigned_chars(cs, k + 1, hi, m);
    match (r, c) {
        (Some(a), Some(b)) => {
            let ghost pa = parse_unsigned(cs@.subrange(lo as int, k as int), usize::MAX as int);
            let ghost pb = parse_unsigned(cs@.subrange(k as int + 1, hi as int), usize::MAX as int);
            assert(a <= usize::MAX && b <= usize::MAX);
            let ua: usize = a as usize;
            let ub: usize = b as usize;
            assert(ua as int == a as int);
            assert(ub as int == b as int);
            Some((ua, ub))
        },
        _ => None,
    }
}

fn chars_eq_lit(cs: &Vec<char>, lo: usize, hi: usize, lit: &Vec<char>) -> (r: bool)
    requires
        lo <= hi <= cs@.len(),
    ensures
        r == (cs@.subrange(lo as int, hi as int) == lit@),
{
    if hi - lo != lit.len() {
        proof {
            assert(cs@.subrange(lo as int, hi as int).len() != lit@.len());
        }
        return false;
    }
    let mut i: usize = 0;
    while i < lit.len()
        invariant
            i <= lit@.len(),
            hi - lo == lit@.len(),
            lo <= hi <= cs@.len(),
            forall|j: int| 0 <= j < i ==> cs@[lo + j] == lit@[j],
        decreases lit@.len() - i,
    {
        if cs[lo + i] != lit[i] {
            proof {
                assert(cs@.subrange(lo as int, hi as int)[i as int] != lit@[i as int]);
            }
            return false;
        }
        i = i + 1;
    }
    proof {
        assert(cs@.subrange(lo as int, hi as int) =~= lit@);
    }
    true
}

fn parse_kind_prefix(cs: &Vec<char>, from: usize) -> (r: (SelectionType, usize))
    requires
        from <= cs@.len(),
    ensures
        from <= r.1 <= cs@.len(),
        kind_prefix(cs@.subrange(from as int, cs@.len() as int)) == (r.0, cs@.subrange(r.1 as int, cs@.len() as int)),
{
    let n: usize = cs.len();
    let ghost rest = cs@.subrange(from as int, n as int);
    match find_char(cs, from, n, ':') {
        Some(k2) => {
            proof {
                assert(rest.take(k2 - from) =~= cs@.subrange(from as int, k2 as int));
                assert(rest.skip(k2 - from + 1) =~= cs@.subrange(k2 as int + 1, n as int));
            }
            let simple = chars_of("simple");
            let semantic = chars_of("semantic");
            let lines = chars_of("lines");
            proof {
                reveal_strlit("simple");
                reveal_strlit("semantic");
                reveal_strlit("lines");
                assert(simple@ =~= seq!['s', 'i', 'm', 'p', 'l', 'e']);
                assert(semantic@ =~= seq!['s', 'e', 'm', 'a', 'n', 't', 'i', 'c']);
                assert(lines@ =~= seq!['l', 'i', 'n', 'e', 's']);
            }
            if chars_eq_lit(cs, from, k2, &simple) {
                (SelectionType::Simple, k2 + 1)
            } else if chars_eq_lit(cs, from, k2, &semantic) {
                (SelectionType::Semantic, k2 + 1)
            } else if chars_eq_lit(cs, from, k2, &lines) {
                (SelectionType::Lines, k2 + 1)
            } else {
                (SelectionType::Simple, from)
            }
        },
        None => (SelectionType::Simple, from),
    }
}

/// A selection injection (see [`select_spec`]).
pub fn parse_dev_select(s: &str) -> (r: Option<(u64, DevSelectSpec)>)
    ensures
        r == select_spec(s@),
{
    let cs = chars_of(s);
    let n: usize = cs.len();
    proof {
        assert(cs@.subrange(0, n as int) =~= cs@);
    }
    let k = match find_char(&cs, 0, n, ':') {
        Some(k) => k,
        None => return None,
    };
    proof {
        assert(cs@.take(k as int) =~= cs@.subrange(0, k as int));
        assert(cs@.skip(k as int + 1) =~= cs@.subrange(k as int + 1, n as int));
    }
    let at = match parse_unsigned_chars(&cs, 0, k, u64::MAX) {
        Some(v) => v,
        None => return None,
    };
    let (ty, lo) = parse_kind_prefix(&cs, k + 1);
    let ghost cells = cs@.subrange(lo as int, n as int);
    let d = match find_char(&cs, lo, n, '-') {
        Some(d) => d,
        None => return None,
    };
    proof {
        assert(cells.take(d - lo) =~= cs@.subrange(lo as int, d as int));
        assert(cells.skip(d - lo + 1) =~= cs@.subrange(d as int + 1, n as int));
    }
    let p = match parse_cell(&cs, lo, d) {
        Some(p) => p,
        None => return None,
    };
    let q = match parse_cell(&cs, d + 1, n) {
        Some(q) => q,
        None => return None,
    };
    Some((at, DevSelectSpec { ty, start: p, end: q }))
}

} // verus!
