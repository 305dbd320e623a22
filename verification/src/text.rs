//! Character and string helpers shared by the parsers and formatters:
//! decimal digits, conversions between `str` and `char` sequences.

use vstd::prelude::*;
use vstd::utf8::{encode_scalar, encode_utf8};

verus! {

/// The ASCII digit for `d` (0..=9).
pub open spec fn digit_char(d: nat) -> char {
    ((48 + d) as u8) as char
}

/// Decimal digits of `n` (no sign, no leading zeros; "0" for zero).
pub open spec fn nat_digits(n: nat) -> Seq<char>
    decreases n,
{
    if n < 10 {
        seq![digit_char(n)]
    } else {
        nat_digits(n / 10).push(digit_char(n % 10))
    }
}

/// Decimal rendering of an integer, as `i64::to_string` writes it.
pub open spec fn int_decimal(n: int) -> Seq<char> {
    if n < 0 {
        seq!['-'] + nat_digits((-n) as nat)
    } else {
        nat_digits(n as nat)
    }
}

/// Appends the decimal digits of `m`.
pub fn push_digits(m: u64, out: &mut Vec<char>)
    ensures
        final(out)@ == old(out)@ + nat_digits(m as nat),
    decreases m,
{
    if m >= 10 {
        push_digits(m / 10, out);
    }
    let d: u8 = (m % 10) as u8;
    out.push((48u8 + d) as char);
    proof {
        assert(digit_char((m % 10) as nat) == (48u8 + d) as char);
        if m >= 10 {
            assert(nat_digits(m as nat) == nat_digits((m / 10) as nat).push(
                digit_char((m % 10) as nat),
            ));
        }
    }
}

/// Appends the decimal rendering of `n`.
pub fn push_decimal(n: i64, out: &mut Vec<char>)
    ensures
        final(out)@ == old(out)@ + int_decimal(n as int),
{
    if n < 0 {
        out.push('-');
        let mag: u64 = ((-(n + 1)) as u64) + 1;
        assert(mag as int == -(n as int));
        push_digits(mag, out);
    } else {
        push_digits(n as u64, out);
    }
}

/// Appends `c` to `s` (`String::push`, which the standard library
/// documents as appending the character to the end of the string).
#[verifier::external_body]
fn string_push(s: &mut String, c: char)
    ensures
        final(s)@ == old(s)@.push(c),
{
    s.push(c)
}

/// A `String` holding exactly the given characters.
pub fn string_from_chars(chars: &[char]) -> (s: String)
    ensures
        s@ == chars@,
{
    let mut s = String::new();
    let mut i: usize = 0;
    while i < chars.len()
        invariant
            i <= chars@.len(),
            s@ == chars@.take(i as int),
        decreases chars@.len() - i,
    {
        proof {
            assert(chars@.take(i as int + 1) =~= chars@.take(i as int).push(chars@[i as int]));
        }
        string_push(&mut s, chars[i]);
        i = i + 1;
    }
    proof {
        assert(chars@.take(chars@.len() as int) =~= chars@);
    }
    s
}

/// The characters of a string slice, in order.
pub fn chars_of(s: &str) -> (v: Vec<char>)
    ensures
        v@ == s@,
{
    let mut v: Vec<char> = Vec::new();
    for c in it: s.chars()
        invariant
            it.seq() == s@,
            v@ == s@.take(it.index() as int),
            it.index() == s@.len() ==> v@ == s@,
    {
        proof {
            assert(s@.take(it.index() + 1) =~= s@.take(it.index() as int).push(c));
            assert(s@.take(s@.len() as int) =~= s@);
        }
        v.push(c);
    }
    v
}

/// Decimal rendering of `n` as a `String`.
pub fn decimal_string(n: i64) -> (s: String)
    ensures
        s@ == int_decimal(n as int),
{
    let mut v: Vec<char> = Vec::new();
    push_decimal(n, &mut v);
    proof {
        assert(v@ =~= int_decimal(n as int));
    }
    string_from_chars(v.as_slice())
}

/// Appends all characters of `s`.
pub fn push_str_chars(out: &mut Vec<char>, s: &str)
    ensures
        final(out)@ == old(out)@ + s@,
{
    let cs = chars_of(s);
    let n: usize = cs.len();
    let mut i: usize = 0;
    while i < n
        invariant
            n == cs@.len(),
            i <= n,
            cs@ == s@,
            out@ == old(out)@ + cs@.take(i as int),
        decreases n - i,
    {
        proof {
            assert(cs@.take(i as int + 1) =~= cs@.take(i as int).push(cs@[i as int]));
        }
        out.push(cs[i]);
        i = i + 1;
    }
    proof {
        assert(cs@.take(n as int) =~= cs@);
    }
}

/// Appends the UTF-8 encoding of `c`.
pub fn push_utf8(out: &mut Vec<u8>, c: char)
    ensures
        final(out)@ == old(out)@ + encode_scalar(c as u32),
{
    let v: u32 = c as u32;
    if v <= 0x7F {
        out.push((v & 0x7F) as u8);
    } else if v <= 0x7FF {
        out.push(0xC0 | ((v >> 6) & 0x1F) as u8);
        out.push(0x80 | (v & 0x3F) as u8);
    } else if v <= 0xFFFF {
        out.push(0xE0 | ((v >> 12) & 0x0F) as u8);
        out.push(0x80 | ((v >> 6) & 0x3F) as u8);
        out.push(0x80 | (v & 0x3F) as u8);
    } else {
        out.push(0xF0 | ((v >> 18) & 0x7) as u8);
        out.push(0x80 | ((v >> 12) & 0x3F) as u8);
        out.push(0x80 | ((v >> 6) & 0x3F) as u8);
        out.push(0x80 | (v & 0x3F) as u8);
    }
    proof {
        assert(final(out)@ =~= old(out)@ + encode_scalar(c as u32));
    }
}

/// The UTF-8 bytes of `s`.
pub fn utf8_bytes(s: &str) -> (b: Vec<u8>)
    ensures
        b@ == encode_utf8(s@),
{
    let cs = chars_of(s);
    let mut out: Vec<u8> = Vec::new();
    let mut k: usize = 0;
    proof {
        assert(cs@.skip(0) =~= cs@);
        assert(out@ + encode_utf8(cs@.skip(0)) =~= encode_utf8(cs@));
    }
    while k < cs.len()
        invariant
            k <= cs@.len(),
            cs@ == s@,
            out@ + encode_utf8(cs@.skip(k as int)) == encode_utf8(cs@),
        decreases cs@.len() - k,
    {
        let ghost before = out@;
        let ghost rest = cs@.skip(k as int);
        proof {
            assert(rest.drop_first() =~= cs@.skip(k as int + 1));
            assert(rest[0] == cs@[k as int]);
            assert(encode_utf8(rest) == encode_scalar(cs@[k as int] as u32) + encode_utf8(cs@.skip(k as int + 1)));
        }
        push_utf8(&mut out, cs[k]);
        proof {
            assert(out@ + encode_utf8(cs@.skip(k as int + 1)) =~= before + encode_utf8(rest));
        }
        k = k + 1;
    }
    proof {
        assert(cs@.skip(cs@.len() as int) =~= Seq::<char>::empty());
        assert(out@ + encode_utf8(Seq::<char>::empty()) =~= out@);
    }
    out
}

} // verus!
