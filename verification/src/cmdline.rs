//! Command-line splitting: trimming, whitespace-separated words, and the
//! program/arguments split of a profile's command line.

use vstd::prelude::*;
use crate::text::{chars_of, string_from_chars};

verus! {

/// Unicode `White_Space` (what `char::is_whitespace` tests).
pub open spec fn ws(c: char) -> bool {
    let u = c as u32;
    (0x09 <= u <= 0x0D) || u == 0x20 || u == 0x85 || u == 0xA0 || u == 0x1680 || (0x2000 <= u
        <= 0x200A) || u == 0x2028 || u == 0x2029 || u == 0x202F || u == 0x205F || u == 0x3000
}

/// Whether `c` is Unicode white space (see [`ws`]).
pub fn is_whitespace_char(c: char) -> (r: bool)
    ensures
        r == ws(c),
{
    let u: u32 = c as u32;
    (0x09 <= u && u <= 0x0D) || u == 0x20 || u == 0x85 || u == 0xA0 || u == 0x1680 || (0x2000 <= u
        && u <= 0x200A) || u == 0x2028 || u == 0x2029 || u == 0x202F || u == 0x205F || u == 0x3000
}

/// `s` without leading white space.
pub open spec fn ltrim(s: Seq<char>) -> Seq<char>
    decreases s.len(),
{
    if s.len() > 0 && ws(s[0]) {
        ltrim(s.drop_first())
    } else {
        s
    }
}

/// `s` without trailing white space.
pub open spec fn rtrim(s: Seq<char>) -> Seq<char>
    decreases s.len(),
{
    if s.len() > 0 && ws(s.last()) {
        rtrim(s.drop_last())
    } else {
        s
    }
}

/// `s` without leading and trailing white space (`str::trim`).
pub open spec fn trim(s: Seq<char>) -> Seq<char> {
    rtrim(ltrim(s))
}

/// The maximal runs of non-white-space characters of `s`, in order
/// (`str::split_whitespace`).
pub open spec fn words(s: Seq<char>) -> Seq<Seq<char>>
    decreases s.len(),
{
    if s.len() == 0 {
        Seq::empty()
    } else {
        let w = words(s.drop_last());
        let c = s.last();
        if ws(c) {
            w
        } else if s.len() >= 2 && !ws(s[s.len() - 2]) {
            w.update(w.len() - 1, w.last().push(c))
        } else {
            w.push(seq![c])
        }
    }
}

/// Position of the first `c` in `s` (-1 = none).
pub open spec fn first_index(s: Seq<char>, c: char) -> int
    decreases s.len(),
{
    if s.len() == 0 {
        -1
    } else {
        let r = first_index(s.drop_last(), c);
        if r >= 0 {
            r
        } else if s.last() == c {
            s.len() - 1
        } else {
            -1
        }
    }
}

/// Position of the first white-space character of `s` (`s.len()` = none).
pub open spec fn first_ws(s: Seq<char>) -> int
    decreases s.len(),
{
    if s.len() == 0 {
        0
    } else {
        let r = first_ws(s.drop_last());
        if r < s.len() - 1 {
            r
        } else if ws(s.last()) {
            s.len() - 1
        } else {
            s.len() as int
        }
    }
}

/// Program and arguments of a command line: after trimming, a leading
/// double quote runs to the next double quote and names the program;
/// otherwise the program runs to the first white space. The arguments are
/// the white-space separated words after it.
pub open spec fn resolve_spec(cl: Seq<char>) -> (Seq<char>, Seq<Seq<char>>) {
    let s = trim(cl);
    if s.len() == 0 {
        (Seq::empty(), Seq::empty())
    } else if s[0] == '"' && first_index(s.drop_first(), '"') >= 0 {
        let rest = s.drop_first();
        let e = first_index(rest, '"');
        (rest.take(e), words(rest.skip(e + 1)))
    } else {
        let p = first_ws(s);
        (s.take(p), if p < s.len() { words(s.skip(p + 1)) } else { Seq::empty() })
    }
}

pub proof fn lemma_first_index(s: Seq<char>, c: char)
    ensures
        -1 <= first_index(s, c) < s.len(),
        first_index(s, c) >= 0 ==> s[first_index(s, c)] == c,
        forall|i: int| 0 <= i < s.len() && (first_index(s, c) < 0 || i < first_index(s, c)) ==> s[i] != c,
    decreases s.len(),
{
    if s.len() > 0 {
        let d = s.drop_last();
        lemma_first_index(d, c);
        assert forall|i: int| 0 <= i < s.len() && (first_index(s, c) < 0 || i < first_index(s, c)) implies s[i] != c by {
            if i < s.len() - 1 {
                assert(s[i] == d[i]);
            }
        }
    }
}

pub proof fn lemma_first_ws(s: Seq<char>)
    ensures
        0 <= first_ws(s) <= s.len(),
        first_ws(s) < s.len() ==> ws(s[first_ws(s)]),
        forall|i: int| 0 <= i < first_ws(s) ==> !ws(#[trigger] s[i]),
    decreases s.len(),
{
    if s.len() > 0 {
        let d = s.drop_last();
        lemma_first_ws(d);
        assert forall|i: int| 0 <= i < first_ws(s) implies !ws(#[trigger] s[i]) by {
            if i < s.len() - 1 {
                assert(s[i] == d[i]);
            }
        }
    }
}

proof fn lemma_words_nonempty(s: Seq<char>)
    requires
        s.len() > 0,
        !ws(s.last()),
    ensures
        words(s).len() > 0,
    decreases s.len(),
{
    if s.len() >= 2 && !ws(s[s.len() - 2]) {
        assert(s.drop_last().last() == s[s.len() - 2]);
        lemma_words_nonempty(s.drop_last());
    }
}

/// Words are non-empty and hold no white space.
pub proof fn lemma_words_clean(s: Seq<char>)
    ensures
        forall|i: int| 0 <= i < words(s).len() ==> (#[trigger] words(s)[i]).len() > 0,
        forall|i: int, k: int| 0 <= i < words(s).len() && 0 <= k < words(s)[i].len() ==> !ws(#[trigger] words(s)[i][k]),
    decreases s.len(),
{
    if s.len() > 0 {
        let d = s.drop_last();
        lemma_words_clean(d);
        let w = words(d);
        let c = s.last();
        if !ws(c) && s.len() >= 2 && !ws(s[s.len() - 2]) {
            assert(d.last() == s[s.len() - 2]);
            lemma_words_nonempty(d);
            let r = words(s);
            assert forall|i: int, k: int| 0 <= i < r.len() && 0 <= k < r[i].len() implies !ws(#[trigger] r[i][k]) by {
                if i < w.len() - 1 {
                    assert(r[i] == w[i]);
                } else {
                    assert(r[i] == w.last().push(c));
                    if k < w.last().len() {
                        assert(r[i][k] == w.last()[k]);
                        assert(w.last() == w[w.len() - 1]);
                    }
                }
            }
            assert forall|i: int| 0 <= i < r.len() implies (#[trigger] r[i]).len() > 0 by {
                if i < w.len() - 1 {
                    assert(r[i] == w[i]);
                }
            }
        }
    }
}

/// Index of the first non-white-space character of `cs[from..]`.
fn skip_ws_front(cs: &Vec<char>, from: usize) -> (i: usize)
    requires
        from <= cs@.len(),
    ensures
        from <= i <= cs@.len(),
        ltrim(cs@.subrange(from as int, cs@.len() as int)) == cs@.subrange(i as int, cs@.len() as int),
{
    let mut i: usize = from;
    while i < cs.len() && is_whitespace_char(cs[i])
        invariant
            from <= i <= cs@.len(),
            ltrim(cs@.subrange(from as int, cs@.len() as int)) == ltrim(cs@.subrange(i as int, cs@.len() as int)),
        decreases cs@.len() - i,
    {
        proof {
            let t = cs@.subrange(i as int, cs@.len() as int);
            assert(t.drop_first() =~= cs@.subrange(i as int + 1, cs@.len() as int));
        }
        i = i + 1;
    }
    i
}

/// The trimmed characters of `s`.
fn trimmed(s: &str) -> (r: Vec<char>)
    ensures
        r@ == trim(s@),
{
    let cs = chars_of(s);
    let i: usize = skip_ws_front(&cs, 0);
    proof {
        assert(cs@.subrange(0, cs@.len() as int) =~= cs@);
    }
    let mut j: usize = cs.len();
    while j > i && is_whitespace_char(cs[j - 1])
        invariant
            i <= j <= cs@.len(),
            trim(s@) == rtrim(cs@.subrange(i as int, j as int)),
            ltrim(s@) == cs@.subrange(i as int, cs@.len() as int),
        decreases j,
    {
        proof {
            let t = cs@.subrange(i as int, j as int);
            assert(t.drop_last() =~= cs@.subrange(i as int, j as int - 1));
        }
        j = j - 1;
    }
    let mut out: Vec<char> = Vec::new();
    let mut k: usize = i;
    while k < j
        invariant
            i <= k <= j,
            j <= cs@.len(),
            out@ == cs@.subrange(i as int, k as int),
        decreases j - k,
    {
        proof {
            assert(cs@.subrange(i as int, k as int + 1) =~= cs@.subrange(i as int, k as int).push(cs@[k as int]));
        }
        out.push(cs[k]);
        k = k + 1;
    }
    out
}

/// The words of `cs[from..]` as strings (see [`words`]).
fn split_words(cs: &Vec<char>, from: usize) -> (out: Vec<String>)
    requires
        from <= cs@.len(),
    ensures
        out@.len() == words(cs@.subrange(from as int, cs@.len() as int)).len(),
        forall|i: int| 0 <= i < out@.len() ==> (#[trigger] out@[i])@ == words(
            cs@.subrange(from as int, cs@.len() as int),
        )[i],
{
    let mut out: Vec<String> = Vec::new();
    let mut cur: Vec<char> = Vec::new();
    let mut i: usize = from;
    while i < cs.len()
        invariant
            from <= i <= cs@.len(),
            ({
                let w = words(cs@.subrange(from as int, i as int));
                &&& cur@.len() > 0 ==> w.len() == out@.len() + 1 && w.last() == cur@
                &&& cur@.len() == 0 ==> w.len() == out@.len()
                &&& forall|k: int| 0 <= k < out@.len() ==> (#[trigger] out@[k])@ == w[k]
            }),
            cur@.len() > 0 <==> (i > from && !ws(cs@[i - 1])),
        decreases cs@.len() - i,
    {
        let c: char = cs[i];
        proof {
            let t = cs@.subrange(from as int, i as int + 1);
            assert(t.drop_last() =~= cs@.subrange(from as int, i as int));
            assert(t.last() == c);
            if i > from {
                assert(t[t.len() - 2] == cs@[i - 1]);
            }
        }
        if is_whitespace_char(c) {
            if cur.len() > 0 {
                out.push(string_from_chars(cur.as_slice()));
                cur = Vec::new();
            }
        } else {
            cur.push(c);
        }
        i = i + 1;
    }
    if cur.len() > 0 {
        out.push(string_from_chars(cur.as_slice()));
    }
    out
}

/// Split a command line into program and arguments (see
/// [`resolve_spec`]).
pub fn resolve(commandline: &str) -> (r: (String, Vec<String>))
    ensures
        r.0@ == resolve_spec(commandline@).0,
        r.1@.len() == resolve_spec(commandline@).1.len(),
        forall|i: int| 0 <= i < r.1@.len() ==> (#[trigger] r.1@[i])@ == resolve_spec(commandline@).1[i],
{
    let s = trimmed(commandline);
    if s.len() == 0 {
        return (String::new(), Vec::new());
    }
    if s[0] == '"' {
        let mut e: usize = 1;
        while e < s.len() && s[e] != '"'
            invariant
                1 <= e <= s@.len(),
                forall|k: int| 1 <= k < e ==> s@[k] != '"',
            decreases s@.len() - e,
        {
            e = e + 1;
        }
        proof {
            let rest = s@.drop_first();
            lemma_first_index(rest, '"');
            if e < s@.len() {
                assert(rest[e - 1] == '"');
                assert(first_index(rest, '"') == e - 1) by {
                    let f = first_index(rest, '"');
                    if f >= 0 && f < e - 1 {
                        assert(s@[f + 1] != '"');
                    }
                }
            } else {
                assert forall|k: int| 0 <= k < rest.len() implies rest[k] != '"' by {
                    assert(rest[k] == s@[k + 1]);
                }
                if first_index(rest, '"') >= 0 {
                    assert(rest[first_index(rest, '"')] == '"');
                }
            }
        }
        if e < s.len() {
            let mut prog: Vec<char> = Vec::new();
            let mut k: usize = 1;
            while k < e
                invariant
                    1 <= k <= e,
                    e < s@.len(),
                    prog@ == s@.subrange(1, k as int),
                decreases e - k,
            {
                proof {
                    assert(s@.subrange(1, k as int + 1) =~= s@.subrange(1, k as int).push(s@[k as int]));
                }
                prog.push(s[k]);
                k = k + 1;
            }
            let argv = split_words(&s, e + 1);
            proof {
                let rest = s@.drop_first();
                assert(rest.take(e - 1) =~= s@.subrange(1, e as int));
                assert(rest.skip(e as int) =~= s@.subrange(e + 1, s@.len() as int));
            }
            return (string_from_chars(prog.as_slice()), argv);
        }
    }
    let mut p: usize = 0;
    while p < s.len() && !is_whitespace_char(s[p])
        invariant
            p <= s@.len(),
            forall|k: int| 0 <= k < p ==> !ws(#[trigger] s@[k]),
        decreases s@.len() - p,
    {
        p = p + 1;
    }
    proof {
        lemma_first_ws(s@);
        let f = first_ws(s@);
        if f < p {
            assert(!ws(s@[f]));
        }
        if p < f {
            assert(ws(s@[p as int]));
        }
        assert(f == p);
    }
    let mut prog: Vec<char> = Vec::new();
    let mut k: usize = 0;
    while k < p
        invariant
            k <= p,
            p <= s@.len(),
            prog@ == s@.subrange(0, k as int),
        decreases p - k,
    {
        proof {
            assert(s@.subrange(0, k as int + 1) =~= s@.subrange(0, k as int).push(s@[k as int]));
        }
        prog.push(s[k]);
        k = k + 1;
    }
    proof {
        assert(s@.take(p as int) =~= s@.subrange(0, p as int));
    }
    if p < s.len() {
        let argv = split_words(&s, p + 1);
        proof {
            assert(s@.skip(p + 1) =~= s@.subrange(p + 1, s@.len() as int));
        }
        (string_from_chars(prog.as_slice()), argv)
    } else {
        (string_from_chars(prog.as_slice()), Vec::new())
    }
}

} // verus!
