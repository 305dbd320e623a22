//! The media listing: JSON string literals, the scan response that lists
//! the indexed media files, and the byte window a stream request serves.

use vstd::prelude::*;
use crate::text::{chars_of, string_from_chars, nat_digits, push_digits, push_str_chars};

verus! {

/// Lower-case hexadecimal digit of `d` (0..=15).
pub open spec fn hex_digit_lower(d: int) -> char {
    if d < 10 {
        (48 + d) as char
    } else {
        (87 + d) as char
    }
}

/// How one character is written inside a JSON string: quote, backslash,
/// newline, carriage return and tab by their short escapes, other control
/// characters as `\u00XX` (lower-case hex), everything else as itself.
pub open spec fn json_escape_char(c: char) -> Seq<char> {
    if c == '"' {
        seq!['\\', '"']
    } else if c == '\\' {
        seq!['\\', '\\']
    } else if c == '\n' {
        seq!['\\', 'n']
    } else if c == '\r' {
        seq!['\\', 'r']
    } else if c == '\t' {
        seq!['\\', 't']
    } else if (c as u32) < 0x20 {
        seq!['\\', 'u', '0', '0', hex_digit_lower((c as u32) as int / 16), hex_digit_lower((c as u32) as int % 16)]
    } else {
        seq![c]
    }
}

/// The escaped body of a JSON string.
pub open spec fn json_escaped(s: Seq<char>) -> Seq<char>
    decreases s.len(),
{
    if s.len() == 0 {
        Seq::empty()
    } else {
        json_escaped(s.drop_last()) + json_escape_char(s.last())
    }
}

fn push_escaped(out: &mut Vec<char>, c: char)
    ensures
        final(out)@ == old(out)@ + json_escape_char(c),
{
    let u: u32 = c as u32;
    if c == '"' {
        out.push('\\');
        out.push('"');
    } else if c == '\\' {
        out.push('\\');
        out.push('\\');
    } else if c == '\n' {
        out.push('\\');
        out.push('n');
    } else if c == '\r' {
        out.push('\\');
        out.push('r');
    } else if c == '\t' {
        out.push('\\');
        out.push('t');
    } else if u < 0x20 {
        let hi: u32 = u / 16;
        let lo: u32 = u % 16;
        let h: char = if hi < 10 { (48 + hi as u8) as char } else { (87 + hi as u8) as char };
        let l: char = if lo < 10 { (48 + lo as u8) as char } else { (87 + lo as u8) as char };
        out.push('\\');
        out.push('u');
        out.push('0');
        out.push('0');
        out.push(h);
        out.push(l);
    } else {
        out.push(c);
    }
    proof {
        assert(final(out)@ =~= old(out)@ + json_escape_char(c));
    }
}

/// `s` as a JSON string literal: quoted, with the escapes of
/// [`json_escape_char`].
pub open spec fn json_str(s: Seq<char>) -> Seq<char> {
    seq!['"'] + json_escaped(s) + seq!['"']
}

/// Appends `s` as a JSON string literal.
fn push_json_str(out: &mut Vec<char>, s: &str)
    ensures
        final(out)@ == old(out)@ + json_str(s@),
{
    let cs = chars_of(s);
    let ghost start = out@;
    out.push('"');
    let mut i: usize = 0;
    while i < cs.len()
        invariant
            i <= cs@.len(),
            cs@ == s@,
            out@ == start + seq!['"'] + json_escaped(cs@.take(i as int)),
        decreases cs@.len() - i,
    {
        proof {
            assert(cs@.take(i as int + 1).drop_last() =~= cs@.take(i as int));
        }
        push_escaped(out, cs[i]);
        proof {
            assert(out@ =~= start + seq!['"'] + json_escaped(cs@.take(i as int + 1)));
        }
        i = i + 1;
    }
    out.push('"');
    proof {
        assert(cs@.take(cs@.len() as int) =~= cs@);
        assert(out@ =~= start + json_str(s@));
    }
}

/// `s` as a JSON string literal (see [`json_str`]).
pub fn media_json_str(s: &str) -> (r: String)
    ensures
        r@ == seq!['"'] + json_escaped(s@) + seq!['"'],
{
    let mut out: Vec<char> = Vec::new();
    push_json_str(&mut out, s);
    proof {
        assert(out@ =~= json_str(s@));
    }
    string_from_chars(out.as_slice())
}

/// Where the media scan looks: no root configured, a configured root
/// that does not exist, or an existing root.
#[derive(Clone, Copy, Debug, PartialEq, Eq, Structural)]
pub enum MediaRoot {
    Unset,
    Missing,
    Present,
}

/// One indexed media file as the scan lists it. `title`, `song_title`,
/// `artist` and `size_str` are what the media service derives from the
/// file name and the size.
#[derive(Clone, Debug)]
pub struct MediaEntry {
    pub id: String,
    pub name: String,
    pub rel_dir: String,
    pub relative_path: String,
    pub extension: String,
    pub bytes: u64,
    pub title: String,
    pub song_title: String,
    pub artist: String,
    pub size_str: String,
}

/// The album shown for a file: its directory, or "本地单曲" (local
/// singles) for files at the root.
pub open spec fn album_of(rel_dir: Seq<char>) -> Seq<char> {
    if rel_dir.len() == 0 {
        "本地单曲"@
    } else {
        rel_dir
    }
}

/// `n` in at least two digits, zero-padded.
pub open spec fn pad2(n: nat) -> Seq<char> {
    if n < 10 {
        seq!['0'] + nat_digits(n)
    } else {
        nat_digits(n)
    }
}

/// The listing object of entry `e` at position `i` (numbered from 1);
/// the stream urls carry the id as it is.
pub open spec fn entry_json(i: nat, e: MediaEntry) -> Seq<char> {
    entry_ids_json(i, e) + entry_names_json(e) + entry_files_json(e) + entry_urls_json(e)
}

/// Id and numbering of the listing object.
pub open spec fn entry_ids_json(i: nat, e: MediaEntry) -> Seq<char> {
    "{\"id\":"@ + json_str(e.id@) + ",\"index\":"@ + nat_digits(i + 1) + ",\"index_str\":"@
        + json_str(pad2(i + 1))
}

/// Title, song title, artist and album of the listing object.
pub open spec fn entry_names_json(e: MediaEntry) -> Seq<char> {
    ",\"title\":"@ + json_str(e.title@) + ",\"song_title\":"@ + json_str(e.song_title@) + ",\"artist\":"@
        + json_str(e.artist@) + ",\"album\":"@ + json_str(album_of(e.rel_dir@))
}

/// File facts of the listing object.
pub open spec fn entry_files_json(e: MediaEntry) -> Seq<char> {
    ",\"is_liked\":false,\"name\":"@ + json_str(e.name@) + ",\"rel_dir\":"@ + json_str(e.rel_dir@)
        + ",\"relative_path\":"@ + json_str(e.relative_path@) + ",\"extension\":"@ + json_str(e.extension@)
        + ",\"bytes\":"@ + nat_digits(e.bytes as nat) + ",\"size_str\":"@ + json_str(e.size_str@)
}

/// Stream urls of the listing object, and its closing brace.
pub open spec fn entry_urls_json(e: MediaEntry) -> Seq<char> {
    ",\"url\":\"/api/media/stream/"@ + e.id@ + "\",\"audio_url\":\"/api/media/stream/"@ + e.id@
        + "\",\"video_url\":\"/api/media/stream/"@ + e.id@ + "\"}"@
}

/// The listing objects of `s`, comma-separated, numbered in order.
pub open spec fn entries_json(s: Seq<MediaEntry>) -> Seq<char>
    decreases s.len(),
{
    if s.len() == 0 {
        Seq::empty()
    } else if s.len() == 1 {
        entry_json(0, s[0])
    } else {
        entries_json(s.drop_last()) + seq![','] + entry_json((s.len() - 1) as nat, s.last())
    }
}

/// The scan response: the listed entries and whether a configured root
/// is missing (an unset root is an empty listing, not an error).
pub open spec fn scan_json(root: MediaRoot, s: Seq<MediaEntry>) -> Seq<char> {
    match root {
        MediaRoot::Unset => "{\"entries\":[],\"root_missing\":false}"@,
        MediaRoot::Missing => "{\"entries\":[],\"root_missing\":true}"@,
        MediaRoot::Present => "{\"entries\":["@ + entries_json(s) + "],\"root_missing\":false}"@,
    }
}

fn push_entry_ids(out: &mut Vec<char>, i: usize, e: &MediaEntry)
    requires
        i < usize::MAX,
    ensures
        final(out)@ == old(out)@ + entry_ids_json(i as nat, *e),
{
    let n: u64 = (i + 1) as u64;
    push_str_chars(out, "{\"id\":");
    push_json_str(out, e.id.as_str());
    push_str_chars(out, ",\"index\":");
    push_digits(n, out);
    push_str_chars(out, ",\"index_str\":");
    let mut pad: Vec<char> = Vec::new();
    if n < 10 {
        pad.push('0');
    }
    push_digits(n, &mut pad);
    let padded = string_from_chars(pad.as_slice());
    proof {
        assert(padded@ =~= pad2(n as nat));
    }
    push_json_str(out, padded.as_str());
    proof {
        assert(final(out)@ =~= old(out)@ + entry_ids_json(i as nat, *e));
    }
}

fn push_entry_names(out: &mut Vec<char>, e: &MediaEntry)
    ensures
        final(out)@ == old(out)@ + entry_names_json(*e),
{
    push_str_chars(out, ",\"title\":");
    push_json_str(out, e.title.as_str());
    push_str_chars(out, ",\"song_title\":");
    push_json_str(out, e.song_title.as_str());
    push_str_chars(out, ",\"artist\":");
    push_json_str(out, e.artist.as_str());
    push_str_chars(out, ",\"album\":");
    if e.rel_dir.as_str().is_empty() {
        push_json_str(out, "本地单曲");
    } else {
        push_json_str(out, e.rel_dir.as_str());
    }
    proof {
        assert(final(out)@ =~= old(out)@ + entry_names_json(*e));
    }
}

fn push_entry_files(out: &mut Vec<char>, e: &MediaEntry)
    ensures
        final(out)@ == old(out)@ + entry_files_json(*e),
{
    push_str_chars(out, ",\"is_liked\":false,\"name\":");
    push_json_str(out, e.name.as_str());
    push_str_chars(out, ",\"rel_dir\":");
    push_json_str(out, e.rel_dir.as_str());
    push_str_chars(out, ",\"relative_path\":");
    push_json_str(out, e.relative_path.as_str());
    push_str_chars(out, ",\"extension\":");
    push_json_str(out, e.extension.as_str());
    push_str_chars(out, ",\"bytes\":");
    push_digits(e.bytes, out);
    push_str_chars(out, ",\"size_str\":");
    push_json_str(out, e.size_str.as_str());
    proof {
        assert(final(out)@ =~= old(out)@ + entry_files_json(*e));
    }
}

fn push_entry_urls(out: &mut Vec<char>, e: &MediaEntry)
    ensures
        final(out)@ == old(out)@ + entry_urls_json(*e),
{
    push_str_chars(out, ",\"url\":\"/api/media/stream/");
    push_str_chars(out, e.id.as_str());
    push_str_chars(out, "\",\"audio_url\":\"/api/media/stream/");
    push_str_chars(out, e.id.as_str());
    push_str_chars(out, "\",\"video_url\":\"/api/media/stream/");
    push_str_chars(out, e.id.as_str());
    push_str_chars(out, "\"}");
    proof {
        assert(final(out)@ =~= old(out)@ + entry_urls_json(*e));
    }
}

fn push_entry_json(out: &mut Vec<char>, i: usize, e: &MediaEntry)
    requires
        i < usize::MAX,
    ensures
        final(out)@ == old(out)@ + entry_json(i as nat, *e),
{
    push_entry_ids(out, i, e);
    push_entry_names(out, e);
    push_entry_files(out, e);
    push_entry_urls(out, e);
    proof {
        assert(final(out)@ =~= old(out)@ + entry_json(i as nat, *e));
    }
}

/// The scan response for `root` listing `entries` (see [`scan_json`]).
pub fn media_scan_json(root: MediaRoot, entries: &Vec<MediaEntry>) -> (r: String)
    ensures
        r@ == scan_json(root, entries@),
{
    let mut out: Vec<char> = Vec::new();
    match root {
        MediaRoot::Unset => {
            push_str_chars(&mut out, "{\"entries\":[],\"root_missing\":false}");
        },
        MediaRoot::Missing => {
            push_str_chars(&mut out, "{\"entries\":[],\"root_missing\":true}");
        },
        MediaRoot::Present => {
            push_str_chars(&mut out, "{\"entries\":[");
            let ghost head = out@;
            let mut i: usize = 0;
            while i < entries.len()
                invariant
                    i <= entries@.len(),
                    out@ == head + entries_json(entries@.take(i as int)),
                decreases entries@.len() - i,
            {
                proof {
                    assert(entries@.take(i as int + 1).drop_last() =~= entries@.take(i as int));
                }
                if i > 0 {
                    out.push(',');
                }
                push_entry_json(&mut out, i, &entries[i]);
                proof {
                    assert(out@ =~= head + entries_json(entries@.take(i as int + 1)));
                }
                i = i + 1;
            }
            push_str_chars(&mut out, "],\"root_missing\":false}");
            proof {
                assert(entries@.take(entries@.len() as int) =~= entries@);
            }
        },
    }
    proof {
        assert(out@ =~= scan_json(root, entries@));
    }
    string_from_chars(out.as_slice())
}

/// How a stream request is answered: the whole file, the inclusive byte
/// range `start..=end`, or not at all (the range lies outside the file).
#[derive(Clone, Copy, Debug, PartialEq, Eq, Structural)]
pub enum StreamPlan {
    Full,
    Partial(u64, u64),
    Unsatisfiable,
}

/// The inclusive byte window `(start, end)` and its length that a stream
/// of a `len`-byte file serves under `plan` (`None` when the range is
/// unsatisfiable). A full stream of an empty file is the window (0, 0).
pub fn stream_window(plan: StreamPlan, len: u64) -> (r: Option<(u64, u64, u64)>)
    requires
        plan matches StreamPlan::Partial(s, e) ==> s <= e < u64::MAX,
    ensures
        match plan {
            StreamPlan::Full => r == Some((0u64, (if len == 0 { 0 } else { len - 1 }) as u64, (if len
                == 0 {
                1
            } else {
                len
            }) as u64)),
            StreamPlan::Partial(s, e) => r == Some((s, e, (e - s + 1) as u64)),
            StreamPlan::Unsatisfiable => r is None,
        },
{
    match plan {
        StreamPlan::Full => {
            let end: u64 = len.saturating_sub(1);
            Some((0, end, end - 0 + 1))
        },
        StreamPlan::Partial(s, e) => Some((s, e, e - s + 1)),
        StreamPlan::Unsatisfiable => None,
    }
}

/// The `Content-Range` value of a refused range request on a `len`-byte
/// file: `bytes */<len>`.
pub fn unsatisfiable_range(len: u64) -> (r: String)
    ensures
        r@ == "bytes */"@ + nat_digits(len as nat),
{
    let mut out: Vec<char> = Vec::new();
    push_str_chars(&mut out, "bytes */");
    push_digits(len, &mut out);
    string_from_chars(out.as_slice())
}

} // verus!
