//! Text layout for the details and branch-info panes.

use vstd::prelude::*;
use crate::git::RemoteStatus;
use crate::style::Color;
use crate::text::{chars_of, decimal, is_whitespace, is_ws, push_decimal, string_of};

verus! {

/// Bytes in the UTF-8 encoding of a character.
pub open spec fn utf8_len(c: char) -> nat {
    if (c as u32) < 0x80 {
        1
    } else if (c as u32) < 0x800 {
        2
    } else if (c as u32) < 0x10000 {
        3
    } else {
        4
    }
}

/// Bytes in the UTF-8 encoding of a text.
pub open spec fn byte_len(s: Seq<char>) -> nat
    decreases s.len(),
{
    if s.len() == 0 {
        0
    } else {
        byte_len(s.drop_last()) + utf8_len(s.last())
    }
}

/// The words of `s[i..]` given the word `cur` read so far: maximal runs of
/// non-white-space characters.
pub open spec fn words_from(s: Seq<char>, i: int, cur: Seq<char>) -> Seq<Seq<char>>
    decreases s.len() - i,
{
    if i < 0 || i >= s.len() {
        if cur.len() == 0 {
            Seq::empty()
        } else {
            seq![cur]
        }
    } else if is_ws(s[i]) {
        (if cur.len() == 0 {
            Seq::empty()
        } else {
            seq![cur]
        }) + words_from(s, i + 1, Seq::empty())
    } else {
        words_from(s, i + 1, cur.push(s[i]))
    }
}

/// The words of a text.
pub open spec fn words(s: Seq<char>) -> Seq<Seq<char>> {
    words_from(s, 0, Seq::empty())
}

/// Greedy packing of `ws[i..]` into lines of at most `w` bytes, given the
/// line `cur` built so far; words are joined by one space, and a word
/// longer than `w` gets a line of its own.
pub open spec fn pack_from(ws: Seq<Seq<char>>, i: int, cur: Seq<char>, w: nat) -> Seq<Seq<char>>
    decreases ws.len() - i,
{
    if i < 0 || i >= ws.len() {
        if cur.len() == 0 {
            Seq::empty()
        } else {
            seq![cur]
        }
    } else if cur.len() == 0 {
        pack_from(ws, i + 1, ws[i], w)
    } else if byte_len(cur) + 1 + byte_len(ws[i]) <= w {
        pack_from(ws, i + 1, cur + seq![' '] + ws[i], w)
    } else {
        seq![cur] + pack_from(ws, i + 1, ws[i], w)
    }
}

/// The lines of `s` wrapped to `w` bytes; one line, unchanged, when `w` is
/// zero; one empty line when there are no words.
pub open spec fn wrapped(s: Seq<char>, w: nat) -> Seq<Seq<char>> {
    if w == 0 {
        seq![s]
    } else {
        let r = pack_from(words(s), 0, Seq::empty(), w);
        if r.len() == 0 {
            seq![Seq::empty()]
        } else {
            r
        }
    }
}

/// The views of a list of character vectors.
pub open spec fn char_views(v: Seq<Vec<char>>) -> Seq<Seq<char>> {
    v.map_values(|t: Vec<char>| t@)
}

/// The views of a list of strings.
pub open spec fn string_views(v: Seq<String>) -> Seq<Seq<char>> {
    v.map_values(|t: String| t@)
}

/// Bytes in the UTF-8 encoding of a character.
fn char_bytes(c: char) -> (r: usize)
    ensures
        r == utf8_len(c),
{
    if (c as u32) < 0x80 {
        1
    } else if (c as u32) < 0x800 {
        2
    } else if (c as u32) < 0x10000 {
        3
    } else {
        4
    }
}

/// Splits a text into its words.
fn split_words(cs: &Vec<char>) -> (r: Vec<Vec<char>>)
    ensures
        char_views(r@) == words(cs@),
{
    let mut out: Vec<Vec<char>> = Vec::new();
    let mut cur: Vec<char> = Vec::new();
    let mut i: usize = 0;
    while i < cs.len()
        invariant
            i <= cs@.len(),
            char_views(out@) + words_from(cs@, i as int, cur@) == words(cs@),
        decreases cs@.len() - i,
    {
        if is_whitespace(cs[i]) {
            if cur.len() > 0 {
                let ghost before = out@;
                out.push(cur);
                assert(char_views(out@) =~= char_views(before).push(cur@));
                assert(char_views(out@) + words_from(cs@, i + 1, Seq::empty()) =~= char_views(before)
                    + (seq![cur@] + words_from(cs@, i + 1, Seq::empty())));
            } else {
                assert(char_views(out@) + words_from(cs@, i + 1, Seq::empty()) =~= char_views(out@)
                    + (Seq::<Seq<char>>::empty() + words_from(cs@, i + 1, Seq::empty())));
            }
            cur = Vec::new();
        } else {
            cur.push(cs[i]);
        }
        i = i + 1;
    }
    if cur.len() > 0 {
        let ghost before = out@;
        out.push(cur);
        assert(char_views(out@) =~= char_views(before) + seq![cur@]);
    } else {
        assert(char_views(out@) =~= char_views(out@) + Seq::<Seq<char>>::empty());
    }
    out
}

proof fn lemma_byte_len_concat(a: Seq<char>, b: Seq<char>)
    ensures
        byte_len(a + b) == byte_len(a) + byte_len(b),
    decreases b.len(),
{
    if b.len() > 0 {
        lemma_byte_len_concat(a, b.drop_last());
        assert((a + b).drop_last() =~= a + b.drop_last());
    } else {
        assert(a + b =~= a);
    }
}

/// Bytes in the UTF-8 encoding of the characters.
fn bytes_of(w: &Vec<char>) -> (r: u128)
    ensures
        r == byte_len(w@),
        r <= 4 * (usize::MAX as int),
{
    let mut n: u128 = 0;
    let mut i: usize = 0;
    while i < w.len()
        invariant
            i <= w@.len(),
            n == byte_len(w@.take(i as int)),
            n <= 4 * i,
        decreases w@.len() - i,
    {
        assert(w@.take(i + 1).drop_last() =~= w@.take(i as int));
        n = n + char_bytes(w[i]) as u128;
        i = i + 1;
    }
    assert(w@.take(i as int) =~= w@);
    n
}

/// Appends characters to a vector.
fn extend_chars(dst: &mut Vec<char>, src: &Vec<char>)
    ensures
        final(dst)@ == old(dst)@ + src@,
{
    let mut i: usize = 0;
    while i < src.len()
        invariant
            i <= src@.len(),
            dst@ == old(dst)@ + src@.take(i as int),
        decreases src@.len() - i,
    {
        dst.push(src[i]);
        assert(src@.take(i + 1) =~= src@.take(i as int).push(src@[i as int]));
        i = i + 1;
    }
    assert(src@.take(i as int) =~= src@);
}

/// Wraps text into lines of at most `max_width` bytes, words joined by
/// single spaces; a longer word gets a line of its own.
pub fn wrap_text(s: &str, max_width: usize) -> (r: Vec<String>)
    ensures
        string_views(r@) == wrapped(s@, max_width as nat),
{
    if max_width == 0 {
        let mut r: Vec<String> = Vec::new();
        r.push(s.to_string());
        assert(string_views(r@) =~= seq![s@]);
        return r;
    }
    let cs = chars_of(s);
    let ws = split_words(&cs);
    let ghost wv = words(cs@);
    let mut lines: Vec<String> = Vec::new();
    let mut cur: Vec<char> = Vec::new();
    let mut cur_bytes: u128 = 0;
    let mut i: usize = 0;
    while i < ws.len()
        invariant
            i <= ws@.len(),
            char_views(ws@) == wv,
            wv == words(cs@),
            cur_bytes == byte_len(cur@),
            cur_bytes <= 4 * (usize::MAX as int),
            max_width > 0,
            string_views(lines@) + pack_from(wv, i as int, cur@, max_width as nat) == pack_from(
                wv,
                0,
                Seq::empty(),
                max_width as nat,
            ),
        decreases ws@.len() - i,
    {
        let w = &ws[i];
        assert(wv[i as int] == w@);
        let wb = bytes_of(w);
        if cur.len() == 0 {
            cur = copy_chars(w);
            cur_bytes = wb;
        } else if cur_bytes + 1 + wb <= max_width as u128 {
            proof {
                lemma_byte_len_concat(cur@, seq![' ']);
                lemma_byte_len_concat(cur@ + seq![' '], w@);
                assert(byte_len(seq![' ']) == 1) by {
                    let sp = seq![' '];
                    assert(sp.drop_last() =~= Seq::<char>::empty());
                    assert(sp.last() == ' ');
                    assert((' ' as u32) == 32);
                    assert(utf8_len(' ') == 1);
                    assert(byte_len(sp) == byte_len(sp.drop_last()) + utf8_len(sp.last()));
                }
            }
            let ghost old_cur = cur@;
            cur.push(' ');
            extend_chars(&mut cur, w);
            assert(cur@ =~= old_cur + seq![' '] + w@);
            cur_bytes = cur_bytes + 1 + wb;
        } else {
            let ghost before = lines@;
            let line = string_of(&cur);
            lines.push(line);
            assert(string_views(lines@) + pack_from(wv, i + 1, w@, max_width as nat) =~= string_views(
                before,
            ) + (seq![cur@] + pack_from(wv, i + 1, w@, max_width as nat)));
            cur = copy_chars(w);
            cur_bytes = wb;
        }
        i = i + 1;
    }
    if cur.len() > 0 {
        let ghost before = lines@;
        lines.push(string_of(&cur));
        assert(string_views(lines@) =~= string_views(before) + seq![cur@]);
    } else {
        assert(string_views(lines@) =~= string_views(lines@) + Seq::<Seq<char>>::empty());
    }
    if lines.len() == 0 {
        lines.push(String::new());
        assert(string_views(lines@) =~= seq![Seq::<char>::empty()]);
    }
    lines
}

/// Copies a character vector.
fn copy_chars(w: &Vec<char>) -> (r: Vec<char>)
    ensures
        r@ == w@,
{
    let mut r: Vec<char> = Vec::new();
    extend_chars(&mut r, w);
    assert(r@ =~= w@);
    r
}

/// The text of a remote-tracking status.
pub open spec fn remote_status_text(s: RemoteStatus) -> Seq<char> {
    match s {
        RemoteStatus::LocalOnly => "local only"@,
        RemoteStatus::UpToDate => "up to date"@,
        RemoteStatus::Ahead(n) => "↑"@ + decimal(n as nat),
        RemoteStatus::Behind(n) => "↓"@ + decimal(n as nat),
        RemoteStatus::Diverged { ahead, behind } => "↑"@ + decimal(ahead as nat) + " ↓"@ + decimal(
            behind as nat,
        ),
        RemoteStatus::Gone => "remote gone"@,
    }
}

/// The color of a remote-tracking status.
pub open spec fn remote_status_color(s: RemoteStatus) -> Color {
    match s {
        RemoteStatus::LocalOnly => Color::DarkGray,
        RemoteStatus::UpToDate => Color::Green,
        RemoteStatus::Gone => Color::Red,
        _ => Color::Yellow,
    }
}

/// Text and color of a remote-tracking status.
pub fn format_remote_status(status: &RemoteStatus) -> (r: (String, Color))
    ensures
        r.0@ == remote_status_text(*status),
        r.1 == remote_status_color(*status),
{
    match status {
        RemoteStatus::LocalOnly => ("local only".to_string(), Color::DarkGray),
        RemoteStatus::UpToDate => ("up to date".to_string(), Color::Green),
        RemoteStatus::Ahead(n) => {
            let mut t = "↑".to_string();
            push_decimal(&mut t, *n as u64);
            (t, Color::Yellow)
        },
        RemoteStatus::Behind(n) => {
            let mut t = "↓".to_string();
            push_decimal(&mut t, *n as u64);
            (t, Color::Yellow)
        },
        RemoteStatus::Diverged { ahead, behind } => {
            let mut t = "↑".to_string();
            push_decimal(&mut t, *ahead as u64);
            t.append(" ↓");
            push_decimal(&mut t, *behind as u64);
            (t, Color::Yellow)
        },
        RemoteStatus::Gone => ("remote gone".to_string(), Color::Red),
    }
}

} // verus!
