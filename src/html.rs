//! Rich-text rendering: turns the HTML of a work-item field into word-wrapped
//! lines of styled spans, in one forward pass over the input.

use vstd::prelude::*;
use crate::style::{Color, Line, Span, Style, line_text, plain_style};
use crate::text::{
    all_ws, chars_of, digit_run_end, is_whitespace, is_ws, lemma_max_run_prefix, lemma_trim_end_le,
    is_blank_text, lemma_strip_all_ws, lemma_strip_concat, lemma_strip_nonempty, ascii_lower, ascii_lower_chars, max_run, parse_digit_run, parse_u32,
    decimal, positive_id, push_char, push_decimal, same_chars, string_of, strip_ws, tail_run, trim_end_at,
};

verus! {

/// Whether `pat` occurs in `s` at `i`.
pub open spec fn occurs_at(s: Seq<char>, pat: Seq<char>, i: int) -> bool {
    0 <= i && i + pat.len() <= s.len() && s.subrange(i, i + pat.len()) == pat
}

/// First occurrence of `pat` in `s` at or after `i`, or -1.
pub open spec fn find_from(s: Seq<char>, pat: Seq<char>, i: int) -> int
    decreases s.len() - i,
{
    if i < 0 || i + pat.len() > s.len() {
        -1
    } else if pat.len() == 0 || s.subrange(i, i + pat.len()) == pat {
        i
    } else {
        find_from(s, pat, i + 1)
    }
}

/// First white-space character in `s` at or after `i`, or the length.
pub open spec fn find_ws_from(s: Seq<char>, i: int) -> int
    decreases s.len() - i,
{
    if i < 0 || i >= s.len() {
        s.len() as int
    } else if is_ws(s[i]) {
        i
    } else {
        find_ws_from(s, i + 1)
    }
}

/// Whether `pat` occurs in `cs` at `i`.
fn matches_at(cs: &Vec<char>, i: usize, pat: &Vec<char>) -> (r: bool)
    ensures
        r == occurs_at(cs@, pat@, i as int),
{
    if i > cs.len() || pat.len() > cs.len() - i {
        return false;
    }
    let mut k: usize = 0;
    while k < pat.len()
        invariant
            i <= cs@.len(),
            i + pat@.len() <= cs@.len(),
            k <= pat@.len(),
            forall|x: int| 0 <= x < k ==> cs@[i + x] == pat@[x],
        decreases pat@.len() - k,
    {
        let n = cs.len();
        assert(i + k < n);
        if cs[i + k] != pat[k] {
            assert(cs@.subrange(i as int, i + pat@.len())[k as int] != pat@[k as int]);
            return false;
        }
        k = k + 1;
    }
    assert(cs@.subrange(i as int, i + pat@.len()) =~= pat@);
    true
}

/// Finds the first occurrence of `pat` in `cs` at or after `from`.
fn find_seq(cs: &Vec<char>, pat: &Vec<char>, from: usize) -> (r: Option<usize>)
    ensures
        match r {
            Some(j) => j as int == find_from(cs@, pat@, from as int) && j >= from,
            None => find_from(cs@, pat@, from as int) == -1,
        },
{
    let mut j: usize = from;
    while j <= cs.len() && pat.len() <= cs.len() - j
        invariant
            j >= from,
            find_from(cs@, pat@, from as int) == find_from(cs@, pat@, j as int),
        decreases cs@.len() + 1 - j,
    {
        if matches_at(cs, j, pat) {
            proof {
                if pat@.len() == 0 {
                    assert(find_from(cs@, pat@, j as int) == j);
                }
            }
            return Some(j);
        }
        proof {
            if pat@.len() == 0 {
                assert(cs@.subrange(j as int, j as int) =~= pat@);
            }
        }
        if j >= cs.len() {
            return None;
        }
        j = j + 1;
    }
    None
}

/// Name and replacement of each entity that is decoded.
pub open spec fn entity(k: int) -> (Seq<char>, char) {
    if k == 0 {
        (seq!['&', 'n', 'b', 's', 'p', ';'], ' ')
    } else if k == 1 {
        (seq!['&', 'a', 'm', 'p', ';'], '&')
    } else if k == 2 {
        (seq!['&', 'l', 't', ';'], '<')
    } else if k == 3 {
        (seq!['&', 'g', 't', ';'], '>')
    } else if k == 4 {
        (seq!['&', 'q', 'u', 'o', 't', ';'], '"')
    } else if k == 5 {
        (seq!['&', '#', '3', '9', ';'], '\'')
    } else if k == 6 {
        (seq!['&', 'a', 'p', 'o', 's', ';'], '\'')
    } else if k == 7 {
        (seq!['&', '#', 'x', '2', '7', ';'], '\'')
    } else if k == 8 {
        (seq!['&', 'm', 'd', 'a', 's', 'h', ';'], '\u{2014}')
    } else if k == 9 {
        (seq!['&', 'n', 'd', 'a', 's', 'h', ';'], '\u{2013}')
    } else if k == 10 {
        (seq!['&', 'h', 'e', 'l', 'l', 'i', 'p', ';'], '\u{2026}')
    } else if k == 11 {
        (seq!['&', 'b', 'u', 'l', 'l', ';'], '\u{2022}')
    } else if k == 12 {
        (seq!['&', 'c', 'o', 'p', 'y', ';'], '\u{a9}')
    } else if k == 13 {
        (seq!['&', 'r', 'e', 'g', ';'], '\u{ae}')
    } else {
        (seq!['&', 't', 'r', 'a', 'd', 'e', ';'], '\u{2122}')
    }
}

/// Number of entities in the table.
pub const ENTITY_COUNT: usize = 15;

/// The first entity (from `k` on) whose name occurs at `i`, or `ENTITY_COUNT`.
pub open spec fn entity_at_from(s: Seq<char>, i: int, k: int) -> int
    decreases ENTITY_COUNT - k,
{
    if k < 0 || k >= ENTITY_COUNT {
        ENTITY_COUNT as int
    } else if occurs_at(s, entity(k).0, i) {
        k
    } else {
        entity_at_from(s, i, k + 1)
    }
}

/// `s[i..]` with the known entities decoded, left to right; anything else,
/// unknown entities included, passes through.
pub open spec fn decode_from(s: Seq<char>, i: int) -> Seq<char>
    decreases s.len() - i,
{
    if i < 0 || i >= s.len() {
        Seq::empty()
    } else {
        let k = entity_at_from(s, i, 0);
        if k < ENTITY_COUNT && entity(k).0.len() > 0 && i + entity(k).0.len() <= s.len() {
            seq![entity(k).1] + decode_from(s, i + entity(k).0.len())
        } else {
            seq![s[i]] + decode_from(s, i + 1)
        }
    }
}

/// The text with the known HTML entities decoded.
pub open spec fn decoded(s: Seq<char>) -> Seq<char> {
    decode_from(s, 0)
}

/// The name and replacement of entity `k`.
fn entity_entry(k: usize) -> (r: (Vec<char>, char))
    requires
        k < ENTITY_COUNT,
    ensures
        r.0@ == entity(k as int).0,
        r.1 == entity(k as int).1,
{
    let r = if k == 0 {
        (vec!['&', 'n', 'b', 's', 'p', ';'], ' ')
    } else if k == 1 {
        (vec!['&', 'a', 'm', 'p', ';'], '&')
    } else if k == 2 {
        (vec!['&', 'l', 't', ';'], '<')
    } else if k == 3 {
        (vec!['&', 'g', 't', ';'], '>')
    } else if k == 4 {
        (vec!['&', 'q', 'u', 'o', 't', ';'], '"')
    } else if k == 5 {
        (vec!['&', '#', '3', '9', ';'], '\'')
    } else if k == 6 {
        (vec!['&', 'a', 'p', 'o', 's', ';'], '\'')
    } else if k == 7 {
        (vec!['&', '#', 'x', '2', '7', ';'], '\'')
    } else if k == 8 {
        (vec!['&', 'm', 'd', 'a', 's', 'h', ';'], '\u{2014}')
    } else if k == 9 {
        (vec!['&', 'n', 'd', 'a', 's', 'h', ';'], '\u{2013}')
    } else if k == 10 {
        (vec!['&', 'h', 'e', 'l', 'l', 'i', 'p', ';'], '\u{2026}')
    } else if k == 11 {
        (vec!['&', 'b', 'u', 'l', 'l', ';'], '\u{2022}')
    } else if k == 12 {
        (vec!['&', 'c', 'o', 'p', 'y', ';'], '\u{a9}')
    } else if k == 13 {
        (vec!['&', 'r', 'e', 'g', ';'], '\u{ae}')
    } else {
        (vec!['&', 't', 'r', 'a', 'd', 'e', ';'], '\u{2122}')
    };
    assert(r.0@ =~= entity(k as int).0);
    r
}

/// Every entity name starts with `&`, so no entity occurs where `&` does not.
proof fn lemma_no_entity_without_amp(s: Seq<char>, i: int, k: int)
    requires
        0 <= i < s.len(),
        s[i] != '&',
        0 <= k <= ENTITY_COUNT,
    ensures
        entity_at_from(s, i, k) == ENTITY_COUNT,
    decreases ENTITY_COUNT - k,
{
    if k < ENTITY_COUNT {
        let e = entity(k).0;
        assert(e[0] == '&');
        if occurs_at(s, e, i) {
            assert(s.subrange(i, i + e.len())[0] == s[i]);
        }
        lemma_no_entity_without_amp(s, i, k + 1);
    }
}

/// The entity found at `i` does occur there.
proof fn lemma_entity_occurs(s: Seq<char>, i: int, k: int)
    requires
        0 <= k,
        entity_at_from(s, i, k) < ENTITY_COUNT,
    ensures
        occurs_at(s, entity(entity_at_from(s, i, k)).0, i),
    decreases ENTITY_COUNT - k,
{
    if k < ENTITY_COUNT && !occurs_at(s, entity(k).0, i) {
        lemma_entity_occurs(s, i, k + 1);
    }
}

/// Which entity, if any, occurs in `cs` at `i`.
fn entity_at(cs: &Vec<char>, i: usize) -> (r: usize)
    requires
        i < cs@.len(),
    ensures
        r == entity_at_from(cs@, i as int, 0),
        r <= ENTITY_COUNT,
{
    if cs[i] != '&' {
        proof {
            lemma_no_entity_without_amp(cs@, i as int, 0);
        }
        return ENTITY_COUNT;
    }
    let mut k: usize = 0;
    while k < ENTITY_COUNT
        invariant
            k <= ENTITY_COUNT,
            entity_at_from(cs@, i as int, 0) == entity_at_from(cs@, i as int, k as int),
        decreases ENTITY_COUNT - k,
    {
        let (name, _) = entity_entry(k);
        if matches_at(cs, i, &name) {
            return k;
        }
        k = k + 1;
    }
    ENTITY_COUNT
}

/// Decodes the known HTML entities.
pub fn decode_html_entities(s: &str) -> (r: String)
    ensures
        r@ == decoded(s@),
{
    let cs = chars_of(s);
    let out = decode_chars(&cs);
    string_of(&out)
}

/// Whether the text holds no `&`.
pub open spec fn no_amp(s: Seq<char>) -> bool {
    forall|k: int| 0 <= k < s.len() ==> s[k] != '&'
}

/// Decodes the known HTML entities in a character vector.
fn decode_chars(cs: &Vec<char>) -> (out: Vec<char>)
    ensures
        out@ == decoded(cs@),
        no_amp(cs@) ==> out@ == cs@,
{
    let mut out: Vec<char> = Vec::new();
    let mut i: usize = 0;
    while i < cs.len()
        invariant
            i <= cs@.len(),
            out@ + decode_from(cs@, i as int) == decoded(cs@),
            no_amp(cs@) ==> out@ == cs@.take(i as int),
        decreases cs@.len() - i,
    {
        let k = entity_at(&cs, i);
        proof {
            if k < ENTITY_COUNT {
                lemma_entity_occurs(cs@, i as int, 0);
                if no_amp(cs@) {
                    lemma_no_entity_without_amp(cs@, i as int, 0);
                }
            }
            assert(cs@.take(i + 1) =~= cs@.take(i as int).push(cs@[i as int]));
        }
        if k < ENTITY_COUNT {
            let (name, c) = entity_entry(k);
            if name.len() > 0 {
                proof {
                    assert(out@.push(c) + decode_from(cs@, i + name@.len()) =~= out@ + (seq![c]
                        + decode_from(cs@, i + name@.len())));
                }
                out.push(c);
                i = i + name.len();
                continue;
            }
        }
        proof {
            assert(out@.push(cs@[i as int]) + decode_from(cs@, i + 1) =~= out@ + (seq![
                cs@[i as int],
            ] + decode_from(cs@, i + 1)));
        }
        out.push(cs[i]);
        i = i + 1;
    }
    assert(out@ + decode_from(cs@, i as int) =~= out@);
    assert(cs@.take(i as int) =~= cs@);
    out
}

/// The text with each run of white space replaced by one space.
pub open spec fn normalized(s: Seq<char>) -> Seq<char>
    decreases s.len(),
{
    if s.len() == 0 {
        Seq::empty()
    } else if !is_ws(s.last()) {
        normalized(s.drop_last()).push(s.last())
    } else if s.len() > 1 && is_ws(s[s.len() - 2]) {
        normalized(s.drop_last())
    } else {
        normalized(s.drop_last()).push(' ')
    }
}

/// Collapses each run of white space into one space.
pub fn normalize_whitespace(s: &str) -> (r: String)
    ensures
        r@ == normalized(s@),
{
    let cs = chars_of(s);
    let out = normalize_chars(&cs);
    string_of(&out)
}

/// Collapses each run of white space in a character vector into one space.
fn normalize_chars(cs: &Vec<char>) -> (out: Vec<char>)
    ensures
        out@ == normalized(cs@),
        max_run(out@) <= max_run(cs@),
        no_amp(cs@) ==> no_amp(out@),
        strip_ws(out@) == strip_ws(cs@),
{
    let mut out: Vec<char> = Vec::new();
    let mut last_was_space = false;
    let mut i: usize = 0;
    while i < cs.len()
        invariant
            i <= cs@.len(),
            out@ == normalized(cs@.take(i as int)),
            last_was_space == (i > 0 && is_ws(cs@[i - 1])),
            tail_run(out@) == tail_run(cs@.take(i as int)),
            max_run(out@) <= max_run(cs@.take(i as int)),
            no_amp(cs@) ==> no_amp(out@),
            strip_ws(out@) == strip_ws(cs@.take(i as int)),
        decreases cs@.len() - i,
    {
        let c = cs[i];
        assert(cs@.take(i + 1).drop_last() =~= cs@.take(i as int));
        proof {
            if i > 0 {
                assert(cs@.take(i as int).last() == cs@[i - 1]);
            }
        }
        let ghost before = out@;
        if is_whitespace(c) {
            if !last_was_space {
                out.push(' ');
                last_was_space = true;
            }
        } else {
            out.push(c);
            last_was_space = false;
        }
        proof {
            if out@.len() > before.len() {
                assert(out@.drop_last() =~= before);
            }
        }
        i = i + 1;
    }
    assert(cs@.take(i as int) =~= cs@);
    out
}

/// `href=`
pub open spec fn href_key() -> Seq<char> {
    seq!['h', 'r', 'e', 'f', '=']
}

/// `workitems/edit/`
pub open spec fn edit_path() -> Seq<char> {
    seq!['w', 'o', 'r', 'k', 'i', 't', 'e', 'm', 's', '/', 'e', 'd', 'i', 't', '/']
}

/// `workitems/`
pub open spec fn items_path() -> Seq<char> {
    seq!['w', 'o', 'r', 'k', 'i', 't', 'e', 'm', 's', '/']
}

/// The value of the first `href=` in a tag's attributes: up to the matching
/// quote when quoted, else up to the next white space.
pub open spec fn href_value(attrs: Seq<char>) -> Option<Seq<char>> {
    let h = find_from(attrs, href_key(), 0);
    if h < 0 {
        None
    } else {
        let rest = attrs.subrange(h + 5, attrs.len() as int);
        if rest.len() > 0 && (rest[0] == '"' || rest[0] == '\'') {
            let e = find_from(rest, seq![rest[0]], 1);
            if e < 0 {
                None
            } else {
                Some(rest.subrange(1, e))
            }
        } else {
            Some(rest.subrange(0, find_ws_from(rest, 0)))
        }
    }
}

/// The number right after `pos` in a link, when it fits a `u32` and is not zero.
pub open spec fn id_at(url: Seq<char>, pos: int) -> Option<u32> {
    positive_id(parse_u32(url.subrange(pos, digit_run_end(url, pos))))
}

/// The work-item id that a link names: the number after `workitems/edit/`,
/// else after `workitems/`.
pub open spec fn link_work_item_id(attrs: Seq<char>) -> Option<u32> {
    match href_value(attrs) {
        None => None,
        Some(url) => {
            let p1 = find_from(url, edit_path(), 0);
            if p1 >= 0 {
                id_at(url, p1 + 15)
            } else {
                let p2 = find_from(url, items_path(), 0);
                if p2 >= 0 {
                    id_at(url, p2 + 10)
                } else {
                    None
                }
            }
        },
    }
}

proof fn lemma_find_bounds(s: Seq<char>, pat: Seq<char>, i: int)
    requires
        0 <= i,
    ensures
        find_from(s, pat, i) == -1 || (i <= find_from(s, pat, i) && find_from(s, pat, i)
            + pat.len() <= s.len()),
    decreases s.len() - i,
{
    if i + pat.len() <= s.len() && pat.len() != 0 && s.subrange(i, i + pat.len()) != pat {
        lemma_find_bounds(s, pat, i + 1);
    }
}

/// Copies `cs[a..b]`.
fn slice_chars(cs: &Vec<char>, a: usize, b: usize) -> (r: Vec<char>)
    requires
        a <= b <= cs@.len(),
    ensures
        r@ == cs@.subrange(a as int, b as int),
{
    let mut r: Vec<char> = Vec::new();
    let mut i: usize = a;
    while i < b
        invariant
            a <= i <= b <= cs@.len(),
            r@ == cs@.subrange(a as int, i as int),
        decreases b - i,
    {
        r.push(cs[i]);
        assert(cs@.subrange(a as int, i + 1) =~= cs@.subrange(a as int, i as int).push(cs@[i as int]));
        i = i + 1;
    }
    r
}

/// The value of the first `href=` attribute.
fn href_of(attrs: &Vec<char>) -> (r: Option<Vec<char>>)
    ensures
        match href_value(attrs@) {
            Some(v) => r matches Some(x) && x@ == v,
            None => r is None,
        },
{
    let key = vec!['h', 'r', 'e', 'f', '='];
    assert(key@ =~= href_key());
    let h = match find_seq(attrs, &key, 0) {
        Some(h) => h,
        None => return None,
    };
    proof {
        lemma_find_bounds(attrs@, href_key(), 0);
        assert(href_key().len() == 5);
    }
    let n = attrs.len();
    assert(h + 5 <= n);
    let rest = slice_chars(attrs, h + 5, attrs.len());
    if rest.len() > 0 && (rest[0] == '"' || rest[0] == '\'') {
        let q = vec![rest[0]];
        assert(q@ =~= seq![rest@[0]]);
        match find_seq(&rest, &q, 1) {
            Some(e) => {
                proof {
                    lemma_find_bounds(rest@, q@, 1);
                }
                Some(slice_chars(&rest, 1, e))
            },
            None => None,
        }
    } else {
        let mut e: usize = 0;
        while e < rest.len() && !is_whitespace(rest[e])
            invariant
                e <= rest@.len(),
                find_ws_from(rest@, 0) == find_ws_from(rest@, e as int),
            decreases rest@.len() - e,
        {
            e = e + 1;
        }
        Some(slice_chars(&rest, 0, e))
    }
}

/// Extracts the work-item id from an anchor's attributes, recognising
/// `.../workitems/edit/<id>` and `.../workitems/<id>` links.
pub fn extract_work_item_id(attrs: &str) -> (r: Option<u32>)
    ensures
        r == link_work_item_id(attrs@),
{
    let cs = chars_of(attrs);
    let url = match href_of(&cs) {
        Some(u) => u,
        None => return None,
    };
    let edit = vec!['w', 'o', 'r', 'k', 'i', 't', 'e', 'm', 's', '/', 'e', 'd', 'i', 't', '/'];
    assert(edit@ =~= edit_path());
    if let Some(p) = find_seq(&url, &edit, 0) {
        proof {
            lemma_find_bounds(url@, edit_path(), 0);
            assert(edit_path().len() == 15);
        }
        let n = url.len();
        assert(p + 15 <= n);
        return match parse_digit_run(&url, p + 15) {
            Some(0) => None,
            x => x,
        };
    }
    let items = vec!['w', 'o', 'r', 'k', 'i', 't', 'e', 'm', 's', '/'];
    assert(items@ =~= items_path());
    if let Some(p) = find_seq(&url, &items, 0) {
        proof {
            lemma_find_bounds(url@, items_path(), 0);
            assert(items_path().len() == 10);
        }
        let n = url.len();
        assert(p + 10 <= n);
        return match parse_digit_run(&url, p + 10) {
            Some(0) => None,
            x => x,
        };
    }
    None
}

/// A modifier that an inline or heading tag pushes.
#[derive(Debug, Clone, Copy, PartialEq, Eq, Structural)]
pub enum Modifier {
    Bold,
    Underlined,
    CrossedOut,
}

/// An open list.
#[derive(Debug, Clone, Copy, PartialEq, Eq, Structural)]
pub enum ListKind {
    Unordered,
    /// Ordered, with the number of the last item so far.
    Ordered(usize),
}

/// The stack without its top; an empty stack stays as it is.
pub open spec fn popped<T>(s: Seq<T>) -> Seq<T> {
    if s.len() == 0 {
        s
    } else {
        s.drop_last()
    }
}

/// The top of a stack.
pub open spec fn top<T>(s: Seq<T>) -> Option<T> {
    if s.len() == 0 {
        None
    } else {
        Some(s.last())
    }
}

/// The number of the next item of an ordered list whose last item is `n`.
pub open spec fn next_item(n: usize) -> usize {
    if n < usize::MAX {
        (n + 1) as usize
    } else {
        n
    }
}

/// The prefix of a list item: its number in an ordered list, else a bullet.
pub open spec fn item_prefix(top: Option<ListKind>) -> Seq<char> {
    match top {
        Some(ListKind::Ordered(n)) => decimal(next_item(n) as nat) + ". "@,
        _ => "• "@,
    }
}

/// The list stack after an item starts: an ordered list counts it.
pub open spec fn after_item(s: Seq<ListKind>) -> Seq<ListKind> {
    match top(s) {
        Some(ListKind::Ordered(n)) => s.drop_last().push(ListKind::Ordered(next_item(n))),
        _ => s,
    }
}

/// Whether a line is blank: its text is empty or white space.
pub open spec fn blank(l: Line) -> bool {
    all_ws(line_text(l.spans@))
}

/// Blank lines hold no span.
pub open spec fn tidy(lines: Seq<Line>) -> bool {
    forall|i: int| 0 <= i < lines.len() && blank(#[trigger] lines[i]) ==> lines[i].spans@.len() == 0
}

proof fn lemma_all_ws_concat(a: Seq<char>, b: Seq<char>)
    ensures
        all_ws(a + b) <==> (all_ws(a) && all_ws(b)),
{
    if all_ws(a + b) {
        assert forall|k: int| 0 <= k < a.len() implies is_ws(#[trigger] a[k]) by {
            assert((a + b)[k] == a[k]);
        }
        assert forall|k: int| 0 <= k < b.len() implies is_ws(#[trigger] b[k]) by {
            assert((a + b)[a.len() + k] == b[k]);
        }
    }
    if all_ws(a) && all_ws(b) {
        assert forall|k: int| 0 <= k < (a + b).len() implies is_ws(#[trigger] (a + b)[k]) by {
            if k < a.len() {
                assert((a + b)[k] == a[k]);
            } else {
                assert((a + b)[k] == b[k - a.len()]);
            }
        }
    }
}

/// A line's text is white space exactly when every span's is.
proof fn lemma_line_text_ws(spans: Seq<Span>)
    ensures
        all_ws(line_text(spans)) <==> forall|k: int| 0 <= k < spans.len() ==> all_ws(
            #[trigger] spans[k].content@,
        ),
    decreases spans.len(),
{
    if spans.len() > 0 {
        let d = spans.drop_last();
        lemma_line_text_ws(d);
        lemma_all_ws_concat(line_text(d), spans.last().content@);
        if forall|k: int| 0 <= k < spans.len() ==> all_ws(#[trigger] spans[k].content@) {
            assert forall|k: int| 0 <= k < d.len() implies all_ws(#[trigger] d[k].content@) by {
                assert(d[k] == spans[k]);
            }
            assert(all_ws(spans[spans.len() - 1].content@));
        }
        if all_ws(line_text(spans)) {
            assert forall|k: int| 0 <= k < spans.len() implies all_ws(#[trigger] spans[k].content@) by {
                if k < d.len() {
                    assert(d[k] == spans[k]);
                }
            }
        }
    } else {
        assert(line_text(spans) =~= Seq::<char>::empty());
    }
}

/// The text of joined span lists is the joined texts.
proof fn lemma_line_text_concat(a: Seq<Span>, b: Seq<Span>)
    ensures
        line_text(a + b) == line_text(a) + line_text(b),
    decreases b.len(),
{
    if b.len() == 0 {
        assert(a + b =~= a);
        assert(line_text(a) + line_text(b) =~= line_text(a));
    } else {
        lemma_line_text_concat(a, b.drop_last());
        assert((a + b).drop_last() =~= a + b.drop_last());
        assert((a + b).last() == b.last());
        assert(line_text(a) + line_text(b.drop_last()) + b.last().content@ =~= line_text(a) + (
        line_text(b.drop_last()) + b.last().content@));
    }
}

/// The indent of list depth `d`: two spaces per level.
pub open spec fn indent_text(d: nat) -> Seq<char>
    decreases d,
{
    if d == 0 {
        Seq::empty()
    } else {
        indent_text((d - 1) as nat) + seq![' ', ' ']
    }
}

/// Blank lines never follow one another, and the first line is not blank.
pub open spec fn collapsed(lines: Seq<Line>) -> bool {
    &&& forall|i: int| 0 < i < lines.len() ==> !(blank(lines[i - 1]) && #[trigger] blank(lines[i]))
    &&& lines.len() > 0 ==> !blank(lines[0])
}

/// A span as text and style.
pub open spec fn span_view(s: Span) -> (Seq<char>, Style) {
    (s.content@, s.style)
}

/// Spans as texts and styles.
pub open spec fn spans_view(ss: Seq<Span>) -> Seq<(Seq<char>, Style)> {
    ss.map_values(|s: Span| span_view(s))
}

/// Lines as sequences of texts and styles.
pub open spec fn lines_view(ls: Seq<Line>) -> Seq<Seq<(Seq<char>, Style)>> {
    ls.map_values(|l: Line| spans_view(l.spans@))
}

/// The text of spans given as texts and styles.
pub open spec fn texts(sv: Seq<(Seq<char>, Style)>) -> Seq<char>
    decreases sv.len(),
{
    if sv.len() == 0 {
        Seq::empty()
    } else {
        texts(sv.drop_last()) + sv.last().0
    }
}

proof fn lemma_texts(ss: Seq<Span>)
    ensures
        texts(spans_view(ss)) == line_text(ss),
    decreases ss.len(),
{
    if ss.len() > 0 {
        assert(spans_view(ss).drop_last() =~= spans_view(ss.drop_last()));
        lemma_texts(ss.drop_last());
    } else {
        assert(spans_view(ss) =~= Seq::<(Seq<char>, Style)>::empty());
    }
}

/// Everything the renderer carries while it reads a document.
pub struct RenderModel {
    pub styles: Seq<Modifier>,
    pub lists: Seq<ListKind>,
    pub spans: Seq<(Seq<char>, Style)>,
    pub text: Seq<char>,
    pub style: Style,
    pub lines: Seq<Seq<(Seq<char>, Style)>>,
    pub last_blank: bool,
    pub in_anchor: bool,
    pub anchor_id: Option<u32>,
    pub in_pre: bool,
    pub width: usize,
    pub line_width: usize,
}

/// Whether a style stack holds a modifier.
pub open spec fn holds(s: Seq<Modifier>, m: Modifier) -> bool
    decreases s.len(),
{
    s.len() > 0 && (s.last() == m || holds(s.drop_last(), m))
}

/// The style of text under the open style tags, inside an anchor or not.
pub open spec fn style_of(s: Seq<Modifier>, in_anchor: bool) -> Style {
    Style {
        fg: if in_anchor { Some(Color::Cyan) } else { None },
        bold: holds(s, Modifier::Bold),
        underlined: holds(s, Modifier::Underlined),
        crossed_out: holds(s, Modifier::CrossedOut),
    }
}

/// The state before the first character, for width `w`.
pub open spec fn initial_model(w: usize) -> RenderModel {
    RenderModel {
        styles: Seq::empty(),
        lists: Seq::empty(),
        spans: Seq::empty(),
        text: Seq::empty(),
        style: plain_style(),
        lines: Seq::empty(),
        last_blank: false,
        in_anchor: false,
        anchor_id: None,
        in_pre: false,
        width: w,
        line_width: 0,
    }
}

/// The pending text moved into a span.
pub open spec fn m_flush_text(m: RenderModel) -> RenderModel {
    if m.text.len() > 0 {
        RenderModel { spans: m.spans.push((m.text, m.style)), text: Seq::empty(), ..m }
    } else {
        m
    }
}

/// The indent span of list depth `d`, if any.
pub open spec fn indent_spans(d: nat) -> Seq<(Seq<char>, Style)> {
    if d > 0 {
        seq![(indent_text(d), plain_style())]
    } else {
        Seq::empty()
    }
}

/// The line ended: a white-space line becomes one blank line unless a blank
/// line or nothing precedes it; any other line is kept behind the indent.
pub open spec fn m_flush_line(m: RenderModel) -> RenderModel {
    let f = m_flush_text(m);
    let g = if all_ws(texts(f.spans)) {
        if !f.last_blank && f.lines.len() > 0 {
            RenderModel { lines: f.lines.push(Seq::empty()), last_blank: true, ..f }
        } else {
            f
        }
    } else {
        RenderModel {
            lines: f.lines.push(indent_spans(f.lists.len()) + f.spans),
            last_blank: false,
            ..f
        }
    };
    RenderModel { spans: Seq::empty(), line_width: 0, ..g }
}

/// The list indent width.
pub open spec fn indent_of(d: nat) -> int {
    if d <= usize::MAX / 2 {
        (2 * d) as int
    } else {
        usize::MAX as int
    }
}

/// The width left for text beside the indent.
pub open spec fn m_room(m: RenderModel) -> int {
    if m.width >= indent_of(m.lists.len()) {
        m.width - indent_of(m.lists.len())
    } else {
        0
    }
}

/// `a + b`, held at `usize::MAX`.
pub open spec fn sat_add(a: usize, b: int) -> usize {
    if a + b > usize::MAX {
        usize::MAX
    } else {
        (a + b) as usize
    }
}

/// One word added, the line ended first when it does not fit.
pub open spec fn m_add_word(m: RenderModel, w: Seq<char>) -> RenderModel {
    let g = if m.width > 0 && m.line_width > 0 && m.line_width + w.len() > m_room(m) {
        m_flush_line(m)
    } else {
        m
    };
    RenderModel { text: g.text + w, line_width: sat_add(g.line_width, w.len() as int), ..g }
}

/// Decoded text `d[i..]` added word by word, `word` read so far.
pub open spec fn m_words_from(m: RenderModel, d: Seq<char>, i: int, word: Seq<char>) -> RenderModel
    decreases d.len() - i,
{
    if i < 0 || i >= d.len() {
        if word.len() > 0 {
            m_add_word(m, word)
        } else {
            m
        }
    } else if is_ws(d[i]) {
        m_words_from(m_add_word(m, word.push(d[i])), d, i + 1, Seq::empty())
    } else {
        m_words_from(m, d, i + 1, word.push(d[i]))
    }
}

/// Text added: entities decoded, wrapped at white space.
pub open spec fn m_add_text(m: RenderModel, t: Seq<char>) -> RenderModel {
    m_words_from(m, decoded(t), 0, Seq::empty())
}

/// Preformatted text `d[i..]` added: a line per newline, nothing else changed.
pub open spec fn m_pre_from(m: RenderModel, d: Seq<char>, i: int) -> RenderModel
    decreases d.len() - i,
{
    if i < 0 || i >= d.len() {
        m
    } else if d[i] == '\n' {
        m_pre_from(m_flush_line(m), d, i + 1)
    } else {
        m_pre_from(
            RenderModel { text: m.text.push(d[i]), line_width: sat_add(m.line_width, 1), ..m },
            d,
            i + 1,
        )
    }
}

/// A style modifier pushed.
pub open spec fn m_push(m: RenderModel, md: Modifier) -> RenderModel {
    let f = m_flush_text(m);
    RenderModel {
        styles: f.styles.push(md),
        style: style_of(f.styles.push(md), f.in_anchor),
        ..f
    }
}

/// A style modifier popped; an empty stack stays empty.
pub open spec fn m_pop(m: RenderModel) -> RenderModel {
    let f = m_flush_text(m);
    RenderModel { styles: popped(f.styles), style: style_of(popped(f.styles), f.in_anchor), ..f }
}

/// Whether the line being built holds something.
pub open spec fn m_started(m: RenderModel) -> bool {
    m.spans.len() > 0 || m.text.len() > 0
}

/// What an opening tag named `t` (lower case) with attributes `attrs` does.
pub open spec fn m_open(m: RenderModel, t: Seq<char>, attrs: Seq<char>) -> RenderModel {
    if t == "br"@ {
        m_flush_line(m)
    } else if t == "p"@ || t == "div"@ || t == "h4"@ || t == "h5"@ || t == "h6"@ {
        if m_started(m) {
            m_flush_line(m)
        } else {
            m
        }
    } else if t == "h1"@ || t == "h2"@ || t == "h3"@ {
        let f = m_flush_line(m);
        let g = if f.lines.len() > 0 && !f.last_blank {
            RenderModel { lines: f.lines.push(Seq::empty()), last_blank: true, ..f }
        } else {
            f
        };
        m_push(g, Modifier::Bold)
    } else if t == "b"@ || t == "strong"@ {
        m_push(m, Modifier::Bold)
    } else if t == "u"@ {
        m_push(m, Modifier::Underlined)
    } else if t == "s"@ || t == "strike"@ || t == "del"@ {
        m_push(m, Modifier::CrossedOut)
    } else if t == "a"@ {
        let f = m_flush_text(m);
        RenderModel {
            in_anchor: true,
            anchor_id: link_work_item_id(attrs),
            style: style_of(f.styles, true),
            ..f
        }
    } else if t == "ul"@ {
        let f = m_flush_line(m);
        RenderModel { lists: f.lists.push(ListKind::Unordered), ..f }
    } else if t == "ol"@ {
        let f = m_flush_line(m);
        RenderModel { lists: f.lists.push(ListKind::Ordered(0)), ..f }
    } else if t == "li"@ {
        let f = m_flush_line(m);
        let prefix = item_prefix(top(f.lists));
        RenderModel {
            lists: after_item(f.lists),
            spans: f.spans.push((prefix, plain_style())),
            line_width: prefix.len() as usize,
            ..f
        }
    } else if t == "img"@ {
        let f = m_flush_text(m);
        RenderModel {
            spans: f.spans.push(("[image]"@, Style { fg: Some(Color::DarkGray), ..plain_style() })),
            ..f
        }
    } else if t == "table"@ || t == "tbody"@ || t == "tr"@ {
        m_flush_line(m)
    } else if t == "td"@ || t == "th"@ {
        if m_started(m) {
            m_add_text(m, seq![' ', '|', ' '])
        } else {
            m
        }
    } else if t == "code"@ || t == "pre"@ {
        let f = m_flush_text(m);
        RenderModel {
            in_pre: t == "pre"@ || f.in_pre,
            style: Style { fg: Some(Color::Yellow), ..style_of(f.styles, f.in_anchor) },
            ..f
        }
    } else {
        m
    }
}

/// What a closing tag named `t` (lower case) does.
pub open spec fn m_close(m: RenderModel, t: Seq<char>) -> RenderModel {
    if t == "p"@ || t == "div"@ || t == "h4"@ || t == "h5"@ || t == "h6"@ {
        m_flush_line(m)
    } else if t == "h1"@ || t == "h2"@ || t == "h3"@ {
        m_flush_line(m_pop(m))
    } else if t == "b"@ || t == "strong"@ || t == "u"@ || t == "s"@ || t == "strike"@ || t
        == "del"@ {
        m_pop(m)
    } else if t == "a"@ {
        let f = match m.anchor_id {
            Some(id) => {
                let g = m_flush_text(m);
                RenderModel {
                    spans: g.spans.push(
                        ("#"@ + decimal(id as nat), Style { fg: Some(Color::Cyan), ..plain_style() }),
                    ),
                    ..g
                }
            },
            None => m,
        };
        RenderModel { anchor_id: None, in_anchor: false, style: style_of(f.styles, false), ..f }
    } else if t == "ul"@ || t == "ol"@ {
        let f = m_flush_line(m);
        RenderModel { lists: popped(f.lists), ..f }
    } else if t == "tr"@ || t == "table"@ {
        m_flush_line(m)
    } else if t == "code"@ || t == "pre"@ {
        let f = m_flush_text(m);
        RenderModel {
            in_pre: t != "pre"@ && f.in_pre,
            style: style_of(f.styles, f.in_anchor),
            ..f
        }
    } else {
        m
    }
}

/// What the text between `<` and `>` does.
pub open spec fn m_tag(m: RenderModel, c: Seq<char>) -> RenderModel {
    let (closing, name, attrs) = tag_parts(c);
    if closing {
        m_close(m, ascii_lower(name))
    } else {
        m_open(m, ascii_lower(name), attrs)
    }
}

/// First `<` in `s` at or after `i`, or the length.
pub open spec fn next_lt(s: Seq<char>, i: int) -> int
    decreases s.len() - i,
{
    if i < 0 || i >= s.len() {
        s.len() as int
    } else if s[i] == '<' {
        i
    } else {
        next_lt(s, i + 1)
    }
}

/// The state after reading `s[i..]`, inside a tag (read so far: `tag`) or not.
pub open spec fn m_read(m: RenderModel, s: Seq<char>, i: int, in_tag: bool, tag: Seq<char>) -> RenderModel
    decreases s.len() - i,
{
    if i < 0 || i >= s.len() {
        m
    } else if s[i] == '<' {
        m_read(m, s, i + 1, true, if in_tag { tag } else { Seq::empty() })
    } else if s[i] == '>' && in_tag {
        m_read(m_tag(m, tag), s, i + 1, false, Seq::empty())
    } else if in_tag {
        m_read(m, s, i + 1, true, tag.push(s[i]))
    } else {
        let j = next_lt(s, i + 1);
        let text = s.subrange(i, j);
        let m2 = if m.in_pre {
            m_pre_from(m, decoded(text), 0)
        } else if normalized(text).len() > 0 {
            m_add_text(m, normalized(text))
        } else {
            m
        };
        if i < j <= s.len() {
            m_read(m2, s, j, in_tag, tag)
        } else {
            m2
        }
    }
}

proof fn lemma_next_lt(s: Seq<char>, i: int)
    requires
        0 <= i <= s.len(),
    ensures
        i <= next_lt(s, i) <= s.len(),
        forall|k: int| i <= k < next_lt(s, i) ==> s[k] != '<',
        next_lt(s, i) < s.len() ==> s[next_lt(s, i)] == '<',
    decreases s.len() - i,
{
    if i < s.len() && s[i] != '<' {
        lemma_next_lt(s, i + 1);
    }
}

/// The lines without the blank ones that end them.
pub open spec fn trim_trailing(ls: Seq<Seq<(Seq<char>, Style)>>) -> Seq<Seq<(Seq<char>, Style)>>
    decreases ls.len(),
{
    if ls.len() > 0 && ls.last().len() == 0 {
        trim_trailing(ls.drop_last())
    } else {
        ls
    }
}

/// The lines that a state ends in once the document is over.
pub open spec fn m_finish(m: RenderModel) -> Seq<Seq<(Seq<char>, Style)>> {
    trim_trailing(m_flush_line(m).lines)
}

/// The rendering of `html` at width `w`, as lines of texts and styles.
pub open spec fn rendered(html: Seq<char>, w: usize) -> Seq<Seq<(Seq<char>, Style)>> {
    m_finish(m_read(initial_model(w), html, 0, false, Seq::empty()))
}

/// Renderer state, carried across the whole document.
struct HtmlParser {
    style_stack: Vec<Modifier>,
    list_stack: Vec<ListKind>,
    current_spans: Vec<Span>,
    current_text: Vec<char>,
    current_style: Style,
    lines: Vec<Line>,
    last_was_blank: bool,
    in_anchor: bool,
    anchor_work_item_id: Option<u32>,
    in_pre: bool,
    max_width: usize,
    current_line_width: usize,
}

/// Whether the text holds no tag.
pub open spec fn no_tags(s: Seq<char>) -> bool {
    forall|k: int| 0 <= k < s.len() ==> s[k] != '<'
}

/// Whether the text is plain: no tag and no entity.
pub open spec fn plain_text(s: Seq<char>) -> bool {
    forall|k: int| 0 <= k < s.len() ==> s[k] != '<' && s[k] != '&'
}

/// The text of all lines, joined.
pub open spec fn all_text(lines: Seq<Line>) -> Seq<char>
    decreases lines.len(),
{
    if lines.len() == 0 {
        Seq::empty()
    } else {
        all_text(lines.drop_last()) + line_text(lines.last().spans@)
    }
}

/// Spans of white space only hold no text once white space is dropped.
proof fn lemma_blank_spans(spans: Seq<Span>)
    requires
        forall|k: int| 0 <= k < spans.len() ==> all_ws(#[trigger] spans[k].content@),
    ensures
        strip_ws(line_text(spans)) == Seq::<char>::empty(),
    decreases spans.len(),
{
    if spans.len() > 0 {
        assert(all_ws(spans[spans.len() - 1].content@));
        lemma_blank_spans(spans.drop_last());
        lemma_strip_concat(line_text(spans.drop_last()), spans.last().content@);
        lemma_strip_all_ws(spans.last().content@);
        assert(Seq::<char>::empty() + Seq::<char>::empty() =~= Seq::<char>::empty());
    }
}

/// The visible width of a line: its characters up to the last one that is
/// not white space.
pub open spec fn visible_width(l: Line) -> int {
    trim_end_at(line_text(l.spans@))
}

impl HtmlParser {
    /// The state as a `RenderModel`.
    spec fn model(&self) -> RenderModel {
        RenderModel {
            styles: self.style_stack@,
            lists: self.list_stack@,
            spans: spans_view(self.current_spans@),
            text: self.current_text@,
            style: self.current_style,
            lines: lines_view(self.lines@),
            last_blank: self.last_was_blank,
            in_anchor: self.in_anchor,
            anchor_id: self.anchor_work_item_id,
            in_pre: self.in_pre,
            width: self.max_width,
            line_width: self.current_line_width,
        }
    }

    spec fn inv(&self) -> bool {
        &&& collapsed(self.lines@)
        &&& tidy(self.lines@)
        &&& self.last_was_blank == (self.lines@.len() > 0 && blank(self.lines@.last()))
    }

    /// The text of the line being built.
    spec fn cur_text(&self) -> Seq<char> {
        line_text(self.current_spans@) + self.current_text@
    }

    /// Everything read so far, white space dropped.
    spec fn content(&self) -> Seq<char> {
        strip_ws(all_text(self.lines@) + self.cur_text())
    }

    /// Outside any list, every line so far and the one being built fit the
    /// width, and the width count is exact.
    spec fn fits(&self) -> bool {
        &&& self.list_stack@.len() == 0
        &&& self.max_width > 0
        &&& forall|i: int|
            0 <= i < self.lines@.len() ==> visible_width(#[trigger] self.lines@[i]) <= self.max_width
        &&& trim_end_at(self.cur_text()) <= self.max_width
        &&& self.current_line_width == self.cur_text().len()
    }

    /// Only the line being built and the lines differ.
    spec fn same_context(&self, o: &HtmlParser) -> bool {
        &&& self.style_stack == o.style_stack
        &&& self.list_stack == o.list_stack
        &&& self.current_style == o.current_style
        &&& self.in_anchor == o.in_anchor
        &&& self.anchor_work_item_id == o.anchor_work_item_id
        &&& self.in_pre == o.in_pre
        &&& self.max_width == o.max_width
    }

    /// `self` is `o` with its line ended: a white-space line becomes one blank
    /// line unless a blank line (or nothing) precedes it; any other line is
    /// kept behind the list indent; the next line starts empty.
    spec fn flushed_from(&self, o: &HtmlParser) -> bool {
        &&& self.same_context(o)
        &&& self.lines_flushed(o)
        &&& self.line_empty()
    }

    /// The line being built is empty.
    spec fn line_empty(&self) -> bool {
        &&& self.cur_text().len() == 0
        &&& self.current_spans@.len() == 0
        &&& self.current_text@.len() == 0
        &&& self.current_line_width == 0
    }

    /// The lines are those of `o` followed by what ending `o`'s line adds.
    spec fn lines_flushed(&self, o: &HtmlParser) -> bool {
        &&& self.lines@.len() >= o.lines@.len()
        &&& self.lines@.take(o.lines@.len() as int) == o.lines@
        &&& all_ws(o.cur_text()) ==> self.lines@.len() == o.lines@.len() + (if !o.last_was_blank
            && o.lines@.len() > 0 {
            1int
        } else {
            0int
        })
        &&& all_ws(o.cur_text()) && self.lines@.len() > o.lines@.len() ==> self.lines@.last().spans@.len() == 0
        &&& !all_ws(o.cur_text()) ==> self.lines@.len() == o.lines@.len() + 1 && line_text(
            self.lines@.last().spans@,
        ) == indent_text(o.list_stack@.len()) + o.cur_text()
    }

    /// The width of the list indent.
    spec fn indent(&self) -> usize {
        if self.list_stack@.len() <= usize::MAX / 2 {
            (self.list_stack@.len() * 2) as usize
        } else {
            usize::MAX
        }
    }

    /// The width left for text beside the indent.
    spec fn room(&self) -> int {
        if self.max_width >= self.indent() {
            self.max_width - self.indent()
        } else {
            0
        }
    }

    /// Whether `w` more characters stay on the line being built.
    spec fn keeps_line(&self, w: int) -> bool {
        self.max_width == 0 || self.current_line_width == 0 || self.current_line_width + w <= self.room()
    }

    /// Nothing has been read yet.
    spec fn fresh(&self) -> bool {
        &&& self.lines@.len() == 0
        &&& self.current_spans@.len() == 0
        &&& self.current_text@.len() == 0
        &&& self.current_line_width == 0
        &&& self.list_stack@.len() == 0
        &&& !self.in_pre
    }

    fn new(max_width: usize) -> (r: HtmlParser)
        ensures
            r.inv(),
            r.fresh(),
            r.max_width == max_width,
            r.model() == initial_model(max_width),
    {
        let p = HtmlParser {
            style_stack: Vec::new(),
            list_stack: Vec::new(),
            current_spans: Vec::new(),
            current_text: Vec::new(),
            current_style: Style::plain(),
            lines: Vec::new(),
            last_was_blank: false,
            in_anchor: false,
            anchor_work_item_id: None,
            in_pre: false,
            max_width,
            current_line_width: 0,
        };
        assert(spans_view(p.current_spans@) =~= Seq::<(Seq<char>, Style)>::empty());
        assert(lines_view(p.lines@) =~= Seq::<Seq<(Seq<char>, Style)>>::empty());
        p
    }

    /// The style that the open tags call for.
    fn compute_style(&self) -> (r: Style)
        ensures
            r == style_of(self.style_stack@, self.in_anchor),
    {
        let mut style = Style::plain();
        let mut i: usize = 0;
        while i < self.style_stack.len()
            invariant
                i <= self.style_stack@.len(),
                style.fg is None,
                style.bold == holds(self.style_stack@.take(i as int), Modifier::Bold),
                style.underlined == holds(self.style_stack@.take(i as int), Modifier::Underlined),
                style.crossed_out == holds(self.style_stack@.take(i as int), Modifier::CrossedOut),
            decreases self.style_stack@.len() - i,
        {
            assert(self.style_stack@.take(i + 1).drop_last() =~= self.style_stack@.take(i as int));
            assert(self.style_stack@.take(i + 1).last() == self.style_stack@[i as int]);
            match self.style_stack[i] {
                Modifier::Bold => style.bold = true,
                Modifier::Underlined => style.underlined = true,
                Modifier::CrossedOut => style.crossed_out = true,
            }
            i = i + 1;
        }
        assert(self.style_stack@.take(i as int) =~= self.style_stack@);
        if self.in_anchor {
            style = style.with_fg(Color::Cyan);
        }
        style
    }

    /// Moves the pending text into a span.
    fn flush_text(&mut self)
        requires
            old(self).inv(),
        ensures
            final(self).inv(),
            final(self).lines == old(self).lines,
            final(self).current_text@.len() == 0,
            final(self).max_width == old(self).max_width,
            final(self).current_line_width == old(self).current_line_width,
            final(self).cur_text() == old(self).cur_text(),
            final(self).list_stack == old(self).list_stack,
            final(self).in_pre == old(self).in_pre,
            final(self).same_context(old(self)),
            final(self).last_was_blank == old(self).last_was_blank,
            final(self).current_spans@.len() == old(self).current_spans@.len() + (if old(self).current_text@.len() > 0 {
                1int
            } else {
                0int
            }),
            final(self).model() == m_flush_text(old(self).model()),
    {
        if self.current_text.len() > 0 {
            let content = string_of(&self.current_text);
            let ghost spans = self.current_spans@;
            self.current_spans.push(Span { content, style: self.current_style });
            assert(self.current_spans@.drop_last() =~= spans);
            assert(spans_view(self.current_spans@) =~= spans_view(spans).push(
                (old(self).current_text@, self.current_style),
            ));
            self.current_text = Vec::new();
            assert(self.current_text@ =~= Seq::<char>::empty());
        }
        assert(self.cur_text() =~= old(self).cur_text());
    }

    /// The indent of the current list depth.
    fn indent_width(&self) -> (r: usize)
        ensures
            r == self.indent(),
    {
        let depth = self.list_stack.len();
        if depth <= usize::MAX / 2 {
            depth * 2
        } else {
            usize::MAX
        }
    }

    /// Ends the current line: a blank one only when the previous line is not
    /// blank, else the spans behind the list indent.
    fn flush_line(&mut self)
        requires
            old(self).inv(),
        ensures
            final(self).inv(),
            final(self).current_text@.len() == 0,
            final(self).current_spans@.len() == 0,
            final(self).current_line_width == 0,
            final(self).max_width == old(self).max_width,
            final(self).list_stack == old(self).list_stack,
            final(self).in_pre == old(self).in_pre,
            old(self).fits() ==> final(self).fits(),
            old(self).list_stack@.len() == 0 ==> final(self).content() == old(self).content(),
            final(self).flushed_from(old(self)),
            final(self).model() == m_flush_line(old(self).model()),
    {
        self.flush_text();
        let ghost f = self.model();
        let ghost lines0 = self.lines@;
        proof {
            lemma_texts(self.current_spans@);
        }
        assert(self.content() == old(self).content());
        let ghost text = self.cur_text();
        assert(text =~= line_text(self.current_spans@));
        let mut is_blank = true;
        let mut i: usize = 0;
        while i < self.current_spans.len()
            invariant
                i <= self.current_spans@.len(),
                is_blank == forall|k: int| 0 <= k < i ==> all_ws(
                    #[trigger] self.current_spans@[k].content@,
                ),
            decreases self.current_spans@.len() - i,
        {
            if !is_blank_text(self.current_spans[i].content.as_str()) {
                is_blank = false;
            }
            i = i + 1;
        }
        proof {
            lemma_line_text_ws(self.current_spans@);
            assert(is_blank == all_ws(text));
        }
        if is_blank {
            if !self.last_was_blank && self.lines.len() > 0 {
                let empty_line = Line { spans: Vec::new() };
                assert(spans_view(empty_line.spans@) =~= Seq::<(Seq<char>, Style)>::empty());
                self.lines.push(empty_line);
                self.last_was_blank = true;
                proof {
                    assert(lines_view(self.lines@) =~= f.lines.push(Seq::empty()));
                    let l = self.lines@.last();
                    assert(line_text(l.spans@) =~= Seq::<char>::empty());
                    assert(self.lines@.drop_last() =~= lines0);
                    assert(all_text(self.lines@) =~= all_text(lines0));
                }
            }
            proof {
                lemma_blank_spans(self.current_spans@);
                lemma_strip_concat(all_text(lines0), text);
                assert(strip_ws(all_text(lines0)) + Seq::<char>::empty() =~= strip_ws(all_text(lines0)));
                assert(all_text(self.lines@) + Seq::<char>::empty() =~= all_text(self.lines@));
            }
        } else {
            let ghost cur_spans = self.current_spans@;
            let mut spans: Vec<Span> = Vec::new();
            let depth = self.list_stack.len();
            if depth > 0 {
                let mut indent = String::new();
                let mut d: usize = 0;
                while d < depth
                    invariant
                        d <= depth,
                        indent@ == indent_text(d as nat),
                    decreases depth - d,
                {
                    push_char(&mut indent, ' ');
                    push_char(&mut indent, ' ');
                    d = d + 1;
                }
                spans.push(Span { content: indent, style: Style::plain() });
                proof {
                    assert(spans@.drop_last() =~= Seq::<Span>::empty());
                    assert(Seq::<char>::empty() + indent_text(depth as nat) =~= indent_text(depth as nat));
                }
            } else {
                assert(line_text(spans@) =~= indent_text(0));
            }
            let ghost prefix = spans@;
            let mut rest: Vec<Span> = Vec::new();
            std::mem::swap(&mut rest, &mut self.current_spans);
            spans.append(&mut rest);
            proof {
                if depth == 0 {
                    assert(spans@ =~= cur_spans);
                }
                assert(spans@ =~= prefix + cur_spans);
                lemma_line_text_concat(prefix, cur_spans);
                lemma_all_ws_concat(line_text(prefix), text);
            }
            proof {
                assert(spans_view(prefix) =~= indent_spans(depth as nat));
                assert(spans_view(spans@) =~= spans_view(prefix) + spans_view(cur_spans));
            }
            let new_line = Line { spans };
            self.lines.push(new_line);
            self.last_was_blank = false;
            proof {
                assert(lines_view(self.lines@) =~= f.lines.push(indent_spans(f.lists.len()) + f.spans));
                assert(self.lines@.drop_last() =~= lines0);
                if depth == 0 {
                    assert(all_text(self.lines@) == all_text(lines0) + text);
                }
            }
        }
        self.current_spans = Vec::new();
        self.current_line_width = 0;
        proof {
            assert(self.cur_text() =~= Seq::<char>::empty());
            assert(all_text(self.lines@) + self.cur_text() =~= all_text(self.lines@));
            assert(self.lines@.take(lines0.len() as int) =~= lines0);
            assert(spans_view(self.current_spans@) =~= Seq::<(Seq<char>, Style)>::empty());
        }
    }

    /// Adds one word (its white space included), wrapping first when it does
    /// not fit the rest of the line.
    /// Appends characters to the pending text.
    fn append_word(&mut self, word: &Vec<char>)
        requires
            old(self).inv(),
        ensures
            final(self).inv(),
            final(self).lines == old(self).lines,
            final(self).last_was_blank == old(self).last_was_blank,
            final(self).same_context(old(self)),
            final(self).current_spans == old(self).current_spans,
            final(self).current_text@ == old(self).current_text@ + word@,
            final(self).current_line_width == old(self).current_line_width,
    {
        let mut i: usize = 0;
        while i < word.len()
            invariant
                self.inv(),
                self.lines == old(self).lines,
                self.last_was_blank == old(self).last_was_blank,
                self.same_context(old(self)),
                self.current_spans == old(self).current_spans,
                self.current_text@ == old(self).current_text@ + word@.take(i as int),
                self.current_line_width == old(self).current_line_width,
                i <= word@.len(),
            decreases word@.len() - i,
        {
            self.current_text.push(word[i]);
            assert(word@.take(i + 1) =~= word@.take(i as int).push(word@[i as int]));
            assert(self.current_text@ =~= old(self).current_text@ + word@.take(i + 1));
            i = i + 1;
        }
        assert(word@.take(i as int) =~= word@);
    }

    #[verifier::rlimit(40)]
    fn add_word(&mut self, word: &Vec<char>)
        requires
            old(self).inv(),
        ensures
            final(self).inv(),
            final(self).max_width == old(self).max_width,
            final(self).list_stack == old(self).list_stack,
            final(self).in_pre == old(self).in_pre,
            old(self).fits() && trim_end_at(word@) <= old(self).max_width ==> final(self).fits(),
            old(self).list_stack@.len() == 0 ==> final(self).content() == old(self).content()
                + strip_ws(word@),
            old(self).max_width == 0 ==> final(self).lines == old(self).lines,
            old(self).keeps_line(word@.len() as int) ==> final(self).lines == old(self).lines
                && final(self).cur_text() == old(self).cur_text() + word@,
            old(self).keeps_line(word@.len() as int) && old(self).current_line_width + word@.len()
                <= usize::MAX ==> final(self).current_line_width == old(self).current_line_width
                + word@.len(),
            final(self).style_stack == old(self).style_stack,
            final(self).model() == m_add_word(old(self).model(), word@),
    {
        let word_width = word.len();
        let indent = self.indent_width();
        let effective_max = if self.max_width >= indent {
            self.max_width - indent
        } else {
            0
        };
        if self.max_width > 0 && self.current_line_width > 0 && (word_width > effective_max
            || self.current_line_width > effective_max - word_width) {
            self.flush_line();
        }
        let ghost g = self.model();
        proof {
            assert(g == if old(self).model().width > 0 && old(self).model().line_width > 0
                && old(self).model().line_width + word@.len() > m_room(old(self).model()) {
                m_flush_line(old(self).model())
            } else {
                old(self).model()
            });
        }
        let ghost base = self.cur_text();
        let ghost c0 = self.content();
        let ghost fitting = old(self).fits() && trim_end_at(word@) <= old(self).max_width;
        proof {
            if fitting {
                lemma_trim_end_le(base + word@);
            }
        }
        self.append_word(word);
        proof {
            let l = line_text(self.current_spans@);
            assert(self.cur_text() =~= base + word@);
            assert(self.model() == (RenderModel { text: g.text + word@, ..g }));
        }
        proof {
            if fitting && base.len() == 0 {
                assert(base + word@ =~= word@);
            }
            let at = all_text(self.lines@);
            assert(at + (base + word@) =~= (at + base) + word@);
            lemma_strip_concat(at + base, word@);
        }
        self.current_line_width = if word_width > usize::MAX - self.current_line_width {
            usize::MAX
        } else {
            self.current_line_width + word_width
        };
    }

    /// Adds text, decoding entities and wrapping at white space.
    #[verifier::rlimit(60)]
    fn add_text(&mut self, text: &Vec<char>)
        requires
            old(self).inv(),
        ensures
            final(self).inv(),
            final(self).max_width == old(self).max_width,
            final(self).list_stack == old(self).list_stack,
            final(self).in_pre == old(self).in_pre,
            old(self).fits() && max_run(decoded(text@)) <= old(self).max_width ==> final(self).fits(),
            old(self).list_stack@.len() == 0 && no_amp(text@) ==> final(self).content() == old(
                self,
            ).content() + strip_ws(text@),
            old(self).max_width == 0 ==> final(self).lines == old(self).lines,
            old(self).max_width == 0 || old(self).current_line_width + decoded(text@).len() <= old(
                self,
            ).room() ==> final(self).lines == old(self).lines && final(self).cur_text() == old(
                self,
            ).cur_text() + decoded(text@),
            final(self).style_stack == old(self).style_stack,
            final(self).model() == m_add_text(old(self).model(), text@),
    {
        let dec = decode_chars(text);
        let ghost unbroken = old(self).max_width == 0 || old(self).current_line_width + decoded(
            text@,
        ).len() <= old(self).room();
        let ghost keeping = old(self).list_stack@.len() == 0 && no_amp(text@);
        let ghost fitting = old(self).fits() && max_run(decoded(text@)) <= old(self).max_width;
        let mut word: Vec<char> = Vec::new();
        let mut i: usize = 0;
        while i < dec.len()
            invariant
                self.inv(),
                self.max_width == old(self).max_width,
                self.list_stack == old(self).list_stack,
                self.in_pre == old(self).in_pre,
                i <= dec@.len(),
                dec@ == decoded(text@),
                fitting ==> self.fits(),
                fitting ==> word@.len() == tail_run(dec@.take(i as int)),
                word@.len() == 0 || !is_ws(word@.last()),
                fitting ==> max_run(dec@) <= self.max_width,
                keeping == (old(self).list_stack@.len() == 0 && no_amp(text@)),
                old(self).max_width == 0 ==> self.lines == old(self).lines,
                unbroken == (old(self).max_width == 0 || old(self).current_line_width + dec@.len()
                    <= old(self).room()),
                self.style_stack == old(self).style_stack,
                m_words_from(self.model(), dec@, i as int, word@) == m_add_text(old(self).model(), text@),
                unbroken ==> self.lines == old(self).lines && self.cur_text() + word@ == old(
                    self,
                ).cur_text() + dec@.take(i as int),
                unbroken && old(self).max_width > 0 ==> self.current_line_width + word@.len()
                    == old(self).current_line_width + i,
                keeping ==> dec@ == text@,
                keeping ==> self.content() + strip_ws(word@) == old(self).content() + strip_ws(
                    dec@.take(i as int),
                ),
            decreases dec@.len() - i,
        {
            let c = dec[i];
            proof {
                assert(dec@.take(i + 1).drop_last() =~= dec@.take(i as int));
                if fitting {
                    lemma_max_run_prefix(dec@, i as int);
                    lemma_max_run_prefix(dec@, i + 1);
                }
            }
            let ghost before = word@;
            let ghost mb = self.model();
            assert(m_words_from(mb, dec@, i as int, before) == if is_ws(c) {
                m_words_from(m_add_word(mb, before.push(c)), dec@, i + 1, Seq::empty())
            } else {
                m_words_from(mb, dec@, i + 1, before.push(c))
            });
            word.push(c);
            proof {
                assert(dec@.take(i + 1).last() == c);
                let ct0 = self.cur_text();
                assert(ct0 + word@ =~= (ct0 + before).push(c));
                assert(dec@.take(i + 1) =~= dec@.take(i as int).push(c));
                assert(old(self).cur_text() + dec@.take(i as int).push(c) =~= (old(self).cur_text()
                    + dec@.take(i as int)).push(c));
                if keeping {
                    lemma_strip_concat(before, seq![c]);
                    lemma_strip_concat(dec@.take(i as int), seq![c]);
                    assert(word@ =~= before + seq![c]);
                    assert(dec@.take(i + 1) =~= dec@.take(i as int) + seq![c]);
                    assert(old(self).content() + (strip_ws(dec@.take(i as int)) + strip_ws(seq![c]))
                        =~= (old(self).content() + strip_ws(dec@.take(i as int))) + strip_ws(seq![c]));
                    assert(self.content() + (strip_ws(before) + strip_ws(seq![c])) =~= (self.content()
                        + strip_ws(before)) + strip_ws(seq![c]));
                    assert(self.content() + strip_ws(word@) == old(self).content() + strip_ws(
                        dec@.take(i + 1),
                    ));
                }
                assert(word@.drop_last() =~= before);
                assert(word@.last() == c);
                if fitting {
                    if !is_ws(c) {
                        assert(tail_run(dec@.take(i + 1)) == tail_run(dec@.take(i as int)) + 1);
                    } else {
                        assert(trim_end_at(word@) == trim_end_at(before));
                        assert(trim_end_at(before) == before.len());
                        assert(before.len() <= self.max_width);
                    }
                }
            }
            if is_whitespace(c) {
                let ghost cw = word@;
                let ghost cc = self.content();
                let ghost ct = self.cur_text();
                self.add_word(&word);
                word = Vec::new();
                assert(word@ =~= Seq::<char>::empty());
                proof {
                    assert(strip_ws(word@) =~= Seq::<char>::empty());
                    assert(self.content() + strip_ws(word@) =~= self.content());
                    if keeping {
                        assert(self.content() == cc + strip_ws(cw));
                    }
                }
            }
            i = i + 1;
        }
        assert(dec@.take(i as int) =~= dec@);
        let ghost ct = self.cur_text();
        if word.len() > 0 {
            proof {
                if fitting {
                    lemma_max_run_prefix(dec@, i as int);
                }
            }
            self.add_word(&word);
        } else {
            proof {
                assert(strip_ws(word@) =~= Seq::<char>::empty());
                assert(self.content() + strip_ws(word@) =~= self.content());
            }
        }
    }

    /// Adds preformatted text: white space kept, no wrapping, a line per newline.
    fn add_pre_text(&mut self, text: &Vec<char>)
        requires
            old(self).inv(),
        ensures
            final(self).inv(),
            final(self).max_width == old(self).max_width,
            final(self).model() == m_pre_from(old(self).model(), decoded(text@), 0),
    {
        let decoded = decode_chars(text);
        let mut i: usize = 0;
        while i < decoded.len()
            invariant
                self.inv(),
                self.max_width == old(self).max_width,
                i <= decoded@.len(),
                decoded@ == crate::html::decoded(text@),
                m_pre_from(self.model(), decoded@, i as int) == m_pre_from(
                    old(self).model(),
                    decoded@,
                    0,
                ),
            decreases decoded@.len() - i,
        {
            let c = decoded[i];
            let ghost mb = self.model();
            if c == '\n' {
                self.flush_line();
            } else {
                self.current_text.push(c);
                self.current_line_width = if self.current_line_width < usize::MAX {
                    self.current_line_width + 1
                } else {
                    usize::MAX
                };
                assert(self.model() == (RenderModel {
                    text: mb.text.push(c),
                    line_width: sat_add(mb.line_width, 1),
                    ..mb
                }));
            }
            i = i + 1;
        }
    }

    /// The line being built holds something.
    spec fn started(&self) -> bool {
        self.current_spans@.len() > 0 || self.current_text@.len() > 0
    }

    /// Only the style stack (now `stack`) and the current style changed.
    spec fn restyled(&self, o: &HtmlParser, stack: Seq<Modifier>) -> bool {
        &&& self.style_stack@ == stack
        &&& self.lines == o.lines
        &&& self.last_was_blank == o.last_was_blank
        &&& self.cur_text() == o.cur_text()
        &&& self.list_stack == o.list_stack
        &&& self.in_anchor == o.in_anchor
        &&& self.anchor_work_item_id == o.anchor_work_item_id
        &&& self.in_pre == o.in_pre
        &&& self.max_width == o.max_width
        &&& self.current_line_width == o.current_line_width
    }

    /// What an opening tag named `t` (lower case) with attributes `attrs`
    /// does to the state `o`.
    spec fn opened(&self, o: &HtmlParser, t: Seq<char>, attrs: Seq<char>) -> bool {
        if t == "br"@ {
            self.flushed_from(o)
        } else if t == "p"@ || t == "div"@ || t == "h4"@ || t == "h5"@ || t == "h6"@ {
            if o.started() {
                self.flushed_from(o)
            } else {
                *self == *o
            }
        } else if t == "h1"@ || t == "h2"@ || t == "h3"@ {
            &&& self.style_stack@ == o.style_stack@.push(Modifier::Bold)
            &&& self.list_stack == o.list_stack
            &&& self.line_empty()
            &&& self.lines@.take(o.lines@.len() as int) == o.lines@
            &&& self.lines@.len() >= o.lines@.len()
            &&& self.lines@.len() > 0 ==> blank(self.lines@.last())
        } else if t == "b"@ || t == "strong"@ {
            self.restyled(o, o.style_stack@.push(Modifier::Bold))
        } else if t == "u"@ {
            self.restyled(o, o.style_stack@.push(Modifier::Underlined))
        } else if t == "s"@ || t == "strike"@ || t == "del"@ {
            self.restyled(o, o.style_stack@.push(Modifier::CrossedOut))
        } else if t == "a"@ {
            &&& self.in_anchor
            &&& self.anchor_work_item_id == link_work_item_id(attrs)
            &&& self.lines == o.lines
            &&& self.cur_text() == o.cur_text()
            &&& self.style_stack == o.style_stack
            &&& self.list_stack == o.list_stack
        } else if t == "ul"@ || t == "ol"@ {
            &&& self.list_stack@ == o.list_stack@.push(
                if t == "ul"@ {
                    ListKind::Unordered
                } else {
                    ListKind::Ordered(0)
                },
            )
            &&& self.lines_flushed(o)
            &&& self.line_empty()
            &&& self.style_stack == o.style_stack
        } else if t == "li"@ {
            &&& self.lines_flushed(o)
            &&& self.cur_text() == item_prefix(top(o.list_stack@))
            &&& self.current_line_width == item_prefix(top(o.list_stack@)).len()
            &&& self.list_stack@ == after_item(o.list_stack@)
            &&& self.style_stack == o.style_stack
        } else if t == "img"@ {
            &&& self.cur_text() == o.cur_text() + "[image]"@
            &&& self.lines == o.lines
            &&& self.style_stack == o.style_stack
            &&& self.list_stack == o.list_stack
        } else if t == "table"@ || t == "tbody"@ || t == "tr"@ {
            self.flushed_from(o)
        } else if t == "td"@ || t == "th"@ {
            if o.started() {
                self.list_stack == o.list_stack && self.model() == m_add_text(
                    o.model(),
                    seq![' ', '|', ' '],
                )
            } else {
                *self == *o
            }
        } else if t == "code"@ || t == "pre"@ {
            &&& self.lines == o.lines
            &&& self.cur_text() == o.cur_text()
            &&& self.style_stack == o.style_stack
            &&& self.list_stack == o.list_stack
            &&& self.current_style.fg == Some(Color::Yellow)
            &&& self.in_pre == (t == "pre"@ || o.in_pre)
        } else {
            *self == *o
        }
    }

    /// What a closing tag named `t` (lower case) does to the state `o`.
    spec fn closed(&self, o: &HtmlParser, t: Seq<char>) -> bool {
        if t == "p"@ || t == "div"@ || t == "h4"@ || t == "h5"@ || t == "h6"@ {
            self.flushed_from(o)
        } else if t == "h1"@ || t == "h2"@ || t == "h3"@ {
            &&& self.style_stack@ == popped(o.style_stack@)
            &&& self.lines_flushed(o)
            &&& self.line_empty()
            &&& self.list_stack == o.list_stack
        } else if t == "b"@ || t == "strong"@ || t == "u"@ || t == "s"@ || t == "strike"@ || t
            == "del"@ {
            self.restyled(o, popped(o.style_stack@))
        } else if t == "a"@ {
            &&& !self.in_anchor
            &&& self.anchor_work_item_id is None
            &&& self.lines == o.lines
            &&& self.style_stack == o.style_stack
            &&& self.list_stack == o.list_stack
            &&& self.cur_text() == match o.anchor_work_item_id {
                Some(id) => o.cur_text() + ("#"@ + decimal(id as nat)),
                None => o.cur_text(),
            }
            &&& o.anchor_work_item_id is Some ==> self.current_spans@.last().style.fg == Some(
                Color::Cyan,
            )
        } else if t == "ul"@ || t == "ol"@ {
            &&& self.list_stack@ == popped(o.list_stack@)
            &&& self.lines_flushed(o)
            &&& self.line_empty()
            &&& self.style_stack == o.style_stack
        } else if t == "tr"@ || t == "table"@ {
            self.flushed_from(o)
        } else if t == "code"@ || t == "pre"@ {
            &&& self.lines == o.lines
            &&& self.cur_text() == o.cur_text()
            &&& self.style_stack == o.style_stack
            &&& self.list_stack == o.list_stack
            &&& self.in_pre == (t != "pre"@ && o.in_pre)
        } else {
            *self == *o
        }
    }

    /// Pushes a style modifier.
    fn push_modifier(&mut self, m: Modifier)
        requires
            old(self).inv(),
        ensures
            final(self).inv(),
            final(self).restyled(old(self), old(self).style_stack@.push(m)),
            final(self).model() == m_push(old(self).model(), m),
            final(self).current_text@.len() == 0,
            old(self).current_text@.len() == 0 ==> final(self).current_spans@.len() == old(self).current_spans@.len(),
    {
        self.flush_text();
        self.style_stack.push(m);
        self.current_style = self.compute_style();
    }

    /// Pops a style modifier; an unbalanced close tag pops nothing.
    fn pop_modifier(&mut self)
        requires
            old(self).inv(),
        ensures
            final(self).inv(),
            final(self).restyled(old(self), popped(old(self).style_stack@)),
            final(self).model() == m_pop(old(self).model()),
            final(self).current_text@.len() == 0,
            old(self).current_text@.len() == 0 ==> final(self).current_spans@.len() == old(self).current_spans@.len(),
    {
        self.flush_text();
        self.style_stack.pop();
        self.current_style = self.compute_style();
    }

    /// Whether the line being built holds anything.
    fn line_started(&self) -> (r: bool)
        ensures
            r == self.started(),
    {
        self.current_spans.len() > 0 || self.current_text.len() > 0
    }

    /// Appends a span to the line being built.
    fn push_span(&mut self, content: String, style: Style)
        requires
            old(self).inv(),
            old(self).current_text@.len() == 0,
        ensures
            final(self).inv(),
            final(self).cur_text() == old(self).cur_text() + content@,
            final(self).current_spans@.last().style == style,
            final(self).lines == old(self).lines,
            final(self).same_context(old(self)),
            final(self).last_was_blank == old(self).last_was_blank,
            final(self).current_line_width == old(self).current_line_width,
            final(self).model() == (RenderModel {
                spans: old(self).model().spans.push((content@, style)),
                ..old(self).model()
            }),
    {
        let ghost spans = self.current_spans@;
        self.current_spans.push(Span { content, style });
        assert(self.current_spans@.drop_last() =~= spans);
        assert(spans_view(self.current_spans@) =~= spans_view(spans).push((content@, style)));
        assert(self.cur_text() =~= old(self).cur_text() + content@);
    }

    fn handle_open_tag(&mut self, tag: &Vec<char>, attrs: &Vec<char>)
        requires
            old(self).inv(),
        ensures
            final(self).inv(),
            final(self).max_width == old(self).max_width,
            final(self).opened(old(self), ascii_lower(tag@), attrs@),
            final(self).model() == m_open(old(self).model(), ascii_lower(tag@), attrs@),
    {
        let t = ascii_lower_chars(tag);
        if same_chars(&t, "br") {
            self.flush_line();
        } else if same_chars(&t, "p") || same_chars(&t, "div") || same_chars(&t, "h4")
            || same_chars(&t, "h5") || same_chars(&t, "h6") {
            if self.line_started() {
                self.flush_line();
            }
        } else if same_chars(&t, "h1") || same_chars(&t, "h2") || same_chars(&t, "h3") {
            self.flush_line();
            if self.lines.len() > 0 && !self.last_was_blank {
                let ghost before = self.lines@;
                let empty_line = Line { spans: Vec::new() };
                assert(spans_view(empty_line.spans@) =~= Seq::<(Seq<char>, Style)>::empty());
                self.lines.push(empty_line);
                assert(lines_view(self.lines@) =~= lines_view(before).push(Seq::empty()));
                self.last_was_blank = true;
                proof {
                    assert(line_text(self.lines@.last().spans@) =~= Seq::<char>::empty());
                    assert(self.lines@.drop_last() =~= before);
                }
            }
            let ghost mid = self.lines@;
            self.push_modifier(Modifier::Bold);
            proof {
                assert(self.lines@ == mid);
                assert(self.lines@.take(old(self).lines@.len() as int) =~= old(self).lines@);
            }
        } else if same_chars(&t, "b") || same_chars(&t, "strong") {
            self.push_modifier(Modifier::Bold);
        } else if same_chars(&t, "u") {
            self.push_modifier(Modifier::Underlined);
        } else if same_chars(&t, "s") || same_chars(&t, "strike") || same_chars(&t, "del") {
            self.push_modifier(Modifier::CrossedOut);
        } else if same_chars(&t, "a") {
            self.flush_text();
            self.in_anchor = true;
            let a = string_of(attrs);
            self.anchor_work_item_id = extract_work_item_id(a.as_str());
            self.current_style = self.compute_style();
        } else if same_chars(&t, "ul") {
            self.flush_line();
            self.list_stack.push(ListKind::Unordered);
        } else if same_chars(&t, "ol") {
            self.flush_line();
            self.list_stack.push(ListKind::Ordered(0));
        } else if same_chars(&t, "li") {
            self.flush_line();
            let ghost stack = self.list_stack@;
            let mut prefix = String::new();
            match self.list_stack.pop() {
                Some(ListKind::Ordered(n)) => {
                    let next = if n < usize::MAX {
                        n + 1
                    } else {
                        n
                    };
                    self.list_stack.push(ListKind::Ordered(next));
                    assert(self.list_stack@ =~= after_item(stack));
                    push_decimal(&mut prefix, next as u64);
                    prefix.append(". ");
                },
                Some(ListKind::Unordered) => {
                    self.list_stack.push(ListKind::Unordered);
                    prefix.append("• ");
                    assert(self.list_stack@ =~= stack);
                },
                None => {
                    prefix.append("• ");
                    assert(self.list_stack@ =~= after_item(stack));
                },
            }
            assert(prefix@ == item_prefix(top(stack)));
            let width = prefix.as_str().unicode_len();
            self.push_span(prefix, Style::plain());
            self.current_line_width = width;
        } else if same_chars(&t, "img") {
            self.flush_text();
            self.push_span("[image]".to_string(), Style::plain().with_fg(Color::DarkGray));
        } else if same_chars(&t, "table") || same_chars(&t, "tbody") || same_chars(&t, "tr") {
            self.flush_line();
        } else if same_chars(&t, "td") || same_chars(&t, "th") {
            if self.line_started() {
                let sep = vec![' ', '|', ' '];
                assert(sep@ =~= seq![' ', '|', ' ']);
                self.add_text(&sep);
            }
        } else if same_chars(&t, "code") || same_chars(&t, "pre") {
            self.flush_text();
            if same_chars(&t, "pre") {
                self.in_pre = true;
            }
            self.current_style = self.compute_style().with_fg(Color::Yellow);
        }
    }

    fn handle_close_tag(&mut self, tag: &Vec<char>)
        requires
            old(self).inv(),
        ensures
            final(self).inv(),
            final(self).max_width == old(self).max_width,
            final(self).closed(old(self), ascii_lower(tag@)),
            final(self).model() == m_close(old(self).model(), ascii_lower(tag@)),
    {
        let t = ascii_lower_chars(tag);
        if same_chars(&t, "p") || same_chars(&t, "div") || same_chars(&t, "h4") || same_chars(
            &t,
            "h5",
        ) || same_chars(&t, "h6") {
            self.flush_line();
        } else if same_chars(&t, "h1") || same_chars(&t, "h2") || same_chars(&t, "h3") {
            self.pop_modifier();
            self.flush_line();
        } else if same_chars(&t, "b") || same_chars(&t, "strong") || same_chars(&t, "u")
            || same_chars(&t, "s") || same_chars(&t, "strike") || same_chars(&t, "del") {
            self.pop_modifier();
        } else if same_chars(&t, "a") {
            if let Some(id) = self.anchor_work_item_id {
                self.flush_text();
                let mut reference = "#".to_string();
                push_decimal(&mut reference, id as u64);
                self.push_span(reference, Style::plain().with_fg(Color::Cyan));
            }
            self.anchor_work_item_id = None;
            self.in_anchor = false;
            self.current_style = self.compute_style();
        } else if same_chars(&t, "ul") || same_chars(&t, "ol") {
            self.flush_line();
            self.list_stack.pop();
        } else if same_chars(&t, "tr") || same_chars(&t, "table") {
            self.flush_line();
        } else if same_chars(&t, "code") || same_chars(&t, "pre") {
            self.flush_text();
            if same_chars(&t, "pre") {
                self.in_pre = false;
            }
            self.current_style = self.compute_style();
        }
    }

    /// Handles the text between `<` and `>`.
    fn process_tag(&mut self, content: &Vec<char>)
        requires
            old(self).inv(),
        ensures
            final(self).inv(),
            final(self).max_width == old(self).max_width,
            tag_parts(content@).0 ==> final(self).closed(old(self), ascii_lower(tag_parts(content@).1)),
            !tag_parts(content@).0 ==> final(self).opened(
                old(self),
                ascii_lower(tag_parts(content@).1),
                tag_parts(content@).2,
            ),
            final(self).model() == m_tag(old(self).model(), content@),
    {
        let (a, b) = trim_bounds(content, 0, content.len());
        if a < b && content[a] == '/' {
            let (na, nb) = trim_bounds(content, a + 1, b);
            let end = ws_from(content, na, nb);
            let tag = slice_chars(content, na, end);
            self.handle_close_tag(&tag);
        } else {
            let (sa, sb) = if a < b && content[b - 1] == '/' {
                trim_bounds(content, a, b - 1)
            } else {
                (a, b)
            };
            let end = ws_from(content, sa, sb);
            let tag = slice_chars(content, sa, end);
            let attrs = if end < sb {
                slice_chars(content, end + 1, sb)
            } else {
                Vec::new()
            };
            self.handle_open_tag(&tag, &attrs);
        }
    }

    /// Renders a whole document.
    fn parse(&mut self, html: &str) -> (r: Vec<Line>)
        requires
            old(self).inv(),
        ensures
            collapsed(r@),
            r@.len() > 0 ==> !blank(r@.last()),
            old(self).fresh() && old(self).max_width > 0 && no_tags(html@) && max_run(
                decoded(normalized(html@)),
            ) <= old(self).max_width ==> forall|i: int|
                0 <= i < r@.len() ==> visible_width(#[trigger] r@[i]) <= old(self).max_width,
            old(self).fresh() && plain_text(html@) ==> strip_ws(all_text(r@)) == strip_ws(html@),
            old(self).fresh() && old(self).max_width == 0 && no_tags(html@) ==> r@.len() <= 1,
            old(self).fresh() && old(self).max_width == 0 && no_tags(html@) && !all_ws(
                decoded(normalized(html@)),
            ) ==> r@.len() == 1 && line_text(r@[0].spans@) == decoded(normalized(html@)),
            lines_view(r@) == m_finish(m_read(old(self).model(), html@, 0, false, Seq::empty())),
    {
        let cs = chars_of(html);
        let ghost unwrapped = old(self).fresh() && old(self).max_width == 0 && no_tags(html@);
        let ghost plain_only = old(self).fresh() && plain_text(html@);
        proof {
            if plain_only {
                assert(all_text(self.lines@) + self.cur_text() =~= Seq::<char>::empty());
                assert(cs@.take(0) =~= Seq::<char>::empty());
            }
        }
        let ghost plain = old(self).fresh() && old(self).max_width > 0 && no_tags(html@)
            && max_run(decoded(normalized(html@))) <= old(self).max_width;
        proof {
            if plain {
                assert(self.cur_text() =~= Seq::<char>::empty());
            }
        }
        let mut in_tag = false;
        let mut tag: Vec<char> = Vec::new();
        let mut i: usize = 0;
        while i < cs.len()
            invariant
                self.inv(),
                i <= cs@.len(),
                cs@ == html@,
                self.max_width == old(self).max_width,
                m_read(self.model(), cs@, i as int, in_tag, tag@) == m_read(
                    old(self).model(),
                    html@,
                    0,
                    false,
                    Seq::empty(),
                ),
                plain ==> self.fits() && !in_tag && !self.in_pre && (i == 0 || i == cs@.len()),
                plain ==> no_tags(cs@) && max_run(decoded(normalized(cs@))) <= self.max_width,
                plain_only == (old(self).fresh() && plain_text(html@)),
                unwrapped == (old(self).fresh() && old(self).max_width == 0 && no_tags(html@)),
                unwrapped ==> self.lines@.len() == 0 && !in_tag && !self.in_pre && (i == 0 || i
                    == cs@.len()) && self.list_stack@.len() == 0 && self.cur_text() == (if i == 0 {
                    Seq::<char>::empty()
                } else {
                    decoded(normalized(cs@))
                }),
                plain_only ==> self.list_stack@.len() == 0 && !in_tag && !self.in_pre && (i == 0 || i
                    == cs@.len()) && self.content() == strip_ws(cs@.take(i as int)),
            decreases cs@.len() - i,
        {
            let c = cs[i];
            let ghost mb = self.model();
            let ghost tb = tag@;
            let ghost itb = in_tag;
            if c == '<' {
                if !in_tag {
                    in_tag = true;
                    tag = Vec::new();
                }
                assert(tag@ == (if itb { tb } else { Seq::<char>::empty() }));
                i = i + 1;
            } else if c == '>' && in_tag {
                in_tag = false;
                self.process_tag(&tag);
                tag = Vec::new();
                i = i + 1;
            } else if in_tag {
                tag.push(c);
                i = i + 1;
            } else {
                let mut j: usize = i;
                proof {
                    lemma_next_lt(cs@, i + 1);
                }
                while j < cs.len() && cs[j] != '<'
                    invariant
                        i <= j <= cs@.len(),
                        j == i || next_lt(cs@, i + 1) == next_lt(cs@, j as int),
                        i < cs@.len() && cs@[i as int] != '<',
                    decreases cs@.len() - j,
                {
                    j = j + 1;
                }
                proof {
                    assert(j == next_lt(cs@, i + 1));
                }
                let text = slice_chars(&cs, i, j);
                proof {
                    if plain || plain_only || unwrapped {
                        if j < cs@.len() {
                            assert(cs@[j as int] != '<');
                        }
                        assert(text@ =~= cs@);
                        assert(cs@.take(j as int) =~= cs@);
                        if plain_only {
                            assert(i == 0);
                            assert(cs@.take(0) =~= Seq::<char>::empty());
                            assert(strip_ws(Seq::<char>::empty()) =~= Seq::<char>::empty());
                        }
                    }
                }
                if self.in_pre {
                    self.add_pre_text(&text);
                } else {
                    let normalized = normalize_chars(&text);
                    if normalized.len() > 0 {
                        self.add_text(&normalized);
                    }
                    proof {
                        if unwrapped {
                            assert(i == 0);
                            if normalized@.len() == 0 {
                                assert(decoded(normalized@) =~= Seq::<char>::empty());
                            }
                            assert(Seq::<char>::empty() + decoded(normalized@) =~= decoded(normalized@));
                        }
                        if plain_only {
                            assert(Seq::<char>::empty() + strip_ws(normalized@) =~= strip_ws(normalized@));
                            if normalized@.len() == 0 {
                                assert(strip_ws(normalized@) =~= Seq::<char>::empty());
                            }
                        }
                    }
                }
                i = j;
            }
        }
        let ghost mend = self.model();
        assert(mend == m_read(old(self).model(), html@, 0, false, Seq::empty()));
        self.flush_line();
        proof {
            if plain_only {
                assert(cs@.take(cs@.len() as int) =~= cs@);
                assert(self.cur_text() =~= Seq::<char>::empty());
                assert(all_text(self.lines@) + self.cur_text() =~= all_text(self.lines@));
            }
        }
        while self.lines.len() > 0 && self.lines[self.lines.len() - 1].spans.len() == 0
            invariant
                collapsed(self.lines@),
                tidy(self.lines@),
                trim_trailing(lines_view(self.lines@)) == m_finish(mend),
                plain_only ==> strip_ws(all_text(self.lines@)) == strip_ws(html@),
                unwrapped ==> self.lines@.len() <= 1,
                unwrapped && !all_ws(decoded(normalized(html@))) ==> self.lines@.len() == 1
                    && line_text(self.lines@[0].spans@) == decoded(normalized(html@)),
                cs@ == html@,
                plain ==> forall|k: int|
                    0 <= k < self.lines@.len() ==> visible_width(#[trigger] self.lines@[k])
                        <= old(self).max_width,
            decreases self.lines@.len(),
        {
            let ghost before = self.lines@;
            self.lines.pop();
            proof {
                assert(lines_view(before).drop_last() =~= lines_view(self.lines@));
                assert(before.drop_last() =~= self.lines@);
                assert forall|k: int| 0 <= k < self.lines@.len() implies #[trigger] self.lines@[k]
                    == before[k] by {}
                assert(line_text(before.last().spans@) =~= Seq::<char>::empty());
                assert(all_text(before) =~= all_text(self.lines@));
            }
        }
        proof {
            if self.lines@.len() > 0 {
                assert(!blank(self.lines@[self.lines@.len() - 1]));
            }
        }
        let mut out: Vec<Line> = Vec::new();
        std::mem::swap(&mut out, &mut self.lines);
        out
    }
}

/// First index in `s[a..b]` that is not white space, or `b`.
pub open spec fn skip_ws(s: Seq<char>, a: int, b: int) -> int
    decreases b - a,
{
    if a < b && is_ws(s[a]) {
        skip_ws(s, a + 1, b)
    } else {
        a
    }
}

/// End of `s[x..b]` once trailing white space is dropped.
pub open spec fn back_ws(s: Seq<char>, x: int, b: int) -> int
    decreases b - x,
{
    if b > x && is_ws(s[b - 1]) {
        back_ws(s, x, b - 1)
    } else {
        b
    }
}

/// First white-space index in `s[a..b]`, or `b`.
pub open spec fn word_end(s: Seq<char>, a: int, b: int) -> int
    decreases b - a,
{
    if a < b && !is_ws(s[a]) {
        word_end(s, a + 1, b)
    } else {
        a
    }
}

/// A tag's text: closing (a `/` first), its name, and its attributes; a
/// `/` that ends an opening tag is dropped.
pub open spec fn tag_parts(c: Seq<char>) -> (bool, Seq<char>, Seq<char>) {
    let a = skip_ws(c, 0, c.len() as int);
    let b = back_ws(c, a, c.len() as int);
    if a < b && c[a] == '/' {
        let na = skip_ws(c, a + 1, b);
        let nb = back_ws(c, na, b);
        (true, c.subrange(na, word_end(c, na, nb)), Seq::empty())
    } else {
        let sa = if a < b && c[b - 1] == '/' { skip_ws(c, a, b - 1) } else { a };
        let sb = if a < b && c[b - 1] == '/' { back_ws(c, sa, b - 1) } else { b };
        let e = word_end(c, sa, sb);
        (false, c.subrange(sa, e), if e < sb { c.subrange(e + 1, sb) } else { Seq::empty() })
    }
}

/// `cs[a..b]` without leading and trailing white space, as bounds.
fn trim_bounds(cs: &Vec<char>, a: usize, b: usize) -> (r: (usize, usize))
    requires
        a <= b <= cs@.len(),
    ensures
        a <= r.0 <= r.1 <= b,
        r.0 == skip_ws(cs@, a as int, b as int),
        r.1 == back_ws(cs@, r.0 as int, b as int),
{
    let mut x = a;
    while x < b && is_whitespace(cs[x])
        invariant
            a <= x <= b,
            b <= cs@.len(),
            skip_ws(cs@, a as int, b as int) == skip_ws(cs@, x as int, b as int),
        decreases b - x,
    {
        x = x + 1;
    }
    let mut y = b;
    while y > x && is_whitespace(cs[y - 1])
        invariant
            x <= y <= b,
            b <= cs@.len(),
            back_ws(cs@, x as int, b as int) == back_ws(cs@, x as int, y as int),
        decreases y,
    {
        y = y - 1;
    }
    (x, y)
}

/// First white-space index in `cs[a..b]`, or `b`.
fn ws_from(cs: &Vec<char>, a: usize, b: usize) -> (r: usize)
    requires
        a <= b <= cs@.len(),
    ensures
        a <= r <= b,
        r == word_end(cs@, a as int, b as int),
{
    let mut x = a;
    while x < b && !is_whitespace(cs[x])
        invariant
            a <= x <= b,
            b <= cs@.len(),
            word_end(cs@, a as int, b as int) == word_end(cs@, x as int, b as int),
        decreases b - x,
    {
        x = x + 1;
    }
    x
}

/// Renders work-item HTML into styled, word-wrapped lines, exactly as
/// `rendered` describes: tags act as `m_open` and `m_close` say, text is
/// collapsed, decoded and wrapped word by word, `<pre>` text is kept as it
/// is with a line per newline. `max_width == 0`
/// disables wrapping: text without tags then renders as the one line of its
/// collapsed, decoded text. Blank lines never follow one another and neither open
/// nor close the result. Plain text (no tag, no entity) keeps all its
/// characters but white space, in order. Text without tags whose words, once
/// white space is collapsed and entities decoded, fit the width renders into
/// lines whose visible width fits it.
pub fn render_html(html: &str, max_width: usize) -> (r: Vec<Line>)
    ensures
        collapsed(r@),
        r@.len() > 0 ==> !blank(r@.last()),
        max_width > 0 && no_tags(html@) && max_run(decoded(normalized(html@))) <= max_width
            ==> forall|i: int|
            0 <= i < r@.len() ==> visible_width(#[trigger] r@[i]) <= max_width,
        plain_text(html@) ==> strip_ws(all_text(r@)) == strip_ws(html@),
        max_width == 0 && no_tags(html@) ==> r@.len() <= 1,
        max_width == 0 && no_tags(html@) && !all_ws(decoded(normalized(html@))) ==> r@.len() == 1
            && line_text(r@[0].spans@) == decoded(normalized(html@)),
        max_width == 0 && plain_text(html@) && !all_ws(html@) ==> r@.len() == 1,
        lines_view(r@) == rendered(html@, max_width),
{
    let mut parser = HtmlParser::new(max_width);
    proof {
        assert(spans_view(parser.current_spans@) =~= Seq::<(Seq<char>, Style)>::empty());
        assert(lines_view(parser.lines@) =~= Seq::<Seq<(Seq<char>, Style)>>::empty());
        assert(parser.model() == initial_model(max_width));
    }
    let r = parser.parse(html);
    proof {
        if max_width == 0 && plain_text(html@) && !all_ws(html@) {
            lemma_strip_nonempty(html@);
            if r@.len() == 0 {
                assert(all_text(r@) =~= Seq::<char>::empty());
            }
        }
    }
    r
}

proof fn lemma_next_lt_shift(p: Seq<char>, s: Seq<char>, i: int)
    requires
        0 <= i <= s.len(),
    ensures
        next_lt(p + s, p.len() + i) == p.len() + next_lt(s, i),
    decreases s.len() - i,
{
    if i < s.len() {
        assert((p + s)[p.len() + i] == s[i]);
        if s[i] != '<' {
            lemma_next_lt_shift(p, s, i + 1);
        }
    }
}

/// Reading only looks ahead: what precedes position `p.len()` does not matter.
proof fn lemma_read_suffix(m: RenderModel, p: Seq<char>, s: Seq<char>, i: int, in_tag: bool, tag: Seq<char>)
    requires
        0 <= i <= s.len(),
    ensures
        m_read(m, p + s, p.len() + i, in_tag, tag) == m_read(m, s, i, in_tag, tag),
    decreases s.len() - i,
{
    let t = p + s;
    let k = p.len() + i;
    if i < s.len() {
        assert(t[k] == s[i]);
        if s[i] == '<' {
            lemma_read_suffix(m, p, s, i + 1, true, if in_tag { tag } else { Seq::empty() });
        } else if s[i] == '>' && in_tag {
            lemma_read_suffix(m_tag(m, tag), p, s, i + 1, false, Seq::empty());
        } else if in_tag {
            lemma_read_suffix(m, p, s, i + 1, true, tag.push(s[i]));
        } else {
            lemma_next_lt_shift(p, s, i + 1);
            lemma_next_lt(s, i + 1);
            let j = next_lt(s, i + 1);
            assert(t.subrange(k, p.len() + j) =~= s.subrange(i, j));
            let text = s.subrange(i, j);
            let m2 = if m.in_pre {
                m_pre_from(m, decoded(text), 0)
            } else if normalized(text).len() > 0 {
                m_add_text(m, normalized(text))
            } else {
                m
            };
            lemma_read_suffix(m2, p, s, j, in_tag, tag);
        }
    }
}

/// Inside a tag, its characters are collected up to `>`.
proof fn lemma_read_tag_chars(m: RenderModel, s: Seq<char>, start: int, c: Seq<char>, k: int)
    requires
        0 <= start,
        start + c.len() <= s.len(),
        s.subrange(start, start + c.len()) == c,
        forall|x: int| 0 <= x < c.len() ==> c[x] != '<' && c[x] != '>',
        0 <= k <= c.len(),
    ensures
        m_read(m, s, start, true, Seq::empty()) == m_read(m, s, start + k, true, c.take(k)),
    decreases k,
{
    if k > 0 {
        lemma_read_tag_chars(m, s, start, c, k - 1);
        assert(s[start + k - 1] == c[k - 1]);
        assert(c.take(k - 1).push(c[k - 1]) =~= c.take(k));
    } else {
        assert(c.take(0) =~= Seq::<char>::empty());
    }
}

/// A tag that leaves the starting state as it is, put before a document,
/// changes nothing of its rendering.
pub proof fn lemma_leading_tag_ignored(c: Seq<char>, html: Seq<char>, w: usize)
    requires
        forall|x: int| 0 <= x < c.len() ==> c[x] != '<' && c[x] != '>',
        m_tag(initial_model(w), c) == initial_model(w),
    ensures
        rendered(seq!['<'] + c + seq!['>'] + html, w) == rendered(html, w),
{
    let init = initial_model(w);
    let p = seq!['<'] + c + seq!['>'];
    let s2 = p + html;
    let n = c.len() as int;
    assert(s2[0] == '<');
    assert(s2.subrange(1, 1 + n) =~= c);
    lemma_read_tag_chars(init, s2, 1, c, n);
    assert(c.take(n) =~= c);
    assert(s2[1 + n] == '>');
    assert(m_read(init, s2, 1 + n, true, c) == m_read(m_tag(init, c), s2, 2 + n, false, Seq::empty()));
    lemma_read_suffix(init, p, html, 0, false, Seq::empty());
    assert(p.len() == 2 + c.len());
}

/// Tag names the renderer acts on.
pub open spec fn known_tag(t: Seq<char>) -> bool {
    t == "br"@ || t == "p"@ || t == "div"@ || t == "h1"@ || t == "h2"@ || t == "h3"@ || t == "h4"@
        || t == "h5"@ || t == "h6"@ || t == "b"@ || t == "strong"@ || t == "u"@ || t == "s"@ || t
        == "strike"@ || t == "del"@ || t == "a"@ || t == "ul"@ || t == "ol"@ || t == "li"@ || t
        == "img"@ || t == "table"@ || t == "tbody"@ || t == "tr"@ || t == "td"@ || t == "th"@ || t
        == "code"@ || t == "pre"@
}

/// An unknown tag, opening or closing, has no effect on any state.
pub proof fn lemma_unknown_tag_no_effect(m: RenderModel, t: Seq<char>, attrs: Seq<char>)
    requires
        !known_tag(t),
    ensures
        m_open(m, t, attrs) == m,
        m_close(m, t) == m,
{
}

/// Closing a style tag that was never opened leaves the starting state as it is.
pub proof fn lemma_unmatched_close_no_effect(t: Seq<char>, w: usize)
    requires
        t == "b"@ || t == "strong"@ || t == "u"@ || t == "s"@ || t == "strike"@ || t == "del"@,
    ensures
        m_close(initial_model(w), t) == initial_model(w),
{
    let init = initial_model(w);
    assert(popped(init.styles) =~= init.styles);
    assert(style_of(init.styles, false) == plain_style());
}

/// `m_read` together with where the reading ends: inside a tag or not, and
/// the tag text read so far.
pub open spec fn m_state(m: RenderModel, s: Seq<char>, i: int, in_tag: bool, tag: Seq<char>) -> (
    RenderModel,
    bool,
    Seq<char>,
)
    decreases s.len() - i,
{
    if i < 0 || i >= s.len() {
        (m, in_tag, tag)
    } else if s[i] == '<' {
        m_state(m, s, i + 1, true, if in_tag { tag } else { Seq::empty() })
    } else if s[i] == '>' && in_tag {
        m_state(m_tag(m, tag), s, i + 1, false, Seq::empty())
    } else if in_tag {
        m_state(m, s, i + 1, true, tag.push(s[i]))
    } else {
        let j = next_lt(s, i + 1);
        let text = s.subrange(i, j);
        let m2 = if m.in_pre {
            m_pre_from(m, decoded(text), 0)
        } else if normalized(text).len() > 0 {
            m_add_text(m, normalized(text))
        } else {
            m
        };
        if i < j <= s.len() {
            m_state(m2, s, j, in_tag, tag)
        } else {
            (m2, in_tag, tag)
        }
    }
}

proof fn lemma_state_read(m: RenderModel, s: Seq<char>, i: int, in_tag: bool, tag: Seq<char>)
    ensures
        m_state(m, s, i, in_tag, tag).0 == m_read(m, s, i, in_tag, tag),
    decreases s.len() - i,
{
    if 0 <= i < s.len() {
        if s[i] == '<' {
            lemma_state_read(m, s, i + 1, true, if in_tag { tag } else { Seq::empty() });
        } else if s[i] == '>' && in_tag {
            lemma_state_read(m_tag(m, tag), s, i + 1, false, Seq::empty());
        } else if in_tag {
            lemma_state_read(m, s, i + 1, true, tag.push(s[i]));
        } else {
            let j = next_lt(s, i + 1);
            let text = s.subrange(i, j);
            let m2 = if m.in_pre {
                m_pre_from(m, decoded(text), 0)
            } else if normalized(text).len() > 0 {
                m_add_text(m, normalized(text))
            } else {
                m
            };
            if i < j <= s.len() {
                lemma_state_read(m2, s, j, in_tag, tag);
            }
        }
    }
}

proof fn lemma_next_lt_concat(a: Seq<char>, b: Seq<char>, k: int)
    requires
        0 <= k <= a.len(),
        b.len() > 0,
        b[0] == '<',
    ensures
        next_lt(a + b, k) == next_lt(a, k),
    decreases a.len() - k,
{
    if k < a.len() {
        assert((a + b)[k] == a[k]);
        if a[k] != '<' {
            lemma_next_lt_concat(a, b, k + 1);
        }
    } else {
        assert((a + b)[k] == b[0]);
    }
}

/// Reading `a + b` where `b` opens with `<` reads `a`, then `b` from where `a` left off.
proof fn lemma_read_split(m: RenderModel, a: Seq<char>, b: Seq<char>, i: int, in_tag: bool, tag: Seq<char>)
    requires
        0 <= i <= a.len(),
        b.len() > 0,
        b[0] == '<',
    ensures
        m_read(m, a + b, i, in_tag, tag) == m_read(
            m_state(m, a, i, in_tag, tag).0,
            b,
            0,
            m_state(m, a, i, in_tag, tag).1,
            m_state(m, a, i, in_tag, tag).2,
        ),
    decreases a.len() - i,
{
    let t = a + b;
    if i == a.len() {
        lemma_read_suffix(m, a, b, 0, in_tag, tag);
    } else {
        assert(t[i] == a[i]);
        if a[i] == '<' {
            lemma_read_split(m, a, b, i + 1, true, if in_tag { tag } else { Seq::empty() });
        } else if a[i] == '>' && in_tag {
            lemma_read_split(m_tag(m, tag), a, b, i + 1, false, Seq::empty());
        } else if in_tag {
            lemma_read_split(m, a, b, i + 1, true, tag.push(a[i]));
        } else {
            lemma_next_lt_concat(a, b, i + 1);
            lemma_next_lt(a, i + 1);
            let j = next_lt(a, i + 1);
            assert(t.subrange(i, j) =~= a.subrange(i, j));
            let text = a.subrange(i, j);
            let m2 = if m.in_pre {
                m_pre_from(m, decoded(text), 0)
            } else if normalized(text).len() > 0 {
                m_add_text(m, normalized(text))
            } else {
                m
            };
            lemma_read_split(m2, a, b, j, in_tag, tag);
        }
    }
}

/// Characters that can make up a bare tag name.
pub open spec fn bare_name(t: Seq<char>) -> bool {
    t.len() > 0 && forall|x: int|
        0 <= x < t.len() ==> !is_ws(#[trigger] t[x]) && t[x] != '/' && t[x] != '<' && t[x] != '>'
}

proof fn lemma_word_end_all(c: Seq<char>, a: int, b: int)
    requires
        0 <= a <= b <= c.len(),
        forall|x: int| a <= x < b ==> !is_ws(#[trigger] c[x]),
    ensures
        word_end(c, a, b) == b,
    decreases b - a,
{
    if a < b {
        lemma_word_end_all(c, a + 1, b);
    }
}

/// A bare name read as an opening tag, and after `/` as a closing one.
proof fn lemma_tag_parts_bare(t: Seq<char>)
    requires
        bare_name(t),
    ensures
        tag_parts(t) == (false, t, Seq::<char>::empty()),
        tag_parts(seq!['/'] + t) == (true, t, Seq::<char>::empty()),
{
    let n = t.len() as int;
    assert(!is_ws(t[0]) && !is_ws(t[n - 1]));
    assert(skip_ws(t, 0, n) == 0);
    assert(back_ws(t, 0, n) == n);
    lemma_word_end_all(t, 0, n);
    assert(t.subrange(0, n) =~= t);
    let c = seq!['/'] + t;
    assert(c[0] == '/');
    assert(!is_ws(c[0]));
    assert(c[n] == t[n - 1]);
    assert(skip_ws(c, 0, n + 1) == 0);
    assert(back_ws(c, 0, n + 1) == n + 1);
    assert(c[1] == t[0]);
    assert(skip_ws(c, 1, n + 1) == 1);
    assert(back_ws(c, 1, n + 1) == n + 1);
    assert forall|x: int| 1 <= x < n + 1 implies !is_ws(#[trigger] c[x]) by {
        assert(c[x] == t[x - 1]);
    }
    lemma_word_end_all(c, 1, n + 1);
    assert(c.subrange(1, n + 1) =~= t);
}

/// Wrapping a document that ends outside a tag in an unknown tag changes
/// nothing of its rendering.
pub proof fn lemma_unknown_tag_wrap(t: Seq<char>, html: Seq<char>, w: usize)
    requires
        bare_name(t),
        !known_tag(ascii_lower(t)),
        !m_state(initial_model(w), html, 0, false, Seq::empty()).1,
    ensures
        rendered(seq!['<'] + t + seq!['>'] + (html + (seq!['<', '/'] + t + seq!['>'])), w)
            == rendered(html, w),
{
    let init = initial_model(w);
    lemma_tag_parts_bare(t);
    lemma_unknown_tag_no_effect(init, ascii_lower(t), Seq::empty());
    lemma_leading_tag_ignored(t, html + (seq!['<', '/'] + t + seq!['>']), w);
    let q = seq!['<', '/'] + t + seq!['>'];
    lemma_read_split(init, html, q, 0, false, Seq::empty());
    let st = m_state(init, html, 0, false, Seq::empty());
    lemma_state_read(init, html, 0, false, Seq::empty());
    let ct = seq!['/'] + t;
    assert(q =~= seq!['<'] + ct + seq!['>']);
    assert forall|x: int| 0 <= x < ct.len() implies ct[x] != '<' && ct[x] != '>' by {
        if x > 0 {
            assert(ct[x] == t[x - 1]);
        }
    }
    lemma_unknown_tag_no_effect(st.0, ascii_lower(t), Seq::empty());
    assert(m_tag(st.0, ct) == st.0);
    assert(q.subrange(1, 1 + ct.len() as int) =~= ct);
    lemma_read_tag_chars(st.0, q, 1, ct, ct.len() as int);
    assert(ct.take(ct.len() as int) =~= ct);
    assert(q[0] == '<');
    assert(q[1 + ct.len() as int] == '>');
    assert(m_read(st.0, q, 0, false, st.2) == m_read(st.0, q, 1, true, Seq::empty()));
    assert(m_read(st.0, q, 1 + ct.len() as int, true, ct) == m_read(st.0, q, 2 + ct.len() as int, false, Seq::empty()));
    assert(m_read(st.0, q, 2 + ct.len() as int, false, Seq::empty()) == st.0);
}

/// A closing style tag that was never opened, put before a document,
/// changes nothing of its rendering.
pub proof fn lemma_unmatched_close_ignored(t: Seq<char>, html: Seq<char>, w: usize)
    requires
        bare_name(t),
        ascii_lower(t) == "b"@ || ascii_lower(t) == "strong"@ || ascii_lower(t) == "u"@ || ascii_lower(
            t,
        ) == "s"@ || ascii_lower(t) == "strike"@ || ascii_lower(t) == "del"@,
    ensures
        rendered(seq!['<', '/'] + t + seq!['>'] + html, w) == rendered(html, w),
{
    lemma_tag_parts_bare(t);
    lemma_unmatched_close_no_effect(ascii_lower(t), w);
    let c = seq!['/'] + t;
    assert forall|x: int| 0 <= x < c.len() implies c[x] != '<' && c[x] != '>' by {
        if x > 0 {
            assert(c[x] == t[x - 1]);
        }
    }
    lemma_leading_tag_ignored(c, html, w);
    assert(seq!['<'] + c + seq!['>'] + html =~= seq!['<', '/'] + t + seq!['>'] + html);
}

} // verus!
