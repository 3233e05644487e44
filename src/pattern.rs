//! Wildcard matching for protected-branch patterns.
//!
//! A pattern matches a whole name: `*` stands for any run of characters,
//! the empty run included, and every other character stands for itself.

use vstd::prelude::*;
use crate::text::chars_of;

verus! {

/// Whether `t[i..]` matches `p[j..]`.
pub open spec fn glob_at(t: Seq<char>, p: Seq<char>, i: int, j: int) -> bool
    decreases t.len() - i + p.len() - j,
{
    if i < 0 || j < 0 || i > t.len() || j > p.len() {
        false
    } else if j == p.len() {
        i == t.len()
    } else if p[j] == '*' {
        glob_at(t, p, i, j + 1) || (i < t.len() && glob_at(t, p, i + 1, j))
    } else {
        i < t.len() && t[i] == p[j] && glob_at(t, p, i + 1, j + 1)
    }
}

/// Whether the whole text matches the whole pattern.
pub open spec fn glob(t: Seq<char>, p: Seq<char>) -> bool {
    glob_at(t, p, 0, 0)
}

/// Whether some suffix `t[k..]` with `k >= i` matches `p[j..]`.
pub open spec fn glob_some_suffix(t: Seq<char>, p: Seq<char>, i: int, j: int) -> bool {
    exists|k: int| i <= k <= t.len() && #[trigger] glob_at(t, p, k, j)
}

/// Whether `p[a..b]` holds no wildcard.
pub open spec fn literal_run(p: Seq<char>, a: int, b: int) -> bool {
    forall|x: int| a <= x < b ==> p[x] != '*'
}

/// A `*` at `p[j]` matches exactly when some suffix of the text matches what follows it.
proof fn lemma_star(t: Seq<char>, p: Seq<char>, i: int, j: int)
    requires
        0 <= i <= t.len(),
        0 <= j < p.len(),
        p[j] == '*',
    ensures
        glob_at(t, p, i, j) == glob_some_suffix(t, p, i, j + 1),
    decreases t.len() - i,
{
    if glob_at(t, p, i, j + 1) {
        assert(i <= i <= t.len() && glob_at(t, p, i, j + 1));
    }
    if i < t.len() {
        lemma_star(t, p, i + 1, j);
        assert(glob_at(t, p, i, j) == (glob_at(t, p, i, j + 1) || glob_at(t, p, i + 1, j)));
        if glob_some_suffix(t, p, i + 1, j + 1) {
            let k = choose|k: int| i + 1 <= k <= t.len() && #[trigger] glob_at(t, p, k, j + 1);
            assert(i <= k <= t.len() && glob_at(t, p, k, j + 1));
        }
        if glob_some_suffix(t, p, i, j + 1) {
            let k = choose|k: int| i <= k <= t.len() && #[trigger] glob_at(t, p, k, j + 1);
            if k != i {
                assert(i + 1 <= k <= t.len() && glob_at(t, p, k, j + 1));
            }
        }
    } else {
        if glob_some_suffix(t, p, i, j + 1) {
            let k = choose|k: int| i <= k <= t.len() && #[trigger] glob_at(t, p, k, j + 1);
            assert(k == i);
        }
        assert(glob_at(t, p, i, j + 1) ==> glob_some_suffix(t, p, i, j + 1));
    }
}

/// A run of literal characters matches only the same characters, in place.
proof fn lemma_literal(t: Seq<char>, p: Seq<char>, k: int, j: int, d: int)
    requires
        0 <= k <= t.len(),
        0 <= j,
        0 <= d,
        j + d <= p.len(),
        literal_run(p, j, j + d),
    ensures
        glob_at(t, p, k, j) == (k + d <= t.len() && t.subrange(k, k + d) == p.subrange(j, j + d)
            && glob_at(t, p, k + d, j + d)),
    decreases d,
{
    if d == 0 {
        assert(t.subrange(k, k + d) =~= p.subrange(j, j + d));
    } else {
        if k < t.len() {
            lemma_literal(t, p, k + 1, j + 1, d - 1);
            if glob_at(t, p, k, j) {
                assert(t.subrange(k, k + d) =~= p.subrange(j, j + d)) by {
                    assert forall|x: int| 0 <= x < d implies #[trigger] t.subrange(k, k + d)[x] == p.subrange(
                        j,
                        j + d,
                    )[x] by {
                        if x > 0 {
                            assert(t.subrange(k + 1, k + d)[x - 1] == p.subrange(j + 1, j + d)[x
                                - 1]);
                        }
                    }
                }
            }
            if k + d <= t.len() && t.subrange(k, k + d) == p.subrange(j, j + d) && glob_at(
                t,
                p,
                k + d,
                j + d,
            ) {
                assert(t.subrange(k, k + d)[0] == p.subrange(j, j + d)[0]);
                assert(t.subrange(k + 1, k + d) =~= t.subrange(k, k + d).subrange(1, d));
                assert(p.subrange(j + 1, j + d) =~= p.subrange(j, j + d).subrange(1, d));
            }
        }
    }
}

/// After a matched literal run that ends the text, later starts cannot match.
proof fn lemma_past_end(t: Seq<char>, p: Seq<char>, s: int, j: int, d: int, k: int)
    requires
        0 <= s < k <= t.len(),
        s + d == t.len(),
        0 <= j,
        0 <= d,
        j + d <= p.len(),
        literal_run(p, j, j + d),
    ensures
        !glob_at(t, p, k, j),
{
    lemma_literal(t, p, k, j, d);
}

/// Checks whether `text` matches the wildcard `pattern` as a whole.
pub fn matches_pattern(text: &str, pattern: &str) -> (r: bool)
    ensures
        r == glob(text@, pattern@),
{
    let t = chars_of(text);
    let p = chars_of(pattern);
    matches_pattern_impl(&t, &p)
}

/// Greedy two-cursor matcher that backtracks to the last `*` seen.
fn matches_pattern_impl(text: &Vec<char>, pattern: &Vec<char>) -> (r: bool)
    ensures
        r == glob(text@, pattern@),
{
    let ghost t = text@;
    let ghost p = pattern@;
    let n = text.len();
    let m = pattern.len();
    let mut ti: usize = 0;
    let mut pi: usize = 0;
    let mut star_p: Option<usize> = None;
    let mut star_t: usize = 0;
    while ti < n
        invariant
            n == t.len(),
            m == p.len(),
            t == text@,
            p == pattern@,
            star_t <= ti <= n,
            pi <= m,
            star_p matches None ==> star_t == 0 && glob(t, p) == glob_at(t, p, ti as int, pi as int),
            star_p matches Some(sp) ==> {
                &&& 1 <= sp <= pi
                &&& p[sp - 1] == '*'
                &&& pi - sp == ti - star_t
                &&& literal_run(p, sp as int, pi as int)
                &&& t.subrange(star_t as int, ti as int) == p.subrange(sp as int, pi as int)
                &&& glob(t, p) == glob_some_suffix(t, p, star_t as int, sp as int)
            },
        decreases n - star_t, (n - ti) + (m - pi),
    {
        if pi < m && pattern[pi] == '*' {
            proof {
                lemma_star(t, p, ti as int, pi as int);
                if let Some(sp) = star_p {
                    let d = pi - sp;
                    // Any start of the literal run lands at or after `ti`.
                    if glob_some_suffix(t, p, star_t as int, sp as int) {
                        let k = choose|k: int|
                            star_t <= k <= t.len() && #[trigger] glob_at(t, p, k, sp as int);
                        lemma_literal(t, p, k, sp as int, d as int);
                        lemma_star(t, p, k + d, pi as int);
                        let k2 = choose|k2: int|
                            k + d <= k2 <= t.len() && #[trigger] glob_at(t, p, k2, pi + 1);
                        assert(ti <= k2 <= t.len() && glob_at(t, p, k2, pi + 1));
                    }
                    if glob_some_suffix(t, p, ti as int, pi + 1) {
                        lemma_literal(t, p, star_t as int, sp as int, d as int);
                        assert(glob_at(t, p, star_t as int, sp as int));
                    }
                }
            }
            star_p = Some(pi + 1);
            star_t = ti;
            pi = pi + 1;
            assert(t.subrange(star_t as int, ti as int) =~= p.subrange(pi as int, pi as int));
        } else if pi < m && text[ti] == pattern[pi] {
            proof {
                if let Some(sp) = star_p {
                    assert(t.subrange(star_t as int, ti + 1) =~= t.subrange(star_t as int, ti as int).push(t[ti as int]));
                    assert(p.subrange(sp as int, pi + 1) =~= p.subrange(sp as int, pi as int).push(p[pi as int]));
                }
            }
            ti = ti + 1;
            pi = pi + 1;
        } else if let Some(sp) = star_p {
            proof {
                let d = pi - sp;
                lemma_literal(t, p, star_t as int, sp as int, d as int);
                assert(!glob_at(t, p, star_t as int, sp as int));
                if glob_some_suffix(t, p, star_t as int, sp as int) {
                    let k = choose|k: int|
                        star_t <= k <= t.len() && #[trigger] glob_at(t, p, k, sp as int);
                    assert(star_t + 1 <= k);
                }
            }
            star_t = star_t + 1;
            ti = star_t;
            pi = sp;
            assert(t.subrange(star_t as int, ti as int) =~= p.subrange(pi as int, pi as int));
        } else {
            return false;
        }
    }
    proof {
        if let Some(sp) = star_p {
            let d = pi - sp;
            lemma_literal(t, p, star_t as int, sp as int, d as int);
            if glob_some_suffix(t, p, star_t as int, sp as int) {
                let k = choose|k: int|
                    star_t <= k <= t.len() && #[trigger] glob_at(t, p, k, sp as int);
                if k > star_t {
                    lemma_past_end(t, p, star_t as int, sp as int, d as int, k);
                }
            }
        }
    }
    while pi < m && pattern[pi] == '*'
        invariant
            n == t.len(),
            m == p.len(),
            p == pattern@,
            pi <= m,
            glob(t, p) == glob_at(t, p, n as int, pi as int),
        decreases m - pi,
    {
        pi = pi + 1;
    }
    pi == m
}

/// Whether the name matches at least one of the patterns.
pub open spec fn protected_by(name: Seq<char>, patterns: Seq<String>) -> bool {
    exists|i: int| 0 <= i < patterns.len() && glob(name, #[trigger] patterns[i]@)
}

/// Checks whether a branch name matches any of the given patterns.
pub fn is_protected(branch_name: &str, patterns: &[String]) -> (r: bool)
    ensures
        r == protected_by(branch_name@, patterns@),
{
    let mut i: usize = 0;
    while i < patterns.len()
        invariant
            i <= patterns@.len(),
            forall|k: int| 0 <= k < i ==> !glob(branch_name@, #[trigger] patterns@[k]@),
        decreases patterns@.len() - i,
    {
        if matches_pattern(branch_name, patterns[i].as_str()) {
            return true;
        }
        i = i + 1;
    }
    false
}

/// A pattern made of a single `*` matches every text, the empty one included.
pub proof fn lemma_star_matches_everything(text: Seq<char>)
    ensures
        glob(text, seq!['*']),
{
    let p = seq!['*'];
    assert(glob_at(text, p, text.len() as int, 1));
    lemma_star(text, p, 0, 0);
    assert(0 <= text.len() <= text.len() && glob_at(text, p, text.len() as int, 1));
}

} // verus!
