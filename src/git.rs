//! The branch model: work-item numbers in branch names, remote-tracking
//! classification, and the rules that guard deletion.

use vstd::prelude::*;
use crate::pattern::{is_protected, protected_by};
use crate::text::{
    chars_of, digit_run_end, is_digit, parse_digit_run, parse_u32, positive_id,
};

verus! {

/// Index of the first decimal digit at or after `i`, or the length.
pub open spec fn first_digit_from(s: Seq<char>, i: int) -> int
    decreases s.len() - i,
{
    if i < 0 || i >= s.len() {
        s.len() as int
    } else if is_digit(s[i]) {
        i
    } else {
        first_digit_from(s, i + 1)
    }
}

/// The work-item number of a branch name: its first run of digits, when that
/// fits a `u32` and is not zero.
pub open spec fn work_item_number(name: Seq<char>) -> Option<u32> {
    let f = first_digit_from(name, 0);
    if f >= name.len() {
        None
    } else {
        positive_id(parse_u32(name.subrange(f, digit_run_end(name, f))))
    }
}

/// Extracts the first number in a branch name (its work-item number).
pub fn extract_work_item_number(branch_name: &str) -> (r: Option<u32>)
    ensures
        r == work_item_number(branch_name@),
{
    let cs = chars_of(branch_name);
    let mut i: usize = 0;
    while i < cs.len() && !('0' <= cs[i] && cs[i] <= '9')
        invariant
            i <= cs@.len(),
            first_digit_from(cs@, 0) == first_digit_from(cs@, i as int),
        decreases cs@.len() - i,
    {
        i = i + 1;
    }
    if i == cs.len() {
        None
    } else {
        match parse_digit_run(&cs, i) {
            Some(0) => None,
            p => p,
        }
    }
}

/// Remote-tracking status of a local branch.
#[derive(Debug, Clone, Copy, PartialEq, Eq, Structural)]
pub enum RemoteStatus {
    /// No upstream configured.
    LocalOnly,
    /// Same tip as the upstream.
    UpToDate,
    /// Local commits the upstream lacks.
    Ahead(usize),
    /// Upstream commits the local branch lacks.
    Behind(usize),
    /// Both sides hold commits the other lacks.
    Diverged { ahead: usize, behind: usize },
    /// Upstream configured, but its reference is gone.
    Gone,
}

/// Status and last-commit metadata of a branch.
#[derive(Debug, Clone)]
pub struct BranchStatus {
    pub remote_status: RemoteStatus,
    pub last_commit_author: Option<String>,
    /// Unix timestamp in seconds.
    pub last_commit_time: Option<i64>,
}

/// What a look at a branch's upstream found.
#[derive(Debug, Clone, Copy, PartialEq, Eq, Structural)]
pub enum UpstreamProbe {
    /// The upstream reference could not be found; `configured` tells whether
    /// the branch still names one.
    Missing { configured: bool },
    /// The local tip could not be resolved to a commit.
    LocalUnresolved,
    /// The upstream tip could not be resolved to a commit.
    UpstreamUnresolved,
    /// Both tips resolved, but the ahead/behind count failed.
    CountFailed,
    /// Both tips resolved and were compared.
    Counted { ahead: usize, behind: usize },
}

/// The status that an ahead/behind count stands for.
pub open spec fn status_of_counts(ahead: usize, behind: usize) -> RemoteStatus {
    if ahead == 0 && behind == 0 {
        RemoteStatus::UpToDate
    } else if behind == 0 {
        RemoteStatus::Ahead(ahead)
    } else if ahead == 0 {
        RemoteStatus::Behind(behind)
    } else {
        RemoteStatus::Diverged { ahead, behind }
    }
}

/// The status that a probe of the upstream stands for.
pub open spec fn status_of_probe(p: UpstreamProbe) -> RemoteStatus {
    match p {
        UpstreamProbe::Missing { configured } => if configured {
            RemoteStatus::Gone
        } else {
            RemoteStatus::LocalOnly
        },
        UpstreamProbe::LocalUnresolved => RemoteStatus::LocalOnly,
        UpstreamProbe::UpstreamUnresolved => RemoteStatus::Gone,
        UpstreamProbe::CountFailed => RemoteStatus::LocalOnly,
        UpstreamProbe::Counted { ahead, behind } => status_of_counts(ahead, behind),
    }
}

/// Classifies an ahead/behind commit count.
pub fn status_from_counts(ahead: usize, behind: usize) -> (r: RemoteStatus)
    ensures
        r == status_of_counts(ahead, behind),
{
    if ahead == 0 && behind == 0 {
        RemoteStatus::UpToDate
    } else if behind == 0 {
        RemoteStatus::Ahead(ahead)
    } else if ahead == 0 {
        RemoteStatus::Behind(behind)
    } else {
        RemoteStatus::Diverged { ahead, behind }
    }
}

/// Classifies what a look at the upstream found; failures degrade to `LocalOnly`.
pub fn classify_remote(probe: UpstreamProbe) -> (r: RemoteStatus)
    ensures
        r == status_of_probe(probe),
{
    match probe {
        UpstreamProbe::Missing { configured } => if configured {
            RemoteStatus::Gone
        } else {
            RemoteStatus::LocalOnly
        },
        UpstreamProbe::LocalUnresolved => RemoteStatus::LocalOnly,
        UpstreamProbe::UpstreamUnresolved => RemoteStatus::Gone,
        UpstreamProbe::CountFailed => RemoteStatus::LocalOnly,
        UpstreamProbe::Counted { ahead, behind } => status_from_counts(ahead, behind),
    }
}

/// Why a branch may not be deleted.
#[derive(Debug, Clone, Copy, PartialEq, Eq, Structural)]
pub enum DeleteRefusal {
    /// The branch is checked out.
    Current,
    /// The branch matches a protected pattern.
    Protected,
}

/// The refusal, if any, that deleting `name` meets.
pub open spec fn delete_refusal(name: Seq<char>, current: Seq<char>, patterns: Seq<String>) -> Option<
    DeleteRefusal,
> {
    if name == current {
        Some(DeleteRefusal::Current)
    } else if protected_by(name, patterns) {
        Some(DeleteRefusal::Protected)
    } else {
        None
    }
}

/// Checks whether a branch may be deleted: never the current one, never a protected one.
pub fn check_deletable(branch_name: &str, current: &str, patterns: &[String]) -> (r: Option<
    DeleteRefusal,
>)
    ensures
        r == delete_refusal(branch_name@, current@, patterns@),
{
    let a = chars_of(branch_name);
    let b = chars_of(current);
    let mut same = a.len() == b.len();
    let mut i: usize = 0;
    while same && i < a.len()
        invariant
            a@ == branch_name@,
            b@ == current@,
            same ==> a@.len() == b@.len(),
            same ==> forall|k: int| 0 <= k < i ==> a@[k] == b@[k],
            !same ==> a@ != b@,
            i <= a@.len(),
        decreases a@.len() - i + (if same { 1int } else { 0int }),
    {
        if a[i] != b[i] {
            same = false;
        } else {
            i = i + 1;
        }
    }
    if same {
        assert(a@ =~= b@);
        Some(DeleteRefusal::Current)
    } else if is_protected(branch_name, patterns) {
        Some(DeleteRefusal::Protected)
    } else {
        None
    }
}

/// The message shown for a refused deletion.
pub open spec fn refusal_message(reason: DeleteRefusal, name: Seq<char>) -> Seq<char> {
    match reason {
        DeleteRefusal::Current => "Cannot delete the current branch"@,
        DeleteRefusal::Protected => "Cannot delete protected branch '"@ + name + "'"@,
    }
}

/// Spells out a refused deletion for the status line.
pub fn refusal_text(reason: DeleteRefusal, name: &str) -> (r: String)
    ensures
        r@ == refusal_message(reason, name@),
{
    match reason {
        DeleteRefusal::Current => "Cannot delete the current branch".to_string(),
        DeleteRefusal::Protected => {
            let mut s = "Cannot delete protected branch '".to_string();
            s.append(name);
            s.append("'");
            s
        },
    }
}

/// Lexicographic order of texts, character by character; for UTF-8 this is
/// the byte-wise order that `str` compares by.
pub open spec fn text_le(a: Seq<char>, b: Seq<char>) -> bool
    decreases a.len(),
{
    if a.len() == 0 {
        true
    } else if b.len() == 0 {
        false
    } else if (a[0] as u32) < (b[0] as u32) {
        true
    } else if (a[0] as u32) > (b[0] as u32) {
        false
    } else {
        text_le(a.drop_first(), b.drop_first())
    }
}

/// Relies on `slice::sort` over `String`: the same strings, ascending in the
/// order of `Ord for str` (lexicographic by bytes, which for UTF-8 is by
/// character).
#[verifier::external_body]
fn sort_names(v: &mut Vec<String>)
    ensures
        final(v)@.to_multiset() == old(v)@.to_multiset(),
        forall|i: int, j: int|
            0 <= i < j < final(v)@.len() ==> text_le(#[trigger] final(v)@[i]@, #[trigger] final(v)@[j]@),
{
    v.sort()
}

/// Orders branch names for the list: the checked-out branch first, the
/// others by name.
pub fn order_branches(names: Vec<String>, current: &str) -> (r: Vec<String>)
    ensures
        r@.to_multiset() == names@.to_multiset(),
        forall|i: int, j: int|
            0 <= i < j < r@.len() && (#[trigger] r@[j])@ == current@ ==> (#[trigger] r@[i])@ == current@,
        forall|i: int, j: int|
            0 <= i < j < r@.len() && (#[trigger] r@[i])@ != current@ && (#[trigger] r@[j])@
                != current@ ==> text_le(r@[i]@, r@[j]@),
{
    broadcast use vstd::seq_lib::group_to_multiset_ensures, vstd::seq_lib::lemma_multiset_commutative;

    let cur = current.to_string();
    let mut first: Vec<String> = Vec::new();
    let mut rest: Vec<String> = Vec::new();
    let mut i: usize = 0;
    while i < names.len()
        invariant
            i <= names@.len(),
            cur@ == current@,
            first@.to_multiset().add(rest@.to_multiset()) == names@.take(i as int).to_multiset(),
            forall|k: int| 0 <= k < first@.len() ==> (#[trigger] first@[k])@ == current@,
            forall|k: int| 0 <= k < rest@.len() ==> (#[trigger] rest@[k])@ != current@,
        decreases names@.len() - i,
    {
        let name = names[i].clone();
        assert(names@.take(i + 1) =~= names@.take(i as int).push(names@[i as int]));
        let ghost f0 = first@;
        let ghost r0 = rest@;
        proof {
            vstd::seq_lib::to_multiset_build(names@.take(i as int), names@[i as int]);
        }
        if name == cur {
            first.push(name);
            assert(first@ == f0.push(names@[i as int]));
            proof {
                vstd::seq_lib::to_multiset_build(f0, names@[i as int]);
            }
            assert(first@.to_multiset().add(rest@.to_multiset()) =~= f0.to_multiset().add(
                r0.to_multiset(),
            ).insert(names@[i as int]));
        } else {
            rest.push(name);
            assert(rest@ == r0.push(names@[i as int]));
            proof {
                vstd::seq_lib::to_multiset_build(r0, names@[i as int]);
            }
            assert(first@.to_multiset().add(rest@.to_multiset()) =~= f0.to_multiset().add(
                r0.to_multiset(),
            ).insert(names@[i as int]));
        }
        i = i + 1;
    }
    assert(names@.take(i as int) =~= names@);
    let ghost unsorted = rest@;
    sort_names(&mut rest);
    proof {
        assert forall|k: int| 0 <= k < rest@.len() implies (#[trigger] rest@[k])@ != current@ by {
            assert(rest@.to_multiset().count(rest@[k]) > 0);
            assert(unsorted.to_multiset().count(rest@[k]) > 0);
            let m = choose|m: int| 0 <= m < unsorted.len() && unsorted[m] == rest@[k];
        }
    }
    let ghost f = first@;
    let ghost g = rest@;
    first.append(&mut rest);
    assert(first@ =~= f + g);
    first
}

} // verus!
