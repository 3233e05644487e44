//! The application state: branch list, selection, scrolling, modal mode,
//! status line, work-item fetch states and deletion history.

use std::collections::HashMap;
use vstd::prelude::*;
use crate::git::{BranchStatus, DeleteRefusal, refusal_message, refusal_text};
use crate::pattern::{is_protected, protected_by};
use crate::work_item::WorkItem;

verus! {

/// Modal mode of the session; exactly one is live.
#[derive(Debug, Clone)]
pub enum AppMode {
    Normal,
    /// Waiting for the user to confirm deleting the named branch.
    ConfirmDelete(String),
    /// Showing an error until dismissed.
    ErrorPopup(String),
}

/// A branch deleted during the session, kept for the exit summary.
#[derive(Debug, Clone)]
pub struct DeletedBranch {
    pub name: String,
    pub commit_sha: String,
}

/// A status-line message that expires.
#[derive(Debug, Clone)]
pub struct StatusMessage {
    pub text: String,
    pub is_error: bool,
    /// Expiry instant, in milliseconds on the session's monotonic clock.
    pub expires_at: u64,
}

/// A local branch and what the session knows of it.
#[derive(Debug, Clone)]
pub struct BranchInfo {
    pub name: String,
    pub work_item_id: Option<u32>,
    pub is_current: bool,
    pub is_protected: bool,
}

/// Where the lookup of a work item stands.
#[derive(Debug, Clone)]
pub enum WorkItemStatus {
    NotFetched,
    Loading,
    Loaded(WorkItem),
    Error(String),
}

/// Application state.
pub struct App {
    pub branches: Vec<BranchInfo>,
    /// Index into the visible branch list.
    pub selected_index: usize,
    pub work_items: HashMap<u32, WorkItemStatus>,
    /// Cached branch statuses; a later entry for a name supersedes an earlier one.
    pub branch_statuses: Vec<(String, BranchStatus)>,
    pub should_quit: bool,
    pub scroll_offset: u16,
    /// Height of the details content, for scroll bounds.
    pub content_height: u16,
    /// Height of the details viewport.
    pub visible_height: u16,
    pub mode: AppMode,
    pub status_message: Option<StatusMessage>,
    pub deleted_branches: Vec<DeletedBranch>,
    /// Whether protected branches are listed.
    pub show_protected: bool,
    pub protected_patterns: Vec<String>,
}

/// Whether a branch is listed: protected ones only when shown, but the
/// checked-out branch always.
pub open spec fn listed(b: BranchInfo, show_protected: bool) -> bool {
    show_protected || !b.is_protected || b.is_current
}

/// The listed branches, in order.
pub open spec fn visible_of(bs: Seq<BranchInfo>, show_protected: bool) -> Seq<BranchInfo>
    decreases bs.len(),
{
    if bs.len() == 0 {
        Seq::empty()
    } else if listed(bs.last(), show_protected) {
        visible_of(bs.drop_last(), show_protected).push(bs.last())
    } else {
        visible_of(bs.drop_last(), show_protected)
    }
}

/// Largest scroll offset for the given content and viewport heights.
pub open spec fn max_scroll(content_height: u16, visible_height: u16) -> int {
    if content_height > visible_height {
        content_height - visible_height
    } else {
        0
    }
}

/// Latest cached status for a branch name.
pub open spec fn cached_status(entries: Seq<(String, BranchStatus)>, name: Seq<char>) -> Option<
    BranchStatus,
>
    decreases entries.len(),
{
    if entries.len() == 0 {
        None
    } else if entries.last().0@ == name {
        Some(entries.last().1)
    } else {
        cached_status(entries.drop_last(), name)
    }
}

/// The number of listed branches among the first `n`.
proof fn lemma_visible_prefix(bs: Seq<BranchInfo>, show: bool, m: int, n: int)
    requires
        0 <= m <= n <= bs.len(),
    ensures
        visible_of(bs.take(m), show).len() <= visible_of(bs.take(n), show).len(),
        forall|k: int|
            0 <= k < visible_of(bs.take(m), show).len() ==> #[trigger] visible_of(bs.take(n), show)[k]
                == visible_of(bs.take(m), show)[k],
    decreases n - m,
{
    if m < n {
        lemma_visible_prefix(bs, show, m, n - 1);
        assert(bs.take(n).drop_last() =~= bs.take(n - 1));
    }
}

proof fn lemma_visible_step(bs: Seq<BranchInfo>, show: bool, j: int)
    requires
        0 <= j < bs.len(),
    ensures
        visible_of(bs.take(j + 1), show) == if listed(bs[j], show) {
            visible_of(bs.take(j), show).push(bs[j])
        } else {
            visible_of(bs.take(j), show)
        },
{
    assert(bs.take(j + 1).drop_last() =~= bs.take(j));
}

proof fn lemma_take_all(bs: Seq<BranchInfo>)
    ensures
        bs.take(bs.len() as int) == bs,
{
    assert(bs.take(bs.len() as int) =~= bs);
}

/// Index of the first branch named `name` at or after `i`, or -1.
pub open spec fn name_index_from(bs: Seq<BranchInfo>, name: Seq<char>, i: int) -> int
    decreases bs.len() - i,
{
    if i < 0 || i >= bs.len() {
        -1
    } else if bs[i].name@ == name {
        i
    } else {
        name_index_from(bs, name, i + 1)
    }
}

/// Where the search for a name ends: at a branch of that name, or nowhere.
pub proof fn lemma_name_index(bs: Seq<BranchInfo>, name: Seq<char>, i: int)
    requires
        0 <= i,
    ensures
        name_index_from(bs, name, i) == -1 ==> forall|k: int|
            i <= k < bs.len() ==> (#[trigger] bs[k]).name@ != name,
        name_index_from(bs, name, i) >= 0 ==> i <= name_index_from(bs, name, i) < bs.len()
            && bs[name_index_from(bs, name, i)].name@ == name,
    decreases bs.len() - i,
{
    if i < bs.len() && bs[i].name@ != name {
        lemma_name_index(bs, name, i + 1);
    }
}

/// No two branches share a name.
pub open spec fn unique_names(bs: Seq<BranchInfo>) -> bool {
    forall|i: int, j: int|
        0 <= i < bs.len() && 0 <= j < bs.len() && i != j ==> (#[trigger] bs[i]).name@ != (
        #[trigger] bs[j]).name@
}

/// The selection pulled back within a list of `n` entries.
pub open spec fn clamped(sel: usize, n: nat) -> usize {
    if n == 0 {
        0
    } else if sel >= n {
        (n - 1) as usize
    } else {
        sel
    }
}

/// Expiry instant of a message shown at `now_ms` for `secs` seconds.
pub open spec fn expiry(now_ms: u64, secs: u64) -> u64 {
    if now_ms + secs * 1000 > u64::MAX {
        u64::MAX
    } else {
        (now_ms + secs * 1000) as u64
    }
}

/// The branch with `is_current` set as a checkout of `name` leaves it.
pub open spec fn after_checkout(b: BranchInfo, name: Seq<char>) -> BranchInfo {
    BranchInfo { is_current: b.name@ == name, ..b }
}

impl App {
    /// The branches the list shows.
    pub open spec fn visible(&self) -> Seq<BranchInfo> {
        visible_of(self.branches@, self.show_protected)
    }

    /// The selected visible branch, if any.
    pub open spec fn selected(&self) -> Option<BranchInfo> {
        if self.selected_index < self.visible().len() {
            Some(self.visible()[self.selected_index as int])
        } else {
            None
        }
    }

    /// The fetch state of a work item; absent ones have not been fetched.
    pub open spec fn status_of(&self, id: u32) -> WorkItemStatus {
        if self.work_items@.contains_key(id) {
            self.work_items@[id]
        } else {
            WorkItemStatus::NotFetched
        }
    }

    /// The work item linked to the selected branch.
    pub open spec fn selected_item(&self) -> Option<u32> {
        match self.selected() {
            Some(b) => b.work_item_id,
            None => None,
        }
    }

    /// The state after moving the selection down, wrapping at the end.
    pub open spec fn after_next(self) -> App {
        if self.visible().len() == 0 {
            self
        } else {
            App {
                selected_index: ((self.selected_index as int + 1) % (self.visible().len() as int)) as usize,
                scroll_offset: 0,
                ..self
            }
        }
    }

    /// The state after moving the selection up, wrapping at the start.
    pub open spec fn after_previous(self) -> App {
        if self.visible().len() == 0 {
            self
        } else {
            App {
                selected_index: if self.selected_index == 0 {
                    (self.visible().len() as int - 1) as usize
                } else {
                    (self.selected_index as int - 1) as usize
                },
                scroll_offset: 0,
                ..self
            }
        }
    }

    /// The state after scrolling the details down by `amount` in a viewport of `visible_height`.
    pub open spec fn after_scroll_down(self, amount: u16, visible_height: u16) -> App {
        App {
            visible_height,
            scroll_offset: if self.scroll_offset as int + amount as int <= max_scroll(
                self.content_height,
                visible_height,
            ) {
                (self.scroll_offset as int + amount as int) as u16
            } else {
                max_scroll(self.content_height, visible_height) as u16
            },
            ..self
        }
    }

    /// The state after scrolling the details up by `amount`.
    pub open spec fn after_scroll_up(self, amount: u16) -> App {
        App {
            scroll_offset: if self.scroll_offset >= amount {
                (self.scroll_offset as int - amount as int) as u16
            } else {
                0
            },
            ..self
        }
    }

    /// The selection points into the visible list (or is zero when it is
    /// empty), and the scroll offset stays within the content.
    pub open spec fn wf(&self) -> bool {
        &&& if self.visible().len() == 0 {
            self.selected_index == 0
        } else {
            self.selected_index < self.visible().len()
        }
        &&& self.scroll_offset <= max_scroll(self.content_height, self.visible_height)
    }

    pub fn new(branches: Vec<BranchInfo>, protected_patterns: Vec<String>) -> (r: App)
        ensures
            r.wf(),
            r.branches@ == branches@,
            r.protected_patterns@ == protected_patterns@,
            r.selected_index == 0,
            r.work_items@ == Map::<u32, WorkItemStatus>::empty(),
            r.branch_statuses@.len() == 0,
            !r.should_quit,
            r.scroll_offset == 0,
            r.content_height == 0,
            r.visible_height == 0,
            r.mode is Normal,
            r.status_message is None,
            r.deleted_branches@.len() == 0,
            !r.show_protected,
    {
        App {
            branches,
            selected_index: 0,
            work_items: HashMap::new(),
            branch_statuses: Vec::new(),
            should_quit: false,
            scroll_offset: 0,
            content_height: 0,
            visible_height: 0,
            mode: AppMode::Normal,
            status_message: None,
            deleted_branches: Vec::new(),
            show_protected: false,
            protected_patterns,
        }
    }

    /// Index in `branches` of the visible branch at `k`, if there is one.
    fn visible_position(&self, k: usize) -> (r: Option<usize>)
        ensures
            match r {
                Some(j) => k < self.visible().len() && j < self.branches@.len()
                    && self.branches@[j as int] == self.visible()[k as int],
                None => k >= self.visible().len(),
            },
    {
        let ghost bs = self.branches@;
        let ghost show = self.show_protected;
        let mut c: usize = 0;
        let mut j: usize = 0;
        while j < self.branches.len()
            invariant
                bs == self.branches@,
                show == self.show_protected,
                j <= bs.len(),
                c == visible_of(bs.take(j as int), show).len(),
                c <= k,
            decreases bs.len() - j,
        {
            proof {
                lemma_visible_step(bs, show, j as int);
            }
            let b = &self.branches[j];
            if self.show_protected || !b.is_protected || b.is_current {
                if c == k {
                    proof {
                        lemma_visible_prefix(bs, show, j + 1, bs.len() as int);
                        lemma_take_all(bs);
                        assert(visible_of(bs.take(j + 1), show)[k as int] == bs[j as int]);
                    }
                    return Some(j);
                }
                c = c + 1;
            }
            j = j + 1;
        }
        proof {
            lemma_take_all(bs);
        }
        None
    }

    /// The branches the list shows, in order.
    pub fn visible_branches(&self) -> (r: Vec<&BranchInfo>)
        ensures
            r@.len() == self.visible().len(),
            forall|i: int| 0 <= i < r@.len() ==> *r@[i] == self.visible()[i],
    {
        let ghost bs = self.branches@;
        let ghost show = self.show_protected;
        let mut r: Vec<&BranchInfo> = Vec::new();
        let mut j: usize = 0;
        while j < self.branches.len()
            invariant
                bs == self.branches@,
                show == self.show_protected,
                j <= bs.len(),
                r@.len() == visible_of(bs.take(j as int), show).len(),
                forall|i: int| 0 <= i < r@.len() ==> *r@[i] == visible_of(bs.take(j as int), show)[i],
            decreases bs.len() - j,
        {
            proof {
                lemma_visible_step(bs, show, j as int);
            }
            let b = &self.branches[j];
            if self.show_protected || !b.is_protected || b.is_current {
                r.push(b);
            }
            j = j + 1;
        }
        proof {
            lemma_take_all(bs);
        }
        r
    }

    /// Number of branches the list shows.
    pub fn visible_count(&self) -> (r: usize)
        ensures
            r == self.visible().len(),
    {
        let ghost bs = self.branches@;
        let ghost show = self.show_protected;
        let mut c: usize = 0;
        let mut j: usize = 0;
        while j < self.branches.len()
            invariant
                bs == self.branches@,
                show == self.show_protected,
                j <= bs.len(),
                c == visible_of(bs.take(j as int), show).len(),
                c <= j,
            decreases bs.len() - j,
        {
            proof {
                lemma_visible_step(bs, show, j as int);
            }
            let b = &self.branches[j];
            if self.show_protected || !b.is_protected || b.is_current {
                c = c + 1;
            }
            j = j + 1;
        }
        proof {
            lemma_take_all(bs);
        }
        c
    }

    pub fn selected_branch(&self) -> (r: Option<&BranchInfo>)
        ensures
            r is Some <==> self.selected() is Some,
            r matches Some(b) ==> *b == self.selected()->0,
    {
        match self.visible_position(self.selected_index) {
            Some(j) => Some(&self.branches[j]),
            None => None,
        }
    }

    pub fn next(&mut self)
        requires
            old(self).wf(),
        ensures
            final(self).wf(),
            *final(self) == old(self).after_next(),
    {
        let n = self.visible_count();
        if n > 0 {
            self.selected_index = (self.selected_index + 1) % n;
            self.scroll_offset = 0;
        }
    }

    pub fn previous(&mut self)
        requires
            old(self).wf(),
        ensures
            final(self).wf(),
            *final(self) == old(self).after_previous(),
    {
        let n = self.visible_count();
        if n > 0 {
            self.selected_index = if self.selected_index == 0 {
                n - 1
            } else {
                self.selected_index - 1
            };
            self.scroll_offset = 0;
        }
    }

    /// Scrolls the details down, never past the end of the content.
    pub fn scroll_down(&mut self, amount: u16, visible_height: u16)
        requires
            old(self).wf(),
        ensures
            final(self).wf(),
            *final(self) == old(self).after_scroll_down(amount, visible_height),
    {
        let max = if self.content_height > visible_height {
            self.content_height - visible_height
        } else {
            0
        };
        self.visible_height = visible_height;
        if self.scroll_offset <= max && amount <= max - self.scroll_offset {
            self.scroll_offset = self.scroll_offset + amount;
        } else {
            self.scroll_offset = max;
        }
    }

    /// Scrolls the details up, never before the start.
    pub fn scroll_up(&mut self, amount: u16)
        requires
            old(self).wf(),
        ensures
            final(self).wf(),
            *final(self) == old(self).after_scroll_up(amount),
    {
        self.scroll_offset = if self.scroll_offset >= amount {
            self.scroll_offset - amount
        } else {
            0
        };
    }

    /// Records the content height, pulling the offset back within it.
    pub fn set_content_height(&mut self, height: u16)
        requires
            old(self).wf(),
        ensures
            final(self).wf(),
            *final(self) == (App {
                content_height: height,
                scroll_offset: if old(self).scroll_offset <= max_scroll(height, old(self).visible_height) {
                    old(self).scroll_offset
                } else {
                    max_scroll(height, old(self).visible_height) as u16
                },
                ..*old(self)
            }),
    {
        self.content_height = height;
        let max = if height > self.visible_height {
            height - self.visible_height
        } else {
            0
        };
        if self.scroll_offset > max {
            self.scroll_offset = max;
        }
    }

    /// Records the viewport height, pulling the offset back within the content.
    pub fn set_visible_height(&mut self, height: u16)
        requires
            old(self).wf(),
        ensures
            final(self).wf(),
            *final(self) == (App {
                visible_height: height,
                scroll_offset: if old(self).scroll_offset <= max_scroll(old(self).content_height, height) {
                    old(self).scroll_offset
                } else {
                    max_scroll(old(self).content_height, height) as u16
                },
                ..*old(self)
            }),
    {
        self.visible_height = height;
        let max = if self.content_height > height {
            self.content_height - height
        } else {
            0
        };
        if self.scroll_offset > max {
            self.scroll_offset = max;
        }
    }

    pub fn quit(&mut self)
        ensures
            *final(self) == (App { should_quit: true, ..*old(self) }),
    {
        self.should_quit = true;
    }

    pub fn get_work_item_status(&self, id: u32) -> (r: &WorkItemStatus)
        ensures
            *r == self.status_of(id),
    {
        match self.work_items.get(&id) {
            Some(st) => st,
            None => &WorkItemStatus::NotFetched,
        }
    }

    pub fn set_work_item_loading(&mut self, id: u32)
        ensures
            final(self).work_items@ == old(self).work_items@.insert(id, WorkItemStatus::Loading),
            (App { work_items: final(self).work_items, ..*old(self) }) == *final(self),
    {
        self.work_items.insert(id, WorkItemStatus::Loading);
    }

    pub fn set_work_item_loaded(&mut self, id: u32, work_item: WorkItem)
        ensures
            final(self).work_items@ == old(self).work_items@.insert(
                id,
                WorkItemStatus::Loaded(work_item),
            ),
            (App { work_items: final(self).work_items, ..*old(self) }) == *final(self),
    {
        self.work_items.insert(id, WorkItemStatus::Loaded(work_item));
    }

    pub fn set_work_item_error(&mut self, id: u32, error: String)
        ensures
            final(self).work_items@ == old(self).work_items@.insert(id, WorkItemStatus::Error(error)),
            (App { work_items: final(self).work_items, ..*old(self) }) == *final(self),
    {
        self.work_items.insert(id, WorkItemStatus::Error(error));
    }

    /// Forgets a work item's fetch state so that it is fetched again.
    pub fn reset_work_item(&mut self, id: u32)
        ensures
            final(self).work_items@ == old(self).work_items@.remove(id),
            (App { work_items: final(self).work_items, ..*old(self) }) == *final(self),
    {
        self.work_items.remove(&id);
    }

    /// The work item linked to the selected branch, if any.
    pub fn selected_work_item_id(&self) -> (r: Option<u32>)
        ensures
            r == self.selected_item(),
    {
        match self.selected_branch() {
            Some(b) => b.work_item_id,
            None => None,
        }
    }

    /// Whether the selected branch links a work item (so refresh is available).
    pub fn current_branch_has_work_item(&self) -> (r: bool)
        ensures
            r == self.selected_item() is Some,
    {
        self.selected_work_item_id().is_some()
    }

    /// The cached status of a branch.
    pub fn get_branch_status(&self, name: &str) -> (r: Option<&BranchStatus>)
        ensures
            r is Some <==> cached_status(self.branch_statuses@, name@) is Some,
            r matches Some(st) ==> *st == cached_status(self.branch_statuses@, name@)->0,
    {
        let key = name.to_string();
        let mut i: usize = self.branch_statuses.len();
        assert(self.branch_statuses@.take(i as int) =~= self.branch_statuses@);
        while i > 0
            invariant
                i <= self.branch_statuses@.len(),
                key@ == name@,
                cached_status(self.branch_statuses@, name@) == cached_status(
                    self.branch_statuses@.take(i as int),
                    name@,
                ),
            decreases i,
        {
            let entry = &self.branch_statuses[i - 1];
            assert(self.branch_statuses@.take(i as int).drop_last() =~= self.branch_statuses@.take(
                i - 1,
            ));
            if entry.0 == key {
                return Some(&entry.1);
            }
            i = i - 1;
        }
        None
    }

    /// Caches the status of a branch.
    pub fn set_branch_status(&mut self, name: String, status: BranchStatus)
        ensures
            final(self).branch_statuses@ == old(self).branch_statuses@.push((name, status)),
            cached_status(final(self).branch_statuses@, name@) == Some(status),
            (App { branch_statuses: final(self).branch_statuses, ..*old(self) }) == *final(self),
    {
        self.branch_statuses.push((name, status));
        assert(self.branch_statuses@.last() == (name, status));
    }

    /// Whether a branch's status has yet to be computed.
    pub fn needs_branch_status(&self, name: &str) -> (r: bool)
        ensures
            r == cached_status(self.branch_statuses@, name@) is None,
    {
        self.get_branch_status(name).is_none()
    }

    /// Pulls the selection back within the visible list.
    fn clamp_selection(&mut self)
        ensures
            *final(self) == (App {
                selected_index: clamped(old(self).selected_index, old(self).visible().len()),
                ..*old(self)
            }),
    {
        let n = self.visible_count();
        if n == 0 {
            self.selected_index = 0;
        } else if self.selected_index >= n {
            self.selected_index = n - 1;
        }
    }

    /// Shows or hides protected branches.
    pub fn toggle_show_protected(&mut self)
        requires
            old(self).wf(),
        ensures
            final(self).wf(),
            final(self).show_protected == !old(self).show_protected,
            final(self).selected_index == clamped(old(self).selected_index, final(self).visible().len()),
            (App {
                show_protected: final(self).show_protected,
                selected_index: final(self).selected_index,
                ..*old(self)
            }) == *final(self),
    {
        self.show_protected = !self.show_protected;
        self.clamp_selection();
    }

    /// Enters delete confirmation for the selected branch, if there is one.
    pub fn enter_delete_mode(&mut self)
        ensures
            old(self).selected() is None ==> *final(self) == *old(self),
            old(self).selected() matches Some(b) ==> final(self).mode matches AppMode::ConfirmDelete(
                n,
            ) && n@ == b.name@,
            (App { mode: final(self).mode, ..*old(self) }) == *final(self),
    {
        let name = match self.selected_branch() {
            Some(b) => Some(b.name.clone()),
            None => None,
        };
        if let Some(n) = name {
            self.mode = AppMode::ConfirmDelete(n);
        }
    }

    /// Leaves any modal and returns to normal mode.
    pub fn cancel_mode(&mut self)
        ensures
            *final(self) == (App { mode: AppMode::Normal, ..*old(self) }),
    {
        self.mode = AppMode::Normal;
    }

    /// Shows an error until it is dismissed.
    pub fn show_error_popup(&mut self, message: String)
        ensures
            *final(self) == (App { mode: AppMode::ErrorPopup(message), ..*old(self) }),
    {
        self.mode = AppMode::ErrorPopup(message);
    }

    pub fn is_normal_mode(&self) -> (r: bool)
        ensures
            r == self.mode is Normal,
    {
        match self.mode {
            AppMode::Normal => true,
            _ => false,
        }
    }

    /// Shows a message on the status line for `duration_secs` seconds from `now_ms`.
    pub fn set_status_message(&mut self, text: String, is_error: bool, duration_secs: u64, now_ms: u64)
        ensures
            *final(self) == (App {
                status_message: Some(
                    StatusMessage { text, is_error, expires_at: expiry(now_ms, duration_secs) },
                ),
                ..*old(self)
            }),
    {
        let expires_at = if duration_secs > (u64::MAX - now_ms) / 1000 {
            u64::MAX
        } else {
            now_ms + duration_secs * 1000
        };
        self.status_message = Some(StatusMessage { text, is_error, expires_at });
    }

    /// The status message, unless it has expired at `now_ms`.
    pub fn get_status_message(&self, now_ms: u64) -> (r: Option<&StatusMessage>)
        ensures
            r is Some <==> (self.status_message matches Some(m) && m.expires_at > now_ms),
            r matches Some(m) ==> Some(*m) == self.status_message,
    {
        match &self.status_message {
            Some(m) => if m.expires_at > now_ms {
                Some(m)
            } else {
                None
            },
            None => None,
        }
    }

    /// Drops the status message once it has expired at `now_ms`.
    pub fn clear_expired_status(&mut self, now_ms: u64)
        ensures
            (old(self).status_message matches Some(m) && m.expires_at <= now_ms) ==> *final(self)
                == (App { status_message: None, ..*old(self) }),
            !(old(self).status_message matches Some(m) && m.expires_at <= now_ms) ==> *final(self)
                == *old(self),
    {
        let expired = match &self.status_message {
            Some(m) => m.expires_at <= now_ms,
            None => false,
        };
        if expired {
            self.status_message = None;
        }
    }

    /// Records a deleted branch for the exit summary.
    pub fn record_deleted_branch(&mut self, name: String, commit_sha: String)
        ensures
            final(self).deleted_branches@ == old(self).deleted_branches@.push(
                DeletedBranch { name, commit_sha },
            ),
            (App { deleted_branches: final(self).deleted_branches, ..*old(self) }) == *final(self),
    {
        self.deleted_branches.push(DeletedBranch { name, commit_sha });
    }

    /// Removes the first branch with this name and pulls the selection back
    /// within the visible list.
    pub fn remove_branch(&mut self, name: &str)
        requires
            old(self).wf(),
        ensures
            final(self).wf(),
            final(self).branches@ == if name_index_from(old(self).branches@, name@, 0) >= 0 {
                old(self).branches@.remove(name_index_from(old(self).branches@, name@, 0))
            } else {
                old(self).branches@
            },
            final(self).selected_index == clamped(old(self).selected_index, final(self).visible().len()),
            (App {
                branches: final(self).branches,
                selected_index: final(self).selected_index,
                ..*old(self)
            }) == *final(self),
            unique_names(old(self).branches@) ==> forall|k: int|
                0 <= k < final(self).branches@.len() ==> (#[trigger] final(self).branches@[k]).name@
                    != name@,
    {
        proof {
            lemma_name_index(old(self).branches@, name@, 0);
        }
        let key = name.to_string();
        let mut i: usize = 0;
        while i < self.branches.len()
            invariant
                *self == *old(self),
                old(self).wf(),
                i <= self.branches@.len(),
                key@ == name@,
                name_index_from(self.branches@, name@, 0) == name_index_from(
                    self.branches@,
                    name@,
                    i as int,
                ),
            decreases self.branches@.len() - i,
        {
            if self.branches[i].name == key {
                self.branches.remove(i);
                self.clamp_selection();
                return;
            }
            i = i + 1;
        }
    }

    /// Marks `name` as the checked-out branch and every other as not.
    pub fn update_current_branch(&mut self, name: &str)
        requires
            old(self).wf(),
        ensures
            final(self).wf(),
            final(self).branches@.len() == old(self).branches@.len(),
            forall|i: int|
                0 <= i < old(self).branches@.len() ==> #[trigger] final(self).branches@[i]
                    == after_checkout(old(self).branches@[i], name@),
            final(self).selected_index == clamped(old(self).selected_index, final(self).visible().len()),
            (App {
                branches: final(self).branches,
                selected_index: final(self).selected_index,
                ..*old(self)
            }) == *final(self),
    {
        let key = name.to_string();
        let mut out: Vec<BranchInfo> = Vec::new();
        let mut i: usize = 0;
        while i < self.branches.len()
            invariant
                i <= self.branches@.len(),
                key@ == name@,
                out@.len() == i,
                forall|k: int| 0 <= k < i ==> #[trigger] out@[k] == after_checkout(self.branches@[k], name@),
            decreases self.branches@.len() - i,
        {
            let b = &self.branches[i];
            let is_current = b.name == key;
            out.push(BranchInfo {
                name: b.name.clone(),
                work_item_id: b.work_item_id,
                is_current,
                is_protected: b.is_protected,
            });
            i = i + 1;
        }
        self.branches = out;
        self.clamp_selection();
    }

    /// What stops the selected branch from being deleted, as a message.
    pub open spec fn deletion_block(&self) -> Option<Seq<char>> {
        match self.selected() {
            None => Some("No branch selected"@),
            Some(b) => if b.is_current {
                Some(refusal_message(DeleteRefusal::Current, b.name@))
            } else if protected_by(b.name@, self.protected_patterns@) {
                Some(refusal_message(DeleteRefusal::Protected, b.name@))
            } else {
                None
            },
        }
    }

    /// Checks whether the selected branch can be deleted; the error says why not.
    pub fn can_delete_selected(&self) -> (r: Result<(), String>)
        ensures
            r is Ok <==> self.deletion_block() is None,
            r matches Err(e) ==> Some(e@) == self.deletion_block(),
    {
        let branch = match self.selected_branch() {
            Some(b) => b,
            None => return Err("No branch selected".to_string()),
        };
        if branch.is_current {
            return Err(refusal_text(DeleteRefusal::Current, branch.name.as_str()));
        }
        if is_protected(branch.name.as_str(), self.protected_patterns.as_slice()) {
            return Err(refusal_text(DeleteRefusal::Protected, branch.name.as_str()));
        }
        Ok(())
    }
}

/// Deleting the checked-out branch is always refused, with its own message.
pub proof fn lemma_current_branch_not_deletable(app: App)
    requires
        app.selected() matches Some(b) && b.is_current,
    ensures
        app.deletion_block() == Some(refusal_message(DeleteRefusal::Current, app.selected()->0.name@)),
{
}

/// Deleting a branch that matches a configured protected pattern is always refused.
pub proof fn lemma_protected_branch_not_deletable(app: App)
    requires
        app.selected() matches Some(b) && protected_by(b.name@, app.protected_patterns@),
    ensures
        app.deletion_block() is Some,
{
}

/// In every well-formed state the selection points into a non-empty visible list.
pub proof fn lemma_selection_in_bounds(app: App)
    requires
        app.wf(),
    ensures
        app.visible().len() > 0 ==> app.selected_index < app.visible().len(),
        app.visible().len() > 0 ==> app.selected() is Some,
{
}

} // verus!
