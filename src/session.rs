//! Decisions of the interactive loop: key and mouse handling, the work-item
//! fetch orchestration, and how outcomes of git operations update the state.
//! The loop that polls input, spawns lookups and talks to git sits outside;
//! it hands each event here and carries out the action that comes back.

use std::collections::HashSet;
use vstd::prelude::*;
use crate::app::{
    App, AppMode, BranchInfo, DeletedBranch, WorkItemStatus, after_checkout, clamped, expiry,
    name_index_from, unique_names,
};
use crate::git::{extract_work_item_number, work_item_number};
use crate::pattern::{is_protected, protected_by};
use crate::work_item::WorkItem;

verus! {

/// Seconds a status message stays on screen.
pub const STATUS_DURATION_SECS: u64 = 4;

/// Lines scrolled by shift-navigation or the mouse wheel.
pub const LINE_SCROLL_AMOUNT: u16 = 3;

/// Page scrolling moves the viewport height divided by this.
pub const PAGE_SCROLL_DIVISOR: u16 = 2;

/// A key, as far as the bindings tell keys apart.
#[derive(Debug, Clone, Copy, PartialEq, Eq, Structural)]
pub enum Key {
    Char(char),
    Up,
    Down,
    PageUp,
    PageDown,
    Enter,
    Esc,
    Other,
}

/// A key press with its modifiers.
#[derive(Debug, Clone, Copy, PartialEq, Eq, Structural)]
pub struct KeyInput {
    pub code: Key,
    pub ctrl: bool,
    pub shift: bool,
}

/// A mouse event, as far as the bindings tell them apart.
#[derive(Debug, Clone, Copy, PartialEq, Eq, Structural)]
pub enum MouseInput {
    ScrollDown,
    ScrollUp,
    Other,
}

/// Work for the loop to carry out after a key press.
#[derive(Debug, Clone)]
pub enum Action {
    /// Delete the named branch.
    Delete(String),
    /// Fetch the work item again.
    Refresh(u32),
    /// Open the selected work item in a browser.
    OpenWorkItem,
    /// Check out the named branch.
    Checkout(String),
}

/// What a key means in normal mode.
#[derive(Debug, Clone, Copy, PartialEq, Eq, Structural)]
pub enum Command {
    Quit,
    Next,
    Previous,
    LineDown,
    LineUp,
    PageDown,
    PageUp,
    Delete,
    ForceDelete,
    Open,
    Checkout,
    Refresh,
    ToggleProtected,
    Ignore,
}

/// The normal-mode key bindings.
pub open spec fn normal_command(k: KeyInput) -> Command {
    if k.code == Key::Char('q') || k.code == Key::Esc {
        Command::Quit
    } else if k.code == Key::Char('c') && k.ctrl {
        Command::Quit
    } else if k.code == Key::Down || k.code == Key::Char('j') {
        if k.shift {
            Command::LineDown
        } else {
            Command::Next
        }
    } else if k.code == Key::Up || k.code == Key::Char('k') {
        if k.shift {
            Command::LineUp
        } else {
            Command::Previous
        }
    } else if k.code == Key::PageDown {
        Command::PageDown
    } else if k.code == Key::PageUp {
        Command::PageUp
    } else if k.code == Key::Char('d') && k.ctrl {
        Command::PageDown
    } else if k.code == Key::Char('u') && k.ctrl {
        Command::PageUp
    } else if k.code == Key::Char('d') {
        Command::Delete
    } else if k.code == Key::Char('D') {
        Command::ForceDelete
    } else if k.code == Key::Char('o') {
        Command::Open
    } else if k.code == Key::Enter {
        Command::Checkout
    } else if k.code == Key::Char('r') {
        Command::Refresh
    } else if k.code == Key::Char('p') {
        Command::ToggleProtected
    } else {
        Command::Ignore
    }
}

/// Maps a key to its normal-mode command.
pub fn command_for_key(k: KeyInput) -> (r: Command)
    ensures
        r == normal_command(k),
{
    if k.code == Key::Char('q') || k.code == Key::Esc {
        Command::Quit
    } else if k.code == Key::Char('c') && k.ctrl {
        Command::Quit
    } else if k.code == Key::Down || k.code == Key::Char('j') {
        if k.shift {
            Command::LineDown
        } else {
            Command::Next
        }
    } else if k.code == Key::Up || k.code == Key::Char('k') {
        if k.shift {
            Command::LineUp
        } else {
            Command::Previous
        }
    } else if k.code == Key::PageDown {
        Command::PageDown
    } else if k.code == Key::PageUp {
        Command::PageUp
    } else if k.code == Key::Char('d') && k.ctrl {
        Command::PageDown
    } else if k.code == Key::Char('u') && k.ctrl {
        Command::PageUp
    } else if k.code == Key::Char('d') {
        Command::Delete
    } else if k.code == Key::Char('D') {
        Command::ForceDelete
    } else if k.code == Key::Char('o') {
        Command::Open
    } else if k.code == Key::Enter {
        Command::Checkout
    } else if k.code == Key::Char('r') {
        Command::Refresh
    } else if k.code == Key::Char('p') {
        Command::ToggleProtected
    } else {
        Command::Ignore
    }
}

/// The state after a refused deletion: an error on the status line, nothing else changed.
pub open spec fn refused(old_app: App, new_app: App, msg: Seq<char>, now_ms: u64) -> bool {
    &&& new_app.status_message matches Some(m) && m.text@ == msg && m.is_error && m.expires_at
        == expiry(now_ms, STATUS_DURATION_SECS)
    &&& (App { status_message: new_app.status_message, ..old_app }) == new_app
}

/// What a normal-mode key does to the state (`old_app` to `new_app`) and
/// which action it asks for.
pub open spec fn normal_key_outcome(
    old_app: App,
    new_app: App,
    key: KeyInput,
    now_ms: u64,
    r: Option<Action>,
) -> bool {
    match normal_command(key) {
        Command::Quit => r is None && new_app == (App { should_quit: true, ..old_app }),
        Command::Next => r is None && new_app == old_app.after_next(),
        Command::Previous => r is None && new_app == old_app.after_previous(),
        Command::LineDown => r is None && new_app == old_app.after_scroll_down(
            LINE_SCROLL_AMOUNT,
            old_app.visible_height,
        ),
        Command::LineUp => r is None && new_app == old_app.after_scroll_up(
            LINE_SCROLL_AMOUNT,
        ),
        Command::PageDown => r is None && new_app == old_app.after_scroll_down(
            (old_app.visible_height / PAGE_SCROLL_DIVISOR) as u16,
            old_app.visible_height,
        ),
        Command::PageUp => r is None && new_app == old_app.after_scroll_up(
            (old_app.visible_height / PAGE_SCROLL_DIVISOR) as u16,
        ),
        Command::Delete => r is None && match old_app.deletion_block() {
            Some(msg) => refused(old_app, new_app, msg, now_ms),
            None => new_app.mode matches AppMode::ConfirmDelete(n)
                && n@ == old_app.selected()->0.name@
                && (App { mode: new_app.mode, ..old_app }) == new_app,
        },
        Command::ForceDelete => match old_app.deletion_block() {
            Some(msg) => r is None && refused(old_app, new_app, msg, now_ms),
            None => r matches Some(Action::Delete(n)) && n@ == old_app.selected()->0.name@
                && new_app == old_app,
        },
        Command::Open => r matches Some(Action::OpenWorkItem) && new_app == old_app,
        Command::Checkout => new_app == old_app && match old_app.selected() {
            Some(b) => r matches Some(Action::Checkout(n)) && n@ == b.name@,
            None => r is None,
        },
        Command::Refresh => new_app == old_app && match old_app.selected_item() {
            Some(id) => r matches Some(Action::Refresh(x)) && x == id,
            None => r is None,
        },
        Command::ToggleProtected => r is None && new_app.show_protected
            == !old_app.show_protected && new_app.selected_index == clamped(
            old_app.selected_index,
            new_app.visible().len(),
        ) && (App {
            show_protected: new_app.show_protected,
            selected_index: new_app.selected_index,
            ..old_app
        }) == new_app,
        Command::Ignore => r is None && new_app == old_app,
    }
}

/// Handles a key in normal mode; returns the action to carry out, if any.
pub fn handle_normal_mode_key(app: &mut App, key: KeyInput, now_ms: u64) -> (r: Option<Action>)
    requires
        old(app).wf(),
    ensures
        final(app).wf(),
        normal_key_outcome(*old(app), *final(app), key, now_ms, r),
{
    match command_for_key(key) {
        Command::Quit => {
            app.quit();
            None
        },
        Command::Next => {
            app.next();
            None
        },
        Command::Previous => {
            app.previous();
            None
        },
        Command::LineDown => {
            let h = app.visible_height;
            app.scroll_down(LINE_SCROLL_AMOUNT, h);
            None
        },
        Command::LineUp => {
            app.scroll_up(LINE_SCROLL_AMOUNT);
            None
        },
        Command::PageDown => {
            let h = app.visible_height;
            app.scroll_down(h / PAGE_SCROLL_DIVISOR, h);
            None
        },
        Command::PageUp => {
            let h = app.visible_height;
            app.scroll_up(h / PAGE_SCROLL_DIVISOR);
            None
        },
        Command::Delete => {
            match app.can_delete_selected() {
                Err(e) => app.set_status_message(e, true, STATUS_DURATION_SECS, now_ms),
                Ok(()) => app.enter_delete_mode(),
            }
            None
        },
        Command::ForceDelete => {
            match app.can_delete_selected() {
                Err(e) => {
                    app.set_status_message(e, true, STATUS_DURATION_SECS, now_ms);
                    None
                },
                Ok(()) => match app.selected_branch() {
                    Some(b) => Some(Action::Delete(b.name.clone())),
                    None => None,
                },
            }
        },
        Command::Open => Some(Action::OpenWorkItem),
        Command::Checkout => match app.selected_branch() {
            Some(b) => Some(Action::Checkout(b.name.clone())),
            None => None,
        },
        Command::Refresh => match app.selected_work_item_id() {
            Some(id) => Some(Action::Refresh(id)),
            None => None,
        },
        Command::ToggleProtected => {
            app.toggle_show_protected();
            None
        },
        Command::Ignore => None,
    }
}

/// Handles a key while a deletion waits for confirmation.
pub fn handle_confirm_delete_key(app: &mut App, key: KeyInput, branch_name: &str) -> (r: Option<
    Action,
>)
    ensures
        if key.code == Key::Char('y') || key.code == Key::Enter {
            &&& r matches Some(Action::Delete(n)) && n@ == branch_name@
            &&& *final(app) == (App { mode: AppMode::Normal, ..*old(app) })
        } else if key.code == Key::Char('n') || key.code == Key::Esc || key.code == Key::Char('q') {
            r is None && *final(app) == (App { mode: AppMode::Normal, ..*old(app) })
        } else {
            r is None && *final(app) == *old(app)
        },
{
    if key.code == Key::Char('y') || key.code == Key::Enter {
        let action = Action::Delete(branch_name.to_string());
        app.cancel_mode();
        Some(action)
    } else if key.code == Key::Char('n') || key.code == Key::Esc || key.code == Key::Char('q') {
        app.cancel_mode();
        None
    } else {
        None
    }
}

/// Handles a key while an error is shown: Enter, Esc or `q` dismisses it.
pub fn handle_error_popup_key(app: &mut App, key: KeyInput)
    ensures
        if key.code == Key::Enter || key.code == Key::Esc || key.code == Key::Char('q') {
            *final(app) == (App { mode: AppMode::Normal, ..*old(app) })
        } else {
            *final(app) == *old(app)
        },
{
    if key.code == Key::Enter || key.code == Key::Esc || key.code == Key::Char('q') {
        app.cancel_mode();
    }
}

/// Handles a key according to the current mode.
pub fn handle_key_event(app: &mut App, key: KeyInput, now_ms: u64) -> (r: Option<Action>)
    requires
        old(app).wf(),
    ensures
        final(app).wf(),
        old(app).mode is Normal ==> normal_key_outcome(*old(app), *final(app), key, now_ms, r),
        !(old(app).mode is Normal) ==> final(app).branches == old(app).branches && final(app).selected_index == old(app).selected_index && final(app).should_quit == old(app).should_quit,
        old(app).mode matches AppMode::ConfirmDelete(n) ==> (if key.code == Key::Char('y')
            || key.code == Key::Enter {
            r matches Some(Action::Delete(d)) && d@ == n@
        } else {
            r is None
        }),
        old(app).mode is ErrorPopup ==> r is None,
{
    let pending_delete = match &app.mode {
        AppMode::Normal => None,
        AppMode::ConfirmDelete(name) => Some(Some(name.clone())),
        AppMode::ErrorPopup(_) => Some(None),
    };
    match pending_delete {
        None => handle_normal_mode_key(app, key, now_ms),
        Some(Some(name)) => handle_confirm_delete_key(app, key, name.as_str()),
        Some(None) => {
            handle_error_popup_key(app, key);
            None
        },
    }
}

/// Handles a mouse event: the wheel scrolls the details in normal mode.
pub fn handle_mouse_event(app: &mut App, mouse: MouseInput)
    requires
        old(app).wf(),
    ensures
        final(app).wf(),
        !(old(app).mode is Normal) || mouse == MouseInput::Other ==> *final(app) == *old(app),
        old(app).mode is Normal && mouse == MouseInput::ScrollDown ==> *final(app) == old(app).after_scroll_down(LINE_SCROLL_AMOUNT, old(app).visible_height),
        old(app).mode is Normal && mouse == MouseInput::ScrollUp ==> *final(app) == old(app).after_scroll_up(LINE_SCROLL_AMOUNT),
{
    if !app.is_normal_mode() {
        return;
    }
    match mouse {
        MouseInput::ScrollDown => {
            let h = app.visible_height;
            app.scroll_down(LINE_SCROLL_AMOUNT, h);
        },
        MouseInput::ScrollUp => app.scroll_up(LINE_SCROLL_AMOUNT),
        MouseInput::Other => {},
    }
}

/// The terminal message of one background lookup.
#[derive(Debug, Clone)]
pub enum FetchResult {
    Success { id: u32, work_item: WorkItem },
    Error { id: u32, error: String },
}

/// The fetch state of `id` in a status map; absent means not fetched.
pub open spec fn status_in(items: Map<u32, WorkItemStatus>, id: u32) -> WorkItemStatus {
    if items.contains_key(id) {
        items[id]
    } else {
        WorkItemStatus::NotFetched
    }
}

/// The lookup to start for the selected work item, if any: only one that
/// has not been fetched and is not in flight.
pub open spec fn fetch_decision(
    selected: Option<u32>,
    items: Map<u32, WorkItemStatus>,
    pending: Set<u32>,
) -> Option<u32> {
    match selected {
        Some(id) => if status_in(items, id) is NotFetched && !pending.contains(id) {
            Some(id)
        } else {
            None
        },
        None => None,
    }
}

/// An id is in flight exactly when its status is `Loading`.
pub open spec fn fetch_consistent(items: Map<u32, WorkItemStatus>, pending: Set<u32>) -> bool {
    forall|id: u32| #[trigger] pending.contains(id) <==> status_in(items, id) is Loading
}

/// Starts the lookup of the selected work item when it is due: marks it
/// loading and in flight, and returns the id for the loop to fetch.
pub fn trigger_work_item_fetch(app: &mut App, pending: &mut HashSet<u32>) -> (r: Option<u32>)
    requires
        old(app).wf(),
    ensures
        final(app).wf(),
        r == fetch_decision(old(app).selected_item(), old(app).work_items@, old(pending)@),
        r matches Some(id) ==> final(app).work_items@ == old(app).work_items@.insert(
            id,
            WorkItemStatus::Loading,
        ) && final(pending)@ == old(pending)@.insert(id),
        r is None ==> final(app).work_items@ == old(app).work_items@ && final(pending)@ == old(
            pending)@,
        (App { work_items: final(app).work_items, ..*old(app) }) == *final(app),
        fetch_consistent(old(app).work_items@, old(pending)@) ==> fetch_consistent(
            final(app).work_items@,
            final(pending)@,
        ),
{
    if let Some(id) = app.selected_work_item_id() {
        let not_fetched = match app.get_work_item_status(id) {
            WorkItemStatus::NotFetched => true,
            _ => false,
        };
        if not_fetched && !pending.contains(&id) {
            app.set_work_item_loading(id);
            pending.insert(id);
            return Some(id);
        }
    }
    None
}

/// Merges a finished lookup, unless it was cancelled (its id is no longer in flight).
pub fn process_fetch_result(app: &mut App, pending: &mut HashSet<u32>, result: FetchResult)
    requires
        old(app).wf(),
    ensures
        final(app).wf(),
        match result {
            FetchResult::Success { id, work_item } => if old(pending)@.contains(id) {
                final(app).work_items@ == old(app).work_items@.insert(
                    id,
                    WorkItemStatus::Loaded(work_item),
                ) && final(pending)@ == old(pending)@.remove(id)
            } else {
                final(app).work_items@ == old(app).work_items@ && final(pending)@ == old(pending)@
            },
            FetchResult::Error { id, error } => if old(pending)@.contains(id) {
                final(app).work_items@ == old(app).work_items@.insert(
                    id,
                    WorkItemStatus::Error(error),
                ) && final(pending)@ == old(pending)@.remove(id)
            } else {
                final(app).work_items@ == old(app).work_items@ && final(pending)@ == old(pending)@
            },
        },
        (App { work_items: final(app).work_items, ..*old(app) }) == *final(app),
        fetch_consistent(old(app).work_items@, old(pending)@) ==> fetch_consistent(
            final(app).work_items@,
            final(pending)@,
        ),
{
    match result {
        FetchResult::Success { id, work_item } => {
            if pending.contains(&id) {
                app.set_work_item_loaded(id, work_item);
                pending.remove(&id);
            }
        },
        FetchResult::Error { id, error } => {
            if pending.contains(&id) {
                app.set_work_item_error(id, error);
                pending.remove(&id);
            }
        },
    }
}

/// Cancels any lookup of `id` in flight and forgets its state, so that the
/// next tick fetches it again.
pub fn refresh_work_item(app: &mut App, pending: &mut HashSet<u32>, id: u32)
    requires
        old(app).wf(),
    ensures
        final(app).wf(),
        final(app).work_items@ == old(app).work_items@.remove(id),
        final(pending)@ == old(pending)@.remove(id),
        (App { work_items: final(app).work_items, ..*old(app) }) == *final(app),
        fetch_consistent(old(app).work_items@, old(pending)@) ==> fetch_consistent(
            final(app).work_items@,
            final(pending)@,
        ),
{
    pending.remove(&id);
    app.reset_work_item(id);
}

/// While a lookup of `id` is in flight, no second one is started for it,
/// however often its branch is selected again.
pub proof fn lemma_single_fetch_in_flight(
    selected: Option<u32>,
    items: Map<u32, WorkItemStatus>,
    pending: Set<u32>,
    id: u32,
)
    requires
        fetch_consistent(items, pending),
        pending.contains(id),
    ensures
        fetch_decision(selected, items, pending) != Some(id),
{
}

/// A merged result always ends a lookup that was loading: fetch states move
/// from not fetched to loading to loaded or failed, and back only by a reset.
pub proof fn lemma_result_ends_loading(items: Map<u32, WorkItemStatus>, pending: Set<u32>, id: u32)
    requires
        fetch_consistent(items, pending),
        pending.contains(id),
    ensures
        status_in(items, id) is Loading,
{
}

/// After a refresh of the selected work item exactly one new lookup starts:
/// the next tick starts it, and the tick after that starts none.
pub proof fn lemma_refresh_refetches_once(
    items: Map<u32, WorkItemStatus>,
    pending: Set<u32>,
    id: u32,
)
    ensures
        fetch_decision(Some(id), items.remove(id), pending.remove(id)) == Some(id),
        fetch_decision(
            Some(id),
            items.remove(id).insert(id, WorkItemStatus::Loading),
            pending.remove(id).insert(id),
        ) is None,
{
}

/// The abbreviated form of a commit id: its first seven characters.
pub open spec fn short_sha_of(sha: Seq<char>) -> Seq<char> {
    if sha.len() <= 7 {
        sha
    } else {
        sha.take(7)
    }
}

/// Abbreviates a commit id to its first seven characters.
pub fn short_sha(sha: &str) -> (r: String)
    ensures
        r@ == short_sha_of(sha@),
{
    let cs = crate::text::chars_of(sha);
    let mut out: Vec<char> = Vec::new();
    let mut i: usize = 0;
    while i < cs.len() && i < 7
        invariant
            i <= cs@.len(),
            i <= 7,
            out@ == cs@.take(i as int),
        decreases cs@.len() - i,
    {
        out.push(cs[i]);
        assert(cs@.take(i + 1) =~= cs@.take(i as int).push(cs@[i as int]));
        i = i + 1;
    }
    assert(cs@.len() <= 7 ==> cs@.take(i as int) =~= cs@);
    crate::text::string_of(&out)
}

/// Status text after a deletion.
pub open spec fn deleted_message(name: Seq<char>, sha: Seq<char>) -> Seq<char> {
    "Deleted "@ + name + " (was "@ + short_sha_of(sha) + ")"@
}

/// Status text after a checkout.
pub open spec fn switched_message(name: Seq<char>) -> Seq<char> {
    "Switched to branch '"@ + name + "'"@
}

/// Exit-summary line for a deleted branch, with the command that restores it.
pub open spec fn restore_message(name: Seq<char>, sha: Seq<char>) -> Seq<char> {
    "  • "@ + name + " (was "@ + short_sha_of(sha) + ") - restore: git checkout -b "@ + name + " "@
        + sha
}

/// The exit-summary line of a deleted branch.
pub fn restore_line(d: &DeletedBranch) -> (r: String)
    ensures
        r@ == restore_message(d.name@, d.commit_sha@),
{
    let mut s = "  • ".to_string();
    s.append(d.name.as_str());
    s.append(" (was ");
    let short = short_sha(d.commit_sha.as_str());
    s.append(short.as_str());
    s.append(") - restore: git checkout -b ");
    s.append(d.name.as_str());
    s.append(" ");
    s.append(d.commit_sha.as_str());
    s
}

/// Applies the outcome of deleting a branch: on success, the commit id it
/// pointed to is recorded, the branch leaves the list and the status line
/// says so; on failure, the status line shows the error.
pub fn apply_delete_outcome(
    app: &mut App,
    branch_name: &str,
    outcome: Result<String, String>,
    now_ms: u64,
)
    requires
        old(app).wf(),
    ensures
        final(app).wf(),
        match outcome {
            Ok(sha) => {
                &&& final(app).deleted_branches@.len() == old(app).deleted_branches@.len() + 1
                &&& final(app).deleted_branches@.drop_last() == old(app).deleted_branches@
                &&& final(app).deleted_branches@.last().name@ == branch_name@
                &&& final(app).deleted_branches@.last().commit_sha == sha
                &&& final(app).branches@ == if name_index_from(
                    old(app).branches@,
                    branch_name@,
                    0,
                ) >= 0 {
                    old(app).branches@.remove(name_index_from(old(app).branches@, branch_name@, 0))
                } else {
                    old(app).branches@
                }
                &&& final(app).selected_index == clamped(
                    old(app).selected_index,
                    final(app).visible().len(),
                )
                &&& unique_names(old(app).branches@) ==> forall|k: int|
                    0 <= k < final(app).branches@.len() ==> (#[trigger] final(app).branches@[k]).name@
                        != branch_name@
                &&& final(app).status_message matches Some(m) && m.text@ == deleted_message(
                    branch_name@,
                    sha@,
                ) && !m.is_error && m.expires_at == expiry(now_ms, STATUS_DURATION_SECS)
                &&& (App {
                    branches: final(app).branches,
                    selected_index: final(app).selected_index,
                    deleted_branches: final(app).deleted_branches,
                    status_message: final(app).status_message,
                    ..*old(app)
                }) == *final(app)
            },
            Err(e) => {
                &&& final(app).status_message matches Some(m) && m.text == e && m.is_error
                    && m.expires_at == expiry(now_ms, STATUS_DURATION_SECS)
                &&& (App { status_message: final(app).status_message, ..*old(app) }) == *final(app)
            },
        },
{
    match outcome {
        Ok(sha) => {
            let mut text = "Deleted ".to_string();
            text.append(branch_name);
            text.append(" (was ");
            let short = short_sha(sha.as_str());
            text.append(short.as_str());
            text.append(")");
            app.record_deleted_branch(branch_name.to_string(), sha);
            app.remove_branch(branch_name);
            app.set_status_message(text, false, STATUS_DURATION_SECS, now_ms);
        },
        Err(e) => {
            app.set_status_message(e, true, STATUS_DURATION_SECS, now_ms);
        },
    }
}

/// Applies the outcome of a checkout: on success the branch becomes the
/// current one and the status line says so; on failure an error popup opens.
pub fn apply_checkout_outcome(
    app: &mut App,
    branch_name: &str,
    outcome: Result<(), String>,
    now_ms: u64,
)
    requires
        old(app).wf(),
    ensures
        final(app).wf(),
        match outcome {
            Ok(()) => {
                &&& final(app).branches@.len() == old(app).branches@.len()
                &&& forall|i: int|
                    0 <= i < old(app).branches@.len() ==> #[trigger] final(app).branches@[i]
                        == after_checkout(old(app).branches@[i], branch_name@)
                &&& final(app).selected_index == clamped(
                    old(app).selected_index,
                    final(app).visible().len(),
                )
                &&& final(app).status_message matches Some(m) && m.text@ == switched_message(
                    branch_name@,
                ) && !m.is_error && m.expires_at == expiry(now_ms, STATUS_DURATION_SECS)
                &&& (App {
                    branches: final(app).branches,
                    selected_index: final(app).selected_index,
                    status_message: final(app).status_message,
                    ..*old(app)
                }) == *final(app)
            },
            Err(e) => *final(app) == (App { mode: AppMode::ErrorPopup(e), ..*old(app) }),
        },
{
    match outcome {
        Ok(()) => {
            app.update_current_branch(branch_name);
            let mut text = "Switched to branch '".to_string();
            text.append(branch_name);
            text.append("'");
            app.set_status_message(text, false, STATUS_DURATION_SECS, now_ms);
        },
        Err(e) => app.show_error_popup(e),
    }
}

/// The selected branch, when its status has yet to be computed.
pub fn branch_needing_status(app: &App) -> (r: Option<String>)
    ensures
        match app.selected() {
            Some(b) => if crate::app::cached_status(app.branch_statuses@, b.name@) is None {
                r matches Some(n) && n@ == b.name@
            } else {
                r is None
            },
            None => r is None,
        },
{
    match app.selected_branch() {
        Some(b) => if app.needs_branch_status(b.name.as_str()) {
            Some(b.name.clone())
        } else {
            None
        },
        None => None,
    }
}

/// The link of the selected work item, once it has loaded and has one.
pub fn current_work_item_url(app: &App) -> (r: Option<String>)
    ensures
        match app.selected_item() {
            Some(id) => match app.status_of(id) {
                WorkItemStatus::Loaded(wi) => match wi.url {
                    Some(u) => r matches Some(x) && x@ == u@,
                    None => r is None,
                },
                _ => r is None,
            },
            None => r is None,
        },
{
    if let Some(id) = app.selected_work_item_id() {
        if let WorkItemStatus::Loaded(wi) = app.get_work_item_status(id) {
            if let Some(u) = &wi.url {
                return Some(u.clone());
            }
        }
    }
    None
}

/// What the session knows of a branch name at startup.
pub open spec fn branch_info_for(b: BranchInfo, name: Seq<char>, current: Seq<char>, patterns: Seq<String>) -> bool {
    &&& b.name@ == name
    &&& b.is_current == (name == current)
    &&& b.is_protected == protected_by(name, patterns)
    &&& b.work_item_id == if protected_by(name, patterns) {
        None
    } else {
        work_item_number(name)
    }
}

/// Builds the branch list: which branch is checked out, which are protected,
/// and the work item each unprotected branch names.
pub fn build_branch_infos(names: Vec<String>, current: &str, patterns: &[String]) -> (r: Vec<
    BranchInfo,
>)
    ensures
        r@.len() == names@.len(),
        forall|i: int|
            0 <= i < names@.len() ==> branch_info_for(
                #[trigger] r@[i],
                names@[i]@,
                current@,
                patterns@,
            ),
{
    let cur = current.to_string();
    let mut out: Vec<BranchInfo> = Vec::new();
    let mut i: usize = 0;
    while i < names.len()
        invariant
            i <= names@.len(),
            cur@ == current@,
            out@.len() == i,
            forall|k: int|
                0 <= k < i ==> branch_info_for(#[trigger] out@[k], names@[k]@, current@, patterns@),
        decreases names@.len() - i,
    {
        let name = &names[i];
        let protected = is_protected(name.as_str(), patterns);
        let work_item_id = if protected {
            None
        } else {
            extract_work_item_number(name.as_str())
        };
        out.push(
            BranchInfo {
                name: name.clone(),
                work_item_id,
                is_current: *name == cur,
                is_protected: protected,
            },
        );
        i = i + 1;
    }
    out
}

} // verus!
