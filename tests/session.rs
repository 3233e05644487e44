use std::collections::HashSet;

use cazdo::app::{App, AppMode, BranchInfo, WorkItemStatus};
use cazdo::git::{check_deletable, BranchStatus, DeleteRefusal, RemoteStatus};
use cazdo::session::{
    apply_checkout_outcome, apply_delete_outcome, build_branch_infos, handle_key_event,
    handle_mouse_event, process_fetch_result, refresh_work_item, restore_line,
    trigger_work_item_fetch, Action, FetchResult, Key, KeyInput, MouseInput,
};
use cazdo::work_item::{WorkItem, WorkItemState, WorkItemType};

fn key(code: Key) -> KeyInput {
    KeyInput { code, ctrl: false, shift: false }
}

fn sample_item(id: u32) -> WorkItem {
    WorkItem {
        id,
        title: "T".to_string(),
        work_item_type: WorkItemType::Task,
        state: WorkItemState::Active,
        assigned_to: None,
        url: Some("https://example.com/wi".to_string()),
        tags: Vec::new(),
        rich_text_fields: Vec::new(),
    }
}

fn defaults() -> Vec<String> {
    vec!["main".to_string(), "master".to_string()]
}

fn session_app() -> App {
    let names = vec!["feature/123-x".to_string(), "main".to_string()];
    let infos = build_branch_infos(names, "main", &defaults());
    App::new(infos, defaults())
}

fn selected_name(app: &App) -> Option<String> {
    app.selected_branch().map(|b| b.name.clone())
}

#[test]
fn end_to_end_delete_flow() {
    let mut app = session_app();
    let visible: Vec<String> = app.visible_branches().iter().map(|b| b.name.clone()).collect();
    assert_eq!(visible, vec!["feature/123-x".to_string(), "main".to_string()]);
    let main = app.visible_branches()[1].clone();
    assert!(main.is_current);
    assert!(main.is_protected);
    assert_eq!(app.branches[0].work_item_id, Some(123));
    assert_eq!(app.branches[1].work_item_id, None);

    // Deleting the current branch is refused with its message.
    handle_key_event(&mut app, key(Key::Down), 0);
    assert_eq!(selected_name(&app).as_deref(), Some("main"));
    let r = handle_key_event(&mut app, key(Key::Char('d')), 1000);
    assert!(r.is_none());
    assert!(app.is_normal_mode());
    let msg = app.get_status_message(1000).unwrap();
    assert_eq!(msg.text, "Cannot delete the current branch");
    assert!(msg.is_error);

    // Deleting the feature branch goes through confirmation.
    handle_key_event(&mut app, key(Key::Up), 1000);
    assert_eq!(selected_name(&app).as_deref(), Some("feature/123-x"));
    assert!(handle_key_event(&mut app, key(Key::Char('d')), 1000).is_none());
    assert!(matches!(&app.mode, AppMode::ConfirmDelete(n) if n == "feature/123-x"));
    let action = handle_key_event(&mut app, key(Key::Char('y')), 1000);
    assert!(matches!(&action, Some(Action::Delete(n)) if n == "feature/123-x"));
    assert!(app.is_normal_mode());

    let sha = "0123456789abcdef0123456789abcdef01234567".to_string();
    apply_delete_outcome(&mut app, "feature/123-x", Ok(sha.clone()), 2000);
    let visible: Vec<String> = app.visible_branches().iter().map(|b| b.name.clone()).collect();
    assert_eq!(visible, vec!["main".to_string()]);
    assert_eq!(app.deleted_branches.len(), 1);
    assert_eq!(app.deleted_branches[0].name, "feature/123-x");
    assert_eq!(app.deleted_branches[0].commit_sha, sha);
    assert_eq!(app.selected_index, 0);
    assert_eq!(app.get_status_message(2000).unwrap().text, "Deleted feature/123-x (was 0123456)");
    assert_eq!(
        restore_line(&app.deleted_branches[0]),
        "  • feature/123-x (was 0123456) - restore: git checkout -b feature/123-x 0123456789abcdef0123456789abcdef01234567"
    );
}

#[test]
fn protected_branch_delete_refused() {
    let names = vec!["develop".to_string(), "release/1".to_string(), "main".to_string()];
    let patterns = vec!["release/*".to_string(), "main".to_string()];
    let infos = build_branch_infos(names, "develop", &patterns);
    let mut app = App::new(infos, patterns);
    app.toggle_show_protected();
    handle_key_event(&mut app, key(Key::Down), 0);
    assert_eq!(selected_name(&app).as_deref(), Some("release/1"));
    assert_eq!(
        app.can_delete_selected(),
        Err("Cannot delete protected branch 'release/1'".to_string())
    );
    let force = KeyInput { code: Key::Char('D'), ctrl: false, shift: true };
    assert!(handle_key_event(&mut app, force, 0).is_none());
    assert_eq!(
        app.get_status_message(0).unwrap().text,
        "Cannot delete protected branch 'release/1'"
    );
    assert_eq!(app.branches.len(), 3);
}

#[test]
fn delete_check_rules() {
    let patterns = defaults();
    assert_eq!(check_deletable("main", "feature", &patterns), Some(DeleteRefusal::Protected));
    assert_eq!(check_deletable("feature", "feature", &patterns), Some(DeleteRefusal::Current));
    assert_eq!(check_deletable("feature", "main", &patterns), None);
}

#[test]
fn no_branch_selected_refuses_delete() {
    let app = App::new(Vec::new(), defaults());
    assert_eq!(app.can_delete_selected(), Err("No branch selected".to_string()));
}

#[test]
fn selection_stays_in_bounds_after_mutations() {
    let names: Vec<String> = ["a", "b", "c", "main"].iter().map(|s| s.to_string()).collect();
    let infos = build_branch_infos(names, "a", &defaults());
    let mut app = App::new(infos, defaults());
    assert_eq!(app.visible_count(), 3);
    app.previous();
    assert_eq!(app.selected_index, 2);
    app.next();
    assert_eq!(app.selected_index, 0);
    app.previous();
    app.remove_branch("c");
    assert_eq!(app.visible_count(), 2);
    assert_eq!(app.selected_index, 1);
    app.toggle_show_protected();
    assert_eq!(app.visible_count(), 3);
    app.next();
    app.toggle_show_protected();
    assert!(app.selected_index < app.visible_count());
    app.remove_branch("b");
    app.remove_branch("a");
    assert_eq!(app.visible_count(), 0);
    assert_eq!(app.selected_index, 0);
    assert!(app.selected_branch().is_none());
    app.remove_branch("missing");
    assert_eq!(app.branches.len(), 1);
}

#[test]
fn single_fetch_in_flight() {
    let mut app = session_app();
    let mut pending: HashSet<u32> = HashSet::new();
    assert_eq!(trigger_work_item_fetch(&mut app, &mut pending), Some(123));
    assert!(matches!(app.get_work_item_status(123), WorkItemStatus::Loading));
    for _ in 0..3 {
        app.next();
        app.next();
        assert_eq!(trigger_work_item_fetch(&mut app, &mut pending), None);
    }
    assert_eq!(pending.len(), 1);

    // A reset followed by reselection starts exactly one new fetch.
    refresh_work_item(&mut app, &mut pending, 123);
    assert!(matches!(app.get_work_item_status(123), WorkItemStatus::NotFetched));
    assert_eq!(trigger_work_item_fetch(&mut app, &mut pending), Some(123));
    assert_eq!(trigger_work_item_fetch(&mut app, &mut pending), None);

    process_fetch_result(&mut app, &mut pending, FetchResult::Success { id: 123, work_item: sample_item(123) });
    assert!(matches!(app.get_work_item_status(123), WorkItemStatus::Loaded(w) if w.id == 123));
    assert!(pending.is_empty());
    assert_eq!(trigger_work_item_fetch(&mut app, &mut pending), None);
}

#[test]
fn cancelled_fetch_result_is_dropped() {
    let mut app = session_app();
    let mut pending: HashSet<u32> = HashSet::new();
    assert_eq!(trigger_work_item_fetch(&mut app, &mut pending), Some(123));
    refresh_work_item(&mut app, &mut pending, 123);
    process_fetch_result(&mut app, &mut pending, FetchResult::Error { id: 123, error: "late".to_string() });
    assert!(matches!(app.get_work_item_status(123), WorkItemStatus::NotFetched));

    assert_eq!(trigger_work_item_fetch(&mut app, &mut pending), Some(123));
    process_fetch_result(&mut app, &mut pending, FetchResult::Error { id: 123, error: "Work Item #123 not found".to_string() });
    assert!(matches!(app.get_work_item_status(123), WorkItemStatus::Error(e) if e == "Work Item #123 not found"));
}

#[test]
fn refresh_key_names_selected_item() {
    let mut app = session_app();
    let r = handle_key_event(&mut app, key(Key::Char('r')), 0);
    assert!(matches!(r, Some(Action::Refresh(123))));
    let r = handle_key_event(&mut app, key(Key::Enter), 0);
    assert!(matches!(&r, Some(Action::Checkout(n)) if n == "feature/123-x"));
    let r = handle_key_event(&mut app, key(Key::Char('o')), 0);
    assert!(matches!(r, Some(Action::OpenWorkItem)));
    let r = handle_key_event(&mut app, key(Key::Char('x')), 0);
    assert!(r.is_none());
    handle_key_event(&mut app, key(Key::Char('q')), 0);
    assert!(app.should_quit);
}

#[test]
fn checkout_outcomes() {
    let mut app = session_app();
    apply_checkout_outcome(&mut app, "feature/123-x", Ok(()), 0);
    assert!(app.branches[0].is_current);
    assert!(!app.branches[1].is_current);
    assert_eq!(app.get_status_message(0).unwrap().text, "Switched to branch 'feature/123-x'");
    // main is protected and no longer current, so it leaves the list.
    assert_eq!(app.visible_count(), 1);

    apply_checkout_outcome(&mut app, "feature/123-x", Err("conflict".to_string()), 0);
    assert!(matches!(&app.mode, AppMode::ErrorPopup(m) if m == "conflict"));
    let r = handle_key_event(&mut app, key(Key::Char('d')), 0);
    assert!(r.is_none());
    assert!(matches!(&app.mode, AppMode::ErrorPopup(_)));
    handle_key_event(&mut app, key(Key::Esc), 0);
    assert!(app.is_normal_mode());
}

#[test]
fn status_message_expires() {
    let mut app = session_app();
    app.set_status_message("hi".to_string(), false, 4, 1_000);
    assert!(app.get_status_message(4_999).is_some());
    assert!(app.get_status_message(5_000).is_none());
    app.clear_expired_status(4_000);
    assert!(app.status_message.is_some());
    app.clear_expired_status(5_000);
    assert!(app.status_message.is_none());
}

#[test]
fn scrolling_is_bounded() {
    let mut app = session_app();
    app.set_content_height(30);
    app.scroll_down(25, 10);
    assert_eq!(app.scroll_offset, 20);
    app.scroll_up(5);
    assert_eq!(app.scroll_offset, 15);
    app.scroll_up(50);
    assert_eq!(app.scroll_offset, 0);
    app.scroll_down(u16::MAX, 10);
    assert_eq!(app.scroll_offset, 20);
    app.set_content_height(12);
    assert_eq!(app.scroll_offset, 2);
    let shift_down = KeyInput { code: Key::Char('j'), ctrl: false, shift: true };
    app.scroll_up(2);
    handle_key_event(&mut app, shift_down, 0);
    assert_eq!(app.scroll_offset, 2);
    handle_mouse_event(&mut app, MouseInput::ScrollUp);
    assert_eq!(app.scroll_offset, 0);
}

#[test]
fn cancel_confirmation_keeps_branch() {
    let mut app = session_app();
    handle_key_event(&mut app, key(Key::Char('d')), 0);
    assert!(matches!(&app.mode, AppMode::ConfirmDelete(_)));
    let r = handle_key_event(&mut app, key(Key::Char('n')), 0);
    assert!(r.is_none());
    assert!(app.is_normal_mode());
    assert_eq!(app.branches.len(), 2);
}

#[test]
fn branch_status_cache() {
    let mut app = session_app();
    assert!(app.needs_branch_status("main"));
    app.set_branch_status(
        "main".to_string(),
        BranchStatus { remote_status: RemoteStatus::UpToDate, last_commit_author: None, last_commit_time: Some(5) },
    );
    assert!(!app.needs_branch_status("main"));
    assert!(app.needs_branch_status("feature/123-x"));
    assert_eq!(app.get_branch_status("main").unwrap().remote_status, RemoteStatus::UpToDate);
}

#[test]
fn branch_infos_from_names() {
    let infos: Vec<BranchInfo> = build_branch_infos(
        vec!["main".to_string(), "bug/4711-fix".to_string(), "x".to_string()],
        "x",
        &defaults(),
    );
    assert_eq!(infos.len(), 3);
    assert!(infos[0].is_protected && infos[0].work_item_id.is_none() && !infos[0].is_current);
    assert_eq!(infos[1].work_item_id, Some(4711));
    assert!(infos[2].is_current && !infos[2].is_protected && infos[2].work_item_id.is_none());
}
