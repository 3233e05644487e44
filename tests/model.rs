use cazdo::git::{
    classify_remote, extract_work_item_number, order_branches, status_from_counts, RemoteStatus,
    UpstreamProbe,
};
use cazdo::layout::{format_remote_status, wrap_text};
use cazdo::style::Color;
use cazdo::work_item::{WorkItem, WorkItemFields, WorkItemState, WorkItemType};

#[test]
fn work_item_numbers_in_branch_names() {
    assert_eq!(extract_work_item_number("feature/123-x"), Some(123));
    assert_eq!(extract_work_item_number("bug-0042"), Some(42));
    assert_eq!(extract_work_item_number("main"), None);
    assert_eq!(extract_work_item_number("wi/99999999999"), None);
    assert_eq!(extract_work_item_number("a1b2"), Some(1));
}

#[test]
fn ahead_behind_classification() {
    assert_eq!(status_from_counts(0, 0), RemoteStatus::UpToDate);
    assert_eq!(status_from_counts(3, 0), RemoteStatus::Ahead(3));
    assert_eq!(status_from_counts(0, 2), RemoteStatus::Behind(2));
    assert_eq!(status_from_counts(1, 4), RemoteStatus::Diverged { ahead: 1, behind: 4 });
    assert_eq!(classify_remote(UpstreamProbe::Missing { configured: false }), RemoteStatus::LocalOnly);
    assert_eq!(classify_remote(UpstreamProbe::Missing { configured: true }), RemoteStatus::Gone);
    assert_eq!(classify_remote(UpstreamProbe::UpstreamUnresolved), RemoteStatus::Gone);
    assert_eq!(classify_remote(UpstreamProbe::LocalUnresolved), RemoteStatus::LocalOnly);
    assert_eq!(classify_remote(UpstreamProbe::CountFailed), RemoteStatus::LocalOnly);
    assert_eq!(classify_remote(UpstreamProbe::Counted { ahead: 0, behind: 7 }), RemoteStatus::Behind(7));
}

#[test]
fn remote_status_text() {
    assert_eq!(format_remote_status(&RemoteStatus::LocalOnly), ("local only".to_string(), Color::DarkGray));
    assert_eq!(format_remote_status(&RemoteStatus::UpToDate), ("up to date".to_string(), Color::Green));
    assert_eq!(format_remote_status(&RemoteStatus::Ahead(12)), ("↑12".to_string(), Color::Yellow));
    assert_eq!(format_remote_status(&RemoteStatus::Behind(0)), ("↓0".to_string(), Color::Yellow));
    assert_eq!(
        format_remote_status(&RemoteStatus::Diverged { ahead: 3, behind: 105 }),
        ("↑3 ↓105".to_string(), Color::Yellow)
    );
    assert_eq!(format_remote_status(&RemoteStatus::Gone), ("remote gone".to_string(), Color::Red));
}

#[test]
fn title_wrapping() {
    assert_eq!(wrap_text("one two three four", 9), vec!["one two", "three", "four"]);
    assert_eq!(wrap_text("  ", 9), vec![""]);
    assert_eq!(wrap_text("a  b", 0), vec!["a  b"]);
    assert_eq!(wrap_text("supercalifragilistic x", 5), vec!["supercalifragilistic", "x"]);
    assert_eq!(wrap_text("é é", 4), vec!["é", "é"]);
    assert_eq!(wrap_text("é é", 5), vec!["é é"]);
}

#[test]
fn names_parse_in_any_case() {
    assert!(matches!(WorkItemType::from_name("BUG"), WorkItemType::Bug));
    assert!(matches!(WorkItemType::from_name("Product Backlog Item"), WorkItemType::ProductBacklogItem));
    assert!(matches!(WorkItemType::from_name("Risk"), WorkItemType::Other(s) if s == "Risk"));
    assert!(matches!(WorkItemState::from_name("DONE"), WorkItemState::Done));
    assert!(matches!(WorkItemState::from_name("In Review"), WorkItemState::Other(s) if s == "In Review"));
    assert_eq!(WorkItemType::Bug.display_name(), "Bug");
    assert_eq!(WorkItemType::Other("Risk".to_string()).display_name(), "Risk");
    assert_eq!(WorkItemType::Epic.icon(), "👑");
    assert_eq!(WorkItemState::Resolved.display_name(), "Resolved");
    assert_eq!(WorkItemState::Done.icon(), "✅");
}

fn fields() -> WorkItemFields {
    WorkItemFields {
        title: Some("Fix login".to_string()),
        work_item_type: Some("Bug".to_string()),
        state: Some("Active".to_string()),
        assigned_to: Some("Ada".to_string()),
        url: None,
        tags: Some(" ui ; ;backend;".to_string()),
        rich_text: vec![
            Some("<p>desc</p>".to_string()),
            Some("   ".to_string()),
            None,
            None,
            Some("fixed".to_string()),
            None,
            None,
        ],
    }
}

#[test]
fn work_item_from_fields() {
    let w = WorkItem::from_fields(fields(), 7).unwrap();
    assert_eq!(w.id, 7);
    assert_eq!(w.title, "Fix login");
    assert!(matches!(w.work_item_type, WorkItemType::Bug));
    assert!(matches!(w.state, WorkItemState::Active));
    assert_eq!(w.tags, vec!["ui".to_string(), "backend".to_string()]);
    assert_eq!(w.rich_text_fields.len(), 2);
    assert_eq!(w.rich_text_fields[0].name, "Description");
    assert_eq!(w.rich_text_fields[1].name, "Resolution");
    assert_eq!(w.rich_text_fields[1].value, "fixed");
}

#[test]
fn missing_required_fields() {
    let mut f = fields();
    f.title = None;
    assert_eq!(WorkItem::from_fields(f, 1).unwrap_err(), "Missing 'System.Title' field");
    let mut f = fields();
    f.work_item_type = None;
    assert_eq!(WorkItem::from_fields(f, 1).unwrap_err(), "Missing 'System.WorkItemType' field");
    let mut f = fields();
    f.state = None;
    assert_eq!(WorkItem::from_fields(f, 1).unwrap_err(), "Missing 'System.State' field");
}

#[test]
fn work_item_from_response() {
    let w = WorkItem::from_response(Some(fields()), 9).unwrap();
    assert_eq!(w.id, 9);
    assert_eq!(w.title, "Fix login");
    assert_eq!(
        WorkItem::from_response(None, 9).unwrap_err(),
        "Missing 'fields' in work item response"
    );
}

#[test]
fn zero_is_no_work_item_number() {
    assert_eq!(extract_work_item_number("fix-0"), None);
    assert_eq!(extract_work_item_number("fix-000"), None);
    assert_eq!(extract_work_item_number("fix-0-12"), None);
    assert_eq!(cazdo::html::extract_work_item_id("href=\"https://x/workitems/edit/0\""), None);
}
