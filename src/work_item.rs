//! Work items as the session shows them.

use vstd::prelude::*;
use crate::style::Color;
use crate::text::{all_ws, chars_of, is_blank_text, lower_of, lowercase, same_chars, string_of, trim, trimmed};

verus! {

/// A named rich-text field of a work item; its value is raw HTML.
#[derive(Debug, Clone)]
pub struct RichTextField {
    pub name: String,
    pub value: String,
}

/// A work item, immutable once built from a lookup result.
#[derive(Debug, Clone)]
pub struct WorkItem {
    pub id: u32,
    pub title: String,
    pub work_item_type: WorkItemType,
    pub state: WorkItemState,
    pub assigned_to: Option<String>,
    pub url: Option<String>,
    pub tags: Vec<String>,
    /// Rich-text fields present and non-blank in the source, in a fixed order.
    pub rich_text_fields: Vec<RichTextField>,
}

/// The kind of a work item; unknown kinds keep the name as written.
#[derive(Debug, Clone)]
pub enum WorkItemType {
    Bug,
    ProductBacklogItem,
    UserStory,
    Task,
    Feature,
    Epic,
    Other(String),
}

/// Display name of a work item kind.
pub open spec fn kind_name(t: WorkItemType) -> Seq<char> {
    match t {
        WorkItemType::Bug => "Bug"@,
        WorkItemType::ProductBacklogItem => "Product Backlog Item"@,
        WorkItemType::UserStory => "User Story"@,
        WorkItemType::Task => "Task"@,
        WorkItemType::Feature => "Feature"@,
        WorkItemType::Epic => "Epic"@,
        WorkItemType::Other(s) => s@,
    }
}

/// Icon of a work item kind.
pub open spec fn kind_icon(t: WorkItemType) -> Seq<char> {
    match t {
        WorkItemType::Bug => "🐞"@,
        WorkItemType::ProductBacklogItem => "📘"@,
        WorkItemType::UserStory => "📖"@,
        WorkItemType::Task => "📒"@,
        WorkItemType::Feature => "🏆"@,
        WorkItemType::Epic => "👑"@,
        WorkItemType::Other(_) => "📄"@,
    }
}

impl WorkItemType {
    pub fn icon(&self) -> (r: &'static str)
        ensures
            r@ == kind_icon(*self),
    {
        match self {
            WorkItemType::Bug => "🐞",
            WorkItemType::ProductBacklogItem => "📘",
            WorkItemType::UserStory => "📖",
            WorkItemType::Task => "📒",
            WorkItemType::Feature => "🏆",
            WorkItemType::Epic => "👑",
            WorkItemType::Other(_) => "📄",
        }
    }

    pub fn display_name(&self) -> (r: String)
        ensures
            r@ == kind_name(*self),
    {
        match self {
            WorkItemType::Bug => "Bug".to_string(),
            WorkItemType::ProductBacklogItem => "Product Backlog Item".to_string(),
            WorkItemType::UserStory => "User Story".to_string(),
            WorkItemType::Task => "Task".to_string(),
            WorkItemType::Feature => "Feature".to_string(),
            WorkItemType::Epic => "Epic".to_string(),
            WorkItemType::Other(s) => s.clone(),
        }
    }
}

/// The workflow state of a work item; unknown states keep the name as written.
#[derive(Debug, Clone)]
pub enum WorkItemState {
    New,
    Approved,
    Committed,
    Active,
    Resolved,
    Closed,
    Removed,
    Done,
    Other(String),
}

/// Display name of a workflow state.
pub open spec fn state_name(s: WorkItemState) -> Seq<char> {
    match s {
        WorkItemState::New => "New"@,
        WorkItemState::Approved => "Approved"@,
        WorkItemState::Committed => "Committed"@,
        WorkItemState::Active => "Active"@,
        WorkItemState::Resolved => "Resolved"@,
        WorkItemState::Closed => "Closed"@,
        WorkItemState::Removed => "Removed"@,
        WorkItemState::Done => "Done"@,
        WorkItemState::Other(o) => o@,
    }
}

/// Color of a workflow state.
pub open spec fn state_color(s: WorkItemState) -> Color {
    match s {
        WorkItemState::New | WorkItemState::Approved => Color::Gray,
        WorkItemState::Committed => Color::Blue,
        WorkItemState::Active => Color::Cyan,
        WorkItemState::Resolved => Color::Yellow,
        WorkItemState::Closed | WorkItemState::Done => Color::Green,
        WorkItemState::Removed => Color::DarkGray,
        WorkItemState::Other(_) => Color::White,
    }
}

/// Icon of a workflow state.
pub open spec fn state_icon(s: WorkItemState) -> Seq<char> {
    match s {
        WorkItemState::New => "🆕"@,
        WorkItemState::Approved => "👍"@,
        WorkItemState::Committed => "🎯"@,
        WorkItemState::Active => "🔵"@,
        WorkItemState::Resolved => "☑️"@,
        WorkItemState::Closed => "✔️"@,
        WorkItemState::Removed => "🗑️"@,
        WorkItemState::Done => "✅"@,
        WorkItemState::Other(_) => "⚪"@,
    }
}

impl WorkItemState {
    pub fn icon(&self) -> (r: &'static str)
        ensures
            r@ == state_icon(*self),
    {
        match self {
            WorkItemState::New => "🆕",
            WorkItemState::Approved => "👍",
            WorkItemState::Committed => "🎯",
            WorkItemState::Active => "🔵",
            WorkItemState::Resolved => "☑️",
            WorkItemState::Closed => "✔️",
            WorkItemState::Removed => "🗑️",
            WorkItemState::Done => "✅",
            WorkItemState::Other(_) => "⚪",
        }
    }

    pub fn color(&self) -> (r: Color)
        ensures
            r == state_color(*self),
    {
        match self {
            WorkItemState::New | WorkItemState::Approved => Color::Gray,
            WorkItemState::Committed => Color::Blue,
            WorkItemState::Active => Color::Cyan,
            WorkItemState::Resolved => Color::Yellow,
            WorkItemState::Closed | WorkItemState::Done => Color::Green,
            WorkItemState::Removed => Color::DarkGray,
            WorkItemState::Other(_) => Color::White,
        }
    }

    pub fn display_name(&self) -> (r: String)
        ensures
            r@ == state_name(*self),
    {
        match self {
            WorkItemState::New => "New".to_string(),
            WorkItemState::Approved => "Approved".to_string(),
            WorkItemState::Committed => "Committed".to_string(),
            WorkItemState::Active => "Active".to_string(),
            WorkItemState::Resolved => "Resolved".to_string(),
            WorkItemState::Closed => "Closed".to_string(),
            WorkItemState::Removed => "Removed".to_string(),
            WorkItemState::Done => "Done".to_string(),
            WorkItemState::Other(o) => o.clone(),
        }
    }
}

/// The kind that a lower-cased name stands for; unknown names keep the text as written.
pub open spec fn kind_for(r: WorkItemType, lower: Seq<char>, given: Seq<char>) -> bool {
    if lower == "bug"@ {
        r is Bug
    } else if lower == "product backlog item"@ {
        r is ProductBacklogItem
    } else if lower == "user story"@ {
        r is UserStory
    } else if lower == "task"@ {
        r is Task
    } else if lower == "feature"@ {
        r is Feature
    } else if lower == "epic"@ {
        r is Epic
    } else {
        r matches WorkItemType::Other(o) && o@ == given
    }
}

/// The state that a lower-cased name stands for; unknown names keep the text as written.
pub open spec fn state_for(r: WorkItemState, lower: Seq<char>, given: Seq<char>) -> bool {
    if lower == "new"@ {
        r is New
    } else if lower == "approved"@ {
        r is Approved
    } else if lower == "committed"@ {
        r is Committed
    } else if lower == "active"@ {
        r is Active
    } else if lower == "resolved"@ {
        r is Resolved
    } else if lower == "closed"@ {
        r is Closed
    } else if lower == "removed"@ {
        r is Removed
    } else if lower == "done"@ {
        r is Done
    } else {
        r matches WorkItemState::Other(o) && o@ == given
    }
}

impl WorkItemType {
    /// The kind named by an already lower-cased name.
    pub fn from_lowercase(lower: &str, given: &str) -> (r: WorkItemType)
        ensures
            kind_for(r, lower@, given@),
    {
        let t = chars_of(lower);
        if same_chars(&t, "bug") {
            WorkItemType::Bug
        } else if same_chars(&t, "product backlog item") {
            WorkItemType::ProductBacklogItem
        } else if same_chars(&t, "user story") {
            WorkItemType::UserStory
        } else if same_chars(&t, "task") {
            WorkItemType::Task
        } else if same_chars(&t, "feature") {
            WorkItemType::Feature
        } else if same_chars(&t, "epic") {
            WorkItemType::Epic
        } else {
            WorkItemType::Other(given.to_string())
        }
    }

    /// The kind named by a name, in any letter case.
    pub fn from_name(s: &str) -> (r: WorkItemType)
        ensures
            kind_for(r, lower_of(s@), s@),
    {
        let lower = lowercase(s);
        WorkItemType::from_lowercase(lower.as_str(), s)
    }
}

impl WorkItemState {
    /// The state named by an already lower-cased name.
    pub fn from_lowercase(lower: &str, given: &str) -> (r: WorkItemState)
        ensures
            state_for(r, lower@, given@),
    {
        let t = chars_of(lower);
        if same_chars(&t, "new") {
            WorkItemState::New
        } else if same_chars(&t, "approved") {
            WorkItemState::Approved
        } else if same_chars(&t, "committed") {
            WorkItemState::Committed
        } else if same_chars(&t, "active") {
            WorkItemState::Active
        } else if same_chars(&t, "resolved") {
            WorkItemState::Resolved
        } else if same_chars(&t, "closed") {
            WorkItemState::Closed
        } else if same_chars(&t, "removed") {
            WorkItemState::Removed
        } else if same_chars(&t, "done") {
            WorkItemState::Done
        } else {
            WorkItemState::Other(given.to_string())
        }
    }

    /// The state named by a name, in any letter case.
    pub fn from_name(s: &str) -> (r: WorkItemState)
        ensures
            state_for(r, lower_of(s@), s@),
    {
        let lower = lowercase(s);
        WorkItemState::from_lowercase(lower.as_str(), s)
    }
}

/// A tag segment, trimmed, unless it is blank.
pub open spec fn kept_tag(cur: Seq<char>) -> Seq<Seq<char>> {
    if trimmed(cur).len() == 0 {
        Seq::empty()
    } else {
        seq![trimmed(cur)]
    }
}

/// The tags of `s[i..]` given the segment `cur` read so far: `;`-separated,
/// trimmed, blank ones dropped.
pub open spec fn tags_from(s: Seq<char>, i: int, cur: Seq<char>) -> Seq<Seq<char>>
    decreases s.len() - i,
{
    if i < 0 || i >= s.len() {
        kept_tag(cur)
    } else if s[i] == ';' {
        kept_tag(cur) + tags_from(s, i + 1, Seq::empty())
    } else {
        tags_from(s, i + 1, cur.push(s[i]))
    }
}

/// The tags of a `;`-separated tag list.
pub open spec fn tag_list(s: Seq<char>) -> Seq<Seq<char>> {
    tags_from(s, 0, Seq::empty())
}

/// The views of a list of strings.
pub open spec fn views(v: Seq<String>) -> Seq<Seq<char>> {
    v.map_values(|t: String| t@)
}

/// Splits a `;`-separated tag list into trimmed, non-blank tags.
pub fn parse_tags(s: &str) -> (r: Vec<String>)
    ensures
        views(r@) == tag_list(s@),
{
    let cs = chars_of(s);
    let mut out: Vec<String> = Vec::new();
    let mut cur: Vec<char> = Vec::new();
    let mut i: usize = 0;
    while i < cs.len()
        invariant
            i <= cs@.len(),
            views(out@) + tags_from(cs@, i as int, cur@) == tag_list(cs@),
        decreases cs@.len() - i,
    {
        if cs[i] == ';' {
            let ghost before = out@;
            keep_tag(&mut out, &cur);
            assert(views(out@) + tags_from(cs@, i + 1, Seq::empty()) =~= views(before) + (kept_tag(
                cur@,
            ) + tags_from(cs@, i + 1, Seq::empty())));
            cur = Vec::new();
        } else {
            cur.push(cs[i]);
        }
        i = i + 1;
    }
    let ghost before = out@;
    keep_tag(&mut out, &cur);
    assert(views(out@) =~= views(before) + kept_tag(cur@));
    out
}

/// Appends the trimmed segment unless it is blank.
fn keep_tag(out: &mut Vec<String>, cur: &Vec<char>)
    ensures
        views(final(out)@) == views(old(out)@) + kept_tag(cur@),
{
    let seg = string_of(cur);
    let t = trim(seg.as_str());
    if t.as_str().unicode_len() > 0 {
        let ghost before = out@;
        out.push(t);
        assert(views(out@) =~= views(before) + kept_tag(cur@));
    } else {
        assert(views(out@) =~= views(out@) + kept_tag(cur@));
    }
}

/// Number of known rich-text fields.
pub const RICH_TEXT_FIELD_COUNT: usize = 7;

/// Source key and display name of each known rich-text field, in display order.
pub open spec fn rich_text_field(k: int) -> (Seq<char>, Seq<char>) {
    if k == 0 {
        ("System.Description"@, "Description"@)
    } else if k == 1 {
        ("Microsoft.VSTS.Common.AcceptanceCriteria"@, "Acceptance Criteria"@)
    } else if k == 2 {
        ("Microsoft.VSTS.TCM.ReproSteps"@, "Repro Steps"@)
    } else if k == 3 {
        ("Microsoft.VSTS.TCM.SystemInfo"@, "System Info"@)
    } else if k == 4 {
        ("Microsoft.VSTS.Common.Resolution"@, "Resolution"@)
    } else if k == 5 {
        ("Microsoft.VSTS.Build.FoundIn"@, "Found In"@)
    } else {
        ("Microsoft.VSTS.Build.IntegrationBuild"@, "Integration Build"@)
    }
}

/// Source key and display name of rich-text field `k`.
pub fn rich_text_field_names(k: usize) -> (r: (&'static str, &'static str))
    requires
        k < RICH_TEXT_FIELD_COUNT,
    ensures
        r.0@ == rich_text_field(k as int).0,
        r.1@ == rich_text_field(k as int).1,
{
    if k == 0 {
        ("System.Description", "Description")
    } else if k == 1 {
        ("Microsoft.VSTS.Common.AcceptanceCriteria", "Acceptance Criteria")
    } else if k == 2 {
        ("Microsoft.VSTS.TCM.ReproSteps", "Repro Steps")
    } else if k == 3 {
        ("Microsoft.VSTS.TCM.SystemInfo", "System Info")
    } else if k == 4 {
        ("Microsoft.VSTS.Common.Resolution", "Resolution")
    } else if k == 5 {
        ("Microsoft.VSTS.Build.FoundIn", "Found In")
    } else {
        ("Microsoft.VSTS.Build.IntegrationBuild", "Integration Build")
    }
}

/// The raw values a work item is built from, as the lookup returned them.
#[derive(Debug, Clone)]
pub struct WorkItemFields {
    pub title: Option<String>,
    pub work_item_type: Option<String>,
    pub state: Option<String>,
    pub assigned_to: Option<String>,
    pub url: Option<String>,
    pub tags: Option<String>,
    /// The value of each known rich-text field, in the order of `rich_text_field`.
    pub rich_text: Vec<Option<String>>,
}

/// The rich-text fields kept from the first `n` known ones: present and not blank.
pub open spec fn kept_fields(values: Seq<Option<String>>, n: int) -> Seq<(Seq<char>, Seq<char>)>
    decreases n,
{
    if n <= 0 {
        Seq::empty()
    } else {
        let prev = kept_fields(values, n - 1);
        match values[n - 1] {
            Some(v) => if all_ws(v@) {
                prev
            } else {
                prev.push((rich_text_field(n - 1).1, v@))
            },
            None => prev,
        }
    }
}

/// The name and value views of a list of fields.
pub open spec fn field_views(v: Seq<RichTextField>) -> Seq<(Seq<char>, Seq<char>)> {
    v.map_values(|f: RichTextField| (f.name@, f.value@))
}

/// The error for a missing required field.
pub open spec fn missing_field_message(fields: WorkItemFields) -> Option<Seq<char>> {
    if fields.title is None {
        Some("Missing 'System.Title' field"@)
    } else if fields.work_item_type is None {
        Some("Missing 'System.WorkItemType' field"@)
    } else if fields.state is None {
        Some("Missing 'System.State' field"@)
    } else {
        None
    }
}

/// What a work item built from the raw values `f` of item `id` holds.
pub open spec fn built_from(w: WorkItem, f: WorkItemFields, id: u32) -> bool {
    &&& w.id == id
    &&& w.title@ == f.title->0@
    &&& kind_for(w.work_item_type, lower_of(f.work_item_type->0@), f.work_item_type->0@)
    &&& state_for(w.state, lower_of(f.state->0@), f.state->0@)
    &&& w.assigned_to == f.assigned_to
    &&& w.url == f.url
    &&& views(w.tags@) == match f.tags {
        Some(t) => tag_list(t@),
        None => Seq::empty(),
    }
    &&& field_views(w.rich_text_fields@) == kept_fields(f.rich_text@, RICH_TEXT_FIELD_COUNT as int)
}

impl WorkItem {
    /// Builds a work item from the raw values of a lookup: title, kind and
    /// state are required; tags are split at `;`; rich-text fields are kept
    /// when present and not blank.
    pub fn from_fields(fields: WorkItemFields, id: u32) -> (r: Result<WorkItem, String>)
        requires
            fields.rich_text@.len() == RICH_TEXT_FIELD_COUNT,
        ensures
            r is Err <==> missing_field_message(fields) is Some,
            r matches Err(e) ==> Some(e@) == missing_field_message(fields),
            r matches Ok(w) ==> built_from(w, fields, id),
    {
        let title = match fields.title {
            Some(t) => t,
            None => return Err("Missing 'System.Title' field".to_string()),
        };
        let kind = match &fields.work_item_type {
            Some(t) => WorkItemType::from_name(t.as_str()),
            None => return Err("Missing 'System.WorkItemType' field".to_string()),
        };
        let state = match &fields.state {
            Some(t) => WorkItemState::from_name(t.as_str()),
            None => return Err("Missing 'System.State' field".to_string()),
        };
        let tags = match &fields.tags {
            Some(t) => parse_tags(t.as_str()),
            None => {
                let v: Vec<String> = Vec::new();
                assert(views(v@) =~= Seq::empty());
                v
            },
        };
        let mut rich: Vec<RichTextField> = Vec::new();
        let mut k: usize = 0;
        assert(field_views(rich@) =~= kept_fields(fields.rich_text@, 0));
        while k < RICH_TEXT_FIELD_COUNT
            invariant
                k <= RICH_TEXT_FIELD_COUNT,
                fields.rich_text@.len() == RICH_TEXT_FIELD_COUNT,
                field_views(rich@) == kept_fields(fields.rich_text@, k as int),
            decreases RICH_TEXT_FIELD_COUNT - k,
        {
            if let Some(v) = &fields.rich_text[k] {
                if !is_blank_text(v.as_str()) {
                    let (_, display) = rich_text_field_names(k);
                    let ghost before = rich@;
                    rich.push(RichTextField { name: display.to_string(), value: v.clone() });
                    assert(field_views(rich@) =~= field_views(before).push((rich_text_field(k as int).1, v@)));
                }
            }
            k = k + 1;
        }
        Ok(WorkItem {
            id,
            title,
            work_item_type: kind,
            state,
            assigned_to: fields.assigned_to,
            url: fields.url,
            tags,
            rich_text_fields: rich,
        })
    }
}

impl WorkItem {
    /// Builds a work item from a lookup response: its fields object, absent
    /// when the response has none, read as by `from_fields`.
    pub fn from_response(fields: Option<WorkItemFields>, id: u32) -> (r: Result<WorkItem, String>)
        requires
            fields matches Some(f) ==> f.rich_text@.len() == RICH_TEXT_FIELD_COUNT,
        ensures
            fields is None ==> (r matches Err(e) && e@ == "Missing 'fields' in work item response"@),
            fields matches Some(f) ==> (r is Err <==> missing_field_message(f) is Some),
            fields matches Some(f) ==> (r matches Err(e) ==> Some(e@) == missing_field_message(f)),
            fields matches Some(f) ==> (r matches Ok(w) ==> built_from(w, f, id)),
    {
        match fields {
            Some(f) => WorkItem::from_fields(f, id),
            None => Err("Missing 'fields' in work item response".to_string()),
        }
    }
}

} // verus!
