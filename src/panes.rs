//! The content of the session's panes as styled lines; drawing them is left
//! to the terminal front end.

use vstd::prelude::*;
use crate::app::{App, BranchInfo, WorkItemStatus};
use crate::work_item::RichTextField;
use crate::html::{lines_view, render_html, rendered, span_view, spans_view};
use crate::layout::{string_views, wrap_text, wrapped};
use crate::style::{Color, Line, Span, Style, line_text, plain_style};
use crate::text::{decimal, push_decimal};
use crate::work_item::{WorkItem, kind_icon, kind_name, state_icon, state_name};

verus! {

/// A one-span line.
fn line_of(content: String, style: Style) -> (r: Line)
    ensures
        r.spans@.len() == 1,
        r.spans@[0].content == content,
        r.spans@[0].style == style,
        line_text(r.spans@) == content@,
        spans_view(r.spans@) == seq![(content@, style)],
{
    let mut spans: Vec<Span> = Vec::new();
    spans.push(Span { content, style });
    assert(spans_view(spans@) =~= seq![(content@, style)]);
    proof {
        assert(spans@.drop_last() =~= Seq::<Span>::empty());
        assert(line_text(spans@) == line_text(Seq::<Span>::empty()) + spans@.last().content@);
        assert(Seq::<char>::empty() + content@ =~= content@);
    }
    Line { spans }
}

/// A blank line.
fn blank_line() -> (r: Line)
    ensures
        r.spans@.len() == 0,
{
    Line { spans: Vec::new() }
}

/// The style of muted text.
pub open spec fn muted() -> Style {
    Style { fg: Some(Color::DarkGray), ..plain_style() }
}

/// Lines shown while the work item loads or after its lookup failed.
pub open spec fn status_lines_text(status: WorkItemStatus) -> Seq<char> {
    match status {
        WorkItemStatus::Error(e) => "  Error: "@ + e@,
        _ => "  Loading work item..."@,
    }
}

/// The header line of a loaded work item: its id, icon and kind.
pub open spec fn header_text(w: WorkItem) -> Seq<char> {
    "  "@ + ("#"@ + decimal(w.id as nat) + " "@) + (kind_icon(w.work_item_type) + " "@ + kind_name(
        w.work_item_type,
    ))
}

/// The style of a work item's title.
pub open spec fn title_style() -> Style {
    Style { fg: Some(Color::White), bold: true, underlined: true, crossed_out: false }
}

/// The title lines, each behind a two-space indent.
pub open spec fn title_block(ws: Seq<Seq<char>>) -> Seq<Seq<(Seq<char>, Style)>> {
    ws.map_values(|t: Seq<char>| seq![("  "@, plain_style()), (t, title_style())])
}

/// A rendered line behind a four-space indent.
pub open spec fn indented_view(l: Seq<(Seq<char>, Style)>) -> Seq<(Seq<char>, Style)> {
    seq![("    "@, plain_style())] + l
}

/// A rich-text field: a blank line, its `name:` label, and its HTML
/// rendered at width `fw` behind a four-space indent.
pub open spec fn field_block(f: RichTextField, fw: usize) -> Seq<Seq<(Seq<char>, Style)>> {
    seq![Seq::empty(), seq![("  "@ + f.name@ + ":"@, muted())]] + rendered(f.value@, fw).map_values(
        |l: Seq<(Seq<char>, Style)>| indented_view(l),
    )
}

/// The blocks of the fields, in order.
pub open spec fn fields_block(fs: Seq<RichTextField>, fw: usize) -> Seq<Seq<(Seq<char>, Style)>>
    decreases fs.len(),
{
    if fs.len() == 0 {
        Seq::empty()
    } else {
        fields_block(fs.drop_last(), fw) + field_block(fs.last(), fw)
    }
}

/// `a - b`, or zero.
pub open spec fn less(a: int, b: int) -> nat {
    if a >= b {
        (a - b) as nat
    } else {
        0
    }
}

/// The details pane for the work item `wi_id` of the selected branch, for
/// a pane `width` columns wide.
pub fn details_lines(app: &App, wi_id: u32, width: u16) -> (r: Vec<Line>)
    ensures
        r@.len() >= 2,
        r@[0].spans@.len() == 0,
        !(app.status_of(wi_id) is Loaded) ==> r@.len() == 2 && line_text(r@[1].spans@)
            == status_lines_text(app.status_of(wi_id)),
        app.status_of(wi_id) matches WorkItemStatus::Loaded(w) ==> {
            &&& line_text(r@[1].spans@) == header_text(w)
            &&& line_text(r@[2].spans@) == meta_text(w)
            &&& r@.len() >= 4 + wrapped(w.title@, (if width >= 4 { width - 4 } else { 0 }) as nat).len()
                + 2 * w.rich_text_fields@.len()
            &&& r@[3].spans@.len() == 0
            &&& lines_view(r@).subrange(4, r@.len() as int) == title_block(
                wrapped(w.title@, less(width as int, 4)),
            ) + fields_block(w.rich_text_fields@, less(less(width as int, 4) as int, 4) as usize)
        },
{
    let mut lines: Vec<Line> = Vec::new();
    lines.push(blank_line());
    match app.get_work_item_status(wi_id) {
        WorkItemStatus::Loaded(wi) => {
            let max_width: usize = if width >= 4 {
                (width - 4) as usize
            } else {
                0
            };
            lines.push(header_line(wi));
            lines.push(meta_line(wi));
            lines.push(blank_line());
            let t_style = Style {
                fg: Some(Color::White),
                bold: true,
                underlined: true,
                crossed_out: false,
            };
            let title_lines = wrap_text(wi.title.as_str(), max_width);
            let ghost n0 = lines@.len();
            let ghost h = lines_view(lines@);
            let ghost tw = string_views(title_lines@);
            assert(lines_view(lines@).subrange(4, lines@.len() as int) =~= title_block(tw.take(0)));
            let mut k: usize = 0;
            while k < title_lines.len()
                invariant
                    k <= title_lines@.len(),
                    lines@.len() == n0 + k,
                    n0 == 4,
                    lines@[0].spans@.len() == 0,
                    lines@[3].spans@.len() == 0,
                    line_text(lines@[1].spans@) == header_text(*wi),
                    line_text(lines@[2].spans@) == meta_text(*wi),
                    tw == string_views(title_lines@),
                    t_style == title_style(),
                    lines_view(lines@).subrange(4, lines@.len() as int) == title_block(tw.take(k as int)),
                decreases title_lines@.len() - k,
            {
                let ghost before = lines@;
                let tl = title_lines[k].clone();
                let ghost tlv = tl@;
                let line = indented(tl, t_style);
                let ghost lv = spans_view(line.spans@);
                lines.push(line);
                proof {
                    assert(tw[k as int] == title_lines@[k as int]@);
                    assert(tlv == tw[k as int]);
                    assert(t_style == title_style());
                    assert(lv =~= seq![("  "@, plain_style()), (tw[k as int], title_style())]);
                    assert(lines_view(lines@).subrange(4, lines@.len() as int) =~= lines_view(before).subrange(
                        4,
                        before.len() as int,
                    ).push(lv));
                    assert(tw.take(k + 1) =~= tw.take(k as int).push(tw[k as int]));
                    assert(title_block(tw.take(k + 1)) =~= title_block(tw.take(k as int)).push(
                        seq![("  "@, plain_style()), (tw[k as int], title_style())],
                    ));
                }
                k = k + 1;
            }
            assert(tw.take(k as int) =~= tw);
            let field_width: usize = if max_width >= 4 {
                max_width - 4
            } else {
                0
            };
            assert(fields_block(wi.rich_text_fields@.take(0), field_width) =~= Seq::<
                Seq<(Seq<char>, Style)>,
            >::empty());
            assert(title_block(tw) + Seq::<Seq<(Seq<char>, Style)>>::empty() =~= title_block(tw));
            let mut f: usize = 0;
            while f < wi.rich_text_fields.len()
                invariant
                    f <= wi.rich_text_fields@.len(),
                    lines@.len() >= 4 + title_lines@.len() + 2 * f,
                    lines_view(lines@).subrange(4, lines@.len() as int) == title_block(tw)
                        + fields_block(wi.rich_text_fields@.take(f as int), field_width),
                    line_text(lines@[2].spans@) == meta_text(*wi),
                    lines@[0].spans@.len() == 0,
                    lines@[3].spans@.len() == 0,
                    line_text(lines@[1].spans@) == header_text(*wi),
                decreases wi.rich_text_fields@.len() - f,
            {
                let field = &wi.rich_text_fields[f];
                let ghost base = lines_view(lines@).subrange(4, lines@.len() as int);
                let bl = blank_line();
                assert(spans_view(bl.spans@) =~= Seq::<(Seq<char>, Style)>::empty());
                lines.push(bl);
                let mut label = "  ".to_string();
                label.append(field.name.as_str());
                label.append(":");
                let lab = line_of(label, Style::plain().with_fg(Color::DarkGray));
                let ghost lab_view = spans_view(lab.spans@);
                lines.push(lab);
                let out = render_html(field.value.as_str(), field_width);
                let ghost head = seq![Seq::<(Seq<char>, Style)>::empty(), lab_view];
                proof {
                    assert(lab_view == seq![("  "@ + field.name@ + ":"@, muted())]);
                    assert(lines_view(lines@).subrange(4, lines@.len() as int) =~= base + head + lines_view(
                        out@,
                    ).take(0).map_values(|l: Seq<(Seq<char>, Style)>| indented_view(l)));
                }
                let mut j: usize = 0;
                while j < out.len()
                    invariant
                        j <= out@.len(),
                        lines@.len() >= 4 + title_lines@.len() + 2 * f + 2,
                        line_text(lines@[2].spans@) == meta_text(*wi),
                        lines@[0].spans@.len() == 0,
                        lines@[3].spans@.len() == 0,
                        line_text(lines@[1].spans@) == header_text(*wi),
                        lines_view(lines@).subrange(4, lines@.len() as int) == base + head + lines_view(
                            out@,
                        ).take(j as int).map_values(|l: Seq<(Seq<char>, Style)>| indented_view(l)),
                    decreases out@.len() - j,
                {
                    let ghost before = lines@;
                    let il = indent_rendered(&out[j]);
                    lines.push(il);
                    proof {
                        assert(lines_view(lines@).subrange(4, lines@.len() as int) =~= lines_view(
                            before,
                        ).subrange(4, before.len() as int).push(spans_view(il.spans@)));
                        assert(lines_view(out@)[j as int] == spans_view(out@[j as int].spans@));
                        assert(lines_view(out@).take(j + 1).map_values(
                            |l: Seq<(Seq<char>, Style)>| indented_view(l),
                        ) =~= lines_view(out@).take(j as int).map_values(
                            |l: Seq<(Seq<char>, Style)>| indented_view(l),
                        ).push(indented_view(lines_view(out@)[j as int])));
                    }
                    j = j + 1;
                }
                proof {
                    assert(lines_view(out@).take(j as int) =~= lines_view(out@));
                    let fs = wi.rich_text_fields@;
                    assert(fs.take(f + 1).drop_last() =~= fs.take(f as int));
                    assert(fs.take(f + 1).last() == fs[f as int]);
                    assert(field_block(fs[f as int], field_width) =~= head + rendered(
                        fs[f as int].value@,
                        field_width,
                    ).map_values(|l: Seq<(Seq<char>, Style)>| indented_view(l)));
                    assert(lines_view(lines@).subrange(4, lines@.len() as int) =~= title_block(tw)
                        + fields_block(fs.take(f + 1), field_width));
                }
                f = f + 1;
            }
            proof {
                assert(string_views(title_lines@).len() == title_lines@.len());
                assert(wi.rich_text_fields@.take(f as int) =~= wi.rich_text_fields@);
            }
        },
        WorkItemStatus::Error(err) => {
            let mut text = "  Error: ".to_string();
            text.append(err.as_str());
            lines.push(line_of(text, Style::plain().with_fg(Color::Red)));
        },
        _ => {
            lines.push(line_of("  Loading work item...".to_string(), Style::plain().with_fg(Color::Yellow)));
        },
    }
    lines
}

/// A line indented by two spaces.
fn indented(content: String, style: Style) -> (r: Line)
    ensures
        r.spans@.len() == 2,
        line_text(r.spans@) == "  "@ + content@,
        spans_view(r.spans@) == seq![("  "@, plain_style()), (content@, style)],
{
    let mut spans: Vec<Span> = Vec::new();
    spans.push(Span { content: "  ".to_string(), style: Style::plain() });
    let ghost first = spans@;
    spans.push(Span { content, style });
    proof {
        assert(first.drop_last() =~= Seq::<Span>::empty());
        assert(spans@.drop_last() =~= first);
        assert(line_text(first) == line_text(Seq::<Span>::empty()) + first.last().content@);
        assert(Seq::<char>::empty() + "  "@ =~= "  "@);
        assert(spans_view(spans@) =~= seq![("  "@, plain_style()), (content@, style)]);
    }
    Line { spans }
}

/// A rendered line behind a four-space indent.
fn indent_rendered(l: &Line) -> (r: Line)
    ensures
        r.spans@.len() == l.spans@.len() + 1,
        spans_view(r.spans@) == indented_view(spans_view(l.spans@)),
{
    let mut spans: Vec<Span> = Vec::new();
    spans.push(Span { content: "    ".to_string(), style: Style::plain() });
    assert(spans_view(spans@) =~= indented_view(spans_view(l.spans@.take(0))));
    let mut i: usize = 0;
    while i < l.spans.len()
        invariant
            i <= l.spans@.len(),
            spans@.len() == i + 1,
            spans_view(spans@) == indented_view(spans_view(l.spans@.take(i as int))),
        decreases l.spans@.len() - i,
    {
        let s = &l.spans[i];
        let ghost before = spans@;
        spans.push(Span { content: s.content.clone(), style: s.style });
        assert(spans_view(spans@) =~= spans_view(before).push(span_view(l.spans@[i as int])));
        assert(spans_view(l.spans@.take(i + 1)) =~= spans_view(l.spans@.take(i as int)).push(
            span_view(l.spans@[i as int]),
        ));
        i = i + 1;
    }
    assert(l.spans@.take(i as int) =~= l.spans@);
    Line { spans }
}

/// Id, icon and kind of a work item.
fn header_line(wi: &WorkItem) -> (r: Line)
    ensures
        line_text(r.spans@) == header_text(*wi),
{
    let mut id_text = "#".to_string();
    push_decimal(&mut id_text, wi.id as u64);
    id_text.append(" ");
    let mut kind = wi.work_item_type.icon().to_string();
    kind.append(" ");
    let name = wi.work_item_type.display_name();
    kind.append(name.as_str());
    let mut spans: Vec<Span> = Vec::new();
    spans.push(Span { content: "  ".to_string(), style: Style::plain() });
    let ghost s1 = spans@;
    spans.push(Span { content: id_text, style: Style { fg: Some(Color::Cyan), bold: true, ..Style::plain() } });
    let ghost s2 = spans@;
    spans.push(Span { content: kind, style: Style::plain() });
    proof {
        assert(s1.drop_last() =~= Seq::<Span>::empty());
        assert(s2.drop_last() =~= s1);
        assert(spans@.drop_last() =~= s2);
        assert(line_text(s1) == line_text(Seq::<Span>::empty()) + s1.last().content@);
        assert(Seq::<char>::empty() + "  "@ =~= "  "@);
        assert(line_text(s2) == line_text(s1) + s2.last().content@);
        assert(line_text(spans@) == line_text(s2) + spans@.last().content@);
    }
    Line { spans }
}

/// The tags joined by commas.
pub open spec fn joined_tags(tags: Seq<String>) -> Seq<char>
    decreases tags.len(),
{
    if tags.len() == 0 {
        Seq::empty()
    } else if tags.len() == 1 {
        tags[0]@
    } else {
        joined_tags(tags.drop_last()) + ", "@ + tags.last()@
    }
}

/// The meta line of a work item: state, then assignee and tags when present.
pub open spec fn meta_text(w: WorkItem) -> Seq<char> {
    "  "@ + (state_icon(w.state) + " "@ + state_name(w.state)) + match w.assigned_to {
        Some(a) => "  •  "@ + a@,
        None => Seq::empty(),
    } + if w.tags@.len() > 0 {
        "  •  "@ + joined_tags(w.tags@)
    } else {
        Seq::empty()
    }
}

/// Appends a span, keeping track of the line's text.
fn push_text_span(spans: &mut Vec<Span>, content: String, style: Style)
    ensures
        line_text(final(spans)@) == line_text(old(spans)@) + content@,
{
    let ghost before = spans@;
    spans.push(Span { content, style });
    assert(spans@.drop_last() =~= before);
}

/// State, assignee and tags of a work item.
fn meta_line(wi: &WorkItem) -> (r: Line)
    ensures
        line_text(r.spans@) == meta_text(*wi),
{
    let mut spans: Vec<Span> = Vec::new();
    assert(line_text(spans@) =~= Seq::<char>::empty());
    push_text_span(&mut spans, "  ".to_string(), Style::plain());
    let mut state = wi.state.icon().to_string();
    state.append(" ");
    let name = wi.state.display_name();
    state.append(name.as_str());
    push_text_span(&mut spans, state, Style::plain().with_fg(wi.state.color()));
    let ghost base = line_text(spans@);
    if let Some(assigned) = &wi.assigned_to {
        push_text_span(&mut spans, "  •  ".to_string(), Style::plain().with_fg(Color::DarkGray));
        push_text_span(&mut spans, assigned.clone(), Style::plain().with_fg(Color::White));
        assert(line_text(spans@) =~= base + ("  •  "@ + assigned@));
    } else {
        assert(line_text(spans@) =~= base + Seq::<char>::empty());
    }
    let ghost mid = line_text(spans@);
    if wi.tags.len() > 0 {
        push_text_span(&mut spans, "  •  ".to_string(), Style::plain().with_fg(Color::DarkGray));
        let mut joined = String::new();
        let mut i: usize = 0;
        while i < wi.tags.len()
            invariant
                i <= wi.tags@.len(),
                joined@ == joined_tags(wi.tags@.take(i as int)),
            decreases wi.tags@.len() - i,
        {
            let ghost prev = joined@;
            if i > 0 {
                joined.append(", ");
            }
            joined.append(wi.tags[i].as_str());
            proof {
                let t = wi.tags@.take(i + 1);
                assert(t.drop_last() =~= wi.tags@.take(i as int));
                if i == 0 {
                    assert(joined_tags(Seq::<String>::empty()) == Seq::<char>::empty());
                    assert(joined@ =~= t[0]@);
                } else {
                    assert(joined@ =~= prev + ", "@ + t.last()@);
                }
            }
            i = i + 1;
        }
        assert(wi.tags@.take(i as int) =~= wi.tags@);
        push_text_span(&mut spans, joined, Style::plain().with_fg(Color::Magenta));
        assert(line_text(spans@) =~= mid + ("  •  "@ + joined_tags(wi.tags@)));
    } else {
        assert(line_text(spans@) =~= mid + Seq::<char>::empty());
    }
    proof {
        assert(line_text(Seq::<Span>::empty()) + "  "@ =~= "  "@);
    }
    Line { spans }
}

/// The details pane of a branch that links no work item.
pub fn no_work_item_lines() -> (r: Vec<Line>)
    ensures
        r@.len() == 2,
        r@[0].spans@.len() == 0,
        line_text(r@[1].spans@) == "  No work item linked to this branch"@,
{
    let mut lines: Vec<Line> = Vec::new();
    lines.push(blank_line());
    lines.push(line_of("  No work item linked to this branch".to_string(), Style::plain().with_fg(Color::DarkGray)));
    lines
}

/// The text of a branch's entry in the list: a mark for the current one, a
/// lock for a protected one, and the linked work item.
pub open spec fn branch_label_text(b: BranchInfo) -> Seq<char> {
    (if b.is_current { "* "@ } else { "  "@ }) + b.name@ + (if b.is_protected { " 🔒"@ } else { ""@ })
        + match b.work_item_id {
        Some(id) => " [#"@ + decimal(id as nat) + "]"@,
        None => ""@,
    }
}

/// The style of a branch's entry: current bold green, protected muted.
pub open spec fn branch_label_style(b: BranchInfo) -> Style {
    if b.is_current {
        Style { fg: Some(Color::Green), bold: true, ..plain_style() }
    } else if b.is_protected {
        muted()
    } else {
        plain_style()
    }
}

/// The entry of a branch in the branch list.
pub fn branch_label(b: &BranchInfo) -> (r: Span)
    ensures
        r.content@ == branch_label_text(*b),
        r.style == branch_label_style(*b),
{
    let mut s = if b.is_current {
        "* ".to_string()
    } else {
        "  ".to_string()
    };
    s.append(b.name.as_str());
    if b.is_protected {
        s.append(" 🔒");
    } else {
        assert(s@ + ""@ =~= s@) by {
            reveal_strlit("");
        }
    }
    match b.work_item_id {
        Some(id) => {
            s.append(" [#");
            push_decimal(&mut s, id as u64);
            s.append("]");
        },
        None => {
            assert(s@ + ""@ =~= s@) by {
                reveal_strlit("");
            }
        },
    }
    let style = if b.is_current {
        Style { fg: Some(Color::Green), bold: true, ..Style::plain() }
    } else if b.is_protected {
        Style::plain().with_fg(Color::DarkGray)
    } else {
        Style::plain()
    };
    Span { content: s, style }
}

/// The key hints of the footer.
pub open spec fn footer_hint_text(show_protected: bool) -> Seq<char> {
    Seq::<char>::empty() + " j/k "@ + "navigate  "@ + "o"@ + "pen  "@ + "pg\u{2191}\u{2193} "@
        + "scroll  "@ + "d"@ + "elete  "@ + "r"@ + "efresh  "@ + (if show_protected {
        "hide "@
    } else {
        "show "@
    }) + "p"@ + "rotected  "@ + "q"@ + "uit"@
}

/// The footer: the live status message (red when an error, green
/// otherwise), or else the key hints, with refresh dimmed when the selected
/// branch links no work item.
pub fn footer_spans(app: &App, now_ms: u64) -> (r: Vec<Span>)
    ensures
        (app.status_message matches Some(m) && m.expires_at > now_ms) ==> {
            &&& r@.len() == 1
            &&& r@[0].content == app.status_message->0.text
            &&& r@[0].style == (Style {
                fg: Some(if app.status_message->0.is_error { Color::Red } else { Color::Green }),
                bold: true,
                ..plain_style()
            })
        },
        !(app.status_message matches Some(m) && m.expires_at > now_ms) ==> line_text(r@)
            == footer_hint_text(app.show_protected),
{
    if let Some(msg) = app.get_status_message(now_ms) {
        let color = if msg.is_error {
            Color::Red
        } else {
            Color::Green
        };
        let mut spans: Vec<Span> = Vec::new();
        spans.push(Span { content: msg.text.clone(), style: Style { fg: Some(color), bold: true, ..Style::plain() } });
        return spans;
    }
    let accent = Style::plain().with_fg(Color::Cyan);
    let muted = Style::plain().with_fg(Color::DarkGray);
    let refresh = app.current_branch_has_work_item();
    let refresh_key = if refresh {
        accent
    } else {
        muted
    };
    let protected_prefix = if app.show_protected {
        "hide "
    } else {
        "show "
    };
    let mut spans: Vec<Span> = Vec::new();
    assert(line_text(spans@) =~= Seq::<char>::empty());
    push_text_span(&mut spans, " j/k ".to_string(), accent);
    push_text_span(&mut spans, "navigate  ".to_string(), muted);
    push_text_span(&mut spans, "o".to_string(), accent);
    push_text_span(&mut spans, "pen  ".to_string(), muted);
    push_text_span(&mut spans, "pg\u{2191}\u{2193} ".to_string(), accent);
    push_text_span(&mut spans, "scroll  ".to_string(), muted);
    push_text_span(&mut spans, "d".to_string(), accent);
    push_text_span(&mut spans, "elete  ".to_string(), muted);
    push_text_span(&mut spans, "r".to_string(), refresh_key);
    push_text_span(&mut spans, "efresh  ".to_string(), muted);
    push_text_span(&mut spans, protected_prefix.to_string(), muted);
    push_text_span(&mut spans, "p".to_string(), accent);
    push_text_span(&mut spans, "rotected  ".to_string(), muted);
    push_text_span(&mut spans, "q".to_string(), accent);
    push_text_span(&mut spans, "uit".to_string(), muted);
    assert(line_text(spans@) =~= footer_hint_text(app.show_protected));
    spans
}

} // verus!
