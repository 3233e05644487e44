use cazdo::html::{decode_html_entities, extract_work_item_id, normalize_whitespace, render_html};
use cazdo::style::{Color, Line};

fn text_of(line: &Line) -> String {
    line.spans.iter().map(|s| s.content.as_str()).collect()
}

#[test]
fn test_basic_text() {
    let lines = render_html("Hello world", 80);
    assert_eq!(lines.len(), 1);
}

#[test]
fn test_paragraph() {
    let lines = render_html("<p>First paragraph</p><p>Second paragraph</p>", 80);
    assert!(lines.len() >= 2);
}

#[test]
fn test_bold() {
    let lines = render_html("Hello <b>bold</b> world", 80);
    assert_eq!(lines.len(), 1);
    assert!(lines[0].spans.len() >= 2);
}

#[test]
fn test_list() {
    let lines = render_html("<ul><li>Item 1</li><li>Item 2</li></ul>", 80);
    assert!(lines.len() >= 2);
}

#[test]
fn test_ordered_list() {
    let lines = render_html("<ol><li>First</li><li>Second</li></ol>", 80);
    assert!(lines.len() >= 2);
}

#[test]
fn test_work_item_link() {
    let id =
        extract_work_item_id(r#"href="https://dev.azure.com/org/project/_workitems/edit/123""#);
    assert_eq!(id, Some(123));
}

#[test]
fn test_html_entities() {
    let decoded = decode_html_entities("Hello&nbsp;&amp;&nbsp;world");
    assert_eq!(decoded, "Hello & world");
}

#[test]
fn test_nested_list() {
    let html = "<ul><li>Outer<ul><li>Inner</li></ul></li></ul>";
    let lines = render_html(html, 80);
    assert!(lines.len() >= 2);
}

#[test]
fn test_list_spacing() {
    let lines = render_html("<ul><li>Item 1</li><li>Item 2</li></ul>", 80);
    assert_eq!(lines.len(), 2);
    assert!(lines[0].spans.iter().any(|s| s.content.contains("Item 1")));
    assert!(lines[1].spans.iter().any(|s| s.content.contains("Item 2")));
}

#[test]
fn bold_span_is_styled_bold() {
    let lines = render_html("Hello <b>bold</b> world", 80);
    assert_eq!(lines.len(), 1);
    assert!(lines[0].spans.len() >= 2);
    assert!(lines[0].spans.iter().any(|s| s.style.bold && s.content == "bold"));
    assert!(lines[0].spans.iter().any(|s| !s.style.bold));
    assert_eq!(text_of(&lines[0]), "Hello bold world");
}

#[test]
fn unordered_items_get_bullets() {
    let lines = render_html("<ul><li>Item 1</li><li>Item 2</li></ul>", 80);
    assert_eq!(lines.len(), 2);
    assert_eq!(text_of(&lines[0]).trim_start(), "• Item 1");
    assert_eq!(text_of(&lines[1]).trim_start(), "• Item 2");
}

#[test]
fn ordered_items_are_numbered() {
    let lines = render_html("<ol><li>First</li><li>Second</li></ol>", 80);
    assert_eq!(lines.len(), 2);
    assert_eq!(text_of(&lines[0]).trim_start(), "1. First");
    assert_eq!(text_of(&lines[1]).trim_start(), "2. Second");
}

#[test]
fn ordered_counter_is_scoped_to_its_list() {
    let lines = render_html("<ol><li>a</li></ol><ol><li>b</li></ol>", 80);
    assert_eq!(lines.len(), 3);
    assert_eq!(text_of(&lines[0]).trim_start(), "1. a");
    assert!(lines[1].spans.is_empty());
    assert_eq!(text_of(&lines[2]).trim_start(), "1. b");
}

#[test]
fn nested_lists_indent_two_spaces_per_level() {
    let lines = render_html("<ul><li>Outer<ul><li>Inner</li></ul></li></ul>", 80);
    assert_eq!(lines.len(), 3);
    assert_eq!(text_of(&lines[0]), "  • Outer");
    assert!(lines[1].spans.is_empty());
    assert_eq!(text_of(&lines[2]), "    • Inner");
}

#[test]
fn long_text_wraps_within_width() {
    let text = "alpha beta gamma delta epsilon zeta eta theta iota kappa lambda mu";
    for w in [10usize, 12, 17, 25] {
        let lines = render_html(text, w);
        assert!(lines.len() > 1);
        for l in &lines {
            assert!(text_of(l).trim_end().chars().count() <= w);
        }
    }
}

#[test]
fn zero_width_disables_wrapping() {
    let text = "alpha beta gamma delta epsilon zeta eta theta iota kappa lambda mu";
    let lines = render_html(text, 0);
    assert_eq!(lines.len(), 1);
    assert_eq!(text_of(&lines[0]), text);
}

#[test]
fn blank_lines_collapse_and_trailing_blanks_go() {
    let lines = render_html("<p>a</p><br><br><br><p>b</p><br><br>", 80);
    assert_eq!(lines.len(), 3);
    assert_eq!(text_of(&lines[0]), "a");
    assert!(lines[1].spans.is_empty());
    assert_eq!(text_of(&lines[2]), "b");
}

#[test]
fn heading_gets_separator_and_bold() {
    let lines = render_html("intro<h2>Title</h2>body", 80);
    assert_eq!(lines.len(), 4);
    assert_eq!(text_of(&lines[0]), "intro");
    assert!(lines[1].spans.is_empty());
    assert_eq!(text_of(&lines[2]), "Title");
    assert!(lines[2].spans.iter().all(|s| s.style.bold));
    assert_eq!(text_of(&lines[3]), "body");
}

#[test]
fn table_rows_join_cells() {
    let lines = render_html("<table><tr><td>a</td><td>b</td></tr><tr><td>c</td><td>d</td></tr></table>", 80);
    assert_eq!(lines.len(), 3);
    assert_eq!(text_of(&lines[0]), "a | b");
    assert!(lines[1].spans.is_empty());
    assert_eq!(text_of(&lines[2]), "c | d");
}

#[test]
fn work_item_anchor_appends_reference() {
    let html = r#"see <a href="https://dev.azure.com/o/p/_workitems/edit/42">this</a> now"#;
    let lines = render_html(html, 80);
    assert_eq!(lines.len(), 1);
    assert_eq!(text_of(&lines[0]), "see this#42 now");
    let reference = lines[0].spans.iter().find(|s| s.content == "#42").unwrap();
    assert_eq!(reference.style.fg, Some(Color::Cyan));
}

#[test]
fn unknown_tags_do_not_break_scanning() {
    let lines = render_html("<span class=\"x\">a</span> <blink>b</blink>", 80);
    assert_eq!(lines.len(), 1);
    assert_eq!(text_of(&lines[0]), "a b");
}

#[test]
fn unbalanced_close_tags_are_ignored() {
    let lines = render_html("</b></u>plain", 80);
    assert_eq!(text_of(&lines[0]), "plain");
    assert!(lines[0].spans.iter().all(|s| !s.style.bold));
}

#[test]
fn preformatted_text_keeps_spacing() {
    let lines = render_html("<pre>a   b\nc</pre>", 5);
    assert_eq!(lines.len(), 2);
    assert_eq!(text_of(&lines[0]), "a   b");
    assert_eq!(text_of(&lines[1]), "c");
}

#[test]
fn uppercase_tags_are_recognised() {
    let lines = render_html("<B>x</B>", 80);
    assert!(lines[0].spans.iter().any(|s| s.style.bold && s.content == "x"));
}

#[test]
fn image_becomes_placeholder() {
    let lines = render_html("a<img src=\"x.png\"/>b", 80);
    assert_eq!(text_of(&lines[0]), "a[image]b");
}

#[test]
fn all_entities_decode() {
    let s = "&nbsp;&amp;&lt;&gt;&quot;&#39;&apos;&#x27;&mdash;&ndash;&hellip;&bull;&copy;&reg;&trade;";
    assert_eq!(decode_html_entities(s), " &<>\"'''\u{2014}\u{2013}\u{2026}\u{2022}\u{a9}\u{ae}\u{2122}");
}

#[test]
fn unknown_entities_pass_through() {
    assert_eq!(decode_html_entities("a &foo; b &amp"), "a &foo; b &amp");
    assert_eq!(decode_html_entities("&amp;lt;"), "&lt;");
}

#[test]
fn whitespace_runs_collapse() {
    assert_eq!(normalize_whitespace("  a \t\n b  "), " a b ");
    assert_eq!(normalize_whitespace(""), "");
}

#[test]
fn link_id_shapes() {
    assert_eq!(extract_work_item_id("href='https://x/_workitems/77'"), Some(77));
    assert_eq!(extract_work_item_id("class=a href=https://x/workitems/edit/9 title=t"), Some(9));
    assert_eq!(extract_work_item_id("href=\"https://example.com/page\""), None);
    assert_eq!(extract_work_item_id("title=\"x\""), None);
    assert_eq!(extract_work_item_id("href=\"https://x/workitems/edit/"), None);
    assert_eq!(extract_work_item_id("href=\"https://x/workitems/edit/99999999999\""), None);
    assert_eq!(extract_work_item_id("href=\"https://x/workitems/abc\""), None);
}

#[test]
fn plain_text_keeps_every_character() {
    let text = "  The quick\tbrown fox\n jumps over the lazy dog  ";
    let strip = |s: &str| s.chars().filter(|c| !c.is_whitespace()).collect::<String>();
    for w in [0usize, 1, 4, 9, 80] {
        let lines = render_html(text, w);
        let joined: String = lines.iter().map(text_of).collect();
        assert_eq!(strip(&joined), strip(text));
    }
}

#[test]
fn zero_width_text_is_one_decoded_line() {
    let lines = render_html("  fish &amp; chips,\n  &lt;hot&gt;  ", 0);
    assert_eq!(lines.len(), 1);
    assert_eq!(text_of(&lines[0]), " fish & chips, <hot> ");
    assert!(render_html(" &nbsp; ", 0).is_empty());
}

#[test]
fn empty_heading_adds_one_blank() {
    let lines = render_html("a<h1></h1>b", 80);
    assert_eq!(lines.len(), 3);
    assert!(lines[1].spans.is_empty());
    assert_eq!(text_of(&lines[2]), "b");
}

#[test]
fn entity_text_wraps_within_width() {
    let lines = render_html("tom&nbsp;&amp;&nbsp;jerry went&nbsp;home today", 9);
    for l in &lines {
        assert!(text_of(l).trim_end().chars().count() <= 9);
    }
    let joined: String = lines.iter().map(text_of).collect::<Vec<_>>().join(" ");
    assert_eq!(joined.split_whitespace().collect::<Vec<_>>(), vec!["tom", "&", "jerry", "went", "home", "today"]);
}

fn views(lines: &[Line]) -> Vec<Vec<(String, bool, bool, bool, Option<Color>)>> {
    lines
        .iter()
        .map(|l| {
            l.spans
                .iter()
                .map(|s| (s.content.clone(), s.style.bold, s.style.underlined, s.style.crossed_out, s.style.fg))
                .collect()
        })
        .collect()
}

#[test]
fn leading_unknown_or_unmatched_tags_change_nothing() {
    let html = "Hello <b>bold</b> <ul><li>x</li></ul>";
    for prefix in ["<blink>", "<x-foo a=1>", "</b>", "</strong>", "</u>", "</s>", "</strike>", "</del>"] {
        let with = format!("{prefix}{html}");
        assert_eq!(views(&render_html(&with, 80)), views(&render_html(html, 80)));
    }
}

#[test]
fn unknown_tag_around_text_changes_nothing() {
    let html = "a <i>b</i> c";
    let lines = render_html(html, 80);
    assert_eq!(lines.len(), 1);
    assert_eq!(text_of(&lines[0]), "a b c");
}

#[test]
fn strike_and_underline_spans_carry_style() {
    let lines = render_html("<u>under</u><s>gone</s>", 80);
    assert!(lines[0].spans.iter().any(|s| s.content == "under" && s.style.underlined));
    assert!(lines[0].spans.iter().any(|s| s.content == "gone" && s.style.crossed_out));
}
