use aion_tui::markdown::{MdEvent, MdTag, MdTagEnd};
use aion_tui::render::{ListState, MarkdownTheme, render_markdown, render_markdown_events};
use aion_tui::style::{Color, Modifiers, Span, Style};
use aion_tui::wrap::{LogicalLine, wrap_line};

fn theme() -> MarkdownTheme {
    MarkdownTheme {
        body: Style::plain(),
        inline_code: Style::plain().bg(Color::Indexed(1)),
        code_block: Style::plain().bg(Color::Indexed(2)),
        marker: Style::plain().fg(Color::Indexed(3)),
        rule: Style::plain().fg(Color::Indexed(4)),
    }
}

fn texts(lines: &[aion_tui::style::Line]) -> Vec<String> {
    lines.iter().map(|l| l.text()).collect()
}

#[test]
fn wrapping_breaks_a_long_line_without_losing_text() {
    let line = LogicalLine {
        prefix: Vec::new(),
        continuation_prefix: Vec::new(),
        spans: vec![Span::styled("abcdefghij".to_string(), Style::plain())],
        fill: None,
    };
    let rows = wrap_line(line, 4);
    assert_eq!(texts(&rows), vec!["abcd", "efgh", "ij"]);
    assert_eq!(texts(&rows).concat(), "abcdefghij");
}

#[test]
fn wrapping_keeps_a_too_wide_character_on_its_own_row() {
    let line = LogicalLine {
        prefix: Vec::new(),
        continuation_prefix: Vec::new(),
        spans: vec![Span::styled("中a".to_string(), Style::plain())],
        fill: None,
    };
    let rows = wrap_line(line, 1);
    assert_eq!(texts(&rows), vec!["中", "a"]);
}

#[test]
fn wrapping_zero_width_still_makes_one_column() {
    let line = LogicalLine {
        prefix: Vec::new(),
        continuation_prefix: Vec::new(),
        spans: vec![Span::styled("ab".to_string(), Style::plain())],
        fill: None,
    };
    assert_eq!(texts(&wrap_line(line, 0)), vec!["a", "b"]);
}

#[test]
fn wrapping_uses_the_continuation_prefix_and_fills_rows() {
    let fill = Style::plain().bg(Color::Blue);
    let line = LogicalLine {
        prefix: vec![Span::raw("> ".to_string())],
        continuation_prefix: vec![Span::raw("  ".to_string())],
        spans: vec![Span::styled("abcdef".to_string(), Style::plain())],
        fill: Some(fill),
    };
    let rows = wrap_line(line, 5);
    assert_eq!(texts(&rows), vec!["> abc", "  def"]);
    let short = LogicalLine {
        prefix: Vec::new(),
        continuation_prefix: Vec::new(),
        spans: vec![Span::styled("ab".to_string(), Style::plain())],
        fill: Some(fill),
    };
    let rows = wrap_line(short, 5);
    assert_eq!(texts(&rows), vec!["ab   "]);
    assert_eq!(rows[0].spans.last().unwrap().style, fill);
}

#[test]
fn wrapped_rows_repeat_the_prefixes_and_keep_the_text() {
    let line = LogicalLine {
        prefix: vec![Span::raw("1. ".to_string())],
        continuation_prefix: vec![Span::raw("   ".to_string())],
        spans: vec![Span::styled("one two three".to_string(), Style::plain())],
        fill: None,
    };
    let rows = texts(&wrap_line(line, 8));
    assert_eq!(rows, vec!["1. one t", "   wo th", "   ree"]);
    let content: String = rows.iter().map(|r| &r[3..]).collect();
    assert_eq!(content, "one two three");
}

#[test]
fn ordered_list_items_are_numbered_from_the_start() {
    let lines = render_markdown("3. three\n4. four", 40, theme());
    assert_eq!(texts(&lines), vec!["3. three", "4. four"]);
}

#[test]
fn list_item_marker_width_sets_the_indent() {
    let mut list = ListState::new(Some(9));
    list.begin_item();
    assert_eq!(list.marker.as_deref(), Some("9. "));
    assert_eq!(list.indent, 3);
    assert_eq!(list.next, Some(10));
    list.begin_item();
    assert_eq!(list.marker.as_deref(), Some("10. "));
    assert_eq!(list.indent, 4);
    let mut bullets = ListState::new(None);
    bullets.begin_item();
    assert_eq!(bullets.marker.as_deref(), Some("• "));
}

#[test]
fn rendered_markdown_has_no_trailing_blank_rows() {
    let lines = render_markdown("para one\n\npara two\n\n\n", 40, theme());
    assert_eq!(texts(&lines), vec!["para one", "", "para two"]);
    assert!(!lines.last().unwrap().spans.is_empty());
}

#[test]
fn blocks_are_separated_by_one_blank_row() {
    let lines = render_markdown("# Title\n\nbody", 40, theme());
    assert_eq!(texts(&lines), vec!["Title", "", "body"]);
    let title = &lines[0].spans[0];
    assert!(title.style.add_modifier.bold);
    assert!(title.style.add_modifier.underlined);
}

#[test]
fn rule_is_at_most_thirty_two_columns() {
    let lines = render_markdown("---", 80, theme());
    assert_eq!(texts(&lines), vec!["─".repeat(32)]);
    let narrow = render_markdown("---", 10, theme());
    assert_eq!(texts(&narrow), vec!["─".repeat(10)]);
}

#[test]
fn soft_break_becomes_a_space() {
    let lines = render_markdown("one\ntwo", 40, theme());
    assert_eq!(texts(&lines), vec!["one two"]);
}

#[test]
fn task_list_markers_are_shown() {
    let lines = render_markdown("- [x] done\n- [ ] open", 40, theme());
    assert_eq!(texts(&lines), vec!["• [x] done", "• [ ] open"]);
}

#[test]
fn strikethrough_and_links_are_styled() {
    let lines = render_markdown("~~gone~~ [site](http://x)", 40, theme());
    let spans = &lines[0].spans;
    let gone = spans.iter().find(|s| s.content == "gone").unwrap();
    assert!(gone.style.add_modifier.crossed_out);
    let site = spans.iter().find(|s| s.content == "site").unwrap();
    assert!(site.style.add_modifier.underlined);
}

#[test]
fn unterminated_code_block_is_still_laid_out() {
    let events = vec![
        MdEvent::Start(MdTag::CodeBlock),
        MdEvent::Text("let x = 1;\n".to_string()),
    ];
    let lines = render_markdown_events(&events, 12, theme());
    assert_eq!(texts(&lines), vec![" let x = 1; "]);
}

#[test]
fn events_render_with_nested_quotes() {
    let events = vec![
        MdEvent::Start(MdTag::BlockQuote),
        MdEvent::Start(MdTag::Paragraph),
        MdEvent::Text("quoted".to_string()),
        MdEvent::End(MdTagEnd::Paragraph),
        MdEvent::End(MdTagEnd::BlockQuote),
        MdEvent::Start(MdTag::Paragraph),
        MdEvent::InlineMath("x".to_string()),
        MdEvent::FootnoteReference("1".to_string()),
        MdEvent::End(MdTagEnd::Paragraph),
    ];
    let lines = render_markdown_events(&events, 40, theme());
    assert_eq!(texts(&lines), vec!["│ quoted", "", "$x$[1]"]);
}

#[test]
fn inline_code_keeps_its_background_in_a_heading() {
    let lines = render_markdown("## use `x`", 40, theme());
    let code = lines[0].spans.iter().find(|s| s.content == "x").unwrap();
    assert_eq!(code.style.bg, Some(Color::Indexed(1)));
    assert!(code.style.add_modifier.bold);
    assert_eq!(code.style.add_modifier, Modifiers { bold: true, ..Modifiers::empty() });
}
