use aion_tui::markdown::{MdEvent, MdTag, MdTagEnd};
use aion_tui::provider::is_thinking_replay_format_error;
use aion_tui::render::{MarkdownTheme, render_markdown_events};
use aion_tui::state::{AgentEvent, AppState};
use aion_tui::style::{Color, Style};
use aion_tui::text::char_is_whitespace;
use aion_tui::transcript::{ContentBlock, Message, Role, TranscriptEntry, EntryKind, entries_from_messages};
use aion_tui::ui::{checked_transcript_line_count, conversation_lines, transcript_line_count};

fn theme() -> MarkdownTheme {
    MarkdownTheme {
        body: Style::plain(),
        inline_code: Style::plain().bg(Color::Indexed(1)),
        code_block: Style::plain().bg(Color::Indexed(2)),
        marker: Style::plain().fg(Color::Indexed(3)),
        rule: Style::plain().fg(Color::Indexed(4)),
    }
}

#[test]
fn agent_events_leave_the_settings_alone() {
    let mut s = AppState::new("m".to_string(), "p".to_string(), "/w".to_string(), true);
    s.session_id = Some("id".to_string());
    s.handle_agent_event(AgentEvent::TextDelta("x".to_string()));
    s.handle_agent_event(AgentEvent::Error("bad".to_string()));
    assert_eq!(s.model, "m");
    assert_eq!(s.provider, "p");
    assert_eq!(s.cwd, "/w");
    assert_eq!(s.session_id.as_deref(), Some("id"));
    assert!(s.no_color);
}

#[test]
fn emphasis_ends_where_its_tag_closes() {
    let events = vec![
        MdEvent::Start(MdTag::Paragraph),
        MdEvent::Start(MdTag::Emphasis),
        MdEvent::Start(MdTag::Strong),
        MdEvent::Text("a".to_string()),
        MdEvent::End(MdTagEnd::Strong),
        MdEvent::End(MdTagEnd::Emphasis),
        MdEvent::Text("b".to_string()),
        MdEvent::End(MdTagEnd::Paragraph),
    ];
    let lines = render_markdown_events(&events, 40, theme());
    assert_eq!(lines.len(), 1);
    let spans = &lines[0].spans;
    assert_eq!(spans[0].content, "a");
    assert!(spans[0].style.add_modifier.italic && spans[0].style.add_modifier.bold);
    assert_eq!(spans[1].content, "b");
    assert!(!spans[1].style.add_modifier.italic && !spans[1].style.add_modifier.bold);
}

#[test]
fn quote_depth_returns_after_the_quote() {
    let events = vec![
        MdEvent::Start(MdTag::BlockQuote),
        MdEvent::Start(MdTag::Paragraph),
        MdEvent::Text("in".to_string()),
        MdEvent::End(MdTagEnd::Paragraph),
        MdEvent::End(MdTagEnd::BlockQuote),
        MdEvent::Start(MdTag::Paragraph),
        MdEvent::Text("out".to_string()),
        MdEvent::End(MdTagEnd::Paragraph),
    ];
    let texts: Vec<String> = render_markdown_events(&events, 40, theme()).iter().map(|l| l.text()).collect();
    assert_eq!(texts, vec!["│ in", "", "out"]);
}

#[test]
fn histories_concatenate_and_count_shown_blocks() {
    let a = vec![Message::new(Role::User, vec![
        ContentBlock::Text { text: "q".to_string() },
        ContentBlock::ProviderItem,
    ])];
    let b = vec![Message::new(Role::Assistant, vec![
        ContentBlock::Thinking { thinking: "t".to_string() },
        ContentBlock::Text { text: "r".to_string() },
    ])];
    let both: Vec<Message> = a.iter().chain(b.iter()).cloned().collect();
    let texts = |ms: &Vec<Message>| -> Vec<String> { entries_from_messages(ms).iter().map(|e| e.text.clone()).collect() };
    let mut joined = texts(&a);
    joined.extend(texts(&b));
    assert_eq!(texts(&both), joined);
    assert_eq!(entries_from_messages(&both).len(), 3);
}

#[test]
fn wider_screens_need_no_more_message_rows() {
    let text = "a message that wraps across several rows\nand a second line";
    let mut previous = usize::MAX;
    for width in [4u16, 8, 12, 20, 40, 80] {
        let rows = conversation_lines(text, width).len();
        assert!(rows <= previous);
        previous = rows;
    }
    assert_eq!(conversation_lines(text, 80).len(), 2);
}

#[test]
fn whitespace_matches_std() {
    for cp in 0u32..0x3100 {
        if let Some(c) = char::from_u32(cp) {
            assert_eq!(char_is_whitespace(c), c.is_whitespace(), "{cp:x}");
        }
    }
}

#[test]
fn replay_errors_match_in_upper_case() {
    assert!(is_thinking_replay_format_error("THE CONTENT[].THINKING IN THINKING MODE MUST BE PASSED BACK"));
    assert!(!is_thinking_replay_format_error("CONTENT[].THINKING MISSING"));
}

#[test]
fn checked_count_agrees() {
    let mut s = AppState::new("m".to_string(), "p".to_string(), "/w".to_string(), true);
    assert_eq!(checked_transcript_line_count(&s, 20), Some(1));
    s.transcript.push(TranscriptEntry::new(EntryKind::Tool, "Read".to_string(), "one\ntwo".to_string()));
    assert_eq!(checked_transcript_line_count(&s, 20), Some(transcript_line_count(&s, 20)));
    assert_eq!(transcript_line_count(&s, 20), 3);
}
