use aion_tui::state::{AgentEvent, AppState, ApprovalRequest};
use aion_tui::style::Color;
use aion_tui::transcript::{EntryKind, TranscriptEntry};
use aion_tui::ui::{
    Rect, approval_area, approval_text, centered_rect, compact_cwd, conversation_lines, footer, is_conversation,
    padded_message_line, popup_area, popup_line, text_lines, transcript_line_count, transcript_lines,
    transcript_scroll, welcome_top_padding, wrapped_height,
};

fn state(no_color: bool) -> AppState {
    AppState::new("model".to_string(), "provider".to_string(), "/workspace/project".to_string(), no_color)
}

#[test]
fn compact_cwd_keeps_the_last_component() {
    assert_eq!(compact_cwd("/workspace/project"), "project");
    assert_eq!(compact_cwd("/workspace/project/"), "project");
    assert_eq!(compact_cwd("C:\\Users\\me"), "me");
    assert_eq!(compact_cwd("/"), "/");
    assert_eq!(compact_cwd(""), "");
    assert_eq!(compact_cwd("plain"), "plain");
}

#[test]
fn conversation_kinds() {
    assert!(is_conversation(EntryKind::User));
    assert!(is_conversation(EntryKind::Assistant));
    assert!(!is_conversation(EntryKind::Tool));
    assert!(!is_conversation(EntryKind::Thinking));
}

#[test]
fn message_rows_are_padded_to_the_width() {
    assert_eq!(padded_message_line("ab", 2, 5), " ab    ");
    assert_eq!(padded_message_line("abcdef", 6, 5), " abcdef ");
    let rows = conversation_lines("hello world", 8);
    assert_eq!(rows, vec![" hello  ", " world  "]);
    assert!(rows.iter().all(|r| r.chars().count() == 8));
    assert_eq!(conversation_lines("a\n\nb", 5), vec![" a   ", "     ", " b   "]);
}

#[test]
fn message_rows_count_wide_characters_twice() {
    let rows = conversation_lines("中文中", 6);
    assert_eq!(rows, vec![" 中文 ", " 中   "]);
}

#[test]
fn text_lines_follow_str_lines() {
    assert_eq!(text_lines("a\r\nb\n"), vec!["a", "b"]);
    assert_eq!(text_lines(""), Vec::<String>::new());
    assert_eq!(text_lines("x\n\ny"), vec!["x", "", "y"]);
    assert_eq!(text_lines("end\r"), vec!["end\r"]);
}

#[test]
fn wrapped_height_rounds_up() {
    assert_eq!(wrapped_height("", 10), 1);
    assert_eq!(wrapped_height("abcdefghij", 10), 1);
    assert_eq!(wrapped_height("abcdefghijk", 10), 2);
    assert_eq!(wrapped_height("中文", 3), 2);
}

#[test]
fn transcript_rows_and_count_agree() {
    let mut s = state(true);
    assert_eq!(transcript_line_count(&s, 20), 1);
    s.transcript.push(TranscriptEntry::new(EntryKind::User, String::new(), "hi".to_string()));
    s.transcript.push(TranscriptEntry::new(EntryKind::Tool, "Read".to_string(), "one\ntwo".to_string()));
    s.transcript.push(TranscriptEntry::new(EntryKind::Info, "Note".to_string(), String::new()));
    let lines = transcript_lines(&s, 20);
    let texts: Vec<String> = lines.iter().map(|l| l.text()).collect();
    assert_eq!(texts.len(), 8);
    assert_eq!(texts[0], format!(" hi{} ", " ".repeat(16)));
    assert_eq!(&texts[1..], &["", "Read", "one", "two", "", "Note", ""]);
    assert_eq!(transcript_line_count(&s, 20), 8);
    assert!(lines[2].spans[0].style.add_modifier.bold);
}

#[test]
fn scroll_stays_within_range() {
    assert_eq!(transcript_scroll(100, 20, 0), 80);
    assert_eq!(transcript_scroll(100, 20, 30), 50);
    assert_eq!(transcript_scroll(100, 20, 500), 0);
    assert_eq!(transcript_scroll(10, 20, 0), 0);
    assert_eq!(transcript_scroll(200_000, 1, 0), 65535);
}

#[test]
fn footer_reports_provider_model_status_and_session() {
    let mut s = state(true);
    let f = footer(&s, 80);
    assert_eq!(f.hints, " Enter send · Shift+Enter newline · / commands · Tab complete · Ctrl+C quit ");
    assert_eq!(f.metadata, " AionCLI · provider · model · ready · project ");
    assert_eq!(f.session, " session new ");
    s.busy = true;
    s.spinner_frame = 2;
    s.session_id = Some("abc".to_string());
    let f = footer(&s, 40);
    assert_eq!(f.hints, " Ctrl+C stop · PgUp/PgDn scroll ");
    assert!(f.metadata.contains(" · ••• · "));
    assert_eq!(f.session, " session abc ");
    s.busy = false;
    assert_eq!(footer(&s, 40).hints, " Enter send · / commands · Ctrl+C quit ");
    s.handle_agent_event(AgentEvent::ApprovalRequested {
        call_id: "c".to_string(),
        name: "Bash".to_string(),
        description: String::new(),
        input: "ls".to_string(),
    });
    assert_eq!(footer(&s, 40).hints, " y allow once · a always allow · n/esc deny ");
}

#[test]
fn popup_rows_fill_the_width() {
    assert_eq!(popup_line(true, "help", "List commands", 30), format!("› /help         List commands{}", " ".repeat(1)));
    let row = popup_line(false, "averyverylongname", "d", 10);
    assert_eq!(row, "  /averyverylongname d");
    let area = popup_area(Rect { x: 1, y: 0, width: 78, height: 24 }, 18, 10);
    assert_eq!(area, Rect { x: 1, y: 11, width: 78, height: 7 });
}

#[test]
fn approval_dialog_falls_back_to_a_default_request() {
    let request = ApprovalRequest {
        call_id: "c".to_string(),
        name: "Bash".to_string(),
        description: "  \n".to_string(),
        input: "rm -rf target".to_string(),
    };
    assert_eq!(approval_text(&request), "Bash\n\nThis tool needs your approval.\n\nrm -rf target");
    let bounds = Rect { x: 1, y: 0, width: 78, height: 24 };
    assert_eq!(approval_area(bounds), Rect { x: 3, y: 6, width: 74, height: 12 });
    assert_eq!(centered_rect(100, 100, bounds), bounds);
}

#[test]
fn welcome_needs_room() {
    assert_eq!(welcome_top_padding(Rect { x: 0, y: 0, width: 78, height: 19 }), Some(1));
    assert_eq!(welcome_top_padding(Rect { x: 0, y: 0, width: 49, height: 40 }), None);
    assert_eq!(welcome_top_padding(Rect { x: 0, y: 0, width: 78, height: 15 }), None);
}

#[test]
fn colors_are_dropped_without_color() {
    let s = state(true);
    let user = aion_tui::ui::entry_style(EntryKind::User, &s);
    assert_eq!(user.bg, None);
    assert!(user.add_modifier.bold);
    let plain = state(false);
    assert_eq!(aion_tui::ui::entry_style(EntryKind::Error, &plain).fg, Some(Color::Black));
}

#[test]
fn welcome_mark_shows_the_ascii_rows() {
    let rows: Vec<String> = aion_tui::ui::aion_mark_lines(&state(true)).iter().map(|l| l.text()).collect();
    assert_eq!(rows.len(), 13);
    assert!(rows.iter().any(|r| r.contains("**@@@@**")));
    assert!(rows.iter().any(|r| r.contains("**@@@@######@@**")));
}

#[test]
fn small_area_shows_the_resize_message() {
    let content = aion_tui::ui::content_area(Rect { x: 0, y: 0, width: 21, height: 7 });
    assert!(aion_tui::ui::is_too_small(content));
    assert!(!aion_tui::ui::is_too_small(aion_tui::ui::content_area(Rect { x: 0, y: 0, width: 80, height: 24 })));
    assert!(aion_tui::ui::too_small_message().contains("Terminal too small"));
    assert!(aion_tui::ui::composer_placeholder().contains("Type a message"));
}
