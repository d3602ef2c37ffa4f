use aion_tui::cli::{Flow, SessionSummary, check_session_flags, choose_flow, join_prompt, repl_prompt, resume_banner, trim};
use aion_tui::provider::{ThinkingReplay, is_thinking_replay_format_error, replay_retry};
use aion_tui::runtime::{ReplAction, repl_step};
use aion_tui::runtime::{IdleAction, KeyCode, KeyInput, KeyKind, RunningAction, TurnOutcome, idle_action, is_key_press, submission};
use aion_tui::state::{AgentEvent, AppState, TokenUsage, TuiMetadata};
use aion_tui::transcript::{ContentBlock, EntryKind, Message, Role, entries_from_messages};

fn key(code: KeyCode) -> KeyInput {
    KeyInput { code, kind: KeyKind::Press, control: false, shift: false }
}

fn ctrl(c: char) -> KeyInput {
    KeyInput { code: KeyCode::Char(c), kind: KeyKind::Press, control: true, shift: false }
}

fn state() -> AppState {
    AppState::from_metadata(TuiMetadata {
        model: "m".to_string(),
        provider: "p".to_string(),
        cwd: "/w".to_string(),
        no_color: true,
    })
}

#[test]
fn replay_format_errors_are_recognised_in_any_case() {
    assert!(is_thinking_replay_format_error("The CONTENT[].THINKING in the thinking mode must be PASSED BACK"));
    assert!(!is_thinking_replay_format_error("content[].thinking missing"));
    assert!(!is_thinking_replay_format_error("rate limited"));
}

#[test]
fn replay_falls_back_twice_then_stops() {
    let error = Some("content[].thinking must be passed back");
    assert_eq!(replay_retry(ThinkingReplay::Configured, false, error), Some(ThinkingReplay::ContentBlock));
    assert_eq!(replay_retry(ThinkingReplay::Configured, true, error), None);
    assert_eq!(replay_retry(ThinkingReplay::ContentBlock, false, error), Some(ThinkingReplay::Omitted));
    assert_eq!(replay_retry(ThinkingReplay::Omitted, false, error), None);
    assert_eq!(replay_retry(ThinkingReplay::Configured, false, Some("other")), None);
    assert_eq!(replay_retry(ThinkingReplay::Configured, false, None), None);
}

#[test]
fn idle_keys() {
    assert_eq!(idle_action(ctrl('c'), true, false), IdleAction::Exit);
    assert_eq!(idle_action(ctrl('c'), false, false), IdleAction::ClearComposer);
    assert_eq!(idle_action(ctrl('d'), true, false), IdleAction::Exit);
    assert_eq!(idle_action(ctrl('d'), false, false), IdleAction::Edit);
    assert_eq!(idle_action(key(KeyCode::PageUp), false, false), IdleAction::ScrollBack);
    assert_eq!(idle_action(key(KeyCode::PageDown), false, false), IdleAction::ScrollForward);
    assert_eq!(idle_action(key(KeyCode::Up), false, true), IdleAction::PopupPrevious);
    assert_eq!(idle_action(key(KeyCode::Up), false, false), IdleAction::Edit);
    assert_eq!(idle_action(key(KeyCode::Down), false, true), IdleAction::PopupNext);
    assert_eq!(idle_action(key(KeyCode::Tab), false, true), IdleAction::CompleteCommand);
    assert_eq!(idle_action(key(KeyCode::Enter), false, false), IdleAction::Submit);
    let shift_enter = KeyInput { shift: true, ..key(KeyCode::Enter) };
    assert_eq!(idle_action(shift_enter, false, false), IdleAction::Edit);
    assert_eq!(idle_action(key(KeyCode::Esc), false, true), IdleAction::ClearComposer);
    assert_eq!(idle_action(key(KeyCode::Char('x')), false, true), IdleAction::Edit);
    assert!(is_key_press(KeyKind::Repeat));
    assert!(!is_key_press(KeyKind::Release));
    assert_eq!(submission("  \n".to_string()), None);
    assert_eq!(submission(" hi ".to_string()), Some(" hi ".to_string()));
}

#[test]
fn running_keys_answer_the_approval() {
    let mut s = state();
    assert!(matches!(s.running_key(ctrl('c')), RunningAction::Cancel));
    assert!(matches!(s.running_key(key(KeyCode::Char('y'))), RunningAction::Ignore));
    s.handle_agent_event(AgentEvent::ApprovalRequested {
        call_id: "call-7".to_string(),
        name: "Bash".to_string(),
        description: "run".to_string(),
        input: "ls".to_string(),
    });
    assert!(matches!(s.running_key(ctrl('c')), RunningAction::Ignore));
    assert!(s.approval.is_some());
    match s.running_key(key(KeyCode::Char('a'))) {
        RunningAction::ApproveAlways(id) => assert_eq!(id, "call-7"),
        _ => panic!("expected an approval"),
    }
    assert!(s.approval.is_none());
    s.handle_agent_event(AgentEvent::ApprovalRequested {
        call_id: "call-8".to_string(),
        name: "Bash".to_string(),
        description: "run".to_string(),
        input: "ls".to_string(),
    });
    match s.running_key(key(KeyCode::Esc)) {
        RunningAction::Deny { call_id, reason } => {
            assert_eq!(call_id, "call-8");
            assert_eq!(reason, "Denied by user");
        }
        _ => panic!("expected a denial"),
    }
    s.handle_agent_event(AgentEvent::ApprovalRequested {
        call_id: "call-9".to_string(),
        name: "Bash".to_string(),
        description: "run".to_string(),
        input: "ls".to_string(),
    });
    assert_eq!(s.take_approval(), Some("call-9".to_string()));
    assert_eq!(s.take_approval(), None);
}

#[test]
fn turns_start_finish_and_cancel() {
    let mut s = state();
    s.begin_turn("hello", false);
    assert!(s.busy);
    assert_eq!(s.transcript.len(), 1);
    assert_eq!(s.transcript[0].kind, EntryKind::User);
    s.begin_turn("/help", true);
    assert_eq!(s.transcript.len(), 1);
    s.tick();
    s.tick();
    assert_eq!(s.spinner_frame, 2);
    let usage = TokenUsage { input_tokens: 3, output_tokens: 4, cache_creation_tokens: 0, cache_read_tokens: 1 };
    assert!(!s.end_turn(TurnOutcome::Completed { turns: 2, usage }));
    assert!(!s.busy);
    assert_eq!(s.turns, 2);
    assert_eq!(s.usage, usage);
    s.tick();
    assert_eq!(s.spinner_frame, 2);
    s.begin_turn("again", false);
    s.cancel_turn();
    assert_eq!(s.transcript.last().unwrap().label, "Stopped");
    assert_eq!(s.transcript.last().unwrap().text, "Turn cancelled by user");
    s.begin_turn("x", false);
    assert!(!s.end_turn(TurnOutcome::Failed("boom".to_string())));
    assert_eq!(s.transcript.last().unwrap().kind, EntryKind::Error);
    assert_eq!(s.transcript.last().unwrap().text, "boom");
    s.begin_turn("y", false);
    assert!(s.end_turn(TurnOutcome::UserAborted));
    assert!(!s.busy);
}

#[test]
fn agent_events_become_entries() {
    let mut s = state();
    s.scroll_back_page();
    assert_eq!(s.scroll_back, 5);
    s.handle_agent_event(AgentEvent::Thinking("hm".to_string()));
    s.handle_agent_event(AgentEvent::Thinking("m".to_string()));
    s.handle_agent_event(AgentEvent::Info("note".to_string()));
    s.handle_agent_event(AgentEvent::ToolCall { name: "Read".to_string(), input: "{}".to_string() });
    s.handle_agent_event(AgentEvent::ToolResult {
        call_id: "c1".to_string(),
        name: "Read".to_string(),
        is_error: true,
        content: "nope".to_string(),
    });
    s.handle_agent_event(AgentEvent::ToolRunning { call_id: "c2".to_string(), name: "Bash".to_string() });
    s.handle_agent_event(AgentEvent::ToolCancelled {
        call_id: "c3".to_string(),
        name: "Bash".to_string(),
        reason: "timeout".to_string(),
    });
    assert_eq!(s.scroll_back, 0);
    let got: Vec<(EntryKind, String, String)> =
        s.transcript.iter().map(|e| (e.kind, e.label.clone(), e.text.clone())).collect();
    assert_eq!(got, vec![
        (EntryKind::Thinking, "Thinking".to_string(), "hmm".to_string()),
        (EntryKind::Info, "Info".to_string(), "note".to_string()),
        (EntryKind::Tool, "Read".to_string(), "{}".to_string()),
        (EntryKind::Error, "Read".to_string(), "nope".to_string()),
        (EntryKind::Tool, "Bash".to_string(), "Running…".to_string()),
        (EntryKind::Error, "Bash".to_string(), "Cancelled: timeout".to_string()),
    ]);
    s.handle_agent_event(AgentEvent::StreamStart);
    s.handle_agent_event(AgentEvent::Thinking("new".to_string()));
    assert_eq!(s.transcript.len(), 7);
}

#[test]
fn history_blocks_map_to_entries() {
    let messages = vec![
        Message::new(Role::System, vec![ContentBlock::Text { text: "sys".to_string() }]),
        Message::new(Role::Assistant, vec![
            ContentBlock::Thinking { thinking: "why".to_string() },
            ContentBlock::ToolUse { name: "Read".to_string(), input: "{\"p\":1}".to_string() },
            ContentBlock::ProviderItem,
        ]),
        Message::new(Role::Tool, vec![
            ContentBlock::ToolResult { content: "ok".to_string(), is_error: false },
            ContentBlock::ToolResult { content: "bad".to_string(), is_error: true },
            ContentBlock::Text { text: "t".to_string() },
        ]),
        Message::new(Role::User, vec![ContentBlock::Image]),
    ];
    let got: Vec<(EntryKind, String, String)> = entries_from_messages(&messages)
        .iter()
        .map(|e| (e.kind, e.label.clone(), e.text.clone()))
        .collect();
    assert_eq!(got, vec![
        (EntryKind::Info, "System".to_string(), "sys".to_string()),
        (EntryKind::Thinking, "Thinking".to_string(), "why".to_string()),
        (EntryKind::Tool, "Read".to_string(), "{\"p\":1}".to_string()),
        (EntryKind::Tool, "Result".to_string(), "ok".to_string()),
        (EntryKind::Error, "Result".to_string(), "bad".to_string()),
        (EntryKind::Tool, "Tool".to_string(), "t".to_string()),
        (EntryKind::Info, "Image".to_string(), "[attached image]".to_string()),
    ]);
}

#[test]
fn flows_and_flags() {
    assert!(check_session_flags(true, false).is_ok());
    assert_eq!(
        check_session_flags(true, true).unwrap_err(),
        "Cannot use --resume and --session-id together"
    );
    let words = vec!["fix".to_string(), "the".to_string(), "bug".to_string()];
    assert_eq!(join_prompt(&words), "fix the bug");
    assert!(matches!(choose_flow(true, &words, true, true), Flow::JsonStream));
    assert!(matches!(choose_flow(false, &Vec::new(), true, true), Flow::Tui));
    assert!(matches!(choose_flow(false, &Vec::new(), true, false), Flow::Plain(p) if p.is_empty()));
    assert!(matches!(choose_flow(false, &words, true, true), Flow::Plain(p) if p == "fix the bug"));
}

#[test]
fn resume_banners() {
    let session = SessionSummary {
        id: "s2".to_string(),
        forked_from: Some("s1".to_string()),
        message_count: 12,
        model: "gpt".to_string(),
    };
    assert_eq!(resume_banner(&session, false), "Resumed session s2 (12 messages, gpt model)");
    assert_eq!(resume_banner(&session, true), "Forked session s2 from s1 (12 messages, gpt model)");
    let orphan = SessionSummary { forked_from: None, message_count: 0, ..session };
    assert_eq!(resume_banner(&orphan, true), "Forked session s2 from ? (0 messages, gpt model)");
}

#[test]
fn repl_lines_are_trimmed() {
    assert_eq!(trim("  hi there \t\n"), "hi there");
    assert_eq!(trim(""), "");
    assert_eq!(repl_prompt("   \n"), None);
    assert_eq!(repl_prompt(" go\n"), Some("go".to_string()));
}

#[test]
fn cancelling_a_turn_denies_the_pending_call() {
    let mut s = state();
    s.begin_turn("go", false);
    s.handle_agent_event(AgentEvent::ApprovalRequested {
        call_id: "call-1".to_string(),
        name: "Bash".to_string(),
        description: "run".to_string(),
        input: "ls".to_string(),
    });
    let c = s.cancel_running_turn();
    assert_eq!(c.denied.as_deref(), Some("call-1"));
    assert_eq!(c.deny_reason, "Turn cancelled");
    assert_eq!(c.abort_reason, "Turn cancelled by user");
    assert!(s.approval.is_none());
    assert!(!s.busy);
    assert_eq!(s.transcript.last().unwrap().text, "Turn cancelled by user");
    assert!(s.cancel_running_turn().denied.is_none());
}

#[test]
fn repl_steps() {
    let usage = TokenUsage { input_tokens: 1, output_tokens: 2, cache_creation_tokens: 3, cache_read_tokens: 4 };
    match repl_step(TurnOutcome::Completed { turns: 2, usage }) {
        ReplAction::EmitStreamEnd { turns, usage: u } => {
            assert_eq!(turns, 2);
            assert_eq!(u, usage);
        }
        _ => panic!("expected the stream end"),
    }
    assert!(matches!(repl_step(TurnOutcome::Completed { turns: 0, usage }), ReplAction::Continue));
    assert!(matches!(repl_step(TurnOutcome::UserAborted), ReplAction::Stop));
    match repl_step(TurnOutcome::Failed("boom".to_string())) {
        ReplAction::EmitError(m) => assert_eq!(m, "boom"),
        _ => panic!("expected an error"),
    }
}
