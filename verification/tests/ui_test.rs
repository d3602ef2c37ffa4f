use aion_tui::state::AppState;
use aion_tui::style::Color;
use aion_tui::transcript::EntryKind;
use aion_tui::ui::{aion_mark_lines, entry_style};

#[test]
fn welcome_ascii_uses_truecolor_grayscale_without_a_background() {
    let state = AppState::new(
        "model".to_string(),
        "provider".to_string(),
        "/workspace".to_string(),
        false,
    );
    let mark = aion_mark_lines(&state);
    let colored = mark
        .iter()
        .flat_map(|line| &line.spans)
        .find(|span| span.content.contains('@'))
        .expect("mark should contain a dense colored cell");
    assert_eq!(colored.style.fg, Some(Color::Rgb(28, 28, 28)));
    assert_eq!(colored.style.bg, None);
}

#[test]
fn user_and_assistant_messages_have_distinct_backgrounds() {
    let state = AppState::new(
        "model".to_string(),
        "provider".to_string(),
        "/workspace".to_string(),
        false,
    );
    let user = entry_style(EntryKind::User, &state);
    let assistant = entry_style(EntryKind::Assistant, &state);
    assert_eq!(user.bg, Some(Color::Black));
    assert_eq!(assistant.bg, None);
}
