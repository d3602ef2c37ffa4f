//! The decisions of the interactive loop: what a key press does while the
//! composer is idle or while a turn runs, and how a finished turn changes
//! the state. The loop itself, which reads the terminal and drives the
//! agent, performs what these functions decide.

use crate::state::{AgentEvent, AppState, StateView, TokenUsage, agent_event_spec, state_wf};
use crate::transcript::{EntryKind, entry};
use crate::text::copy_chars;
use crate::ui::{all_white_space, is_blank};
use vstd::prelude::*;

verus! {

/// Keys the front end distinguishes.
#[derive(Clone, Copy, Debug, PartialEq, Eq, Structural)]
pub enum KeyCode {
    Char(char),
    Enter,
    Esc,
    Tab,
    Up,
    Down,
    PageUp,
    PageDown,
    Other,
}

/// Whether the key went down, repeats or went up.
#[derive(Clone, Copy, Debug, PartialEq, Eq, Structural)]
pub enum KeyKind {
    Press,
    Repeat,
    Release,
}

/// A key event with the modifiers the front end looks at.
#[derive(Clone, Copy, Debug, PartialEq, Eq, Structural)]
pub struct KeyInput {
    pub code: KeyCode,
    pub kind: KeyKind,
    pub control: bool,
    pub shift: bool,
}

/// Only presses and repeats act; releases are ignored.
pub fn is_key_press(kind: KeyKind) -> (b: bool)
    ensures
        b == (kind == KeyKind::Press || kind == KeyKind::Repeat),
{
    match kind {
        KeyKind::Press | KeyKind::Repeat => true,
        KeyKind::Release => false,
    }
}

/// What a key does while no turn runs.
#[derive(Clone, Copy, Debug, PartialEq, Eq, Structural)]
pub enum IdleAction {
    /// Leave the program.
    Exit,
    /// Empty the composer and refresh the popup.
    ClearComposer,
    /// Scroll the transcript back by five rows.
    ScrollBack,
    /// Scroll the transcript forward by five rows.
    ScrollForward,
    /// Select the previous command in the popup.
    PopupPrevious,
    /// Select the next command in the popup.
    PopupNext,
    /// Replace the composer's command with the selected one.
    CompleteCommand,
    /// Complete the selected command if the popup shows, take the
    /// composer's text and submit it unless it is blank.
    Submit,
    /// Hand the key to the composer.
    Edit,
}

pub open spec fn is_ctrl_char(key: KeyInput, c: char) -> bool {
    key.control && key.code == KeyCode::Char(c)
}

/// Ctrl+C clears the composer, or exits when it is empty; Ctrl+D exits
/// when the composer is empty; page keys scroll; with the command popup
/// showing, arrows move the selection, Tab completes and Esc clears;
/// Enter without Shift submits; every other key edits.
pub open spec fn idle_action_spec(key: KeyInput, composer_empty: bool, popup_visible: bool) -> IdleAction {
    if is_ctrl_char(key, 'c') {
        if composer_empty { IdleAction::Exit } else { IdleAction::ClearComposer }
    } else if is_ctrl_char(key, 'd') && composer_empty {
        IdleAction::Exit
    } else {
        match key.code {
            KeyCode::PageUp => IdleAction::ScrollBack,
            KeyCode::PageDown => IdleAction::ScrollForward,
            KeyCode::Up => if popup_visible { IdleAction::PopupPrevious } else { IdleAction::Edit },
            KeyCode::Down => if popup_visible { IdleAction::PopupNext } else { IdleAction::Edit },
            KeyCode::Tab => if popup_visible { IdleAction::CompleteCommand } else { IdleAction::Edit },
            KeyCode::Enter => if !key.shift { IdleAction::Submit } else { IdleAction::Edit },
            KeyCode::Esc => if popup_visible { IdleAction::ClearComposer } else { IdleAction::Edit },
            _ => IdleAction::Edit,
        }
    }
}

pub fn idle_action(key: KeyInput, composer_empty: bool, popup_visible: bool) -> (a: IdleAction)
    ensures
        a == idle_action_spec(key, composer_empty, popup_visible),
{
    if key.control && key.code == KeyCode::Char('c') {
        if composer_empty {
            return IdleAction::Exit;
        }
        return IdleAction::ClearComposer;
    }
    if key.control && key.code == KeyCode::Char('d') && composer_empty {
        return IdleAction::Exit;
    }
    match key.code {
        KeyCode::PageUp => IdleAction::ScrollBack,
        KeyCode::PageDown => IdleAction::ScrollForward,
        KeyCode::Up => if popup_visible { IdleAction::PopupPrevious } else { IdleAction::Edit },
        KeyCode::Down => if popup_visible { IdleAction::PopupNext } else { IdleAction::Edit },
        KeyCode::Tab => if popup_visible { IdleAction::CompleteCommand } else { IdleAction::Edit },
        KeyCode::Enter => if !key.shift { IdleAction::Submit } else { IdleAction::Edit },
        KeyCode::Esc => if popup_visible { IdleAction::ClearComposer } else { IdleAction::Edit },
        _ => IdleAction::Edit,
    }
}

/// The input to run, unless it is blank.
pub fn submission(input: String) -> (s: Option<String>)
    ensures
        s matches Some(t) ==> t@ == input@ && !all_white_space(input@),
        s is None <==> all_white_space(input@),
{
    if is_blank(input.as_str()) { None } else { Some(input) }
}

/// What a key does while a turn runs.
#[derive(Clone, Debug)]
pub enum RunningAction {
    /// Approve the pending call this once.
    ApproveOnce(String),
    /// Approve the pending call and every later one like it.
    ApproveAlways(String),
    /// Deny the pending call, giving the reason.
    Deny { call_id: String, reason: String },
    /// Cancel the turn.
    Cancel,
    /// Nothing.
    Ignore,
}

impl AppState {
    pub open spec fn running_key_spec(old: StateView, key: KeyInput) -> (StateView, Option<(int, Seq<char>)>) {
        match old.approval {
            Some(request) => match key.code {
                KeyCode::Char('y') | KeyCode::Enter => (StateView { approval: None, ..old }, Some((0, request.call_id))),
                KeyCode::Char('a') => (StateView { approval: None, ..old }, Some((1, request.call_id))),
                KeyCode::Char('n') | KeyCode::Esc => (StateView { approval: None, ..old }, Some((2, request.call_id))),
                _ => (old, None),
            },
            None => (old, None),
        }
    }

    /// With a tool call awaiting approval, `y` or Enter approves it once,
    /// `a` approves it always, `n` or Esc denies it (each closes the
    /// dialog) and other keys do nothing; otherwise Ctrl+C cancels the
    /// turn.
    pub fn running_key(&mut self, key: KeyInput) -> (action: RunningAction)
        requires
            old(self).wf(),
        ensures
            final(self).wf(),
            final(self)@ == Self::running_key_spec(old(self)@, key).0,
            final(self).protocol_results@ == old(self).protocol_results@,
            match action {
                RunningAction::ApproveOnce(id) => Self::running_key_spec(old(self)@, key).1 == Some((0int, id@)),
                RunningAction::ApproveAlways(id) => Self::running_key_spec(old(self)@, key).1 == Some((1int, id@)),
                RunningAction::Deny { call_id, reason } => Self::running_key_spec(old(self)@, key).1 == Some((2int, call_id@))
                    && reason@ == "Denied by user"@,
                RunningAction::Cancel => old(self)@.approval is None && is_ctrl_char(key, 'c'),
                RunningAction::Ignore => Self::running_key_spec(old(self)@, key).1 is None
                    && !(old(self)@.approval is None && is_ctrl_char(key, 'c')),
            },
    {
        let call_id = match &self.approval {
            Some(request) => request.call_id.clone(),
            None => {
                if key.control && key.code == KeyCode::Char('c') {
                    return RunningAction::Cancel;
                }
                return RunningAction::Ignore;
            },
        };
        let action = match key.code {
            KeyCode::Char('y') | KeyCode::Enter => RunningAction::ApproveOnce(call_id),
            KeyCode::Char('a') => RunningAction::ApproveAlways(call_id),
            KeyCode::Char('n') | KeyCode::Esc => RunningAction::Deny { call_id, reason: copy_chars("Denied by user") },
            _ => {
                return RunningAction::Ignore;
            },
        };
        self.approval = None;
        proof {
            assert(self@ =~= Self::running_key_spec(old(self)@, key).0);
        }
        action
    }

    /// Scrolls the transcript back five rows.
    pub fn scroll_back_page(&mut self)
        requires
            old(self).wf(),
        ensures
            final(self).wf(),
            final(self)@ == (StateView { scroll_back: old(self)@.scroll_back.saturating_add(5), ..old(self)@ }),
    {
        self.scroll_back = self.scroll_back.saturating_add(5);
        proof {
            assert(self@ =~= StateView { scroll_back: old(self)@.scroll_back.saturating_add(5), ..old(self)@ });
        }
    }

    /// Scrolls the transcript forward five rows.
    pub fn scroll_forward_page(&mut self)
        requires
            old(self).wf(),
        ensures
            final(self).wf(),
            final(self)@ == (StateView { scroll_back: old(self)@.scroll_back.saturating_sub(5), ..old(self)@ }),
    {
        self.scroll_back = self.scroll_back.saturating_sub(5);
        proof {
            assert(self@ =~= StateView { scroll_back: old(self)@.scroll_back.saturating_sub(5), ..old(self)@ });
        }
    }

    /// Closes the approval dialog and returns the call to deny, if any.
    pub fn take_approval(&mut self) -> (call_id: Option<String>)
        requires
            old(self).wf(),
        ensures
            final(self).wf(),
            final(self)@ == (StateView { approval: None, ..old(self)@ }),
            match old(self)@.approval {
                Some(a) => call_id matches Some(id) && id@ == a.call_id,
                None => call_id is None,
            },
    {
        let taken = self.approval.take();
        proof {
            assert(self@ =~= StateView { approval: None, ..old(self)@ });
        }
        match taken {
            Some(request) => Some(request.call_id),
            None => None,
        }
    }
}

/// How a turn ended.
#[derive(Clone, Debug)]
pub enum TurnOutcome {
    /// The agent finished, after this many model turns and this usage.
    Completed { turns: usize, usage: TokenUsage },
    /// The user aborted the agent.
    UserAborted,
    /// The agent failed with this message.
    Failed(String),
}

/// What cancelling a running turn asks of the engine: the pending call to
/// deny, if any, with the reason for the denial, and the reason the turn
/// is aborted.
#[derive(Clone, Debug)]
pub struct TurnCancellation {
    pub denied: Option<String>,
    pub deny_reason: String,
    pub abort_reason: String,
}

impl AppState {
    /// The user cancelled the running turn: the pending approval, if any,
    /// is closed and denied as "Turn cancelled", the turn is aborted as
    /// "Turn cancelled by user", and the state goes idle with a note in the
    /// transcript.
    pub fn cancel_running_turn(&mut self) -> (c: TurnCancellation)
        requires
            old(self).wf(),
        ensures
            final(self).wf(),
            final(self)@ == (StateView {
                transcript: old(self)@.transcript.push(entry(EntryKind::Info, "Stopped"@, "Turn cancelled by user"@)),
                approval: None,
                busy: false,
                active_assistant: None,
                active_thinking: None,
                ..old(self)@
            }),
            match old(self)@.approval {
                Some(a) => c.denied matches Some(id) && id@ == a.call_id,
                None => c.denied is None,
            },
            c.deny_reason@ == "Turn cancelled"@,
            c.abort_reason@ == "Turn cancelled by user"@,
    {
        let denied = self.take_approval();
        self.cancel_turn();
        TurnCancellation {
            denied,
            deny_reason: copy_chars("Turn cancelled"),
            abort_reason: copy_chars("Turn cancelled by user"),
        }
    }
}

/// What the plain prompt loop does after a turn: report the end of the
/// stream with the turn count and usage when the agent took at least one
/// turn, stop when the user aborted, report the error of a failed turn.
#[derive(Clone, Debug)]
pub enum ReplAction {
    EmitStreamEnd { turns: usize, usage: TokenUsage },
    Continue,
    Stop,
    EmitError(String),
}

pub fn repl_step(outcome: TurnOutcome) -> (a: ReplAction)
    ensures
        match outcome {
            TurnOutcome::Completed { turns, usage } => if turns > 0 {
                a matches ReplAction::EmitStreamEnd { turns: t, usage: u } && t == turns && u == usage
            } else {
                a is Continue
            },
            TurnOutcome::UserAborted => a is Stop,
            TurnOutcome::Failed(m) => a matches ReplAction::EmitError(e) && e@ == m@,
        },
{
    match outcome {
        TurnOutcome::Completed { turns, usage } => {
            if turns > 0 {
                ReplAction::EmitStreamEnd { turns, usage }
            } else {
                ReplAction::Continue
            }
        },
        TurnOutcome::UserAborted => ReplAction::Stop,
        TurnOutcome::Failed(message) => ReplAction::EmitError(message),
    }
}

impl AppState {
    pub open spec fn turn_outcome_spec(old: StateView, outcome: TurnOutcome) -> StateView {
        match outcome {
            TurnOutcome::Completed { turns, usage } => StateView {
                busy: false,
                turns,
                usage,
                active_assistant: None,
                active_thinking: None,
                ..old
            },
            TurnOutcome::UserAborted => StateView { busy: false, ..old },
            TurnOutcome::Failed(message) => agent_event_spec(StateView { busy: false, ..old }, AgentEvent::Error(message)),
        }
    }

    /// Applies the end of a turn: a completed turn records its count and
    /// usage; an aborted one only goes idle and asks the loop to exit
    /// (the result is `true` exactly then); a failed one goes idle and shows
    /// the error.
    pub fn end_turn(&mut self, outcome: TurnOutcome) -> (exit: bool)
        requires
            old(self).wf(),
        ensures
            final(self).wf(),
            final(self)@ == Self::turn_outcome_spec(old(self)@, outcome),
            exit == (outcome is UserAborted),
    {
        match outcome {
            TurnOutcome::Completed { turns, usage } => {
                self.finish_turn(turns, usage);
                false
            },
            TurnOutcome::UserAborted => {
                self.busy = false;
                proof {
                    assert(self@ =~= Self::turn_outcome_spec(old(self)@, outcome));
                }
                true
            },
            TurnOutcome::Failed(message) => {
                self.busy = false;
                let ghost idle = self@;
                proof {
                    assert(idle =~= StateView { busy: false, ..old(self)@ });
                }
                self.handle_agent_event(AgentEvent::Error(message));
                false
            },
        }
    }
}

} // verus!

verus! {

/// With a tool call awaiting approval, `y` and Enter approve it once, `a`
/// approves it always, `n` and Esc deny it, each for the pending call's id
/// and each closing the dialog; any other key changes nothing and answers
/// nothing.
pub proof fn law_approval_keys(v: StateView, key: KeyInput)
    requires
        v.approval is Some,
    ensures
        ({
            let (after, answer) = AppState::running_key_spec(v, key);
            let id = v.approval->0.call_id;
            let closed = StateView { approval: None, ..v };
            &&& (key.code == KeyCode::Char('y') || key.code == KeyCode::Enter) ==> after == closed && answer == Some((0int, id))
            &&& key.code == KeyCode::Char('a') ==> after == closed && answer == Some((1int, id))
            &&& (key.code == KeyCode::Char('n') || key.code == KeyCode::Esc) ==> after == closed && answer == Some((2int, id))
            &&& !(key.code == KeyCode::Char('y') || key.code == KeyCode::Enter || key.code == KeyCode::Char('a')
                || key.code == KeyCode::Char('n') || key.code == KeyCode::Esc) ==> after == v && answer is None
        }),
{
}

/// Without a pending approval a key changes nothing and answers nothing.
pub proof fn law_keys_without_approval(v: StateView, key: KeyInput)
    requires
        v.approval is None,
    ensures
        AppState::running_key_spec(v, key) == (v, Option::<(int, Seq<char>)>::None),
{
}

} // verus!
