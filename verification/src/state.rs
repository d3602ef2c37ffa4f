//! The front end's view of a conversation: the transcript, the pending
//! tool approval, the busy spinner, token usage and scrolling, and how
//! agent events change them.

use crate::text::copy_chars;
use crate::transcript::{
    EntryKind, EntryView, Message, TranscriptEntry, entries_from_messages, entries_view, entry,
    history_entries,
};
use vstd::prelude::*;

verus! {

/// Display settings that the caller hands to the front end.
#[derive(Clone, Debug)]
pub struct TuiMetadata {
    pub model: String,
    pub provider: String,
    pub cwd: String,
    pub no_color: bool,
}

/// A tool call waiting for the user's approval.
#[derive(Clone, Debug)]
pub struct ApprovalRequest {
    pub call_id: String,
    pub name: String,
    pub description: String,
    pub input: String,
}

pub struct ApprovalView {
    pub call_id: Seq<char>,
    pub name: Seq<char>,
    pub description: Seq<char>,
    pub input: Seq<char>,
}

impl View for ApprovalRequest {
    type V = ApprovalView;

    open spec fn view(&self) -> ApprovalView {
        ApprovalView { call_id: self.call_id@, name: self.name@, description: self.description@, input: self.input@ }
    }
}

/// Token counts reported by the agent.
#[derive(Clone, Copy, Debug, PartialEq, Eq, Structural)]
pub struct TokenUsage {
    pub input_tokens: u64,
    pub output_tokens: u64,
    pub cache_creation_tokens: u64,
    pub cache_read_tokens: u64,
}

impl TokenUsage {
    pub open spec fn zero() -> TokenUsage {
        TokenUsage { input_tokens: 0, output_tokens: 0, cache_creation_tokens: 0, cache_read_tokens: 0 }
    }

    pub fn new() -> (u: TokenUsage)
        ensures
            u == TokenUsage::zero(),
    {
        TokenUsage { input_tokens: 0, output_tokens: 0, cache_creation_tokens: 0, cache_read_tokens: 0 }
    }
}

/// What the agent reports while it works.
#[derive(Clone, Debug)]
pub enum AgentEvent {
    StreamStart,
    TextDelta(String),
    Thinking(String),
    Info(String),
    Error(String),
    ToolCall { name: String, input: String },
    ToolResult { call_id: String, name: String, is_error: bool, content: String },
    ProtocolToolResult { call_id: String, name: String, is_error: bool, content: String },
    ApprovalRequested { call_id: String, name: String, description: String, input: String },
    ToolRunning { call_id: String, name: String },
    ToolCancelled { call_id: String, name: String, reason: String },
}

/// The conversation as the front end shows it. `active_assistant` and
/// `active_thinking` point at the entries that streamed text is appended
/// to; `protocol_results` holds the calls whose result was already shown.
#[derive(Debug)]
pub struct AppState {
    pub model: String,
    pub provider: String,
    pub cwd: String,
    pub session_id: Option<String>,
    pub no_color: bool,
    pub transcript: Vec<TranscriptEntry>,
    pub approval: Option<ApprovalRequest>,
    pub busy: bool,
    pub spinner_frame: usize,
    pub usage: TokenUsage,
    pub turns: usize,
    pub scroll_back: usize,
    pub active_assistant: Option<usize>,
    pub active_thinking: Option<usize>,
    pub protocol_results: Vec<String>,
}

#[verifier::ext_equal]
pub struct StateView {
    pub model: Seq<char>,
    pub provider: Seq<char>,
    pub cwd: Seq<char>,
    pub session_id: Option<Seq<char>>,
    pub no_color: bool,
    pub transcript: Seq<EntryView>,
    pub approval: Option<ApprovalView>,
    pub busy: bool,
    pub spinner_frame: usize,
    pub usage: TokenUsage,
    pub turns: usize,
    pub scroll_back: usize,
    pub active_assistant: Option<usize>,
    pub active_thinking: Option<usize>,
    pub protocol_results: Set<Seq<char>>,
}

pub open spec fn strings_set(v: Seq<String>) -> Set<Seq<char>> {
    Set::new(|s: Seq<char>| exists|i: int| 0 <= i < v.len() && #[trigger] v[i]@ == s)
}

impl View for AppState {
    type V = StateView;

    open spec fn view(&self) -> StateView {
        StateView {
            model: self.model@,
            provider: self.provider@,
            cwd: self.cwd@,
            session_id: match self.session_id {
                Some(id) => Some(id@),
                None => None,
            },
            no_color: self.no_color,
            transcript: entries_view(self.transcript@),
            approval: match self.approval {
                Some(a) => Some(a@),
                None => None,
            },
            busy: self.busy,
            spinner_frame: self.spinner_frame,
            usage: self.usage,
            turns: self.turns,
            scroll_back: self.scroll_back,
            active_assistant: self.active_assistant,
            active_thinking: self.active_thinking,
            protocol_results: strings_set(self.protocol_results@),
        }
    }
}

/// The stream targets point into the transcript and the spinner frame is
/// one of its four frames.
pub open spec fn state_wf(v: StateView) -> bool {
    &&& (v.active_assistant matches Some(i) ==> i < v.transcript.len())
    &&& (v.active_thinking matches Some(i) ==> i < v.transcript.len())
    &&& v.spinner_frame < 4
}

pub open spec fn push_entry(v: StateView, e: EntryView) -> StateView {
    StateView { transcript: v.transcript.push(e), ..v }
}

/// Streamed text: appended to the entry the stream writes to, or a new
/// entry that the stream then writes to.
pub open spec fn append_stream_spec(v: StateView, kind: EntryKind, label: Seq<char>, text: Seq<char>) -> StateView {
    let active = if kind == EntryKind::Assistant { v.active_assistant } else { v.active_thinking };
    let v1 = match active {
        Some(i) => StateView {
            transcript: v.transcript.update(i as int, EntryView { text: v.transcript[i as int].text + text, ..v.transcript[i as int] }),
            ..v
        },
        None => push_entry(v, entry(kind, label, text)),
    };
    let now = match active {
        Some(i) => Some(i),
        None => Some((v.transcript.len()) as usize),
    };
    if kind == EntryKind::Assistant {
        StateView { active_assistant: now, ..v1 }
    } else {
        StateView { active_thinking: now, ..v1 }
    }
}

pub open spec fn result_kind(is_error: bool) -> EntryKind {
    if is_error { EntryKind::Error } else { EntryKind::Tool }
}

/// The approval request is dropped when it is for `call_id`.
pub open spec fn clear_approval_for(v: StateView, call_id: Seq<char>) -> StateView {
    match v.approval {
        Some(a) => if a.call_id == call_id { StateView { approval: None, ..v } } else { v },
        None => v,
    }
}

/// The state after one agent event. Every event scrolls back to the
/// bottom. Streamed text and reasoning extend the entry they stream into;
/// a tool result already shown through the protocol is not shown again.
pub open spec fn agent_event_spec(old: StateView, e: AgentEvent) -> StateView {
    let v = StateView { scroll_back: 0, ..old };
    match e {
        AgentEvent::StreamStart => StateView { active_assistant: None, active_thinking: None, ..v },
        AgentEvent::TextDelta(t) => append_stream_spec(v, EntryKind::Assistant, Seq::empty(), t@),
        AgentEvent::Thinking(t) => append_stream_spec(v, EntryKind::Thinking, "Thinking"@, t@),
        AgentEvent::Info(t) => push_entry(v, entry(EntryKind::Info, "Info"@, t@)),
        AgentEvent::Error(t) => push_entry(v, entry(EntryKind::Error, "Error"@, t@)),
        AgentEvent::ToolCall { name, input } => push_entry(v, entry(EntryKind::Tool, name@, input@)),
        AgentEvent::ToolResult { call_id, name, is_error, content } =>
            if v.protocol_results.contains(call_id@) {
                StateView { protocol_results: v.protocol_results.remove(call_id@), ..v }
            } else {
                push_entry(v, entry(result_kind(is_error), name@, content@))
            },
        AgentEvent::ProtocolToolResult { call_id, name, is_error, content } =>
            push_entry(
                StateView { protocol_results: v.protocol_results.insert(call_id@), ..v },
                entry(result_kind(is_error), name@, content@),
            ),
        AgentEvent::ApprovalRequested { call_id, name, description, input } =>
            StateView { approval: Some(ApprovalView { call_id: call_id@, name: name@, description: description@, input: input@ }), ..v },
        AgentEvent::ToolRunning { call_id, name } =>
            push_entry(clear_approval_for(v, call_id@), entry(EntryKind::Tool, name@, "Running…"@)),
        AgentEvent::ToolCancelled { call_id, name, reason } =>
            push_entry(clear_approval_for(v, call_id@), entry(EntryKind::Error, name@, "Cancelled: "@ + reason@)),
    }
}

/// Whether each recorded call appears once.
pub open spec fn no_duplicates(v: Seq<String>) -> bool {
    forall|i: int, j: int| 0 <= i < j < v.len() ==> v[i]@ != v[j]@
}

/// The position of `target` in `list`, if it occurs.
fn find_string(list: &Vec<String>, target: &String) -> (found: Option<usize>)
    ensures
        match found {
            Some(i) => i < list@.len() && list@[i as int]@ == target@,
            None => forall|j: int| 0 <= j < list@.len() ==> list@[j]@ != target@,
        },
{
    let mut i: usize = 0;
    while i < list.len()
        invariant
            i <= list@.len(),
            forall|j: int| 0 <= j < i ==> list@[j]@ != target@,
        decreases list@.len() - i,
    {
        if list[i] == *target {
            return Some(i);
        }
        i = i + 1;
    }
    None
}

impl AppState {
    /// The view is well formed and no call is recorded twice.
    pub open spec fn wf(&self) -> bool {
        state_wf(self@) && no_duplicates(self.protocol_results@)
    }

    /// An idle front end with an empty transcript.
    pub fn new(model: String, provider: String, cwd: String, no_color: bool) -> (s: AppState)
        ensures
            s.wf(),
            s.model@ == model@,
            s.provider@ == provider@,
            s.cwd@ == cwd@,
            s.no_color == no_color,
            s.session_id is None,
            s@.transcript.len() == 0,
            s@.approval is None,
            !s@.busy,
            s@.spinner_frame == 0,
            s@.usage == TokenUsage::zero(),
            s@.turns == 0,
            s@.scroll_back == 0,
            s@.active_assistant is None,
            s@.active_thinking is None,
            s@.protocol_results.is_empty(),
    {
        let s = AppState {
            model,
            provider,
            cwd,
            session_id: None,
            no_color,
            transcript: Vec::new(),
            approval: None,
            busy: false,
            spinner_frame: 0,
            usage: TokenUsage::new(),
            turns: 0,
            scroll_back: 0,
            active_assistant: None,
            active_thinking: None,
            protocol_results: Vec::new(),
        };
        proof {
            assert(s@.protocol_results =~= Set::<Seq<char>>::empty());
        }
        s
    }

    /// The front end for the given settings.
    pub fn from_metadata(metadata: TuiMetadata) -> (s: AppState)
        ensures
            s.wf(),
            s.model@ == metadata.model@,
            s.provider@ == metadata.provider@,
            s.cwd@ == metadata.cwd@,
            s.no_color == metadata.no_color,
            s@.transcript.len() == 0,
            !s@.busy,
    {
        AppState::new(metadata.model, metadata.provider, metadata.cwd, metadata.no_color)
    }

    /// Replaces the transcript with the entries of a resumed conversation.
    pub fn set_history(&mut self, messages: &Vec<Message>)
        requires
            old(self).wf(),
        ensures
            final(self).wf(),
            final(self)@ == (StateView {
                transcript: history_entries(messages@),
                active_assistant: None,
                active_thinking: None,
                ..old(self)@
            }),
    {
        self.transcript = entries_from_messages(messages);
        self.active_assistant = None;
        self.active_thinking = None;
        proof {
            assert(self@ =~= StateView {
                transcript: history_entries(messages@),
                active_assistant: None,
                active_thinking: None,
                ..old(self)@
            });
        }
    }

    /// A turn starts: busy, scrolled to the bottom, no stream target. The
    /// input is shown as a user entry unless it is a slash command.
    pub fn begin_turn(&mut self, input: &str, is_command: bool)
        requires
            old(self).wf(),
        ensures
            final(self).wf(),
            final(self)@ == (StateView {
                transcript: if is_command {
                    old(self)@.transcript
                } else {
                    old(self)@.transcript.push(entry(EntryKind::User, Seq::empty(), input@))
                },
                busy: true,
                scroll_back: 0,
                active_assistant: None,
                active_thinking: None,
                ..old(self)@
            }),
    {
        self.busy = true;
        self.scroll_back = 0;
        self.active_assistant = None;
        self.active_thinking = None;
        if !is_command {
            let ghost t0 = self.transcript@;
            let e = TranscriptEntry::new(EntryKind::User, String::new(), copy_chars(input));
            self.transcript.push(e);
            proof {
                assert(entries_view(self.transcript@) =~= entries_view(t0).push(e@));
            }
        }
        proof {
            assert(self@ =~= StateView {
                transcript: if is_command {
                    old(self)@.transcript
                } else {
                    old(self)@.transcript.push(entry(EntryKind::User, Seq::empty(), input@))
                },
                busy: true,
                scroll_back: 0,
                active_assistant: None,
                active_thinking: None,
                ..old(self)@
            });
        }
    }

    /// A turn completed: idle, with the turn count and usage it reported.
    pub fn finish_turn(&mut self, turns: usize, usage: TokenUsage)
        requires
            old(self).wf(),
        ensures
            final(self).wf(),
            final(self)@ == (StateView {
                busy: false,
                turns,
                usage,
                active_assistant: None,
                active_thinking: None,
                ..old(self)@
            }),
    {
        self.busy = false;
        self.turns = turns;
        self.usage = usage;
        self.active_assistant = None;
        self.active_thinking = None;
        proof {
            assert(self@ =~= StateView {
                busy: false,
                turns,
                usage,
                active_assistant: None,
                active_thinking: None,
                ..old(self)@
            });
        }
    }

    /// The user stopped the turn: idle, with a note in the transcript.
    pub fn cancel_turn(&mut self)
        requires
            old(self).wf(),
        ensures
            final(self).wf(),
            final(self)@ == (StateView {
                transcript: old(self)@.transcript.push(entry(EntryKind::Info, "Stopped"@, "Turn cancelled by user"@)),
                busy: false,
                active_assistant: None,
                active_thinking: None,
                ..old(self)@
            }),
    {
        self.busy = false;
        self.active_assistant = None;
        self.active_thinking = None;
        let ghost t0 = self.transcript@;
        let e = TranscriptEntry::new(EntryKind::Info, copy_chars("Stopped"), copy_chars("Turn cancelled by user"));
        self.transcript.push(e);
        proof {
            assert(entries_view(self.transcript@) =~= entries_view(t0).push(e@));
            assert(self@ =~= StateView {
                transcript: old(self)@.transcript.push(entry(EntryKind::Info, "Stopped"@, "Turn cancelled by user"@)),
                busy: false,
                active_assistant: None,
                active_thinking: None,
                ..old(self)@
            });
        }
    }

    /// Advances the spinner while a turn runs.
    pub fn tick(&mut self)
        requires
            old(self).wf(),
        ensures
            final(self).wf(),
            final(self)@ == (StateView {
                spinner_frame: if old(self)@.busy { ((old(self)@.spinner_frame + 1) % 4) as usize } else { old(self)@.spinner_frame },
                ..old(self)@
            }),
    {
        if self.busy {
            self.spinner_frame = (self.spinner_frame + 1) % 4;
        }
        proof {
            assert(self@ =~= StateView {
                spinner_frame: if old(self)@.busy { ((old(self)@.spinner_frame + 1) % 4) as usize } else { old(self)@.spinner_frame },
                ..old(self)@
            });
        }
    }

    fn push_entry(&mut self, e: TranscriptEntry)
        requires
            old(self).wf(),
        ensures
            final(self).wf(),
            final(self)@ == push_entry(old(self)@, e@),
            final(self).protocol_results@ == old(self).protocol_results@,
    {
        let ghost t0 = self.transcript@;
        self.transcript.push(e);
        proof {
            assert(entries_view(self.transcript@) =~= entries_view(t0).push(e@));
            assert(self@ =~= push_entry(old(self)@, e@));
        }
    }

    fn append_stream(&mut self, kind: EntryKind, label: String, text: String)
        requires
            old(self).wf(),
            kind == EntryKind::Assistant || kind == EntryKind::Thinking,
        ensures
            final(self).wf(),
            final(self)@ == append_stream_spec(old(self)@, kind, label@, text@),
            final(self).protocol_results@ == old(self).protocol_results@,
    {
        let active = if kind == EntryKind::Assistant { self.active_assistant } else { self.active_thinking };
        match active {
            Some(index) => {
                let ghost t0 = self.transcript@;
                let mut entries = Vec::new();
                std::mem::swap(&mut entries, &mut self.transcript);
                let mut target = entries.remove(index);
                target.text.append(text.as_str());
                entries.insert(index, target);
                self.transcript = entries;
                proof {
                    assert(entries_view(self.transcript@) =~= entries_view(t0).update(
                        index as int,
                        EntryView { text: entries_view(t0)[index as int].text + text@, ..entries_view(t0)[index as int] },
                    ));
                }
            },
            None => {
                let ghost t0 = self.transcript@;
                self.transcript.push(TranscriptEntry::new(kind, label, text));
                proof {
                    assert(entries_view(self.transcript@) =~= entries_view(t0).push(entry(kind, label@, text@)));
                }
            },
        }
        let now = match active {
            Some(index) => Some(index),
            None => Some(self.transcript.len() - 1),
        };
        if kind == EntryKind::Assistant {
            self.active_assistant = now;
        } else {
            self.active_thinking = now;
        }
        proof {
            assert(self@ =~= append_stream_spec(old(self)@, kind, label@, text@));
        }
    }

    /// Forgets the recorded call `call_id`; returns whether it was recorded.
    fn take_protocol_result(&mut self, call_id: &String) -> (found: bool)
        requires
            old(self).wf(),
        ensures
            final(self).wf(),
            found == old(self)@.protocol_results.contains(call_id@),
            final(self)@ == (StateView { protocol_results: old(self)@.protocol_results.remove(call_id@), ..old(self)@ }),
    {
        let ghost r0 = self.protocol_results@;
        match find_string(&self.protocol_results, call_id) {
            Some(i) => {
                self.protocol_results.remove(i);
                proof {
                    let r1 = self.protocol_results@;
                    assert(r1 == r0.remove(i as int));
                    assert forall|a: int, b: int| 0 <= a < b < r1.len() implies r1[a]@ != r1[b]@ by {
                        let a0 = if a < i { a } else { a + 1 };
                        let b0 = if b < i { b } else { b + 1 };
                        assert(r1[a] == r0[a0]);
                        assert(r1[b] == r0[b0]);
                        assert(a0 < b0);
                    }
                    assert forall|s: Seq<char>| strings_set(r1).contains(s) <==> strings_set(r0).remove(call_id@).contains(s) by {
                        if strings_set(r1).contains(s) {
                            let k = choose|k: int| 0 <= k < r1.len() && #[trigger] r1[k]@ == s;
                            let k0 = if k < i { k } else { k + 1 };
                            assert(r1[k] == r0[k0]);
                            assert(k0 != i);
                            assert(r0[k0]@ != r0[i as int]@);
                            assert(strings_set(r0).contains(s));
                        }
                        if strings_set(r0).remove(call_id@).contains(s) {
                            let k = choose|k: int| 0 <= k < r0.len() && #[trigger] r0[k]@ == s;
                            assert(k != i);
                            let k1 = if k < i { k } else { k - 1 };
                            assert(r1[k1] == r0[k]);
                        }
                    }
                    assert(strings_set(r1) =~= strings_set(r0).remove(call_id@));
                    assert(strings_set(r0).contains(call_id@));
                    assert(self@ =~= StateView { protocol_results: old(self)@.protocol_results.remove(call_id@), ..old(self)@ });
                }
                true
            },
            None => {
                proof {
                    assert(!strings_set(r0).contains(call_id@));
                    assert(strings_set(r0).remove(call_id@) =~= strings_set(r0));
                    assert(self@ =~= StateView { protocol_results: old(self)@.protocol_results.remove(call_id@), ..old(self)@ });
                }
                false
            },
        }
    }

    /// Records that the result of `call_id` was shown.
    fn record_protocol_result(&mut self, call_id: String)
        requires
            old(self).wf(),
        ensures
            final(self).wf(),
            final(self)@ == (StateView { protocol_results: old(self)@.protocol_results.insert(call_id@), ..old(self)@ }),
    {
        let ghost r0 = self.protocol_results@;
        match find_string(&self.protocol_results, &call_id) {
            Some(_) => {
                proof {
                    assert(strings_set(r0).contains(call_id@));
                    assert(strings_set(r0).insert(call_id@) =~= strings_set(r0));
                    assert(self@ =~= StateView { protocol_results: old(self)@.protocol_results.insert(call_id@), ..old(self)@ });
                }
            },
            None => {
                let ghost c = call_id@;
                self.protocol_results.push(call_id);
                proof {
                    let r1 = self.protocol_results@;
                    assert(r1[r0.len() as int]@ == c);
                    assert forall|a: int, b: int| 0 <= a < b < r1.len() implies r1[a]@ != r1[b]@ by {
                        assert(r1[a] == r0[a]);
                        if b < r0.len() {
                            assert(r1[b] == r0[b]);
                        }
                    }
                    assert forall|s: Seq<char>| strings_set(r1).contains(s) <==> strings_set(r0).insert(c).contains(s) by {
                        if strings_set(r1).contains(s) {
                            let k = choose|k: int| 0 <= k < r1.len() && #[trigger] r1[k]@ == s;
                            if k < r0.len() {
                                assert(r1[k] == r0[k]);
                            }
                        }
                        if strings_set(r0).contains(s) {
                            let k = choose|k: int| 0 <= k < r0.len() && #[trigger] r0[k]@ == s;
                            assert(r1[k] == r0[k]);
                        }
                    }
                    assert(strings_set(r1) =~= strings_set(r0).insert(c));
                    assert(self@ =~= StateView { protocol_results: old(self)@.protocol_results.insert(c), ..old(self)@ });
                }
            },
        }
    }

    /// Applies one agent event, as `agent_event_spec` describes.
    pub fn handle_agent_event(&mut self, event: AgentEvent)
        requires
            old(self).wf(),
        ensures
            final(self).wf(),
            final(self)@ == agent_event_spec(old(self)@, event),
    {
        self.scroll_back = 0;
        let ghost v = self@;
        match event {
            AgentEvent::StreamStart => {
                self.active_assistant = None;
                self.active_thinking = None;
            },
            AgentEvent::TextDelta(text) => self.append_stream(EntryKind::Assistant, String::new(), text),
            AgentEvent::Thinking(text) => self.append_stream(EntryKind::Thinking, copy_chars("Thinking"), text),
            AgentEvent::Info(text) => self.push_entry(TranscriptEntry::new(EntryKind::Info, copy_chars("Info"), text)),
            AgentEvent::Error(text) => self.push_entry(TranscriptEntry::new(EntryKind::Error, copy_chars("Error"), text)),
            AgentEvent::ToolCall { name, input } => self.push_entry(TranscriptEntry::new(EntryKind::Tool, name, input)),
            AgentEvent::ToolResult { call_id, name, is_error, content } => {
                if self.take_protocol_result(&call_id) {
                    return;
                }
                let kind = if is_error { EntryKind::Error } else { EntryKind::Tool };
                self.push_entry(TranscriptEntry::new(kind, name, content));
            },
            AgentEvent::ProtocolToolResult { call_id, name, is_error, content } => {
                self.record_protocol_result(call_id);
                let kind = if is_error { EntryKind::Error } else { EntryKind::Tool };
                self.push_entry(TranscriptEntry::new(kind, name, content));
            },
            AgentEvent::ApprovalRequested { call_id, name, description, input } => {
                self.approval = Some(ApprovalRequest { call_id, name, description, input });
            },
            AgentEvent::ToolRunning { call_id, name } => {
                self.clear_approval_for(&call_id);
                self.push_entry(TranscriptEntry::new(EntryKind::Tool, name, copy_chars("Running…")));
            },
            AgentEvent::ToolCancelled { call_id, name, reason } => {
                self.clear_approval_for(&call_id);
                let mut text = copy_chars("Cancelled: ");
                text.append(reason.as_str());
                self.push_entry(TranscriptEntry::new(EntryKind::Error, name, text));
            },
        }
        proof {
            assert(self@ =~= agent_event_spec(old(self)@, event));
        }
    }

    fn clear_approval_for(&mut self, call_id: &String)
        requires
            old(self).wf(),
        ensures
            final(self).wf(),
            final(self)@ == clear_approval_for(old(self)@, call_id@),
            final(self).protocol_results@ == old(self).protocol_results@,
    {
        let matches = match &self.approval {
            Some(request) => request.call_id == *call_id,
            None => false,
        };
        if matches {
            self.approval = None;
        }
        proof {
            assert(self@ =~= clear_approval_for(old(self)@, call_id@));
        }
    }
}

} // verus!

verus! {

/// The state after a sequence of agent events.
pub open spec fn agent_events_spec(v: StateView, events: Seq<AgentEvent>) -> StateView
    decreases events.len(),
{
    if events.len() == 0 {
        v
    } else {
        agent_event_spec(agent_events_spec(v, events.drop_last()), events.last())
    }
}

/// The concatenation of the texts.
pub open spec fn concat_texts(texts: Seq<String>) -> Seq<char>
    decreases texts.len(),
{
    if texts.len() == 0 {
        Seq::empty()
    } else {
        concat_texts(texts.drop_last()) + texts.last()@
    }
}

pub open spec fn deltas(texts: Seq<String>) -> Seq<AgentEvent> {
    Seq::new(texts.len(), |i: int| AgentEvent::TextDelta(texts[i]))
}

proof fn lemma_deltas_accumulate(v: StateView, texts: Seq<String>)
    requires
        texts.len() >= 1,
        v.transcript.len() < usize::MAX,
        v.active_assistant is None,
    ensures
        agent_events_spec(v, deltas(texts)).transcript
            == v.transcript.push(entry(EntryKind::Assistant, Seq::empty(), concat_texts(texts))),
        agent_events_spec(v, deltas(texts)).active_assistant == Some(v.transcript.len() as usize),
    decreases texts.len(),
{
    let d = deltas(texts);
    assert(d.last() == AgentEvent::TextDelta(texts.last()));
    if texts.len() == 1 {
        assert(d.drop_last() =~= Seq::<AgentEvent>::empty());
        assert(agent_events_spec(v, d.drop_last()) == v);
        assert(texts.drop_last() =~= Seq::<String>::empty());
        assert(concat_texts(texts.drop_last()) == Seq::<char>::empty());
        assert(concat_texts(texts) =~= texts.last()@);
        assert(agent_events_spec(v, d) == agent_event_spec(v, AgentEvent::TextDelta(texts.last())));
    } else {
        assert(d.drop_last() =~= deltas(texts.drop_last()));
        lemma_deltas_accumulate(v, texts.drop_last());
        let prev = agent_events_spec(v, deltas(texts.drop_last()));
        let i = v.transcript.len() as int;
        assert(prev.transcript[i].text == concat_texts(texts.drop_last()));
        assert(prev.active_assistant == Some(i as usize));
        assert(agent_events_spec(v, d) == agent_event_spec(prev, AgentEvent::TextDelta(texts.last())));
        assert(agent_events_spec(v, d).transcript =~= v.transcript.push(
            entry(EntryKind::Assistant, Seq::empty(), concat_texts(texts)),
        ));
    }
}

/// Streamed answer text collects in one assistant entry: after a stream
/// starts, any non-empty run of text deltas adds exactly one entry to the
/// transcript, holding the deltas' texts joined in order.
pub proof fn law_streaming_deltas_fill_one_entry(v: StateView, texts: Seq<String>)
    requires
        v.transcript.len() < usize::MAX,
        texts.len() >= 1,
    ensures
        agent_events_spec(v, seq![AgentEvent::StreamStart] + deltas(texts)).transcript
            == v.transcript.push(entry(EntryKind::Assistant, Seq::empty(), concat_texts(texts))),
{
    let started = agent_event_spec(v, AgentEvent::StreamStart);
    lemma_deltas_accumulate(started, texts);
    lemma_events_split(v, seq![AgentEvent::StreamStart], deltas(texts));
    assert(seq![AgentEvent::StreamStart].drop_last() =~= Seq::<AgentEvent>::empty());
    assert(agent_events_spec(v, seq![AgentEvent::StreamStart].drop_last()) == v);
    assert(agent_events_spec(v, seq![AgentEvent::StreamStart]) == started);
}

proof fn lemma_events_split(v: StateView, a: Seq<AgentEvent>, b: Seq<AgentEvent>)
    ensures
        agent_events_spec(v, a + b) == agent_events_spec(agent_events_spec(v, a), b),
    decreases b.len(),
{
    if b.len() == 0 {
        assert(a + b =~= a);
    } else {
        lemma_events_split(v, a, b.drop_last());
        assert((a + b).drop_last() =~= a + b.drop_last());
    }
}

/// A tool result that the protocol already reported is not shown twice:
/// the protocol report followed by the sink's report of the same call adds
/// exactly the protocol's entry, and the call is no longer recorded.
pub proof fn law_protocol_result_is_shown_once(
    v: StateView,
    call_id: String,
    name: String,
    is_error: bool,
    content: String,
    sink_name: String,
    sink_is_error: bool,
    sink_content: String,
)
    ensures
        ({
            let after = agent_event_spec(
                agent_event_spec(v, AgentEvent::ProtocolToolResult { call_id, name, is_error, content }),
                AgentEvent::ToolResult { call_id, name: sink_name, is_error: sink_is_error, content: sink_content },
            );
            &&& after.transcript == v.transcript.push(entry(result_kind(is_error), name@, content@))
            &&& after.protocol_results == v.protocol_results.remove(call_id@)
        }),
{
    let mid = agent_event_spec(v, AgentEvent::ProtocolToolResult { call_id, name, is_error, content });
    assert(mid.protocol_results.contains(call_id@));
    assert(v.protocol_results.insert(call_id@).remove(call_id@) =~= v.protocol_results.remove(call_id@));
}

} // verus!

verus! {

/// A tool result that the protocol has not already shown adds exactly one
/// entry, under the tool's name with the result's content, whose kind is
/// `Error` exactly when the result is an error and `Tool` otherwise; a
/// protocol-reported result is shown the same way and its call recorded.
pub proof fn law_tool_result_entry_kind(
    v: StateView,
    call_id: String,
    name: String,
    is_error: bool,
    content: String,
)
    ensures
        !v.protocol_results.contains(call_id@) ==> agent_event_spec(
            v,
            AgentEvent::ToolResult { call_id, name, is_error, content },
        ).transcript == v.transcript.push(
            EntryView { kind: if is_error { EntryKind::Error } else { EntryKind::Tool }, label: name@, text: content@ },
        ),
        agent_event_spec(v, AgentEvent::ProtocolToolResult { call_id, name, is_error, content }).transcript
            == v.transcript.push(
            EntryView { kind: if is_error { EntryKind::Error } else { EntryKind::Tool }, label: name@, text: content@ },
        ),
        agent_event_spec(v, AgentEvent::ProtocolToolResult { call_id, name, is_error, content }).protocol_results
            == v.protocol_results.insert(call_id@),
{
}

} // verus!
