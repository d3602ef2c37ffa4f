//! Transcript entries and the conversion of stored conversation messages
//! into them.

use crate::text::copy_chars;
use vstd::prelude::*;

verus! {

/// What an entry of the transcript shows.
#[derive(Clone, Copy, Debug, PartialEq, Eq, Structural)]
pub enum EntryKind {
    User,
    Assistant,
    Thinking,
    Tool,
    Info,
    Error,
}

/// One entry of the transcript: its kind, a label and its text.
#[derive(Debug)]
pub struct TranscriptEntry {
    pub kind: EntryKind,
    pub label: String,
    pub text: String,
}

pub struct EntryView {
    pub kind: EntryKind,
    pub label: Seq<char>,
    pub text: Seq<char>,
}

impl View for TranscriptEntry {
    type V = EntryView;

    open spec fn view(&self) -> EntryView {
        EntryView { kind: self.kind, label: self.label@, text: self.text@ }
    }
}

pub open spec fn entry(kind: EntryKind, label: Seq<char>, text: Seq<char>) -> EntryView {
    EntryView { kind, label, text }
}

pub open spec fn entries_view(entries: Seq<TranscriptEntry>) -> Seq<EntryView> {
    Seq::new(entries.len(), |i: int| entries[i]@)
}

impl TranscriptEntry {
    pub fn new(kind: EntryKind, label: String, text: String) -> (e: TranscriptEntry)
        ensures
            e@ == entry(kind, label@, text@),
    {
        TranscriptEntry { kind, label, text }
    }
}

/// Who wrote a stored message.
#[derive(Clone, Copy, Debug, PartialEq, Eq, Structural)]
pub enum Role {
    User,
    Assistant,
    System,
    Tool,
}

/// One block of a stored message. A tool call keeps its input as JSON
/// text; images and provider-specific items keep nothing the transcript
/// shows.
#[derive(Clone, Debug)]
pub enum ContentBlock {
    Text { text: String },
    Thinking { thinking: String },
    ToolUse { name: String, input: String },
    ToolResult { content: String, is_error: bool },
    Image,
    ProviderItem,
}

/// A stored conversation message.
#[derive(Clone, Debug)]
pub struct Message {
    pub role: Role,
    pub content: Vec<ContentBlock>,
}

impl Message {
    pub fn new(role: Role, content: Vec<ContentBlock>) -> (m: Message)
        ensures
            m.role == role,
            m.content@ == content@,
    {
        Message { role, content }
    }
}

/// The entry a message block becomes, if any: text by role (user and
/// assistant text unlabelled, system text as info, tool text as tool
/// output), reasoning as thinking, tool calls under the tool's name, tool
/// results as tool output or errors, images as a placeholder.
pub open spec fn block_entry(role: Role, block: ContentBlock) -> Option<EntryView> {
    match block {
        ContentBlock::Text { text } => Some(match role {
            Role::User => entry(EntryKind::User, Seq::empty(), text@),
            Role::Assistant => entry(EntryKind::Assistant, Seq::empty(), text@),
            Role::System => entry(EntryKind::Info, "System"@, text@),
            Role::Tool => entry(EntryKind::Tool, "Tool"@, text@),
        }),
        ContentBlock::Thinking { thinking } => Some(entry(EntryKind::Thinking, "Thinking"@, thinking@)),
        ContentBlock::ToolUse { name, input } => Some(entry(EntryKind::Tool, name@, input@)),
        ContentBlock::ToolResult { content, is_error } => Some(
            entry(if is_error { EntryKind::Error } else { EntryKind::Tool }, "Result"@, content@),
        ),
        ContentBlock::Image => Some(entry(EntryKind::Info, "Image"@, "[attached image]"@)),
        ContentBlock::ProviderItem => None,
    }
}

/// The entries of the blocks of one message, in order.
pub open spec fn message_entries(role: Role, blocks: Seq<ContentBlock>) -> Seq<EntryView>
    decreases blocks.len(),
{
    if blocks.len() == 0 {
        Seq::empty()
    } else {
        let prev = message_entries(role, blocks.drop_last());
        match block_entry(role, blocks.last()) {
            Some(e) => prev.push(e),
            None => prev,
        }
    }
}

/// The entries of a conversation, message after message.
pub open spec fn history_entries(messages: Seq<Message>) -> Seq<EntryView>
    decreases messages.len(),
{
    if messages.len() == 0 {
        Seq::empty()
    } else {
        history_entries(messages.drop_last()) + message_entries(messages.last().role, messages.last().content@)
    }
}

fn block_to_entry(role: Role, block: &ContentBlock) -> (e: Option<TranscriptEntry>)
    ensures
        match e {
            Some(x) => block_entry(role, *block) == Some(x@),
            None => block_entry(role, *block) is None,
        },
{
    match block {
        ContentBlock::Text { text } => Some(match role {
            Role::User => TranscriptEntry::new(EntryKind::User, String::new(), text.clone()),
            Role::Assistant => TranscriptEntry::new(EntryKind::Assistant, String::new(), text.clone()),
            Role::System => TranscriptEntry::new(EntryKind::Info, copy_chars("System"), text.clone()),
            Role::Tool => TranscriptEntry::new(EntryKind::Tool, copy_chars("Tool"), text.clone()),
        }),
        ContentBlock::Thinking { thinking } => Some(
            TranscriptEntry::new(EntryKind::Thinking, copy_chars("Thinking"), thinking.clone()),
        ),
        ContentBlock::ToolUse { name, input } => Some(TranscriptEntry::new(EntryKind::Tool, name.clone(), input.clone())),
        ContentBlock::ToolResult { content, is_error } => {
            let kind = if *is_error { EntryKind::Error } else { EntryKind::Tool };
            Some(TranscriptEntry::new(kind, copy_chars("Result"), content.clone()))
        },
        ContentBlock::Image => Some(
            TranscriptEntry::new(EntryKind::Info, copy_chars("Image"), copy_chars("[attached image]")),
        ),
        ContentBlock::ProviderItem => None,
    }
}

/// The transcript entries of a stored conversation.
pub fn entries_from_messages(messages: &Vec<Message>) -> (entries: Vec<TranscriptEntry>)
    ensures
        entries_view(entries@) == history_entries(messages@),
{
    let mut entries: Vec<TranscriptEntry> = Vec::new();
    let mut m: usize = 0;
    while m < messages.len()
        invariant
            m <= messages@.len(),
            entries_view(entries@) == history_entries(messages@.take(m as int)),
        decreases messages@.len() - m,
    {
        let message = &messages[m];
        let ghost before = entries_view(entries@);
        let mut b: usize = 0;
        while b < message.content.len()
            invariant
                b <= message.content@.len(),
                entries_view(entries@) == before + message_entries(message.role, message.content@.take(b as int)),
            decreases message.content@.len() - b,
        {
            let ghost e0 = entries@;
            match block_to_entry(message.role, &message.content[b]) {
                Some(e) => {
                    entries.push(e);
                    proof {
                        assert(entries_view(entries@) =~= entries_view(e0).push(e@));
                    }
                },
                None => {},
            }
            proof {
                assert(message.content@.take(b + 1).drop_last() =~= message.content@.take(b as int));
            }
            b = b + 1;
        }
        proof {
            assert(message.content@.take(message.content@.len() as int) =~= message.content@);
            assert(messages@.take(m + 1).drop_last() =~= messages@.take(m as int));
        }
        m = m + 1;
    }
    proof {
        assert(messages@.take(messages@.len() as int) =~= messages@);
    }
    entries
}

} // verus!

verus! {

/// The number of blocks that show as an entry: all but provider items.
pub open spec fn shown_blocks(blocks: Seq<ContentBlock>) -> nat
    decreases blocks.len(),
{
    if blocks.len() == 0 {
        0
    } else {
        shown_blocks(blocks.drop_last()) + if blocks.last() is ProviderItem { 0nat } else { 1nat }
    }
}

/// The number of blocks of all messages that show as an entry.
pub open spec fn shown_message_blocks(messages: Seq<Message>) -> nat
    decreases messages.len(),
{
    if messages.len() == 0 {
        0
    } else {
        shown_message_blocks(messages.drop_last()) + shown_blocks(messages.last().content@)
    }
}

proof fn lemma_message_entries_len(role: Role, blocks: Seq<ContentBlock>)
    ensures
        message_entries(role, blocks).len() == shown_blocks(blocks),
    decreases blocks.len(),
{
    if blocks.len() > 0 {
        lemma_message_entries_len(role, blocks.drop_last());
    }
}

/// A conversation's entries are its parts' entries one after the other,
/// and there is one entry per block that is not a provider item.
pub proof fn law_history_entries_concatenate(a: Seq<Message>, b: Seq<Message>)
    ensures
        history_entries(a + b) == history_entries(a) + history_entries(b),
        history_entries(a).len() == shown_message_blocks(a),
    decreases b.len(), a.len(),
{
    if b.len() == 0 {
        assert(a + b =~= a);
        assert(history_entries(a) + history_entries(b) =~= history_entries(a));
    } else {
        law_history_entries_concatenate(a, b.drop_last());
        assert((a + b).drop_last() =~= a + b.drop_last());
        assert((a + b).last() == b.last());
        assert(history_entries(a + b) =~= history_entries(a) + history_entries(b));
    }
    if a.len() > 0 {
        law_history_entries_concatenate(a.drop_last(), Seq::empty());
        lemma_message_entries_len(a.last().role, a.last().content@);
    }
}

} // verus!
