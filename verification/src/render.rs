//! Laying out markdown events as styled terminal rows.
//!
//! The renderer walks the event stream once. Block starts flush the open
//! line and leave one blank row after the previous block; list items,
//! quotes and code blocks contribute prefixes; inline tags only change the
//! style of the text they enclose. Each logical line is wrapped to the
//! render width when it is flushed.

use crate::markdown::{MdEvent, MdTag, MdTagEnd, markdown_events, parse_markdown};
use crate::style::{Line, Modifiers, Span, SpanView, Style, lemma_spans_view_push, lines_view, spans_view};
use crate::text::{
    decimal_seq, is_white_space, char_is_whitespace, push_char, push_decimal, spaces, spaces_seq, split_newlines,
    split_on_newlines, str_display_width, str_width, strings_view, lemma_split_newlines_nonempty,
};
use crate::wrap::{LogicalLine, LogicalView, wrap_line, wrap_line_spec};
use vstd::prelude::*;

verus! {

/// Styles of the markdown elements.
#[derive(Clone, Copy, Debug, PartialEq, Eq, Structural)]
pub struct MarkdownTheme {
    pub body: Style,
    pub inline_code: Style,
    pub code_block: Style,
    pub marker: Style,
    pub rule: Style,
}

/// How deeply the current text sits inside each inline element, and the
/// level of the enclosing heading.
#[derive(Clone, Copy, Debug, PartialEq, Eq, Structural)]
pub struct InlineState {
    pub strong: usize,
    pub emphasis: usize,
    pub strikethrough: usize,
    pub link: usize,
    pub heading: Option<u8>,
}

impl InlineState {
    pub open spec fn none() -> InlineState {
        InlineState { strong: 0, emphasis: 0, strikethrough: 0, link: 0, heading: None }
    }

    /// Bold inside strong text and headings, italic inside emphasis,
    /// crossed out inside strikethrough, underlined inside links and
    /// level-one headings.
    pub open spec fn modifiers_spec(self) -> Modifiers {
        Modifiers {
            bold: self.strong > 0 || self.heading is Some,
            italic: self.emphasis > 0,
            crossed_out: self.strikethrough > 0,
            underlined: self.link > 0 || self.heading == Some(1u8),
            ..Modifiers::none()
        }
    }

    pub open spec fn style_spec(self, base: Style) -> Style {
        base.add_modifier_spec(self.modifiers_spec())
    }

    pub fn new() -> (s: InlineState)
        ensures
            s == InlineState::none(),
    {
        InlineState { strong: 0, emphasis: 0, strikethrough: 0, link: 0, heading: None }
    }

    /// `base` with the modifiers of the enclosing inline elements added.
    pub fn style(&self, base: Style) -> (s: Style)
        ensures
            s == self.style_spec(base),
    {
        let mut modifiers = Modifiers::empty();
        if self.strong > 0 || self.heading.is_some() {
            modifiers = modifiers.union(Modifiers::bold());
        }
        if self.emphasis > 0 {
            modifiers = modifiers.union(Modifiers::italic());
        }
        if self.strikethrough > 0 {
            modifiers = modifiers.union(Modifiers { crossed_out: true, ..Modifiers::empty() });
        }
        if self.link > 0 {
            modifiers = modifiers.union(Modifiers { underlined: true, ..Modifiers::empty() });
        }
        if self.heading == Some(1u8) {
            modifiers = modifiers.union(Modifiers { underlined: true, ..Modifiers::empty() });
        }
        base.add_modifier(modifiers)
    }
}

/// An open list: the number of its next item when ordered, the marker of
/// the item whose first row is not yet laid out, and the indent of its
/// items.
#[derive(Debug)]
pub struct ListState {
    pub next: Option<u64>,
    pub marker: Option<String>,
    pub indent: usize,
}

pub struct ListView {
    pub next: Option<u64>,
    pub marker: Option<Seq<char>>,
    pub indent: usize,
}

impl View for ListState {
    type V = ListView;

    open spec fn view(&self) -> ListView {
        ListView {
            next: self.next,
            marker: match self.marker {
                Some(m) => Some(m@),
                None => None,
            },
            indent: self.indent,
        }
    }
}

/// The marker of an item: `"<n>. "` in an ordered list, a bullet otherwise.
pub open spec fn item_marker(next: Option<u64>) -> Seq<char> {
    match next {
        Some(n) => decimal_seq(n as nat) + seq!['.', ' '],
        None => seq!['•', ' '],
    }
}

/// The list after one more item begins.
pub open spec fn begin_item_spec(l: ListView) -> ListView {
    ListView {
        next: match l.next {
            Some(n) => Some(n.saturating_add(1)),
            None => None,
        },
        marker: Some(item_marker(l.next)),
        indent: str_width(item_marker(l.next)),
    }
}

impl ListState {
    /// A list whose first item is numbered `next`, or a bullet list.
    pub fn new(next: Option<u64>) -> (s: ListState)
        ensures
            s@ == (ListView { next, marker: None, indent: 2 }),
    {
        ListState { next, marker: None, indent: 2 }
    }

    /// Starts an item: its marker is the next number (or a bullet), and the
    /// item's indent is the marker's width.
    pub fn begin_item(&mut self)
        ensures
            final(self)@ == begin_item_spec(old(self)@),
    {
        let mut marker = String::new();
        match self.next {
            Some(n) => {
                push_decimal(&mut marker, n);
                push_char(&mut marker, '.');
                push_char(&mut marker, ' ');
                self.next = Some(n.saturating_add(1));
                proof {
                    assert(marker@ =~= item_marker(old(self)@.next));
                }
            },
            None => {
                push_char(&mut marker, '•');
                push_char(&mut marker, ' ');
                proof {
                    assert(marker@ =~= item_marker(old(self)@.next));
                }
            },
        }
        self.indent = str_display_width(marker.as_str());
        self.marker = Some(marker);
    }
}

pub open spec fn lists_view(lists: Seq<ListState>) -> Seq<ListView> {
    Seq::new(lists.len(), |i: int| lists[i]@)
}

/// Everything the renderer holds between two events.
#[verifier::ext_equal]
pub struct RendererView {
    pub width: u16,
    pub theme: MarkdownTheme,
    pub lines: Seq<Seq<SpanView>>,
    pub current: Option<LogicalView>,
    pub inline: InlineState,
    pub lists: Seq<ListView>,
    pub quote_depth: usize,
    pub code_block: Option<Seq<char>>,
    pub pending_separator: bool,
}

/// The markdown renderer: finished rows, the logical line being filled,
/// inline and block nesting, the code block being collected, and whether
/// the next block is separated from the previous one by a blank row.
pub struct MarkdownRenderer {
    width: u16,
    theme: MarkdownTheme,
    lines: Vec<Line>,
    current: Option<LogicalLine>,
    inline: InlineState,
    lists: Vec<ListState>,
    quote_depth: usize,
    code_block: Option<String>,
    pending_separator: bool,
}

impl View for MarkdownRenderer {
    type V = RendererView;

    closed spec fn view(&self) -> RendererView {
        RendererView {
            width: self.width,
            theme: self.theme,
            lines: lines_view(self.lines@),
            current: match self.current {
                Some(l) => Some(l@),
                None => None,
            },
            inline: self.inline,
            lists: lists_view(self.lists@),
            quote_depth: self.quote_depth,
            code_block: match self.code_block {
                Some(c) => Some(c@),
                None => None,
            },
            pending_separator: self.pending_separator,
        }
    }
}

pub open spec fn quote_marker() -> Seq<char> {
    seq!['│', ' ']
}

pub open spec fn indent_span(n: usize) -> SpanView {
    SpanView { content: spaces_seq(n as nat), style: Style::plain_spec() }
}

/// Whether the innermost list has an item marker waiting for its row.
pub open spec fn marker_pending(v: RendererView) -> bool {
    v.lists.len() > 0 && v.lists.last().marker is Some
}

/// First-row prefix of a new line: a quote bar per quote level, then per
/// open list its indent, except that the innermost list shows its pending
/// item marker instead.
pub open spec fn first_prefix(v: RendererView) -> Seq<SpanView> {
    let n = v.lists.len();
    Seq::new(v.quote_depth as nat, |_i: int| SpanView { content: quote_marker(), style: v.theme.marker })
        + Seq::new(n, |i: int|
            if marker_pending(v) && i == n - 1 {
                SpanView { content: v.lists[i].marker->0, style: v.theme.marker }
            } else {
                indent_span(v.lists[i].indent)
            })
}

/// Prefix of the further rows of a line: quote bars, then list indents.
pub open spec fn continuation_prefix(v: RendererView) -> Seq<SpanView> {
    Seq::new(v.quote_depth as nat, |_i: int| SpanView { content: quote_marker(), style: v.theme.marker })
        + Seq::new(v.lists.len(), |i: int| indent_span(v.lists[i].indent))
}

/// The lists once the pending marker has been used.
pub open spec fn lists_after_prefix(v: RendererView) -> Seq<ListView> {
    if marker_pending(v) {
        v.lists.update(v.lists.len() - 1, ListView { marker: None, ..v.lists.last() })
    } else {
        v.lists
    }
}

pub open spec fn ensure_current_spec(v: RendererView) -> RendererView {
    if v.current is None {
        RendererView {
            current: Some(
                LogicalView {
                    prefix: first_prefix(v),
                    continuation_prefix: continuation_prefix(v),
                    spans: Seq::empty(),
                    fill: None,
                },
            ),
            lists: lists_after_prefix(v),
            ..v
        }
    } else {
        v
    }
}

#[verifier::opaque]
pub open spec fn push_span_spec(v: RendererView, span: SpanView) -> RendererView {
    let v1 = ensure_current_spec(v);
    let cur = v1.current->0;
    RendererView { current: Some(LogicalView { spans: cur.spans.push(span), ..cur }), ..v1 }
}

/// Wraps the open line, if any, into the finished rows.
#[verifier::opaque]
pub open spec fn flush_spec(v: RendererView) -> RendererView {
    match v.current {
        Some(l) => RendererView { lines: v.lines + wrap_line_spec(l, v.width), current: None, ..v },
        None => v,
    }
}

/// Flushes, then leaves one blank row when a separator is pending and the
/// last row is not blank already.
#[verifier::opaque]
pub open spec fn start_block_spec(v: RendererView) -> RendererView {
    let v1 = flush_spec(v);
    let separate = v1.pending_separator && v1.lines.len() > 0 && v1.lines.last().len() > 0;
    RendererView {
        lines: if separate { v1.lines.push(Seq::empty()) } else { v1.lines },
        pending_separator: false,
        ..v1
    }
}

pub open spec fn text_style(v: RendererView) -> Style {
    v.inline.style_spec(v.theme.body)
}

pub open spec fn piece_step(v: RendererView, style: Style, pieces: Seq<Seq<char>>, j: int) -> RendererView {
    let v1 = if pieces[j].len() > 0 {
        push_span_spec(v, SpanView { content: pieces[j], style })
    } else {
        v
    };
    if j + 1 < pieces.len() { flush_spec(v1) } else { v1 }
}

pub open spec fn pieces_fold(v: RendererView, style: Style, pieces: Seq<Seq<char>>, k: nat) -> RendererView
    decreases k,
{
    if k == 0 {
        v
    } else {
        piece_step(pieces_fold(v, style, pieces, (k - 1) as nat), style, pieces, k - 1)
    }
}

/// Text in the current inline style; each newline ends the line.
#[verifier::opaque]
pub open spec fn push_text_spec(v: RendererView, text: Seq<char>) -> RendererView {
    let pieces = split_newlines(text);
    pieces_fold(v, text_style(v), pieces, pieces.len())
}

/// A soft break becomes a space, unless the line is empty or already ends
/// in whitespace.
#[verifier::opaque]
pub open spec fn soft_break_spec(v: RendererView) -> RendererView {
    let needs_space = match v.current {
        Some(l) => l.spans.len() > 0 && l.spans.last().content.len() > 0
            && !is_white_space(l.spans.last().content.last()),
        None => false,
    };
    if needs_space { push_text_spec(v, seq![' ']) } else { v }
}

pub open spec fn rule_width(width: u16) -> nat {
    if width < 32 { width as nat } else { 32 }
}

/// A horizontal rule: a block of its own, one row of at most 32 line
/// characters.
#[verifier::opaque]
pub open spec fn rule_spec(v: RendererView) -> RendererView {
    let v1 = start_block_spec(v);
    RendererView {
        lines: v1.lines.push(seq![SpanView { content: Seq::new(rule_width(v1.width), |_i: int| '─'), style: v1.theme.rule }]),
        pending_separator: true,
        ..v1
    }
}

/// The logical line of one row of code: block prefixes plus a one-space
/// gutter, the code itself, filled to the width in the code style.
pub open spec fn code_line(v: RendererView, code: Seq<char>) -> LogicalView {
    let cb = v.theme.code_block;
    LogicalView {
        prefix: first_prefix(v).push(SpanView { content: seq![' '], style: cb }),
        continuation_prefix: continuation_prefix(v).push(SpanView { content: seq![' '], style: cb }),
        spans: seq![SpanView { content: code, style: cb }],
        fill: Some(cb),
    }
}

pub open spec fn code_line_step(v: RendererView, pieces: Seq<Seq<char>>, j: int) -> RendererView {
    RendererView {
        lines: v.lines + wrap_line_spec(code_line(v, pieces[j]), v.width),
        lists: lists_after_prefix(v),
        ..v
    }
}

pub open spec fn code_lines_fold(v: RendererView, pieces: Seq<Seq<char>>, k: nat) -> RendererView
    decreases k,
{
    if k == 0 {
        v
    } else {
        code_line_step(code_lines_fold(v, pieces, (k - 1) as nat), pieces, k - 1)
    }
}

pub open spec fn strip_final_newline(s: Seq<char>) -> Seq<char> {
    if s.len() > 0 && s.last() == '\n' { s.drop_last() } else { s }
}

/// Lays out the collected code, one logical line per source line (a final
/// newline ends the last line rather than adding an empty one).
#[verifier::opaque]
pub open spec fn finish_code_block_spec(v: RendererView) -> RendererView {
    match v.code_block {
        None => v,
        Some(content) => {
            let v0 = RendererView { code_block: None, ..v };
            let pieces = split_newlines(strip_final_newline(content));
            RendererView { pending_separator: true, ..code_lines_fold(v0, pieces, pieces.len()) }
        },
    }
}

pub open spec fn with_inline(v: RendererView, inline: InlineState) -> RendererView {
    RendererView { inline, ..v }
}

#[verifier::opaque]
pub open spec fn start_tag_spec(v: RendererView, tag: MdTag) -> RendererView {
    let inl = v.inline;
    match tag {
        MdTag::Paragraph => start_block_spec(v),
        MdTag::Heading(level) => {
            let v1 = start_block_spec(v);
            with_inline(v1, InlineState { heading: Some(level), ..v1.inline })
        },
        MdTag::BlockQuote => {
            let v1 = start_block_spec(v);
            RendererView { quote_depth: v1.quote_depth.saturating_add(1), ..v1 }
        },
        MdTag::CodeBlock => RendererView { code_block: Some(Seq::empty()), ..start_block_spec(v) },
        MdTag::List(next) => {
            let v1 = if v.lists.len() == 0 { start_block_spec(v) } else { flush_spec(v) };
            RendererView { lists: v1.lists.push(ListView { next, marker: None, indent: 2 }), ..v1 }
        },
        MdTag::Item => {
            let v1 = flush_spec(v);
            if v1.lists.len() > 0 {
                RendererView { lists: v1.lists.update(v1.lists.len() - 1, begin_item_spec(v1.lists.last())), ..v1 }
            } else {
                v1
            }
        },
        MdTag::Emphasis => with_inline(v, InlineState { emphasis: inl.emphasis.saturating_add(1), ..inl }),
        MdTag::Strong => with_inline(v, InlineState { strong: inl.strong.saturating_add(1), ..inl }),
        MdTag::Strikethrough => with_inline(v, InlineState { strikethrough: inl.strikethrough.saturating_add(1), ..inl }),
        MdTag::Link => with_inline(v, InlineState { link: inl.link.saturating_add(1), ..inl }),
        MdTag::Image => with_inline(v, InlineState { emphasis: inl.emphasis.saturating_add(1), ..inl }),
        MdTag::HtmlBlock => start_block_spec(v),
        MdTag::Other => v,
    }
}

#[verifier::opaque]
pub open spec fn end_tag_spec(v: RendererView, tag: MdTagEnd) -> RendererView {
    let inl = v.inline;
    match tag {
        MdTagEnd::Paragraph => {
            let v1 = flush_spec(v);
            RendererView { pending_separator: v1.pending_separator || v1.lists.len() == 0, ..v1 }
        },
        MdTagEnd::Heading => {
            let v1 = flush_spec(v);
            RendererView { inline: InlineState { heading: None, ..v1.inline }, pending_separator: true, ..v1 }
        },
        MdTagEnd::BlockQuote => {
            let v1 = flush_spec(v);
            RendererView { quote_depth: v1.quote_depth.saturating_sub(1), pending_separator: true, ..v1 }
        },
        MdTagEnd::CodeBlock => finish_code_block_spec(v),
        MdTagEnd::List => {
            let v1 = flush_spec(v);
            let lists = if v1.lists.len() > 0 { v1.lists.drop_last() } else { v1.lists };
            RendererView { lists, pending_separator: v1.pending_separator || lists.len() == 0, ..v1 }
        },
        MdTagEnd::Item => {
            let v1 = flush_spec(v);
            if v1.lists.len() > 0 {
                RendererView { lists: v1.lists.update(v1.lists.len() - 1, ListView { marker: None, ..v1.lists.last() }), ..v1 }
            } else {
                v1
            }
        },
        MdTagEnd::Emphasis => with_inline(v, InlineState { emphasis: inl.emphasis.saturating_sub(1), ..inl }),
        MdTagEnd::Strong => with_inline(v, InlineState { strong: inl.strong.saturating_sub(1), ..inl }),
        MdTagEnd::Strikethrough => with_inline(v, InlineState { strikethrough: inl.strikethrough.saturating_sub(1), ..inl }),
        MdTagEnd::Link => with_inline(v, InlineState { link: inl.link.saturating_sub(1), ..inl }),
        MdTagEnd::Image => with_inline(v, InlineState { emphasis: inl.emphasis.saturating_sub(1), ..inl }),
        MdTagEnd::HtmlBlock => RendererView { pending_separator: true, ..flush_spec(v) },
        MdTagEnd::Other => v,
    }
}

pub open spec fn bracketed(open: char, body: Seq<char>, close: char) -> Seq<char> {
    seq![open] + body + seq![close]
}

pub open spec fn task_marker(checked: bool) -> Seq<char> {
    if checked { seq!['[', 'x', ']', ' '] } else { seq!['[', ' ', ']', ' '] }
}

/// The renderer after one event. Inside a code block only text, code and
/// line breaks are collected, until the block ends.
#[verifier::opaque]
pub open spec fn event_spec(v: RendererView, e: MdEvent) -> RendererView {
    match v.code_block {
        Some(code) => match e {
            MdEvent::Text(t) => RendererView { code_block: Some(code + t@), ..v },
            MdEvent::Code(t) => RendererView { code_block: Some(code + t@), ..v },
            MdEvent::SoftBreak => RendererView { code_block: Some(code.push('\n')), ..v },
            MdEvent::HardBreak => RendererView { code_block: Some(code.push('\n')), ..v },
            MdEvent::End(MdTagEnd::CodeBlock) => finish_code_block_spec(v),
            _ => v,
        },
        None => match e {
            MdEvent::Start(tag) => start_tag_spec(v, tag),
            MdEvent::End(tag) => end_tag_spec(v, tag),
            MdEvent::Text(t) => push_text_spec(v, t@),
            MdEvent::Html(t) => push_text_spec(v, t@),
            MdEvent::Code(t) => push_span_spec(v, SpanView { content: t@, style: v.inline.style_spec(v.theme.inline_code) }),
            MdEvent::SoftBreak => soft_break_spec(v),
            MdEvent::HardBreak => flush_spec(v),
            MdEvent::Rule => rule_spec(v),
            MdEvent::TaskListMarker(checked) => push_text_spec(v, task_marker(checked)),
            MdEvent::FootnoteReference(label) => push_text_spec(v, bracketed('[', label@, ']')),
            MdEvent::InlineMath(m) => push_text_spec(v, bracketed('$', m@, '$')),
            MdEvent::DisplayMath(m) => {
                let v1 = flush_spec(push_text_spec(start_block_spec(v), m@));
                RendererView { pending_separator: true, ..v1 }
            },
        },
    }
}

pub open spec fn events_fold(v: RendererView, events: Seq<MdEvent>) -> RendererView
    decreases events.len(),
{
    if events.len() == 0 {
        v
    } else {
        event_spec(events_fold(v, events.drop_last()), events.last())
    }
}

/// Drops the blank rows at the end.
pub open spec fn trim_trailing_blank(lines: Seq<Seq<SpanView>>) -> Seq<Seq<SpanView>>
    decreases lines.len(),
{
    if lines.len() > 0 && lines.last().len() == 0 {
        trim_trailing_blank(lines.drop_last())
    } else {
        lines
    }
}

/// The rows once the input has ended: an unterminated code block is laid
/// out, the open line is flushed, and trailing blank rows are dropped.
pub open spec fn finish_spec(v: RendererView) -> Seq<Seq<SpanView>> {
    let v1 = if v.code_block is Some { finish_code_block_spec(v) } else { v };
    trim_trailing_blank(flush_spec(v1).lines)
}

pub open spec fn initial_view(width: u16, theme: MarkdownTheme) -> RendererView {
    RendererView {
        width,
        theme,
        lines: Seq::empty(),
        current: None,
        inline: InlineState::none(),
        lists: Seq::empty(),
        quote_depth: 0,
        code_block: None,
        pending_separator: false,
    }
}

pub open spec fn render_width(width: u16) -> u16 {
    if width == 0 { 1 } else { width }
}

/// The rows of a rendered event stream.
pub open spec fn render_events_spec(events: Seq<MdEvent>, width: u16, theme: MarkdownTheme) -> Seq<Seq<SpanView>> {
    finish_spec(events_fold(initial_view(render_width(width), theme), events))
}

/// The two-character quote bar.
fn quote_marker_string() -> (s: String)
    ensures
        s@ == quote_marker(),
{
    let mut s = String::new();
    push_char(&mut s, '│');
    push_char(&mut s, ' ');
    proof {
        assert(s@ =~= quote_marker());
    }
    s
}

pub proof fn lemma_split_ends_with_newline(s: Seq<char>)
    ensures
        (s.len() > 0 && s.last() == '\n') <==> (split_newlines(s).len() > 1 && split_newlines(s).last().len() == 0),
        s.len() > 0 && s.last() == '\n' ==> split_newlines(s.drop_last()) == split_newlines(s).drop_last(),
{
    if s.len() > 0 {
        lemma_split_newlines_nonempty(s.drop_last());
        let r = split_newlines(s.drop_last());
        if s.last() == '\n' {
            assert(split_newlines(s).drop_last() =~= r);
        } else {
            assert(split_newlines(s).last() == r.last().push(s.last()));
        }
    }
}

impl MarkdownRenderer {
    pub fn new(width: u16, theme: MarkdownTheme) -> (r: MarkdownRenderer)
        ensures
            r@ == initial_view(width, theme),
    {
        let r = MarkdownRenderer {
            width,
            theme,
            lines: Vec::new(),
            current: None,
            inline: InlineState::new(),
            lists: Vec::new(),
            quote_depth: 0,
            code_block: None,
            pending_separator: false,
        };
        proof {
            assert(r@ =~= initial_view(width, theme));
        }
        r
    }

    /// The prefixes of a new line; the pending item marker, if any, is used.
    fn take_prefixes(&mut self) -> (res: (Vec<Span>, Vec<Span>))
        ensures
            spans_view(res.0@) == first_prefix(old(self)@),
            spans_view(res.1@) == continuation_prefix(old(self)@),
            final(self)@ == (RendererView { lists: lists_after_prefix(old(self)@), ..old(self)@ }),
    {
        let ghost v = self@;
        let mut prefix: Vec<Span> = Vec::new();
        let mut continuation: Vec<Span> = Vec::new();
        let mut q: usize = 0;
        while q < self.quote_depth
            invariant
                self@ == v,
                q <= v.quote_depth,
                spans_view(prefix@) =~= first_prefix(v).take(q as int),
                spans_view(continuation@) =~= continuation_prefix(v).take(q as int),
            decreases v.quote_depth - q,
        {
            let ghost p0 = prefix@;
            let ghost c0 = continuation@;
            let ps = Span::styled(quote_marker_string(), self.theme.marker);
            let cs = Span::styled(quote_marker_string(), self.theme.marker);
            prefix.push(ps);
            continuation.push(cs);
            proof {
                lemma_spans_view_push(p0, ps);
                lemma_spans_view_push(c0, cs);
                assert(first_prefix(v)[q as int] == ps@);
                assert(continuation_prefix(v)[q as int] == cs@);
                assert(first_prefix(v).take(q + 1) =~= first_prefix(v).take(q as int).push(ps@));
                assert(continuation_prefix(v).take(q + 1) =~= continuation_prefix(v).take(q as int).push(cs@));
            }
            q = q + 1;
        }
        let n = self.lists.len();
        let qd = self.quote_depth;
        let mut i: usize = 0;
        while i + 1 < n
            invariant
                self@ == v,
                n == v.lists.len(),
                qd == v.quote_depth,
                i + 1 <= n || n == 0,
                i <= n,
                spans_view(prefix@) =~= first_prefix(v).take(qd + i),
                spans_view(continuation@) =~= continuation_prefix(v).take(qd + i),
            decreases n - i,
        {
            let indent = self.lists[i].indent;
            let ghost p0 = prefix@;
            let ghost c0 = continuation@;
            let ps = Span::raw(spaces(indent));
            let cs = Span::raw(spaces(indent));
            prefix.push(ps);
            continuation.push(cs);
            proof {
                lemma_spans_view_push(p0, ps);
                lemma_spans_view_push(c0, cs);
                assert(v.lists[i as int].indent == indent);
                assert(first_prefix(v)[qd + i] == ps@);
                assert(continuation_prefix(v)[qd + i] == cs@);
                assert(first_prefix(v).take(qd + i + 1) =~= first_prefix(v).take(qd + i).push(ps@));
                assert(continuation_prefix(v).take(qd + i + 1) =~= continuation_prefix(v).take(qd + i).push(cs@));
            }
            i = i + 1;
        }
        if n > 0 {
            let ghost p0 = prefix@;
            let ghost c0 = continuation@;
            proof {
                assert(i + 1 == n);
                assert(first_prefix(v).len() == qd + n);
                assert(first_prefix(v) =~= first_prefix(v).take(qd + i).push(first_prefix(v)[qd + i]));
                assert(continuation_prefix(v) =~= continuation_prefix(v).take(qd + i).push(continuation_prefix(v)[qd + i]));
            }
            if self.lists[n - 1].marker.is_some() {
                let mut last = self.lists.pop().unwrap();
                let marker = last.marker.take().unwrap();
                let cs = Span::raw(spaces(last.indent));
                let ps = Span::styled(marker, self.theme.marker);
                continuation.push(cs);
                prefix.push(ps);
                self.lists.push(last);
                proof {
                    lemma_spans_view_push(p0, ps);
                    lemma_spans_view_push(c0, cs);
                    assert(marker_pending(v));
                    assert(first_prefix(v)[qd + i] == ps@);
                    assert(continuation_prefix(v)[qd + i] == cs@);
                    assert(lists_view(self.lists@) =~= lists_after_prefix(v));
                }
            } else {
                let indent = self.lists[n - 1].indent;
                let ps = Span::raw(spaces(indent));
                let cs = Span::raw(spaces(indent));
                prefix.push(ps);
                continuation.push(cs);
                proof {
                    lemma_spans_view_push(p0, ps);
                    lemma_spans_view_push(c0, cs);
                    assert(!marker_pending(v));
                    assert(first_prefix(v)[qd + i] == ps@);
                    assert(continuation_prefix(v)[qd + i] == cs@);
                }
            }
        } else {
            proof {
                assert(spans_view(prefix@) =~= first_prefix(v));
                assert(spans_view(continuation@) =~= continuation_prefix(v));
            }
        }
        proof {
            assert(self@ =~= RendererView { lists: lists_after_prefix(v), ..v });
        }
        (prefix, continuation)
    }

    fn ensure_current(&mut self)
        ensures
            final(self)@ == ensure_current_spec(old(self)@),
            final(self).current is Some,
    {
        if self.current.is_none() {
            let (prefix, continuation_prefix) = self.take_prefixes();
            self.current = Some(LogicalLine { prefix, continuation_prefix, spans: Vec::new(), fill: None });
            proof {
                assert(spans_view(Seq::<Span>::empty()) =~= Seq::<SpanView>::empty());
                assert(self@ =~= ensure_current_spec(old(self)@));
            }
        }
    }

    fn push_span(&mut self, span: Span)
        ensures
            final(self)@ == push_span_spec(old(self)@, span@),
    {
        reveal(push_span_spec);
        self.ensure_current();
        let ghost v1 = self@;
        let mut cur = self.current.take().unwrap();
        let ghost spans0 = cur.spans@;
        cur.spans.push(span);
        self.current = Some(cur);
        proof {
            assert(spans_view(spans0.push(span)) =~= spans_view(spans0).push(span@));
            assert(self@ =~= push_span_spec(old(self)@, span@));
        }
    }

    fn push_logical(&mut self, line: LogicalLine)
        ensures
            final(self)@ == (RendererView { lines: old(self)@.lines + wrap_line_spec(line@, old(self)@.width), ..old(self)@ }),
    {
        let mut rows = wrap_line(line, self.width);
        let ghost lines0 = self.lines@;
        let ghost rows0 = rows@;
        self.lines.append(&mut rows);
        proof {
            assert(lines_view(lines0 + rows0) =~= lines_view(lines0) + lines_view(rows0));
            assert(self@ =~= RendererView { lines: old(self)@.lines + wrap_line_spec(line@, old(self)@.width), ..old(self)@ });
        }
    }

    fn flush_current(&mut self)
        ensures
            final(self)@ == flush_spec(old(self)@),
    {
        reveal(flush_spec);
        match self.current.take() {
            Some(line) => {
                self.push_logical(line);
                proof {
                    assert(self@ =~= flush_spec(old(self)@));
                }
            },
            None => {},
        }
    }

    fn start_block(&mut self)
        ensures
            final(self)@ == start_block_spec(old(self)@),
    {
        reveal(start_block_spec);
        self.flush_current();
        let n = self.lines.len();
        if self.pending_separator && n > 0 && self.lines[n - 1].spans.len() > 0 {
            self.lines.push(Line { spans: Vec::new() });
            proof {
                assert(spans_view(Seq::<Span>::empty()) =~= Seq::<SpanView>::empty());
            }
        }
        self.pending_separator = false;
        proof {
            assert(self@ =~= start_block_spec(old(self)@));
        }
    }

    /// Pushes text in the current inline style; newlines end lines.
    fn push_text(&mut self, text: &str)
        ensures
            final(self)@ == push_text_spec(old(self)@, text@),
    {
        reveal(push_text_spec);
        let ghost v0 = self@;
        let style = self.inline.style(self.theme.body);
        let pieces = split_on_newlines(text);
        let ghost ps = split_newlines(text@);
        let n = pieces.len();
        let mut i: usize = 0;
        while i < n
            invariant
                i <= n,
                n == ps.len(),
                strings_view(pieces@) == ps,
                style == text_style(v0),
                self@ == pieces_fold(v0, style, ps, i as nat),
            decreases n - i,
        {
            let ghost before = self@;
            let ghost v1 = if ps[i as int].len() > 0 {
                push_span_spec(before, SpanView { content: ps[i as int], style })
            } else {
                before
            };
            if !pieces[i].as_str().is_empty() {
                let piece = pieces[i].clone();
                let span = Span::styled(piece, style);
                proof {
                    assert(span@ == SpanView { content: ps[i as int], style });
                }
                self.push_span(span);
            } else {
                proof {
                    assert(ps[i as int].len() == 0);
                }
            }
            proof {
                assert(self@ == v1);
            }
            if i + 1 < n {
                self.flush_current();
            }
            proof {
                assert(self@ == piece_step(before, style, ps, i as int));
                assert(pieces_fold(v0, style, ps, (i + 1) as nat) == piece_step(pieces_fold(v0, style, ps, i as nat), style, ps, i as int));
            }
            i = i + 1;
        }
    }

    fn push_soft_break(&mut self)
        ensures
            final(self)@ == soft_break_spec(old(self)@),
    {
        reveal(soft_break_spec);
        let needs_space = match &self.current {
            Some(line) => {
                let n = line.spans.len();
                if n > 0 {
                    let chars = crate::text::chars_of(line.spans[n - 1].content.as_str());
                    if chars.len() > 0 {
                        !char_is_whitespace(chars[chars.len() - 1])
                    } else {
                        false
                    }
                } else {
                    false
                }
            },
            None => false,
        };
        if needs_space {
            let space = spaces(1);
            proof {
                assert(space@ =~= seq![' ']);
            }
            self.push_text(space.as_str());
        }
    }

    fn push_rule(&mut self)
        ensures
            final(self)@ == rule_spec(old(self)@),
    {
        reveal(rule_spec);
        self.start_block();
        let width: usize = if self.width < 32 { self.width as usize } else { 32 };
        let mut rule = String::new();
        let mut k: usize = 0;
        while k < width
            invariant
                k <= width,
                rule@ =~= Seq::new(k as nat, |_i: int| '─'),
            decreases width - k,
        {
            push_char(&mut rule, '─');
            k = k + 1;
        }
        let mut spans: Vec<Span> = Vec::new();
        spans.push(Span::styled(rule, self.theme.rule));
        self.lines.push(Line { spans });
        self.pending_separator = true;
        proof {
            assert(spans_view(spans@) =~= seq![SpanView { content: Seq::new(rule_width(self.width), |_i: int| '─'), style: self.theme.rule }]);
            assert(self@ =~= rule_spec(old(self)@));
        }
    }

    fn finish_code_block(&mut self)
        ensures
            final(self)@ == finish_code_block_spec(old(self)@),
    {
        reveal(finish_code_block_spec);
        let content = match self.code_block.take() {
            Some(content) => content,
            None => {
                return;
            },
        };
        let ghost v0 = self@;
        let ghost raw = content@;
        let mut pieces = split_on_newlines(content.as_str());
        proof {
            lemma_split_ends_with_newline(raw);
            lemma_split_newlines_nonempty(raw);
        }
        let np = pieces.len();
        if np > 1 && pieces[np - 1].as_str().is_empty() {
            pieces.pop();
            proof {
                assert(strings_view(pieces@) =~= split_newlines(raw).drop_last());
            }
        }
        let ghost ps = split_newlines(strip_final_newline(raw));
        proof {
            assert(strings_view(pieces@) =~= ps);
        }
        let cb = self.theme.code_block;
        let n = pieces.len();
        let mut j: usize = 0;
        while j < n
            invariant
                j <= n,
                n == ps.len(),
                strings_view(pieces@) == ps,
                cb == v0.theme.code_block,
                self@.theme == v0.theme,
                self@ == code_lines_fold(v0, ps, j as nat),
            decreases n - j,
        {
            let ghost before = self@;
            let (mut prefix, mut continuation_prefix) = self.take_prefixes();
            let ghost p0 = prefix@;
            let ghost c0 = continuation_prefix@;
            let gp = Span::styled(spaces(1), cb);
            let gc = Span::styled(spaces(1), cb);
            prefix.push(gp);
            continuation_prefix.push(gc);
            let mut spans: Vec<Span> = Vec::new();
            let code = Span::styled(pieces[j].clone(), cb);
            spans.push(code);
            let line = LogicalLine { prefix, continuation_prefix, spans, fill: Some(cb) };
            proof {
                assert(spaces_seq(1) =~= seq![' ']);
                lemma_spans_view_push(p0, gp);
                lemma_spans_view_push(c0, gc);
                lemma_spans_view_push(Seq::empty(), code);
                assert(spans_view(Seq::<Span>::empty()) =~= Seq::<SpanView>::empty());
                assert(seq![code@] =~= Seq::<SpanView>::empty().push(code@));
                assert(pieces@[j as int]@ == ps[j as int]);
                assert(line@.prefix == code_line(before, ps[j as int]).prefix);
                assert(line@.continuation_prefix == code_line(before, ps[j as int]).continuation_prefix);
                assert(line@.spans =~= code_line(before, ps[j as int]).spans);
                assert(line@ =~= code_line(before, ps[j as int]));
            }
            self.push_logical(line);
            proof {
                assert(self@ =~= code_line_step(before, ps, j as int));
            }
            j = j + 1;
        }
        self.pending_separator = true;
        proof {
            assert(self@ =~= finish_code_block_spec(old(self)@));
        }
    }

    fn start_tag(&mut self, tag: &MdTag)
        ensures
            final(self)@ == start_tag_spec(old(self)@, *tag),
    {
        reveal(start_tag_spec);
        match tag {
            MdTag::Paragraph => self.start_block(),
            MdTag::Heading(level) => {
                self.start_block();
                self.inline.heading = Some(*level);
            },
            MdTag::BlockQuote => {
                self.start_block();
                self.quote_depth = self.quote_depth.saturating_add(1);
            },
            MdTag::CodeBlock => {
                self.start_block();
                self.code_block = Some(String::new());
            },
            MdTag::List(next) => {
                if self.lists.len() == 0 {
                    self.start_block();
                } else {
                    self.flush_current();
                }
                let ghost l0 = self.lists@;
                let list = ListState::new(*next);
                self.lists.push(list);
                proof {
                    assert(lists_view(l0.push(list)) =~= lists_view(l0).push(list@));
                }
            },
            MdTag::Item => {
                self.flush_current();
                let n = self.lists.len();
                if n > 0 {
                    let ghost l0 = self.lists@;
                    let mut last = self.lists.pop().unwrap();
                    last.begin_item();
                    self.lists.push(last);
                    proof {
                        assert(lists_view(self.lists@) =~= lists_view(l0).update(n - 1, begin_item_spec(lists_view(l0).last())));
                    }
                }
            },
            MdTag::Emphasis => self.inline.emphasis = self.inline.emphasis.saturating_add(1),
            MdTag::Strong => self.inline.strong = self.inline.strong.saturating_add(1),
            MdTag::Strikethrough => self.inline.strikethrough = self.inline.strikethrough.saturating_add(1),
            MdTag::Link => self.inline.link = self.inline.link.saturating_add(1),
            MdTag::Image => self.inline.emphasis = self.inline.emphasis.saturating_add(1),
            MdTag::HtmlBlock => self.start_block(),
            MdTag::Other => {},
        }
        proof {
            assert(self@ =~= start_tag_spec(old(self)@, *tag));
        }
    }

    fn end_tag(&mut self, tag: &MdTagEnd)
        ensures
            final(self)@ == end_tag_spec(old(self)@, *tag),
    {
        reveal(end_tag_spec);
        match tag {
            MdTagEnd::Paragraph => {
                self.flush_current();
                if self.lists.len() == 0 {
                    self.pending_separator = true;
                }
            },
            MdTagEnd::Heading => {
                self.flush_current();
                self.inline.heading = None;
                self.pending_separator = true;
            },
            MdTagEnd::BlockQuote => {
                self.flush_current();
                self.quote_depth = self.quote_depth.saturating_sub(1);
                self.pending_separator = true;
            },
            MdTagEnd::CodeBlock => self.finish_code_block(),
            MdTagEnd::List => {
                self.flush_current();
                let ghost l0 = self.lists@;
                self.lists.pop();
                proof {
                    assert(lists_view(self.lists@) =~= (if l0.len() > 0 { lists_view(l0).drop_last() } else { lists_view(l0) }));
                }
                if self.lists.len() == 0 {
                    self.pending_separator = true;
                }
            },
            MdTagEnd::Item => {
                self.flush_current();
                let n = self.lists.len();
                if n > 0 {
                    let ghost l0 = self.lists@;
                    let mut last = self.lists.pop().unwrap();
                    last.marker = None;
                    self.lists.push(last);
                    proof {
                        assert(lists_view(self.lists@) =~= lists_view(l0).update(n - 1, ListView { marker: None, ..lists_view(l0).last() }));
                    }
                }
            },
            MdTagEnd::Emphasis => self.inline.emphasis = self.inline.emphasis.saturating_sub(1),
            MdTagEnd::Strong => self.inline.strong = self.inline.strong.saturating_sub(1),
            MdTagEnd::Strikethrough => self.inline.strikethrough = self.inline.strikethrough.saturating_sub(1),
            MdTagEnd::Link => self.inline.link = self.inline.link.saturating_sub(1),
            MdTagEnd::Image => self.inline.emphasis = self.inline.emphasis.saturating_sub(1),
            MdTagEnd::HtmlBlock => {
                self.flush_current();
                self.pending_separator = true;
            },
            MdTagEnd::Other => {},
        }
        proof {
            assert(self@ =~= end_tag_spec(old(self)@, *tag));
        }
    }

    /// Handles one event.
    pub fn handle_event(&mut self, event: &MdEvent)
        ensures
            final(self)@ == event_spec(old(self)@, *event),
    {
        reveal(event_spec);
        if self.code_block.is_some() {
            let mut code = self.code_block.take().unwrap();
            let ghost c0 = code@;
            match event {
                MdEvent::Text(t) => {
                    code.append(t.as_str());
                    self.code_block = Some(code);
                },
                MdEvent::Code(t) => {
                    code.append(t.as_str());
                    self.code_block = Some(code);
                },
                MdEvent::SoftBreak => {
                    push_char(&mut code, '\n');
                    self.code_block = Some(code);
                },
                MdEvent::HardBreak => {
                    push_char(&mut code, '\n');
                    self.code_block = Some(code);
                },
                MdEvent::End(MdTagEnd::CodeBlock) => {
                    self.code_block = Some(code);
                    self.finish_code_block();
                },
                _ => {
                    self.code_block = Some(code);
                },
            }
            proof {
                assert(self@ =~= event_spec(old(self)@, *event));
            }
            return;
        }
        match event {
            MdEvent::Start(tag) => self.start_tag(tag),
            MdEvent::End(tag) => self.end_tag(tag),
            MdEvent::Text(t) => self.push_text(t.as_str()),
            MdEvent::Html(t) => self.push_text(t.as_str()),
            MdEvent::Code(t) => {
                let style = self.inline.style(self.theme.inline_code);
                self.push_span(Span::styled(t.clone(), style));
            },
            MdEvent::SoftBreak => self.push_soft_break(),
            MdEvent::HardBreak => self.flush_current(),
            MdEvent::Rule => self.push_rule(),
            MdEvent::TaskListMarker(checked) => {
                let mut marker = String::new();
                push_char(&mut marker, '[');
                push_char(&mut marker, if *checked { 'x' } else { ' ' });
                push_char(&mut marker, ']');
                push_char(&mut marker, ' ');
                proof {
                    assert(marker@ =~= task_marker(*checked));
                }
                self.push_text(marker.as_str());
            },
            MdEvent::FootnoteReference(label) => {
                let mut text = String::new();
                push_char(&mut text, '[');
                text.append(label.as_str());
                push_char(&mut text, ']');
                proof {
                    assert(text@ =~= bracketed('[', label@, ']'));
                }
                self.push_text(text.as_str());
            },
            MdEvent::InlineMath(m) => {
                let mut text = String::new();
                push_char(&mut text, '$');
                text.append(m.as_str());
                push_char(&mut text, '$');
                proof {
                    assert(text@ =~= bracketed('$', m@, '$'));
                }
                self.push_text(text.as_str());
            },
            MdEvent::DisplayMath(m) => {
                self.start_block();
                self.push_text(m.as_str());
                self.flush_current();
                self.pending_separator = true;
            },
        }
        proof {
            assert(self@ =~= event_spec(old(self)@, *event));
        }
    }

    /// The finished rows: an unterminated code block is laid out, the open
    /// line is flushed, and trailing blank rows are dropped.
    pub fn finish(self) -> (lines: Vec<Line>)
        ensures
            lines_view(lines@) == finish_spec(self@),
    {
        let mut this = self;
        let ghost v = this@;
        if this.code_block.is_some() {
            this.finish_code_block();
        }
        this.flush_current();
        let ghost flushed = this@.lines;
        let mut lines = this.lines;
        while lines.len() > 0 && lines[lines.len() - 1].spans.len() == 0
            invariant
                trim_trailing_blank(lines_view(lines@)) == trim_trailing_blank(flushed),
            decreases lines@.len(),
        {
            let ghost l0 = lines@;
            lines.pop();
            proof {
                assert(lines_view(l0).drop_last() =~= lines_view(lines@));
            }
        }
        proof {
            assert(flushed == flush_spec(if v.code_block is Some { finish_code_block_spec(v) } else { v }).lines);
        }
        lines
    }
}

/// Lays out a markdown event stream as rows at most `width` columns wide
/// (at least one), as described by `render_events_spec`.
pub fn render_markdown_events(events: &Vec<MdEvent>, width: u16, theme: MarkdownTheme) -> (lines: Vec<Line>)
    ensures
        lines_view(lines@) == render_events_spec(events@, width, theme),
{
    let w: u16 = if width < 1 { 1 } else { width };
    let mut renderer = MarkdownRenderer::new(w, theme);
    let mut i: usize = 0;
    while i < events.len()
        invariant
            i <= events@.len(),
            w == render_width(width),
            renderer@ == events_fold(initial_view(w, theme), events@.take(i as int)),
        decreases events@.len() - i,
    {
        renderer.handle_event(&events[i]);
        proof {
            assert(events@.take(i + 1).drop_last() =~= events@.take(i as int));
        }
        i = i + 1;
    }
    proof {
        assert(events@.take(events@.len() as int) =~= events@);
    }
    renderer.finish()
}

/// Renders markdown text for the terminal: the document is parsed with
/// strikethrough and task lists enabled and its events laid out.
pub fn render_markdown(input: &str, width: u16, theme: MarkdownTheme) -> (lines: Vec<Line>)
    ensures
        lines_view(lines@) == render_events_spec(markdown_events(input@), width, theme),
{
    let events = parse_markdown(input);
    render_markdown_events(&events, width, theme)
}

} // verus!

verus! {

proof fn lemma_trim_trailing_blank(lines: Seq<Seq<SpanView>>)
    ensures
        trim_trailing_blank(lines).len() == 0 || trim_trailing_blank(lines).last().len() > 0,
        trim_trailing_blank(lines).len() <= lines.len(),
        forall|k: int| 0 <= k < trim_trailing_blank(lines).len() ==> #[trigger] trim_trailing_blank(lines)[k] == lines[k],
    decreases lines.len(),
{
    if lines.len() > 0 && lines.last().len() == 0 {
        lemma_trim_trailing_blank(lines.drop_last());
    }
}

/// Rendered markdown never ends in a blank row.
pub proof fn law_render_has_no_trailing_blank_row(events: Seq<MdEvent>, width: u16, theme: MarkdownTheme)
    ensures
        render_events_spec(events, width, theme).len() == 0
            || render_events_spec(events, width, theme).last().len() > 0,
{
    let v = events_fold(initial_view(render_width(width), theme), events);
    let v1 = if v.code_block is Some { finish_code_block_spec(v) } else { v };
    lemma_trim_trailing_blank(flush_spec(v1).lines);
}

} // verus!

verus! {

/// The nesting the renderer counts: strong, emphasis (images count as
/// emphasis too), strikethrough and link depth, and quote depth.
pub open spec fn nesting(v: RendererView) -> (usize, usize, usize, usize, usize) {
    (v.inline.strong, v.inline.emphasis, v.inline.strikethrough, v.inline.link, v.quote_depth)
}

/// The renderer's nesting and code-block state are those of `a`.
pub open spec fn keeps_nesting(a: RendererView, b: RendererView) -> bool {
    nesting(a) == nesting(b) && a.code_block == b.code_block
}

/// The closing tag that an opening tag of a counted element expects.
pub open spec fn counted_end(tag: MdTag) -> Option<MdTagEnd> {
    match tag {
        MdTag::Emphasis => Some(MdTagEnd::Emphasis),
        MdTag::Strong => Some(MdTagEnd::Strong),
        MdTag::Strikethrough => Some(MdTagEnd::Strikethrough),
        MdTag::Link => Some(MdTagEnd::Link),
        MdTag::Image => Some(MdTagEnd::Image),
        MdTag::BlockQuote => Some(MdTagEnd::BlockQuote),
        _ => None,
    }
}

pub open spec fn is_counted_end(te: MdTagEnd) -> bool {
    ||| te == MdTagEnd::Emphasis
    ||| te == MdTagEnd::Strong
    ||| te == MdTagEnd::Strikethrough
    ||| te == MdTagEnd::Link
    ||| te == MdTagEnd::Image
    ||| te == MdTagEnd::BlockQuote
}

/// Where a scan of tags stands: the counted elements still open, innermost
/// last, and whether a code block is being collected.
pub struct TagScan {
    pub open: Seq<MdTagEnd>,
    pub in_code: bool,
}

/// One step of the scan; `None` once a counted element is closed that is
/// not the innermost open one. Inside a code block everything up to its
/// end is skipped.
pub open spec fn scan_event(st: Option<TagScan>, e: MdEvent) -> Option<TagScan> {
    match st {
        None => None,
        Some(s) => if s.in_code {
            match e {
                MdEvent::End(MdTagEnd::CodeBlock) => Some(TagScan { open: s.open, in_code: false }),
                _ => Some(s),
            }
        } else {
            match e {
                MdEvent::Start(MdTag::CodeBlock) => Some(TagScan { open: s.open, in_code: true }),
                MdEvent::Start(tag) => match counted_end(tag) {
                    Some(te) => Some(TagScan { open: s.open.push(te), in_code: false }),
                    None => Some(s),
                },
                MdEvent::End(te) => if is_counted_end(te) {
                    if s.open.len() > 0 && s.open.last() == te {
                        Some(TagScan { open: s.open.drop_last(), in_code: false })
                    } else {
                        None
                    }
                } else {
                    Some(s)
                },
                _ => Some(s),
            }
        },
    }
}

/// The scan from `init` over the events.
pub open spec fn scan_from(init: Option<TagScan>, events: Seq<MdEvent>) -> Option<TagScan>
    decreases events.len(),
{
    if events.len() == 0 {
        init
    } else {
        scan_event(scan_from(init, events.drop_last()), events.last())
    }
}

pub open spec fn scan_start() -> TagScan {
    TagScan { open: Seq::empty(), in_code: false }
}

/// Every counted element that the events open they also close, innermost
/// first, and every code block they open they close.
pub open spec fn balanced_tags(events: Seq<MdEvent>) -> bool {
    scan_from(Some(scan_start()), events) == Some(scan_start())
}

/// How many of the open elements close with `te`.
pub open spec fn open_count(open: Seq<MdTagEnd>, te: MdTagEnd) -> nat
    decreases open.len(),
{
    if open.len() == 0 {
        0
    } else {
        open_count(open.drop_last(), te) + if open.last() == te { 1nat } else { 0nat }
    }
}

/// The nesting of `v0` with the given elements opened on top of it.
pub open spec fn nesting_with(v0: RendererView, open: Seq<MdTagEnd>) -> (int, int, int, int, int) {
    (
        v0.inline.strong + open_count(open, MdTagEnd::Strong),
        v0.inline.emphasis + open_count(open, MdTagEnd::Emphasis) + open_count(open, MdTagEnd::Image),
        v0.inline.strikethrough + open_count(open, MdTagEnd::Strikethrough),
        v0.inline.link + open_count(open, MdTagEnd::Link),
        v0.quote_depth + open_count(open, MdTagEnd::BlockQuote),
    )
}

pub open spec fn nesting_int(v: RendererView) -> (int, int, int, int, int) {
    (v.inline.strong as int, v.inline.emphasis as int, v.inline.strikethrough as int, v.inline.link as int, v.quote_depth as int)
}

proof fn lemma_flush_keeps(v: RendererView)
    ensures
        keeps_nesting(flush_spec(v), v),
{
    reveal(flush_spec);
}

proof fn lemma_push_span_keeps(v: RendererView, span: SpanView)
    ensures
        keeps_nesting(push_span_spec(v, span), v),
{
    reveal(push_span_spec);
}

proof fn lemma_start_block_keeps(v: RendererView)
    ensures
        keeps_nesting(start_block_spec(v), v),
{
    reveal(start_block_spec);
    lemma_flush_keeps(v);
}

proof fn lemma_pieces_fold_keeps(v: RendererView, style: Style, pieces: Seq<Seq<char>>, k: nat)
    requires
        k <= pieces.len(),
    ensures
        keeps_nesting(pieces_fold(v, style, pieces, k), v),
    decreases k,
{
    if k > 0 {
        lemma_pieces_fold_keeps(v, style, pieces, (k - 1) as nat);
        let prev = pieces_fold(v, style, pieces, (k - 1) as nat);
        let j = k - 1;
        let v1 = if pieces[j].len() > 0 { push_span_spec(prev, SpanView { content: pieces[j], style }) } else { prev };
        lemma_push_span_keeps(prev, SpanView { content: pieces[j], style });
        lemma_flush_keeps(v1);
    }
}

proof fn lemma_push_text_keeps(v: RendererView, text: Seq<char>)
    ensures
        keeps_nesting(push_text_spec(v, text), v),
{
    reveal(push_text_spec);
    lemma_pieces_fold_keeps(v, text_style(v), split_newlines(text), split_newlines(text).len());
}

proof fn lemma_code_lines_fold_keeps(v: RendererView, pieces: Seq<Seq<char>>, k: nat)
    requires
        k <= pieces.len(),
    ensures
        keeps_nesting(code_lines_fold(v, pieces, k), v),
    decreases k,
{
    if k > 0 {
        lemma_code_lines_fold_keeps(v, pieces, (k - 1) as nat);
    }
}

proof fn lemma_finish_code_block_keeps(v: RendererView)
    ensures
        nesting(finish_code_block_spec(v)) == nesting(v),
        finish_code_block_spec(v).code_block is None,
{
    reveal(finish_code_block_spec);
    match v.code_block {
        None => {},
        Some(content) => {
            let v0 = RendererView { code_block: None, ..v };
            let pieces = split_newlines(strip_final_newline(content));
            lemma_code_lines_fold_keeps(v0, pieces, pieces.len());
        },
    }
}

/// One event outside a code block: a counted opening tag adds one to its
/// counter, a counted closing tag takes one off its counter, a code block
/// starts collecting, and every other event keeps the nesting.
proof fn lemma_event_nesting(v: RendererView, e: MdEvent)
    requires
        v.code_block is None,
    ensures
        ({
            let r = event_spec(v, e);
            match e {
                MdEvent::Start(MdTag::CodeBlock) => nesting(r) == nesting(v) && r.code_block is Some,
                MdEvent::Start(MdTag::Emphasis) => r.code_block is None
                    && nesting(r) == (v.inline.strong, v.inline.emphasis.saturating_add(1), v.inline.strikethrough, v.inline.link, v.quote_depth),
                MdEvent::Start(MdTag::Image) => r.code_block is None
                    && nesting(r) == (v.inline.strong, v.inline.emphasis.saturating_add(1), v.inline.strikethrough, v.inline.link, v.quote_depth),
                MdEvent::Start(MdTag::Strong) => r.code_block is None
                    && nesting(r) == (v.inline.strong.saturating_add(1), v.inline.emphasis, v.inline.strikethrough, v.inline.link, v.quote_depth),
                MdEvent::Start(MdTag::Strikethrough) => r.code_block is None
                    && nesting(r) == (v.inline.strong, v.inline.emphasis, v.inline.strikethrough.saturating_add(1), v.inline.link, v.quote_depth),
                MdEvent::Start(MdTag::Link) => r.code_block is None
                    && nesting(r) == (v.inline.strong, v.inline.emphasis, v.inline.strikethrough, v.inline.link.saturating_add(1), v.quote_depth),
                MdEvent::Start(MdTag::BlockQuote) => r.code_block is None
                    && nesting(r) == (v.inline.strong, v.inline.emphasis, v.inline.strikethrough, v.inline.link, v.quote_depth.saturating_add(1)),
                MdEvent::End(MdTagEnd::Emphasis) => r.code_block is None
                    && nesting(r) == (v.inline.strong, v.inline.emphasis.saturating_sub(1), v.inline.strikethrough, v.inline.link, v.quote_depth),
                MdEvent::End(MdTagEnd::Image) => r.code_block is None
                    && nesting(r) == (v.inline.strong, v.inline.emphasis.saturating_sub(1), v.inline.strikethrough, v.inline.link, v.quote_depth),
                MdEvent::End(MdTagEnd::Strong) => r.code_block is None
                    && nesting(r) == (v.inline.strong.saturating_sub(1), v.inline.emphasis, v.inline.strikethrough, v.inline.link, v.quote_depth),
                MdEvent::End(MdTagEnd::Strikethrough) => r.code_block is None
                    && nesting(r) == (v.inline.strong, v.inline.emphasis, v.inline.strikethrough.saturating_sub(1), v.inline.link, v.quote_depth),
                MdEvent::End(MdTagEnd::Link) => r.code_block is None
                    && nesting(r) == (v.inline.strong, v.inline.emphasis, v.inline.strikethrough, v.inline.link.saturating_sub(1), v.quote_depth),
                MdEvent::End(MdTagEnd::BlockQuote) => r.code_block is None
                    && nesting(r) == (v.inline.strong, v.inline.emphasis, v.inline.strikethrough, v.inline.link, v.quote_depth.saturating_sub(1)),
                _ => keeps_nesting(r, v),
            }
        }),
{
    reveal(event_spec);
    reveal(start_tag_spec);
    reveal(end_tag_spec);
    reveal(soft_break_spec);
    reveal(rule_spec);
    match e {
        MdEvent::Start(tag) => {
            lemma_start_block_keeps(v);
            lemma_flush_keeps(v);
        },
        MdEvent::End(te) => {
            lemma_flush_keeps(v);
            lemma_finish_code_block_keeps(v);
        },
        MdEvent::Text(t) => lemma_push_text_keeps(v, t@),
        MdEvent::Html(t) => lemma_push_text_keeps(v, t@),
        MdEvent::Code(t) => lemma_push_span_keeps(v, SpanView { content: t@, style: v.inline.style_spec(v.theme.inline_code) }),
        MdEvent::SoftBreak => lemma_push_text_keeps(v, seq![' ']),
        MdEvent::HardBreak => lemma_flush_keeps(v),
        MdEvent::Rule => lemma_start_block_keeps(v),
        MdEvent::TaskListMarker(checked) => lemma_push_text_keeps(v, task_marker(checked)),
        MdEvent::FootnoteReference(label) => lemma_push_text_keeps(v, bracketed('[', label@, ']')),
        MdEvent::InlineMath(m) => lemma_push_text_keeps(v, bracketed('$', m@, '$')),
        MdEvent::DisplayMath(m) => {
            let v1 = start_block_spec(v);
            lemma_start_block_keeps(v);
            lemma_push_text_keeps(v1, m@);
            lemma_flush_keeps(push_text_spec(v1, m@));
        },
    }
}

/// One event inside a code block: the nesting stays, and only the end of
/// the block leaves it.
proof fn lemma_code_event_nesting(v: RendererView, e: MdEvent)
    requires
        v.code_block is Some,
    ensures
        nesting(event_spec(v, e)) == nesting(v),
        event_spec(v, e).code_block is None <==> e == MdEvent::End(MdTagEnd::CodeBlock),
{
    reveal(event_spec);
    lemma_finish_code_block_keeps(v);
}

} // verus!

verus! {

proof fn lemma_open_count_bound(open: Seq<MdTagEnd>, te: MdTagEnd)
    ensures
        open_count(open, te) <= open.len(),
    decreases open.len(),
{
    if open.len() > 0 {
        lemma_open_count_bound(open.drop_last(), te);
    }
}

proof fn lemma_open_count_pair_bound(open: Seq<MdTagEnd>, a: MdTagEnd, b: MdTagEnd)
    requires
        a != b,
    ensures
        open_count(open, a) + open_count(open, b) <= open.len(),
    decreases open.len(),
{
    if open.len() > 0 {
        lemma_open_count_pair_bound(open.drop_last(), a, b);
    }
}

proof fn lemma_open_count_push(open: Seq<MdTagEnd>, top: MdTagEnd, te: MdTagEnd)
    ensures
        open_count(open.push(top), te) == open_count(open, te) + if top == te { 1nat } else { 0nat },
{
    assert(open.push(top).drop_last() =~= open);
}

proof fn lemma_scan_from_none(events: Seq<MdEvent>)
    ensures
        scan_from(None, events) is None,
    decreases events.len(),
{
    if events.len() > 0 {
        lemma_scan_from_none(events.drop_last());
    }
}

proof fn lemma_scan_len(events: Seq<MdEvent>)
    requires
        scan_from(Some(scan_start()), events) is Some,
    ensures
        scan_from(Some(scan_start()), events)->0.open.len() <= events.len(),
    decreases events.len(),
{
    if events.len() > 0 {
        if scan_from(Some(scan_start()), events.drop_last()) is None {
            assert(scan_from(Some(scan_start()), events) is None);
        } else {
            lemma_scan_len(events.drop_last());
        }
    }
}

/// Along a scan that has not failed, the renderer's nesting is its nesting
/// at the start plus the elements the scan has open, and a code block is
/// open exactly when the scan is inside one.
proof fn lemma_scan_nesting(v0: RendererView, events: Seq<MdEvent>)
    requires
        v0.code_block is None,
        v0.inline.strong + events.len() <= usize::MAX,
        v0.inline.emphasis + events.len() <= usize::MAX,
        v0.inline.strikethrough + events.len() <= usize::MAX,
        v0.inline.link + events.len() <= usize::MAX,
        v0.quote_depth + events.len() <= usize::MAX,
        scan_from(Some(scan_start()), events) is Some,
    ensures
        ({
            let v = events_fold(v0, events);
            let sc = scan_from(Some(scan_start()), events)->0;
            &&& (v.code_block is Some) == sc.in_code
            &&& nesting_int(v) == nesting_with(v0, sc.open)
        }),
    decreases events.len(),
{
    if events.len() == 0 {
        assert(nesting_int(v0) == nesting_with(v0, Seq::<MdTagEnd>::empty()));
    } else {
        let rest = events.drop_last();
        let e = events.last();
        if scan_from(Some(scan_start()), rest) is None {
            assert(scan_from(Some(scan_start()), events) is None);
        }
        lemma_scan_nesting(v0, rest);
        lemma_scan_len(rest);
        let prev = events_fold(v0, rest);
        let sp = scan_from(Some(scan_start()), rest)->0;
        assert(events_fold(v0, events) == event_spec(prev, e));
        assert(scan_from(Some(scan_start()), events) == scan_event(Some(sp), e));
        lemma_scan_step(v0, prev, sp, e, events.len());
    }
}

/// One step of `lemma_scan_nesting`.
#[verifier::spinoff_prover]
proof fn lemma_scan_step(v0: RendererView, prev: RendererView, sp: TagScan, e: MdEvent, n: nat)
    requires
        (prev.code_block is Some) == sp.in_code,
        nesting_int(prev) == nesting_with(v0, sp.open),
        sp.open.len() < n,
        v0.inline.strong + n <= usize::MAX,
        v0.inline.emphasis + n <= usize::MAX,
        v0.inline.strikethrough + n <= usize::MAX,
        v0.inline.link + n <= usize::MAX,
        v0.quote_depth + n <= usize::MAX,
        scan_event(Some(sp), e) is Some,
    ensures
        ({
            let v = event_spec(prev, e);
            let sc = scan_event(Some(sp), e)->0;
            &&& (v.code_block is Some) == sc.in_code
            &&& nesting_int(v) == nesting_with(v0, sc.open)
        }),
{
    lemma_open_count_bound(sp.open, MdTagEnd::Strong);
    lemma_open_count_bound(sp.open, MdTagEnd::Emphasis);
    lemma_open_count_bound(sp.open, MdTagEnd::Image);
    lemma_open_count_pair_bound(sp.open, MdTagEnd::Emphasis, MdTagEnd::Image);
    lemma_open_count_bound(sp.open, MdTagEnd::Strikethrough);
    lemma_open_count_bound(sp.open, MdTagEnd::Link);
    lemma_open_count_bound(sp.open, MdTagEnd::BlockQuote);
    if sp.in_code {
        lemma_code_event_nesting(prev, e);
    } else {
        lemma_event_nesting(prev, e);
        match e {
            MdEvent::Start(tag) => {
                match counted_end(tag) {
                    Some(te) => {
                        lemma_open_count_push(sp.open, te, MdTagEnd::Strong);
                        lemma_open_count_push(sp.open, te, MdTagEnd::Emphasis);
                        lemma_open_count_push(sp.open, te, MdTagEnd::Image);
                        lemma_open_count_push(sp.open, te, MdTagEnd::Strikethrough);
                        lemma_open_count_push(sp.open, te, MdTagEnd::Link);
                        lemma_open_count_push(sp.open, te, MdTagEnd::BlockQuote);
                    },
                    None => {},
                }
            },
            MdEvent::End(te) => {
                if is_counted_end(te) {
                    assert(sp.open.len() > 0 && sp.open.last() == te);
                    assert(sp.open.drop_last().push(te) =~= sp.open);
                    lemma_open_count_push(sp.open.drop_last(), te, MdTagEnd::Strong);
                    lemma_open_count_push(sp.open.drop_last(), te, MdTagEnd::Emphasis);
                    lemma_open_count_push(sp.open.drop_last(), te, MdTagEnd::Image);
                    lemma_open_count_push(sp.open.drop_last(), te, MdTagEnd::Strikethrough);
                    lemma_open_count_push(sp.open.drop_last(), te, MdTagEnd::Link);
                    lemma_open_count_push(sp.open.drop_last(), te, MdTagEnd::BlockQuote);
                }
            },
            _ => {},
        }
    }
}

/// Balanced tags restore the nesting: after events that close every
/// emphasis, strong, strikethrough, link, image and block quote they open,
/// innermost first, and close every code block they open, the renderer's
/// inline counters and quote depth are back where they were and no code
/// block is open. The counters saturate, so this is stated for counters at
/// least as far below `usize::MAX` as there are events.
pub proof fn law_balanced_tags_restore_nesting(v: RendererView, events: Seq<MdEvent>)
    requires
        v.code_block is None,
        balanced_tags(events),
        v.inline.strong + events.len() <= usize::MAX,
        v.inline.emphasis + events.len() <= usize::MAX,
        v.inline.strikethrough + events.len() <= usize::MAX,
        v.inline.link + events.len() <= usize::MAX,
        v.quote_depth + events.len() <= usize::MAX,
    ensures
        nesting(events_fold(v, events)) == nesting(v),
        events_fold(v, events).code_block is None,
{
    lemma_scan_nesting(v, events);
    let r = events_fold(v, events);
    assert(nesting_int(r) == nesting_with(v, Seq::<MdTagEnd>::empty()));
}

proof fn lemma_scan_concat(init: Option<TagScan>, a: Seq<MdEvent>, b: Seq<MdEvent>)
    ensures
        scan_from(init, a + b) == scan_from(scan_from(init, a), b),
    decreases b.len(),
{
    if b.len() == 0 {
        assert(a + b =~= a);
    } else {
        lemma_scan_concat(init, a, b.drop_last());
        assert((a + b).drop_last() =~= a + b.drop_last());
    }
}

proof fn lemma_scan_shift(p: Seq<MdTagEnd>, init: TagScan, events: Seq<MdEvent>)
    requires
        scan_from(Some(init), events) is Some,
    ensures
        ({
            let r = scan_from(Some(init), events)->0;
            scan_from(Some(TagScan { open: p + init.open, in_code: init.in_code }), events)
                == Some(TagScan { open: p + r.open, in_code: r.in_code })
        }),
    decreases events.len(),
{
    if events.len() > 0 {
        let rest = events.drop_last();
        if scan_from(Some(init), rest) is None {
            assert(scan_from(Some(init), events) is None);
        }
        lemma_scan_shift(p, init, rest);
        let r0 = scan_from(Some(init), rest)->0;
        match events.last() {
            MdEvent::Start(tag) => {
                match counted_end(tag) {
                    Some(te) => {
                        assert((p + r0.open).push(te) =~= p + r0.open.push(te));
                    },
                    None => {},
                }
            },
            MdEvent::End(te) => {
                if r0.open.len() > 0 {
                    assert((p + r0.open).drop_last() =~= p + r0.open.drop_last());
                    assert((p + r0.open).last() == r0.open.last());
                }
            },
            _ => {},
        }
    }
}

/// A counted element around balanced content restores the nesting: after
/// the opening tag of an emphasis, strong, strikethrough, link, image or
/// block quote, any balanced events, and the matching closing tag, the
/// renderer's inline counters and quote depth are back where they were.
/// The counters saturate, so this is stated for counters at least as far
/// below `usize::MAX` as there are events.
pub proof fn law_tag_pair_restores_nesting(v: RendererView, tag: MdTag, te: MdTagEnd, inner: Seq<MdEvent>)
    requires
        v.code_block is None,
        counted_end(tag) == Some(te),
        balanced_tags(inner),
        v.inline.strong + inner.len() + 2 <= usize::MAX,
        v.inline.emphasis + inner.len() + 2 <= usize::MAX,
        v.inline.strikethrough + inner.len() + 2 <= usize::MAX,
        v.inline.link + inner.len() + 2 <= usize::MAX,
        v.quote_depth + inner.len() + 2 <= usize::MAX,
    ensures
        ({
            let events = seq![MdEvent::Start(tag)] + inner + seq![MdEvent::End(te)];
            &&& nesting(events_fold(v, events)) == nesting(v)
            &&& events_fold(v, events).code_block is None
        }),
{
    let first = seq![MdEvent::Start(tag)];
    let last = seq![MdEvent::End(te)];
    let events = first + inner + last;
    assert(first.drop_last() =~= Seq::<MdEvent>::empty());
    let opened = TagScan { open: seq![te], in_code: false };
    assert(scan_from(Some(scan_start()), first.drop_last()) == Some(scan_start()));
    assert(first.last() == MdEvent::Start(tag));
    assert(seq![te] =~= Seq::<MdTagEnd>::empty().push(te));
    assert(scan_event(Some(scan_start()), MdEvent::Start(tag)) == Some(opened));
    assert(scan_from(Some(scan_start()), first) == Some(opened));
    lemma_scan_shift(seq![te], scan_start(), inner);
    assert(seq![te] + scan_start().open =~= seq![te]);
    lemma_scan_concat(Some(scan_start()), first, inner);
    lemma_scan_concat(Some(scan_start()), first + inner, last);
    assert(last.drop_last() =~= Seq::<MdEvent>::empty());
    assert(seq![te].drop_last() =~= Seq::<MdTagEnd>::empty());
    assert(scan_from(Some(scan_start()), first + inner) == Some(opened));
    assert(scan_from(Some(opened), last.drop_last()) == Some(opened));
    assert(last.last() == MdEvent::End(te));
    assert(is_counted_end(te));
    assert(scan_event(Some(opened), MdEvent::End(te)) == Some(scan_start()));
    assert(scan_from(Some(opened), last) == Some(scan_start()));
    assert(balanced_tags(events));
    law_balanced_tags_restore_nesting(v, events);
}

} // verus!

verus! {

/// A hard break ends the line: outside a code block the open line, if any,
/// is wrapped into rows after the rows so far and no line stays open, so
/// the text after the break starts a new line; nothing else changes. Inside
/// a code block it adds a newline to the collected code.
pub proof fn law_hard_break_ends_the_line(v: RendererView)
    ensures
        ({
            let r = event_spec(v, MdEvent::HardBreak);
            match v.code_block {
                None => {
                    &&& r.current is None
                    &&& r.lines == match v.current {
                        Some(l) => v.lines + wrap_line_spec(l, v.width),
                        None => v.lines,
                    }
                    &&& r == RendererView { lines: r.lines, current: None, ..v }
                },
                Some(code) => r == RendererView { code_block: Some(code.push('\n')), ..v },
            }
        }),
{
    reveal(event_spec);
    reveal(flush_spec);
}

/// After a hard break, text opens a new line: its first span is the text,
/// after the prefix of a fresh line.
pub proof fn law_text_after_hard_break_starts_a_line(v: RendererView, text: Seq<char>)
    requires
        v.code_block is None,
        text.len() > 0,
        forall|i: int| 0 <= i < text.len() ==> text[i] != '\n',
    ensures
        ({
            let r = event_spec(v, MdEvent::HardBreak);
            let t = push_text_spec(r, text);
            &&& t.current is Some
            &&& t.current->0.spans == seq![SpanView { content: text, style: text_style(r) }]
            &&& t.current->0.prefix == first_prefix(r)
            &&& t.lines == r.lines
        }),
{
    law_hard_break_ends_the_line(v);
    let r = event_spec(v, MdEvent::HardBreak);
    reveal(push_text_spec);
    reveal(push_span_spec);
    lemma_split_without_newline(text);
    let pieces = split_newlines(text);
    assert(pieces =~= seq![text]);
    assert(pieces_fold(r, text_style(r), pieces, 0) == r);
    assert(Seq::<SpanView>::empty().push(SpanView { content: text, style: text_style(r) })
        =~= seq![SpanView { content: text, style: text_style(r) }]);
}

proof fn lemma_split_without_newline(s: Seq<char>)
    requires
        forall|i: int| 0 <= i < s.len() ==> s[i] != '\n',
    ensures
        split_newlines(s) == seq![s],
    decreases s.len(),
{
    if s.len() > 0 {
        assert forall|i: int| 0 <= i < s.drop_last().len() implies s.drop_last()[i] != '\n' by {
            assert(s.drop_last()[i] == s[i]);
        }
        lemma_split_without_newline(s.drop_last());
        assert(s.last() != '\n') by {
            assert(s.last() == s[s.len() - 1]);
        }
        assert(s.drop_last().push(s.last()) =~= s);
        assert(seq![s.drop_last()].update(0, s.drop_last().push(s.last())) =~= seq![s]);
    } else {
        assert(s =~= Seq::<char>::empty());
        assert(seq![Seq::<char>::empty()] =~= seq![s]);
    }
}

} // verus!
