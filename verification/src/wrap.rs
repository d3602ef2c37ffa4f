//! Breaking one logical markdown line into terminal rows.
//!
//! A logical line has a prefix for its first row, a continuation prefix for
//! every further row, the styled spans of its content and an optional fill
//! style that pads each row to the full width (code blocks use it).

use crate::style::{Line, Span, SpanView, Style, lines_view, row_text, spans_view};
use crate::text::{
    char_cells_or_one, char_display_width, push_char, spaces, spaces_seq, str_display_width,
    str_width,
};
use vstd::prelude::*;

verus! {

/// A line of content before it is wrapped.
#[derive(Debug)]
pub struct LogicalLine {
    pub prefix: Vec<Span>,
    pub continuation_prefix: Vec<Span>,
    pub spans: Vec<Span>,
    pub fill: Option<Style>,
}

#[verifier::ext_equal]
pub struct LogicalView {
    pub prefix: Seq<SpanView>,
    pub continuation_prefix: Seq<SpanView>,
    pub spans: Seq<SpanView>,
    pub fill: Option<Style>,
}

impl View for LogicalLine {
    type V = LogicalView;

    open spec fn view(&self) -> LogicalView {
        LogicalView {
            prefix: spans_view(self.prefix@),
            continuation_prefix: spans_view(self.continuation_prefix@),
            spans: spans_view(self.spans@),
            fill: self.fill,
        }
    }
}

/// Sum of the display widths of the spans, saturating at `usize::MAX`.
pub open spec fn spans_width_spec(spans: Seq<SpanView>) -> usize
    decreases spans.len(),
{
    if spans.len() == 0 {
        0
    } else {
        spans_width_spec(spans.drop_last()).saturating_add(str_width(spans.last().content))
    }
}

/// Columns a character advances the row by: its width, and at least one.
pub open spec fn cell_width(c: char) -> usize {
    let w = char_cells_or_one(c);
    if w == 0 { 1 } else { w }
}

/// The widest row, in columns: `width`, and at least one.
pub open spec fn max_row_width(width: u16) -> usize {
    if width == 0 { 1 } else { width as usize }
}

pub open spec fn push_fragment_spec(row: Seq<SpanView>, fragment: Seq<char>, style: Style) -> Seq<SpanView> {
    if fragment.len() == 0 {
        row
    } else {
        row.push(SpanView { content: fragment, style })
    }
}

/// A finished row: padded with fill-styled spaces up to `max_width` when a
/// fill is set and the row is narrower.
pub open spec fn finish_row_spec(row: Seq<SpanView>, row_width: usize, max_width: usize, fill: Option<Style>) -> Seq<SpanView> {
    match fill {
        Some(f) => if row_width < max_width {
            row.push(SpanView { content: spaces_seq((max_width - row_width) as nat), style: f })
        } else {
            row
        },
        None => row,
    }
}

/// What stays fixed while one logical line is wrapped.
pub struct WrapParams {
    pub continuation_prefix: Seq<SpanView>,
    pub initial_width: usize,
    pub continuation_width: usize,
    pub max_width: usize,
    pub fill: Option<Style>,
}

/// Progress of the wrapping: finished rows, the open row, its width in
/// columns, whether it is a continuation row, and the characters taken from
/// the current span that are not yet in the open row.
pub struct WrapState {
    pub output: Seq<Seq<SpanView>>,
    pub row: Seq<SpanView>,
    pub row_width: usize,
    pub continuation: bool,
    pub fragment: Seq<char>,
}

/// Whether the next character, `cw` columns wide, starts a new row: the
/// open row already holds content and the character would overflow it.
pub open spec fn breaks_before(p: WrapParams, st: WrapState, cw: usize) -> bool {
    let content_start = if st.continuation { p.continuation_width } else { p.initial_width };
    st.row_width > content_start && st.row_width.saturating_add(cw) > p.max_width
}

pub open spec fn wrap_char(p: WrapParams, st: WrapState, c: char, style: Style) -> WrapState {
    let cw = cell_width(c);
    let st1 = if breaks_before(p, st, cw) {
        WrapState {
            output: st.output.push(
                finish_row_spec(push_fragment_spec(st.row, st.fragment, style), st.row_width, p.max_width, p.fill),
            ),
            row: p.continuation_prefix,
            row_width: p.continuation_width,
            continuation: true,
            fragment: Seq::empty(),
        }
    } else {
        st
    };
    WrapState { fragment: st1.fragment.push(c), row_width: st1.row_width.saturating_add(cw), ..st1 }
}

pub open spec fn wrap_chars(p: WrapParams, st: WrapState, chars: Seq<char>, style: Style) -> WrapState
    decreases chars.len(),
{
    if chars.len() == 0 {
        st
    } else {
        wrap_char(p, wrap_chars(p, st, chars.drop_last(), style), chars.last(), style)
    }
}

pub open spec fn wrap_span(p: WrapParams, st: WrapState, span: SpanView) -> WrapState {
    let st1 = wrap_chars(p, st, span.content, span.style);
    WrapState { row: push_fragment_spec(st1.row, st1.fragment, span.style), fragment: Seq::empty(), ..st1 }
}

pub open spec fn wrap_spans(p: WrapParams, st: WrapState, spans: Seq<SpanView>) -> WrapState
    decreases spans.len(),
{
    if spans.len() == 0 {
        st
    } else {
        wrap_span(p, wrap_spans(p, st, spans.drop_last()), spans.last())
    }
}

pub open spec fn wrap_params(line: LogicalView, width: u16) -> WrapParams {
    WrapParams {
        continuation_prefix: line.continuation_prefix,
        initial_width: spans_width_spec(line.prefix),
        continuation_width: spans_width_spec(line.continuation_prefix),
        max_width: max_row_width(width),
        fill: line.fill,
    }
}

pub open spec fn wrap_start(line: LogicalView) -> WrapState {
    WrapState {
        output: Seq::empty(),
        row: line.prefix,
        row_width: spans_width_spec(line.prefix),
        continuation: false,
        fragment: Seq::empty(),
    }
}

/// The rows of a wrapped logical line.
#[verifier::opaque]
pub open spec fn wrap_line_spec(line: LogicalView, width: u16) -> Seq<Seq<SpanView>> {
    let p = wrap_params(line, width);
    let st = wrap_spans(p, wrap_start(line), line.spans);
    st.output.push(finish_row_spec(st.row, st.row_width, p.max_width, p.fill))
}

/// A copy of a span.
pub fn copy_span(span: &Span) -> (s: Span)
    ensures
        s@ == span@,
{
    Span { content: span.content.clone(), style: span.style }
}

/// A copy of a list of spans.
pub fn copy_spans(spans: &Vec<Span>) -> (out: Vec<Span>)
    ensures
        spans_view(out@) == spans_view(spans@),
{
    let mut out: Vec<Span> = Vec::new();
    let mut i: usize = 0;
    while i < spans.len()
        invariant
            i <= spans@.len(),
            out@.len() == i,
            forall|j: int| 0 <= j < i ==> #[trigger] out@[j]@ == spans@[j]@,
        decreases spans@.len() - i,
    {
        out.push(copy_span(&spans[i]));
        i = i + 1;
    }
    proof {
        assert(spans_view(out@) =~= spans_view(spans@));
    }
    out
}

/// Sum of the display widths of the spans, saturating at `usize::MAX`.
pub fn spans_width(spans: &Vec<Span>) -> (w: usize)
    ensures
        w == spans_width_spec(spans_view(spans@)),
{
    let mut w: usize = 0;
    let mut i: usize = 0;
    while i < spans.len()
        invariant
            i <= spans@.len(),
            w == spans_width_spec(spans_view(spans@.take(i as int))),
        decreases spans@.len() - i,
    {
        let sw = str_display_width(spans[i].content.as_str());
        proof {
            assert(spans_view(spans@.take(i + 1)).drop_last() =~= spans_view(spans@.take(i as int)));
        }
        w = w.saturating_add(sw);
        i = i + 1;
    }
    proof {
        assert(spans@.take(spans@.len() as int) =~= spans@);
    }
    w
}

/// Moves the pending fragment, if any, into the row as a span of `style`.
pub fn push_fragment(row: &mut Vec<Span>, fragment: &mut String, style: Style)
    ensures
        spans_view(final(row)@) == push_fragment_spec(spans_view(old(row)@), old(fragment)@, style),
        final(fragment)@ == Seq::<char>::empty(),
{
    if !fragment.as_str().is_empty() {
        let mut taken = String::new();
        std::mem::swap(&mut taken, fragment);
        proof {
            assert(taken@ == old(fragment)@);
        }
        row.push(Span::styled(taken, style));
        proof {
            assert(spans_view(row@) =~= spans_view(old(row)@).push(SpanView { content: old(fragment)@, style }));
        }
    } else {
        proof {
            assert(old(fragment)@ =~= Seq::<char>::empty());
        }
    }
}

/// Appends the finished row to `output`, padded to `max_width` when a fill
/// style is given.
pub fn finish_row(output: &mut Vec<Line>, row: Vec<Span>, row_width: usize, max_width: usize, fill: Option<Style>)
    ensures
        lines_view(final(output)@) == lines_view(old(output)@).push(
            finish_row_spec(spans_view(row@), row_width, max_width, fill),
        ),
{
    let mut row = row;
    let ghost row0 = spans_view(row@);
    match fill {
        Some(f) => {
            if row_width < max_width {
                row.push(Span::styled(spaces(max_width - row_width), f));
                proof {
                    assert(spans_view(row@) =~= row0.push(
                        SpanView { content: spaces_seq((max_width - row_width) as nat), style: f },
                    ));
                }
            }
        },
        None => {},
    }
    output.push(Line::from_spans(row));
    proof {
        assert(lines_view(output@) =~= lines_view(old(output)@).push(
            finish_row_spec(row0, row_width, max_width, fill),
        ));
    }
}

/// The wrapping progress that the given row and fragment represent.
pub open spec fn state_of(output: Seq<Line>, row: Seq<Span>, row_width: usize, continuation: bool, fragment: Seq<char>) -> WrapState {
    WrapState { output: lines_view(output), row: spans_view(row), row_width, continuation, fragment }
}

/// Breaks a logical line into rows no wider than `width` columns (at least
/// one). A row breaks before a character that would overflow it, unless the
/// row holds nothing after its prefix yet; rows after the first start with
/// the continuation prefix; with a fill style every row narrower than the
/// width is padded with fill-styled spaces.
pub fn wrap_line(line: LogicalLine, width: u16) -> (rows: Vec<Line>)
    ensures
        lines_view(rows@) == wrap_line_spec(line@, width),
{
    let ghost lv = line@;
    let ghost p = wrap_params(lv, width);
    let max_width: usize = if width < 1 { 1 } else { width as usize };
    let initial_prefix_width = spans_width(&line.prefix);
    let continuation_prefix_width = spans_width(&line.continuation_prefix);
    let LogicalLine { prefix, continuation_prefix, spans, fill } = line;
    let mut output: Vec<Line> = Vec::new();
    let mut row = prefix;
    let mut row_width = initial_prefix_width;
    let mut continuation = false;
    let mut si: usize = 0;
    proof {
        assert(lines_view(output@) =~= Seq::<Seq<SpanView>>::empty());
        assert(lv.spans.take(0) =~= Seq::<SpanView>::empty());
    }
    while si < spans.len()
        invariant
            si <= spans@.len(),
            lv.spans == spans_view(spans@),
            p == wrap_params(lv, width),
            p.continuation_prefix == spans_view(continuation_prefix@),
            p.initial_width == initial_prefix_width,
            p.continuation_width == continuation_prefix_width,
            p.max_width == max_width,
            p.fill == fill,
            p.continuation_width == spans_width_spec(p.continuation_prefix),
            state_of(output@, row@, row_width, continuation, Seq::empty())
                == wrap_spans(p, wrap_start(lv), lv.spans.take(si as int)),
        decreases spans@.len() - si,
    {
        let style = spans[si].style;
        let content: &String = &spans[si].content;
        let mut fragment = String::new();
        let ghost st0 = state_of(output@, row@, row_width, continuation, Seq::empty());
        for character in it: content.chars()
            invariant
                si < spans@.len(),
                content@ == spans@[si as int].content@,
                it.seq() == content@,
                style == spans@[si as int].style,
                p.continuation_width == spans_width_spec(p.continuation_prefix),
                p.continuation_prefix == spans_view(continuation_prefix@),
                p.initial_width == initial_prefix_width,
                p.continuation_width == continuation_prefix_width,
                p.max_width == max_width,
                p.fill == fill,
                state_of(output@, row@, row_width, continuation, fragment@)
                    == wrap_chars(p, st0, it.seq().take(it.index() as int), style),
        {
            let ghost before = state_of(output@, row@, row_width, continuation, fragment@);
            let character_width: usize = match char_display_width(character) {
                Some(w) => if w < 1 { 1 } else { w },
                None => 1,
            };
            let content_start = if continuation { continuation_prefix_width } else { initial_prefix_width };
            if row_width > content_start && row_width.saturating_add(character_width) > max_width {
                push_fragment(&mut row, &mut fragment, style);
                finish_row(&mut output, row, row_width, max_width, fill);
                row = copy_spans(&continuation_prefix);
                row_width = spans_width(&row);
                continuation = true;
                proof {
                    assert(breaks_before(p, before, cell_width(character)));
                    assert(state_of(output@, row@, row_width, continuation, fragment@) =~= WrapState {
                        output: before.output.push(
                            finish_row_spec(push_fragment_spec(before.row, before.fragment, style), before.row_width, p.max_width, p.fill),
                        ),
                        row: p.continuation_prefix,
                        row_width: p.continuation_width,
                        continuation: true,
                        fragment: Seq::empty(),
                    });
                }
            } else {
                proof {
                    assert(!breaks_before(p, before, cell_width(character)));
                }
            }
            push_char(&mut fragment, character);
            row_width = row_width.saturating_add(character_width);
            proof {
                let seq = it.seq();
                let k = it.index();
                assert(seq.take(k + 1).drop_last() =~= seq.take(k as int));
                assert(seq.take(k + 1).last() == character);
                assert(cell_width(character) == character_width);
                assert(state_of(output@, row@, row_width, continuation, fragment@)
                    =~= wrap_char(p, before, character, style));
            }
        }
        push_fragment(&mut row, &mut fragment, style);
        proof {
            let content = spans@[si as int].content@;
            assert(content.take(content.len() as int) =~= content);
            assert(lv.spans.take(si + 1).drop_last() =~= lv.spans.take(si as int));
            assert(lv.spans.take(si + 1).last() == spans@[si as int]@);
        }
        si = si + 1;
    }
    proof {
        assert(lv.spans.take(spans@.len() as int) =~= lv.spans);
    }
    finish_row(&mut output, row, row_width, max_width, fill);
    proof {
        reveal(wrap_line_spec);
    }
    output
}

} // verus!

verus! {

/// Columns that a run of characters takes, one `cell_width` per character.
pub open spec fn cells(s: Seq<char>) -> nat
    decreases s.len(),
{
    if s.len() == 0 {
        0
    } else {
        cells(s.drop_last()) + cell_width(s.last()) as nat
    }
}

proof fn lemma_cell_width_bounds(c: char)
    ensures
        1 <= cell_width(c),
{
}

proof fn lemma_row_text_push(row: Seq<SpanView>, s: SpanView)
    ensures
        row_text(row.push(s)) == row_text(row) + s.content,
{
    assert(row.push(s).drop_last() =~= row);
}

proof fn lemma_push_fragment_text(row: Seq<SpanView>, fragment: Seq<char>, style: Style)
    ensures
        row_text(push_fragment_spec(row, fragment, style)) == row_text(row) + fragment,
{
    if fragment.len() == 0 {
        assert(row_text(row) + fragment =~= row_text(row));
    } else {
        lemma_row_text_push(row, SpanView { content: fragment, style });
    }
}

} // verus!

verus! {

/// `n`, capped at `usize::MAX`.
pub open spec fn saturate(n: nat) -> nat {
    if n > usize::MAX { usize::MAX as nat } else { n }
}

proof fn lemma_cells_concat(a: Seq<char>, b: Seq<char>)
    ensures
        cells(a + b) == cells(a) + cells(b),
    decreases b.len(),
{
    if b.len() == 0 {
        assert(a + b =~= a);
    } else {
        lemma_cells_concat(a, b.drop_last());
        assert((a + b).drop_last() =~= a + b.drop_last());
        assert((a + b).last() == b.last());
    }
}

proof fn lemma_cells_spaces(n: nat)
    ensures
        cells(spaces_seq(n)) == n,
    decreases n,
{
    if n > 0 {
        lemma_cells_spaces((n - 1) as nat);
        assert(spaces_seq(n).drop_last() =~= spaces_seq((n - 1) as nat));
        assert(spaces_seq(n).last() == ' ');
        assert((' ' as u32) == 0x20);
        assert(cell_width(' ') == 1);
    }
}

pub open spec fn filled_params(p: WrapParams) -> bool {
    &&& p.fill is Some
    &&& p.max_width >= 1
    &&& p.max_width <= 65535
    &&& p.continuation_width as nat == cells(row_text(p.continuation_prefix))
}

/// What holds of the wrapping progress of a filled line: the open row's
/// width is the (saturated) sum of its cells, and every finished row is at
/// least the width wide.
pub open spec fn filled_progress(p: WrapParams, st: WrapState) -> bool {
    &&& st.row_width as nat == saturate(cells(row_text(st.row) + st.fragment))
    &&& forall|k: int| 0 <= k < st.output.len() ==> cells(row_text(#[trigger] st.output[k])) >= p.max_width
}

proof fn lemma_finished_row_reaches_width(row: Seq<SpanView>, row_width: usize, max_width: usize, fill: Option<Style>)
    requires
        fill is Some,
        max_width <= 65535,
        row_width as nat == saturate(cells(row_text(row))),
    ensures
        cells(row_text(finish_row_spec(row, row_width, max_width, fill))) >= max_width,
{
    let f = fill->0;
    if row_width < max_width {
        let pad = spaces_seq((max_width - row_width) as nat);
        lemma_row_text_push(row, SpanView { content: pad, style: f });
        lemma_cells_concat(row_text(row), pad);
        lemma_cells_spaces((max_width - row_width) as nat);
    }
}

proof fn lemma_filled_wrap_char(p: WrapParams, st: WrapState, c: char, style: Style)
    requires
        filled_params(p),
        filled_progress(p, st),
    ensures
        filled_progress(p, wrap_char(p, st, c, style)),
{
    let cw = cell_width(c);
    let r = wrap_char(p, st, c, style);
    if breaks_before(p, st, cw) {
        let finished = push_fragment_spec(st.row, st.fragment, style);
        lemma_push_fragment_text(st.row, st.fragment, style);
        lemma_finished_row_reaches_width(finished, st.row_width, p.max_width, p.fill);
        assert forall|k: int| 0 <= k < r.output.len() implies cells(row_text(#[trigger] r.output[k])) >= p.max_width by {
            if k < st.output.len() {
                assert(r.output[k] == st.output[k]);
            }
        }
        let cont = row_text(p.continuation_prefix);
        assert(row_text(r.row) + r.fragment =~= cont.push(c));
        assert(cont.push(c).drop_last() =~= cont);
        assert(cont + Seq::<char>::empty() =~= cont);
    } else {
        let open = row_text(st.row) + st.fragment;
        assert(row_text(r.row) + r.fragment =~= open.push(c));
        assert(open.push(c).drop_last() =~= open);
    }
}

proof fn lemma_filled_wrap_chars(p: WrapParams, st: WrapState, chars: Seq<char>, style: Style)
    requires
        filled_params(p),
        filled_progress(p, st),
    ensures
        filled_progress(p, wrap_chars(p, st, chars, style)),
    decreases chars.len(),
{
    if chars.len() > 0 {
        lemma_filled_wrap_chars(p, st, chars.drop_last(), style);
        lemma_filled_wrap_char(p, wrap_chars(p, st, chars.drop_last(), style), chars.last(), style);
    }
}

proof fn lemma_filled_wrap_spans(p: WrapParams, st: WrapState, spans: Seq<SpanView>)
    requires
        filled_params(p),
        filled_progress(p, st),
    ensures
        filled_progress(p, wrap_spans(p, st, spans)),
        st.fragment.len() == 0 ==> wrap_spans(p, st, spans).fragment.len() == 0,
    decreases spans.len(),
{
    if spans.len() > 0 {
        lemma_filled_wrap_spans(p, st, spans.drop_last());
        let prev = wrap_spans(p, st, spans.drop_last());
        let last = spans.last();
        lemma_filled_wrap_chars(p, prev, last.content, last.style);
        let st1 = wrap_chars(p, prev, last.content, last.style);
        lemma_push_fragment_text(st1.row, st1.fragment, last.style);
        let r = wrap_spans(p, st, spans);
        assert(row_text(r.row) + r.fragment =~= row_text(st1.row) + st1.fragment);
    }
}

/// Filled lines fill the width: when a logical line has a fill style and
/// its prefixes are as wide as their characters count (as an ASCII code
/// gutter is), every row it wraps into is at least the render width wide;
/// a row with room left is padded with fill spaces to exactly the width.
pub proof fn law_filled_rows_reach_width(line: LogicalView, width: u16)
    requires
        line.fill is Some,
        spans_width_spec(line.prefix) as nat == cells(row_text(line.prefix)),
        spans_width_spec(line.continuation_prefix) as nat == cells(row_text(line.continuation_prefix)),
    ensures
        forall|k: int| 0 <= k < wrap_line_spec(line, width).len()
            ==> cells(row_text(#[trigger] wrap_line_spec(line, width)[k])) >= max_row_width(width),
{
    reveal(wrap_line_spec);
    let p = wrap_params(line, width);
    let st0 = wrap_start(line);
    assert(row_text(st0.row) + st0.fragment =~= row_text(line.prefix));
    assert(filled_progress(p, st0));
    lemma_filled_wrap_spans(p, st0, line.spans);
    let st = wrap_spans(p, st0, line.spans);
    assert(row_text(st.row) + st.fragment =~= row_text(st.row));
    lemma_finished_row_reaches_width(st.row, st.row_width, p.max_width, p.fill);
    let rows = st.output.push(finish_row_spec(st.row, st.row_width, p.max_width, p.fill));
    assert forall|k: int| 0 <= k < rows.len() implies cells(row_text(#[trigger] rows[k])) >= max_row_width(width) by {
        if k < st.output.len() {
            assert(rows[k] == st.output[k]);
        }
    }
}

} // verus!

verus! {

/// The prefix text of row `k`: the line's prefix for the first row, the
/// continuation prefix for every further one.
pub open spec fn prefix_text(first: Seq<char>, cont: Seq<char>, k: int) -> Seq<char> {
    if k == 0 { first } else { cont }
}

/// What the rows hold after their prefixes, row after row.
pub open spec fn contents_text(rows: Seq<Seq<SpanView>>, first: Seq<char>, cont: Seq<char>) -> Seq<char>
    decreases rows.len(),
{
    if rows.len() == 0 {
        Seq::empty()
    } else {
        contents_text(rows.drop_last(), first, cont)
            + row_text(rows.last()).skip(prefix_text(first, cont, rows.len() - 1).len() as int)
    }
}

/// A run of characters that starts with `pre` and is at most `max_width`
/// columns wide unless it holds at most one character after `pre`.
pub open spec fn text_shape(text: Seq<char>, pre: Seq<char>, max_width: usize) -> bool {
    &&& pre.len() <= text.len()
    &&& text.take(pre.len() as int) == pre
    &&& (cells(text) <= max_width || text.len() <= pre.len() + 1)
}

/// A row starts with its prefix and fits, as `text_shape` says.
pub open spec fn row_shape(row: Seq<SpanView>, pre: Seq<char>, max_width: usize) -> bool {
    text_shape(row_text(row), pre, max_width)
}

pub open spec fn shaped_params(p: WrapParams, first: Seq<char>) -> bool {
    &&& p.max_width >= 1
    &&& p.max_width <= 65535
    &&& p.initial_width as nat == cells(first)
    &&& p.continuation_width as nat == cells(row_text(p.continuation_prefix))
    &&& p.initial_width < usize::MAX
    &&& p.continuation_width < usize::MAX
}

/// What holds of the wrapping progress: the open row is a continuation row
/// exactly when rows were finished, it starts with its prefix and fits,
/// its width is the (saturated) sum of its cells, and every finished row
/// starts with its prefix and fits.
pub open spec fn shaped_progress(p: WrapParams, first: Seq<char>, st: WrapState) -> bool {
    let open = row_text(st.row) + st.fragment;
    let cont = row_text(p.continuation_prefix);
    &&& st.continuation == (st.output.len() > 0)
    &&& text_shape(open, prefix_text(first, cont, st.output.len() as int), p.max_width)
    &&& st.row_width as nat == saturate(cells(open))
    &&& forall|k: int| 0 <= k < st.output.len()
        ==> row_shape(#[trigger] st.output[k], prefix_text(first, cont, k), p.max_width)
}

/// The characters of the wrapped content so far: the finished rows' and
/// the open row's, each after its prefix.
pub open spec fn progress_text(p: WrapParams, first: Seq<char>, st: WrapState) -> Seq<char> {
    let cont = row_text(p.continuation_prefix);
    contents_text(st.output, first, cont)
        + (row_text(st.row) + st.fragment).skip(prefix_text(first, cont, st.output.len() as int).len() as int)
}

proof fn lemma_cells_at_least_len(s: Seq<char>)
    ensures
        cells(s) >= s.len(),
    decreases s.len(),
{
    if s.len() > 0 {
        lemma_cells_at_least_len(s.drop_last());
    }
}

proof fn lemma_contents_text_push(rows: Seq<Seq<SpanView>>, r: Seq<SpanView>, first: Seq<char>, cont: Seq<char>)
    ensures
        contents_text(rows.push(r), first, cont)
            == contents_text(rows, first, cont) + row_text(r).skip(prefix_text(first, cont, rows.len() as int).len() as int),
{
    assert(rows.push(r).drop_last() =~= rows);
}

/// A finished row keeps the shape of the open row it came from.
proof fn lemma_finished_row_shape(row: Seq<SpanView>, row_width: usize, max_width: usize, fill: Option<Style>, pre: Seq<char>)
    requires
        max_width <= 65535,
        text_shape(row_text(row), pre, max_width),
        row_width as nat == saturate(cells(row_text(row))),
    ensures
        row_shape(finish_row_spec(row, row_width, max_width, fill), pre, max_width),
        fill is None ==> finish_row_spec(row, row_width, max_width, fill) == row,
{
    let text = row_text(row);
    match fill {
        Some(f) => {
            if row_width < max_width {
                let pad = spaces_seq((max_width - row_width) as nat);
                lemma_row_text_push(row, SpanView { content: pad, style: f });
                lemma_cells_concat(text, pad);
                lemma_cells_spaces((max_width - row_width) as nat);
                assert((text + pad).take(pre.len() as int) =~= text.take(pre.len() as int));
            }
        },
        None => {},
    }
}

proof fn lemma_shaped_wrap_char(p: WrapParams, first: Seq<char>, st: WrapState, c: char, style: Style)
    requires
        shaped_params(p, first),
        shaped_progress(p, first, st),
    ensures
        shaped_progress(p, first, wrap_char(p, st, c, style)),
        p.fill is None ==> progress_text(p, first, wrap_char(p, st, c, style)) == progress_text(p, first, st).push(c),
{
    let cw = cell_width(c);
    let cont = row_text(p.continuation_prefix);
    let open = row_text(st.row) + st.fragment;
    let pre = prefix_text(first, cont, st.output.len() as int);
    let r = wrap_char(p, st, c, style);
    lemma_cell_width_bounds(c);
    if breaks_before(p, st, cw) {
        let finished = push_fragment_spec(st.row, st.fragment, style);
        lemma_push_fragment_text(st.row, st.fragment, style);
        lemma_finished_row_shape(finished, st.row_width, p.max_width, p.fill, pre);
        let done = finish_row_spec(finished, st.row_width, p.max_width, p.fill);
        assert(r.output == st.output.push(done));
        assert forall|k: int| 0 <= k < r.output.len()
            implies row_shape(#[trigger] r.output[k], prefix_text(first, cont, k), p.max_width) by {
            if k < st.output.len() {
                assert(r.output[k] == st.output[k]);
            }
        }
        let new_open = row_text(r.row) + r.fragment;
        assert(new_open =~= cont.push(c));
        assert(prefix_text(first, cont, r.output.len() as int) == cont);
        assert(new_open.take(cont.len() as int) =~= cont);
        assert(new_open.drop_last() =~= cont);
        assert(cells(new_open) == cells(cont) + cw);
        if p.fill is None {
            lemma_contents_text_push(st.output, done, first, cont);
            assert(new_open.skip(cont.len() as int) =~= seq![c]);
            assert(progress_text(p, first, r) =~= progress_text(p, first, st).push(c));
        }
    } else {
        assert(r.output == st.output);
        let new_open = row_text(r.row) + r.fragment;
        assert(new_open =~= open.push(c));
        assert(new_open.drop_last() =~= open);
        assert(cells(new_open) == cells(open) + cw);
        assert(new_open.take(pre.len() as int) =~= open.take(pre.len() as int));
        let content_start = if st.continuation { p.continuation_width } else { p.initial_width };
        assert(content_start as nat == cells(pre));
        if !(cells(new_open) <= p.max_width) {
            if st.row_width > content_start {
                assert(st.row_width.saturating_add(cw) <= p.max_width);
                assert(false);
            } else {
                lemma_cells_concat(pre, open.skip(pre.len() as int));
                assert(pre + open.skip(pre.len() as int) =~= open);
                lemma_cells_at_least_len(open.skip(pre.len() as int));
                assert(open.len() == pre.len());
            }
        }
        assert(new_open.skip(pre.len() as int) =~= open.skip(pre.len() as int).push(c));
        assert(progress_text(p, first, r) =~= progress_text(p, first, st).push(c));
    }
}

proof fn lemma_shaped_wrap_chars(p: WrapParams, first: Seq<char>, st: WrapState, chars: Seq<char>, style: Style)
    requires
        shaped_params(p, first),
        shaped_progress(p, first, st),
    ensures
        shaped_progress(p, first, wrap_chars(p, st, chars, style)),
        p.fill is None ==> progress_text(p, first, wrap_chars(p, st, chars, style)) == progress_text(p, first, st) + chars,
    decreases chars.len(),
{
    if chars.len() == 0 {
        assert(progress_text(p, first, st) + chars =~= progress_text(p, first, st));
    } else {
        lemma_shaped_wrap_chars(p, first, st, chars.drop_last(), style);
        lemma_shaped_wrap_char(p, first, wrap_chars(p, st, chars.drop_last(), style), chars.last(), style);
        assert((progress_text(p, first, st) + chars.drop_last()).push(chars.last())
            =~= progress_text(p, first, st) + chars);
    }
}

proof fn lemma_shaped_wrap_spans(p: WrapParams, first: Seq<char>, st: WrapState, spans: Seq<SpanView>)
    requires
        shaped_params(p, first),
        shaped_progress(p, first, st),
    ensures
        shaped_progress(p, first, wrap_spans(p, st, spans)),
        p.fill is None ==> progress_text(p, first, wrap_spans(p, st, spans)) == progress_text(p, first, st) + row_text(spans),
    decreases spans.len(),
{
    if spans.len() == 0 {
        assert(progress_text(p, first, st) + row_text(spans) =~= progress_text(p, first, st));
    } else {
        lemma_shaped_wrap_spans(p, first, st, spans.drop_last());
        let prev = wrap_spans(p, st, spans.drop_last());
        let last = spans.last();
        lemma_shaped_wrap_chars(p, first, prev, last.content, last.style);
        let st1 = wrap_chars(p, prev, last.content, last.style);
        lemma_push_fragment_text(st1.row, st1.fragment, last.style);
        let r = wrap_spans(p, st, spans);
        assert(row_text(r.row) + r.fragment =~= row_text(st1.row) + st1.fragment);
        assert(progress_text(p, first, r) == progress_text(p, first, st1));
        assert(progress_text(p, first, st) + row_text(spans)
            =~= progress_text(p, first, st) + row_text(spans.drop_last()) + last.content);
    }
}

/// Wrapping keeps the prefixes and the text: every row starts with its
/// prefix (the first row with the line's prefix, every further row with
/// the continuation prefix) and is at most the width wide unless it holds
/// at most one character after its prefix; without a fill, what follows
/// the prefixes, row after row, is exactly the text of the spans. This
/// holds when each prefix is as wide as its characters count and its width
/// is below `usize::MAX`.
pub proof fn law_wrap_keeps_prefixes_and_text(line: LogicalView, width: u16)
    requires
        spans_width_spec(line.prefix) as nat == cells(row_text(line.prefix)),
        spans_width_spec(line.continuation_prefix) as nat == cells(row_text(line.continuation_prefix)),
        spans_width_spec(line.prefix) < usize::MAX,
        spans_width_spec(line.continuation_prefix) < usize::MAX,
    ensures
        forall|k: int| 0 <= k < wrap_line_spec(line, width).len()
            ==> row_shape(
                #[trigger] wrap_line_spec(line, width)[k],
                prefix_text(row_text(line.prefix), row_text(line.continuation_prefix), k),
                max_row_width(width),
            ),
        line.fill is None ==> contents_text(
            wrap_line_spec(line, width),
            row_text(line.prefix),
            row_text(line.continuation_prefix),
        ) == row_text(line.spans),
{
    reveal(wrap_line_spec);
    let first = row_text(line.prefix);
    let cont = row_text(line.continuation_prefix);
    let p = wrap_params(line, width);
    let st0 = wrap_start(line);
    assert(row_text(st0.row) + st0.fragment =~= first);
    assert(first.take(first.len() as int) =~= first);
    assert(shaped_params(p, first));
    assert(shaped_progress(p, first, st0));
    assert(first.skip(first.len() as int) =~= Seq::<char>::empty());
    assert(progress_text(p, first, st0) =~= Seq::<char>::empty());
    lemma_shaped_wrap_spans(p, first, st0, line.spans);
    let st = wrap_spans(p, st0, line.spans);
    let open = row_text(st.row) + st.fragment;
    let pre = prefix_text(first, cont, st.output.len() as int);
    lemma_finished_row_shape(st.row, st.row_width, p.max_width, p.fill, pre);
    let last = finish_row_spec(st.row, st.row_width, p.max_width, p.fill);
    let rows = st.output.push(last);
    assert forall|k: int| 0 <= k < rows.len()
        implies row_shape(#[trigger] rows[k], prefix_text(first, cont, k), max_row_width(width)) by {
        if k < st.output.len() {
            assert(rows[k] == st.output[k]);
        }
    }
    if line.fill is None {
        lemma_contents_text_push(st.output, last, first, cont);
        assert(Seq::<char>::empty() + row_text(line.spans) =~= row_text(line.spans));
    }
}

} // verus!
