//! What the terminal screen shows, computed as plain values: message
//! wrapping, transcript rows and their count, styles, the welcome mark, the
//! footer, the command popup and the approval dialog.

use crate::state::AppState;
use crate::style::{Color, Line, Modifiers, Span, SpanView, Style, lines_view, spans_view};
use crate::text::{
    char_display_width, char_width, copy_chars, push_char, spaces, spaces_seq, split_newlines, split_on_newlines,
    str_display_width, str_width, strings_view, lemma_split_newlines_nonempty,
};
use crate::transcript::{EntryKind, EntryView, entries_view};
use vstd::prelude::*;

verus! {

/// Whether entries of this kind are drawn as message bubbles.
pub fn is_conversation(kind: EntryKind) -> (b: bool)
    ensures
        b == (kind == EntryKind::User || kind == EntryKind::Assistant),
{
    match kind {
        EntryKind::User | EntryKind::Assistant => true,
        _ => false,
    }
}

/// Columns a character takes in a message: its width, or one when unknown.
pub open spec fn message_cells(c: char) -> nat {
    match char_width(c) {
        Some(w) => w as nat,
        None => 1,
    }
}

/// Message text width for a render width: two columns go to the margins,
/// and at least one column is left for text.
pub open spec fn message_content_width(width: u16) -> nat {
    let line_width: nat = if width < 2 { 2 } else { width as nat };
    if line_width - 2 < 1 { 1 } else { (line_width - 2) as nat }
}

/// A message row: one margin space, the text, spaces up to the content
/// width, one margin space.
pub open spec fn padded_spec(text: Seq<char>, text_width: nat, content_width: nat) -> Seq<char> {
    seq![' '] + text + spaces_seq(if content_width > text_width { (content_width - text_width) as nat } else { 0 }) + seq![' ']
}

/// Rows finished so far, the open chunk and its width.
#[verifier::ext_equal]
pub struct ChunkState {
    pub rows: Seq<Seq<char>>,
    pub chunk: Seq<char>,
    pub chunk_width: nat,
}

pub open spec fn chunk_char(st: ChunkState, c: char, content_width: nat) -> ChunkState {
    let cw = message_cells(c);
    let st1 = if st.chunk_width > 0 && st.chunk_width + cw > content_width {
        ChunkState { rows: st.rows.push(padded_spec(st.chunk, st.chunk_width, content_width)), chunk: Seq::empty(), chunk_width: 0 }
    } else {
        st
    };
    ChunkState { chunk: st1.chunk.push(c), chunk_width: st1.chunk_width + cw, ..st1 }
}

pub open spec fn chunk_chars(st: ChunkState, chars: Seq<char>, content_width: nat) -> ChunkState
    decreases chars.len(),
{
    if chars.len() == 0 {
        st
    } else {
        chunk_char(chunk_chars(st, chars.drop_last(), content_width), chars.last(), content_width)
    }
}

/// The rows of one source line: chunks broken before a character that
/// would overflow a non-empty chunk; an empty source line gives one blank
/// row, and a last chunk of no width gives none.
pub open spec fn source_line_rows(line: Seq<char>, content_width: nat) -> Seq<Seq<char>> {
    let st = chunk_chars(ChunkState { rows: Seq::empty(), chunk: Seq::empty(), chunk_width: 0 }, line, content_width);
    if st.chunk_width > 0 || line.len() == 0 {
        st.rows.push(padded_spec(st.chunk, st.chunk_width, content_width))
    } else {
        st.rows
    }
}

pub open spec fn source_lines_rows(lines: Seq<Seq<char>>, content_width: nat) -> Seq<Seq<char>>
    decreases lines.len(),
{
    if lines.len() == 0 {
        Seq::empty()
    } else {
        source_lines_rows(lines.drop_last(), content_width) + source_line_rows(lines.last(), content_width)
    }
}

/// The rows of a message bubble for a render width.
pub open spec fn conversation_rows(text: Seq<char>, width: u16) -> Seq<Seq<char>> {
    source_lines_rows(split_newlines(text), message_content_width(width))
}

/// A message row: `text` between one-space margins, padded with spaces to
/// `content_width`.
pub fn padded_message_line(text: &str, text_width: usize, content_width: usize) -> (s: String)
    ensures
        s@ == padded_spec(text@, text_width as nat, content_width as nat),
{
    let mut s = String::new();
    push_char(&mut s, ' ');
    s.append(text);
    let pad = spaces(content_width.saturating_sub(text_width));
    s.append(pad.as_str());
    push_char(&mut s, ' ');
    proof {
        assert(s@ =~= padded_spec(text@, text_width as nat, content_width as nat));
    }
    s
}

/// Breaks message text into bubble rows for the given render width, as
/// `conversation_rows` describes.
pub fn conversation_lines(text: &str, width: u16) -> (rows: Vec<String>)
    ensures
        strings_view(rows@) == conversation_rows(text@, width),
{
    let line_width: usize = if width < 2 { 2 } else { width as usize };
    let content_width: usize = if line_width - 2 < 1 { 1 } else { line_width - 2 };
    let ghost cwn = content_width as nat;
    let sources = split_on_newlines(text);
    let ghost srcs = split_newlines(text@);
    let mut rows: Vec<String> = Vec::new();
    let mut si: usize = 0;
    while si < sources.len()
        invariant
            si <= sources@.len(),
            strings_view(sources@) == srcs,
            cwn == message_content_width(width),
            content_width as nat == cwn,
            content_width <= 65535,
            content_width >= 1,
            strings_view(rows@) == source_lines_rows(srcs.take(si as int), cwn),
        decreases sources@.len() - si,
    {
        let source: &String = &sources[si];
        let ghost rows_before = strings_view(rows@);
        let ghost st0 = ChunkState { rows: Seq::empty(), chunk: Seq::empty(), chunk_width: 0 };
        let mut chunk = String::new();
        let mut chunk_width: usize = 0;
        let mut produced: Vec<String> = Vec::new();
        proof {
            assert(strings_view(produced@) =~= Seq::<Seq<char>>::empty());
            assert(source@.take(0) =~= Seq::<char>::empty());
            assert((ChunkState { rows: strings_view(produced@), chunk: chunk@, chunk_width: chunk_width as nat }) =~= st0);
        }
        for character in it: source.chars()
            invariant
                it.seq() == source@,
                content_width as nat == cwn,
                content_width <= 65535,
                content_width >= 1,
                chunk_width <= content_width + 3,
                (ChunkState { rows: strings_view(produced@), chunk: chunk@, chunk_width: chunk_width as nat })
                    == chunk_chars(st0, it.seq().take(it.index() as int), cwn),
        {
            let ghost before = ChunkState { rows: strings_view(produced@), chunk: chunk@, chunk_width: chunk_width as nat };
            let character_width: usize = match char_display_width(character) {
                Some(w) => w,
                None => 1,
            };
            if chunk_width > 0 && chunk_width + character_width > content_width {
                let ghost p0 = produced@;
                let row = padded_message_line(chunk.as_str(), chunk_width, content_width);
                produced.push(row);
                chunk = String::new();
                chunk_width = 0;
                proof {
                    assert(strings_view(produced@) =~= strings_view(p0).push(row@));
                }
            }
            push_char(&mut chunk, character);
            chunk_width = chunk_width + character_width;
            proof {
                let k = it.index();
                assert(it.seq().take(k + 1).drop_last() =~= it.seq().take(k as int));
                assert((ChunkState { rows: strings_view(produced@), chunk: chunk@, chunk_width: chunk_width as nat })
                    =~= chunk_char(before, character, cwn));
            }
        }
        proof {
            assert(source@.take(source@.len() as int) =~= source@);
        }
        if chunk_width > 0 || source.as_str().is_empty() {
            let ghost p0 = produced@;
            let row = padded_message_line(chunk.as_str(), chunk_width, content_width);
            produced.push(row);
            proof {
                assert(strings_view(produced@) =~= strings_view(p0).push(row@));
            }
        }
        proof {
            assert(strings_view(produced@) == source_line_rows(srcs[si as int], cwn));
        }
        let ghost r0 = rows@;
        rows.append(&mut produced);
        proof {
            assert(strings_view(rows@) =~= strings_view(r0) + source_line_rows(srcs[si as int], cwn));
            assert(srcs.take(si + 1).drop_last() =~= srcs.take(si as int));
        }
        si = si + 1;
    }
    proof {
        assert(srcs.take(srcs.len() as int) =~= srcs);
    }
    rows
}

} // verus!

verus! {

/// Columns a run of characters takes in a message.
pub open spec fn message_width(s: Seq<char>) -> nat
    decreases s.len(),
{
    if s.len() == 0 { 0 } else { message_width(s.drop_last()) + message_cells(s.last()) }
}

/// The chunks that the rows of a source line show, before padding.
pub struct RawChunks {
    pub chunks: Seq<Seq<char>>,
    pub chunk: Seq<char>,
    pub chunk_width: nat,
}

pub open spec fn raw_char(st: RawChunks, c: char, content_width: nat) -> RawChunks {
    let cw = message_cells(c);
    let st1 = if st.chunk_width > 0 && st.chunk_width + cw > content_width {
        RawChunks { chunks: st.chunks.push(st.chunk), chunk: Seq::empty(), chunk_width: 0 }
    } else {
        st
    };
    RawChunks { chunk: st1.chunk.push(c), chunk_width: st1.chunk_width + cw, ..st1 }
}

pub open spec fn raw_chars(chars: Seq<char>, content_width: nat) -> RawChunks
    decreases chars.len(),
{
    if chars.len() == 0 {
        RawChunks { chunks: Seq::empty(), chunk: Seq::empty(), chunk_width: 0 }
    } else {
        raw_char(raw_chars(chars.drop_last(), content_width), chars.last(), content_width)
    }
}

/// The chunks of a source line, one per row.
pub open spec fn line_chunks(line: Seq<char>, content_width: nat) -> Seq<Seq<char>> {
    let st = raw_chars(line, content_width);
    if st.chunk_width > 0 || line.len() == 0 { st.chunks.push(st.chunk) } else { st.chunks }
}

pub open spec fn concat_chunks(chunks: Seq<Seq<char>>) -> Seq<char>
    decreases chunks.len(),
{
    if chunks.len() == 0 { Seq::empty() } else { concat_chunks(chunks.drop_last()) + chunks.last() }
}

pub open spec fn padded_chunks(chunks: Seq<Seq<char>>, content_width: nat) -> Seq<Seq<char>> {
    Seq::new(chunks.len(), |k: int| padded_spec(chunks[k], message_width(chunks[k]), content_width))
}

pub open spec fn chunk_fits(chunk: Seq<char>, content_width: nat) -> bool {
    message_width(chunk) <= content_width || chunk.len() == 1
}

proof fn lemma_raw_chars(chars: Seq<char>, content_width: nat)
    requires
        content_width >= 1,
        forall|i: int| 0 <= i < chars.len() ==> message_cells(#[trigger] chars[i]) > 0,
    ensures
        ({
            let st = chunk_chars(ChunkState { rows: Seq::empty(), chunk: Seq::empty(), chunk_width: 0 }, chars, content_width);
            let raw = raw_chars(chars, content_width);
            &&& st.rows == padded_chunks(raw.chunks, content_width)
            &&& st.chunk == raw.chunk
            &&& st.chunk_width == raw.chunk_width
            &&& raw.chunk_width == message_width(raw.chunk)
            &&& chunk_fits(raw.chunk, content_width)
            &&& (raw.chunk.len() > 0 <==> raw.chunk_width > 0)
            &&& concat_chunks(raw.chunks) + raw.chunk == chars
            &&& forall|k: int| 0 <= k < raw.chunks.len() ==> chunk_fits(#[trigger] raw.chunks[k], content_width)
        }),
    decreases chars.len(),
{
    if chars.len() == 0 {
        assert(padded_chunks(Seq::empty(), content_width) =~= Seq::<Seq<char>>::empty());
        assert(concat_chunks(Seq::<Seq<char>>::empty()) + Seq::<char>::empty() =~= chars);
    } else {
        let prefix = chars.drop_last();
        let c = chars.last();
        assert forall|i: int| 0 <= i < prefix.len() implies message_cells(#[trigger] prefix[i]) > 0 by {
            assert(prefix[i] == chars[i]);
        }
        lemma_raw_chars(prefix, content_width);
        let st0 = ChunkState { rows: Seq::empty(), chunk: Seq::empty(), chunk_width: 0 };
        let st = chunk_chars(st0, prefix, content_width);
        let raw = raw_chars(prefix, content_width);
        let cw = message_cells(c);
        assert(cw > 0) by {
            assert(chars[chars.len() - 1] == c);
        }
        let raw2 = raw_char(raw, c, content_width);
        if raw.chunk_width > 0 && raw.chunk_width + cw > content_width {
            assert(padded_chunks(raw.chunks.push(raw.chunk), content_width)
                =~= padded_chunks(raw.chunks, content_width).push(padded_spec(raw.chunk, raw.chunk_width, content_width)));
            assert(seq![c].drop_last() =~= Seq::<char>::empty());
            assert(message_width(Seq::<char>::empty()) == 0);
            assert(message_width(seq![c]) == cw);
            assert(Seq::<char>::empty().push(c) =~= seq![c]);
            assert(raw.chunks.push(raw.chunk).drop_last() =~= raw.chunks);
            assert(concat_chunks(raw2.chunks) + raw2.chunk =~= concat_chunks(raw.chunks) + raw.chunk + seq![c]);
            assert forall|k: int| 0 <= k < raw2.chunks.len() implies chunk_fits(#[trigger] raw2.chunks[k], content_width) by {
                if k < raw.chunks.len() {
                    assert(raw2.chunks[k] == raw.chunks[k]);
                }
            }
        } else {
            assert(raw.chunk.push(c).drop_last() =~= raw.chunk);
            assert(message_width(raw.chunk.push(c)) == message_width(raw.chunk) + cw);
            assert(concat_chunks(raw2.chunks) + raw2.chunk =~= concat_chunks(raw.chunks) + raw.chunk + seq![c]);
            if raw.chunk_width == 0 {
                assert(raw.chunk.len() == 0);
                assert(raw.chunk.push(c).len() == 1);
            }
        }
        assert(prefix + seq![c] =~= chars);
    }
}

/// The rows of a message keep its text and fill the bubble: when no
/// character of a source line has zero width, the line's rows are its
/// chunks between margins, padded with spaces to the content width; the
/// chunks spell the line in order; and each chunk fits the content width
/// unless it is a single character wider than that on its own.
pub proof fn law_message_rows_keep_text(line: Seq<char>, content_width: nat)
    requires
        content_width >= 1,
        forall|i: int| 0 <= i < line.len() ==> message_cells(#[trigger] line[i]) > 0,
    ensures
        source_line_rows(line, content_width) == padded_chunks(line_chunks(line, content_width), content_width),
        concat_chunks(line_chunks(line, content_width)) == line,
        forall|k: int| 0 <= k < line_chunks(line, content_width).len()
            ==> chunk_fits(#[trigger] line_chunks(line, content_width)[k], content_width),
{
    lemma_raw_chars(line, content_width);
    let raw = raw_chars(line, content_width);
    if raw.chunk_width > 0 || line.len() == 0 {
        assert(padded_chunks(raw.chunks.push(raw.chunk), content_width)
            =~= padded_chunks(raw.chunks, content_width).push(padded_spec(raw.chunk, raw.chunk_width, content_width)));
        assert(raw.chunks.push(raw.chunk).drop_last() =~= raw.chunks);
        let ch = raw.chunks.push(raw.chunk);
        assert forall|k: int| 0 <= k < ch.len() implies chunk_fits(#[trigger] ch[k], content_width) by {
            if k < raw.chunks.len() {
                assert(ch[k] == raw.chunks[k]);
            }
        }
    } else {
        assert(raw.chunk.len() == 0);
        assert(concat_chunks(raw.chunks) + raw.chunk =~= concat_chunks(raw.chunks));
    }
}


/// The second progress is no further along in rows than the first: fewer
/// finished rows, or as many with an open chunk no wider.
pub open spec fn chunks_no_further(first: ChunkState, second: ChunkState) -> bool {
    second.rows.len() < first.rows.len()
        || (second.rows.len() == first.rows.len() && second.chunk_width <= first.chunk_width)
}

proof fn lemma_chunk_char_no_further(s1: ChunkState, s2: ChunkState, c: char, w1: nat, w2: nat)
    requires
        w1 <= w2,
        chunks_no_further(s1, s2),
    ensures
        chunks_no_further(chunk_char(s1, c, w1), chunk_char(s2, c, w2)),
{
}

proof fn lemma_chunk_chars_no_further(s1: ChunkState, s2: ChunkState, chars: Seq<char>, w1: nat, w2: nat)
    requires
        w1 <= w2,
        chunks_no_further(s1, s2),
    ensures
        chunks_no_further(chunk_chars(s1, chars, w1), chunk_chars(s2, chars, w2)),
    decreases chars.len(),
{
    if chars.len() > 0 {
        lemma_chunk_chars_no_further(s1, s2, chars.drop_last(), w1, w2);
        lemma_chunk_char_no_further(
            chunk_chars(s1, chars.drop_last(), w1),
            chunk_chars(s2, chars.drop_last(), w2),
            chars.last(),
            w1,
            w2,
        );
    }
}

proof fn lemma_source_lines_rows_no_more(lines: Seq<Seq<char>>, w1: nat, w2: nat)
    requires
        w1 <= w2,
    ensures
        source_lines_rows(lines, w2).len() <= source_lines_rows(lines, w1).len(),
    decreases lines.len(),
{
    if lines.len() > 0 {
        lemma_source_lines_rows_no_more(lines.drop_last(), w1, w2);
        let line = lines.last();
        let start = ChunkState { rows: Seq::empty(), chunk: Seq::empty(), chunk_width: 0 };
        lemma_chunk_chars_no_further(start, start, line, w1, w2);
    }
}

/// A wider screen never needs more message rows: for render widths
/// `w1 <= w2`, a message takes at most as many bubble rows at `w2` as at
/// `w1`.
pub proof fn law_message_rows_shrink_with_width(text: Seq<char>, w1: u16, w2: u16)
    requires
        w1 <= w2,
    ensures
        conversation_rows(text, w2).len() <= conversation_rows(text, w1).len(),
{
    lemma_source_lines_rows_no_more(split_newlines(text), message_content_width(w1), message_content_width(w2));
}
} // verus!

verus! {

/// A screen rectangle in cells.
#[derive(Clone, Copy, Debug, PartialEq, Eq, Structural)]
pub struct Rect {
    pub x: u16,
    pub y: u16,
    pub width: u16,
    pub height: u16,
}

/// A rectangle lies on the screen: its far edges are addressable.
pub open spec fn rect_valid(r: Rect) -> bool {
    r.x + r.width <= u16::MAX && r.y + r.height <= u16::MAX
}

/// `width` by `height` cells centred in `bounds`, clipped to it.
pub open spec fn centered_rect_spec(width: u16, height: u16, bounds: Rect) -> Rect {
    let free_w: int = if bounds.width > width { bounds.width - width } else { 0 };
    let free_h: int = if bounds.height > height { bounds.height - height } else { 0 };
    Rect {
        x: (bounds.x + free_w / 2) as u16,
        y: (bounds.y + free_h / 2) as u16,
        width: if width < bounds.width { width } else { bounds.width },
        height: if height < bounds.height { height } else { bounds.height },
    }
}

pub fn centered_rect(width: u16, height: u16, bounds: Rect) -> (r: Rect)
    requires
        rect_valid(bounds),
    ensures
        r == centered_rect_spec(width, height, bounds),
        rect_valid(r),
        bounds.x <= r.x,
        bounds.y <= r.y,
        r.x + r.width <= bounds.x + bounds.width,
        r.y + r.height <= bounds.y + bounds.height,
{
    let x = bounds.x + bounds.width.saturating_sub(width) / 2;
    let y = bounds.y + bounds.height.saturating_sub(height) / 2;
    Rect {
        x,
        y,
        width: if width < bounds.width { width } else { bounds.width },
        height: if height < bounds.height { height } else { bounds.height },
    }
}

/// The drawing area inside the screen: one column of margin on each side.
pub fn content_area(area: Rect) -> (r: Rect)
    ensures
        r == (Rect {
            x: area.x.saturating_add(1),
            y: area.y,
            width: area.width.saturating_sub(2),
            height: area.height,
        }),
{
    Rect { x: area.x.saturating_add(1), y: area.y, width: area.width.saturating_sub(2), height: area.height }
}

/// Whether the drawing area is too small for the interface, in which case
/// only a resize hint is shown.
pub fn is_too_small(content: Rect) -> (b: bool)
    ensures
        b == (content.width < 20 || content.height < 6),
{
    content.width < 20 || content.height < 6
}

/// Width of the composer's text area: the content width less four, at
/// least one.
pub fn composer_width(content: Rect) -> (w: u16)
    ensures
        w == (if content.width > 4 { (content.width - 4) as u16 } else { 1u16 }),
{
    let w = content.width.saturating_sub(4);
    if w < 1 { 1 } else { w }
}

/// Rows of the welcome screen: the mark, a blank row, the name and the hint.
pub open spec fn welcome_height() -> u16 {
    16
}

/// Blank rows above the welcome mark, or `None` when the area is too small
/// for it and only the hint is shown.
pub fn welcome_top_padding(area: Rect) -> (p: Option<u16>)
    ensures
        p == (if area.height < 16 || area.width < 50 { None } else { Some(((area.height - 16) / 3) as u16) }),
{
    if area.height < 16 || area.width < 50 {
        None
    } else {
        Some((area.height - 16) / 3)
    }
}

/// The first row of the transcript to show: the bottom of the transcript,
/// moved up by the scroll-back, clamped to the screen's row range.
pub fn transcript_scroll(line_count: usize, height: u16, scroll_back: usize) -> (s: u16)
    ensures
        s as int == ({
            let bottom: int = if line_count > height { line_count - height } else { 0 };
            let top: int = if bottom > scroll_back { bottom - scroll_back } else { 0 };
            if top > u16::MAX { u16::MAX as int } else { top }
        }),
{
    let bottom = line_count.saturating_sub(height as usize);
    let top = bottom.saturating_sub(scroll_back);
    if top > 65535 { 65535 } else { top as u16 }
}

/// Where the command popup goes: the full content width, just above the
/// composer, one row per visible command (at most seven).
pub fn popup_area(bounds: Rect, composer_y: u16, matches: usize) -> (r: Rect)
    ensures
        r == (Rect {
            x: bounds.x,
            y: composer_y.saturating_sub(if matches < 7 { matches as u16 } else { 7u16 }),
            width: bounds.width,
            height: if matches < 7 { matches as u16 } else { 7u16 },
        }),
{
    let visible = if matches < 7 { matches } else { 7 };
    let height = visible as u16;
    Rect { x: bounds.x, y: composer_y.saturating_sub(height), width: bounds.width, height }
}

/// Where the approval dialog goes: centred, four columns narrower than the
/// bounds (between 20 and 88) and two rows lower (between 6 and 12).
pub fn approval_area(bounds: Rect) -> (r: Rect)
    requires
        rect_valid(bounds),
    ensures
        r == centered_rect_spec(
            clamp_u16(bounds.width.saturating_sub(4), 20, 88),
            clamp_u16(bounds.height.saturating_sub(2), 6, 12),
            bounds,
        ),
{
    let width = clamp(bounds.width.saturating_sub(4), 20, 88);
    let height = clamp(bounds.height.saturating_sub(2), 6, 12);
    centered_rect(width, height, bounds)
}

pub open spec fn clamp_u16(v: u16, lo: u16, hi: u16) -> u16 {
    if v < lo { lo } else if v > hi { hi } else { v }
}

fn clamp(v: u16, lo: u16, hi: u16) -> (r: u16)
    ensures
        r == clamp_u16(v, lo, hi),
{
    if v < lo { lo } else if v > hi { hi } else { v }
}

} // verus!

verus! {

/// `color` as foreground, unless colors are off.
pub open spec fn color_spec(no_color: bool, c: Color) -> Style {
    if no_color { Style::plain_spec() } else { Style { fg: Some(c), ..Style::plain_spec() } }
}

pub open spec fn bold_spec() -> Modifiers {
    Modifiers { bold: true, ..Modifiers::none() }
}

pub open spec fn muted_spec(no_color: bool) -> Style {
    color_spec(no_color, Color::DarkGray)
}

pub open spec fn error_spec(no_color: bool) -> Style {
    color_spec(no_color, Color::Black).add_modifier_spec(bold_spec())
}

/// The style of an entry: user messages bold, white on black when colors
/// are on; assistant messages dark gray; reasoning muted and italic; tool
/// output dark gray; notes muted; errors bold.
pub open spec fn entry_style_spec(kind: EntryKind, no_color: bool) -> Style {
    match kind {
        EntryKind::User => if no_color {
            Style::plain_spec().add_modifier_spec(bold_spec())
        } else {
            Style { fg: Some(Color::White), bg: Some(Color::Black), ..Style::plain_spec() }.add_modifier_spec(bold_spec())
        },
        EntryKind::Assistant => if no_color {
            Style::plain_spec()
        } else {
            Style { fg: Some(Color::DarkGray), ..Style::plain_spec() }
        },
        EntryKind::Thinking => muted_spec(no_color).add_modifier_spec(Modifiers { italic: true, ..Modifiers::none() }),
        EntryKind::Tool => color_spec(no_color, Color::DarkGray),
        EntryKind::Info => muted_spec(no_color),
        EntryKind::Error => error_spec(no_color),
    }
}

pub fn color(state: &AppState, c: Color) -> (s: Style)
    ensures
        s == color_spec(state.no_color, c),
{
    if state.no_color { Style::plain() } else { Style::plain().fg(c) }
}

pub fn normal(state: &AppState) -> (s: Style)
    ensures
        s == Style::plain_spec(),
{
    Style::plain()
}

pub fn accent(state: &AppState) -> (s: Style)
    ensures
        s == color_spec(state.no_color, Color::Black),
{
    color(state, Color::Black)
}

pub fn success(state: &AppState) -> (s: Style)
    ensures
        s == color_spec(state.no_color, Color::DarkGray),
{
    color(state, Color::DarkGray)
}

pub fn warning(state: &AppState) -> (s: Style)
    ensures
        s == color_spec(state.no_color, Color::Black).add_modifier_spec(bold_spec()),
{
    color(state, Color::Black).add_modifier(Modifiers::bold())
}

pub fn error(state: &AppState) -> (s: Style)
    ensures
        s == error_spec(state.no_color),
{
    color(state, Color::Black).add_modifier(Modifiers::bold())
}

pub fn muted(state: &AppState) -> (s: Style)
    ensures
        s == muted_spec(state.no_color),
{
    color(state, Color::DarkGray)
}

pub fn selected_style(state: &AppState) -> (s: Style)
    ensures
        s == Style::plain_spec().add_modifier_spec(Modifiers { reversed: true, ..Modifiers::none() }),
{
    Style::plain().add_modifier(Modifiers::reversed())
}

pub fn divider(state: &AppState) -> (s: Style)
    ensures
        s == color_spec(state.no_color, Color::DarkGray),
{
    color(state, Color::DarkGray)
}

pub fn entry_style(kind: EntryKind, state: &AppState) -> (s: Style)
    ensures
        s == entry_style_spec(kind, state.no_color),
{
    match kind {
        EntryKind::User => if state.no_color {
            normal(state).add_modifier(Modifiers::bold())
        } else {
            Style::plain().fg(Color::White).bg(Color::Black).add_modifier(Modifiers::bold())
        },
        EntryKind::Assistant => if state.no_color {
            normal(state)
        } else {
            Style::plain().fg(Color::DarkGray)
        },
        EntryKind::Thinking => muted(state).add_modifier(Modifiers::italic()),
        EntryKind::Tool => success(state),
        EntryKind::Info => muted(state),
        EntryKind::Error => error(state),
    }
}

/// The welcome mark, one digit per pair of cells: `0` is blank, `1` to `5`
/// are ever denser glyphs in ever darker gray.
pub open spec fn aion_mark_levels() -> Seq<Seq<char>> {
    seq![
        "0000000440000000"@,
        "0000003553000000"@,
        "0000015555200000"@,
        "0000045225510000"@,
        "0000353003540000"@,
        "0003540000353000"@,
        "0002200120022000"@,
        "0000000550000000"@,
        "1410000220000041"@,
        "0452000000002540"@,
        "0025420000245300"@,
        "0001355444531000"@,
        "0000001221000000"@,
    ]
}

pub open spec fn mark_glyph(level: char) -> Seq<char> {
    if level == '1' { seq!['.', '.'] }
    else if level == '2' { seq![':', ':'] }
    else if level == '3' { seq!['*', '*'] }
    else if level == '4' { seq!['#', '#'] }
    else if level == '5' { seq!['@', '@'] }
    else { seq![' ', ' '] }
}

pub open spec fn mark_shade(level: char) -> u8 {
    if level == '1' { 178 }
    else if level == '2' { 146 }
    else if level == '3' { 110 }
    else if level == '4' { 70 }
    else if level == '5' { 28 }
    else { 0 }
}

/// One cell pair of the mark: gray glyphs on the default background, or
/// unstyled when blank or when colors are off.
pub open spec fn mark_span(level: char, no_color: bool) -> SpanView {
    SpanView {
        content: mark_glyph(level),
        style: if level == '0' || no_color {
            Style::plain_spec()
        } else {
            Style { fg: Some(Color::Rgb(mark_shade(level), mark_shade(level), mark_shade(level))), ..Style::plain_spec() }
        },
    }
}

pub open spec fn mark_lines_spec(no_color: bool) -> Seq<Seq<SpanView>> {
    Seq::new(
        aion_mark_levels().len(),
        |r: int| Seq::new(aion_mark_levels()[r].len(), |k: int| mark_span(aion_mark_levels()[r][k], no_color)),
    )
}

fn mark_level_row(r: usize) -> (s: String)
    requires
        r < 13,
    ensures
        s@ == aion_mark_levels()[r as int],
{
    if r == 0 { copy_chars("0000000440000000") }
    else if r == 1 { copy_chars("0000003553000000") }
    else if r == 2 { copy_chars("0000015555200000") }
    else if r == 3 { copy_chars("0000045225510000") }
    else if r == 4 { copy_chars("0000353003540000") }
    else if r == 5 { copy_chars("0003540000353000") }
    else if r == 6 { copy_chars("0002200120022000") }
    else if r == 7 { copy_chars("0000000550000000") }
    else if r == 8 { copy_chars("1410000220000041") }
    else if r == 9 { copy_chars("0452000000002540") }
    else if r == 10 { copy_chars("0025420000245300") }
    else if r == 11 { copy_chars("0001355444531000") }
    else { copy_chars("0000001221000000") }
}

fn mark_cell(level: char, no_color: bool) -> (s: Span)
    ensures
        s@ == mark_span(level, no_color),
{
    let (a, shade): (char, u8) = if level == '1' { ('.', 178) }
        else if level == '2' { (':', 146) }
        else if level == '3' { ('*', 110) }
        else if level == '4' { ('#', 70) }
        else if level == '5' { ('@', 28) }
        else { (' ', 0) };
    let mut glyph = String::new();
    push_char(&mut glyph, a);
    push_char(&mut glyph, a);
    let style = if level == '0' || no_color {
        Style::plain()
    } else {
        Style::plain().fg(Color::Rgb(shade, shade, shade))
    };
    proof {
        assert(glyph@ =~= mark_glyph(level));
    }
    Span::styled(glyph, style)
}

/// The rows of the welcome mark.
pub fn aion_mark_lines(state: &AppState) -> (lines: Vec<Line>)
    ensures
        lines_view(lines@) == mark_lines_spec(state.no_color),
{
    let mut lines: Vec<Line> = Vec::new();
    let mut r: usize = 0;
    while r < 13
        invariant
            r <= 13,
            lines@.len() == r,
            aion_mark_levels().len() == 13,
            forall|j: int| 0 <= j < r ==> #[trigger] lines@[j]@ == mark_lines_spec(state.no_color)[j],
        decreases 13 - r,
    {
        let levels = mark_level_row(r);
        let mut spans: Vec<Span> = Vec::new();
        for level in it: levels.chars()
            invariant
                it.seq() == aion_mark_levels()[r as int],
                spans@.len() == it.index(),
                forall|k: int| 0 <= k < it.index() ==> #[trigger] spans@[k]@ == mark_span(it.seq()[k], state.no_color),
        {
            spans.push(mark_cell(level, state.no_color));
        }
        let line = Line::from_spans(spans);
        proof {
            assert(line@ =~= mark_lines_spec(state.no_color)[r as int]);
        }
        lines.push(line);
        r = r + 1;
    }
    proof {
        assert(lines_view(lines@) =~= mark_lines_spec(state.no_color));
    }
    lines
}

} // verus!

verus! {

pub open spec fn is_path_separator(c: char) -> bool {
    c == '/' || c == '\\'
}

/// The components of a path, split at every `/` and `\`.
pub open spec fn path_parts(s: Seq<char>) -> Seq<Seq<char>>
    decreases s.len(),
{
    if s.len() == 0 {
        seq![Seq::<char>::empty()]
    } else {
        let r = path_parts(s.drop_last());
        if is_path_separator(s.last()) {
            r.push(Seq::empty())
        } else {
            r.update(r.len() - 1, r.last().push(s.last()))
        }
    }
}

pub open spec fn last_nonempty(parts: Seq<Seq<char>>) -> Option<Seq<char>>
    decreases parts.len(),
{
    if parts.len() == 0 {
        None
    } else if parts.last().len() > 0 {
        Some(parts.last())
    } else {
        last_nonempty(parts.drop_last())
    }
}

/// The last non-empty component of a path, or the whole path when it has
/// none.
pub open spec fn compact_cwd_spec(cwd: Seq<char>) -> Seq<char> {
    match last_nonempty(path_parts(cwd)) {
        Some(p) => p,
        None => cwd,
    }
}

pub fn compact_cwd(cwd: &str) -> (s: String)
    ensures
        s@ == compact_cwd_spec(cwd@),
{
    let mut best: Option<String> = None;
    let mut current = String::new();
    let ghost mut done: Seq<Seq<char>> = Seq::empty();
    for c in it: cwd.chars()
        invariant
            it.seq() == cwd@,
            path_parts(it.seq().take(it.index() as int)) == done.push(current@),
            match best {
                Some(b) => last_nonempty(done) == Some(b@),
                None => last_nonempty(done) is None,
            },
    {
        proof {
            let k = it.index();
            assert(it.seq().take(k + 1).drop_last() =~= it.seq().take(k as int));
        }
        if c == '/' || c == '\\' {
            proof {
                assert(done.push(current@).drop_last() =~= done);
                done = done.push(current@);
            }
            if !current.as_str().is_empty() {
                let mut part = String::new();
                std::mem::swap(&mut part, &mut current);
                best = Some(part);
            } else {
                current = String::new();
            }
            proof {
                assert(path_parts(it.seq().take(it.index() + 1)) =~= done.push(current@));
            }
        } else {
            let ghost before = done.push(current@);
            push_char(&mut current, c);
            proof {
                assert(before.update(before.len() - 1, before.last().push(c)) =~= done.push(current@));
            }
        }
    }
    proof {
        assert(cwd@.take(cwd@.len() as int) =~= cwd@);
        assert(done.push(current@).drop_last() =~= done);
    }
    if !current.as_str().is_empty() {
        current
    } else {
        match best {
            Some(b) => b,
            None => copy_chars(cwd),
        }
    }
}

/// `s` without one final carriage return.
pub open spec fn strip_cr(s: Seq<char>) -> Seq<char> {
    if s.len() > 0 && s.last() == '\r' { s.drop_last() } else { s }
}

/// The lines of a text as `str::lines` yields them: split at `\n`, a
/// carriage return before the newline dropped, and no empty line after a
/// final newline.
pub open spec fn text_lines_spec(s: Seq<char>) -> Seq<Seq<char>> {
    let p = split_newlines(s);
    let n = p.len();
    Seq::new((n - 1) as nat, |i: int| strip_cr(p[i])) + if p[n - 1].len() > 0 { seq![p[n - 1]] } else { Seq::empty() }
}

/// The lines of a text, as `str::lines` yields them.
pub fn text_lines(s: &str) -> (lines: Vec<String>)
    ensures
        strings_view(lines@) == text_lines_spec(s@),
{
    let pieces = split_on_newlines(s);
    let ghost p = split_newlines(s@);
    proof {
        lemma_split_newlines_nonempty(s@);
    }
    let n = pieces.len();
    let mut lines: Vec<String> = Vec::new();
    let mut i: usize = 0;
    while i + 1 < n
        invariant
            n == p.len(),
            n >= 1,
            i + 1 <= n,
            strings_view(pieces@) == p,
            lines@.len() == i,
            forall|j: int| 0 <= j < i ==> #[trigger] lines@[j]@ == strip_cr(p[j]),
        decreases n - i,
    {
        let chars = crate::text::chars_of(pieces[i].as_str());
        let mut line = pieces[i].clone();
        if chars.len() > 0 && chars[chars.len() - 1] == '\r' {
            let mut shorter: Vec<char> = chars.clone();
            shorter.pop();
            line = crate::text::string_from_chars(&shorter);
            proof {
                assert(shorter@ =~= p[i as int].drop_last());
            }
        }
        proof {
            assert(pieces@[i as int]@ == p[i as int]);
        }
        lines.push(line);
        i = i + 1;
    }
    if !pieces[n - 1].as_str().is_empty() {
        lines.push(pieces[n - 1].clone());
        proof {
            assert(pieces@[n - 1]@ == p[n - 1]);
        }
    }
    proof {
        assert(strings_view(lines@) =~= text_lines_spec(s@));
    }
    lines
}

/// Rows a text takes when the terminal wraps it at `width` columns: its
/// display width (at least one) divided by the width, rounded up.
pub open spec fn wrapped_height_spec(text: Seq<char>, width: usize) -> nat {
    let w: int = if str_width(text) < 1 { 1 } else { str_width(text) as int };
    ((w + width - 1) / (width as int)) as nat
}

pub fn wrapped_height(text: &str, width: usize) -> (h: usize)
    requires
        width > 0,
    ensures
        h as nat == wrapped_height_spec(text@, width),
{
    let w0 = str_display_width(text);
    let w = if w0 < 1 { 1 } else { w0 };
    let q = w / width;
    proof {
        if w % width != 0 {
            assert(width >= 2);
            assert(q <= w / 2) by (nonlinear_arith)
                requires
                    width >= 2,
                    q == w / width,
            {
            }
        }
    }
    let h = if w % width != 0 { q + 1 } else { q };
    proof {
        let wn = w as int;
        let widthn = width as int;
        assert(h as int == (wn + widthn - 1) / widthn) by (nonlinear_arith)
            requires
                widthn > 0,
                wn >= 1,
                q == wn / widthn,
                h == (if wn % widthn != 0 { q + 1 } else { q as int }),
        {
        }
    }
    h
}

} // verus!

verus! {

pub open spec fn sum_nats(s: Seq<nat>) -> nat
    decreases s.len(),
{
    if s.len() == 0 { 0 } else { sum_nats(s.drop_last()) + s.last() }
}

proof fn lemma_sum_nats_prefix(s: Seq<nat>, i: int)
    requires
        0 <= i < s.len(),
    ensures
        sum_nats(s.take(i + 1)) == sum_nats(s.take(i)) + s[i],
        sum_nats(s.take(i + 1)) <= sum_nats(s),
    decreases s.len() - i,
{
    assert(s.take(i + 1).drop_last() =~= s.take(i));
    if i + 1 < s.len() {
        lemma_sum_nats_prefix(s, i + 1);
    } else {
        assert(s.take(i + 1) =~= s);
    }
}

pub open spec fn render_columns(width: u16) -> usize {
    if width < 1 { 1 } else { width as usize }
}

pub open spec fn lines_heights(lines: Seq<Seq<char>>, w: usize) -> Seq<nat> {
    Seq::new(lines.len(), |i: int| wrapped_height_spec(lines[i], w))
}

/// Rows an entry takes: a message's bubble rows, or the label's rows plus
/// the rows of each text line (one row for empty text).
pub open spec fn entry_row_count(e: EntryView, w: usize) -> nat {
    if e.kind == EntryKind::User || e.kind == EntryKind::Assistant {
        conversation_rows(e.text, w as u16).len()
    } else {
        wrapped_height_spec(e.label, w) + if e.text.len() == 0 {
            1
        } else {
            sum_nats(lines_heights(text_lines_spec(e.text), w))
        }
    }
}

pub open spec fn entries_heights(es: Seq<EntryView>, w: usize) -> Seq<nat> {
    Seq::new(es.len(), |i: int| entry_row_count(es[i], w))
}

/// Rows of the whole transcript: one blank row between entries plus the
/// rows of each entry; one row when it is empty.
pub open spec fn transcript_line_count_spec(es: Seq<EntryView>, width: u16) -> nat {
    if es.len() == 0 {
        1
    } else {
        (es.len() - 1) as nat + sum_nats(entries_heights(es, render_columns(width)))
    }
}

/// The rows of the lines of a text, or `None` when the sum exceeds
/// `usize::MAX`.
fn text_rows_height(text: &str, w: usize) -> (h: Option<usize>)
    requires
        w > 0,
        w <= 65535,
    ensures
        match h {
            Some(n) => n as nat == sum_nats(lines_heights(text_lines_spec(text@), w)),
            None => sum_nats(lines_heights(text_lines_spec(text@), w)) > usize::MAX,
        },
{
    let lines = text_lines(text);
    let ghost hs = lines_heights(text_lines_spec(text@), w);
    let mut h: usize = 0;
    let mut i: usize = 0;
    while i < lines.len()
        invariant
            i <= lines@.len(),
            w > 0,
            strings_view(lines@) == text_lines_spec(text@),
            hs == lines_heights(text_lines_spec(text@), w),
            hs.len() == lines@.len(),
            h as nat == sum_nats(hs.take(i as int)),
        decreases lines@.len() - i,
    {
        let lh = wrapped_height(lines[i].as_str(), w);
        proof {
            lemma_sum_nats_prefix(hs, i as int);
            assert(lines@[i as int]@ == text_lines_spec(text@)[i as int]);
        }
        match h.checked_add(lh) {
            Some(next) => h = next,
            None => return None,
        }
        i = i + 1;
    }
    proof {
        assert(hs.take(lines@.len() as int) =~= hs);
    }
    Some(h)
}

/// Counts the rows of the transcript at a render width, as
/// `transcript_line_count_spec` describes, or `None` when the count
/// exceeds `usize::MAX`.
pub fn checked_transcript_line_count(state: &AppState, width: u16) -> (count: Option<usize>)
    ensures
        match count {
            Some(c) => c as nat == transcript_line_count_spec(state@.transcript, width),
            None => transcript_line_count_spec(state@.transcript, width) > usize::MAX,
        },
{
    let n = state.transcript.len();
    if n == 0 {
        return Some(1);
    }
    let w: usize = if width < 1 { 1 } else { width as usize };
    let ghost es = state@.transcript;
    let ghost hs = entries_heights(es, w);
    let mut count: usize = n - 1;
    let mut i: usize = 0;
    while i < n
        invariant
            n == es.len(),
            n >= 1,
            i <= n,
            es == state@.transcript,
            w == render_columns(width),
            w <= 65535,
            hs == entries_heights(es, w),
            count as nat == (n - 1) as nat + sum_nats(hs.take(i as int)),
        decreases n - i,
    {
        let entry = &state.transcript[i];
        proof {
            lemma_sum_nats_prefix(hs, i as int);
            assert(entry@ == es[i as int]);
        }
        let rows = if is_conversation(entry.kind) {
            conversation_lines(entry.text.as_str(), w as u16).len()
        } else {
            let label_rows = wrapped_height(entry.label.as_str(), w);
            let text_rows = if entry.text.as_str().is_empty() {
                1
            } else {
                match text_rows_height(entry.text.as_str(), w) {
                    Some(t) => t,
                    None => return None,
                }
            };
            match label_rows.checked_add(text_rows) {
                Some(r) => r,
                None => return None,
            }
        };
        match count.checked_add(rows) {
            Some(c) => count = c,
            None => return None,
        }
        i = i + 1;
    }
    proof {
        assert(hs.take(n as int) =~= hs);
    }
    Some(count)
}

/// Counts the rows of the transcript at a render width, as
/// `transcript_line_count_spec` describes.
pub fn transcript_line_count(state: &AppState, width: u16) -> (count: usize)
    requires
        transcript_line_count_spec(state@.transcript, width) <= usize::MAX,
    ensures
        count as nat == transcript_line_count_spec(state@.transcript, width),
{
    match checked_transcript_line_count(state, width) {
        Some(c) => c,
        None => 0,
    }
}

pub open spec fn styled_rows(rows: Seq<Seq<char>>, style: Style) -> Seq<Seq<SpanView>> {
    Seq::new(rows.len(), |k: int| seq![SpanView { content: rows[k], style }])
}

/// The rows an entry shows: message bubbles in the entry's style, or a bold
/// label row, one row per text line and a blank row for empty text.
pub open spec fn entry_lines_spec(e: EntryView, width: u16, no_color: bool) -> Seq<Seq<SpanView>> {
    let style = entry_style_spec(e.kind, no_color);
    if e.kind == EntryKind::User || e.kind == EntryKind::Assistant {
        styled_rows(conversation_rows(e.text, width), style)
    } else {
        seq![seq![SpanView { content: e.label, style: style.add_modifier_spec(bold_spec()) }]]
            + styled_rows(text_lines_spec(e.text), style)
            + if e.text.len() == 0 { seq![Seq::<SpanView>::empty()] } else { Seq::empty() }
    }
}

/// The rows of the transcript, with a blank row between entries.
pub open spec fn transcript_lines_spec(es: Seq<EntryView>, width: u16, no_color: bool) -> Seq<Seq<SpanView>>
    decreases es.len(),
{
    if es.len() == 0 {
        Seq::empty()
    } else {
        transcript_lines_spec(es.drop_last(), width, no_color)
            + (if es.len() > 1 { seq![Seq::<SpanView>::empty()] } else { Seq::empty() })
            + entry_lines_spec(es.last(), width, no_color)
    }
}

fn push_styled_rows(out: &mut Vec<Line>, rows: &Vec<String>, style: Style)
    ensures
        lines_view(final(out)@) == lines_view(old(out)@) + styled_rows(strings_view(rows@), style),
{
    let mut i: usize = 0;
    while i < rows.len()
        invariant
            i <= rows@.len(),
            lines_view(out@) == lines_view(old(out)@) + styled_rows(strings_view(rows@), style).take(i as int),
        decreases rows@.len() - i,
    {
        let ghost o0 = out@;
        let mut spans: Vec<Span> = Vec::new();
        spans.push(Span::styled(rows[i].clone(), style));
        out.push(Line::from_spans(spans));
        proof {
            assert(spans_view(spans@) =~= seq![SpanView { content: rows@[i as int]@, style }]);
            assert(lines_view(out@) =~= lines_view(o0).push(styled_rows(strings_view(rows@), style)[i as int]));
            assert(styled_rows(strings_view(rows@), style).take(i + 1)
                =~= styled_rows(strings_view(rows@), style).take(i as int).push(styled_rows(strings_view(rows@), style)[i as int]));
        }
        i = i + 1;
    }
    proof {
        assert(styled_rows(strings_view(rows@), style).take(rows@.len() as int) =~= styled_rows(strings_view(rows@), style));
    }
}

fn entry_lines(entry: &crate::transcript::TranscriptEntry, width: u16, state: &AppState, out: &mut Vec<Line>)
    ensures
        lines_view(final(out)@) == lines_view(old(out)@) + entry_lines_spec(entry@, width, state.no_color),
{
    let style = entry_style(entry.kind, state);
    if is_conversation(entry.kind) {
        let rows = conversation_lines(entry.text.as_str(), width);
        push_styled_rows(out, &rows, style);
    } else {
        let ghost o0 = out@;
        let mut spans: Vec<Span> = Vec::new();
        spans.push(Span::styled(entry.label.clone(), style.add_modifier(Modifiers::bold())));
        out.push(Line::from_spans(spans));
        proof {
            assert(spans_view(spans@) =~= seq![SpanView { content: entry.label@, style: style.add_modifier_spec(bold_spec()) }]);
            assert(lines_view(out@) =~= lines_view(o0) + seq![seq![SpanView { content: entry.label@, style: style.add_modifier_spec(bold_spec()) }]]);
        }
        let rows = text_lines(entry.text.as_str());
        push_styled_rows(out, &rows, style);
        if entry.text.as_str().is_empty() {
            let ghost o1 = out@;
            out.push(Line { spans: Vec::new() });
            proof {
                assert(spans_view(Seq::<Span>::empty()) =~= Seq::<SpanView>::empty());
                assert(lines_view(out@) =~= lines_view(o1) + seq![Seq::<SpanView>::empty()]);
            }
        }
        proof {
            assert(lines_view(out@) =~= lines_view(o0) + entry_lines_spec(entry@, width, state.no_color));
        }
    }
}

/// The rows of the transcript at a render width, as
/// `transcript_lines_spec` describes.
pub fn transcript_lines(state: &AppState, width: u16) -> (lines: Vec<Line>)
    ensures
        lines_view(lines@) == transcript_lines_spec(state@.transcript, width, state.no_color),
{
    let mut lines: Vec<Line> = Vec::new();
    let mut i: usize = 0;
    let ghost es = state@.transcript;
    while i < state.transcript.len()
        invariant
            i <= es.len(),
            es == state@.transcript,
            lines_view(lines@) == transcript_lines_spec(es.take(i as int), width, state.no_color),
        decreases es.len() - i,
    {
        let ghost l0 = lines@;
        if i > 0 {
            lines.push(Line { spans: Vec::new() });
            proof {
                assert(spans_view(Seq::<Span>::empty()) =~= Seq::<SpanView>::empty());
                assert(lines_view(lines@) =~= lines_view(l0) + seq![Seq::<SpanView>::empty()]);
            }
        } else {
            proof {
                assert(lines_view(lines@) =~= lines_view(l0) + Seq::<Seq<SpanView>>::empty());
            }
        }
        entry_lines(&state.transcript[i], width, state, &mut lines);
        proof {
            assert(es.take(i + 1).drop_last() =~= es.take(i as int));
            assert(es.take(i + 1).last() == state.transcript@[i as int]@);
            assert(lines_view(lines@) =~= transcript_lines_spec(es.take(i + 1), width, state.no_color));
        }
        i = i + 1;
    }
    proof {
        assert(es.take(es.len() as int) =~= es);
    }
    lines
}

} // verus!

verus! {

/// The key hints of the footer: for the approval dialog, for a running
/// turn, or for the composer (a longer list from 70 columns on).
pub open spec fn footer_hints_spec(approval_pending: bool, busy: bool, width: u16) -> Seq<char> {
    if approval_pending {
        " y allow once · a always allow · n/esc deny "@
    } else if busy {
        " Ctrl+C stop · PgUp/PgDn scroll "@
    } else if width >= 70 {
        " Enter send · Shift+Enter newline · / commands · Tab complete · Ctrl+C quit "@
    } else {
        " Enter send · / commands · Ctrl+C quit "@
    }
}

/// The status word: a spinner frame while busy, `ready` otherwise.
pub open spec fn footer_status_spec(busy: bool, frame: usize) -> Seq<char> {
    if !busy {
        "ready"@
    } else if frame == 1 {
        "••"@
    } else if frame == 2 {
        "•••"@
    } else if frame == 3 {
        "••"@
    } else {
        "·"@
    }
}

pub open spec fn footer_metadata_spec(provider: Seq<char>, model: Seq<char>, status: Seq<char>, cwd: Seq<char>) -> Seq<char> {
    " AionCLI · "@ + provider + " · "@ + model + " · "@ + status + " · "@ + compact_cwd_spec(cwd) + " "@
}

pub open spec fn footer_session_spec(session_id: Option<Seq<char>>) -> Seq<char> {
    " session "@ + match session_id {
        Some(id) => id,
        None => "new"@,
    } + " "@
}

/// The three footer rows: key hints, then provider, model, status and
/// working directory, then the session.
pub struct Footer {
    pub hints: String,
    pub metadata: String,
    pub session: String,
}

pub fn footer(state: &AppState, width: u16) -> (f: Footer)
    ensures
        f.hints@ == footer_hints_spec(state.approval is Some, state.busy, width),
        f.metadata@ == footer_metadata_spec(
            state.provider@,
            state.model@,
            footer_status_spec(state.busy, state.spinner_frame),
            state.cwd@,
        ),
        f.session@ == footer_session_spec(match state.session_id {
            Some(id) => Some(id@),
            None => None,
        }),
{
    let hints = if state.approval.is_some() {
        copy_chars(" y allow once · a always allow · n/esc deny ")
    } else if state.busy {
        copy_chars(" Ctrl+C stop · PgUp/PgDn scroll ")
    } else if width >= 70 {
        copy_chars(" Enter send · Shift+Enter newline · / commands · Tab complete · Ctrl+C quit ")
    } else {
        copy_chars(" Enter send · / commands · Ctrl+C quit ")
    };
    let status = if !state.busy {
        copy_chars("ready")
    } else if state.spinner_frame == 1 {
        copy_chars("••")
    } else if state.spinner_frame == 2 {
        copy_chars("•••")
    } else if state.spinner_frame == 3 {
        copy_chars("••")
    } else {
        copy_chars("·")
    };
    let mut metadata = copy_chars(" AionCLI · ");
    metadata.append(state.provider.as_str());
    metadata.append(" · ");
    metadata.append(state.model.as_str());
    metadata.append(" · ");
    metadata.append(status.as_str());
    metadata.append(" · ");
    let cwd = compact_cwd(state.cwd.as_str());
    metadata.append(cwd.as_str());
    metadata.append(" ");
    let mut session = copy_chars(" session ");
    match &state.session_id {
        Some(id) => session.append(id.as_str()),
        None => session.append("new"),
    }
    session.append(" ");
    Footer { hints, metadata, session }
}

/// `s` padded with spaces to at least `n` characters, as `{:<n}` formats.
pub open spec fn pad_right(s: Seq<char>, n: nat) -> Seq<char> {
    s + spaces_seq(if s.len() < n { (n - s.len()) as nat } else { 0 })
}

/// A popup row before filling: a selection marker, the command name padded
/// to twelve characters after a slash, and its description.
pub open spec fn popup_text_spec(selected: bool, name: Seq<char>, description: Seq<char>) -> Seq<char> {
    (if selected { "›"@ } else { " "@ }) + " /"@ + pad_right(name, 12) + " "@ + description
}

/// A popup row filled with spaces to the popup width.
pub open spec fn popup_line_spec(selected: bool, name: Seq<char>, description: Seq<char>, width: u16) -> Seq<char> {
    let text = popup_text_spec(selected, name, description);
    let w = str_width(text);
    text + spaces_seq((width - if w < width { w } else { width as usize }) as nat)
}

pub fn popup_line(selected: bool, name: &str, description: &str, width: u16) -> (s: String)
    ensures
        s@ == popup_line_spec(selected, name@, description@, width),
{
    let mut line = if selected { copy_chars("›") } else { copy_chars(" ") };
    line.append(" /");
    line.append(name);
    let chars = crate::text::chars_of(name);
    if chars.len() < 12 {
        let pad = spaces(12 - chars.len());
        line.append(pad.as_str());
    } else {
        proof {
            assert(spaces_seq(0) =~= Seq::<char>::empty());
        }
    }
    line.append(" ");
    line.append(description);
    proof {
        assert(line@ =~= popup_text_spec(selected, name@, description@));
    }
    let line_width = str_display_width(line.as_str());
    let used = if line_width < width as usize { line_width } else { width as usize };
    let fill = spaces(width as usize - used);
    line.append(fill.as_str());
    line
}

pub open spec fn all_white_space(s: Seq<char>) -> bool {
    forall|i: int| 0 <= i < s.len() ==> crate::text::is_white_space(#[trigger] s[i])
}

/// The approval dialog's text: the tool name, its description (or a
/// default request when blank) and its input, separated by blank lines.
pub open spec fn approval_text_spec(name: Seq<char>, description: Seq<char>, input: Seq<char>) -> Seq<char> {
    let shown = if all_white_space(description) { "This tool needs your approval."@ } else { description };
    name + "\n\n"@ + shown + "\n\n"@ + input
}

/// Whether every character is whitespace (so `trim` leaves nothing).
pub fn is_blank(s: &str) -> (b: bool)
    ensures
        b == all_white_space(s@),
{
    for c in it: s.chars()
        invariant
            it.seq() == s@,
            forall|i: int| 0 <= i < it.index() ==> crate::text::is_white_space(#[trigger] s@[i]),
    {
        if !crate::text::char_is_whitespace(c) {
            proof {
                assert(s@[it.index() as int] == c);
            }
            return false;
        }
    }
    true
}

pub fn approval_text(request: &crate::state::ApprovalRequest) -> (s: String)
    ensures
        s@ == approval_text_spec(request.name@, request.description@, request.input@),
{
    let mut s = request.name.clone();
    s.append("\n\n");
    if is_blank(request.description.as_str()) {
        s.append("This tool needs your approval.");
    } else {
        s.append(request.description.as_str());
    }
    s.append("\n\n");
    s.append(request.input.as_str());
    s
}

} // verus!

verus! {

/// How the composer is drawn.
#[derive(Clone, Copy, Debug, PartialEq, Eq, Structural)]
pub struct ComposerLayout {
    /// The placeholder prompt shows instead of the (empty) text.
    pub placeholder: bool,
    /// Rows the text is scrolled up so that the cursor row stays visible.
    pub vertical_scroll: u16,
    /// Whether the terminal cursor is placed in the composer.
    pub show_cursor: bool,
}

/// The placeholder shows when the composer is empty and no turn runs; the
/// text scrolls so that the cursor's row is the last visible one at most;
/// the cursor shows when no turn runs and no approval is pending.
pub fn composer_layout(text_is_empty: bool, busy: bool, approval_pending: bool, cursor_row: u16, inner_height: u16) -> (l: ComposerLayout)
    ensures
        l.placeholder == (text_is_empty && !busy),
        l.vertical_scroll == cursor_row.saturating_sub(inner_height.saturating_sub(1)),
        l.show_cursor == (!busy && !approval_pending),
{
    ComposerLayout {
        placeholder: text_is_empty && !busy,
        vertical_scroll: cursor_row.saturating_sub(inner_height.saturating_sub(1)),
        show_cursor: !busy && !approval_pending,
    }
}

/// The placeholder prompt of an empty composer.
pub fn composer_placeholder() -> (s: String)
    ensures
        s@ == "Type a message…"@,
{
    copy_chars("Type a message…")
}

/// The hint of an empty transcript.
pub fn welcome_hint() -> (s: String)
    ensures
        s@ == "Ask about this project, or type / to see commands."@,
{
    copy_chars("Ask about this project, or type / to see commands.")
}

/// The message of a terminal that is too small.
pub fn too_small_message() -> (s: String)
    ensures
        s@ == "Terminal too small\nResize to at least 22×8"@,
{
    copy_chars("Terminal too small\nResize to at least 22×8")
}

} // verus!
