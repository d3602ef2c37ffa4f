//! Terminal styling: colors, text modifiers, styles and styled spans.
//!
//! `Style::add_modifier` follows the terminal model used by the front end: a
//! style keeps the modifiers it adds and the ones it removes, and adding a
//! modifier takes it out of the removed set.

use vstd::prelude::*;

verus! {

/// Foreground or background color of a cell.
#[derive(Clone, Copy, Debug, PartialEq, Eq, Structural)]
pub enum Color {
    Reset,
    Black,
    Red,
    Green,
    Yellow,
    Blue,
    Magenta,
    Cyan,
    Gray,
    DarkGray,
    LightRed,
    LightGreen,
    LightYellow,
    LightBlue,
    LightMagenta,
    LightCyan,
    White,
    Rgb(u8, u8, u8),
    Indexed(u8),
}

/// A set of text modifiers.
#[derive(Clone, Copy, Debug, PartialEq, Eq, Structural)]
pub struct Modifiers {
    pub bold: bool,
    pub dim: bool,
    pub italic: bool,
    pub underlined: bool,
    pub slow_blink: bool,
    pub rapid_blink: bool,
    pub reversed: bool,
    pub hidden: bool,
    pub crossed_out: bool,
}

impl Modifiers {
    pub open spec fn none() -> Modifiers {
        Modifiers {
            bold: false,
            dim: false,
            italic: false,
            underlined: false,
            slow_blink: false,
            rapid_blink: false,
            reversed: false,
            hidden: false,
            crossed_out: false,
        }
    }

    /// Every modifier of `self` together with every modifier of `other`.
    pub open spec fn union_spec(self, other: Modifiers) -> Modifiers {
        Modifiers {
            bold: self.bold || other.bold,
            dim: self.dim || other.dim,
            italic: self.italic || other.italic,
            underlined: self.underlined || other.underlined,
            slow_blink: self.slow_blink || other.slow_blink,
            rapid_blink: self.rapid_blink || other.rapid_blink,
            reversed: self.reversed || other.reversed,
            hidden: self.hidden || other.hidden,
            crossed_out: self.crossed_out || other.crossed_out,
        }
    }

    /// The modifiers of `self` that are not in `other`.
    pub open spec fn minus_spec(self, other: Modifiers) -> Modifiers {
        Modifiers {
            bold: self.bold && !other.bold,
            dim: self.dim && !other.dim,
            italic: self.italic && !other.italic,
            underlined: self.underlined && !other.underlined,
            slow_blink: self.slow_blink && !other.slow_blink,
            rapid_blink: self.rapid_blink && !other.rapid_blink,
            reversed: self.reversed && !other.reversed,
            hidden: self.hidden && !other.hidden,
            crossed_out: self.crossed_out && !other.crossed_out,
        }
    }

    /// The empty set.
    pub fn empty() -> (m: Modifiers)
        ensures
            m == Modifiers::none(),
    {
        Modifiers {
            bold: false,
            dim: false,
            italic: false,
            underlined: false,
            slow_blink: false,
            rapid_blink: false,
            reversed: false,
            hidden: false,
            crossed_out: false,
        }
    }

    pub fn union(self, other: Modifiers) -> (m: Modifiers)
        ensures
            m == self.union_spec(other),
    {
        Modifiers {
            bold: self.bold || other.bold,
            dim: self.dim || other.dim,
            italic: self.italic || other.italic,
            underlined: self.underlined || other.underlined,
            slow_blink: self.slow_blink || other.slow_blink,
            rapid_blink: self.rapid_blink || other.rapid_blink,
            reversed: self.reversed || other.reversed,
            hidden: self.hidden || other.hidden,
            crossed_out: self.crossed_out || other.crossed_out,
        }
    }

    pub fn minus(self, other: Modifiers) -> (m: Modifiers)
        ensures
            m == self.minus_spec(other),
    {
        Modifiers {
            bold: self.bold && !other.bold,
            dim: self.dim && !other.dim,
            italic: self.italic && !other.italic,
            underlined: self.underlined && !other.underlined,
            slow_blink: self.slow_blink && !other.slow_blink,
            rapid_blink: self.rapid_blink && !other.rapid_blink,
            reversed: self.reversed && !other.reversed,
            hidden: self.hidden && !other.hidden,
            crossed_out: self.crossed_out && !other.crossed_out,
        }
    }

    pub fn bold() -> (m: Modifiers)
        ensures
            m == (Modifiers { bold: true, ..Modifiers::none() }),
    {
        Modifiers { bold: true, ..Modifiers::empty() }
    }

    pub fn italic() -> (m: Modifiers)
        ensures
            m == (Modifiers { italic: true, ..Modifiers::none() }),
    {
        Modifiers { italic: true, ..Modifiers::empty() }
    }

    pub fn reversed() -> (m: Modifiers)
        ensures
            m == (Modifiers { reversed: true, ..Modifiers::none() }),
    {
        Modifiers { reversed: true, ..Modifiers::empty() }
    }
}

/// Colors and modifiers of a piece of text; `None` colors inherit.
#[derive(Clone, Copy, Debug, PartialEq, Eq, Structural)]
pub struct Style {
    pub fg: Option<Color>,
    pub bg: Option<Color>,
    pub add_modifier: Modifiers,
    pub sub_modifier: Modifiers,
}

impl Style {
    /// The style that sets nothing.
    pub open spec fn plain_spec() -> Style {
        Style { fg: None, bg: None, add_modifier: Modifiers::none(), sub_modifier: Modifiers::none() }
    }

    /// `self` with the modifiers `m` added and no longer removed.
    pub open spec fn add_modifier_spec(self, m: Modifiers) -> Style {
        Style {
            add_modifier: self.add_modifier.union_spec(m),
            sub_modifier: self.sub_modifier.minus_spec(m),
            ..self
        }
    }

    pub fn plain() -> (s: Style)
        ensures
            s == Style::plain_spec(),
    {
        Style { fg: None, bg: None, add_modifier: Modifiers::empty(), sub_modifier: Modifiers::empty() }
    }

    pub fn fg(self, color: Color) -> (s: Style)
        ensures
            s == (Style { fg: Some(color), ..self }),
    {
        Style { fg: Some(color), ..self }
    }

    pub fn bg(self, color: Color) -> (s: Style)
        ensures
            s == (Style { bg: Some(color), ..self }),
    {
        Style { bg: Some(color), ..self }
    }

    pub fn add_modifier(self, m: Modifiers) -> (s: Style)
        ensures
            s == self.add_modifier_spec(m),
    {
        Style {
            add_modifier: self.add_modifier.union(m),
            sub_modifier: self.sub_modifier.minus(m),
            ..self
        }
    }
}

/// A run of text drawn in one style.
#[derive(Clone, Debug)]
pub struct Span {
    pub content: String,
    pub style: Style,
}

/// What a span shows: its characters and its style.
pub struct SpanView {
    pub content: Seq<char>,
    pub style: Style,
}

impl View for Span {
    type V = SpanView;

    open spec fn view(&self) -> SpanView {
        SpanView { content: self.content@, style: self.style }
    }
}

pub open spec fn spans_view(spans: Seq<Span>) -> Seq<SpanView> {
    Seq::new(spans.len(), |i: int| spans[i]@)
}

pub proof fn lemma_spans_view_push(spans: Seq<Span>, s: Span)
    ensures
        spans_view(spans.push(s)) == spans_view(spans).push(s@),
{
    assert(spans_view(spans.push(s)) =~= spans_view(spans).push(s@));
}

impl Span {
    pub fn styled(content: String, style: Style) -> (s: Span)
        ensures
            s@ == (SpanView { content: content@, style }),
    {
        Span { content, style }
    }

    pub fn raw(content: String) -> (s: Span)
        ensures
            s@ == (SpanView { content: content@, style: Style::plain_spec() }),
    {
        Span { content, style: Style::plain() }
    }
}

/// One terminal row: the spans drawn left to right.
#[derive(Clone, Debug)]
pub struct Line {
    pub spans: Vec<Span>,
}

impl View for Line {
    type V = Seq<SpanView>;

    open spec fn view(&self) -> Seq<SpanView> {
        spans_view(self.spans@)
    }
}

pub open spec fn lines_view(lines: Seq<Line>) -> Seq<Seq<SpanView>> {
    Seq::new(lines.len(), |i: int| lines[i]@)
}

/// The characters of a row, left to right.
pub open spec fn row_text(row: Seq<SpanView>) -> Seq<char>
    decreases row.len(),
{
    if row.len() == 0 {
        Seq::empty()
    } else {
        row_text(row.drop_last()) + row.last().content
    }
}

impl Line {
    pub fn from_spans(spans: Vec<Span>) -> (l: Line)
        ensures
            l@ == spans_view(spans@),
    {
        Line { spans }
    }

    /// The characters of the row, as one string.
    pub fn text(&self) -> (s: String)
        ensures
            s@ == row_text(self@),
    {
        let mut s = String::new();
        let mut i: usize = 0;
        while i < self.spans.len()
            invariant
                i <= self.spans@.len(),
                s@ == row_text(self@.take(i as int)),
            decreases self.spans@.len() - i,
        {
            s.append(self.spans[i].content.as_str());
            proof {
                assert(self@.take(i + 1).drop_last() =~= self@.take(i as int));
            }
            i = i + 1;
        }
        proof {
            assert(self@.take(self.spans@.len() as int) =~= self@);
        }
        s
    }
}

} // verus!
