//! Styled text as the renderers produce it: lines of spans, each span a run
//! of text with one style. A terminal front end maps these onto its own types.

use vstd::prelude::*;

verus! {

/// Foreground colors the renderers use.
#[derive(Debug, Clone, Copy, PartialEq, Eq, Structural)]
pub enum Color {
    Cyan,
    Yellow,
    Green,
    Red,
    Blue,
    Magenta,
    Gray,
    DarkGray,
    White,
}

/// Text style: an optional foreground color and three modifiers.
#[derive(Debug, Clone, Copy, PartialEq, Eq, Structural)]
pub struct Style {
    pub fg: Option<Color>,
    pub bold: bool,
    pub underlined: bool,
    pub crossed_out: bool,
}

/// The style with no color and no modifier.
pub open spec fn plain_style() -> Style {
    Style { fg: None, bold: false, underlined: false, crossed_out: false }
}

impl Style {
    /// The style with no color and no modifier.
    pub fn plain() -> (r: Style)
        ensures
            r == plain_style(),
    {
        Style { fg: None, bold: false, underlined: false, crossed_out: false }
    }

    /// The same style with the given foreground color.
    pub fn with_fg(self, c: Color) -> (r: Style)
        ensures
            r == (Style { fg: Some(c), ..self }),
    {
        Style { fg: Some(c), ..self }
    }
}

/// A run of text in one style.
#[derive(Debug, Clone)]
pub struct Span {
    pub content: String,
    pub style: Style,
}

/// One output line: its spans, in order. A line without spans is blank.
#[derive(Debug, Clone)]
pub struct Line {
    pub spans: Vec<Span>,
}

/// The text of a line, spans joined.
pub open spec fn line_text(spans: Seq<Span>) -> Seq<char>
    decreases spans.len(),
{
    if spans.len() == 0 {
        Seq::empty()
    } else {
        line_text(spans.drop_last()) + spans.last().content@
    }
}

} // verus!
