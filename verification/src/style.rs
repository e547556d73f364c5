//! Styled text: what the terminal shows, as runs of text each with one look.

use vstd::prelude::*;

verus! {

/// A foreground colour of the terminal.
#[derive(Clone, Copy, Debug, PartialEq, Eq)]
pub enum Color {
    /// The terminal's own colour.
    Plain,
    Red,
    Green,
    Blue,
    Yellow,
    Cyan,
    BrightRed,
    BrightGreen,
    BrightPurple,
}

/// How a run of text looks.
#[derive(Clone, Copy, Debug, PartialEq, Eq)]
pub struct Style {
    pub color: Color,
    pub bold: bool,
    pub italic: bool,
    pub underline: bool,
    pub blink: bool,
    pub dimmed: bool,
}

/// A run of text with its look.
#[derive(Debug)]
pub struct Segment {
    pub text: String,
    pub style: Style,
}

impl View for Segment {
    type V = (Seq<char>, Style);

    open spec fn view(&self) -> (Seq<char>, Style) {
        (self.text@, self.style)
    }
}

/// The runs of `segments`, as text and look.
pub open spec fn runs(segments: Seq<Segment>) -> Seq<(Seq<char>, Style)> {
    segments.map_values(|s: Segment| s@)
}

/// The look with the given colour and attributes.
pub open spec fn look(color: Color, bold: bool, italic: bool, underline: bool, blink: bool, dimmed: bool) -> Style {
    Style { color, bold, italic, underline, blink, dimmed }
}

pub open spec fn plain() -> Style {
    look(Color::Plain, false, false, false, false, false)
}

pub open spec fn colored(color: Color) -> Style {
    look(color, false, false, false, false, false)
}

pub open spec fn bold(color: Color) -> Style {
    look(color, true, false, false, false, false)
}

pub open spec fn italic(color: Color) -> Style {
    look(color, false, true, false, false, false)
}

pub open spec fn underlined(color: Color) -> Style {
    look(color, false, false, true, false, false)
}

/// The look with the given colour and attributes.
pub fn make_look(color: Color, bold: bool, italic: bool, underline: bool, blink: bool, dimmed: bool) -> (r: Style)
    ensures
        r == look(color, bold, italic, underline, blink, dimmed),
{
    Style { color, bold, italic, underline, blink, dimmed }
}

/// A run made of a copy of `text`.
pub fn run_of(text: &str, style: Style) -> (r: Segment)
    ensures
        r@ == (text@, style),
{
    Segment { text: String::from_str(text), style }
}

/// A run made of `text`.
pub fn run_owned(text: String, style: Style) -> (r: Segment)
    ensures
        r@ == (text@, style),
{
    Segment { text, style }
}

} // verus!
