//! Colors, styles and styled lines.

use vstd::prelude::*;

use crate::views;

verus! {

/// A terminal color.
#[derive(Clone, Copy, Debug, PartialEq, Eq)]
pub enum Color {
    Reset,
    Black,
    Red,
    Green,
    Yellow,
    Blue,
    Magenta,
    Cyan,
    Gray,
    DarkGray,
    LightRed,
    LightGreen,
    LightYellow,
    LightBlue,
    LightMagenta,
    LightCyan,
    White,
    Rgb(u8, u8, u8),
    Indexed(u8),
}

/// What drawing changes of a cell's look; `None` leaves it as it is.
#[derive(Clone, Copy, Debug, PartialEq, Eq)]
pub struct Style {
    pub fg: Option<Color>,
    pub bg: Option<Color>,
    pub bold: Option<bool>,
    pub dim: Option<bool>,
}

impl Style {
    /// The style that changes nothing.
    #[verifier::allow_in_spec]
    pub fn plain() -> Style
        returns
            (Style { fg: None, bg: None, bold: None, dim: None }),
    {
        Style { fg: None, bg: None, bold: None, dim: None }
    }

    /// `self` with the foreground `color`.
    #[verifier::allow_in_spec]
    pub fn fg(self, color: Color) -> Style
        returns
            (Style { fg: Some(color), bg: self.bg, bold: self.bold, dim: self.dim }),
    {
        Style { fg: Some(color), bg: self.bg, bold: self.bold, dim: self.dim }
    }

    /// `self` with the background `color`.
    #[verifier::allow_in_spec]
    pub fn bg(self, color: Color) -> Style
        returns
            (Style { fg: self.fg, bg: Some(color), bold: self.bold, dim: self.dim }),
    {
        Style { fg: self.fg, bg: Some(color), bold: self.bold, dim: self.dim }
    }

    /// `self` with bold switched on or off.
    #[verifier::allow_in_spec]
    pub fn bold(self, on: bool) -> Style
        returns
            (Style { fg: self.fg, bg: self.bg, bold: Some(on), dim: self.dim }),
    {
        Style { fg: self.fg, bg: self.bg, bold: Some(on), dim: self.dim }
    }

    /// `self` with dim switched on or off.
    #[verifier::allow_in_spec]
    pub fn dim(self, on: bool) -> Style
        returns
            (Style { fg: self.fg, bg: self.bg, bold: self.bold, dim: Some(on) }),
    {
        Style { fg: self.fg, bg: self.bg, bold: self.bold, dim: Some(on) }
    }
}

/// The colors that the panels draw with.
#[derive(Clone, Copy, Debug, PartialEq, Eq)]
pub struct Palette {
    pub accent: Color,
    pub text: Color,
    pub subtext0: Color,
    pub overlay0: Color,
    pub overlay1: Color,
    pub surface0: Color,
    pub surface1: Color,
    pub surface_dim: Color,
    pub red: Color,
    pub green: Color,
    pub yellow: Color,
    pub blue: Color,
    pub mauve: Color,
}

/// A piece of text in one style.
#[derive(Debug, PartialEq, Eq)]
pub struct Span {
    pub content: String,
    pub style: Style,
}

/// A [`Span`] by the characters that it shows.
pub struct SpanView {
    pub content: Seq<char>,
    pub style: Style,
}

impl View for Span {
    type V = SpanView;

    open spec fn view(&self) -> SpanView {
        SpanView { content: self.content@, style: self.style }
    }
}

/// The piece of `content` in `style`.
pub open spec fn span(content: Seq<char>, style: Style) -> SpanView {
    SpanView { content, style }
}

impl Span {
    /// The piece of `content` in `style`.
    pub fn styled(content: String, style: Style) -> (out: Span)
        ensures
            out@ == span(content@, style),
    {
        Span { content, style }
    }
}

/// A line of styled pieces.
#[derive(Debug, PartialEq, Eq)]
pub struct Line {
    pub spans: Vec<Span>,
}

impl View for Line {
    type V = Seq<SpanView>;

    open spec fn view(&self) -> Seq<SpanView> {
        views::of(self.spans@)
    }
}

impl Line {
    /// The line without a piece.
    pub fn empty() -> (out: Line)
        ensures
            out@ == Seq::<SpanView>::empty(),
    {
        let out = Line { spans: Vec::new() };
        assert(out@ =~= Seq::<SpanView>::empty());
        out
    }

    /// The line of one piece.
    pub fn of(content: String, style: Style) -> (out: Line)
        ensures
            out@ == seq![span(content@, style)],
    {
        let mut spans: Vec<Span> = Vec::new();
        spans.push(Span::styled(content, style));
        let out = Line { spans };
        assert(out@ =~= seq![span(content@, style)]);
        out
    }
}

} // verus!
