//! Styled text, independent of the terminal library that paints it.

use vstd::prelude::*;
use vstd::string::*;

verus! {

#[derive(Clone, Copy, Debug, PartialEq, Eq)]
pub enum Color {
    Rgb(u8, u8, u8),
    DarkGray,
    Gray,
    Cyan,
    Green,
    LightCyan,
    LightBlue,
    LightMagenta,
}

/// A foreground colour, where there is one, and the modifiers that are added.
#[derive(Clone, Copy, Debug, PartialEq, Eq)]
pub struct Style {
    pub fg: Option<Color>,
    pub bold: bool,
    pub italic: bool,
    pub underlined: bool,
}

/// The style that changes nothing.
pub open spec fn no_style() -> Style {
    Style { fg: None, bold: false, italic: false, underlined: false }
}

/// The style that only sets the foreground.
pub open spec fn colored(c: Color) -> Style {
    Style { fg: Some(c), bold: false, italic: false, underlined: false }
}

/// `base` with `over` laid on top: its colour wins, its modifiers are added.
pub open spec fn patched(base: Style, over: Style) -> Style {
    Style {
        fg: if over.fg is Some {
            over.fg
        } else {
            base.fg
        },
        bold: base.bold || over.bold,
        italic: base.italic || over.italic,
        underlined: base.underlined || over.underlined,
    }
}

impl Style {
    pub fn plain() -> (r: Style)
        ensures
            r == no_style(),
    {
        Style { fg: None, bold: false, italic: false, underlined: false }
    }

    pub fn color(c: Color) -> (r: Style)
        ensures
            r == colored(c),
    {
        Style { fg: Some(c), bold: false, italic: false, underlined: false }
    }

    pub fn patch(self, over: Style) -> (r: Style)
        ensures
            r == patched(self, over),
    {
        Style {
            fg: match over.fg {
                Some(c) => Some(c),
                None => self.fg,
            },
            bold: self.bold || over.bold,
            italic: self.italic || over.italic,
            underlined: self.underlined || over.underlined,
        }
    }
}

/// A stretch of text in one style.
#[derive(Debug)]
pub struct Span {
    pub content: String,
    pub style: Style,
}

#[verifier::ext_equal]
pub struct SpanView {
    pub content: Seq<char>,
    pub style: Style,
}

impl View for Span {
    type V = SpanView;

    open spec fn view(&self) -> SpanView {
        SpanView { content: self.content@, style: self.style }
    }
}

impl Clone for Span {
    fn clone(&self) -> (r: Span)
        ensures
            r == *self,
    {
        Span { content: self.content.clone(), style: self.style }
    }
}

impl Span {
    pub fn styled(content: String, style: Style) -> (r: Span)
        ensures
            r@ == (SpanView { content: content@, style }),
    {
        Span { content, style }
    }

    pub fn raw(content: String) -> (r: Span)
        ensures
            r@ == (SpanView { content: content@, style: no_style() }),
    {
        Span { content, style: Style::plain() }
    }
}

pub open spec fn span_views(v: Seq<Span>) -> Seq<SpanView> {
    v.map_values(|s: Span| s@)
}

/// One line: its spans, and the style that the spans are painted over.
#[derive(Debug)]
pub struct Line {
    pub spans: Vec<Span>,
    pub style: Style,
}

#[verifier::ext_equal]
pub struct LineView {
    pub spans: Seq<SpanView>,
    pub style: Style,
}

impl View for Line {
    type V = LineView;

    open spec fn view(&self) -> LineView {
        LineView { spans: span_views(self.spans@), style: self.style }
    }
}

pub open spec fn line_views(v: Seq<Line>) -> Seq<LineView> {
    v.map_values(|l: Line| l@)
}

impl Line {
    pub fn of(spans: Vec<Span>) -> (r: Line)
        ensures
            r@ == (LineView { spans: span_views(spans@), style: no_style() }),
    {
        Line { spans, style: Style::plain() }
    }

    /// A line that holds one span.
    pub fn single(span: Span) -> (r: Line)
        ensures
            r@ == (LineView { spans: seq![span@], style: no_style() }),
    {
        let mut spans: Vec<Span> = Vec::new();
        spans.push(span);
        assert(span_views(spans@) =~= seq![span@]);
        Line::of(spans)
    }

    pub fn copy(&self) -> (r: Line)
        ensures
            r@ == self@,
    {
        let mut spans: Vec<Span> = Vec::new();
        let mut i: usize = 0;
        while i < self.spans.len()
            invariant
                i <= self.spans@.len(),
                spans@ == self.spans@.take(i as int),
            decreases self.spans@.len() - i,
        {
            spans.push(self.spans[i].clone());
            assert(self.spans@.take(i as int + 1) =~= self.spans@.take(i as int).push(
                self.spans@[i as int],
            ));
            i += 1;
        }
        assert(self.spans@.take(self.spans@.len() as int) =~= self.spans@);
        Line { spans, style: self.style }
    }
}

}  // verus!
