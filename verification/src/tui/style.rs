//! Colours, styles, styled lines and the two colour schemes.

use vstd::prelude::*;
use vstd::string::*;

verus! {

/// A colour of the terminal.
#[derive(Debug, Clone, Copy, PartialEq, Eq, Structural)]
pub enum Color {
    Black,
    Red,
    Green,
    Yellow,
    Blue,
    Magenta,
    Cyan,
    Gray,
    DarkGray,
    White,
}

/// How a piece of text looks.
#[derive(Debug, Clone, Copy, PartialEq, Eq, Structural)]
pub struct Style {
    pub fg: Option<Color>,
    pub bg: Option<Color>,
    pub bold: bool,
    pub italic: bool,
    pub dim: bool,
}

/// Text as it is.
pub open spec fn plain_style() -> Style {
    Style { fg: None, bg: None, bold: false, italic: false, dim: false }
}

/// Text in a colour.
pub open spec fn in_color(c: Color) -> Style {
    Style { fg: Some(c), ..plain_style() }
}

impl Style {
    /// Text as it is.
    pub fn plain() -> (r: Style)
        ensures
            r == plain_style(),
    {
        Style { fg: None, bg: None, bold: false, italic: false, dim: false }
    }

    /// Text in a colour.
    pub fn colored(c: Color) -> (r: Style)
        ensures
            r == in_color(c),
    {
        Style { fg: Some(c), bg: None, bold: false, italic: false, dim: false }
    }
}

/// Bold text.
pub fn bold() -> (r: Style)
    ensures
        r == (Style { bold: true, ..plain_style() }),
{
    Style { fg: None, bg: None, bold: true, italic: false, dim: false }
}

/// Dim text.
pub fn dim() -> (r: Style)
    ensures
        r == (Style { dim: true, ..plain_style() }),
{
    Style { fg: None, bg: None, bold: false, italic: false, dim: true }
}

/// A piece of text in one style.
#[derive(Debug)]
pub struct Span {
    pub content: String,
    pub style: Style,
}

/// A piece with its text as a sequence.
#[verifier::ext_equal]
pub struct SpanView {
    pub content: Seq<char>,
    pub style: Style,
}

impl View for Span {
    type V = SpanView;

    open spec fn view(&self) -> SpanView {
        SpanView { content: self.content@, style: self.style }
    }
}

impl Span {
    /// A piece in a style.
    pub fn styled(content: String, style: Style) -> (r: Span)
        ensures
            r@ == (SpanView { content: content@, style }),
    {
        Span { content, style }
    }

    /// A piece as it is.
    pub fn raw(content: String) -> (r: Span)
        ensures
            r@ == raw_span(content@),
    {
        Span { content, style: Style::plain() }
    }
}

/// A piece as it is.
pub open spec fn raw_span(content: Seq<char>) -> SpanView {
    SpanView { content, style: plain_style() }
}

/// The pieces of a list.
pub open spec fn span_views(v: Seq<Span>) -> Seq<SpanView> {
    Seq::new(v.len(), |i: int| v[i]@)
}

/// A line of pieces.
#[derive(Debug)]
pub struct Line {
    pub spans: Vec<Span>,
}

impl View for Line {
    type V = Seq<SpanView>;

    open spec fn view(&self) -> Seq<SpanView> {
        span_views(self.spans@)
    }
}

/// The lines of a list.
pub open spec fn line_views(v: Seq<Line>) -> Seq<Seq<SpanView>> {
    Seq::new(v.len(), |i: int| v[i]@)
}

/// Adds the pieces of `more` at the end of `out`.
pub fn append_spans(out: &mut Vec<Span>, more: Vec<Span>)
    ensures
        span_views(final(out)@) == span_views(old(out)@) + span_views(more@),
{
    let mut rest = more;
    let ghost before = out@;
    out.append(&mut rest);
    assert(span_views(out@) == span_views(before) + span_views(more@));
}

/// A line of one piece.
pub fn line_of(span: Span) -> (r: Line)
    ensures
        r@ == seq![span@],
{
    let mut spans: Vec<Span> = Vec::new();
    spans.push(span);
    let r = Line { spans };
    assert(r@ == seq![span@]);
    r
}

/// A line of two pieces.
pub fn line_of_two(a: Span, b: Span) -> (r: Line)
    ensures
        r@ == seq![a@, b@],
{
    let mut spans: Vec<Span> = Vec::new();
    spans.push(a);
    spans.push(b);
    let r = Line { spans };
    assert(r@ == seq![a@, b@]);
    r
}

/// A colour scheme: each part of the screen has its colour by what it means.
#[derive(Debug, Clone, Copy, PartialEq, Eq, Structural)]
pub struct Theme {
    pub titlebar_bg: Color,
    pub titlebar_fg: Color,
    pub status_idle: Color,
    pub status_busy: Color,
    pub user_prefix: Color,
    pub assistant_prefix: Color,
    pub tool_prefix: Color,
    pub system_prefix: Color,
    pub tool_done: Color,
    pub tool_pending: Color,
    pub task_in_progress: Color,
    pub task_pending: Color,
    pub task_completed: Color,
    pub task_cancelled: Color,
    pub sidebar_current_bg: Color,
    pub muted: Color,
    pub md_h1: Color,
    pub md_h2: Color,
    pub md_h3: Color,
    pub md_code_border: Color,
    pub risk_low: Color,
    pub risk_medium: Color,
    pub risk_high: Color,
}

/// The scheme for dark terminals.
pub open spec fn dark_theme() -> Theme {
    Theme {
        titlebar_bg: Color::Black,
        titlebar_fg: Color::White,
        status_idle: Color::Green,
        status_busy: Color::Yellow,
        user_prefix: Color::Cyan,
        assistant_prefix: Color::Green,
        tool_prefix: Color::Magenta,
        system_prefix: Color::DarkGray,
        tool_done: Color::Green,
        tool_pending: Color::Yellow,
        task_in_progress: Color::Yellow,
        task_pending: Color::DarkGray,
        task_completed: Color::Green,
        task_cancelled: Color::Red,
        sidebar_current_bg: Color::DarkGray,
        muted: Color::DarkGray,
        md_h1: Color::Blue,
        md_h2: Color::Cyan,
        md_h3: Color::Magenta,
        md_code_border: Color::DarkGray,
        risk_low: Color::Green,
        risk_medium: Color::Yellow,
        risk_high: Color::Red,
    }
}

/// The scheme for light terminals: the dark one but for the title bar, the
/// user's name and what is grey.
pub open spec fn light_theme() -> Theme {
    Theme {
        titlebar_bg: Color::White,
        titlebar_fg: Color::Black,
        user_prefix: Color::Blue,
        system_prefix: Color::Gray,
        task_pending: Color::Gray,
        sidebar_current_bg: Color::Gray,
        muted: Color::Gray,
        md_code_border: Color::Gray,
        ..dark_theme()
    }
}

impl Theme {
    /// The scheme for dark terminals.
    pub fn dark() -> (r: Theme)
        ensures
            r == dark_theme(),
    {
        Theme {
            titlebar_bg: Color::Black,
            titlebar_fg: Color::White,
            status_idle: Color::Green,
            status_busy: Color::Yellow,
            user_prefix: Color::Cyan,
            assistant_prefix: Color::Green,
            tool_prefix: Color::Magenta,
            system_prefix: Color::DarkGray,
            tool_done: Color::Green,
            tool_pending: Color::Yellow,
            task_in_progress: Color::Yellow,
            task_pending: Color::DarkGray,
            task_completed: Color::Green,
            task_cancelled: Color::Red,
            sidebar_current_bg: Color::DarkGray,
            muted: Color::DarkGray,
            md_h1: Color::Blue,
            md_h2: Color::Cyan,
            md_h3: Color::Magenta,
            md_code_border: Color::DarkGray,
            risk_low: Color::Green,
            risk_medium: Color::Yellow,
            risk_high: Color::Red,
        }
    }

    /// The scheme for light terminals.
    pub fn light() -> (r: Theme)
        ensures
            r == light_theme(),
    {
        Theme {
            titlebar_bg: Color::White,
            titlebar_fg: Color::Black,
            status_idle: Color::Green,
            status_busy: Color::Yellow,
            user_prefix: Color::Blue,
            assistant_prefix: Color::Green,
            tool_prefix: Color::Magenta,
            system_prefix: Color::Gray,
            tool_done: Color::Green,
            tool_pending: Color::Yellow,
            task_in_progress: Color::Yellow,
            task_pending: Color::Gray,
            task_completed: Color::Green,
            task_cancelled: Color::Red,
            sidebar_current_bg: Color::Gray,
            muted: Color::Gray,
            md_h1: Color::Blue,
            md_h2: Color::Cyan,
            md_h3: Color::Magenta,
            md_code_border: Color::Gray,
            risk_low: Color::Green,
            risk_medium: Color::Yellow,
            risk_high: Color::Red,
        }
    }

    /// The status, busy or idle.
    pub fn status_indicator(&self, is_turning: bool) -> (r: Style)
        ensures
            r == in_color(
                if is_turning {
                    self.status_busy
                } else {
                    self.status_idle
                },
            ),
    {
        Style::colored(
            if is_turning {
                self.status_busy
            } else {
                self.status_idle
            },
        )
    }

    pub fn user_prefix_style(&self) -> (r: Style)
        ensures
            r == in_color(self.user_prefix),
    {
        Style::colored(self.user_prefix)
    }

    pub fn assistant_prefix_style(&self) -> (r: Style)
        ensures
            r == in_color(self.assistant_prefix),
    {
        Style::colored(self.assistant_prefix)
    }

    pub fn tool_prefix_style(&self) -> (r: Style)
        ensures
            r == in_color(self.tool_prefix),
    {
        Style::colored(self.tool_prefix)
    }

    pub fn system_prefix_style(&self) -> (r: Style)
        ensures
            r == in_color(self.system_prefix),
    {
        Style::colored(self.system_prefix)
    }

    /// The mark of a tool call, done or under way.
    pub fn tool_mark_style(&self, done: bool) -> (r: Style)
        ensures
            r == in_color(
                if done {
                    self.tool_done
                } else {
                    self.tool_pending
                },
            ),
    {
        Style::colored(
            if done {
                self.tool_done
            } else {
                self.tool_pending
            },
        )
    }
}

impl Default for Theme {
    fn default() -> (r: Theme)
        ensures
            r == dark_theme(),
    {
        Theme::dark()
    }
}

} // verus!
