//! What each part of the screen shows, as styled lines.

use vstd::prelude::*;
use vstd::string::*;
use crate::task::model::{task_views, Task, TaskStatus, TaskView};
use crate::task::store::selected;
use crate::text::chars::{from_chars, push_text, same, sub_chars, to_chars};
use crate::text::number::{decimal, show_usize};
use crate::text::pick::{lemma_picks_none, lemma_picks_step, picks};
use crate::text::search::{index_from, lemma_index_from};
use crate::text::split::{char_views, join, joined, lines, split_lines, views};
use crate::tui::app::{
    rows_shown, session_views, App, AppView, SessionItem, SessionView, SIDEBAR_ROWS,
};
use crate::tui::event::{
    chat_views, ChatLine, ChatLineView, PermissionPrompt, PromptOption, PromptView, Risk,
};
use crate::tui::markdown::{markdown, parse_markdown};
use crate::tui::style::{
    append_spans, dim, in_color, line_of, line_of_two, line_views, plain_style, raw_span,
    span_views, Color, Line, Span, SpanView, Style, Theme,
};
use crate::tui::time::{ago, relative_time_at};

verus! {

/// A piece in a colour.
pub open spec fn tinted(content: Seq<char>, c: Color) -> SpanView {
    SpanView { content, style: in_color(c) }
}

/// Markdown with the assistant's name in front of its first line.
pub open spec fn named(md: Seq<Seq<SpanView>>) -> Seq<Seq<SpanView>> {
    if md.len() == 0 {
        md
    } else {
        seq![seq![tinted("Assistant: "@, Color::Green)] + md[0]] + md.skip(1)
    }
}

/// What one line of the conversation looks like.
pub open spec fn shown_chat_line(line: ChatLineView) -> Seq<Seq<SpanView>> {
    match line {
        ChatLineView::User(t) => seq![seq![tinted("You: "@, Color::Cyan), raw_span(t)]],
        ChatLineView::Assistant(t) => if markdown(t).len() == 0 {
            seq![seq![tinted("Assistant: "@, Color::Green), raw_span(Seq::empty())]]
        } else {
            named(markdown(t))
        },
        ChatLineView::Tool { tool, done } => seq![
            seq![
                tinted(
                    "Tool ["@ + (if done {
                        "✓"@
                    } else {
                        "…"@
                    }) + "] "@,
                    Color::Magenta,
                ),
                raw_span(tool),
            ],
        ],
        ChatLineView::System(t) => seq![system_line(t)],
    }
}

/// A line of the system.
pub open spec fn system_line(text: Seq<char>) -> Seq<SpanView> {
    seq![
        tinted("System: "@, Color::DarkGray),
        SpanView { content: text, style: Style { dim: true, ..plain_style() } },
    ]
}

/// What the first `n` lines of the conversation look like.
pub open spec fn shown_to(chat: Seq<ChatLineView>, n: int) -> Seq<Seq<SpanView>>
    decreases n,
{
    if n <= 0 {
        Seq::empty()
    } else {
        shown_to(chat, n - 1) + shown_chat_line(chat[n - 1])
    }
}

/// What the conversation looks like, with the reasoning and the answer that
/// are still coming in at its end.
pub open spec fn shown_chat(
    chat: Seq<ChatLineView>,
    streaming: Seq<char>,
    reasoning: Seq<char>,
) -> Seq<Seq<SpanView>> {
    let thought = if reasoning.len() == 0 {
        Seq::empty()
    } else {
        seq![system_line(reasoning)]
    };
    let coming = if streaming.len() == 0 {
        Seq::empty()
    } else {
        named(markdown(streaming))
    };
    shown_to(chat, chat.len() as int) + thought + coming
}

/// Adds the lines of `more` at the end of `out`.
fn append_lines(out: &mut Vec<Line>, more: Vec<Line>)
    ensures
        line_views(final(out)@) == line_views(old(out)@) + line_views(more@),
{
    let mut rest = more;
    let ghost before = out@;
    out.append(&mut rest);
    assert(line_views(out@) == line_views(before) + line_views(more@));
}

/// A list of one line.
fn just(line: Line) -> (r: Vec<Line>)
    ensures
        line_views(r@) == seq![line@],
{
    let mut v: Vec<Line> = Vec::new();
    v.push(line);
    assert(line_views(v@) == seq![line@]);
    v
}

/// A piece in a colour.
fn tint(content: &str, c: Color) -> (r: Span)
    ensures
        r@ == tinted(content@, c),
{
    Span::styled(content.to_owned(), Style::colored(c))
}

/// Markdown with the assistant's name in front of its first line.
fn name_first(text: &str) -> (r: Vec<Line>)
    ensures
        line_views(r@) == named(markdown(text@)),
{
    let mut md = parse_markdown(text);
    let ghost all = line_views(md@);
    if md.len() == 0 {
        return md;
    }
    let first = md.remove(0);
    assert(line_views(md@) == all.skip(1));
    let mut spans: Vec<Span> = Vec::new();
    spans.push(tint("Assistant: ", Color::Green));
    assert(span_views(spans@) == seq![tinted("Assistant: "@, Color::Green)]);
    append_spans(&mut spans, first.spans);
    let line = Line { spans };
    let mut out = just(line);
    append_lines(&mut out, md);
    out
}

/// A line of the system.
fn show_system(text: &str) -> (r: Line)
    ensures
        r@ == system_line(text@),
{
    line_of_two(tint("System: ", Color::DarkGray), Span::styled(text.to_owned(), dim()))
}

/// Shows one line of the conversation.
fn show_chat_line(line: &ChatLine) -> (r: Vec<Line>)
    ensures
        line_views(r@) == shown_chat_line(line@),
{
    match line {
        ChatLine::User(t) => just(line_of_two(tint("You: ", Color::Cyan), Span::raw(t.clone()))),
        ChatLine::Assistant(t) => {
            let md = name_first(t.as_str());
            assert(line_views(md@).len() == md@.len());
            if md.len() == 0 {
                let r = just(
                    line_of_two(tint("Assistant: ", Color::Green), Span::raw(String::new())),
                );
                assert(line_views(r@)[0] == seq![
                    tinted("Assistant: "@, Color::Green),
                    raw_span(Seq::empty()),
                ]);
                r
            } else {
                md
            }
        },
        ChatLine::Tool { tool, done } => {
            let mut s = "Tool [".to_owned();
            s.append(
                if *done {
                    "✓"
                } else {
                    "…"
                },
            );
            s.append("] ");
            just(line_of_two(tint(s.as_str(), Color::Magenta), Span::raw(tool.clone())))
        },
        ChatLine::System(t) => just(show_system(t.as_str())),
    }
}

/// Shows the conversation.
pub fn render_chat(chat: &Vec<ChatLine>, streaming: &str, reasoning: &str) -> (r: Vec<Line>)
    ensures
        line_views(r@) == shown_chat(chat_views(chat@), streaming@, reasoning@),
{
    let ghost all = chat_views(chat@);
    let mut out: Vec<Line> = Vec::new();
    let mut i: usize = 0;
    assert(line_views(out@) == Seq::<Seq<SpanView>>::empty());
    while i < chat.len()
        invariant
            i <= chat@.len(),
            all == chat_views(chat@),
            line_views(out@) == shown_to(all, i as int),
        decreases chat@.len() - i,
    {
        assert(all[i as int] == chat@[i as int]@);
        let shown = show_chat_line(&chat[i]);
        append_lines(&mut out, shown);
        i = i + 1;
    }
    let ghost settled = line_views(out@);
    let thinking: usize = reasoning.unicode_len();
    if thinking > 0 {
        append_lines(&mut out, just(show_system(reasoning)));
    }
    let coming: usize = streaming.unicode_len();
    if coming > 0 {
        append_lines(&mut out, name_first(streaming));
    }
    proof {
        let thought = if reasoning@.len() == 0 {
            Seq::empty()
        } else {
            seq![system_line(reasoning@)]
        };
        let rest = if streaming@.len() == 0 {
            Seq::empty()
        } else {
            named(markdown(streaming@))
        };
        assert(line_views(out@) == settled + thought + rest);
    }
    out
}

/// The first line shown of `total` lines in an area `height` rows high: the
/// last lines, or those `back` lines before them.
pub open spec fn first_shown(total: int, height: u16, back: int) -> int {
    let visible = if height > 2 {
        height - 2
    } else {
        0
    };
    let bottom = if total > visible {
        total - visible
    } else {
        0
    };
    let first = if bottom > back {
        bottom - back
    } else {
        0
    };
    if first > u16::MAX {
        u16::MAX as int
    } else {
        first
    }
}

/// The first line shown, two rows of the area being its border.
pub fn scroll_position(total: usize, height: u16, back: usize) -> (r: u16)
    ensures
        r == first_shown(total as int, height, back as int),
{
    let visible: usize = if height > 2 {
        (height - 2) as usize
    } else {
        0
    };
    let bottom: usize = if total > visible {
        total - visible
    } else {
        0
    };
    let first: usize = if bottom > back {
        bottom - back
    } else {
        0
    };
    if first > 65535 {
        65535
    } else {
        first as u16
    }
}

/// The last line is shown unless the user looks back.
pub proof fn bottom_is_shown(total: int, height: u16)
    requires
        height > 2,
        0 < total <= u16::MAX,
    ensures
        first_shown(total, height, 0) <= total - 1 < first_shown(total, height, 0) + (height - 2),
{
}

/// The first eight characters of an id.
pub open spec fn shortened(id: Seq<char>) -> Seq<char> {
    if id.len() <= 8 {
        id
    } else {
        id.take(8)
    }
}

/// The first eight characters of an id.
pub fn short_id(id: &str) -> (r: String)
    ensures
        r@ == shortened(id@),
{
    let chars = to_chars(id);
    if chars.len() <= 8 {
        id.to_owned()
    } else {
        let head = sub_chars(chars.as_slice(), 0, 8);
        assert(head@ == id@.take(8));
        from_chars(head.as_slice())
    }
}

/// The title bar.
pub open spec fn shown_titlebar(v: AppView) -> Seq<SpanView> {
    seq![
        SpanView { content: " minicoding-tui "@, style: Style { bold: true, ..plain_style() } },
        raw_span(" "@),
        tinted(
            if v.is_turning {
                "● 生成中"@
            } else {
                "○ 就绪"@
            },
            if v.is_turning {
                Color::Yellow
            } else {
                Color::Green
            },
        ),
        raw_span("  "@),
        tinted("["@ + shortened(v.current) + "] "@, Color::Blue),
        tinted(v.status, Color::DarkGray),
        raw_span("  "@),
        tinted("[F2 会话] [F3 工具] [Ctrl+T 任务] [F4 主题]"@, Color::DarkGray),
    ]
}

/// Shows the title bar.
pub fn render_titlebar(app: &App) -> (r: Line)
    ensures
        r@ == shown_titlebar(app@),
{
    let mut spans: Vec<Span> = Vec::new();
    spans.push(Span::styled(" minicoding-tui ".to_owned(), crate::tui::style::bold()));
    spans.push(Span::raw(" ".to_owned()));
    if app.is_turning {
        spans.push(tint("● 生成中", Color::Yellow));
    } else {
        spans.push(tint("○ 就绪", Color::Green));
    }
    spans.push(Span::raw("  ".to_owned()));
    let mut tag = "[".to_owned();
    let short = short_id(app.current_session_id.as_str());
    tag.append(short.as_str());
    tag.append("] ");
    spans.push(tint(tag.as_str(), Color::Blue));
    spans.push(tint(app.status_msg.as_str(), Color::DarkGray));
    spans.push(Span::raw("  ".to_owned()));
    spans.push(tint("[F2 会话] [F3 工具] [Ctrl+T 任务] [F4 主题]", Color::DarkGray));
    let r = Line { spans };
    assert(r@ == shown_titlebar(app@));
    r
}

/// A part of the screen.
#[derive(Debug, Clone, Copy, PartialEq, Eq, Structural)]
pub struct Area {
    pub x: u16,
    pub y: u16,
    pub width: u16,
    pub height: u16,
}

/// Where the cursor stands in the input area, inside its border.
pub fn input_cursor(area: Area, column: usize) -> (r: (u16, u16))
    requires
        area.x + 1 + column <= u16::MAX,
        area.y < u16::MAX,
    ensures
        r.0 == area.x + 1 + column,
        r.1 == area.y + 1,
{
    (area.x + 1 + column as u16, area.y + 1)
}

/// Where the permission prompt stands: in the middle, seven rows high and at
/// most sixty columns wide.
pub fn popup_area(area: Area) -> (r: Area)
    requires
        area.height >= 7,
        area.x + area.width <= u16::MAX,
        area.y + area.height <= u16::MAX,
    ensures
        r.height == 7,
        r.width == (if area.width < 60 {
            area.width
        } else {
            60
        }),
        r.x == area.x + (area.width - r.width) / 2,
        r.y == area.y + (area.height - 7) / 2,
{
    let width: u16 = if area.width < 60 {
        area.width
    } else {
        60
    };
    let height: u16 = 7;
    Area {
        x: area.x + (area.width - width) / 2,
        y: area.y + (area.height - height) / 2,
        width,
        height,
    }
}

/// The permission prompt lies within the screen.
pub proof fn popup_stays_on_screen(area: Area, popup: Area)
    requires
        area.height >= 7,
        popup.height == 7,
        popup.width == (if area.width < 60 {
            area.width
        } else {
            60
        }),
        popup.x == area.x + (area.width - popup.width) / 2,
        popup.y == area.y + (area.height - 7) / 2,
    ensures
        area.x <= popup.x,
        popup.x + popup.width <= area.x + area.width,
        area.y <= popup.y,
        popup.y + popup.height <= area.y + area.height,
{
}

/// The label of an option.
pub open spec fn label_of(opt: PromptOption) -> Seq<char> {
    match opt {
        PromptOption::AllowOnce => "允许一次"@,
        PromptOption::AllowAlways => "始终允许"@,
        PromptOption::DenyOnce => "拒绝一次"@,
        PromptOption::DenyAlways => "始终拒绝"@,
    }
}

/// The label of an option.
pub fn option_label(opt: PromptOption) -> (r: String)
    ensures
        r@ == label_of(opt),
{
    match opt {
        PromptOption::AllowOnce => "允许一次".to_owned(),
        PromptOption::AllowAlways => "始终允许".to_owned(),
        PromptOption::DenyOnce => "拒绝一次".to_owned(),
        PromptOption::DenyAlways => "始终拒绝".to_owned(),
    }
}

/// The name of a risk.
pub open spec fn risk_name(risk: Risk) -> Seq<char> {
    match risk {
        Risk::Low => "Low"@,
        Risk::Medium => "Medium"@,
        Risk::High => "High"@,
    }
}

/// The colour of a risk.
pub open spec fn risk_color(risk: Risk) -> Color {
    match risk {
        Risk::Low => Color::Green,
        Risk::Medium => Color::Yellow,
        Risk::High => Color::Red,
    }
}

/// Text as a line: one piece for each line of it.
pub open spec fn text_pieces(text: Seq<char>) -> Seq<SpanView> {
    Seq::new(lines(text).len(), |i: int| raw_span(lines(text)[i]))
}

/// The lines of a permission prompt.
pub open spec fn shown_prompt(p: PromptView) -> Seq<Seq<SpanView>> {
    seq![
        seq![
            SpanView { content: "权限请求 "@, style: Style { bold: true, ..plain_style() } },
            tinted("["@ + risk_name(p.risk) + "]"@, risk_color(p.risk)),
        ],
        text_pieces("工具: "@ + p.tool),
        text_pieces("说明: "@ + p.summary),
        Seq::empty(),
        text_pieces(
            "选项: "@ + joined(
                Seq::new(p.options.len(), |i: int| label_of(p.options[i])),
                " / "@,
            ),
        ),
        seq![tinted("[y] 允许  [n] 拒绝  [Esc] 拒绝"@, Color::Cyan)],
    ]
}

/// A line with one piece for each line of the text.
fn pieces_line(label: &str, text: &str) -> (r: Line)
    ensures
        r@ == text_pieces(label@ + text@),
{
    let mut whole = to_chars(label);
    push_text(&mut whole, text);
    let ls = split_lines(whole.as_slice());
    let ghost all = lines(label@ + text@);
    let mut spans: Vec<Span> = Vec::new();
    let mut i: usize = 0;
    while i < ls.len()
        invariant
            i <= ls@.len(),
            all == char_views(ls@),
            spans@.len() == i,
            forall|j: int| 0 <= j < i ==> (#[trigger] spans@[j])@ == raw_span(all[j]),
        decreases ls@.len() - i,
    {
        spans.push(Span::raw(from_chars(ls[i].as_slice())));
        i = i + 1;
    }
    let r = Line { spans };
    assert(r@ == text_pieces(label@ + text@));
    r
}

/// Shows a permission prompt.
pub fn render_permission_popup(p: &PermissionPrompt) -> (r: Vec<Line>)
    ensures
        line_views(r@) == shown_prompt(p@),
{
    let (name, color) = match p.risk {
        Risk::Low => ("Low", Color::Green),
        Risk::Medium => ("Medium", Color::Yellow),
        Risk::High => ("High", Color::Red),
    };
    let mut tag = "[".to_owned();
    tag.append(name);
    tag.append("]");
    let mut labels: Vec<String> = Vec::new();
    let mut i: usize = 0;
    while i < p.options.len()
        invariant
            i <= p.options@.len(),
            labels@.len() == i,
            forall|j: int| 0 <= j < i ==> (#[trigger] labels@[j])@ == label_of(p.options@[j]),
        decreases p.options@.len() - i,
    {
        labels.push(option_label(p.options[i]));
        i = i + 1;
    }
    assert(views(labels@) == Seq::new(p.options@.len(), |i: int| label_of(p.options@[i])));
    let options = join(&labels, " / ");
    let mut out: Vec<Line> = Vec::new();
    out.push(
        line_of_two(
            Span::styled("权限请求 ".to_owned(), crate::tui::style::bold()),
            tint(tag.as_str(), color),
        ),
    );
    out.push(pieces_line("工具: ", p.tool.as_str()));
    out.push(pieces_line("说明: ", p.summary.as_str()));
    let empty = Line { spans: Vec::new() };
    assert(empty@ == Seq::<SpanView>::empty());
    out.push(empty);
    out.push(pieces_line("选项: ", options.as_str()));
    out.push(line_of(tint("[y] 允许  [n] 拒绝  [Esc] 拒绝", Color::Cyan)));
    proof {
        let shown = line_views(out@);
        let want = shown_prompt(p@);
        assert(shown.len() == want.len());
        assert(shown[0] == want[0]);
        assert(shown[1] == want[1]);
        assert(shown[2] == want[2]);
        assert(shown[3] == want[3]);
        assert(shown[4] == want[4]);
        assert(shown[5] == want[5]);
        assert(shown == want);
    }
    out
}

/// What a tool call looks like in the panel of tool calls.
pub open spec fn shown_call(tool: Seq<char>, done: bool) -> Seq<SpanView> {
    if done {
        seq![tinted("[✓] "@, Color::Green), raw_span(tool)]
    } else {
        seq![tinted("[…] "@, Color::Yellow), raw_span(tool)]
    }
}

/// The last tool calls among the first `n` lines, at most `max` of them, the
/// latest first.
pub open spec fn latest_calls(chat: Seq<ChatLineView>, n: int, max: int) -> Seq<Seq<SpanView>>
    decreases n,
{
    if n <= 0 || max <= 0 {
        Seq::empty()
    } else {
        match chat[n - 1] {
            ChatLineView::Tool { tool, done } => seq![shown_call(tool, done)] + latest_calls(
                chat,
                n - 1,
                max - 1,
            ),
            _ => latest_calls(chat, n - 1, max),
        }
    }
}

/// What the panel of tool calls shows in an area `height` rows high.
pub open spec fn shown_calls(chat: Seq<ChatLineView>, height: u16) -> Seq<Seq<SpanView>> {
    let room = if height > 2 {
        height - 2
    } else {
        0
    };
    let calls = latest_calls(chat, chat.len() as int, room);
    if calls.len() == 0 {
        seq![
            seq![
                SpanView {
                    content: "（暂无工具调用）"@,
                    style: Style { dim: true, ..in_color(Color::DarkGray) },
                },
            ],
        ]
    } else {
        calls
    }
}

/// Shows the latest tool calls, as many as there is room for.
pub fn render_tool_panel(chat: &Vec<ChatLine>, height: u16) -> (r: Vec<Line>)
    ensures
        line_views(r@) == shown_calls(chat_views(chat@), height),
{
    let ghost all = chat_views(chat@);
    let room: usize = if height > 2 {
        (height - 2) as usize
    } else {
        0
    };
    let mut out: Vec<Line> = Vec::new();
    let mut n: usize = chat.len();
    assert(line_views(out@) == Seq::<Seq<SpanView>>::empty());
    while n > 0 && out.len() < room
        invariant
            n <= chat@.len(),
            all == chat_views(chat@),
            out@.len() <= room,
            line_views(out@) + latest_calls(all, n as int, room - out@.len()) == latest_calls(
                all,
                all.len() as int,
                room as int,
            ),
        decreases n,
    {
        let ghost before = line_views(out@);
        assert(all[n - 1] == chat@[n - 1]@);
        match &chat[n - 1] {
            ChatLine::Tool { tool, done } => {
                let line = if *done {
                    line_of_two(tint("[✓] ", Color::Green), Span::raw(tool.clone()))
                } else {
                    line_of_two(tint("[…] ", Color::Yellow), Span::raw(tool.clone()))
                };
                let ghost lv = line@;
                out.push(line);
                assert(line_views(out@) == before.push(lv));
                assert(before.push(lv) + latest_calls(all, n - 1, room - out@.len()) == before + (
                seq![lv] + latest_calls(all, n - 1, room - out@.len())));
            },
            _ => {},
        }
        n = n - 1;
    }
    proof {
        let left = latest_calls(all, n as int, room - out@.len());
        assert(left == Seq::<Seq<SpanView>>::empty());
        assert(line_views(out@) + left == line_views(out@));
        assert(line_views(out@).len() == out@.len());
    }
    if out.len() == 0 {
        out.push(
            line_of(
                Span::styled(
                    "（暂无工具调用）".to_owned(),
                    Style {
                        fg: Some(Color::DarkGray),
                        bg: None,
                        bold: false,
                        italic: false,
                        dim: true,
                    },
                ),
            ),
        );
        assert(line_views(out@) == shown_calls(all, height));
    }
    out
}

/// The place of a state in the panel of tasks: what is being worked on comes
/// first.
pub open spec fn priority_of(s: TaskStatus) -> u8 {
    match s {
        TaskStatus::InProgress => 0,
        TaskStatus::Pending => 1,
        TaskStatus::Completed => 2,
        TaskStatus::Cancelled => 3,
    }
}

/// The place of a state in the panel of tasks.
pub fn status_priority(s: TaskStatus) -> (r: u8)
    ensures
        r == priority_of(s),
{
    match s {
        TaskStatus::InProgress => 0,
        TaskStatus::Pending => 1,
        TaskStatus::Completed => 2,
        TaskStatus::Cancelled => 3,
    }
}

/// The mark of a state and its colour.
pub open spec fn mark_of(s: TaskStatus, theme: Theme) -> (Seq<char>, Color) {
    match s {
        TaskStatus::InProgress => ("▶"@, theme.task_in_progress),
        TaskStatus::Pending => ("○"@, theme.task_pending),
        TaskStatus::Completed => ("✓"@, theme.task_completed),
        TaskStatus::Cancelled => ("✗"@, theme.task_cancelled),
    }
}

/// The mark of a state and its colour.
pub fn status_mark(s: TaskStatus, theme: &Theme) -> (r: (&'static str, Color))
    ensures
        (r.0@, r.1) == mark_of(s, *theme),
{
    match s {
        TaskStatus::InProgress => ("▶", theme.task_in_progress),
        TaskStatus::Pending => ("○", theme.task_pending),
        TaskStatus::Completed => ("✓", theme.task_completed),
        TaskStatus::Cancelled => ("✗", theme.task_cancelled),
    }
}

/// The text cut to `max` characters, the last of them an ellipsis; uncut
/// where there is no room at all.
pub open spec fn with_ellipsis(s: Seq<char>, max: int) -> Seq<char> {
    if max == 0 || s.len() <= max {
        s
    } else {
        s.take(max - 1).push('…')
    }
}

/// Cuts a text to `max_chars` characters, the last of them an ellipsis.
pub fn truncate_str(s: &str, max_chars: usize) -> (r: String)
    ensures
        r@ == with_ellipsis(s@, max_chars as int),
{
    let chars = to_chars(s);
    if max_chars == 0 || chars.len() <= max_chars {
        return s.to_owned();
    }
    let mut head = sub_chars(chars.as_slice(), 0, max_chars - 1);
    head.push('…');
    assert(head@ == with_ellipsis(s@, max_chars as int));
    from_chars(head.as_slice())
}

/// Text is never cut to more characters than there is room for.
pub proof fn cut_text_fits_its_room(s: Seq<char>, max: int)
    requires
        max > 0,
    ensures
        with_ellipsis(s, max).len() <= max,
{
}

/// What a task looks like in a panel `width` columns wide.
pub open spec fn shown_task(t: TaskView, theme: Theme, width: u16) -> Seq<SpanView> {
    let (mark, color) = mark_of(t.status, theme);
    let room = if width > 5 {
        width - 5
    } else {
        0
    };
    seq![tinted(mark + " "@, color), raw_span(with_ellipsis(t.content, room))]
}

/// Shows a task.
pub fn task_line(task: &Task, theme: &Theme, max_width: u16) -> (r: Line)
    ensures
        r@ == shown_task(task@, *theme, max_width),
{
    let (mark, color) = status_mark(task.status, theme);
    let mut prefix = mark.to_owned();
    prefix.append(" ");
    let room: usize = if max_width > 5 {
        (max_width - 5) as usize
    } else {
        0
    };
    let content = truncate_str(task.content.as_str(), room);
    line_of_two(tint(prefix.as_str(), color), Span::raw(content))
}

/// The tasks by the place of their state, those of one state in their order.
pub open spec fn by_priority(tasks: Seq<TaskView>) -> Seq<TaskView> {
    selected(tasks, Some(TaskStatus::InProgress)) + selected(tasks, Some(TaskStatus::Pending))
        + selected(tasks, Some(TaskStatus::Completed)) + selected(
        tasks,
        Some(TaskStatus::Cancelled),
    )
}

/// What tasks look like.
pub open spec fn shown_tasks(tasks: Seq<TaskView>, theme: Theme, width: u16) -> Seq<Seq<SpanView>> {
    Seq::new(tasks.len(), |i: int| shown_task(tasks[i], theme, width))
}

/// Adds the tasks in one state.
fn show_tasks_in(
    out: &mut Vec<Line>,
    tasks: &Vec<Task>,
    status: TaskStatus,
    theme: &Theme,
    width: u16,
)
    ensures
        line_views(final(out)@) == line_views(old(out)@) + shown_tasks(
            selected(task_views(tasks@), Some(status)),
            *theme,
            width,
        ),
{
    let ghost all = task_views(tasks@);
    let ghost start = line_views(out@);
    let mut i: usize = 0;
    assert(all.take(0) == Seq::<TaskView>::empty());
    assert(line_views(out@) == start + shown_tasks(Seq::empty(), *theme, width));
    while i < tasks.len()
        invariant
            i <= tasks@.len(),
            all == task_views(tasks@),
            start == line_views(old(out)@),
            line_views(out@) == start + shown_tasks(
                selected(all.take(i as int), Some(status)),
                *theme,
                width,
            ),
        decreases tasks@.len() - i,
    {
        let ghost now = all.take(i + 1);
        let ghost before = line_views(out@);
        let ghost picked = selected(all.take(i as int), Some(status));
        assert(now.drop_last() == all.take(i as int));
        assert(now.last() == tasks@[i as int]@);
        if tasks[i].status == status {
            out.push(task_line(&tasks[i], theme, width));
            assert(line_views(out@) == before.push(shown_task(now.last(), *theme, width)));
            assert(shown_tasks(picked.push(now.last()), *theme, width) == shown_tasks(
                picked,
                *theme,
                width,
            ).push(shown_task(now.last(), *theme, width)));
        }
        i = i + 1;
    }
    assert(all.take(all.len() as int) == all);
}

/// What the panel of tasks shows: its title and its lines.
pub open spec fn shown_task_panel(tasks: Seq<TaskView>, theme: Theme, width: u16) -> (
    Seq<char>,
    Seq<Seq<SpanView>>,
) {
    if tasks.len() == 0 {
        (
            " 任务 (Ctrl+T 切换) "@,
            seq![
                seq![
                    SpanView {
                        content: "（暂无任务，模型可调 task.create 创建）"@,
                        style: Style { dim: true, ..in_color(theme.muted) },
                    },
                ],
            ],
        )
    } else {
        (
            " 任务 ("@ + decimal(tasks.len()) + " 项 / Ctrl+T 切换) "@,
            shown_tasks(by_priority(tasks), theme, width),
        )
    }
}

/// Shows the panel of tasks: its title and its lines.
pub fn render_task_panel(tasks: &Vec<Task>, theme: &Theme, width: u16) -> (r: (String, Vec<Line>))
    ensures
        (r.0@, line_views(r.1@)) == shown_task_panel(task_views(tasks@), *theme, width),
{
    let ghost all = task_views(tasks@);
    if tasks.len() == 0 {
        let line = line_of(
            Span::styled(
                "（暂无任务，模型可调 task.create 创建）".to_owned(),
                Style {
                    fg: Some(theme.muted),
                    bg: None,
                    bold: false,
                    italic: false,
                    dim: true,
                },
            ),
        );
        return (" 任务 (Ctrl+T 切换) ".to_owned(), just(line));
    }
    let mut title = " 任务 (".to_owned();
    let n = show_usize(tasks.len());
    title.append(n.as_str());
    title.append(" 项 / Ctrl+T 切换) ");
    let mut out: Vec<Line> = Vec::new();
    show_tasks_in(&mut out, tasks, TaskStatus::InProgress, theme, width);
    show_tasks_in(&mut out, tasks, TaskStatus::Pending, theme, width);
    show_tasks_in(&mut out, tasks, TaskStatus::Completed, theme, width);
    show_tasks_in(&mut out, tasks, TaskStatus::Cancelled, theme, width);
    assert(line_views(out@) == shown_tasks(by_priority(all), *theme, width));
    (title, out)
}

/// Every task has its line in the panel, those of an earlier place before
/// those of a later one.
pub proof fn panel_orders_by_priority(tasks: Seq<TaskView>)
    ensures
        by_priority(tasks).len() == tasks.len(),
        forall|i: int, j: int|
            0 <= i < j < by_priority(tasks).len() ==> priority_of(by_priority(tasks)[i].status)
                <= priority_of(by_priority(tasks)[j].status),
{
    lemma_selected_counts(tasks);
    lemma_selected_status(tasks, TaskStatus::InProgress);
    lemma_selected_status(tasks, TaskStatus::Pending);
    lemma_selected_status(tasks, TaskStatus::Completed);
    lemma_selected_status(tasks, TaskStatus::Cancelled);
}

proof fn lemma_selected_status(tasks: Seq<TaskView>, s: TaskStatus)
    ensures
        forall|i: int|
            0 <= i < selected(tasks, Some(s)).len() ==> (#[trigger] selected(
                tasks,
                Some(s),
            )[i]).status == s,
    decreases tasks.len(),
{
    if tasks.len() > 0 {
        lemma_selected_status(tasks.drop_last(), s);
    }
}

proof fn lemma_selected_counts(tasks: Seq<TaskView>)
    ensures
        selected(tasks, Some(TaskStatus::InProgress)).len() + selected(
            tasks,
            Some(TaskStatus::Pending),
        ).len() + selected(tasks, Some(TaskStatus::Completed)).len() + selected(
            tasks,
            Some(TaskStatus::Cancelled),
        ).len() == tasks.len(),
    decreases tasks.len(),
{
    if tasks.len() > 0 {
        lemma_selected_counts(tasks.drop_last());
    }
}

/// A line of the sidebar, and whether it is the current conversation.
pub open spec fn shown_session(s: SessionView, current: Seq<char>, now: i128) -> (
    Seq<SpanView>,
    bool,
) {
    let own = s.id == current;
    (
        seq![
            tinted(
                if own {
                    "▶ "@
                } else {
                    "  "@
                },
                Color::Yellow,
            ),
            SpanView { content: shortened(s.id), style: Style { bold: true, ..plain_style() } },
            raw_span(" "@),
            tinted("("@ + decimal(s.message_count as nat) + " 条)"@, Color::DarkGray),
            raw_span(" "@),
            tinted(ago(now, s.last_message_at, s.offset), Color::DarkGray),
        ],
        own,
    )
}

/// A row of the sidebar.
#[derive(Debug)]
pub struct SidebarRow {
    pub line: Line,
    /// It is the current conversation.
    pub current: bool,
}

/// Shows one conversation.
fn show_session(s: &SessionItem, current: &str, now: i128) -> (r: SidebarRow)
    ensures
        (r.line@, r.current) == shown_session(s@, current@, now),
{
    let own = same(s.id.as_str(), current);
    let mut spans: Vec<Span> = Vec::new();
    if own {
        spans.push(tint("▶ ", Color::Yellow));
    } else {
        spans.push(tint("  ", Color::Yellow));
    }
    spans.push(Span::styled(short_id(s.id.as_str()), crate::tui::style::bold()));
    spans.push(Span::raw(" ".to_owned()));
    let mut count = "(".to_owned();
    let n = show_usize(s.message_count);
    count.append(n.as_str());
    count.append(" 条)");
    spans.push(tint(count.as_str(), Color::DarkGray));
    spans.push(Span::raw(" ".to_owned()));
    let when = relative_time_at(now, s.last_message_at, s.offset);
    spans.push(tint(when.as_str(), Color::DarkGray));
    let line = Line { spans };
    assert(line@ == shown_session(s@, current@, now).0);
    SidebarRow { line, current: own }
}

/// Shows the first conversations of the list at the time `now`.
pub fn render_sidebar(sessions: &Vec<SessionItem>, current: &str, now: i128) -> (r: Vec<SidebarRow>)
    ensures
        r@.len() == rows_shown(sessions@.len()),
        forall|i: int|
            0 <= i < r@.len() ==> ((#[trigger] r@[i]).line@, r@[i].current) == shown_session(
                session_views(sessions@)[i],
                current@,
                now,
            ),
{
    let mut out: Vec<SidebarRow> = Vec::new();
    while out.len() < sessions.len() && out.len() < SIDEBAR_ROWS
        invariant
            out@.len() <= sessions@.len(),
            out@.len() <= SIDEBAR_ROWS,
            forall|i: int|
                0 <= i < out@.len() ==> ((#[trigger] out@[i]).line@, out@[i].current)
                    == shown_session(session_views(sessions@)[i], current@, now),
        decreases sessions@.len() - out@.len(),
    {
        let i: usize = out.len();
        out.push(show_session(&sessions[i], current, now));
    }
    out
}

proof fn lemma_shown_same(a: Seq<ChatLineView>, b: Seq<ChatLineView>, n: int)
    requires
        n <= a.len(),
        n <= b.len(),
        forall|k: int| 0 <= k < n ==> #[trigger] a[k] == b[k],
    ensures
        shown_to(a, n) == shown_to(b, n),
    decreases n,
{
    if n > 0 {
        lemma_shown_same(a, b, n - 1);
        assert(a[n - 1] == b[n - 1]);
    }
}

/// A conversation is shown line by line in its order: with one line more it is
/// what it was and, behind it, what that line looks like by itself.
pub proof fn chat_is_shown_in_order(
    chat: &Vec<ChatLine>,
    fewer: &Vec<ChatLine>,
    last: &Vec<ChatLine>,
    none: &str,
    all: Vec<Line>,
    first: Vec<Line>,
    rest: Vec<Line>,
)
    requires
        chat@ == fewer@ + last@,
        last@.len() == 1,
        none@.len() == 0,
        call_ensures(render_chat, (chat, none, none), all),
        call_ensures(render_chat, (fewer, none, none), first),
        call_ensures(render_chat, (last, none, none), rest),
    ensures
        line_views(all@) == line_views(first@) + line_views(rest@),
        rest@.len() > 0,
{
    let a = chat_views(chat@);
    let b = chat_views(fewer@);
    let c = chat_views(last@);
    let n = b.len() as int;
    assert(a.len() == n + 1);
    assert forall|k: int| 0 <= k < n implies #[trigger] a[k] == b[k] by {
        assert(chat@[k] == fewer@[k]);
    }
    lemma_shown_same(a, b, n);
    assert(chat@[n] == last@[0]);
    assert(a[n] == c[0]);
    let none_lines = Seq::<Seq<SpanView>>::empty();
    assert(shown_to(c, 1) == none_lines + shown_chat_line(c[0])) by {
        assert(shown_to(c, 0) == none_lines);
    }
    assert(none_lines + shown_chat_line(c[0]) == shown_chat_line(c[0]));
    assert(shown_to(a, n + 1) == shown_to(a, n) + shown_chat_line(a[n]));
    assert(shown_to(a, n + 1) + none_lines + none_lines == shown_to(a, n + 1));
    assert(shown_to(b, n) + none_lines + none_lines == shown_to(b, n));
    assert(shown_to(c, 1) + none_lines + none_lines == shown_to(c, 1));
    assert(line_views(rest@).len() == rest@.len());
}

/// What each kind of line begins with, and what it says: the user's and the
/// system's words as they are, the name of a tool with a mark that says
/// whether its call is done.
pub proof fn lines_say_who_speaks(chat: &Vec<ChatLine>, none: &str, r: Vec<Line>)
    requires
        chat@.len() == 1,
        none@.len() == 0,
        call_ensures(render_chat, (chat, none, none), r),
    ensures
        r@.len() >= 1,
        chat@[0] matches ChatLine::User(t) ==> {
            &&& r@.len() == 1
            &&& r@[0]@.len() == 2
            &&& r@[0]@[0].content == "You: "@ && r@[0]@[1].content == t@
        },
        chat@[0] matches ChatLine::System(t) ==> {
            &&& r@.len() == 1
            &&& r@[0]@.len() == 2
            &&& r@[0]@[0].content == "System: "@ && r@[0]@[1].content == t@
        },
        chat@[0] matches ChatLine::Tool { tool, done } ==> {
            &&& r@.len() == 1
            &&& r@[0]@.len() == 2
            &&& r@[0]@[0].content == (if done {
                "Tool ["@ + "✓"@ + "] "@
            } else {
                "Tool ["@ + "…"@ + "] "@
            })
            &&& r@[0]@[1].content == tool@
        },
        chat@[0] is Assistant ==> r@[0]@.len() >= 1 && r@[0]@[0].content == "Assistant: "@,
{
    let c = chat_views(chat@);
    assert(c[0] == chat@[0]@);
    let none_lines = Seq::<Seq<SpanView>>::empty();
    assert(shown_to(c, 0) == none_lines);
    assert(shown_to(c, 1) == none_lines + shown_chat_line(c[0]));
    assert(none_lines + shown_chat_line(c[0]) == shown_chat_line(c[0]));
    assert(shown_to(c, 1) + none_lines + none_lines == shown_to(c, 1));
    let v = line_views(r@);
    assert(v == shown_chat_line(c[0]));
    assert(v.len() == r@.len());
    assert(v[0] == r@[0]@);
}

/// An answer is shown as the Markdown of its text with the assistant's name
/// before it, whether it is still coming in or has come to its end; the
/// reasoning stands before it.
pub proof fn answer_is_shown_as_markdown(
    chat: &Vec<ChatLine>,
    none: &str,
    answer: &str,
    thought: &str,
    md: Vec<Line>,
    without: Vec<Line>,
    r: Vec<Line>,
)
    requires
        none@.len() == 0,
        answer@.len() > 0,
        call_ensures(render_chat, (chat, answer, thought), r),
        call_ensures(render_chat, (chat, none, none), without),
        call_ensures(parse_markdown, (answer,), md),
    ensures
        ({
            let n = without@.len() as int;
            let t: int = if thought@.len() > 0 {
                1
            } else {
                0
            };
            &&& r@.len() == n + t + md@.len()
            &&& forall|i: int| 0 <= i < n ==> (#[trigger] r@[i])@ == without@[i]@
            &&& t == 1 ==> r@[n]@.len() == 2 && r@[n]@[1].content == thought@
            &&& md@.len() > 0 ==> r@[n + t]@.drop_first() == md@[0]@ && r@[n + t]@[0].content
                == "Assistant: "@
            &&& forall|i: int| 1 <= i < md@.len() ==> r@[n + t + i]@ == (#[trigger] md@[i])@
        }),
{
    let a = chat_views(chat@);
    let settled_lines = shown_to(a, a.len() as int);
    let none_lines = Seq::<Seq<SpanView>>::empty();
    assert(settled_lines + none_lines + none_lines == settled_lines);
    let v = line_views(r@);
    let w = line_views(without@);
    let m = line_views(md@);
    assert(w == settled_lines);
    assert(v.len() == r@.len() && w.len() == without@.len() && m.len() == md@.len());
    let n = w.len() as int;
    let t: int = if thought@.len() > 0 {
        1
    } else {
        0
    };
    let coming = named(m);
    assert(coming.len() == m.len());
    assert forall|i: int| 0 <= i < n implies (#[trigger] r@[i])@ == without@[i]@ by {
        assert(v[i] == w[i]);
        assert(v[i] == r@[i]@ && w[i] == without@[i]@);
    }
    if t == 1 {
        assert(v[n] == system_line(thought@));
        assert(v[n] == r@[n]@);
    }
    if m.len() > 0 {
        assert(v[n + t] == coming[0]);
        assert(v[n + t] == r@[n + t]@);
        assert(m[0] == md@[0]@);
        assert(coming[0].drop_first() == m[0]);
    }
    assert forall|i: int| 1 <= i < md@.len() implies r@[n + t + i]@ == (#[trigger] md@[i])@ by {
        assert(v[n + t + i] == coming[i]);
        assert(coming[i] == m[i]);
        assert(v[n + t + i] == r@[n + t + i]@ && m[i] == md@[i]@);
    }
}

/// As long as there are lines enough, the last line shown is the one that the
/// user looks back to: the very last where they do not look back.
pub proof fn window_ends_where_the_user_looks(total: usize, height: u16, back: usize, r: u16)
    requires
        call_ensures(scroll_position, (total, height, back), r),
        height > 2,
        total <= u16::MAX,
    ensures
        total <= height - 2 ==> r == 0,
        total > height - 2 && back <= total - (height - 2) ==> r + (height - 2) == total - back,
        total > height - 2 && back > total - (height - 2) ==> r == 0,
{
}

/// An id is shown by its first eight characters.
pub proof fn ids_are_shown_by_their_beginning(id: &str, r: String)
    requires
        call_ensures(short_id, (id,), r),
    ensures
        r@.len() <= 8,
        r@.len() <= id@.len(),
        id@.take(r@.len() as int) == r@,
        r@.len() == 8 || r@.len() == id@.len(),
{
    assert(id@.take(id@.len() as int) == id@);
}

/// Text that fits is shown as it is; longer text up to the last column, which
/// holds an ellipsis.
pub proof fn long_text_ends_in_an_ellipsis(s: &str, max: usize, r: String)
    requires
        call_ensures(truncate_str, (s, max), r),
        max > 0,
    ensures
        s@.len() <= max ==> r@ == s@,
        s@.len() > max ==> r@.len() == max && r@.last() == '…' && r@.drop_last() == s@.take(
            max - 1,
        ),
{
    if s@.len() > max {
        assert(r@.drop_last() == s@.take(max - 1));
    }
}

/// The calls among lines, by their places.
proof fn lemma_latest_calls(chat: Seq<ChatLineView>, n: int, max: int, picked: Seq<int>)
    requires
        0 <= n <= chat.len(),
        max >= 0,
        picks(picked, n, |i: int| chat[i] is Tool),
    ensures
        latest_calls(chat, n, max).len() == if picked.len() < max {
            picked.len() as int
        } else {
            max
        },
        forall|k: int|
            0 <= k < latest_calls(chat, n, max).len() ==> #[trigger] latest_calls(chat, n, max)[k]
                == shown_call(
                chat[picked[picked.len() - 1 - k]]->tool,
                chat[picked[picked.len() - 1 - k]]->done,
            ),
    decreases n,
{
    let wanted = |i: int| chat[i] is Tool;
    if n == 0 {
        lemma_picks_none(picked, n, wanted);
    } else if max > 0 {
        lemma_picks_step(picked, n, wanted);
        if wanted(n - 1) {
            let fewer = picked.drop_last();
            lemma_latest_calls(chat, n - 1, max - 1, fewer);
            let all = latest_calls(chat, n, max);
            let rest = latest_calls(chat, n - 1, max - 1);
            assert forall|k: int| 0 <= k < all.len() implies #[trigger] all[k] == shown_call(
                chat[picked[picked.len() - 1 - k]]->tool,
                chat[picked[picked.len() - 1 - k]]->done,
            ) by {
                if k > 0 {
                    assert(all[k] == rest[k - 1]);
                    assert(fewer[fewer.len() - 1 - (k - 1)] == picked[picked.len() - 1 - k]);
                }
            }
        } else {
            lemma_latest_calls(chat, n - 1, max, picked);
        }
    }
}

/// The panel of tool calls shows the latest calls, the latest first, as many
/// as there is room for, each with its name and whether it is done.
pub proof fn latest_calls_come_first(
    chat: &Vec<ChatLine>,
    height: u16,
    r: Vec<Line>,
    picked: Seq<int>,
    k: int,
)
    requires
        call_ensures(render_tool_panel, (chat, height), r),
        height > 2,
        picks(picked, chat@.len() as int, |i: int| chat@[i] is Tool),
        picked.len() > 0,
        0 <= k < r@.len(),
    ensures
        r@.len() == if picked.len() < height - 2 {
            picked.len() as int
        } else {
            height - 2
        },
        chat@[picked[picked.len() - 1 - k]] matches ChatLine::Tool { tool, done } && r@[k]@.len()
            == 2 && r@[k]@[1].content == tool@ && r@[k]@[0].content == (if done {
            "[✓] "@
        } else {
            "[…] "@
        }),
{
    let all = chat_views(chat@);
    let given = |i: int| chat@[i] is Tool;
    let want = |i: int| all[i] is Tool;
    assert(picks(picked, all.len() as int, want)) by {
        assert(picks(picked, chat@.len() as int, given));
        assert forall|i: int| 0 <= i < all.len() && #[trigger] want(i) implies picked.contains(
            i,
        ) by {
            assert(all[i] == chat@[i]@);
            assert(given(i));
        }
        assert forall|a: int| 0 <= a < picked.len() implies 0 <= #[trigger] picked[a] < all.len()
            && want(picked[a]) by {
            assert(given(picked[a]));
            assert(all[picked[a]] == chat@[picked[a]]@);
        }
    }
    lemma_latest_calls(all, all.len() as int, height - 2, picked);
    let v = line_views(r@);
    assert(v.len() == r@.len());
    assert(v[k] == r@[k]@);
    let at = picked[picked.len() - 1 - k];
    assert(given(at));
    assert(all[at] == chat@[at]@);
}

/// What is being worked on comes first in the panel of tasks, then what waits,
/// then what is done, and last what was given up.
pub proof fn states_have_their_places(a: TaskStatus, b: TaskStatus, r: u8, s: u8)
    requires
        call_ensures(status_priority, (a,), r),
        call_ensures(status_priority, (b,), s),
    ensures
        (r < s) == ((a is InProgress && !(b is InProgress)) || (a is Pending && (b is Completed || b
            is Cancelled)) || (a is Completed && b is Cancelled)),
        (r == s) == (a == b),
{
}

/// Each state has a mark of its own.
pub proof fn marks_tell_states_apart(
    a: TaskStatus,
    b: TaskStatus,
    theme: &Theme,
    r: (&'static str, Color),
    s: (&'static str, Color),
)
    requires
        call_ensures(status_mark, (a, theme), r),
        call_ensures(status_mark, (b, theme), s),
    ensures
        r.0@ == s.0@ ==> a == b,
        a is InProgress ==> r.0@ == "▶"@ && r.1 == theme.task_in_progress,
        a is Pending ==> r.0@ == "○"@ && r.1 == theme.task_pending,
        a is Completed ==> r.0@ == "✓"@ && r.1 == theme.task_completed,
        a is Cancelled ==> r.0@ == "✗"@ && r.1 == theme.task_cancelled,
{
    reveal_strlit("▶");
    reveal_strlit("○");
    reveal_strlit("✓");
    reveal_strlit("✗");
    assert("▶"@[0] == '▶' && "○"@[0] == '○' && "✓"@[0] == '✓' && "✗"@[0] == '✗');
}

/// The panel of tasks has a line for every task and no other: those in each
/// state in the order in which they came, the states in the order of their
/// places.
pub proof fn every_task_has_its_line(
    tasks: &Vec<Task>,
    theme: &Theme,
    width: u16,
    r: (String, Vec<Line>),
    status: TaskStatus,
    ahead: int,
    picked: Seq<int>,
    k: int,
    line: Line,
)
    requires
        call_ensures(render_task_panel, (tasks, theme, width), r),
        picks(picked, tasks@.len() as int, |i: int| tasks@[i].status == status),
        0 <= k < picked.len(),
        call_ensures(task_line, (&tasks@[picked[k]], theme, width), line),
        ahead == (if status is InProgress {
            0
        } else {
            selected(task_views(tasks@), Some(TaskStatus::InProgress)).len() as int
        }) + (if status is InProgress || status is Pending {
            0
        } else {
            selected(task_views(tasks@), Some(TaskStatus::Pending)).len() as int
        }) + (if status is Cancelled {
            selected(task_views(tasks@), Some(TaskStatus::Completed)).len() as int
        } else {
            0
        }),
    ensures
        r.1@.len() == tasks@.len(),
        0 <= ahead + k < r.1@.len(),
        r.1@[ahead + k]@ == line@,
{
    let all = task_views(tasks@);
    assert(all.len() == tasks@.len());
    let given = |i: int| tasks@[i].status == status;
    let want = |i: int| all[i].status == status;
    assert(picks(picked, all.len() as int, want)) by {
        assert(picks(picked, tasks@.len() as int, given));
        assert forall|i: int| 0 <= i < all.len() && #[trigger] want(i) implies picked.contains(
            i,
        ) by {
            assert(given(i));
        }
        assert forall|a: int| 0 <= a < picked.len() implies 0 <= #[trigger] picked[a] < all.len()
            && want(picked[a]) by {
            assert(given(picked[a]));
        }
    }
    lemma_selected_at(all, status, picked);
    panel_orders_by_priority(all);
    assert(0 <= picked[k] < all.len());
    let own = selected(all, Some(status));
    assert(own[k] == all[picked[k]]);
    let shown = shown_tasks(by_priority(all), *theme, width);
    let v = line_views(r.1@);
    assert(v == shown);
    assert(v.len() == r.1@.len());
    assert(by_priority(all)[ahead + k] == own[k]);
    assert(v[ahead + k] == r.1@[ahead + k]@);
}

proof fn lemma_selected_at(tasks: Seq<TaskView>, s: TaskStatus, picked: Seq<int>)
    requires
        picks(picked, tasks.len() as int, |i: int| tasks[i].status == s),
    ensures
        selected(tasks, Some(s)).len() == picked.len(),
        forall|k: int|
            0 <= k < picked.len() ==> #[trigger] selected(tasks, Some(s))[k] == tasks[picked[k]],
    decreases tasks.len(),
{
    let n = tasks.len() as int;
    let wanted = |i: int| tasks[i].status == s;
    if n == 0 {
        lemma_picks_none(picked, n, wanted);
    } else {
        lemma_picks_step(picked, n, wanted);
        let init = tasks.drop_last();
        let fewer = if wanted(n - 1) {
            picked.drop_last()
        } else {
            picked
        };
        let narrow = |i: int| init[i].status == s;
        assert(picks(fewer, n - 1, narrow)) by {
            assert(picks(fewer, n - 1, wanted));
            assert forall|i: int| 0 <= i < n - 1 && #[trigger] narrow(i) implies fewer.contains(
                i,
            ) by {
                assert(wanted(i));
            }
            assert forall|a: int| 0 <= a < fewer.len() implies 0 <= #[trigger] fewer[a] < n - 1
                && narrow(fewer[a]) by {
                assert(wanted(fewer[a]));
            }
        }
        lemma_selected_at(init, s, fewer);
        assert forall|k: int| 0 <= k < picked.len() implies #[trigger] selected(tasks, Some(s))[k]
            == tasks[picked[k]] by {
            if k < fewer.len() {
                assert(fewer[k] == picked[k]);
                assert(0 <= fewer[k] < n - 1);
                assert(selected(init, Some(s))[k] == init[fewer[k]]);
            }
        }
    }
}

/// A row of the sidebar shows the conversation at its place: the beginning of
/// its id, how many messages it has and how long ago the last one came; the
/// current one is marked.
pub proof fn rows_show_their_conversations(
    sessions: &Vec<SessionItem>,
    current: &str,
    now: i128,
    r: Vec<SidebarRow>,
    i: int,
    id: &str,
    short: String,
    age: String,
)
    requires
        call_ensures(render_sidebar, (sessions, current, now), r),
        0 <= i < r@.len(),
        i < sessions@.len() ==> id@ == sessions@[i].id@,
        call_ensures(short_id, (id,), short),
        i < sessions@.len() ==> call_ensures(
            relative_time_at,
            (now, sessions@[i].last_message_at, sessions@[i].offset),
            age,
        ),
    ensures
        r@.len() == sessions@.len() || r@.len() == 20,
        r@.len() <= 20 && r@.len() <= sessions@.len(),
        ({
            let s = r@[i].line@;
            let own = sessions@[i].id@ == current@;
            &&& r@[i].current == own
            &&& s.len() == 6
            &&& own ==> s[0].content == "▶ "@
            &&& !own ==> s[0].content == "  "@
            &&& s[1].content == short@
            &&& s[3].content == "("@ + decimal(sessions@[i].message_count as nat) + " 条)"@
            &&& s[5].content == age@
        }),
{
    assert(session_views(sessions@)[i] == sessions@[i]@);
}

/// The title bar tells whether a turn runs, the current conversation by the
/// beginning of its id, and the status.
pub proof fn titlebar_tells_the_state(app: &App, id: &str, short: String, r: Line)
    requires
        call_ensures(render_titlebar, (app,), r),
        id@ == app.current_session_id@,
        call_ensures(short_id, (id,), short),
    ensures
        r@[2].content == if app.is_turning {
            "● 生成中"@
        } else {
            "○ 就绪"@
        },
        r@[4].content == "["@ + short@ + "] "@,
        r@[5].content == app.status_msg@,
{
}

/// A permission prompt shows its risk, its tool, what it is about and its
/// options in their order.
pub proof fn prompt_shows_what_is_asked(p: &PermissionPrompt, r: Vec<Line>)
    requires
        call_ensures(render_permission_popup, (p,), r),
        p.tool@.len() > 0 && !p.tool@.contains('\n'),
        p.summary@.len() > 0 && !p.summary@.contains('\n'),
    ensures
        r@.len() == 6,
        p.risk is Low ==> r@[0]@[1].content == "["@ + "Low"@ + "]"@,
        p.risk is Medium ==> r@[0]@[1].content == "["@ + "Medium"@ + "]"@,
        p.risk is High ==> r@[0]@[1].content == "["@ + "High"@ + "]"@,
        r@[1]@.len() == 1 && r@[1]@[0].content == "工具: "@ + p.tool@,
        r@[2]@.len() == 1 && r@[2]@[0].content == "说明: "@ + p.summary@,
{
    let v = line_views(r@);
    assert(v.len() == r@.len());
    assert(v[0] == r@[0]@ && v[1] == r@[1]@ && v[2] == r@[2]@);
    reveal_strlit("工具: ");
    reveal_strlit("说明: ");
    lemma_one_line_of("工具: "@, p.tool@);
    lemma_one_line_of("说明: "@, p.summary@);
}

proof fn lemma_one_line_of(label: Seq<char>, text: Seq<char>)
    requires
        label.len() > 0,
        !label.contains('\n'),
        !text.contains('\n'),
    ensures
        text_pieces(label + text) == seq![raw_span(label + text)],
{
    let t = label + text;
    lemma_index_from(t, '\n', 0);
    if let Some(i) = index_from(t, '\n', 0) {
        if i < label.len() {
            assert(label[i] == '\n');
        } else {
            assert(text[i - label.len()] == '\n');
        }
    }
    assert(lines(t) == seq![t]);
    assert(text_pieces(t) == seq![raw_span(t)]);
}

/// A permission prompt stands in the middle of the screen and within it: as
/// far from the left as from the right and from the top as from the bottom,
/// to within one.
pub proof fn prompt_stands_in_the_middle(area: Area, r: Area)
    requires
        area.height >= 7,
        area.x + area.width <= u16::MAX,
        area.y + area.height <= u16::MAX,
        call_ensures(popup_area, (area,), r),
    ensures
        r.height == 7,
        r.width == 60 || (r.width == area.width && area.width < 60),
        ({
            let left = r.x - area.x;
            let right = area.x + area.width - (r.x + r.width);
            let top = r.y - area.y;
            let bottom = area.y + area.height - (r.y + r.height);
            &&& 0 <= left <= right <= left + 1
            &&& 0 <= top <= bottom <= top + 1
        }),
{
}

/// The cursor stands inside the border of the input, one column on for each
/// character before it.
pub proof fn cursor_stands_behind_its_characters(
    area: Area,
    column: usize,
    next: usize,
    r: (u16, u16),
    s: (u16, u16),
)
    requires
        area.x + 1 + next <= u16::MAX,
        area.y < u16::MAX,
        next == column + 1,
        call_ensures(input_cursor, (area, column), r),
        call_ensures(input_cursor, (area, next), s),
    ensures
        s.0 == r.0 + 1 && s.1 == r.1,
        r.1 == area.y + 1,
        column == 0 ==> r.0 == area.x + 1,
{
}

/// What an option is called.
pub proof fn options_have_their_names(opt: PromptOption, r: String)
    requires
        call_ensures(option_label, (opt,), r),
    ensures
        opt is AllowOnce ==> r@ == "允许一次"@,
        opt is AllowAlways ==> r@ == "始终允许"@,
        opt is DenyOnce ==> r@ == "拒绝一次"@,
        opt is DenyAlways ==> r@ == "始终拒绝"@,
{
}

/// A task is shown by the mark of its state and its text, cut to the width of
/// the panel.
pub proof fn task_is_shown_by_mark_and_text(
    task: &Task,
    theme: &Theme,
    width: u16,
    content: &str,
    mark: (&'static str, Color),
    cut: String,
    r: Line,
)
    requires
        call_ensures(task_line, (task, theme, width), r),
        content@ == task.content@,
        width > 5,
        call_ensures(status_mark, (task.status, theme), mark),
        call_ensures(truncate_str, (content, (width - 5) as usize), cut),
    ensures
        r@.len() == 2,
        r@[0].content == mark.0@ + " "@,
        r@[0].style.fg == Some(mark.1),
        r@[1].content == cut@,
{
}

} // verus!
