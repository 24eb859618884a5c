//! Markdown as styled lines.
//!
//! Each line is taken by itself: a heading, a quotation, an item of a list, a
//! rule or a paragraph. Between two fences the lines are code. Text that is
//! still coming in may end inside a code block; what there is of it is shown.

use vstd::prelude::*;
use vstd::string::*;
use crate::text::chars::{chars_equal, from_chars, is_digit, is_space, sub_chars, to_chars};
use crate::text::search::{
    begins, blank, find, find_from, is_blank, lemma_find_from, lemma_index_from, occurs_at,
    starts_with, trim, trim_end, trim_start, trimmed, trimmed_start,
};
use crate::text::split::{
    char_views, join, joined, lines, lines_part_at_line_feeds, opt_view, split_lines, views,
};
use crate::tui::style::{
    append_spans, in_color, line_of, line_of_two, line_views, plain_style, raw_span, span_views,
    Color, Line, Span, SpanView, Style,
};

verus! {

/// The character is a number by Unicode's categories.
pub uninterp spec fn numeric(c: char) -> bool;

/// Whether a character is a number: `char::is_numeric` of the standard
/// library.
///
/// The claim: the answer is a function of the character, and among the ASCII
/// characters the digits alone are numbers.
#[verifier::external_body]
pub(crate) fn is_numeric(c: char) -> (r: bool)
    ensures
        r == numeric(c),
        (c as u32) < 0x80 ==> r == is_digit(c),
{
    c.is_numeric()
}

/// Bold text.
pub open spec fn bold_span(content: Seq<char>) -> SpanView {
    SpanView { content, style: Style { bold: true, ..plain_style() } }
}

/// Italic text.
pub open spec fn italic_span(content: Seq<char>) -> SpanView {
    SpanView { content, style: Style { italic: true, ..plain_style() } }
}

/// Code within a line.
pub open spec fn code_span(content: Seq<char>) -> SpanView {
    SpanView {
        content,
        style: Style { fg: Some(Color::Green), bg: Some(Color::Black), ..plain_style() },
    }
}

/// Pending plain text as a piece, if there is any.
pub open spec fn flushed(buf: Seq<char>) -> Seq<SpanView> {
    if buf.len() == 0 {
        Seq::empty()
    } else {
        seq![raw_span(buf)]
    }
}

/// The pieces of `text` from index `i` on, where `buf` is plain text that
/// waits to be put in front of them. `**` to the next `**` is bold, `*` to the
/// next `*` italic, a backquote to the next one code; a mark without its
/// partner is plain text, `**` as a whole.
pub open spec fn inline_from(text: Seq<char>, i: int, buf: Seq<char>) -> Seq<SpanView>
    decreases text.len() - i,
    when 0 <= i
    via inline_terminates
{
    if i >= text.len() {
        flushed(buf)
    } else if text[i] == '*' && i + 1 < text.len() && text[i + 1] == '*' && find_from(
        text,
        seq!['*', '*'],
        i + 2,
    ) is Some {
        let end = find_from(text, seq!['*', '*'], i + 2)->0;
        flushed(buf) + seq![bold_span(text.subrange(i + 2, end))] + inline_from(
            text,
            end + 2,
            Seq::empty(),
        )
    } else if text[i] == '*' && i + 1 < text.len() && text[i + 1] == '*' {
        inline_from(text, i + 2, buf.push('*').push('*'))
    } else if text[i] == '*' && find_from(text, seq!['*'], i + 1) is Some {
        let end = find_from(text, seq!['*'], i + 1)->0;
        flushed(buf) + seq![italic_span(text.subrange(i + 1, end))] + inline_from(
            text,
            end + 1,
            Seq::empty(),
        )
    } else if text[i] == '`' && find_from(text, seq!['`'], i + 1) is Some {
        let end = find_from(text, seq!['`'], i + 1)->0;
        flushed(buf) + seq![code_span(text.subrange(i + 1, end))] + inline_from(
            text,
            end + 1,
            Seq::empty(),
        )
    } else {
        inline_from(text, i + 1, buf.push(text[i]))
    }
}

#[via_fn]
proof fn inline_terminates(text: Seq<char>, i: int, buf: Seq<char>) {
    lemma_find_from(text, seq!['*', '*'], i + 2);
    lemma_find_from(text, seq!['*'], i + 1);
    lemma_find_from(text, seq!['`'], i + 1);
}

/// The pieces of a text; an empty text is one empty piece.
pub open spec fn inline(text: Seq<char>) -> Seq<SpanView> {
    let spans = inline_from(text, 0, Seq::empty());
    if spans.len() == 0 {
        seq![raw_span(Seq::empty())]
    } else {
        spans
    }
}

/// The first index at or after `start` where `marker` stands.
pub fn find_marker(text: &[char], start: usize, marker: &[char]) -> (r: Option<usize>)
    requires
        start <= text@.len(),
    ensures
        match r {
            Some(i) => find_from(text@, marker@, start as int) == Some(i as int) && start <= i && i
                + marker@.len() <= text@.len(),
            None => find_from(text@, marker@, start as int) is None,
        },
{
    proof {
        lemma_find_from(text@, marker@, start as int);
    }
    find(text, marker, start)
}

/// Puts pending plain text on the list.
fn flush(spans: &mut Vec<Span>, buf: &Vec<char>)
    ensures
        span_views(final(spans)@) == span_views(old(spans)@) + flushed(buf@),
{
    let ghost before = span_views(spans@);
    if buf.len() > 0 {
        spans.push(Span::raw(from_chars(buf.as_slice())));
        assert(span_views(spans@) == before.push(raw_span(buf@)));
    }
    assert(span_views(spans@) == before + flushed(buf@));
}

/// A vector of one character.
fn one(c: char) -> (r: Vec<char>)
    ensures
        r@ == seq![c],
{
    let mut v: Vec<char> = Vec::new();
    v.push(c);
    assert(v@ == seq![c]);
    v
}

/// Puts pending plain text and then the text from `a` to `b` in a style on the
/// list.
fn push_styled(
    spans: &mut Vec<Span>,
    buf: &Vec<char>,
    text: &[char],
    a: usize,
    b: usize,
    style: Style,
)
    requires
        a <= b <= text@.len(),
    ensures
        span_views(final(spans)@) == span_views(old(spans)@) + flushed(buf@) + seq![
            SpanView { content: text@.subrange(a as int, b as int), style },
        ],
{
    flush(spans, buf);
    let ghost before = span_views(spans@);
    let inner = sub_chars(text, a, b);
    spans.push(Span::styled(from_chars(inner.as_slice()), style));
    assert(span_views(spans@) == before.push(SpanView { content: inner@, style }));
}

/// Splits a text into its pieces.
pub fn parse_inline(text: &str) -> (r: Vec<Span>)
    ensures
        span_views(r@) == inline(text@),
{
    let chars = to_chars(text);
    let t = chars.as_slice();
    let n: usize = t.len();
    let mut star2 = one('*');
    star2.push('*');
    assert(star2@ == seq!['*', '*']);
    let star = one('*');
    let tick = one('`');
    let mut spans: Vec<Span> = Vec::new();
    let mut buf: Vec<char> = Vec::new();
    let mut i: usize = 0;
    assert(span_views(spans@) == Seq::<SpanView>::empty());
    while i < n
        invariant
            i <= n,
            n == t@.len(),
            t@ == text@,
            star2@ == seq!['*', '*'],
            star@ == seq!['*'],
            tick@ == seq!['`'],
            span_views(spans@) + inline_from(text@, i as int, buf@) == inline_from(
                text@,
                0,
                Seq::empty(),
            ),
        decreases n - i,
    {
        let ghost before = span_views(spans@);
        let ghost whole = inline_from(text@, 0, Seq::empty());
        if t[i] == '*' && i + 1 < n && t[i + 1] == '*' {
            if let Some(end) = find_marker(t, i + 2, star2.as_slice()) {
                push_styled(
                    &mut spans,
                    &buf,
                    t,
                    i + 2,
                    end,
                    Style { fg: None, bg: None, bold: true, italic: false, dim: false },
                );
                proof {
                    let mid = flushed(buf@) + seq![bold_span(text@.subrange(i + 2, end as int))];
                    let rest = inline_from(text@, end + 2, Seq::empty());
                    assert(inline_from(text@, i as int, buf@) == mid + rest);
                    assert(span_views(spans@) + rest == before + (mid + rest));
                }
                buf = Vec::new();
                assert(buf@ == Seq::<char>::empty());
                i = end + 2;
                continue ;
            }
            assert(inline_from(text@, i as int, buf@) == inline_from(
                text@,
                i + 2,
                buf@.push('*').push('*'),
            ));
            buf.push('*');
            buf.push('*');
            i = i + 2;
            continue ;
        }
        if t[i] == '*' {
            if let Some(end) = find_marker(t, i + 1, star.as_slice()) {
                push_styled(
                    &mut spans,
                    &buf,
                    t,
                    i + 1,
                    end,
                    Style { fg: None, bg: None, bold: false, italic: true, dim: false },
                );
                proof {
                    let mid = flushed(buf@) + seq![italic_span(text@.subrange(i + 1, end as int))];
                    let rest = inline_from(text@, end + 1, Seq::empty());
                    assert(inline_from(text@, i as int, buf@) == mid + rest);
                    assert(span_views(spans@) + rest == before + (mid + rest));
                }
                buf = Vec::new();
                assert(buf@ == Seq::<char>::empty());
                i = end + 1;
                continue ;
            }
        }
        if t[i] == '`' {
            if let Some(end) = find_marker(t, i + 1, tick.as_slice()) {
                push_styled(
                    &mut spans,
                    &buf,
                    t,
                    i + 1,
                    end,
                    Style {
                        fg: Some(Color::Green),
                        bg: Some(Color::Black),
                        bold: false,
                        italic: false,
                        dim: false,
                    },
                );
                proof {
                    let mid = flushed(buf@) + seq![code_span(text@.subrange(i + 1, end as int))];
                    let rest = inline_from(text@, end + 1, Seq::empty());
                    assert(inline_from(text@, i as int, buf@) == mid + rest);
                    assert(span_views(spans@) + rest == before + (mid + rest));
                }
                buf = Vec::new();
                assert(buf@ == Seq::<char>::empty());
                i = end + 1;
                continue ;
            }
        }
        assert(inline_from(text@, i as int, buf@) == inline_from(
            text@,
            i + 1,
            buf@.push(text@[i as int]),
        ));
        buf.push(t[i]);
        i = i + 1;
    }
    flush(&mut spans, &buf);
    if spans.len() == 0 {
        assert(span_views(spans@).len() == 0);
        spans.push(Span::raw(String::new()));
        assert(span_views(spans@) == seq![raw_span(Seq::empty())]);
    } else {
        assert(span_views(spans@).len() > 0);
    }
    spans
}

/// An item of a numbered list: the number and what follows it.
pub open spec fn ordered_item(raw: Seq<char>) -> Option<(Seq<char>, Seq<char>)> {
    let t = trim_start(raw);
    match find_from(t, seq!['.', ' '], 0) {
        None => None,
        Some(d) => if forall|i: int| 0 <= i < d ==> numeric(#[trigger] t[i]) {
            Some((t.take(d), t.skip(d + 2)))
        } else {
            None
        },
    }
}

/// Splits an item of a numbered list into its number and its text.
pub fn split_ordered_list_item(raw: &str) -> (r: Option<(String, String)>)
    ensures
        match r {
            Some(p) => ordered_item(raw@) == Some((p.0@, p.1@)),
            None => ordered_item(raw@) is None,
        },
{
    let chars = to_chars(raw);
    let t = trimmed_start(chars.as_slice());
    let mut mark = one('.');
    mark.push(' ');
    assert(mark@ == seq!['.', ' ']);
    proof {
        lemma_find_from(t@, seq!['.', ' '], 0);
    }
    let len: usize = t.len();
    match find(t.as_slice(), mark.as_slice(), 0) {
        None => None,
        Some(d) => {
            let mut i: usize = 0;
            while i < d
                invariant
                    i <= d,
                    d + 2 <= t@.len(),
                    t@ == trim_start(raw@),
                    find_from(t@, seq!['.', ' '], 0) == Some(d as int),
                    forall|j: int| 0 <= j < i ==> numeric(#[trigger] t@[j]),
                decreases d - i,
            {
                if !is_numeric(t[i]) {
                    return None;
                }
                i = i + 1;
            }
            let num = sub_chars(t.as_slice(), 0, d);
            let rest = sub_chars(t.as_slice(), d + 2, len);
            assert(num@ == t@.take(d as int));
            assert(rest@ == t@.skip(d + 2));
            Some((from_chars(num.as_slice()), from_chars(rest.as_slice())))
        },
    }
}

/// A fence of a code block.
pub open spec fn fence() -> Seq<char> {
    seq!['`', '`', '`']
}

/// The line opens or closes a code block.
pub open spec fn is_fence(raw: Seq<char>) -> bool {
    starts_with(trim_start(raw), fence())
}

/// `s` without the fences at its start.
pub open spec fn past_fences(s: Seq<char>) -> Seq<char>
    decreases s.len(),
{
    if starts_with(s, fence()) {
        past_fences(s.skip(3))
    } else {
        s
    }
}

/// The language named behind an opening fence.
pub open spec fn fence_language(raw: Seq<char>) -> Option<Seq<char>> {
    let lang = trim(past_fences(trim_start(raw)));
    if lang.len() == 0 {
        None
    } else {
        Some(lang)
    }
}

/// A code block as one line: its language, if it has one, and its code.
pub open spec fn code_block(code: Seq<Seq<char>>, lang: Option<Seq<char>>) -> Seq<SpanView> {
    let body = SpanView { content: joined(code, seq!['\n']), style: in_color(Color::Green) };
    match lang {
        Some(l) => seq![
            SpanView { content: " ["@ + l + "]\n"@, style: in_color(Color::DarkGray) },
            body,
        ],
        None => seq![body],
    }
}

/// A heading in its colour.
pub open spec fn heading(text: Seq<char>, c: Color) -> Seq<SpanView> {
    seq![SpanView { content: text, style: Style { bold: true, ..in_color(c) } }]
}

/// A rule across the page.
pub open spec fn rule() -> Seq<char> {
    Seq::new(40, |i: int| '─')
}

/// A line outside code blocks.
pub open spec fn text_line(raw: Seq<char>) -> Seq<SpanView> {
    if is_blank(raw) {
        Seq::empty()
    } else if starts_with(raw, "# "@) {
        heading(raw.skip("# "@.len() as int), Color::Blue)
    } else if starts_with(raw, "## "@) {
        heading(raw.skip("## "@.len() as int), Color::Cyan)
    } else if starts_with(raw, "### "@) {
        heading(raw.skip("### "@.len() as int), Color::Magenta)
    } else if starts_with(raw, "> "@) {
        seq![
            SpanView { content: "▌ "@, style: in_color(Color::DarkGray) },
            SpanView {
                content: raw.skip("> "@.len() as int),
                style: in_color(Color::DarkGray),
            },
        ]
    } else if starts_with(raw, "- "@) {
        seq![SpanView { content: "  • "@, style: in_color(Color::Yellow) }] + inline(
            raw.skip("- "@.len() as int),
        )
    } else if starts_with(raw, "* "@) {
        seq![SpanView { content: "  • "@, style: in_color(Color::Yellow) }] + inline(
            raw.skip("* "@.len() as int),
        )
    } else if ordered_item(raw) is Some {
        let (num, rest) = ordered_item(raw)->0;
        seq![
            SpanView { content: "  "@ + num + ". "@, style: in_color(Color::Yellow) },
        ] + inline(rest)
    } else if trim(raw) == "---"@ || trim(raw) == "***"@ {
        seq![SpanView { content: rule(), style: in_color(Color::DarkGray) }]
    } else {
        inline(raw)
    }
}

/// How far the lines were read.
#[verifier::ext_equal]
pub struct ReadState {
    pub out: Seq<Seq<SpanView>>,
    /// Between two fences.
    pub in_code: bool,
    pub lang: Option<Seq<char>>,
    pub code: Seq<Seq<char>>,
}

/// The state after a further line.
pub open spec fn after_line(s: ReadState, raw: Seq<char>) -> ReadState {
    if is_fence(raw) {
        if s.in_code {
            ReadState {
                out: s.out.push(code_block(s.code, s.lang)),
                in_code: false,
                lang: None,
                code: Seq::empty(),
            }
        } else {
            ReadState {
                in_code: true,
                lang: match fence_language(raw) {
                    Some(l) => Some(l),
                    None => s.lang,
                },
                ..s
            }
        }
    } else if s.in_code {
        ReadState { code: s.code.push(raw), ..s }
    } else {
        ReadState { out: s.out.push(text_line(raw)), ..s }
    }
}

/// The state after the first `n` lines.
pub open spec fn read_to(ls: Seq<Seq<char>>, n: int) -> ReadState
    decreases n,
{
    if n <= 0 {
        ReadState { out: Seq::empty(), in_code: false, lang: None, code: Seq::empty() }
    } else {
        after_line(read_to(ls, n - 1), ls[n - 1])
    }
}

/// Markdown as styled lines.
pub open spec fn markdown(text: Seq<char>) -> Seq<Seq<SpanView>> {
    let s = read_to(lines(text), lines(text).len() as int);
    if s.in_code && s.code.len() > 0 {
        s.out.push(code_block(s.code, s.lang))
    } else {
        s.out
    }
}

/// A code block as one line.
pub fn render_code_block(code: &Vec<String>, lang: &Option<String>) -> (r: Line)
    ensures
        r@ == code_block(views(code@), opt_view(*lang)),
{
    proof {
        reveal_strlit("\n");
        assert("\n"@ == seq!['\n']);
    }
    let body = Span::styled(join(code, "\n"), Style::colored(Color::Green));
    match lang {
        Some(l) => {
            let mut s = " [".to_owned();
            s.append(l.as_str());
            s.append("]\n");
            line_of_two(Span::styled(s, Style::colored(Color::DarkGray)), body)
        },
        None => line_of(body),
    }
}

/// What follows `prefix` where `raw` begins with it.
fn after_prefix(raw: &[char], prefix: &str) -> (r: Option<Vec<char>>)
    ensures
        match r {
            Some(v) => starts_with(raw@, prefix@) && v@ == raw@.skip(prefix@.len() as int),
            None => !starts_with(raw@, prefix@),
        },
{
    let p = to_chars(prefix);
    if begins(raw, p.as_slice()) {
        let rest = sub_chars(raw, p.len(), raw.len());
        assert(rest@ == raw@.skip(prefix@.len() as int));
        Some(rest)
    } else {
        None
    }
}

/// A heading.
fn heading_line(text: Vec<char>, c: Color) -> (r: Line)
    ensures
        r@ == heading(text@, c),
{
    line_of(
        Span::styled(
            from_chars(text.as_slice()),
            Style { fg: Some(c), bg: None, bold: true, italic: false, dim: false },
        ),
    )
}

/// An item of a list with its mark.
fn item_line(mark: String, text: &str) -> (r: Line)
    ensures
        r@ == seq![SpanView { content: mark@, style: in_color(Color::Yellow) }] + inline(text@),
{
    let mut spans: Vec<Span> = Vec::new();
    spans.push(Span::styled(mark, Style::colored(Color::Yellow)));
    assert(span_views(spans@) == seq![
        SpanView { content: mark@, style: in_color(Color::Yellow) },
    ]);
    append_spans(&mut spans, parse_inline(text));
    Line { spans }
}

/// Whether a line, without the white space around it, is the given text.
fn trims_to(raw: &[char], text: &str) -> (r: bool)
    ensures
        r == (trim(raw@) == text@),
{
    let t = trimmed(raw);
    let w = to_chars(text);
    chars_equal(t.as_slice(), w.as_slice())
}

/// A rule across the page.
fn rule_line() -> (r: Line)
    ensures
        r@ == seq![SpanView { content: rule(), style: in_color(Color::DarkGray) }],
{
    let mut v: Vec<char> = Vec::new();
    let mut i: usize = 0;
    while i < 40
        invariant
            i <= 40,
            v@.len() == i,
            forall|j: int| 0 <= j < i ==> v@[j] == '─',
        decreases 40 - i,
    {
        v.push('─');
        i = i + 1;
    }
    assert(v@ == rule());
    line_of(Span::styled(from_chars(v.as_slice()), Style::colored(Color::DarkGray)))
}

/// Styles a line outside code blocks.
fn style_line(raw: &[char]) -> (r: Line)
    ensures
        r@ == text_line(raw@),
{
    if blank(raw) {
        let r = Line { spans: Vec::new() };
        assert(r@ == Seq::<SpanView>::empty());
        return r;
    }
    if let Some(t) = after_prefix(raw, "# ") {
        return heading_line(t, Color::Blue);
    }
    if let Some(t) = after_prefix(raw, "## ") {
        return heading_line(t, Color::Cyan);
    }
    if let Some(t) = after_prefix(raw, "### ") {
        return heading_line(t, Color::Magenta);
    }
    if let Some(t) = after_prefix(raw, "> ") {
        return line_of_two(
            Span::styled("▌ ".to_owned(), Style::colored(Color::DarkGray)),
            Span::styled(from_chars(t.as_slice()), Style::colored(Color::DarkGray)),
        );
    }
    if let Some(t) = after_prefix(raw, "- ") {
        let text = from_chars(t.as_slice());
        return item_line("  • ".to_owned(), text.as_str());
    }
    if let Some(t) = after_prefix(raw, "* ") {
        let text = from_chars(t.as_slice());
        return item_line("  • ".to_owned(), text.as_str());
    }
    let whole = from_chars(raw);
    if let Some((num, rest)) = split_ordered_list_item(whole.as_str()) {
        let mut mark = "  ".to_owned();
        mark.append(num.as_str());
        mark.append(". ");
        return item_line(mark, rest.as_str());
    }
    if trims_to(raw, "---") || trims_to(raw, "***") {
        return rule_line();
    }
    Line { spans: parse_inline(whole.as_str()) }
}

/// The language named behind an opening fence.
fn language_of(raw: &[char]) -> (r: Option<String>)
    ensures
        opt_view(r) == fence_language(raw@),
{
    let mut three = one('`');
    three.push('`');
    three.push('`');
    assert(three@ == fence());
    let t = trimmed_start(raw);
    let mut at: usize = 0;
    assert(t@.skip(0) == t@);
    loop
        invariant
            at <= t@.len(),
            three@ == fence(),
            past_fences(t@) == past_fences(t@.skip(at as int)),
        ensures
            at <= t@.len(),
            past_fences(t@) == t@.skip(at as int),
        decreases t@.len() - at,
    {
        let rest = sub_chars(t.as_slice(), at, t.len());
        assert(rest@ == t@.skip(at as int));
        if !begins(rest.as_slice(), three.as_slice()) {
            break ;
        }
        assert(rest@.len() >= 3);
        assert(t@.skip(at as int).skip(3) == t@.skip(at + 3));
        at = at + 3;
    }
    let rest = sub_chars(t.as_slice(), at, t.len());
    assert(rest@ == t@.skip(at as int));
    let lang = trimmed(rest.as_slice());
    if lang.len() == 0 {
        None
    } else {
        Some(from_chars(lang.as_slice()))
    }
}

/// Turns Markdown into styled lines.
pub fn parse_markdown(text: &str) -> (r: Vec<Line>)
    ensures
        line_views(r@) == markdown(text@),
{
    let chars = to_chars(text);
    let ls = split_lines(chars.as_slice());
    let ghost all = lines(text@);
    let mut three = one('`');
    three.push('`');
    three.push('`');
    assert(three@ == fence());
    let mut out: Vec<Line> = Vec::new();
    let mut in_code = false;
    let mut lang: Option<String> = None;
    let mut code: Vec<String> = Vec::new();
    let mut i: usize = 0;
    assert(line_views(out@) == Seq::<Seq<SpanView>>::empty());
    assert(views(code@) == Seq::<Seq<char>>::empty());
    while i < ls.len()
        invariant
            i <= ls@.len(),
            all == char_views(ls@),
            three@ == fence(),
            read_to(all, i as int) == (ReadState {
                out: line_views(out@),
                in_code,
                lang: opt_view(lang),
                code: views(code@),
            }),
        decreases ls@.len() - i,
    {
        let raw = ls[i].as_slice();
        let ghost out0 = line_views(out@);
        let ghost code0 = views(code@);
        assert(raw@ == all[i as int]);
        let lead = trimmed_start(raw);
        if begins(lead.as_slice(), three.as_slice()) {
            if in_code {
                let block = render_code_block(&code, &lang);
                out.push(block);
                assert(line_views(out@) == out0.push(code_block(code0, opt_view(lang))));
                code = Vec::new();
                assert(views(code@) == Seq::<Seq<char>>::empty());
                lang = None;
                in_code = false;
            } else {
                if let Some(l) = language_of(raw) {
                    lang = Some(l);
                }
                in_code = true;
            }
        } else if in_code {
            code.push(from_chars(raw));
            assert(views(code@) == code0.push(raw@));
        } else {
            let line = style_line(raw);
            out.push(line);
            assert(line_views(out@) == out0.push(text_line(raw@)));
        }
        i = i + 1;
    }
    if in_code && code.len() > 0 {
        let ghost out0 = line_views(out@);
        let block = render_code_block(&code, &lang);
        out.push(block);
        assert(line_views(out@) == out0.push(code_block(views(code@), opt_view(lang))));
    }
    out
}

/// The text ends inside a code block.
pub open spec fn ends_in_code(text: Seq<char>) -> bool {
    read_to(lines(text), lines(text).len() as int).in_code
}

/// Two texts that are parted by a line feed outside a code block are shown
/// one after the other.
pub proof fn parted_texts_are_shown_in_turn(a: Seq<char>, b: Seq<char>)
    requires
        !ends_in_code(a.push('\n')),
    ensures
        markdown(a.push('\n') + b) == markdown(a.push('\n')) + markdown(b),
        ends_in_code(a.push('\n') + b) == ends_in_code(b),
{
    let head = a.push('\n');
    lines_part_at_line_feeds(a, b);
    let first = lines(head);
    let second = lines(b);
    lemma_calm_outside_code(first, first.len() as int);
    lemma_read_on(first, second, second.len() as int);
    let s = read_to(first, first.len() as int);
    let t = read_to(second, second.len() as int);
    assert(s.out + t.out.push(code_block(t.code, t.lang)) == (s.out + t.out).push(
        code_block(t.code, t.lang),
    ));
}

/// Outside a code block nothing of one is kept.
proof fn lemma_calm_outside_code(ls: Seq<Seq<char>>, n: int)
    ensures
        !read_to(ls, n).in_code ==> read_to(ls, n).lang is None && read_to(ls, n).code
            == Seq::<Seq<char>>::empty(),
    decreases n,
{
    if n > 0 {
        lemma_calm_outside_code(ls, n - 1);
    }
}

/// Lines that follow others outside a code block are read as by themselves.
proof fn lemma_read_on(a: Seq<Seq<char>>, b: Seq<Seq<char>>, n: int)
    requires
        0 <= n <= b.len(),
        !read_to(a, a.len() as int).in_code,
    ensures
        ({
            let s = read_to(b, n);
            read_to(a + b, a.len() + n) == (ReadState {
                out: read_to(a, a.len() as int).out + s.out,
                ..s
            })
        }),
    decreases n,
{
    let before = read_to(a, a.len() as int);
    if n > 0 {
        lemma_read_on(a, b, n - 1);
        assert((a + b)[a.len() + n - 1] == b[n - 1]);
        let s = read_to(b, n - 1);
        let line = text_line(b[n - 1]);
        let block = code_block(s.code, s.lang);
        assert((before.out + s.out).push(line) == before.out + s.out.push(line));
        assert((before.out + s.out).push(block) == before.out + s.out.push(block));
    } else {
        lemma_calm_outside_code(a, a.len() as int);
        lemma_same_beginning(a, b, a.len() as int);
        assert(before.out + Seq::<Seq<SpanView>>::empty() == before.out);
    }
}

proof fn lemma_same_beginning(a: Seq<Seq<char>>, b: Seq<Seq<char>>, n: int)
    requires
        n <= a.len(),
    ensures
        read_to(a + b, n) == read_to(a, n),
    decreases n,
{
    if n > 0 {
        lemma_same_beginning(a, b, n - 1);
        assert((a + b)[n - 1] == a[n - 1]);
    }
}

/// Text without marks is one piece that holds it as it is.
pub proof fn plain_text_is_one_piece(text: Seq<char>)
    requires
        forall|i: int| 0 <= i < text.len() ==> (#[trigger] text[i]) != '*' && text[i] != '`',
    ensures
        inline(text) == seq![raw_span(text)],
{
    lemma_plain_from(text, 0);
    assert(text.take(0) == Seq::<char>::empty());
    if text.len() == 0 {
        assert(text == Seq::<char>::empty());
    }
}

proof fn lemma_plain_from(text: Seq<char>, i: int)
    requires
        0 <= i <= text.len(),
        forall|j: int| 0 <= j < text.len() ==> (#[trigger] text[j]) != '*' && text[j] != '`',
    ensures
        inline_from(text, i, text.take(i)) == flushed(text),
    decreases text.len() - i,
{
    if i < text.len() {
        assert(text[i] != '*' && text[i] != '`');
        assert(text.take(i).push(text[i]) == text.take(i + 1));
        lemma_plain_from(text, i + 1);
    } else {
        assert(text.take(i) == text);
    }
}

/// Further lines leave the lines before them as they are: what was shown of
/// a text while it came in stays when more of it comes.
pub proof fn later_lines_keep_earlier_ones(ls: Seq<Seq<char>>, n: int, m: int)
    requires
        0 <= n <= m,
    ensures
        read_to(ls, n).out.len() <= read_to(ls, m).out.len(),
        read_to(ls, m).out.take(read_to(ls, n).out.len() as int) == read_to(ls, n).out,
    decreases m - n,
{
    let a = read_to(ls, n).out;
    if n < m {
        later_lines_keep_earlier_ones(ls, n, m - 1);
        let b = read_to(ls, m - 1).out;
        let c = read_to(ls, m).out;
        assert(c.take(b.len() as int) == b);
        assert(c.take(a.len() as int) == b.take(a.len() as int));
    } else {
        assert(a.take(a.len() as int) == a);
    }
}

/// A piece as it was written: bold text between `**`, italic text between `*`,
/// code between backquotes, and other text as it is.
pub open spec fn as_written(s: SpanView) -> Seq<char> {
    if s.style.bold {
        seq!['*', '*'] + s.content + seq!['*', '*']
    } else if s.style.italic {
        seq!['*'] + s.content + seq!['*']
    } else if s.style.bg is Some {
        seq!['`'] + s.content + seq!['`']
    } else {
        s.content
    }
}

/// The pieces as they were written, one after the other.
pub open spec fn all_as_written(spans: Seq<SpanView>) -> Seq<char>
    decreases spans.len(),
{
    if spans.len() == 0 {
        Seq::empty()
    } else {
        as_written(spans[0]) + all_as_written(spans.drop_first())
    }
}

proof fn lemma_written_concat(a: Seq<SpanView>, b: Seq<SpanView>)
    ensures
        all_as_written(a + b) == all_as_written(a) + all_as_written(b),
    decreases a.len(),
{
    if a.len() == 0 {
        assert(a + b == b);
        assert(all_as_written(a) + all_as_written(b) == all_as_written(b));
    } else {
        assert((a + b).drop_first() == a.drop_first() + b);
        lemma_written_concat(a.drop_first(), b);
        assert(all_as_written(a + b) == all_as_written(a) + all_as_written(b));
    }
}

proof fn lemma_written_one(s: SpanView)
    ensures
        all_as_written(seq![s]) == as_written(s),
{
    assert(seq![s].drop_first() == Seq::<SpanView>::empty());
    assert(all_as_written(Seq::<SpanView>::empty()) == Seq::<char>::empty());
    assert(seq![s][0] == s);
    assert(as_written(s) + Seq::<char>::empty() == as_written(s));
}

proof fn lemma_written_flushed(buf: Seq<char>)
    ensures
        all_as_written(flushed(buf)) == buf,
{
    if buf.len() > 0 {
        lemma_written_one(raw_span(buf));
    } else {
        assert(buf == Seq::<char>::empty());
    }
}

proof fn lemma_styled_step(buf: Seq<char>, s: SpanView, rest: Seq<SpanView>)
    ensures
        all_as_written(flushed(buf) + seq![s] + rest) == buf + as_written(s) + all_as_written(rest),
{
    lemma_written_concat(flushed(buf) + seq![s], rest);
    lemma_written_concat(flushed(buf), seq![s]);
    lemma_written_flushed(buf);
    lemma_written_one(s);
}

proof fn lemma_nothing_lost(text: Seq<char>, i: int, buf: Seq<char>)
    requires
        0 <= i <= text.len(),
    ensures
        all_as_written(inline_from(text, i, buf)) == buf + text.skip(i),
    decreases text.len() - i,
{
    let star2 = seq!['*', '*'];
    let star = seq!['*'];
    let tick = seq!['`'];
    lemma_find_from(text, star2, i + 2);
    lemma_find_from(text, star, i + 1);
    lemma_find_from(text, tick, i + 1);
    if i >= text.len() {
        lemma_written_flushed(buf);
        assert(buf + text.skip(i) == buf);
    } else if text[i] == '*' && i + 1 < text.len() && text[i + 1] == '*' && find_from(
        text,
        star2,
        i + 2,
    ) is Some {
        let end = find_from(text, star2, i + 2)->0;
        let s = bold_span(text.subrange(i + 2, end));
        let rest = inline_from(text, end + 2, Seq::empty());
        lemma_nothing_lost(text, end + 2, Seq::empty());
        lemma_styled_step(buf, s, rest);
        assert(text.subrange(end, end + 2) == star2);
        assert(text.subrange(end, end + 2)[0] == text[end]);
        assert(text.subrange(end, end + 2)[1] == text[end + 1]);
        assert(text.skip(i) == as_written(s) + text.skip(end + 2));
        assert(Seq::<char>::empty() + text.skip(end + 2) == text.skip(end + 2));
        assert(buf + as_written(s) + text.skip(end + 2) == buf + text.skip(i));
    } else if text[i] == '*' && i + 1 < text.len() && text[i + 1] == '*' {
        lemma_nothing_lost(text, i + 2, buf.push('*').push('*'));
        assert(buf.push('*').push('*') + text.skip(i + 2) == buf + text.skip(i));
    } else if text[i] == '*' && find_from(text, star, i + 1) is Some {
        let end = find_from(text, star, i + 1)->0;
        let s = italic_span(text.subrange(i + 1, end));
        let rest = inline_from(text, end + 1, Seq::empty());
        lemma_nothing_lost(text, end + 1, Seq::empty());
        lemma_styled_step(buf, s, rest);
        assert(text.subrange(end, end + 1)[0] == text[end]);
        assert(text.skip(i) == as_written(s) + text.skip(end + 1));
        assert(Seq::<char>::empty() + text.skip(end + 1) == text.skip(end + 1));
        assert(buf + as_written(s) + text.skip(end + 1) == buf + text.skip(i));
    } else if text[i] == '`' && find_from(text, tick, i + 1) is Some {
        let end = find_from(text, tick, i + 1)->0;
        let s = code_span(text.subrange(i + 1, end));
        let rest = inline_from(text, end + 1, Seq::empty());
        lemma_nothing_lost(text, end + 1, Seq::empty());
        lemma_styled_step(buf, s, rest);
        assert(text.subrange(end, end + 1)[0] == text[end]);
        assert(text.skip(i) == as_written(s) + text.skip(end + 1));
        assert(Seq::<char>::empty() + text.skip(end + 1) == text.skip(end + 1));
        assert(buf + as_written(s) + text.skip(end + 1) == buf + text.skip(i));
    } else {
        lemma_nothing_lost(text, i + 1, buf.push(text[i]));
        assert(buf.push(text[i]) + text.skip(i + 1) == buf + text.skip(i));
    }
}

/// Nothing of a text is lost or moved: its pieces, with the marks of their
/// styles around them, are the text again.
pub proof fn pieces_are_the_text(text: &str, r: Vec<Span>)
    requires
        call_ensures(parse_inline, (text,), r),
    ensures
        all_as_written(span_views(r@)) == text@,
        r@.len() > 0,
{
    lemma_nothing_lost(text@, 0, Seq::empty());
    assert(text@.skip(0) == text@);
    assert(Seq::<char>::empty() + text@ == text@);
    assert(span_views(r@).len() == r@.len());
    if inline_from(text@, 0, Seq::empty()).len() == 0 {
        lemma_written_one(raw_span(Seq::empty()));
        assert(text@ == Seq::<char>::empty());
    }
}

proof fn lemma_plain_run(text: Seq<char>, i: int, n: int, buf: Seq<char>)
    requires
        0 <= i <= n <= text.len(),
        forall|j: int| i <= j < n ==> #[trigger] text[j] != '*' && text[j] != '`',
    ensures
        inline_from(text, i, buf) == inline_from(text, n, buf + text.subrange(i, n)),
    decreases n - i,
{
    if i < n {
        assert(text[i] != '*' && text[i] != '`');
        lemma_plain_run(text, i + 1, n, buf.push(text[i]));
        assert(buf.push(text[i]) + text.subrange(i + 1, n) == buf + text.subrange(i, n));
    } else {
        assert(buf + text.subrange(i, n) == buf);
    }
}

proof fn lemma_mark_found(t: Seq<char>, mark: Seq<char>, from: int, end: int)
    requires
        0 <= from <= end,
        end + mark.len() <= t.len(),
        mark.len() > 0,
        t.subrange(end, end + mark.len()) == mark,
        forall|j: int| from <= j < end ==> #[trigger] t[j] != mark[0],
    ensures
        find_from(t, mark, from) == Some(end),
    decreases end - from,
{
    if from < end {
        if occurs_at(t, mark, from) {
            assert(t.subrange(from, from + mark.len())[0] == t[from]);
        }
        lemma_mark_found(t, mark, from + 1, end);
    }
}

proof fn lemma_bold_step(t: Seq<char>, i: int, end: int, buf: Seq<char>)
    requires
        0 <= i,
        i + 2 <= end,
        end + 2 <= t.len(),
        t[i] == '*',
        t[i + 1] == '*',
        find_from(t, seq!['*', '*'], i + 2) == Some(end),
    ensures
        inline_from(t, i, buf) == flushed(buf) + seq![bold_span(t.subrange(i + 2, end))]
            + inline_from(t, end + 2, Seq::empty()),
{
}

proof fn lemma_italic_step(t: Seq<char>, i: int, end: int, buf: Seq<char>)
    requires
        0 <= i,
        i + 1 <= end,
        end + 1 <= t.len(),
        t[i] == '*',
        t[i + 1] != '*',
        find_from(t, seq!['*'], i + 1) == Some(end),
    ensures
        inline_from(t, i, buf) == flushed(buf) + seq![italic_span(t.subrange(i + 1, end))]
            + inline_from(t, end + 1, Seq::empty()),
{
}

proof fn lemma_code_step(t: Seq<char>, i: int, end: int, buf: Seq<char>)
    requires
        0 <= i,
        i + 1 <= end,
        end + 1 <= t.len(),
        t[i] == '`',
        find_from(t, seq!['`'], i + 1) == Some(end),
    ensures
        inline_from(t, i, buf) == flushed(buf) + seq![code_span(t.subrange(i + 1, end))]
            + inline_from(t, end + 1, Seq::empty()),
{
}

/// The piece behind the plain text at the start of a line.
proof fn lemma_second_piece(
    r: Seq<Span>,
    before: Seq<char>,
    piece: SpanView,
    rest: Seq<SpanView>,
)
    requires
        span_views(r) == flushed(before) + seq![piece] + rest,
    ensures
        before.len() == 0 ==> r.len() > 0 && r[0]@ == piece,
        before.len() > 0 ==> r.len() > 1 && r[0]@ == raw_span(before) && r[1]@ == piece,
{
    let all = span_views(r);
    assert(all.len() == r.len());
    if before.len() == 0 {
        assert(all[0] == piece);
        assert(all[0] == r[0]@);
    } else {
        assert(all[0] == raw_span(before));
        assert(all[1] == piece);
        assert(all[0] == r[0]@ && all[1] == r[1]@);
    }
}

/// Plain text, and then text between two marks.
pub open spec fn marked_text(
    text: Seq<char>,
    before: Seq<char>,
    mark: Seq<char>,
    inner: Seq<char>,
    after: Seq<char>,
) -> bool {
    &&& text == before + mark + inner + mark + after
    &&& forall|j: int| 0 <= j < before.len() ==> #[trigger] before[j] != '*' && before[j] != '`'
    &&& forall|j: int| 0 <= j < inner.len() ==> #[trigger] inner[j] != '*' && inner[j] != '`'
}

proof fn lemma_marked(
    t: Seq<char>,
    before: Seq<char>,
    mark: Seq<char>,
    inner: Seq<char>,
    after: Seq<char>,
)
    requires
        marked_text(t, before, mark, inner, after),
        mark.len() > 0,
        mark[0] == '*' || mark[0] == '`',
    ensures
        ({
            let i = before.len() as int;
            let m = mark.len() as int;
            let end = i + m + inner.len();
            &&& end + m <= t.len()
            &&& inline_from(t, 0, Seq::empty()) == inline_from(t, i, before)
            &&& find_from(t, mark, i + m) == Some(end)
            &&& t.subrange(i + m, end) == inner
            &&& t.subrange(i, i + m) == mark
            &&& inner.len() > 0 ==> t[i + m] == inner[0]
        }),
{
    let i = before.len() as int;
    let m = mark.len() as int;
    let end = i + m + inner.len();
    assert forall|j: int| 0 <= j < i implies #[trigger] t[j] != '*' && t[j] != '`' by {
        assert(t[j] == before[j]);
    }
    lemma_plain_run(t, 0, i, Seq::empty());
    assert(Seq::<char>::empty() + t.subrange(0, i) == before);
    assert(t.subrange(end, end + m) == mark);
    assert forall|j: int| i + m <= j < end implies #[trigger] t[j] != mark[0] by {
        assert(t[j] == inner[j - i - m]);
    }
    lemma_mark_found(t, mark, i + m, end);
    assert(t.subrange(i + m, end) == inner);
    assert(t.subrange(i, i + m) == mark);
}

/// `**` to the next `**` is bold; what stands before is plain text.
pub proof fn two_stars_make_text_bold(
    text: &str,
    r: Vec<Span>,
    before: Seq<char>,
    inner: Seq<char>,
    after: Seq<char>,
)
    requires
        call_ensures(parse_inline, (text,), r),
        marked_text(text@, before, seq!['*', '*'], inner, after),
    ensures
        before.len() == 0 ==> r@.len() > 0 && r@[0]@ == bold_span(inner),
        before.len() > 0 ==> r@.len() > 1 && r@[0]@ == raw_span(before) && r@[1]@ == bold_span(
            inner,
        ),
{
    let mark = seq!['*', '*'];
    let t = text@;
    let i = before.len() as int;
    lemma_marked(t, before, mark, inner, after);
    let end = i + 2 + inner.len();
    assert(t.subrange(i, i + 2)[0] == t[i] && t.subrange(i, i + 2)[1] == t[i + 1]);
    lemma_bold_step(t, i, end, before);
    lemma_second_piece(
        r@,
        before,
        bold_span(inner),
        inline_from(t, end + 2, Seq::empty()),
    );
}

/// `*` to the next `*` is italic; what stands before is plain text.
pub proof fn one_star_makes_text_italic(
    text: &str,
    r: Vec<Span>,
    before: Seq<char>,
    inner: Seq<char>,
    after: Seq<char>,
)
    requires
        call_ensures(parse_inline, (text,), r),
        marked_text(text@, before, seq!['*'], inner, after),
        inner.len() > 0,
    ensures
        before.len() == 0 ==> r@.len() > 0 && r@[0]@ == italic_span(inner),
        before.len() > 0 ==> r@.len() > 1 && r@[0]@ == raw_span(before) && r@[1]@ == italic_span(
            inner,
        ),
{
    let mark = seq!['*'];
    let t = text@;
    let i = before.len() as int;
    lemma_marked(t, before, mark, inner, after);
    let end = i + 1 + inner.len();
    assert(t.subrange(i, i + 1)[0] == t[i]);
    assert(inner[0] != '*');
    lemma_italic_step(t, i, end, before);
    lemma_second_piece(
        r@,
        before,
        italic_span(inner),
        inline_from(t, end + 1, Seq::empty()),
    );
}

/// A backquote to the next one is code; what stands before is plain text.
pub proof fn backquotes_make_text_code(
    text: &str,
    r: Vec<Span>,
    before: Seq<char>,
    inner: Seq<char>,
    after: Seq<char>,
)
    requires
        call_ensures(parse_inline, (text,), r),
        marked_text(text@, before, seq!['`'], inner, after),
    ensures
        before.len() == 0 ==> r@.len() > 0 && r@[0]@ == code_span(inner),
        before.len() > 0 ==> r@.len() > 1 && r@[0]@ == raw_span(before) && r@[1]@ == code_span(
            inner,
        ),
{
    let mark = seq!['`'];
    let t = text@;
    let i = before.len() as int;
    lemma_marked(t, before, mark, inner, after);
    let end = i + 1 + inner.len();
    assert(t.subrange(i, i + 1)[0] == t[i]);
    lemma_code_step(t, i, end, before);
    lemma_second_piece(
        r@,
        before,
        code_span(inner),
        inline_from(t, end + 1, Seq::empty()),
    );
}

/// The three styles are told apart: bold text, italic text, and code on a
/// ground of its own.
pub proof fn styles_are_told_apart(text: Seq<char>)
    ensures
        bold_span(text).style.bold && !bold_span(text).style.italic && bold_span(text).style.bg
            is None,
        italic_span(text).style.italic && !italic_span(text).style.bold && italic_span(
            text,
        ).style.bg is None,
        code_span(text).style.bg is Some && !code_span(text).style.bold && !code_span(
            text,
        ).style.italic,
        bold_span(text).content == text && italic_span(text).content == text && code_span(
            text,
        ).content == text,
{
}

proof fn lemma_single_line(text: Seq<char>)
    requires
        text.len() > 0,
        !text.contains('\n'),
    ensures
        lines(text) == seq![text],
{
    lemma_index_from(text, '\n', 0);
}

proof fn lemma_one_text_line(text: Seq<char>)
    requires
        text.len() > 0,
        !text.contains('\n'),
        !is_fence(text),
    ensures
        markdown(text) == seq![text_line(text)],
{
    lemma_single_line(text);
    let ls = lines(text);
    assert(ls[0] == text);
    let start = read_to(ls, 0);
    assert(read_to(ls, 1) == after_line(start, text));
    assert(start.out.push(text_line(text)) == seq![text_line(text)]);
}

proof fn lemma_not_fence(text: Seq<char>)
    requires
        text.len() > 0,
        !is_space(text[0]),
        text[0] != '`',
    ensures
        !is_fence(text),
{
    if starts_with(text, fence()) {
        assert(text.subrange(0, 3)[0] == text[0]);
    }
}

/// A line is a heading of its rank where it begins with one, two or three
/// hash signs and a blank: the text behind them, bold and in the colour of the
/// rank.
pub proof fn headings_have_their_ranks(text: &str, r: Vec<Line>, rank: int, title: Seq<char>)
    requires
        call_ensures(parse_markdown, (text,), r),
        1 <= rank <= 3,
        rank == 1 ==> text@ == "# "@ + title,
        rank == 2 ==> text@ == "## "@ + title,
        rank == 3 ==> text@ == "### "@ + title,
        !title.contains('\n'),
    ensures
        r@.len() == 1,
        r@[0].spans@.len() == 1,
        r@[0].spans@[0].content@ == title,
        r@[0].spans@[0].style.bold,
        r@[0].spans@[0].style.fg == Some(
            if rank == 1 {
                Color::Blue
            } else if rank == 2 {
                Color::Cyan
            } else {
                Color::Magenta
            },
        ),
{
    reveal_strlit("# ");
    reveal_strlit("## ");
    reveal_strlit("### ");
    let t = text@;
    let n = rank + 1;
    assert(t[0] == '#');
    if t.contains('\n') {
        let j = choose|j: int| 0 <= j < t.len() && t[j] == '\n';
        assert(title[j - n] == '\n');
    }
    lemma_not_fence(t);
    lemma_one_text_line(t);
    assert(!is_blank(t));
    assert(t.skip(n) == title);
    assert(t.subrange(0, n) == t.take(n));
    if rank == 1 {
        assert(t.subrange(0, 2) == "# "@);
    } else {
        assert(t.subrange(0, 2)[1] == t[1]);
        assert("# "@[1] == ' ');
        if rank == 2 {
            assert(t.subrange(0, 3) == "## "@);
        } else {
            assert(t.subrange(0, 3)[2] == t[2]);
            assert("## "@[2] == ' ');
            assert(t.subrange(0, 4) == "### "@);
        }
    }
    let c = if rank == 1 {
        Color::Blue
    } else if rank == 2 {
        Color::Cyan
    } else {
        Color::Magenta
    };
    assert(text_line(t) == heading(title, c));
    assert(line_views(r@).len() == r@.len());
    assert(line_views(r@)[0] == r@[0]@);
    assert(r@[0]@ == span_views(r@[0].spans@));
    assert(span_views(r@[0].spans@).len() == r@[0].spans@.len());
    assert(span_views(r@[0].spans@)[0] == r@[0].spans@[0]@);
}

/// An item of a list has a bullet before its text, whichever of the two marks
/// it was written with.
pub proof fn items_have_a_bullet(text: &str, r: Vec<Line>, item: &str, pieces: Vec<Span>)
    requires
        call_ensures(parse_markdown, (text,), r),
        text@ == "- "@ + item@ || text@ == "* "@ + item@,
        !item@.contains('\n'),
        call_ensures(parse_inline, (item,), pieces),
    ensures
        r@.len() == 1,
        r@[0]@ == seq![SpanView { content: "  • "@, style: in_color(Color::Yellow) }] + span_views(
            pieces@,
        ),
{
    reveal_strlit("# ");
    reveal_strlit("## ");
    reveal_strlit("### ");
    reveal_strlit("> ");
    reveal_strlit("- ");
    reveal_strlit("* ");
    let t = text@;
    if t.contains('\n') {
        let j = choose|j: int| 0 <= j < t.len() && t[j] == '\n';
        assert(item@[j - 2] == '\n');
    }
    lemma_not_fence(t);
    lemma_one_text_line(t);
    assert(!is_space(t[0]));
    assert(!is_blank(t));
    assert(t.skip(2) == item@);
    lemma_first_differs(t, "# "@);
    lemma_first_differs(t, "## "@);
    lemma_first_differs(t, "### "@);
    lemma_first_differs(t, "> "@);
    if t[0] == '*' {
        lemma_first_differs(t, "- "@);
        assert(t.subrange(0, 2) == "* "@);
    } else {
        assert(t.subrange(0, 2) == "- "@);
    }
    assert(line_views(r@).len() == r@.len());
    assert(line_views(r@)[0] == r@[0]@);
}

proof fn lemma_first_differs(s: Seq<char>, p: Seq<char>)
    requires
        s.len() > 0,
        p.len() > 0,
        s[0] != p[0],
    ensures
        !starts_with(s, p),
{
    if starts_with(s, p) {
        assert(s.subrange(0, p.len() as int)[0] == s[0]);
    }
}

/// A quotation is the text behind its mark, in the colour of quotations.
pub proof fn quotations_keep_their_text(text: &str, r: Vec<Line>, quoted: Seq<char>)
    requires
        call_ensures(parse_markdown, (text,), r),
        text@ == "> "@ + quoted,
        !quoted.contains('\n'),
    ensures
        r@.len() == 1,
        r@[0]@.len() == 2,
        r@[0]@[0].content == "▌ "@,
        r@[0]@[1].content == quoted,
{
    reveal_strlit("# ");
    reveal_strlit("## ");
    reveal_strlit("### ");
    reveal_strlit("> ");
    let t = text@;
    if t.contains('\n') {
        let j = choose|j: int| 0 <= j < t.len() && t[j] == '\n';
        assert(quoted[j - 2] == '\n');
    }
    lemma_not_fence(t);
    lemma_one_text_line(t);
    assert(!is_space(t[0]));
    assert(!is_blank(t));
    assert(t.skip(2) == quoted);
    lemma_first_differs(t, "# "@);
    lemma_first_differs(t, "## "@);
    lemma_first_differs(t, "### "@);
    assert(t.subrange(0, 2) == "> "@);
    assert(line_views(r@).len() == r@.len());
    assert(line_views(r@)[0] == r@[0]@);
}

/// Reading code: lines between fences are taken as they are.
proof fn lemma_read_code(ls: Seq<Seq<char>>, n: int)
    requires
        1 <= n <= ls.len(),
        is_fence(ls[0]),
        forall|i: int| 1 <= i < n ==> !is_fence(#[trigger] ls[i]),
    ensures
        read_to(ls, n) == (ReadState {
            out: Seq::empty(),
            in_code: true,
            lang: fence_language(ls[0]),
            code: ls.subrange(1, n),
        }),
    decreases n,
{
    if n == 1 {
        assert(read_to(ls, 1) == after_line(read_to(ls, 0), ls[0]));
        assert(ls.subrange(1, 1) == Seq::<Seq<char>>::empty());
    } else {
        lemma_read_code(ls, n - 1);
        assert(!is_fence(ls[n - 1]));
        assert(ls.subrange(1, n - 1).push(ls[n - 1]) == ls.subrange(1, n));
    }
}

/// What stands between two fences is code, line by line as it is and none left
/// out, under the language that the first fence names; where the second fence
/// has not come yet, what there is of the code is shown.
pub proof fn code_is_shown_as_it_is(text: &str, r: Vec<Line>, n: int)
    requires
        call_ensures(parse_markdown, (text,), r),
        lines(text@).len() >= 2,
        is_fence(lines(text@)[0]),
        1 <= n <= lines(text@).len(),
        forall|i: int| 1 <= i < n ==> !is_fence(#[trigger] lines(text@)[i]),
        n == lines(text@).len() || (n == lines(text@).len() - 1 && is_fence(lines(text@)[n])),
    ensures
        r@.len() == 1,
        r@[0]@.last().content == joined(lines(text@).subrange(1, n), seq!['\n']),
        r@[0]@.last().style.fg == Some(Color::Green),
        r@[0]@.len() == if fence_language(lines(text@)[0]) is Some {
            2int
        } else {
            1int
        },
        fence_language(lines(text@)[0]) is Some ==> r@[0]@[0].content == " ["@ + fence_language(
            lines(text@)[0],
        )->0 + "]\n"@,
{
    let ls = lines(text@);
    lemma_read_code(ls, n);
    let code = ls.subrange(1, n);
    let lang = fence_language(ls[0]);
    let block = code_block(code, lang);
    if n < ls.len() {
        assert(read_to(ls, n + 1) == after_line(read_to(ls, n), ls[n]));
        assert(Seq::<Seq<SpanView>>::empty().push(block) == seq![block]);
    } else {
        assert(code.len() > 0);
        assert(Seq::<Seq<SpanView>>::empty().push(block) == seq![block]);
    }
    assert(markdown(text@) == seq![block]);
    assert(line_views(r@).len() == r@.len());
    assert(line_views(r@)[0] == r@[0]@);
}

/// An item of a numbered list is its number, made of digits, and what follows
/// the first dot and blank.
pub proof fn numbered_items_are_split_at_the_dot(
    raw: &str,
    number: Seq<char>,
    rest: Seq<char>,
    r: Option<(String, String)>,
)
    requires
        call_ensures(split_ordered_list_item, (raw,), r),
        raw@ == number + seq!['.', ' '] + rest,
        number.len() > 0,
        forall|i: int| 0 <= i < number.len() ==> numeric(#[trigger] number[i]),
        forall|i: int| 0 <= i < number.len() ==> !is_space(#[trigger] number[i]) && number[i] != '.',
    ensures
        r is Some,
        r matches Some((a, b)) && a@ == number && b@ == rest,
{
    let t = raw@;
    let d = number.len() as int;
    let mark = seq!['.', ' '];
    assert(t[0] == number[0]);
    assert(trim_start(t) == t);
    assert(t.subrange(d, d + 2) == mark);
    lemma_find_from(t, mark, 0);
    assert(occurs_at(t, mark, d));
    let k = find_from(t, mark, 0)->0;
    if k < d {
        assert(t.subrange(k, k + 2)[0] == t[k]);
        assert(t[k] == number[k]);
    }
    assert(k == d);
    assert forall|i: int| 0 <= i < d implies numeric(#[trigger] t[i]) by {
        assert(t[i] == number[i]);
    }
    assert(t.take(d) == number);
    assert(t.skip(d + 2) == rest);
}

/// A line of three hyphens or three stars, with white space around them at
/// most, is a rule across the page; a blank line is an empty line.
pub proof fn rules_and_blank_lines(text: &str, r: Vec<Line>)
    requires
        call_ensures(parse_markdown, (text,), r),
        text@ == "---"@ || text@ == "***"@ || (text@.len() > 0 && !text@.contains('\n')
            && is_blank(text@)),
    ensures
        r@.len() == 1,
        is_blank(text@) ==> r@[0]@.len() == 0,
        !is_blank(text@) ==> r@[0]@.len() == 1 && r@[0]@[0].content == Seq::new(40, |i: int| '─'),
{
    reveal_strlit("# ");
    reveal_strlit("## ");
    reveal_strlit("### ");
    reveal_strlit("> ");
    reveal_strlit("- ");
    reveal_strlit("* ");
    reveal_strlit("---");
    reveal_strlit("***");
    let t = text@;
    assert(line_views(r@).len() == r@.len());
    if is_blank(t) {
        lemma_blank_is_no_fence(t);
        lemma_one_text_line(t);
        assert(line_views(r@)[0] == r@[0]@);
    } else {
        assert(!t.contains('\n')) by {
            if t.contains('\n') {
                let j = choose|j: int| 0 <= j < t.len() && t[j] == '\n';
                assert(t[j] == '-' || t[j] == '*');
            }
        }
        lemma_not_fence(t);
        lemma_one_text_line(t);
        lemma_first_differs(t, "# "@);
        lemma_first_differs(t, "## "@);
        lemma_first_differs(t, "### "@);
        lemma_first_differs(t, "> "@);
        assert(t.subrange(0, 2)[1] == t[1]);
        assert("- "@[1] == ' ' && "* "@[1] == ' ');
        assert(!starts_with(t, "- "@));
        assert(!starts_with(t, "* "@));
        assert(trim_start(t) == t);
        lemma_find_from(t, seq!['.', ' '], 0);
        if find_from(t, seq!['.', ' '], 0) is Some {
            let k = find_from(t, seq!['.', ' '], 0)->0;
            assert(t.subrange(k, k + 2)[0] == t[k]);
        }
        assert(trim(t) == t);
        assert(line_views(r@)[0] == r@[0]@);
    }
}

proof fn lemma_blank_is_no_fence(t: Seq<char>)
    requires
        is_blank(t),
    ensures
        !is_fence(t),
{
    lemma_blank_trims(t);
}

proof fn lemma_blank_trims(t: Seq<char>)
    requires
        is_blank(t),
    ensures
        trim_start(t).len() == 0,
    decreases t.len(),
{
    if t.len() > 0 {
        assert(is_space(t[0]));
        assert forall|i: int| 0 <= i < t.drop_first().len() implies is_space(
            #[trigger] t.drop_first()[i],
        ) by {
            assert(t.drop_first()[i] == t[i + 1]);
        }
        lemma_blank_trims(t.drop_first());
    }
}

/// A line that begins with a letter is a paragraph: its pieces and nothing
/// else.
pub proof fn paragraphs_are_their_pieces(text: &str, r: Vec<Line>, pieces: Vec<Span>)
    requires
        call_ensures(parse_markdown, (text,), r),
        call_ensures(parse_inline, (text,), pieces),
        text@.len() > 0,
        !text@.contains('\n'),
        !text@.contains('.'),
        'a' <= text@[0] <= 'z' || 'A' <= text@[0] <= 'Z',
    ensures
        r@.len() == 1,
        r@[0]@ == span_views(pieces@),
{
    reveal_strlit("# ");
    reveal_strlit("## ");
    reveal_strlit("### ");
    reveal_strlit("> ");
    reveal_strlit("- ");
    reveal_strlit("* ");
    reveal_strlit("---");
    reveal_strlit("***");
    let t = text@;
    lemma_not_fence(t);
    lemma_one_text_line(t);
    assert(!is_space(t[0]));
    lemma_first_differs(t, "# "@);
    lemma_first_differs(t, "## "@);
    lemma_first_differs(t, "### "@);
    lemma_first_differs(t, "> "@);
    lemma_first_differs(t, "- "@);
    lemma_first_differs(t, "* "@);
    assert(trim_start(t) == t);
    lemma_find_from(t, seq!['.', ' '], 0);
    if find_from(t, seq!['.', ' '], 0) is Some {
        let k = find_from(t, seq!['.', ' '], 0)->0;
        assert(t.subrange(k, k + 2)[0] == t[k]);
        assert(t.contains('.'));
    }
    assert(trim(t)[0] == t[0] || trim(t).len() == 0) by {
        lemma_trim_end_keeps_first(t);
    }
    assert("---"@[0] == '-' && "***"@[0] == '*');
    assert(line_views(r@).len() == r@.len());
    assert(line_views(r@)[0] == r@[0]@);
}

proof fn lemma_trim_end_keeps_first(s: Seq<char>)
    ensures
        trim_end(s).len() > 0 ==> trim_end(s)[0] == s[0],
        trim_end(s).len() <= s.len(),
    decreases s.len(),
{
    if s.len() > 0 && is_space(s.last()) {
        lemma_trim_end_keeps_first(s.drop_last());
    }
}

/// An item of a numbered list keeps its number and shows the pieces of its
/// text behind it.
pub proof fn numbered_items_keep_their_number(
    text: &str,
    r: Vec<Line>,
    number: Seq<char>,
    item: &str,
    pieces: Vec<Span>,
)
    requires
        call_ensures(parse_markdown, (text,), r),
        call_ensures(parse_inline, (item,), pieces),
        text@ == number + seq!['.', ' '] + item@,
        number.len() > 0,
        forall|i: int|
            0 <= i < number.len() ==> numeric(#[trigger] number[i]) && '0' <= number[i] <= '9',
        !item@.contains('\n'),
    ensures
        r@.len() == 1,
        r@[0]@ == seq![
            SpanView { content: "  "@ + number + ". "@, style: in_color(Color::Yellow) },
        ] + span_views(pieces@),
{
    reveal_strlit("# ");
    reveal_strlit("## ");
    reveal_strlit("### ");
    reveal_strlit("> ");
    reveal_strlit("- ");
    reveal_strlit("* ");
    let t = text@;
    let d = number.len() as int;
    assert(t[0] == number[0]);
    assert(!is_space(t[0]));
    if t.contains('\n') {
        let j = choose|j: int| 0 <= j < t.len() && t[j] == '\n';
        if j < d {
            assert(t[j] == number[j]);
        } else if j >= d + 2 {
            assert(item@[j - d - 2] == '\n');
        }
    }
    lemma_not_fence(t);
    lemma_one_text_line(t);
    lemma_first_differs(t, "# "@);
    lemma_first_differs(t, "## "@);
    lemma_first_differs(t, "### "@);
    lemma_first_differs(t, "> "@);
    lemma_first_differs(t, "- "@);
    lemma_first_differs(t, "* "@);
    assert(trim_start(t) == t);
    let mark = seq!['.', ' '];
    assert(t.subrange(d, d + 2) == mark);
    assert forall|j: int| 0 <= j < d implies #[trigger] t[j] != mark[0] by {
        assert(t[j] == number[j]);
    }
    lemma_mark_found(t, mark, 0, d);
    assert forall|i: int| 0 <= i < d implies numeric(#[trigger] t[i]) by {
        assert(t[i] == number[i]);
    }
    assert(t.take(d) == number);
    assert(t.skip(d + 2) == item@);
    assert(line_views(r@).len() == r@.len());
    assert(line_views(r@)[0] == r@[0]@);
}

proof fn lemma_trim_start_past(white: Seq<char>, rest: Seq<char>)
    requires
        forall|i: int| 0 <= i < white.len() ==> is_space(#[trigger] white[i]),
        rest.len() > 0,
        !is_space(rest[0]),
    ensures
        trim_start(white + rest) == rest,
    decreases white.len(),
{
    let s = white + rest;
    if white.len() == 0 {
        assert(s == rest);
    } else {
        assert(s[0] == white[0]);
        let fewer = white.drop_first();
        assert forall|i: int| 0 <= i < fewer.len() implies is_space(#[trigger] fewer[i]) by {
            assert(fewer[i] == white[i + 1]);
        }
        lemma_trim_start_past(fewer, rest);
        assert(s.drop_first() == fewer + rest);
    }
}

/// A fence is three backquotes at the start of a line, with white space before
/// them at most; the word behind them names the language, and nothing behind
/// them names none.
pub proof fn fences_name_their_language(white: Seq<char>, word: Seq<char>)
    requires
        forall|i: int| 0 <= i < white.len() ==> is_space(#[trigger] white[i]),
        forall|i: int| 0 <= i < word.len() ==> !is_space(#[trigger] word[i]) && word[i] != '`',
    ensures
        is_fence(white + seq!['`', '`', '`'] + word),
        word.len() > 0 ==> fence_language(white + seq!['`', '`', '`'] + word) == Some(word),
        word.len() == 0 ==> fence_language(white + seq!['`', '`', '`'] + word) is None,
        word.len() > 0 ==> !is_fence(white + word),
{
    let marks = seq!['`', '`', '`'];
    let rest = marks + word;
    assert(white + marks + word == white + rest);
    assert(rest[0] == '`');
    lemma_trim_start_past(white, rest);
    assert(rest.subrange(0, 3) == marks);
    assert(rest.skip(3) == word);
    if word.len() > 0 {
        assert(word[0] != '`');
        if starts_with(word, fence()) {
            assert(word.subrange(0, 3)[0] == word[0]);
        }
        assert(past_fences(word) == word);
        assert(past_fences(rest) == word);
        assert(!is_space(word[word.len() - 1]));
        assert(trim(word) == word);
        lemma_trim_start_past(white, word);
    } else {
        assert(past_fences(word) == word);
        assert(past_fences(rest) == word);
        assert(trim(word).len() == 0);
    }
}

} // verus!
