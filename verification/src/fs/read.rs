//! Reading a file, or a range of its lines.

use vstd::prelude::*;
use vstd::string::*;
use vstd::utf8::*;
use crate::fs::sensitive::{is_sensitive_path, sensitive, show_content, shown_content};
use crate::text::bytes::decode_strict;
use crate::text::chars::{
    byte_len, from_chars, lemma_byte_len_is_encoding, str_byte_len, to_chars,
};
use crate::text::number::{decimal, show_u64, show_usize};
use crate::text::split::{char_views, join, joined, lines, opt_view, split_lines, views};
use crate::tool::{
    result_view, text_result, RenderIntent, SideEffect, ToolError, ToolErrorView, ToolResult, ToolResultView,
};
use crate::util::{truncate_output, truncated};

verus! {

/// The items from index `offset` on, at most `limit` of them; all that follow
/// where there is no limit.
pub open spec fn window<T>(all: Seq<T>, offset: int, limit: Option<int>) -> Seq<T> {
    let start = if offset < all.len() {
        offset
    } else {
        all.len() as int
    };
    let end = match limit {
        Some(n) => if n < all.len() - start {
            start + n
        } else {
            all.len() as int
        },
        None => all.len() as int,
    };
    all.subrange(start, end)
}

/// The result of a successful tool, cut to `max` bytes.
pub open spec fn cut_result(content: Seq<char>, max: int) -> ToolResultView {
    ToolResultView {
        content: truncated(content, max),
        is_error: false,
        truncated: byte_len(content) > max,
        bytes: byte_len(truncated(content, max)),
    }
}

/// Cuts output and makes it a successful result.
pub fn finish(out: String, max_output_bytes: usize) -> (r: ToolResult)
    ensures
        r@ == cut_result(out@, max_output_bytes as int),
{
    let (text, cut) = truncate_output(out, max_output_bytes);
    let bytes: usize = str_byte_len(text.as_str());
    ToolResult { content: text, is_error: false, truncated: cut, bytes }
}

/// What reading a file brought.
#[derive(Debug)]
pub enum ReadEvent {
    /// The file is larger than may be read; its bytes.
    TooLarge(u64),
    /// There is no such file.
    Missing,
    /// Reading failed.
    Failed(String),
    /// What the file holds.
    Bytes(Vec<u8>),
}

/// The lines of a text from `offset` on, at most `limit` of them.
pub open spec fn line_window(text: Seq<char>, offset: int, limit: Option<int>) -> Seq<char> {
    joined(window(lines(text), offset, limit), seq!['\n'])
}

/// Cuts a range of lines out of a text.
pub fn select_lines(text: &str, offset: usize, limit: Option<usize>) -> (r: String)
    ensures
        r@ == line_window(
            text@,
            offset as int,
            match limit {
                Some(n) => Some(n as int),
                None => None,
            },
        ),
{
    let chars = to_chars(text);
    let ls = split_lines(chars.as_slice());
    let ghost all = lines(text@);
    let n: usize = ls.len();
    let start: usize = if offset < n {
        offset
    } else {
        n
    };
    let end: usize = match limit {
        Some(k) => if k < n - start {
            start + k
        } else {
            n
        },
        None => n,
    };
    let mut picked: Vec<String> = Vec::new();
    let mut i: usize = start;
    while i < end
        invariant
            start <= i <= end <= n,
            n == ls@.len(),
            all == char_views(ls@),
            picked@.len() == i - start,
            forall|j: int| 0 <= j < picked@.len() ==> (#[trigger] picked@[j])@ == all[start + j],
        decreases end - i,
    {
        picked.push(from_chars(ls[i].as_slice()));
        i = i + 1;
    }
    assert(views(picked@) == all.subrange(start as int, end as int));
    proof {
        reveal_strlit("\n");
        assert("\n"@ == seq!['\n']);
    }
    join(&picked, "\n")
}

/// The lines that a call asks for; none where the bytes are no text.
pub open spec fn asked_lines(
    event: ReadEvent,
    offset: Option<usize>,
    limit: Option<usize>,
) -> Option<Seq<char>> {
    match event {
        ReadEvent::Bytes(b) => if valid_utf8(b@) {
            let start = match offset {
                Some(o) => o as int,
                None => 0,
            };
            let count = match limit {
                Some(l) => Some(l as int),
                None => None,
            };
            Some(line_window(decode_utf8(b@), start, count))
        } else {
            None
        },
        _ => None,
    }
}

/// The result of reading. `hidden` is the text that `text_to_hide` names, with
/// its secrets hidden.
pub open spec fn read_outcome(
    event: ReadEvent,
    input: Seq<char>,
    path: Seq<char>,
    offset: Option<usize>,
    limit: Option<usize>,
    hidden: Seq<char>,
    max_read: usize,
    max_output: usize,
) -> Result<ToolResultView, ToolErrorView> {
    match event {
        ReadEvent::TooLarge(n) => Err(
            ToolErrorView::Io(
                "file too large: "@ + decimal(n as nat) + " bytes > limit "@ + decimal(
                    max_read as nat,
                ) + " bytes; use offset/limit to read in segments"@,
            ),
        ),
        ReadEvent::Missing => Err(ToolErrorView::NotFound(input)),
        ReadEvent::Failed(e) => Err(ToolErrorView::Io(e@)),
        ReadEvent::Bytes(b) => match asked_lines(event, offset, limit) {
            Some(out) => Ok(cut_result(shown_content(path, out, hidden), max_output as int)),
            None => Ok(
                text_result(
                    "文件是二进制（非 UTF-8 文本，"@ + decimal(b@.len())
                        + " 字节）：无法直接读取，请改用 shell 命令（如 `file`/`xxd`）分析"@,
                    true,
                ),
            ),
        },
    }
}

/// The `fs.read` tool.
#[derive(Debug, Clone, Copy, Default)]
pub struct FsRead {}

impl FsRead {
    pub fn new() -> Self {
        FsRead {  }
    }

    pub fn name(&self) -> (r: &'static str)
        ensures
            r@ == "fs.read"@,
    {
        "fs.read"
    }

    pub fn side_effect(&self) -> (r: SideEffect)
        ensures
            r == SideEffect::Nothing,
    {
        SideEffect::Nothing
    }

    /// Whether a file of `size` bytes may be read.
    pub fn may_read(&self, size: u64, max_read_bytes: usize) -> (r: bool)
        ensures
            r == (size <= max_read_bytes),
    {
        size <= max_read_bytes as u64
    }

    /// The text whose secrets have to be hidden before it is shown: the lines
    /// that the call asks for, of a file that holds secrets.
    pub fn text_to_hide(
        &self,
        event: &ReadEvent,
        path: &str,
        offset: Option<usize>,
        limit: Option<usize>,
    ) -> (r: Option<String>)
        ensures
            opt_view(r) == if sensitive(path@) {
                asked_lines(*event, offset, limit)
            } else {
                None
            },
    {
        if !is_sensitive_path(path) {
            return None;
        }
        match event {
            ReadEvent::Bytes(b) => match decode_strict(b.as_slice()) {
                None => None,
                Some(t) => {
                    let start: usize = match offset {
                        Some(o) => o,
                        None => 0,
                    };
                    Some(select_lines(t.as_str(), start, limit))
                },
            },
            _ => None,
        }
    }

    /// Turns what reading brought into the result of the call. `input` is the
    /// path as the caller wrote it, `path` what it stands for, and `hidden`
    /// the text that `text_to_hide` names, with its secrets hidden.
    pub fn execute(
        &self,
        event: ReadEvent,
        input: &str,
        path: &str,
        offset: Option<usize>,
        limit: Option<usize>,
        hidden: String,
        max_read_bytes: usize,
        max_output_bytes: usize,
    ) -> (r: Result<ToolResult, ToolError>)
        ensures
            result_view(r) == read_outcome(
                event,
                input@,
                path@,
                offset,
                limit,
                hidden@,
                max_read_bytes,
                max_output_bytes,
            ),
    {
        match event {
            ReadEvent::TooLarge(n) => {
                let mut s = "file too large: ".to_owned();
                let shown = show_u64(n);
                s.append(shown.as_str());
                s.append(" bytes > limit ");
                let bound = show_usize(max_read_bytes);
                s.append(bound.as_str());
                s.append(" bytes; use offset/limit to read in segments");
                Err(ToolError::Io(s))
            },
            ReadEvent::Missing => Err(ToolError::NotFound(input.to_owned())),
            ReadEvent::Failed(e) => Err(ToolError::Io(e)),
            ReadEvent::Bytes(b) => match decode_strict(b.as_slice()) {
                None => {
                    let mut s = "文件是二进制（非 UTF-8 文本，".to_owned();
                    let shown = show_usize(b.len());
                    s.append(shown.as_str());
                    s.append(
                        " 字节）：无法直接读取，请改用 shell 命令（如 `file`/`xxd`）分析",
                    );
                    Ok(ToolResult::err_text(s))
                },
                Some(t) => {
                    let start: usize = match offset {
                        Some(o) => o,
                        None => 0,
                    };
                    let out = select_lines(t.as_str(), start, limit);
                    let shown = show_content(path, out, hidden);
                    Ok(finish(shown, max_output_bytes))
                },
            },
        }
    }

    /// The content is shown as code of no particular language.
    pub fn render_output(&self, result: &ToolResult) -> (r: RenderIntent)
        ensures
            r matches RenderIntent::Code { language, content } && language is None && content@
                == result.content@,
    {
        RenderIntent::Code { language: None, content: result.content.clone() }
    }
}

/// Reading a text in two adjoining ranges of lines reads the same lines as
/// reading both at once.
pub proof fn windows_adjoin<T>(all: Seq<T>, a: int, n: int, m: int)
    requires
        0 <= a,
        0 <= n,
        0 <= m,
    ensures
        window(all, a, Some(n)) + window(all, a + n, Some(m)) == window(all, a, Some(n + m)),
{
}

/// A range of lines holds the lines from the offset on, as many as the limit
/// allows or the text has, in order and one to a line.
pub proof fn range_holds_the_lines_from_the_offset(
    text: &str,
    offset: usize,
    limit: Option<usize>,
    r: String,
    count: int,
)
    requires
        call_ensures(select_lines, (text, offset, limit), r),
        ({
            let left = lines(text@).len() - offset;
            &&& count >= 0
            &&& count <= left || count == 0
            &&& limit is Some ==> count <= limit->0
            &&& count == left || (left <= 0 && count == 0) || limit == Some(count as usize)
        }),
    ensures
        r@ == joined(Seq::new(count as nat, |i: int| lines(text@)[offset + i]), seq!['\n']),
{
    let all = lines(text@);
    let want = Seq::new(count as nat, |i: int| all[offset + i]);
    let lim = match limit {
        Some(n) => Some(n as int),
        None => None,
    };
    assert(window(all, offset as int, lim) == want);
}

/// Without an offset and a limit a text comes back as it is, but for the line
/// feed at its end and carriage returns.
pub proof fn whole_text_is_read(text: &str, r: String)
    requires
        call_ensures(select_lines, (text, 0usize, None::<usize>), r),
    ensures
        r@ == joined(lines(text@), seq!['\n']),
{
    let all = lines(text@);
    assert(window(all, 0, None::<int>) == all);
}

/// What reading gives: a file that is missing, too large or unreadable is an
/// error that says so; bytes that are no text are told as such; and of a text
/// the asked lines are shown, cut to what a result holds, or what hiding their
/// secrets gave, where the file holds secrets.
pub proof fn reading_shows_the_asked_lines(
    tool: &FsRead,
    event: ReadEvent,
    input: &str,
    path: &str,
    offset: Option<usize>,
    limit: Option<usize>,
    hidden: String,
    max_read: usize,
    max_output: usize,
    r: Result<ToolResult, ToolError>,
    secret: bool,
    text: &str,
    asked: String,
    cut: (String, bool),
)
    requires
        call_ensures(
            FsRead::execute,
            (tool, event, input, path, offset, limit, hidden, max_read, max_output),
            r,
        ),
        call_ensures(is_sensitive_path, (path,), secret),
        event matches ReadEvent::Bytes(b) ==> (valid_utf8(b@) ==> text@ == decode_utf8(b@)),
        call_ensures(
            select_lines,
            (
                text,
                if offset is Some {
                    offset->0
                } else {
                    0
                },
                limit,
            ),
            asked,
        ),
        call_ensures(
            truncate_output,
            (
                if secret {
                    hidden
                } else {
                    asked
                },
                max_output,
            ),
            cut,
        ),
    ensures
        event is Missing ==> r is Err && r->Err_0@ == ToolErrorView::NotFound(input@),
        event is TooLarge ==> r is Err && r->Err_0 is Io,
        event is Failed ==> r is Err && r->Err_0@ == ToolErrorView::Io(event->Failed_0@),
        event matches ReadEvent::Bytes(b) ==> {
            &&& r is Ok
            &&& r->Ok_0.is_error == !valid_utf8(b@)
            &&& valid_utf8(b@) ==> r->Ok_0.content@ == cut.0@ && r->Ok_0.truncated == cut.1
        },
{
}

/// Only text of a file that holds secrets has to be hidden, and of it exactly
/// the lines that are asked for.
pub proof fn only_asked_lines_have_to_be_hidden(
    tool: &FsRead,
    bytes: Vec<u8>,
    event: &ReadEvent,
    path: &str,
    offset: Option<usize>,
    limit: Option<usize>,
    secret: bool,
    text: &str,
    asked: String,
    r: Option<String>,
)
    requires
        *event == ReadEvent::Bytes(bytes),
        call_ensures(FsRead::text_to_hide, (tool, event, path, offset, limit), r),
        call_ensures(is_sensitive_path, (path,), secret),
        valid_utf8(bytes@) ==> text@ == decode_utf8(bytes@),
        call_ensures(
            select_lines,
            (
                text,
                if offset is Some {
                    offset->0
                } else {
                    0
                },
                limit,
            ),
            asked,
        ),
    ensures
        r is Some == (secret && valid_utf8(bytes@)),
        r is Some ==> r->0@ == asked@,
{
}

/// A result is the output cut to its limit; it tells whether it was cut and
/// how many bytes it takes.
pub proof fn result_tells_whether_it_was_cut(
    out: String,
    max: usize,
    cut: (String, bool),
    r: ToolResult,
)
    requires
        call_ensures(finish, (out, max), r),
        call_ensures(truncate_output, (out, max), cut),
    ensures
        r.content@ == cut.0@,
        r.truncated == cut.1,
        r.bytes == encode_utf8(cut.0@).len(),
        !r.is_error,
{
    lemma_byte_len_is_encoding(cut.0@);
}

/// A file that is too large is told with its size and the limit, in this
/// order; bytes that are no text with their number.
pub proof fn unreadable_files_are_told(
    tool: &FsRead,
    event: ReadEvent,
    input: &str,
    path: &str,
    offset: Option<usize>,
    limit: Option<usize>,
    hidden: String,
    max_read: usize,
    max_output: usize,
    r: Result<ToolResult, ToolError>,
)
    requires
        call_ensures(
            FsRead::execute,
            (tool, event, input, path, offset, limit, hidden, max_read, max_output),
            r,
        ),
    ensures
        event matches ReadEvent::TooLarge(n) ==> {
            let told = "file too large: "@ + decimal(n as nat) + " bytes > limit "@ + decimal(
                max_read as nat,
            );
            &&& r->Err_0 matches ToolError::Io(t)
            &&& t@.len() >= told.len()
            &&& t@.take(told.len() as int) == told
        },
        event matches ReadEvent::Bytes(b) ==> (!valid_utf8(b@) ==> {
            let told = "文件是二进制（非 UTF-8 文本，"@ + decimal(b@.len());
            &&& r->Ok_0.content@.len() >= told.len()
            &&& r->Ok_0.content@.take(told.len() as int) == told
        }),
{
    if let ReadEvent::TooLarge(n) = event {
        let told = "file too large: "@ + decimal(n as nat) + " bytes > limit "@ + decimal(
            max_read as nat,
        );
        let t = told + " bytes; use offset/limit to read in segments"@;
        assert(r->Err_0@ == ToolErrorView::Io(t));
        assert(t.take(told.len() as int) == told);
    }
    if let ReadEvent::Bytes(b) = event {
        if !valid_utf8(b@) {
            let told = "文件是二进制（非 UTF-8 文本，"@ + decimal(b@.len());
            let t = r->Ok_0.content@;
            assert(t.take(told.len() as int) == told);
        }
    }
}

/// A file may be read exactly where it is no larger than the limit.
pub proof fn files_within_the_limit_may_be_read(
    tool: &FsRead,
    size: u64,
    less: u64,
    max: usize,
    r: bool,
    s: bool,
)
    requires
        call_ensures(FsRead::may_read, (tool, size, max), r),
        call_ensures(FsRead::may_read, (tool, less, max), s),
        less <= size,
    ensures
        r ==> s,
        size == max ==> r,
        size > max ==> !r,
{
}

} // verus!
