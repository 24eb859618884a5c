//! Running a command and presenting what came of it.

use vstd::prelude::*;
use vstd::string::*;
use crate::shell::redact::{redact_secrets, redacted};
use crate::text::bytes::{decode_lossy, lossy_text};
use crate::text::chars::{byte_len, from_chars, push_text, str_byte_len, sub_chars, to_chars};
use crate::text::number::{show_i64, signed_decimal};
use crate::tool::{
    result_view, RenderIntent, SideEffect, ToolError, ToolErrorView, ToolResult, ToolResultView,
};
use crate::util::less;

verus! {

/// The most characters of output that a result shows.
pub const MAX_OUTPUT_CHARS: usize = 10_000;

/// The shortest time a command is given, in nanoseconds.
pub const MIN_TIMEOUT: u128 = 1_000_000;

/// The time a command is given, in nanoseconds: what was asked for in
/// milliseconds, but no more than the limit and no less than a millisecond.
pub open spec fn timeout_of(asked_ms: Option<u64>, limit: u128) -> int {
    let t = match asked_ms {
        Some(ms) => if ms * 1_000_000 < limit {
            ms * 1_000_000
        } else {
            limit as int
        },
        None => limit as int,
    };
    if t > MIN_TIMEOUT {
        t
    } else {
        MIN_TIMEOUT as int
    }
}

/// The time a command is given.
pub fn effective_timeout(asked_ms: Option<u64>, limit: u128) -> (r: u128)
    ensures
        r == timeout_of(asked_ms, limit),
{
    let t: u128 = match asked_ms {
        Some(ms) => {
            let asked: u128 = ms as u128 * 1_000_000;
            if asked < limit {
                asked
            } else {
                limit
            }
        },
        None => limit,
    };
    if t > MIN_TIMEOUT {
        t
    } else {
        MIN_TIMEOUT
    }
}

/// A caller can shorten the time of a command but not lengthen it beyond the
/// limit (or the least time there is).
pub proof fn asking_never_lengthens(asked_ms: Option<u64>, limit: u128)
    ensures
        timeout_of(asked_ms, limit) <= timeout_of(None, limit),
        timeout_of(asked_ms, limit) >= MIN_TIMEOUT,
{
}

/// What is kept of the bytes so far and a further chunk, with room for `cap`
/// bytes in all.
pub open spec fn kept(buf: Seq<u8>, chunk: Seq<u8>, cap: int) -> Seq<u8> {
    if buf.len() < cap {
        buf + chunk.take(
            if chunk.len() < cap - buf.len() {
                chunk.len() as int
            } else {
                cap - buf.len()
            },
        )
    } else {
        buf
    }
}

/// Keeps the part of a chunk for which there is room.
pub fn keep_capped(buf: &mut Vec<u8>, chunk: &[u8], cap: usize)
    ensures
        final(buf)@ == kept(old(buf)@, chunk@, cap as int),
{
    if buf.len() < cap {
        let room: usize = cap - buf.len();
        let take: usize = if chunk.len() < room {
            chunk.len()
        } else {
            room
        };
        let mut i: usize = 0;
        while i < take
            invariant
                i <= take <= chunk@.len(),
                buf@ == old(buf)@ + chunk@.take(i as int),
            decreases take - i,
        {
            buf.push(chunk[i]);
            i = i + 1;
        }
    }
}

/// What is kept of all chunks in order.
pub open spec fn kept_of_all(chunks: Seq<Seq<u8>>, cap: int) -> Seq<u8>
    decreases chunks.len(),
{
    if chunks.len() == 0 {
        Seq::empty()
    } else {
        kept(kept_of_all(chunks.drop_last(), cap), chunks.last(), cap)
    }
}

/// However the output is cut into chunks, its first `cap` bytes are kept and
/// no others.
pub proof fn capture_keeps_the_beginning(chunks: Seq<Seq<u8>>, cap: int)
    requires
        cap >= 0,
    ensures
        kept_of_all(chunks, cap) == chunks.flatten().take(
            if chunks.flatten().len() < cap {
                chunks.flatten().len() as int
            } else {
                cap
            },
        ),
    decreases chunks.len(),
{
    if chunks.len() > 0 {
        let init = chunks.drop_last();
        capture_keeps_the_beginning(init, cap);
        assert(chunks == init.push(chunks.last()));
        init.lemma_flatten_push(chunks.last());
        assert(chunks.flatten() == init.flatten() + chunks.last());
        let all = chunks.flatten();
        let n = if all.len() < cap { all.len() as int } else { cap };
        assert(kept_of_all(chunks, cap) == all.take(n));
    }
}

/// The two streams as one text.
pub open spec fn combined(stdout: Seq<char>, stderr: Seq<char>) -> Seq<char> {
    if stderr.len() == 0 {
        stdout
    } else if stdout.len() == 0 {
        stderr
    } else {
        stdout + "\n--- stderr ---\n"@ + stderr
    }
}

/// The mark at the end of text that was cut.
pub open spec fn chars_mark() -> Seq<char> {
    "\n... [output truncated]"@
}

/// The text, cut to at most `max` characters with a mark at its end.
pub open spec fn cut_chars(text: Seq<char>, max: int) -> Seq<char> {
    if text.len() <= max {
        text
    } else {
        text.take(less(max, chars_mark().len() as int)) + chars_mark()
    }
}

/// Cuts text to at most `max_chars` characters and marks the cut. The flag
/// says whether it was cut.
pub fn truncate_chars(text: String, max_chars: usize) -> (r: (String, bool))
    ensures
        r.0@ == cut_chars(text@, max_chars as int),
        r.1 == (text@.len() > max_chars),
{
    let chars = to_chars(text.as_str());
    if chars.len() <= max_chars {
        return (text, false);
    }
    let indicator = "\n... [output truncated]";
    let mark: usize = indicator.unicode_len();
    let budget: usize = if max_chars > mark {
        max_chars - mark
    } else {
        0
    };
    let mut out = sub_chars(chars.as_slice(), 0, budget);
    assert(out@ == text@.take(budget as int));
    push_text(&mut out, indicator);
    (from_chars(out.as_slice()), true)
}

/// Text that is cut has at most as many characters as it may, provided that
/// the mark itself fits.
pub proof fn cut_text_fits(text: Seq<char>, max: int)
    requires
        max >= chars_mark().len(),
    ensures
        cut_chars(text, max).len() <= max,
{
}

/// What a result says first of a command that did not end well.
pub open spec fn exit_line(code: Option<i32>) -> Seq<char> {
    match code {
        Some(c) => if c == 0 {
            Seq::empty()
        } else {
            "[exit code: "@ + signed_decimal(c as int) + "]\n"@
        },
        None => "[terminated by signal]\n"@,
    }
}

/// The result of a command that ended: how it ended, then its output with
/// secrets hidden, cut to what a result shows.
pub open spec fn run_result(
    code: Option<i32>,
    stdout: Seq<char>,
    stderr: Seq<char>,
    stream_cut: bool,
) -> ToolResultView {
    let output = redacted(combined(stdout, stderr));
    let content = exit_line(code) + cut_chars(output, MAX_OUTPUT_CHARS as int);
    ToolResultView {
        content,
        is_error: false,
        truncated: output.len() > MAX_OUTPUT_CHARS || stream_cut,
        bytes: byte_len(content),
    }
}

/// Presents the output of a command that ended. `stream_cut` says that part
/// of the output was not kept.
pub fn present_run(code: Option<i32>, stdout: String, stderr: String, stream_cut: bool) -> (r:
    ToolResult)
    ensures
        r@ == run_result(code, stdout@, stderr@, stream_cut),
{
    let mut all = stdout;
    let err_len: usize = stderr.as_str().unicode_len();
    if err_len > 0 {
        let out_len: usize = all.as_str().unicode_len();
        if out_len > 0 {
            all.append("\n--- stderr ---\n");
        }
        all.append(stderr.as_str());
    }
    assert(all@ == combined(stdout@, stderr@));
    let clean = redact_secrets(all.as_str());
    let (text, cut) = truncate_chars(clean, MAX_OUTPUT_CHARS);
    let mut content = String::new();
    match code {
        Some(c) => {
            if c != 0 {
                content.append("[exit code: ");
                let shown = show_i64(c as i64);
                content.append(shown.as_str());
                content.append("]\n");
            }
        },
        None => {
            content.append("[terminated by signal]\n");
        },
    }
    assert(content@ == exit_line(code));
    content.append(text.as_str());
    let bytes: usize = str_byte_len(content.as_str());
    ToolResult { content, is_error: false, truncated: cut || stream_cut, bytes }
}

/// What happened to a command.
#[derive(Debug)]
pub enum RunEvent {
    /// The sandbox could not be set up before the start.
    SandboxRefused(String),
    /// The process could not be started.
    SpawnFailed(String),
    /// The sandbox could not be completed after the start.
    PostSpawnFailed(String),
    /// The process has no pipe for its output.
    StdoutLost,
    /// The process has no pipe for its errors.
    StderrLost,
    /// Waiting for the process failed.
    WaitFailed(String),
    /// The process took longer than it was given.
    TimedOut,
    /// The process ended; what was kept of its output.
    Exited { code: Option<i32>, stdout: Vec<u8>, stderr: Vec<u8> },
}

/// What is still to be done to the process, and the result of the call.
#[derive(Debug)]
pub struct RunOutcome {
    /// Kill the whole process group.
    pub kill_tree: bool,
    /// Kill the process itself.
    pub kill_child: bool,
    pub result: Result<ToolResult, ToolError>,
}

/// The result that each event leads to. `timeout` is the time the command was
/// given, `cap` the bytes kept of each stream.
pub open spec fn outcome_of(event: RunEvent, timeout: u128, cap: usize) -> Result<
    ToolResultView,
    ToolErrorView,
> {
    match event {
        RunEvent::SandboxRefused(e) => Err(ToolErrorView::Exec("sandbox apply failed: "@ + e@)),
        RunEvent::SpawnFailed(e) => Err(ToolErrorView::Exec("failed to spawn command: "@ + e@)),
        RunEvent::PostSpawnFailed(e) => Err(
            ToolErrorView::Exec("sandbox post_spawn failed: "@ + e@),
        ),
        RunEvent::StdoutLost => Err(ToolErrorView::Exec("stdout 管道丢失"@)),
        RunEvent::StderrLost => Err(ToolErrorView::Exec("stderr 管道丢失"@)),
        RunEvent::WaitFailed(e) => Err(ToolErrorView::Io(e@)),
        RunEvent::TimedOut => Err(ToolErrorView::Timeout(timeout)),
        RunEvent::Exited { code, stdout, stderr } => Ok(
            run_result(
                code,
                lossy_text(stdout@),
                lossy_text(stderr@),
                stdout@.len() >= cap || stderr@.len() >= cap,
            ),
        ),
    }
}

/// `label` followed by `detail`.
pub(crate) fn labelled(label: &str, detail: String) -> (r: String)
    ensures
        r@ == label@ + detail@,
{
    let mut s = label.to_owned();
    s.append(detail.as_str());
    s
}

/// The `shell.run` tool.
#[derive(Debug, Clone, Copy, Default)]
pub struct ShellRun {}

impl ShellRun {
    pub fn new() -> Self {
        ShellRun {  }
    }

    pub fn name(&self) -> (r: &'static str)
        ensures
            r@ == "shell.run"@,
    {
        "shell.run"
    }

    pub fn side_effect(&self) -> (r: SideEffect)
        ensures
            r == SideEffect::Command,
    {
        SideEffect::Command
    }

    /// Turns what happened to the command into the result of the call. Only
    /// a command that timed out has its process group killed; the process
    /// itself is killed then and when its sandbox could not be completed.
    pub fn finish(&self, event: RunEvent, timeout: u128, cap: usize) -> (r: RunOutcome)
        ensures
            result_view(r.result) == outcome_of(event, timeout, cap),
            r.kill_tree == (event is TimedOut),
            r.kill_child == (event is TimedOut || event is PostSpawnFailed),
    {
        let kill_tree = match event {
            RunEvent::TimedOut => true,
            _ => false,
        };
        let kill_child = match event {
            RunEvent::TimedOut => true,
            RunEvent::PostSpawnFailed(_) => true,
            _ => false,
        };
        let result = match event {
            RunEvent::SandboxRefused(e) => Err(
                ToolError::Exec(labelled("sandbox apply failed: ", e)),
            ),
            RunEvent::SpawnFailed(e) => Err(
                ToolError::Exec(labelled("failed to spawn command: ", e)),
            ),
            RunEvent::PostSpawnFailed(e) => Err(
                ToolError::Exec(labelled("sandbox post_spawn failed: ", e)),
            ),
            RunEvent::StdoutLost => Err(ToolError::Exec("stdout 管道丢失".to_owned())),
            RunEvent::StderrLost => Err(ToolError::Exec("stderr 管道丢失".to_owned())),
            RunEvent::WaitFailed(e) => Err(ToolError::Io(e)),
            RunEvent::TimedOut => Err(ToolError::Timeout(timeout)),
            RunEvent::Exited { code, stdout, stderr } => {
                let cut = stdout.len() >= cap || stderr.len() >= cap;
                let out = decode_lossy(stdout.as_slice());
                let err = decode_lossy(stderr.as_slice());
                Ok(present_run(code, out, err, cut))
            },
        };
        RunOutcome { kill_tree, kill_child, result }
    }

    /// The output is shown as code of no particular language.
    pub fn render_output(&self, result: &ToolResult) -> (r: RenderIntent)
        ensures
            r matches RenderIntent::Code { language, content } && language is None && content@
                == result.content@,
    {
        RenderIntent::Code { language: None, content: result.content.clone() }
    }
}

/// A command gets the time that was asked for where that is within the limit,
/// and else the limit; it always gets a millisecond.
pub proof fn time_is_what_was_asked_within_the_limit(asked_ms: Option<u64>, limit: u128, r: u128)
    requires
        call_ensures(effective_timeout, (asked_ms, limit), r),
    ensures
        r >= 1_000_000,
        r > 1_000_000 ==> r <= limit,
        asked_ms is None && limit >= 1_000_000 ==> r == limit,
        asked_ms is Some && 1 <= asked_ms->0 && asked_ms->0 * 1_000_000 <= limit ==> r
            == asked_ms->0 * 1_000_000,
        asked_ms is Some && asked_ms->0 * 1_000_000 > limit >= 1_000_000 ==> r == limit,
{
}

/// Of the bytes so far and a chunk behind them, as many are kept from the
/// front as there is room for.
pub proof fn capture_takes_from_the_front(buf: &mut Vec<u8>, chunk: &[u8], cap: usize)
    requires
        call_ensures(keep_capped, (buf, chunk, cap), ()),
        old(buf)@.len() <= cap,
    ensures
        ({
            let all = old(buf)@ + chunk@;
            &&& all.len() <= cap ==> final(buf)@ == all
            &&& all.len() > cap ==> final(buf)@ == all.take(cap as int)
        }),
{
    let all = old(buf)@ + chunk@;
    if all.len() <= cap {
        assert(chunk@.take(chunk@.len() as int) == chunk@);
        assert(final(buf)@ == all);
    } else {
        assert(final(buf)@ == all.take(cap as int));
    }
}

/// Text of at most as many characters as may be is kept as it is. Of longer
/// text the beginning is kept for which there is room before the mark.
pub proof fn text_keeps_its_beginning(text: String, max_chars: usize, r: (String, bool))
    requires
        call_ensures(truncate_chars, (text, max_chars), r),
    ensures
        r.1 == (text@.len() > max_chars),
        !r.1 ==> r.0@ == text@,
        r.1 ==> {
            let mark = "\n... [output truncated]"@;
            let k = r.0@.len() - mark.len();
            &&& 0 <= k <= text@.len()
            &&& r.0@.take(k) == text@.take(k)
            &&& r.0@.skip(k) == mark
            &&& max_chars >= mark.len() ==> r.0@.len() == max_chars
            &&& max_chars < mark.len() ==> k == 0
        },
{
    if r.1 {
        let mark = chars_mark();
        let k = r.0@.len() - mark.len();
        assert(r.0@.take(k) == text@.take(k));
        assert(r.0@.skip(k) == mark);
    }
}

/// What a command wrote as output stands before what it wrote as errors, with
/// a heading between them where there is both; nothing is added and nothing
/// is left out.
pub proof fn output_stands_before_errors(stdout: Seq<char>, stderr: Seq<char>)
    ensures
        ({
            let all = combined(stdout, stderr);
            let n = all.len() - stderr.len();
            &&& n >= stdout.len()
            &&& all.take(stdout.len() as int) == stdout
            &&& all.skip(n) == stderr
            &&& all.subrange(stdout.len() as int, n) == if stdout.len() > 0 && stderr.len() > 0 {
                "\n--- stderr ---\n"@
            } else {
                Seq::<char>::empty()
            }
        }),
{
    let all = combined(stdout, stderr);
    let n = all.len() - stderr.len();
    assert(all.take(stdout.len() as int) == stdout);
    assert(all.skip(n) == stderr);
    if stdout.len() > 0 && stderr.len() > 0 {
        assert(all.subrange(stdout.len() as int, n) == "\n--- stderr ---\n"@);
    } else {
        assert(all.subrange(stdout.len() as int, n) == Seq::<char>::empty());
    }
}

/// `all` is the output with the errors behind it.
pub open spec fn output_then_errors(
    all: Seq<char>,
    stdout: Seq<char>,
    stderr: Seq<char>,
) -> bool {
    let n = all.len() - stderr.len();
    &&& n >= stdout.len()
    &&& all.take(stdout.len() as int) == stdout
    &&& all.skip(n) == stderr
    &&& all.subrange(stdout.len() as int, n) == if stdout.len() > 0 && stderr.len() > 0 {
        "\n--- stderr ---\n"@
    } else {
        Seq::<char>::empty()
    }
}

/// What a result shows of a command that ended: how it ended, unless it ended
/// well, and behind that the output and then the errors, with secrets hidden
/// and cut to what a result holds.
pub proof fn run_is_shown_whole(
    code: Option<i32>,
    stdout: String,
    stderr: String,
    stream_cut: bool,
    all: &str,
    hidden: String,
    cut: (String, bool),
    r: ToolResult,
)
    requires
        call_ensures(present_run, (code, stdout, stderr, stream_cut), r),
        output_then_errors(all@, stdout@, stderr@),
        call_ensures(redact_secrets, (all,), hidden),
        call_ensures(truncate_chars, (hidden, 10_000usize), cut),
    ensures
        ({
            let head = r.content@.len() - cut.0@.len();
            &&& head >= 0
            &&& r.content@.skip(head) == cut.0@
            &&& code == Some(0i32) ==> head == 0
            &&& code is None ==> r.content@.take(head) == "[terminated by signal]\n"@
            &&& code is Some && code->0 != 0 ==> r.content@.take(head) == "[exit code: "@
                + signed_decimal(code->0 as int) + "]\n"@
            &&& r.truncated == (stream_cut || hidden@.len() > 10_000)
            &&& !r.is_error
        }),
{
    output_stands_before_errors(stdout@, stderr@);
    let both = combined(stdout@, stderr@);
    let n = both.len() - stderr@.len();
    let m = all@.len() - stderr@.len();
    let a = stdout@.len() as int;
    assert(both == both.take(a) + both.subrange(a, n) + both.skip(n));
    assert(all@ == all@.take(a) + all@.subrange(a, m) + all@.skip(m));
    assert(all@ == both);
    assert(hidden@ == redacted(both));
    let head = exit_line(code);
    assert(r.content@ == head + cut.0@);
    assert(r.content@.skip(head.len() as int) == cut.0@);
    assert(r.content@.take(head.len() as int) == head);
}

/// Only a command that ran to its end has a result; every other event is an
/// error that says what happened, and a command that timed out is killed with
/// all its children.
pub proof fn run_ends_as_the_event_says(
    tool: &ShellRun,
    event: RunEvent,
    timeout: u128,
    cap: usize,
    r: RunOutcome,
)
    requires
        call_ensures(ShellRun::finish, (tool, event, timeout, cap), r),
    ensures
        r.result is Ok == event is Exited,
        event is TimedOut ==> r.result->Err_0 == ToolError::Timeout(timeout) && r.kill_tree
            && r.kill_child,
        event is Exited ==> !r.kill_tree && !r.kill_child,
        event is PostSpawnFailed ==> r.kill_child && !r.kill_tree,
        event is SandboxRefused || event is SpawnFailed ==> !r.kill_tree && !r.kill_child,
        event matches RunEvent::Exited { code, stdout, stderr } && (stdout@.len() >= cap
            || stderr@.len() >= cap) ==> r.result->Ok_0.truncated,
{
}

/// The streams of a command that ended are shown as their bytes decode.
pub proof fn ended_run_shows_its_streams(
    tool: &ShellRun,
    code: Option<i32>,
    stdout: Vec<u8>,
    stderr: Vec<u8>,
    timeout: u128,
    cap: usize,
    out: String,
    err: String,
    r: RunOutcome,
    shown: ToolResult,
)
    requires
        call_ensures(
            ShellRun::finish,
            (tool, (RunEvent::Exited { code, stdout, stderr }), timeout, cap),
            r,
        ),
        out@ == lossy_text(stdout@),
        err@ == lossy_text(stderr@),
        call_ensures(
            present_run,
            (code, out, err, stdout@.len() >= cap || stderr@.len() >= cap),
            shown,
        ),
    ensures
        r.result is Ok,
        r.result->Ok_0@ == shown@,
{
}

} // verus!
