//! Commands from the interface to the conversation, and taking up earlier
//! conversations.

use vstd::prelude::*;
use vstd::string::*;
use crate::plan::PermissionMode;
use crate::text::number::{decimal, show_usize};
use crate::text::pick::{lemma_picks_none, lemma_picks_step, picks};
use crate::text::split::{join, joined, views};
use crate::tui::app::{session_views, SessionItem, SessionView};
use crate::tui::event::{chat_views, AppEvent, ChatLine, ChatLineView, Role, TurnOutcome, UiCommand};

verus! {

/// What a command asks the conversation to do.
#[derive(Debug)]
pub enum BridgeStep {
    RunTurn(String),
    /// Interrupt the turn, then change the conversation.
    CancelAndSwitch(String),
    Summarize,
    ReadCounts,
    ReadStatus,
    SetModel(String),
    ReadModel,
    TogglePlan,
    Undo(usize),
    /// End the thread.
    Stop,
}

/// What a command asks for. At least one step is undone.
pub fn plan_command(cmd: UiCommand) -> (r: BridgeStep)
    ensures
        match cmd {
            UiCommand::Submit(t) => r matches BridgeStep::RunTurn(u) && u@ == t@,
            UiCommand::SwitchSession(t) => r matches BridgeStep::CancelAndSwitch(u) && u@ == t@,
            UiCommand::Summary => r is Summarize,
            UiCommand::Tokens => r is ReadCounts,
            UiCommand::Status => r is ReadStatus,
            UiCommand::Model(Some(t)) => r matches BridgeStep::SetModel(u) && u@ == t@,
            UiCommand::Model(None) => r is ReadModel,
            UiCommand::PlanToggle => r is TogglePlan,
            UiCommand::Undo { steps } => r == BridgeStep::Undo(
                if steps == 0 {
                    1
                } else {
                    steps
                },
            ),
            UiCommand::Exit => r is Stop,
        },
{
    match cmd {
        UiCommand::Submit(t) => BridgeStep::RunTurn(t),
        UiCommand::SwitchSession(t) => BridgeStep::CancelAndSwitch(t),
        UiCommand::Summary => BridgeStep::Summarize,
        UiCommand::Tokens => BridgeStep::ReadCounts,
        UiCommand::Status => BridgeStep::ReadStatus,
        UiCommand::Model(Some(t)) => BridgeStep::SetModel(t),
        UiCommand::Model(None) => BridgeStep::ReadModel,
        UiCommand::PlanToggle => BridgeStep::TogglePlan,
        UiCommand::Undo { steps } => BridgeStep::Undo(
            if steps == 0 {
                1
            } else {
                steps
            },
        ),
        UiCommand::Exit => BridgeStep::Stop,
    }
}

/// Plan mode is left for the default mode; from any other mode it is entered.
pub open spec fn toggled_plan(mode: PermissionMode) -> PermissionMode {
    if mode == PermissionMode::Plan {
        PermissionMode::Default
    } else {
        PermissionMode::Plan
    }
}

/// The mode that toggling plan mode leads to.
pub fn toggle_plan(mode: PermissionMode) -> (r: PermissionMode)
    ensures
        r == toggled_plan(mode),
{
    if mode == PermissionMode::Plan {
        PermissionMode::Default
    } else {
        PermissionMode::Plan
    }
}

/// A file that was not put back, and why.
#[derive(Debug)]
pub struct FailedFile {
    pub path: String,
    pub reason: String,
}

/// What came of undoing.
#[derive(Debug)]
pub struct UndoReport {
    pub undone_entries: usize,
    pub restored_files: usize,
    pub failed_files: Vec<FailedFile>,
}

/// What came of a command.
#[derive(Debug)]
pub enum BridgeReply {
    TurnEnded(Result<TurnOutcome, String>),
    Switching(String),
    Summarized(Result<Option<String>, String>),
    Counts { messages: usize, tokens: usize },
    Status { model: String, workdir: String, mode: PermissionMode, session: String },
    ModelSet { before: String, after: String },
    ModelIs(String),
    ModeSet { from: PermissionMode, to: PermissionMode },
    Undone(Result<UndoReport, String>),
    /// Changes to files are not recorded.
    NoJournal,
}

/// The files that were not put back, each with its reason.
pub open spec fn failed_list(files: Seq<FailedFile>) -> Seq<char> {
    joined(
        Seq::new(files.len(), |i: int| files[i].path@ + " ("@ + files[i].reason@ + ")"@),
        "; "@,
    )
}

/// What the user is told of undoing.
pub open spec fn undo_message(r: UndoReport) -> Seq<char> {
    let done = "已撤销 "@ + decimal(r.undone_entries as nat) + " 条 operation，恢复 "@ + decimal(
        r.restored_files as nat,
    ) + " 个文件"@;
    if r.failed_files@.len() == 0 {
        done
    } else {
        done + "；"@ + decimal(r.failed_files@.len()) + " 个文件冲突未覆盖（C-28）："@
            + failed_list(r.failed_files@)
    }
}

/// What the user is told of a command's outcome, where it is a message.
pub open spec fn reply_message(reply: BridgeReply) -> Option<Seq<char>> {
    match reply {
        BridgeReply::Counts { messages, tokens } => Some(
            "消息 "@ + decimal(messages as nat) + " 条 / token "@ + decimal(tokens as nat)
                + "（压缩触发比例阈值由上下文预算决定）"@,
        ),
        BridgeReply::Status { model, workdir, mode, session } => Some(
            "模型: "@ + model@ + " | 工作目录: "@ + workdir@ + " | 权限模式: "@ + mode.label()
                + " | 会话: "@ + session@,
        ),
        BridgeReply::ModelSet { before, after } => Some(
            "模型切换: "@ + before@ + " → "@ + after@,
        ),
        BridgeReply::ModelIs(m) => Some("当前模型: "@ + m@),
        BridgeReply::ModeSet { from, to } => Some(
            "权限模式: "@ + from.label() + " → "@ + to.label(),
        ),
        BridgeReply::Undone(Ok(r)) => Some(undo_message(r)),
        BridgeReply::Undone(Err(e)) => Some("/undo 失败: "@ + e@),
        BridgeReply::NoJournal => Some(
            "journal 未启用（file-undo feature 关闭或未注入）"@,
        ),
        _ => None,
    }
}

/// Lists the files that were not put back.
fn show_failed(files: &Vec<FailedFile>) -> (r: String)
    ensures
        r@ == failed_list(files@),
{
    let mut parts: Vec<String> = Vec::new();
    let mut i: usize = 0;
    while i < files.len()
        invariant
            i <= files@.len(),
            parts@.len() == i,
            forall|j: int|
                0 <= j < i ==> (#[trigger] parts@[j])@ == files@[j].path@ + " ("@
                    + files@[j].reason@ + ")"@,
        decreases files@.len() - i,
    {
        let mut s = files[i].path.clone();
        s.append(" (");
        s.append(files[i].reason.as_str());
        s.append(")");
        parts.push(s);
        i = i + 1;
    }
    assert(views(parts@) == Seq::new(
        files@.len(),
        |i: int| files@[i].path@ + " ("@ + files@[i].reason@ + ")"@,
    ));
    join(&parts, "; ")
}

/// What the user is told of undoing.
fn show_undo(r: &UndoReport) -> (s: String)
    ensures
        s@ == undo_message(*r),
{
    let mut s = "已撤销 ".to_owned();
    let n = show_usize(r.undone_entries);
    s.append(n.as_str());
    s.append(" 条 operation，恢复 ");
    let m = show_usize(r.restored_files);
    s.append(m.as_str());
    s.append(" 个文件");
    if r.failed_files.len() > 0 {
        s.append("；");
        let k = show_usize(r.failed_files.len());
        s.append(k.as_str());
        s.append(" 个文件冲突未覆盖（C-28）：");
        let list = show_failed(&r.failed_files);
        s.append(list.as_str());
    }
    s
}

/// The event that tells the interface what came of a command.
pub fn handle_ui_reply(reply: BridgeReply) -> (r: AppEvent)
    ensures
        match reply {
            BridgeReply::TurnEnded(x) => r == AppEvent::TurnResult(x),
            BridgeReply::Switching(id) => r matches AppEvent::SwitchSession(i) && i@ == id@,
            BridgeReply::Summarized(Ok(s)) => r == AppEvent::Summary(s),
            BridgeReply::Summarized(Err(e)) => r matches AppEvent::Summary(Some(t)) && t@
                == "摘要生成失败: "@ + e@,
            _ => r matches AppEvent::CommandOutput(t) && reply_message(reply) == Some(t@),
        },
{
    match reply {
        BridgeReply::TurnEnded(x) => AppEvent::TurnResult(x),
        BridgeReply::Switching(id) => AppEvent::SwitchSession(id),
        BridgeReply::Summarized(Ok(s)) => AppEvent::Summary(s),
        BridgeReply::Summarized(Err(e)) => {
            let mut s = "摘要生成失败: ".to_owned();
            s.append(e.as_str());
            AppEvent::Summary(Some(s))
        },
        BridgeReply::Counts { messages, tokens } => {
            let mut s = "消息 ".to_owned();
            let m = show_usize(messages);
            s.append(m.as_str());
            s.append(" 条 / token ");
            let t = show_usize(tokens);
            s.append(t.as_str());
            s.append("（压缩触发比例阈值由上下文预算决定）");
            AppEvent::CommandOutput(s)
        },
        BridgeReply::Status { model, workdir, mode, session } => {
            let mut s = "模型: ".to_owned();
            s.append(model.as_str());
            s.append(" | 工作目录: ");
            s.append(workdir.as_str());
            s.append(" | 权限模式: ");
            s.append(mode.name());
            s.append(" | 会话: ");
            s.append(session.as_str());
            AppEvent::CommandOutput(s)
        },
        BridgeReply::ModelSet { before, after } => {
            let mut s = "模型切换: ".to_owned();
            s.append(before.as_str());
            s.append(" → ");
            s.append(after.as_str());
            AppEvent::CommandOutput(s)
        },
        BridgeReply::ModelIs(m) => {
            let mut s = "当前模型: ".to_owned();
            s.append(m.as_str());
            AppEvent::CommandOutput(s)
        },
        BridgeReply::ModeSet { from, to } => {
            let mut s = "权限模式: ".to_owned();
            s.append(from.name());
            s.append(" → ");
            s.append(to.name());
            AppEvent::CommandOutput(s)
        },
        BridgeReply::Undone(Ok(report)) => AppEvent::CommandOutput(show_undo(&report)),
        BridgeReply::Undone(Err(e)) => {
            let mut s = "/undo 失败: ".to_owned();
            s.append(e.as_str());
            AppEvent::CommandOutput(s)
        },
        BridgeReply::NoJournal => AppEvent::CommandOutput(
            "journal 未启用（file-undo feature 关闭或未注入）".to_owned(),
        ),
    }
}

/// Toggling plan mode twice comes back to it, and from the default mode too.
pub proof fn plan_toggle_twice(mode: PermissionMode)
    requires
        mode != PermissionMode::AcceptEdits,
    ensures
        toggled_plan(toggled_plan(mode)) == mode,
{
}

/// A message of an earlier conversation.
#[derive(Debug)]
pub struct StoredMessage {
    pub role: Role,
    pub text: String,
    /// The names of the tools it calls.
    pub tool_calls: Vec<String>,
}

/// The line that an earlier message is shown as, if it is shown: what the
/// user said, what the assistant said, or the tools it called.
pub open spec fn replayed(m: StoredMessage) -> Option<ChatLineView> {
    match m.role {
        Role::User => if m.text@.len() > 0 {
            Some(ChatLineView::User(m.text@))
        } else {
            None
        },
        Role::Assistant => if m.tool_calls@.len() > 0 {
            Some(ChatLineView::Tool { tool: joined(views(m.tool_calls@), ","@), done: true })
        } else if m.text@.len() > 0 {
            Some(ChatLineView::Assistant(m.text@))
        } else {
            None
        },
        _ => None,
    }
}

/// The lines that the first `n` messages are shown as.
pub open spec fn replayed_to(ms: Seq<StoredMessage>, n: int) -> Seq<ChatLineView>
    decreases n,
{
    if n <= 0 {
        Seq::empty()
    } else {
        let before = replayed_to(ms, n - 1);
        match replayed(ms[n - 1]) {
            Some(l) => before.push(l),
            None => before,
        }
    }
}

/// The line that an earlier message is shown as.
fn replay_one(m: &StoredMessage) -> (r: Option<ChatLine>)
    ensures
        match r {
            Some(l) => replayed(*m) == Some(l@),
            None => replayed(*m) is None,
        },
{
    let n: usize = m.text.as_str().unicode_len();
    match m.role {
        Role::User => {
            if n > 0 {
                Some(ChatLine::User(m.text.clone()))
            } else {
                None
            }
        },
        Role::Assistant => {
            if m.tool_calls.len() > 0 {
                Some(ChatLine::Tool { tool: join(&m.tool_calls, ","), done: true })
            } else if n > 0 {
                Some(ChatLine::Assistant(m.text.clone()))
            } else {
                None
            }
        },
        _ => None,
    }
}

/// The lines of a conversation that is taken up again.
pub fn replay_history(ms: &Vec<StoredMessage>) -> (r: Vec<ChatLine>)
    ensures
        chat_views(r@) == replayed_to(ms@, ms@.len() as int),
{
    let mut out: Vec<ChatLine> = Vec::new();
    let mut i: usize = 0;
    assert(chat_views(out@) == Seq::<ChatLineView>::empty());
    while i < ms.len()
        invariant
            i <= ms@.len(),
            chat_views(out@) == replayed_to(ms@, i as int),
        decreases ms@.len() - i,
    {
        let ghost before = chat_views(out@);
        if let Some(l) = replay_one(&ms[i]) {
            let ghost lv = l@;
            out.push(l);
            assert(chat_views(out@) == before.push(lv));
        }
        i = i + 1;
    }
    out
}

/// The most conversations to choose from.
pub const MAX_SESSIONS: usize = 50;

/// The place for a conversation in a list with the latest first: behind all
/// that are not older.
pub open spec fn session_place(v: Seq<SessionView>, at: i128) -> int
    decreases v.len(),
{
    if v.len() == 0 || v.last().last_message_at >= at {
        v.len() as int
    } else {
        session_place(v.drop_last(), at)
    }
}

/// The conversations with the latest first.
pub open spec fn latest_first(v: Seq<SessionView>) -> Seq<SessionView>
    decreases v.len(),
{
    if v.len() == 0 {
        Seq::empty()
    } else {
        let init = latest_first(v.drop_last());
        init.insert(session_place(init, v.last().last_message_at), v.last())
    }
}

/// Each conversation is not older than the next.
pub open spec fn is_latest_first(v: Seq<SessionView>) -> bool {
    forall|i: int, j: int|
        0 <= i <= j < v.len() ==> v[i].last_message_at >= v[j].last_message_at
}

proof fn lemma_session_place(v: Seq<SessionView>, at: i128)
    requires
        is_latest_first(v),
    ensures
        0 <= session_place(v, at) <= v.len(),
        forall|i: int| 0 <= i < session_place(v, at) ==> (#[trigger] v[i]).last_message_at >= at,
        forall|i: int|
            session_place(v, at) <= i < v.len() ==> (#[trigger] v[i]).last_message_at < at,
    decreases v.len(),
{
    if v.len() > 0 {
        if v.last().last_message_at >= at {
            assert forall|i: int| 0 <= i < v.len() implies (#[trigger] v[i]).last_message_at
                >= at by {
                assert(v[i].last_message_at >= v[v.len() - 1].last_message_at);
            }
        } else {
            let init = v.drop_last();
            assert forall|i: int, j: int| 0 <= i <= j < init.len() implies init[i].last_message_at
                >= init[j].last_message_at by {
                assert(v[i].last_message_at >= v[j].last_message_at);
            }
            lemma_session_place(init, at);
            let p = session_place(init, at);
            assert forall|i: int| 0 <= i < p implies (#[trigger] v[i]).last_message_at >= at by {
                assert(init[i] == v[i]);
            }
            assert forall|i: int| p <= i < v.len() implies (#[trigger] v[i]).last_message_at
                < at by {
                if i < init.len() {
                    assert(init[i] == v[i]);
                }
            }
        }
    }
}

/// Ordering conversations puts the latest first and neither adds nor loses
/// one.
pub proof fn latest_first_orders(v: Seq<SessionView>)
    ensures
        is_latest_first(latest_first(v)),
        latest_first(v).to_multiset() == v.to_multiset(),
        latest_first(v).len() == v.len(),
    decreases v.len(),
{
    broadcast use vstd::seq_lib::group_to_multiset_ensures;

    if v.len() > 0 {
        let init = latest_first(v.drop_last());
        latest_first_orders(v.drop_last());
        let e = v.last();
        let p = session_place(init, e.last_message_at);
        lemma_session_place(init, e.last_message_at);
        let out = init.insert(p, e);
        assert forall|i: int, j: int| 0 <= i <= j < out.len() implies out[i].last_message_at
            >= out[j].last_message_at by {
            let i0 = if i < p { i } else { i - 1 };
            let j0 = if j < p { j } else { j - 1 };
            if i == p && j > p {
                assert(init[j0].last_message_at < e.last_message_at);
            } else if j == p && i < p {
                assert(init[i0].last_message_at >= e.last_message_at);
            } else if i != p && j != p {
                assert(init[i0].last_message_at >= init[j0].last_message_at);
            }
        }
        assert(v == v.drop_last().push(e));
    }
}

/// The conversations to choose from: the latest first, and no more than
/// [`MAX_SESSIONS`].
pub fn arrange_sessions(sessions: Vec<SessionItem>) -> (r: Vec<SessionItem>)
    ensures
        session_views(r@) == latest_first(session_views(sessions@)).take(
            if sessions@.len() < MAX_SESSIONS {
                sessions@.len() as int
            } else {
                MAX_SESSIONS as int
            },
        ),
{
    let ghost all = session_views(sessions@);
    let mut out: Vec<SessionItem> = Vec::new();
    let mut i: usize = 0;
    assert(all.take(0) == Seq::<SessionView>::empty());
    assert(session_views(out@) == Seq::<SessionView>::empty());
    while i < sessions.len()
        invariant
            i <= sessions@.len(),
            all == session_views(sessions@),
            session_views(out@) == latest_first(all.take(i as int)),
        decreases sessions@.len() - i,
    {
        let ghost sorted = session_views(out@);
        assert(all.take(i + 1).drop_last() == all.take(i as int));
        assert(all.take(i + 1).last() == sessions@[i as int]@);
        let when: i128 = sessions[i].last_message_at;
        let mut at: usize = out.len();
        assert(sorted.take(sorted.len() as int) == sorted);
        loop
            invariant
                at <= out@.len(),
                sorted == session_views(out@),
                session_place(sorted, when) == session_place(sorted.take(at as int), when),
            ensures
                at == session_place(sorted, when),
                at <= out@.len(),
                sorted == session_views(out@),
            decreases at,
        {
            if at == 0 {
                break ;
            }
            assert(sorted.take(at as int).last() == out@[at - 1]@);
            assert(sorted.take(at as int).drop_last() == sorted.take(at - 1));
            if out[at - 1].last_message_at >= when {
                break ;
            }
            at = at - 1;
        }
        let e = SessionItem {
            id: sessions[i].id.clone(),
            message_count: sessions[i].message_count,
            last_message_at: when,
            offset: sessions[i].offset,
        };
        let ghost ev = e@;
        out.insert(at, e);
        assert(session_views(out@) == sorted.insert(at as int, ev));
        i = i + 1;
    }
    assert(all.take(all.len() as int) == all);
    proof {
        latest_first_orders(all);
    }
    let ghost full = session_views(out@);
    if out.len() > MAX_SESSIONS {
        out.truncate(MAX_SESSIONS);
    }
    assert(session_views(out@) == full.take(
        if sessions@.len() < MAX_SESSIONS {
            sessions@.len() as int
        } else {
            MAX_SESSIONS as int
        },
    ));
    out
}

/// Each command asks for its own step, with its own text; at least one change
/// is undone.
pub proof fn commands_ask_for_their_own_steps(cmd: UiCommand, r: BridgeStep)
    requires
        call_ensures(plan_command, (cmd,), r),
    ensures
        cmd is Submit == r is RunTurn,
        cmd is Submit ==> r->RunTurn_0@ == cmd->Submit_0@,
        cmd is SwitchSession == r is CancelAndSwitch,
        cmd is SwitchSession ==> r->CancelAndSwitch_0@ == cmd->SwitchSession_0@,
        cmd is Summary == r is Summarize,
        cmd is Tokens == r is ReadCounts,
        cmd is Status == r is ReadStatus,
        cmd is PlanToggle == r is TogglePlan,
        cmd is Exit == r is Stop,
        cmd is Undo == r is Undo,
        r is Undo ==> r->Undo_0 >= 1 && (cmd->steps >= 1 ==> r->Undo_0 == cmd->steps),
        cmd is Model == (r is SetModel || r is ReadModel),
        cmd is Model ==> r is SetModel == cmd->Model_0 is Some,
        r is SetModel ==> r->SetModel_0@ == cmd->Model_0->0@,
{
}

/// Plan mode is left for the default mode and entered from any other.
pub proof fn toggling_enters_and_leaves_plan_mode(mode: PermissionMode, r: PermissionMode)
    requires
        call_ensures(toggle_plan, (mode,), r),
    ensures
        r is Plan == !(mode is Plan),
        mode is Plan ==> r is Default,
{
}

/// What came of a command reaches the interface as it came: the end of a turn,
/// the conversation to change to, a summary; a change of model or mode tells
/// the old one before the new one.
pub proof fn replies_tell_what_came_of_a_command(reply: BridgeReply, r: AppEvent)
    requires
        call_ensures(handle_ui_reply, (reply,), r),
    ensures
        reply is TurnEnded ==> r is TurnResult && r->TurnResult_0 == reply->TurnEnded_0,
        reply is Switching ==> r is SwitchSession && r->SwitchSession_0@ == reply->Switching_0@,
        reply matches BridgeReply::Summarized(Ok(s)) ==> r is Summary && r->Summary_0 == s,
        !(reply is TurnEnded || reply is Switching || reply is Summarized) ==> r is CommandOutput,
        reply matches BridgeReply::ModelSet { before, after } ==> {
            let t = r->CommandOutput_0@;
            let arrow = " → "@;
            &&& t.len() >= before@.len() + arrow.len() + after@.len()
            &&& t.skip(t.len() - after@.len()) == after@
            &&& t.subrange(t.len() - after@.len() - arrow.len(), t.len() - after@.len()) == arrow
            &&& t.subrange(
                t.len() - after@.len() - arrow.len() - before@.len(),
                t.len() - after@.len() - arrow.len(),
            ) == before@
        },
        reply matches BridgeReply::ModelIs(m) ==> {
            let t = r->CommandOutput_0@;
            t.len() >= m@.len() && t.skip(t.len() - m@.len()) == m@
        },
{
    if let BridgeReply::ModelSet { before, after } = reply {
        let t = r->CommandOutput_0@;
        let arrow = " → "@;
        let n = t.len() as int;
        assert(t == "模型切换: "@ + before@ + arrow + after@);
        assert(t.skip(n - after@.len()) == after@);
        assert(t.subrange(n - after@.len() - arrow.len(), n - after@.len()) == arrow);
        assert(t.subrange(
            n - after@.len() - arrow.len() - before@.len(),
            n - after@.len() - arrow.len(),
        ) == before@);
    }
    if let BridgeReply::ModelIs(m) = reply {
        let t = r->CommandOutput_0@;
        assert(t.skip(t.len() - m@.len()) == m@);
    }
}

/// What undoing tells: how many changes and files, in this order, and, where
/// files were not put back, how many, and each with its reason.
pub proof fn undoing_tells_its_numbers(report: UndoReport, r: AppEvent)
    requires
        call_ensures(handle_ui_reply, (BridgeReply::Undone(Ok(report)),), r),
    ensures
        r is CommandOutput,
        ({
            let t = r->CommandOutput_0@;
            let done = "已撤销 "@ + decimal(report.undone_entries as nat)
                + " 条 operation，恢复 "@ + decimal(report.restored_files as nat)
                + " 个文件"@;
            &&& t.len() >= done.len() && t.take(done.len() as int) == done
            &&& report.failed_files@.len() == 0 ==> t == done
            &&& report.failed_files@.len() == 1 ==> {
                let f = report.failed_files@[0];
                let last = f.path@ + " ("@ + f.reason@ + ")"@;
                t.len() >= last.len() && t.skip(t.len() - last.len()) == last
            }
        }),
{
    let t = r->CommandOutput_0@;
    let done = "已撤销 "@ + decimal(report.undone_entries as nat)
        + " 条 operation，恢复 "@ + decimal(report.restored_files as nat)
        + " 个文件"@;
    assert(t.take(done.len() as int) == done);
    if report.failed_files@.len() == 1 {
        let f = report.failed_files@[0];
        let last = f.path@ + " ("@ + f.reason@ + ")"@;
        assert(failed_list(report.failed_files@) == last);
        assert(t.skip(t.len() - last.len()) == last);
    }
}

proof fn lemma_replayed_picks(ms: Seq<StoredMessage>, n: int, picked: Seq<int>)
    requires
        0 <= n <= ms.len(),
        picks(picked, n, |i: int| replayed(ms[i]) is Some),
    ensures
        replayed_to(ms, n) == Seq::new(picked.len(), |k: int| replayed(ms[picked[k]])->0),
    decreases n,
{
    let wanted = |i: int| replayed(ms[i]) is Some;
    if n == 0 {
        lemma_picks_none(picked, n, wanted);
        assert(Seq::new(picked.len(), |k: int| replayed(ms[picked[k]])->0) == Seq::<
            ChatLineView,
        >::empty());
    } else {
        lemma_picks_step(picked, n, wanted);
        let fewer = if wanted(n - 1) {
            picked.drop_last()
        } else {
            picked
        };
        lemma_replayed_picks(ms, n - 1, fewer);
        assert(replayed_to(ms, n) == Seq::new(
            picked.len(),
            |k: int| replayed(ms[picked[k]])->0,
        ));
    }
}

/// An earlier conversation is shown in order: what the user said and what the
/// assistant said, each under its own name, and the tools that the assistant
/// called in place of what it said with them; empty messages and those of
/// others are left out.
pub proof fn earlier_messages_are_shown_in_order(
    ms: &Vec<StoredMessage>,
    r: Vec<ChatLine>,
    picked: Seq<int>,
    k: int,
)
    requires
        call_ensures(replay_history, (ms,), r),
        picks(
            picked,
            ms@.len() as int,
            |i: int|
                (ms@[i].role is User && ms@[i].text@.len() > 0) || (ms@[i].role is Assistant && (
                ms@[i].text@.len() > 0 || ms@[i].tool_calls@.len() > 0)),
        ),
        0 <= k < picked.len(),
    ensures
        r@.len() == picked.len(),
        ({
            let m = ms@[picked[k]];
            let l = r@[k];
            &&& m.role is User ==> l is User && l->User_0@ == m.text@
            &&& m.role is Assistant && m.tool_calls@.len() == 0 ==> l is Assistant
                && l->Assistant_0@ == m.text@
            &&& m.role is Assistant && m.tool_calls@.len() > 0 ==> l is Tool && l->done && l->tool@
                == joined(views(m.tool_calls@), ","@)
        }),
{
    let n = ms@.len() as int;
    let given = |i: int|
        (ms@[i].role is User && ms@[i].text@.len() > 0) || (ms@[i].role is Assistant && (
        ms@[i].text@.len() > 0 || ms@[i].tool_calls@.len() > 0));
    let want = |i: int| replayed(ms@[i]) is Some;
    assert(picks(picked, n, want)) by {
        assert(picks(picked, n, given));
        assert forall|i: int| 0 <= i < n && #[trigger] want(i) implies picked.contains(i) by {
            assert(given(i));
        }
        assert forall|a: int| 0 <= a < picked.len() implies 0 <= #[trigger] picked[a] < n && want(
            picked[a],
        ) by {
            assert(given(picked[a]));
        }
    }
    lemma_replayed_picks(ms@, n, picked);
    assert(chat_views(r@).len() == r@.len());
    assert(chat_views(r@)[k] == r@[k]@);
    assert(given(picked[k]));
    assert(r@[k]@ == replayed(ms@[picked[k]])->0);
}

/// The conversations to choose from are the latest ones, the latest first,
/// none added and, up to fifty, none lost.
pub proof fn latest_conversations_are_offered(sessions: Vec<SessionItem>, r: Vec<SessionItem>)
    requires
        call_ensures(arrange_sessions, (sessions,), r),
    ensures
        r@.len() == if sessions@.len() < 50 {
            sessions@.len() as int
        } else {
            50
        },
        forall|i: int, j: int|
            0 <= i < j < r@.len() ==> (#[trigger] r@[i]).last_message_at >= (
            #[trigger] r@[j]).last_message_at,
        sessions@.len() <= 50 ==> session_views(r@).to_multiset() == session_views(
            sessions@,
        ).to_multiset(),
        forall|x: SessionView|
            #[trigger] session_views(sessions@).to_multiset().count(x) > session_views(
                r@,
            ).to_multiset().count(x) ==> r@.len() == 50 && forall|i: int|
                0 <= i < r@.len() ==> (#[trigger] r@[i]).last_message_at >= x.last_message_at,
{
    let all = session_views(sessions@);
    let sorted = latest_first(all);
    latest_first_orders(all);
    assert(all.len() == sessions@.len());
    let out = session_views(r@);
    assert(out.len() == r@.len());
    let n = out.len() as int;
    assert(out == sorted.take(n));
    assert forall|i: int, j: int| 0 <= i < j < r@.len() implies (
    #[trigger] r@[i]).last_message_at >= (#[trigger] r@[j]).last_message_at by {
        assert(out[i] == r@[i]@ && out[j] == r@[j]@);
        assert(sorted[i].last_message_at >= sorted[j].last_message_at);
    }
    if sessions@.len() <= 50 {
        assert(sorted.take(sorted.len() as int) == sorted);
    }
    assert forall|x: SessionView| #[trigger] all.to_multiset().count(x) > out.to_multiset().count(
        x,
    ) implies r@.len() == 50 && forall|i: int|
        0 <= i < r@.len() ==> (#[trigger] r@[i]).last_message_at >= x.last_message_at by {
        let rest = sorted.skip(n);
        assert(out + rest == sorted);
        vstd::seq_lib::lemma_multiset_commutative(out, rest);
        assert(rest.to_multiset().count(x) > 0);
        broadcast use vstd::seq_lib::group_to_multiset_ensures;

        assert(rest.contains(x));
        let k = choose|k: int| 0 <= k < rest.len() && rest[k] == x;
        assert(sorted[n + k] == x);
        assert forall|i: int| 0 <= i < r@.len() implies (#[trigger] r@[i]).last_message_at
            >= x.last_message_at by {
            assert(out[i] == r@[i]@);
            assert(sorted[i].last_message_at >= sorted[n + k].last_message_at);
        }
    }
}

/// The numbers and names of a conversation are told in their own places: the
/// messages before the tokens, and the model, the directory, the mode and the
/// conversation in this order.
pub proof fn conversation_is_told(reply: BridgeReply, r: AppEvent)
    requires
        call_ensures(handle_ui_reply, (reply,), r),
    ensures
        reply matches BridgeReply::Counts { messages, tokens } ==> {
            let head = "消息 "@ + decimal(messages as nat) + " 条 / token "@ + decimal(
                tokens as nat,
            );
            let t = r->CommandOutput_0@;
            r is CommandOutput && t.len() >= head.len() && t.take(head.len() as int) == head
        },
        reply matches BridgeReply::Status { model, workdir, mode, session } ==> {
            let t = r->CommandOutput_0@;
            &&& r is CommandOutput
            &&& t == "模型: "@ + model@ + " | 工作目录: "@ + workdir@ + " | 权限模式: "@ + (
            match mode {
                PermissionMode::Default => "Default"@,
                PermissionMode::AcceptEdits => "AcceptEdits"@,
                PermissionMode::Plan => "Plan"@,
            }) + " | 会话: "@ + session@
        },
{
    if let BridgeReply::Counts { messages, tokens } = reply {
        let head = "消息 "@ + decimal(messages as nat) + " 条 / token "@ + decimal(tokens as nat);
        let t = r->CommandOutput_0@;
        assert(t.take(head.len() as int) == head);
    }
}

proof fn lemma_sorted_holds(v: Seq<SessionView>, i: int) -> (p: int)
    requires
        0 <= i < v.len(),
    ensures
        0 <= p < latest_first(v).len(),
        latest_first(v)[p] == v[i],
    decreases v.len(),
{
    let init = v.drop_last();
    let e = v.last();
    latest_first_orders(init);
    let sorted = latest_first(init);
    let place = session_place(sorted, e.last_message_at);
    lemma_session_place(sorted, e.last_message_at);
    if i == v.len() - 1 {
        place
    } else {
        let p = lemma_sorted_holds(init, i);
        if p < place {
            p
        } else {
            p + 1
        }
    }
}

proof fn lemma_sorted_stable(v: Seq<SessionView>, i: int, j: int) -> (r: (int, int))
    requires
        0 <= i < j < v.len(),
        v[i].last_message_at == v[j].last_message_at,
    ensures
        0 <= r.0 < r.1 < latest_first(v).len(),
        latest_first(v)[r.0] == v[i],
        latest_first(v)[r.1] == v[j],
    decreases v.len(),
{
    let init = v.drop_last();
    let e = v.last();
    latest_first_orders(init);
    let sorted = latest_first(init);
    let place = session_place(sorted, e.last_message_at);
    lemma_session_place(sorted, e.last_message_at);
    if j == v.len() - 1 {
        let p = lemma_sorted_holds(init, i);
        if p >= place {
            assert(sorted[p].last_message_at < e.last_message_at);
        }
        (p, place)
    } else {
        let (p, q) = lemma_sorted_stable(init, i, j);
        (
            if p < place { p } else { p + 1 },
            if q < place { q } else { q + 1 },
        )
    }
}

/// Conversations whose last messages came at one time are offered in the order
/// in which they were found.
pub proof fn conversations_of_one_time_keep_their_order(
    sessions: Vec<SessionItem>,
    r: Vec<SessionItem>,
    i: int,
    j: int,
)
    requires
        call_ensures(arrange_sessions, (sessions,), r),
        sessions@.len() <= 50,
        0 <= i < j < sessions@.len(),
        sessions@[i].last_message_at == sessions@[j].last_message_at,
    ensures
        exists|p: int, q: int|
            0 <= p < q < r@.len() && (#[trigger] r@[p])@ == sessions@[i]@ && (#[trigger] r@[q])@
                == sessions@[j]@,
{
    let all = session_views(sessions@);
    assert(all[i] == sessions@[i]@ && all[j] == sessions@[j]@);
    latest_first_orders(all);
    let (p, q) = lemma_sorted_stable(all, i, j);
    let sorted = latest_first(all);
    assert(sorted.take(sorted.len() as int) == sorted);
    let out = session_views(r@);
    assert(out == sorted);
    assert(out.len() == r@.len());
    assert(out[p] == r@[p]@ && out[q] == r@[q]@);
}

} // verus!
