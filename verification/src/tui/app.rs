//! The state of the interface and how events change it.

use vstd::prelude::*;
use vstd::string::*;
use crate::task::cycle::{find_task, lemma_position, position_of};
use crate::task::model::{task_views, Task, TaskView};
use crate::text::chars::{is_space, same};
use crate::text::number::{decimal, show_usize};
use crate::text::search::is_blank;
use crate::text::split::opt_view;
use crate::tui::event::{
    chat_views, ActionView, AppAction, AppEvent, ChatLine, ChatLineView, Decision, DecisionView,
    KeyCode, KeyEvent, PermissionPrompt, PromptOption, PromptView, Role, RuntimeEvent, TermEvent,
    TurnOutcome, UiCommand,
};
use crate::tui::input::{
    entered, moved_left, moved_right, newer, older, with_char, without_next, without_previous,
    InputState, InputView,
};
use crate::tui::style::{dark_theme, light_theme, Color, Theme};

verus! {

/// What stands below the conversation.
#[derive(Debug, Clone, Copy, PartialEq, Eq, Structural)]
pub enum PanelMode {
    Off,
    /// The tool calls.
    Tool,
    /// The tasks.
    Task,
}

impl Default for PanelMode {
    fn default() -> (r: PanelMode)
        ensures
            r == PanelMode::Off,
    {
        PanelMode::Off
    }
}

/// A conversation that can be taken up again.
#[derive(Debug)]
pub struct SessionItem {
    pub id: String,
    pub message_count: usize,
    /// When its last message came, in nanoseconds of Unix time.
    pub last_message_at: i128,
    /// How many seconds clocks were ahead of UTC where it came.
    pub offset: i32,
}

/// A conversation with its texts as sequences.
#[verifier::ext_equal]
pub struct SessionView {
    pub id: Seq<char>,
    pub message_count: usize,
    pub last_message_at: i128,
    pub offset: i32,
}

impl View for SessionItem {
    type V = SessionView;

    open spec fn view(&self) -> SessionView {
        SessionView {
            id: self.id@,
            message_count: self.message_count,
            last_message_at: self.last_message_at,
            offset: self.offset,
        }
    }
}

/// The conversations of a list.
pub open spec fn session_views(v: Seq<SessionItem>) -> Seq<SessionView> {
    Seq::new(v.len(), |i: int| v[i]@)
}

/// The most conversations that the sidebar shows.
pub const SIDEBAR_ROWS: usize = 20;

/// How many of `n` conversations the sidebar shows.
pub open spec fn rows_shown(n: nat) -> nat {
    if n < SIDEBAR_ROWS {
        n
    } else {
        SIDEBAR_ROWS as nat
    }
}

/// The state of the interface.
#[derive(Debug)]
pub struct App {
    pub lines: Vec<ChatLine>,
    /// The answer as far as it has come.
    pub streaming: String,
    /// The reasoning as far as it has come.
    pub reasoning: String,
    pub input: InputState,
    pub is_turning: bool,
    pub should_exit: bool,
    pub pending_permission: Option<PermissionPrompt>,
    pub status_msg: String,
    pub sessions: Vec<SessionItem>,
    pub current_session_id: String,
    pub sidebar_visible: bool,
    /// The chosen line of the sidebar.
    pub selected: Option<usize>,
    pub pending_switch: Option<String>,
    pub panel_mode: PanelMode,
    pub tasks: Vec<Task>,
    /// The running turn can be interrupted.
    pub can_cancel: bool,
    /// Lines between the bottom and what is shown.
    pub scroll_offset: usize,
    pub theme: Theme,
}

/// The state with its texts as sequences.
#[verifier::ext_equal]
pub struct AppView {
    pub lines: Seq<ChatLineView>,
    pub streaming: Seq<char>,
    pub reasoning: Seq<char>,
    pub input: InputView,
    pub is_turning: bool,
    pub should_exit: bool,
    pub prompt: Option<PromptView>,
    pub status: Seq<char>,
    pub sessions: Seq<SessionView>,
    pub current: Seq<char>,
    pub sidebar_visible: bool,
    pub selected: Option<usize>,
    pub pending_switch: Option<Seq<char>>,
    pub panel: PanelMode,
    pub tasks: Seq<TaskView>,
    pub can_cancel: bool,
    pub scroll: usize,
    pub theme: Theme,
}

impl View for App {
    type V = AppView;

    open spec fn view(&self) -> AppView {
        AppView {
            lines: chat_views(self.lines@),
            streaming: self.streaming@,
            reasoning: self.reasoning@,
            input: self.input@,
            is_turning: self.is_turning,
            should_exit: self.should_exit,
            prompt: match self.pending_permission {
                Some(p) => Some(p@),
                None => None,
            },
            status: self.status_msg@,
            sessions: session_views(self.sessions@),
            current: self.current_session_id@,
            sidebar_visible: self.sidebar_visible,
            selected: self.selected,
            pending_switch: opt_view(self.pending_switch),
            panel: self.panel_mode,
            tasks: task_views(self.tasks@),
            can_cancel: self.can_cancel,
            scroll: self.scroll_offset,
            theme: self.theme,
        }
    }
}

/// The state after a turn ended.
pub open spec fn after_turn(v: AppView, result: Result<TurnOutcome, String>) -> AppView {
    match result {
        Ok(TurnOutcome::Finished) => AppView { is_turning: false, status: "就绪"@, ..v },
        Ok(TurnOutcome::Interrupted) => AppView {
            is_turning: false,
            status: "已中断"@,
            streaming: Seq::empty(),
            ..v
        },
        Ok(TurnOutcome::Failed(e)) => AppView {
            is_turning: false,
            status: "失败: "@ + e@,
            streaming: Seq::empty(),
            ..v
        },
        Err(e) => AppView {
            is_turning: false,
            status: "运行时错误: "@ + e@,
            streaming: Seq::empty(),
            ..v
        },
    }
}

/// The state with the answer so far put among the lines, if there is any.
pub open spec fn settled(v: AppView) -> AppView {
    if v.streaming.len() == 0 {
        v
    } else {
        AppView {
            lines: v.lines.push(ChatLineView::Assistant(v.streaming)),
            streaming: Seq::empty(),
            ..v
        }
    }
}

/// The state after a message joined the conversation. An answer that was
/// streamed is not repeated.
pub open spec fn after_message(v: AppView, role: Role, text: Seq<char>) -> AppView {
    let calm = AppView { reasoning: Seq::empty(), ..v };
    let w = if role == Role::Assistant {
        settled(calm)
    } else {
        calm
    };
    if text.len() == 0 {
        w
    } else {
        match role {
            Role::User => AppView { scroll: 0, lines: w.lines.push(ChatLineView::User(text)), ..w },
            Role::Assistant => if w.lines.len() > 0 && w.lines.last() is Assistant {
                w
            } else {
                AppView { lines: w.lines.push(ChatLineView::Assistant(text)), ..w }
            },
            Role::Tool => AppView {
                lines: w.lines.push(ChatLineView::Tool { tool: text, done: true }),
                ..w
            },
            Role::System => AppView { lines: w.lines.push(ChatLineView::System(text)), ..w },
        }
    }
}

/// The tasks with this one in place of the one with the same id, or at the
/// end.
pub open spec fn with_task(tasks: Seq<TaskView>, task: TaskView) -> Seq<TaskView> {
    match position_of(tasks, task.id) {
        Some(i) => tasks.update(i, task),
        None => tasks.push(task),
    }
}

/// The line is a call of this tool.
pub open spec fn calls(line: ChatLineView, name: Seq<char>) -> bool {
    line matches ChatLineView::Tool { tool, done } && tool == name
}

/// The lines with the last call of this tool marked as done.
pub open spec fn ticked_off(lines: Seq<ChatLineView>, name: Seq<char>) -> Seq<ChatLineView>
    decreases lines.len(),
{
    if lines.len() == 0 {
        lines
    } else if calls(lines.last(), name) {
        lines.drop_last().push(ChatLineView::Tool { tool: name, done: true })
    } else {
        ticked_off(lines.drop_last(), name).push(lines.last())
    }
}

/// Where the last call stands, only that line changes.
proof fn lemma_ticked_off(lines: Seq<ChatLineView>, name: Seq<char>, at: int)
    requires
        0 <= at < lines.len(),
        calls(lines[at], name),
        forall|i: int| at < i < lines.len() ==> !calls(#[trigger] lines[i], name),
    ensures
        ticked_off(lines, name) == lines.update(
            at,
            ChatLineView::Tool { tool: name, done: true },
        ),
    decreases lines.len(),
{
    let done = ChatLineView::Tool { tool: name, done: true };
    if at == lines.len() - 1 {
        assert(lines.drop_last().push(done) == lines.update(at, done));
    } else {
        lemma_ticked_off(lines.drop_last(), name, at);
        assert(lines.drop_last().update(at, done).push(lines.last()) == lines.update(at, done));
    }
}

/// Without a call of the tool nothing changes.
proof fn lemma_nothing_ticked_off(lines: Seq<ChatLineView>, name: Seq<char>)
    requires
        forall|i: int| 0 <= i < lines.len() ==> !calls(#[trigger] lines[i], name),
    ensures
        ticked_off(lines, name) == lines,
    decreases lines.len(),
{
    if lines.len() > 0 {
        lemma_nothing_ticked_off(lines.drop_last(), name);
        assert(lines.drop_last().push(lines.last()) == lines);
    }
}

/// A call that began is done once its end is reported, whatever other lines
/// came in between, and the lines before it and after it stay.
pub proof fn finished_call_is_ticked_off(
    before: Seq<ChatLineView>,
    name: Seq<char>,
    since: Seq<ChatLineView>,
)
    requires
        forall|i: int| 0 <= i < since.len() ==> !calls(#[trigger] since[i], name),
    ensures
        ticked_off(before.push(ChatLineView::Tool { tool: name, done: false }) + since, name)
            == before.push(ChatLineView::Tool { tool: name, done: true }) + since,
{
    let began = ChatLineView::Tool { tool: name, done: false };
    let done = ChatLineView::Tool { tool: name, done: true };
    let lines = before.push(began) + since;
    let at = before.len() as int;
    assert forall|i: int| at < i < lines.len() implies !calls(#[trigger] lines[i], name) by {
        assert(lines[i] == since[i - at - 1]);
    }
    lemma_ticked_off(lines, name, at);
    assert(lines.update(at, done) == before.push(done) + since);
}

/// The state after the conversation reported something.
pub open spec fn after_runtime(v: AppView, ev: RuntimeEvent) -> AppView {
    match ev {
        RuntimeEvent::TurnStreamingStarted => AppView {
            is_turning: true,
            status: "生成中…"@,
            ..v
        },
        RuntimeEvent::Token(t) => AppView { streaming: v.streaming + t@, ..v },
        RuntimeEvent::ReasoningDelta(t) => AppView { reasoning: v.reasoning + t@, ..v },
        RuntimeEvent::MessageAppended { role, text } => after_message(v, role, text@),
        RuntimeEvent::ToolCallStarted { tool } => AppView {
            lines: v.lines.push(ChatLineView::Tool { tool: tool@, done: false }),
            ..v
        },
        RuntimeEvent::ToolCallFinished { tool } => AppView {
            lines: ticked_off(v.lines, tool@),
            ..v
        },
        RuntimeEvent::TurnEnd => AppView {
            is_turning: false,
            reasoning: Seq::empty(),
            status: "就绪"@,
            ..settled(v)
        },
        RuntimeEvent::TaskUpdated { task } => AppView {
            tasks: with_task(v.tasks, task@),
            panel: if v.panel == PanelMode::Off {
                PanelMode::Task
            } else {
                v.panel
            },
            ..v
        },
        RuntimeEvent::Other => v,
    }
}

/// The answer that a key gives to a permission prompt: `y` and `a` allow, `n`,
/// `d` and Escape deny. `a` allows for good where that is offered.
pub open spec fn answer_of(code: KeyCode, always_offered: bool) -> Option<DecisionView> {
    match code {
        KeyCode::Char(c) => if c == 'a' && always_offered {
            Some(DecisionView::AllowAlways)
        } else if c == 'y' || c == 'Y' || ((c == 'a' || c == 'A') && !always_offered) {
            Some(DecisionView::Allow)
        } else if c == 'n' || c == 'N' || c == 'd' || c == 'D' {
            Some(DecisionView::Deny("用户拒绝"@))
        } else {
            None
        },
        KeyCode::Esc => Some(DecisionView::Deny("用户拒绝"@)),
        _ => None,
    }
}

/// The state and the action after a key while a permission prompt is open. A
/// key that is no answer leaves the prompt open.
pub open spec fn after_permission_key(v: AppView, key: KeyEvent) -> (AppView, ActionView) {
    match v.prompt {
        None => (v, ActionView::Nothing),
        Some(p) => if !key.press {
            (v, ActionView::Nothing)
        } else {
            match answer_of(key.code, p.options.contains(PromptOption::AllowAlways)) {
                Some(d) => (AppView { prompt: None, ..v }, ActionView::Reply(d)),
                None => (v, ActionView::Nothing),
            }
        },
    }
}

/// The state and the action after a key while the list of conversations is
/// open. Up and Down go round the conversations that are shown.
pub open spec fn after_sidebar_key(v: AppView, key: KeyEvent) -> (AppView, ActionView) {
    if !key.press {
        (v, ActionView::Nothing)
    } else {
        let n = rows_shown(v.sessions.len());
        let cur = match v.selected {
            Some(i) => i as int,
            None => 0,
        };
        match key.code {
            KeyCode::Esc => (
                AppView { sidebar_visible: false, status: "就绪"@, ..v },
                ActionView::Nothing,
            ),
            KeyCode::F(k) => if k == 2 {
                (AppView { sidebar_visible: false, status: "就绪"@, ..v }, ActionView::Nothing)
            } else {
                (v, ActionView::Nothing)
            },
            KeyCode::Up => if n == 0 {
                (v, ActionView::Nothing)
            } else {
                (
                    AppView {
                        selected: Some(
                            if cur == 0 {
                                (n - 1) as usize
                            } else {
                                (cur - 1) as usize
                            },
                        ),
                        ..v
                    },
                    ActionView::Nothing,
                )
            },
            KeyCode::Down => if n == 0 {
                (v, ActionView::Nothing)
            } else {
                (
                    AppView {
                        selected: Some(
                            if cur + 1 >= n {
                                0
                            } else {
                                (cur + 1) as usize
                            },
                        ),
                        ..v
                    },
                    ActionView::Nothing,
                )
            },
            KeyCode::Enter => if v.selected is Some && v.selected->0 < n {
                let id = v.sessions[v.selected->0 as int].id;
                if id == v.current {
                    (
                        AppView { sidebar_visible: false, status: "已是当前会话"@, ..v },
                        ActionView::Nothing,
                    )
                } else {
                    (
                        AppView { status: "正在切换会话…"@, ..v },
                        ActionView::SwitchSession(id),
                    )
                }
            } else {
                (v, ActionView::Nothing)
            },
            _ => (v, ActionView::Nothing),
        }
    }
}

/// The state and the action after the text was entered. While a turn runs
/// nothing is entered.
pub open spec fn after_submit(v: AppView) -> (AppView, ActionView) {
    if v.is_turning || is_blank(v.input.text) {
        (v, ActionView::Nothing)
    } else {
        (
            AppView {
                input: entered(v.input),
                scroll: 0,
                lines: v.lines.push(ChatLineView::User(v.input.text)),
                is_turning: true,
                status: "等待响应…"@,
                ..v
            },
            ActionView::Submit(v.input.text),
        )
    }
}

/// What the status says while older lines are shown.
pub open spec fn looking_back(offset: usize) -> Seq<char> {
    "↑ 回看 "@ + decimal(offset as nat) + " 行"@
}

/// The panel after the key of `which` was pressed: it opens that panel, or
/// closes it.
pub open spec fn toggled(panel: PanelMode, which: PanelMode) -> PanelMode {
    if panel == which {
        PanelMode::Off
    } else {
        which
    }
}

/// The other colour scheme.
pub open spec fn other_theme(t: Theme) -> Theme {
    if t.titlebar_bg == Color::Black {
        light_theme()
    } else {
        dark_theme()
    }
}

/// The state and the action after a key in the input line.
pub open spec fn after_key(v: AppView, key: KeyEvent) -> (AppView, ActionView) {
    let just_control = key.control && !key.other_modifier;
    let unmodified = !key.control && !key.other_modifier;
    if !key.press {
        (v, ActionView::Nothing)
    } else {
        match key.code {
            KeyCode::Enter => after_submit(v),
            KeyCode::PageUp => {
                let s = if v.scroll > usize::MAX - 10 {
                    usize::MAX
                } else {
                    (v.scroll + 10) as usize
                };
                (AppView { scroll: s, status: looking_back(s), ..v }, ActionView::Nothing)
            },
            KeyCode::PageDown => {
                let s = if v.scroll < 10 {
                    0
                } else {
                    (v.scroll - 10) as usize
                };
                (
                    AppView {
                        scroll: s,
                        status: if s == 0 {
                            "↓ 已回到底部"@
                        } else {
                            looking_back(s)
                        },
                        ..v
                    },
                    ActionView::Nothing,
                )
            },
            KeyCode::F(k) => if k == 2 {
                (
                    AppView {
                        sidebar_visible: true,
                        status: "会话列表（↑↓ 选择 / Enter 恢复 / Esc 返回）"@,
                        ..v
                    },
                    ActionView::Nothing,
                )
            } else if k == 3 {
                (AppView { panel: toggled(v.panel, PanelMode::Tool), ..v }, ActionView::Nothing)
            } else if k == 4 {
                (
                    AppView { theme: other_theme(v.theme), status: "主题已切换"@, ..v },
                    ActionView::Nothing,
                )
            } else {
                (v, ActionView::Nothing)
            },
            KeyCode::Up => if unmodified {
                (AppView { input: older(v.input), ..v }, ActionView::Nothing)
            } else {
                (v, ActionView::Nothing)
            },
            KeyCode::Down => if unmodified {
                (AppView { input: newer(v.input), ..v }, ActionView::Nothing)
            } else {
                (v, ActionView::Nothing)
            },
            KeyCode::Left => (AppView { input: moved_left(v.input), ..v }, ActionView::Nothing),
            KeyCode::Right => (AppView { input: moved_right(v.input), ..v }, ActionView::Nothing),
            KeyCode::Home => (
                AppView { input: InputView { at: 0, ..v.input }, ..v },
                ActionView::Nothing,
            ),
            KeyCode::End => (
                AppView {
                    input: InputView { at: v.input.text.len() as int, ..v.input },
                    ..v
                },
                ActionView::Nothing,
            ),
            KeyCode::Backspace => (
                AppView { input: without_previous(v.input), ..v },
                ActionView::Nothing,
            ),
            KeyCode::Delete => (
                AppView { input: without_next(v.input), ..v },
                ActionView::Nothing,
            ),
            KeyCode::Char(c) => if c == 'c' && just_control {
                if v.is_turning {
                    (
                        AppView { status: "正在中断…"@, ..v },
                        if v.can_cancel {
                            ActionView::Cancel
                        } else {
                            ActionView::Nothing
                        },
                    )
                } else {
                    (AppView { should_exit: true, ..v }, ActionView::Nothing)
                }
            } else if c == 'd' && just_control {
                (AppView { should_exit: true, ..v }, ActionView::Nothing)
            } else if c == 't' && just_control {
                (AppView { panel: toggled(v.panel, PanelMode::Task), ..v }, ActionView::Nothing)
            } else if !key.control {
                (AppView { input: with_char(v.input, c), ..v }, ActionView::Nothing)
            } else {
                (v, ActionView::Nothing)
            },
            _ => (v, ActionView::Nothing),
        }
    }
}

/// The state and the action after the terminal reported something. Keys go to
/// an open permission prompt first, then to the open list of conversations,
/// then to the input line.
pub open spec fn after_term(v: AppView, ev: TermEvent) -> (AppView, ActionView) {
    match ev {
        TermEvent::Other => (v, ActionView::Nothing),
        TermEvent::Key(key) => if v.prompt is Some {
            after_permission_key(v, key)
        } else if v.sidebar_visible {
            after_sidebar_key(v, key)
        } else {
            after_key(v, key)
        },
    }
}

/// The state and the action after an event.
pub open spec fn after_event(v: AppView, ev: AppEvent) -> (AppView, ActionView) {
    match ev {
        AppEvent::Term(t) => after_term(v, t),
        AppEvent::Runtime(r) => (after_runtime(v, r), ActionView::Nothing),
        AppEvent::TurnResult(r) => (after_turn(v, r), ActionView::Nothing),
        AppEvent::PermissionRequest(p) => (
            AppView { prompt: Some(p@), ..v },
            ActionView::Nothing,
        ),
        AppEvent::SwitchSession(id) => (
            AppView { pending_switch: Some(id@), should_exit: true, ..v },
            ActionView::Nothing,
        ),
        AppEvent::Summary(s) => (
            AppView {
                lines: v.lines.push(
                    ChatLineView::System(
                        match s {
                            Some(t) => t@,
                            None => "无消息可摘要"@,
                        },
                    ),
                ),
                ..v
            },
            ActionView::Nothing,
        ),
        AppEvent::CommandOutput(t) => (
            AppView { lines: v.lines.push(ChatLineView::System(t@)), ..v },
            ActionView::Nothing,
        ),
    }
}

impl App {
    /// The input line is sound, and the chosen conversation is shown.
    pub open spec fn wf(&self) -> bool {
        &&& self.input.wf()
        &&& self.selected is Some ==> self.selected->0 < rows_shown(self.sessions@.len())
    }

    /// An empty conversation. The conversations to choose from come with the
    /// latest first.
    pub fn new(sessions: Vec<SessionItem>, current_session_id: String) -> (r: App)
        ensures
            r.wf(),
            r@ == (AppView {
                lines: Seq::empty(),
                streaming: Seq::empty(),
                reasoning: Seq::empty(),
                input: InputView {
                    text: Seq::empty(),
                    at: 0,
                    history: Seq::empty(),
                    shown: None,
                },
                is_turning: false,
                should_exit: false,
                prompt: None,
                status: "就绪"@,
                sessions: session_views(sessions@),
                current: current_session_id@,
                sidebar_visible: false,
                selected: if sessions@.len() > 0 {
                    Some(0)
                } else {
                    None
                },
                pending_switch: None,
                panel: PanelMode::Off,
                tasks: Seq::empty(),
                can_cancel: false,
                scroll: 0,
                theme: dark_theme(),
            }),
    {
        let selected: Option<usize> = if sessions.len() > 0 {
            Some(0)
        } else {
            None
        };
        let r = App {
            lines: Vec::new(),
            streaming: String::new(),
            reasoning: String::new(),
            input: InputState::default(),
            is_turning: false,
            should_exit: false,
            pending_permission: None,
            status_msg: "就绪".to_owned(),
            sessions,
            current_session_id,
            sidebar_visible: false,
            selected,
            pending_switch: None,
            panel_mode: PanelMode::Off,
            tasks: Vec::new(),
            can_cancel: false,
            scroll_offset: 0,
            theme: Theme::dark(),
        };
        assert(r@.lines == Seq::<ChatLineView>::empty());
        assert(r@.tasks == Seq::<TaskView>::empty());
        assert(r@.streaming == Seq::<char>::empty());
        assert(r@.reasoning == Seq::<char>::empty());
        r
    }

    /// Whether the interface is to be left.
    pub fn should_exit(&self) -> (r: bool)
        ensures
            r == self@.should_exit,
    {
        self.should_exit
    }

    /// Takes out the conversation that was chosen, if one was.
    pub fn take_pending_switch(&mut self) -> (r: Option<String>)
        requires
            old(self).wf(),
        ensures
            final(self).wf(),
            opt_view(r) == old(self)@.pending_switch,
            final(self)@ == (AppView { pending_switch: None, ..old(self)@ }),
    {
        self.pending_switch.take()
    }

    /// Notes that the running turn can be interrupted.
    pub fn set_cancel_token(&mut self)
        requires
            old(self).wf(),
        ensures
            final(self).wf(),
            final(self)@ == (AppView { can_cancel: true, ..old(self)@ }),
    {
        self.can_cancel = true;
    }

    /// Shows the lines of a conversation that is taken up again.
    pub fn set_history(&mut self, history: Vec<ChatLine>)
        requires
            old(self).wf(),
        ensures
            final(self).wf(),
            final(self)@ == (AppView { lines: chat_views(history@), ..old(self)@ }),
    {
        self.lines = history;
    }

    /// Adds a line.
    fn add_line(&mut self, line: ChatLine)
        requires
            old(self).wf(),
        ensures
            final(self).wf(),
            final(self)@ == (AppView { lines: old(self)@.lines.push(line@), ..old(self)@ }),
    {
        let ghost before = self@.lines;
        self.lines.push(line);
        assert(chat_views(self.lines@) == before.push(line@));
    }

    /// Sets the status.
    fn set_status(&mut self, s: &str)
        requires
            old(self).wf(),
        ensures
            final(self).wf(),
            final(self)@ == (AppView { status: s@, ..old(self)@ }),
    {
        self.status_msg = s.to_owned();
    }

    /// Takes in an event.
    pub fn handle_app_event(&mut self, ev: AppEvent) -> (r: AppAction)
        requires
            old(self).wf(),
        ensures
            final(self).wf(),
            (final(self)@, r@) == after_event(old(self)@, ev),
    {
        match ev {
            AppEvent::Term(t) => self.handle_term_event(t),
            AppEvent::Runtime(e) => {
                self.handle_runtime_event(e);
                AppAction::Nothing
            },
            AppEvent::TurnResult(result) => {
                self.handle_turn_result(result);
                AppAction::Nothing
            },
            AppEvent::PermissionRequest(p) => {
                self.pending_permission = Some(p);
                AppAction::Nothing
            },
            AppEvent::SwitchSession(id) => {
                self.pending_switch = Some(id);
                self.should_exit = true;
                AppAction::Nothing
            },
            AppEvent::Summary(s) => {
                let text = match s {
                    Some(t) => t,
                    None => "无消息可摘要".to_owned(),
                };
                self.add_line(ChatLine::System(text));
                AppAction::Nothing
            },
            AppEvent::CommandOutput(t) => {
                self.add_line(ChatLine::System(t));
                AppAction::Nothing
            },
        }
    }

    fn handle_turn_result(&mut self, result: Result<TurnOutcome, String>)
        requires
            old(self).wf(),
        ensures
            final(self).wf(),
            final(self)@ == after_turn(old(self)@, result),
    {
        self.is_turning = false;
        match result {
            Ok(TurnOutcome::Finished) => {
                self.set_status("就绪");
            },
            Ok(TurnOutcome::Interrupted) => {
                self.set_status("已中断");
                self.streaming = String::new();
            },
            Ok(TurnOutcome::Failed(e)) => {
                let mut s = "失败: ".to_owned();
                s.append(e.as_str());
                self.status_msg = s;
                self.streaming = String::new();
            },
            Err(e) => {
                let mut s = "运行时错误: ".to_owned();
                s.append(e.as_str());
                self.status_msg = s;
                self.streaming = String::new();
            },
        }
    }

    /// Puts the answer so far among the lines.
    fn settle(&mut self)
        requires
            old(self).wf(),
        ensures
            final(self).wf(),
            final(self)@ == settled(old(self)@),
    {
        let n: usize = self.streaming.as_str().unicode_len();
        if n > 0 {
            let text = self.streaming.clone();
            self.streaming = String::new();
            assert(self.streaming@ == Seq::<char>::empty());
            self.add_line(ChatLine::Assistant(text));
        }
    }

    /// Takes in what the conversation reports.
    pub fn handle_runtime_event(&mut self, ev: RuntimeEvent)
        requires
            old(self).wf(),
        ensures
            final(self).wf(),
            final(self)@ == after_runtime(old(self)@, ev),
    {
        match ev {
            RuntimeEvent::TurnStreamingStarted => {
                self.is_turning = true;
                self.set_status("生成中…");
            },
            RuntimeEvent::Token(t) => {
                self.streaming.append(t.as_str());
            },
            RuntimeEvent::ReasoningDelta(t) => {
                self.reasoning.append(t.as_str());
            },
            RuntimeEvent::MessageAppended { role, text } => {
                self.add_message(role, text);
            },
            RuntimeEvent::ToolCallStarted { tool } => {
                self.add_line(ChatLine::Tool { tool, done: false });
            },
            RuntimeEvent::ToolCallFinished { tool } => {
                self.finish_tool_line(tool);
            },
            RuntimeEvent::TurnEnd => {
                self.settle();
                self.is_turning = false;
                self.reasoning = String::new();
                self.set_status("就绪");
            },
            RuntimeEvent::TaskUpdated { task } => {
                self.update_task(task);
                if self.panel_mode == PanelMode::Off {
                    self.panel_mode = PanelMode::Task;
                }
            },
            RuntimeEvent::Other => {},
        }
    }

    /// Whether the last line is an answer.
    fn ends_with_answer(&self) -> (r: bool)
        ensures
            r == (self@.lines.len() > 0 && self@.lines.last() is Assistant),
    {
        let count: usize = self.lines.len();
        if count == 0 {
            return false;
        }
        assert(self@.lines.last() == self.lines@[count - 1]@);
        match &self.lines[count - 1] {
            ChatLine::Assistant(_) => true,
            _ => false,
        }
    }

    /// Takes in a message of the conversation.
    #[verifier::spinoff_prover]
    fn add_message(&mut self, role: Role, text: String)
        requires
            old(self).wf(),
        ensures
            final(self).wf(),
            final(self)@ == after_message(old(self)@, role, text@),
    {
        self.reasoning = String::new();
        assert(self.reasoning@ == Seq::<char>::empty());
        if role == Role::Assistant {
            self.settle();
        }
        let n: usize = text.as_str().unicode_len();
        if n == 0 {
            return ;
        }
        match role {
            Role::User => {
                self.scroll_offset = 0;
                self.add_line(ChatLine::User(text));
            },
            Role::Assistant => {
                if !self.ends_with_answer() {
                    self.add_line(ChatLine::Assistant(text));
                }
            },
            Role::Tool => {
                self.add_line(ChatLine::Tool { tool: text, done: true });
            },
            Role::System => {
                self.add_line(ChatLine::System(text));
            },
        }
    }

    /// Marks the last call of the tool as done.
    fn finish_tool_line(&mut self, name: String)
        requires
            old(self).wf(),
        ensures
            final(self).wf(),
            final(self)@ == (AppView {
                lines: ticked_off(old(self)@.lines, name@),
                ..old(self)@
            }),
    {
        let ghost before = self@.lines;
        let mut i: usize = self.lines.len();
        while i > 0
            invariant
                i <= self.lines@.len(),
                *self == *old(self),
                self.wf(),
                before == chat_views(self.lines@),
                forall|k: int| i <= k < before.len() ==> !calls(#[trigger] before[k], name@),
            decreases i,
        {
            i = i - 1;
            assert(before[i as int] == self.lines@[i as int]@);
            let found = match &self.lines[i] {
                ChatLine::Tool { tool, done } => same(tool.as_str(), name.as_str()),
                _ => false,
            };
            if found {
                proof {
                    lemma_ticked_off(before, name@, i as int);
                }
                self.lines.set(i, ChatLine::Tool { tool: name, done: true });
                assert(chat_views(self.lines@) == before.update(
                    i as int,
                    ChatLineView::Tool { tool: name@, done: true },
                ));
                return ;
            }
        }
        proof {
            lemma_nothing_ticked_off(before, name@);
        }
    }

    /// Puts a task in place of the one with the same id, or at the end.
    fn update_task(&mut self, task: Task)
        requires
            old(self).wf(),
        ensures
            final(self).wf(),
            final(self)@ == (AppView { tasks: with_task(old(self)@.tasks, task@), ..old(self)@ }),
    {
        let ghost before = self@.tasks;
        proof {
            lemma_position(before, task@.id);
        }
        match find_task(&self.tasks, &task.id) {
            Some(i) => {
                self.tasks.set(i, task);
                assert(task_views(self.tasks@) == before.update(i as int, task@));
            },
            None => {
                self.tasks.push(task);
                assert(task_views(self.tasks@) == before.push(task@));
            },
        }
    }

    /// Takes in what the terminal reports.
    pub fn handle_term_event(&mut self, ev: TermEvent) -> (r: AppAction)
        requires
            old(self).wf(),
        ensures
            final(self).wf(),
            (final(self)@, r@) == after_term(old(self)@, ev),
    {
        match ev {
            TermEvent::Other => AppAction::Nothing,
            TermEvent::Key(key) => {
                if self.pending_permission.is_some() {
                    self.handle_permission_key(key)
                } else if self.sidebar_visible {
                    self.handle_sidebar_key(key)
                } else {
                    self.handle_key(key)
                }
            },
        }
    }

    /// Takes in a key of the input line.
    pub fn handle_key(&mut self, key: KeyEvent) -> (r: AppAction)
        requires
            old(self).wf(),
        ensures
            final(self).wf(),
            (final(self)@, r@) == after_key(old(self)@, key),
    {
        if !key.press {
            return AppAction::Nothing;
        }
        let unmodified = !key.control && !key.other_modifier;
        match key.code {
            KeyCode::Enter => {
                return self.submit_input();
            },
            KeyCode::PageUp => {
                self.scroll_offset = if self.scroll_offset > usize::MAX - 10 {
                    usize::MAX
                } else {
                    self.scroll_offset + 10
                };
                self.show_scroll();
            },
            KeyCode::PageDown => {
                self.scroll_offset = if self.scroll_offset < 10 {
                    0
                } else {
                    self.scroll_offset - 10
                };
                if self.scroll_offset == 0 {
                    self.set_status("↓ 已回到底部");
                } else {
                    self.show_scroll();
                }
            },
            KeyCode::F(k) => {
                self.handle_function_key(k, key);
            },
            KeyCode::Up => {
                if unmodified {
                    self.input.history_prev();
                }
            },
            KeyCode::Down => {
                if unmodified {
                    self.input.history_next();
                }
            },
            KeyCode::Left => {
                self.input.cursor_left();
            },
            KeyCode::Right => {
                self.input.cursor_right();
            },
            KeyCode::Home => {
                self.input.cursor_home();
            },
            KeyCode::End => {
                self.input.cursor_end();
            },
            KeyCode::Backspace => {
                self.input.backspace();
            },
            KeyCode::Delete => {
                self.input.delete();
            },
            KeyCode::Char(c) => {
                return self.handle_char_key(c, key);
            },
            _ => {},
        }
        AppAction::Nothing
    }

    /// Takes in a function key.
    fn handle_function_key(&mut self, k: u8, key: KeyEvent)
        requires
            old(self).wf(),
            key.press,
            key.code == KeyCode::F(k),
        ensures
            final(self).wf(),
            (final(self)@, ActionView::Nothing) == after_key(old(self)@, key),
    {
        if k == 2 {
            self.sidebar_visible = true;
            self.set_status("会话列表（↑↓ 选择 / Enter 恢复 / Esc 返回）");
        } else if k == 3 {
            self.panel_mode = if self.panel_mode == PanelMode::Tool {
                PanelMode::Off
            } else {
                PanelMode::Tool
            };
        } else if k == 4 {
            self.theme = if self.theme.titlebar_bg == Color::Black {
                Theme::light()
            } else {
                Theme::dark()
            };
            self.set_status("主题已切换");
        }
    }

    /// Takes in a character, or a command given with the control key.
    fn handle_char_key(&mut self, c: char, key: KeyEvent) -> (r: AppAction)
        requires
            old(self).wf(),
            key.press,
            key.code == KeyCode::Char(c),
        ensures
            final(self).wf(),
            (final(self)@, r@) == after_key(old(self)@, key),
    {
        let just_control = key.control && !key.other_modifier;
        if c == 'c' && just_control {
            if self.is_turning {
                self.set_status("正在中断…");
                if self.can_cancel {
                    return AppAction::Cancel;
                }
            } else {
                self.should_exit = true;
            }
        } else if c == 'd' && just_control {
            self.should_exit = true;
        } else if c == 't' && just_control {
            self.panel_mode = if self.panel_mode == PanelMode::Task {
                PanelMode::Off
            } else {
                PanelMode::Task
            };
        } else if !key.control {
            self.input.insert_char(c);
        }
        AppAction::Nothing
    }

    /// Says how far back the lines shown are.
    fn show_scroll(&mut self)
        requires
            old(self).wf(),
        ensures
            final(self).wf(),
            final(self)@ == (AppView { status: looking_back(old(self)@.scroll), ..old(self)@ }),
    {
        let mut s = "↑ 回看 ".to_owned();
        let shown = show_usize(self.scroll_offset);
        s.append(shown.as_str());
        s.append(" 行");
        self.status_msg = s;
    }

    /// Takes in a key of the list of conversations.
    pub fn handle_sidebar_key(&mut self, key: KeyEvent) -> (r: AppAction)
        requires
            old(self).wf(),
        ensures
            final(self).wf(),
            (final(self)@, r@) == after_sidebar_key(old(self)@, key),
    {
        if !key.press {
            return AppAction::Nothing;
        }
        let n: usize = if self.sessions.len() < SIDEBAR_ROWS {
            self.sessions.len()
        } else {
            SIDEBAR_ROWS
        };
        assert(rows_shown(self@.sessions.len()) == n);
        let cur: usize = match self.selected {
            Some(i) => i,
            None => 0,
        };
        match key.code {
            KeyCode::Esc => {
                self.sidebar_visible = false;
                self.set_status("就绪");
            },
            KeyCode::F(k) => {
                if k == 2 {
                    self.sidebar_visible = false;
                    self.set_status("就绪");
                }
            },
            KeyCode::Up => {
                if n > 0 {
                    self.selected = Some(
                        if cur == 0 {
                            n - 1
                        } else {
                            cur - 1
                        },
                    );
                }
            },
            KeyCode::Down => {
                if n > 0 {
                    self.selected = Some(
                        if cur + 1 >= n {
                            0
                        } else {
                            cur + 1
                        },
                    );
                }
            },
            KeyCode::Enter => {
                if let Some(i) = self.selected {
                    assert(self@.sessions[i as int] == self.sessions@[i as int]@);
                    if self.sessions[i].id == self.current_session_id {
                        self.sidebar_visible = false;
                        self.set_status("已是当前会话");
                    } else {
                        let id = self.sessions[i].id.clone();
                        self.set_status("正在切换会话…");
                        return AppAction::Send(UiCommand::SwitchSession(id));
                    }
                }
            },
            _ => {},
        }
        AppAction::Nothing
    }

    /// Takes in a key while a permission prompt is open.
    pub fn handle_permission_key(&mut self, key: KeyEvent) -> (r: AppAction)
        requires
            old(self).wf(),
        ensures
            final(self).wf(),
            (final(self)@, r@) == after_permission_key(old(self)@, key),
    {
        if !key.press {
            return AppAction::Nothing;
        }
        let offered = match &self.pending_permission {
            None => {
                return AppAction::Nothing;
            },
            Some(p) => offers_always(&p.options),
        };
        match answer(key.code, offered) {
            Some(d) => {
                self.pending_permission = None;
                AppAction::Reply(d)
            },
            None => AppAction::Nothing,
        }
    }

    /// Enters the text of the input line.
    pub fn submit_input(&mut self) -> (r: AppAction)
        requires
            old(self).wf(),
        ensures
            final(self).wf(),
            (final(self)@, r@) == after_submit(old(self)@),
    {
        if self.is_turning {
            return AppAction::Nothing;
        }
        match self.input.submit() {
            None => AppAction::Nothing,
            Some(text) => {
                self.scroll_offset = 0;
                let copy = text.clone();
                self.add_line(ChatLine::User(copy));
                self.is_turning = true;
                self.set_status("等待响应…");
                AppAction::Send(UiCommand::Submit(text))
            },
        }
    }
}

/// Whether permission for good is among the options.
fn offers_always(options: &Vec<PromptOption>) -> (r: bool)
    ensures
        r == options@.contains(PromptOption::AllowAlways),
{
    let mut i: usize = 0;
    while i < options.len()
        invariant
            i <= options@.len(),
            forall|j: int| 0 <= j < i ==> options@[j] != PromptOption::AllowAlways,
        decreases options@.len() - i,
    {
        if options[i] == PromptOption::AllowAlways {
            return true;
        }
        i = i + 1;
    }
    false
}

/// The answer that a key gives.
fn answer(code: KeyCode, always_offered: bool) -> (r: Option<Decision>)
    ensures
        match r {
            Some(d) => answer_of(code, always_offered) == Some(d@),
            None => answer_of(code, always_offered) is None,
        },
{
    match code {
        KeyCode::Char(c) => {
            if c == 'a' && always_offered {
                Some(Decision::AllowAlways)
            } else if c == 'y' || c == 'Y' || ((c == 'a' || c == 'A') && !always_offered) {
                Some(Decision::Allow)
            } else if c == 'n' || c == 'N' || c == 'd' || c == 'D' {
                Some(Decision::Deny("用户拒绝".to_owned()))
            } else {
                None
            }
        },
        KeyCode::Esc => Some(Decision::Deny("用户拒绝".to_owned())),
        _ => None,
    }
}

/// While a permission prompt is open no key does anything but answer it: the
/// input line, the lists and the conversation stay as they are.
pub proof fn open_prompt_takes_every_key(v: AppView, key: KeyEvent)
    requires
        v.prompt is Some,
    ensures
        ({
            let (w, a) = after_term(v, TermEvent::Key(key));
            &&& w == v || w == (AppView { prompt: None, ..v })
            &&& (a is Reply) == (w.prompt is None)
            &&& a is Reply || a is Nothing
        }),
{
}

/// Permission for good is given only where it was offered.
pub proof fn always_needs_an_offer(code: KeyCode, always_offered: bool)
    ensures
        answer_of(code, always_offered) == Some(DecisionView::AllowAlways) ==> always_offered,
{
}

/// While a turn runs nothing is sent to the conversation from the input line.
pub proof fn running_turn_takes_no_input(v: AppView, key: KeyEvent)
    requires
        v.is_turning,
    ensures
        !(after_key(v, key).1 is Submit),
{
}

/// Pressing the key of a panel twice leaves the panels as they were, if they
/// were closed or that panel was open.
pub proof fn panel_key_twice(panel: PanelMode, which: PanelMode)
    requires
        which != PanelMode::Off,
        panel == PanelMode::Off || panel == which,
    ensures
        toggled(toggled(panel, which), which) == panel,
{
}

/// Changing the colour scheme twice comes back to it.
pub proof fn theme_key_twice(t: Theme)
    requires
        t == dark_theme() || t == light_theme(),
    ensures
        other_theme(other_theme(t)) == t,
{
}

/// One step down and one step up in the list of conversations come back to
/// the same line, round the ends too.
pub proof fn sidebar_up_undoes_down(v: AppView, down: KeyEvent, up: KeyEvent)
    requires
        v.selected is Some,
        v.selected->0 < rows_shown(v.sessions.len()),
        down.press,
        down.code == KeyCode::Down,
        up.press,
        up.code == KeyCode::Up,
    ensures
        after_sidebar_key(after_sidebar_key(v, down).0, up).0 == v,
{
}

/// An answer that was streamed and then reported as a message stands among the
/// lines once.
pub proof fn streamed_answer_appears_once(v: AppView, text: Seq<char>)
    requires
        v.streaming.len() > 0,
    ensures
        after_message(v, Role::Assistant, text).lines == v.lines.push(
            ChatLineView::Assistant(v.streaming),
        ),
        after_message(v, Role::Assistant, text).streaming.len() == 0,
{
}

/// A character typed in the input line stands where the cursor was; nothing
/// else changes, and nothing is sent.
pub proof fn typed_character_joins_the_input(app: &mut App, key: KeyEvent, c: char, r: AppAction)
    requires
        old(app).wf(),
        call_ensures(App::handle_key, (app, key), r),
        key.press,
        !key.control,
        key.code == KeyCode::Char(c),
    ensures
        r is Nothing,
        ({
            let a = old(app)@;
            let i = a.input;
            final(app)@ == (AppView {
                input: InputView {
                    text: i.text.take(i.at) + seq![c] + i.text.skip(i.at),
                    at: i.at + 1,
                    ..i
                },
                ..a
            })
        }),
{
    let i = old(app)@.input;
    assert(i.text.insert(i.at, c) == i.text.take(i.at) + seq![c] + i.text.skip(i.at));
    assert(r@ == ActionView::Nothing);
}

/// The keys of the input line do what is said of them there: arrows move the
/// cursor or walk the history, and the keys for deleting delete.
pub proof fn editing_keys_edit_the_input(app: &mut App, key: KeyEvent, r: AppAction)
    requires
        old(app).wf(),
        call_ensures(App::handle_key, (app, key), r),
        key.press,
    ensures
        ({
            let a = old(app)@;
            let b = final(app)@;
            let i = a.input;
            let bare = !key.control && !key.other_modifier;
            let edits = key.code is Left || key.code is Right || key.code is Home || key.code is End
                || key.code is Backspace || key.code is Delete || key.code is Up || key.code
                is Down;
            &&& edits ==> r is Nothing && b == (AppView { input: b.input, ..a })
            &&& key.code is Left && i.at > 0 ==> b.input == (InputView { at: i.at - 1, ..i })
            &&& key.code is Right && i.at < i.text.len() ==> b.input == (InputView {
                at: i.at + 1,
                ..i
            })
            &&& key.code is Home ==> b.input == (InputView { at: 0, ..i })
            &&& key.code is End ==> b.input == (InputView { at: i.text.len() as int, ..i })
            &&& key.code is Backspace && i.at > 0 ==> b.input == (InputView {
                text: i.text.take(i.at - 1) + i.text.skip(i.at),
                at: i.at - 1,
                ..i
            })
            &&& key.code is Delete && i.at < i.text.len() ==> b.input == (InputView {
                text: i.text.take(i.at) + i.text.skip(i.at + 1),
                ..i
            })
            &&& key.code is Up && bare && i.shown is None && i.history.len() > 0 ==> b.input.text
                == i.history.last()
            &&& (key.code is Up || key.code is Down) && !bare ==> b == a
        }),
{
    let i = old(app)@.input;
    if i.at > 0 {
        assert(i.text.remove(i.at - 1) == i.text.take(i.at - 1) + i.text.skip(i.at));
    }
    if i.at < i.text.len() {
        assert(i.text.remove(i.at) == i.text.take(i.at) + i.text.skip(i.at + 1));
    }
    let h = old(app).input.history.len();
    assert(h == old(app).input.history@.len());
    assert(i.history.len() == h);
    assert((final(app)@, r@) == after_key(old(app)@, key));
    assert(r@ == r.view());
}

/// Entering sends the text of the input, shows it as what the user said and
/// begins a turn; while a turn runs, and where the text is blank, nothing
/// happens.
pub proof fn entering_sends_the_text(app: &mut App, r: AppAction)
    requires
        old(app).wf(),
        call_ensures(App::submit_input, (app,), r),
    ensures
        ({
            let a = old(app)@;
            let b = final(app)@;
            let text = a.input.text;
            let said = exists|i: int| 0 <= i < text.len() && !is_space(#[trigger] text[i]);
            &&& r is Send == (said && !a.is_turning)
            &&& !(r is Send) ==> b == a && r is Nothing
            &&& r is Send ==> {
                &&& r->Send_0 matches UiCommand::Submit(t)
                &&& t@ == text
                &&& b.lines == a.lines.push(ChatLineView::User(text))
                &&& b.is_turning
                &&& b.input.text.len() == 0
                &&& b.input.history.last() == text
                &&& b.scroll == 0
                &&& b.streaming == a.streaming && b.tasks == a.tasks && b.prompt == a.prompt
            }
        }),
{
    assert(r@ == r.view());
    let text = old(app)@.input.text;
    if is_blank(text) {
        assert forall|i: int| 0 <= i < text.len() implies is_space(#[trigger] text[i]) by {}
    }
}

/// Control and `c` interrupts a turn that can be interrupted and ends the
/// program where no turn runs; control and `d` ends it always. No other key
/// does either.
pub proof fn keys_that_interrupt_and_end(app: &mut App, key: KeyEvent, r: AppAction)
    requires
        old(app).wf(),
        call_ensures(App::handle_key, (app, key), r),
    ensures
        ({
            let a = old(app)@;
            let b = final(app)@;
            let control = key.press && key.control && !key.other_modifier;
            let c = control && key.code == KeyCode::Char('c');
            let d = control && key.code == KeyCode::Char('d');
            &&& b.should_exit == (a.should_exit || d || (c && !a.is_turning))
            &&& r is Cancel == (c && a.is_turning && a.can_cancel)
            &&& r is Send ==> key.code is Enter && key.press
            &&& !(r is Reply)
            &&& !key.press ==> b == a && r is Nothing
        }),
{
    lemma_interrupt_and_end(old(app)@, key);
    assert((final(app)@, r@) == after_key(old(app)@, key));
    assert(r@ == r.view());
}

proof fn lemma_interrupt_and_end(v: AppView, key: KeyEvent)
    ensures
        ({
            let (b, r) = after_key(v, key);
            let control = key.press && key.control && !key.other_modifier;
            let c = control && key.code == KeyCode::Char('c');
            let d = control && key.code == KeyCode::Char('d');
            &&& b.should_exit == (v.should_exit || d || (c && !v.is_turning))
            &&& r is Cancel == (c && v.is_turning && v.can_cancel)
            &&& r is Nothing || r is Cancel || (r is Submit && key.code is Enter && key.press)
            &&& !key.press ==> b == v && r is Nothing
        }),
{
    match key.code {
        KeyCode::Char(x) => {},
        KeyCode::Enter => {},
        _ => {},
    }
}

/// Looking back goes ten lines at a time, and on again as far as the bottom.
pub proof fn paging_goes_ten_lines(app: &mut App, key: KeyEvent, r: AppAction)
    requires
        old(app).wf(),
        call_ensures(App::handle_key, (app, key), r),
        key.press,
        key.code is PageUp || key.code is PageDown,
    ensures
        r is Nothing,
        final(app)@ == (AppView {
            scroll: final(app).scroll_offset,
            status: final(app).status_msg@,
            ..old(app)@
        }),
        key.code is PageUp && old(app).scroll_offset + 10 <= usize::MAX ==> final(app).scroll_offset
            == old(app).scroll_offset + 10,
        key.code is PageDown ==> final(app).scroll_offset == if old(app).scroll_offset >= 10 {
            old(app).scroll_offset - 10
        } else {
            0
        },
{
    assert((final(app)@, r@) == after_key(old(app)@, key));
    assert(r@ == ActionView::Nothing);
}

/// An answer to a permission prompt is given by one key, closes the prompt and
/// changes nothing else; any other key leaves it open.
pub proof fn prompt_is_answered_by_one_key(app: &mut App, key: KeyEvent, r: AppAction)
    requires
        old(app).wf(),
        old(app).pending_permission is Some,
        call_ensures(App::handle_permission_key, (app, key), r),
    ensures
        ({
            let always = old(app).pending_permission->0.options@.contains(
                PromptOption::AllowAlways,
            );
            let yes = key.code == KeyCode::Char('y') || key.code == KeyCode::Char('Y') || (!always
                && (key.code == KeyCode::Char('a') || key.code == KeyCode::Char('A')));
            let ever = always && key.code == KeyCode::Char('a');
            let no = key.code == KeyCode::Char('n') || key.code == KeyCode::Char('N') || key.code
                == KeyCode::Char('d') || key.code == KeyCode::Char('D') || key.code == KeyCode::Esc;
            &&& r is Reply == (key.press && (yes || ever || no))
            &&& r is Reply ==> {
                &&& yes ==> r->Reply_0 is Allow
                &&& ever ==> r->Reply_0 is AllowAlways
                &&& no ==> r->Reply_0 is Deny
                &&& final(app)@ == (AppView { prompt: None, ..old(app)@ })
            }
            &&& !(r is Reply) ==> r is Nothing && final(app)@ == old(app)@
        }),
{
    assert((final(app)@, r@) == after_permission_key(old(app)@, key));
    assert(r@ == r.view());
    if r is Reply {
        assert(r->Reply_0@ == r->Reply_0.view());
    }
}

/// In the list of conversations the choice goes one down or up, round the
/// ends; entering changes to the chosen conversation unless it is the current
/// one; escape closes the list.
pub proof fn list_keys_choose_a_conversation(app: &mut App, key: KeyEvent, r: AppAction)
    requires
        old(app).wf(),
        call_ensures(App::handle_sidebar_key, (app, key), r),
        key.press,
        old(app).selected is Some,
    ensures
        ({
            let a = old(app)@;
            let b = final(app)@;
            let n = if a.sessions.len() < 20 {
                a.sessions.len() as int
            } else {
                20
            };
            let i = a.selected->0 as int;
            &&& key.code is Down ==> b.selected is Some && b.selected->0 == (if i == n - 1 {
                0
            } else {
                i + 1
            })
            &&& key.code is Up ==> b.selected is Some && b.selected->0 == (if i == 0 {
                n - 1
            } else {
                i - 1
            })
            &&& key.code is Down || key.code is Up ==> r is Nothing && b == (AppView {
                selected: b.selected,
                ..a
            })
            &&& key.code is Enter && a.sessions[i].id != a.current ==> {
                &&& r matches AppAction::Send(UiCommand::SwitchSession(id))
                &&& id@ == a.sessions[i].id
            }
            &&& key.code is Enter && a.sessions[i].id == a.current ==> r is Nothing
                && !b.sidebar_visible
            &&& key.code is Esc || key.code == KeyCode::F(2) ==> r is Nothing && !b.sidebar_visible
            &&& b.input == a.input && b.lines == a.lines && b.sessions == a.sessions && b.current
                == a.current
        }),
{
    assert(old(app)@.sessions.len() == old(app).sessions@.len());
    assert((final(app)@, r@) == after_sidebar_key(old(app)@, key));
    assert(r@ == r.view());
}

/// A key goes to an open prompt first, then to the open list of conversations,
/// and only then to the input line.
pub proof fn keys_go_to_what_is_open(
    app: &mut App,
    key: KeyEvent,
    r: AppAction,
    prompt: &mut App,
    to_prompt: AppAction,
    list: &mut App,
    to_list: AppAction,
    input: &mut App,
    to_input: AppAction,
)
    requires
        old(app).wf(),
        call_ensures(App::handle_term_event, (app, TermEvent::Key(key)), r),
        *old(prompt) == *old(app) && *old(list) == *old(app) && *old(input) == *old(app),
        call_ensures(App::handle_permission_key, (prompt, key), to_prompt),
        call_ensures(App::handle_sidebar_key, (list, key), to_list),
        call_ensures(App::handle_key, (input, key), to_input),
    ensures
        old(app).pending_permission is Some ==> final(app)@ == final(prompt)@ && r@ == to_prompt@,
        old(app).pending_permission is None && old(app).sidebar_visible ==> final(app)@ == final(list)@ && r@ == to_list@,
        old(app).pending_permission is None && !old(app).sidebar_visible ==> final(app)@ == final(input)@ && r@ == to_input@,
{
}

/// What comes in of an answer is added behind what came before, and so is the
/// reasoning; a tool that is called gets a line that is not done; a task takes
/// the place of the one with its id.
pub proof fn reports_are_taken_in(app: &mut App, ev: RuntimeEvent)
    requires
        old(app).wf(),
        call_ensures(App::handle_runtime_event, (app, ev), ()),
    ensures
        ({
            let a = old(app)@;
            let b = final(app)@;
            &&& ev is Token ==> b == (AppView { streaming: a.streaming + ev->Token_0@, ..a })
            &&& ev is ReasoningDelta ==> b == (AppView {
                reasoning: a.reasoning + ev->ReasoningDelta_0@,
                ..a
            })
            &&& ev is ToolCallStarted ==> b == (AppView {
                lines: a.lines.push(
                    ChatLineView::Tool { tool: ev->ToolCallStarted_tool@, done: false },
                ),
                ..a
            })
            &&& ev is TurnStreamingStarted ==> b.is_turning && b.lines == a.lines && b.streaming
                == a.streaming
            &&& ev is TurnEnd ==> {
                &&& !b.is_turning
                &&& b.streaming.len() == 0 && b.reasoning.len() == 0
                &&& a.streaming.len() > 0 ==> b.lines == a.lines.push(
                    ChatLineView::Assistant(a.streaming),
                )
                &&& a.streaming.len() == 0 ==> b.lines == a.lines
            }
            &&& ev is Other ==> b == a
        }),
{
}

/// A message joins the lines under the name of the one who said it; the answer
/// that was streamed stands there once.
pub proof fn messages_join_the_lines(app: &mut App, role: Role, text: String)
    requires
        old(app).wf(),
        call_ensures(
            App::handle_runtime_event,
            (app, (RuntimeEvent::MessageAppended { role, text })),
            (),
        ),
    ensures
        ({
            let a = old(app)@;
            let b = final(app)@;
            let streamed = role is Assistant && a.streaming.len() > 0;
            let settled_lines = if streamed {
                a.lines.push(ChatLineView::Assistant(a.streaming))
            } else {
                a.lines
            };
            let repeated = role is Assistant && settled_lines.len() > 0 && settled_lines.last()
                is Assistant;
            &&& text@.len() == 0 || repeated ==> b.lines == settled_lines
            &&& text@.len() > 0 && role is User ==> b.lines == a.lines.push(
                ChatLineView::User(text@),
            ) && b.scroll == 0
            &&& text@.len() > 0 && role is Assistant && !repeated ==> b.lines == settled_lines.push(
                ChatLineView::Assistant(text@),
            )
            &&& text@.len() > 0 && role is Tool ==> b.lines == a.lines.push(
                ChatLineView::Tool { tool: text@, done: true },
            )
            &&& text@.len() > 0 && role is System ==> b.lines == a.lines.push(
                ChatLineView::System(text@),
            )
            &&& role is Assistant ==> b.streaming.len() == 0
            &&& !(role is Assistant) ==> b.streaming == a.streaming
            &&& b.reasoning.len() == 0
            &&& b.is_turning == a.is_turning && b.tasks == a.tasks && b.input == a.input
        }),
{
}

/// A task that is reported stands in the place of the one with its id, or at
/// the end; no other task changes.
pub proof fn reported_task_is_shown(app: &mut App, task: Task)
    requires
        old(app).wf(),
        call_ensures(App::handle_runtime_event, (app, (RuntimeEvent::TaskUpdated { task })), ()),
    ensures
        ({
            let a = old(app)@.tasks;
            let b = final(app)@.tasks;
            let fresh = forall|i: int| 0 <= i < a.len() ==> (#[trigger] a[i]).id != task@.id;
            &&& fresh ==> b == a.push(task@)
            &&& !fresh ==> b.len() == a.len() && exists|i: int|
                0 <= i < a.len() && (#[trigger] a[i]).id == task@.id && b == a.update(i, task@)
            &&& old(app).panel_mode is Off ==> final(app).panel_mode is Task
            &&& !(old(app).panel_mode is Off) ==> final(app).panel_mode == old(app).panel_mode
            &&& final(app)@.lines == old(app)@.lines
        }),
{
    let a = old(app)@.tasks;
    lemma_position(a, task@.id);
    if let Some(i) = position_of(a, task@.id) {
        assert(a[i].id == task@.id);
    }
}

/// The end of a turn ends it, whatever came of it, and says what did; an answer
/// that was cut off is dropped.
pub proof fn end_of_a_turn_is_told(app: &mut App, result: Result<TurnOutcome, String>, r: AppAction)
    requires
        old(app).wf(),
        call_ensures(App::handle_app_event, (app, AppEvent::TurnResult(result)), r),
    ensures
        r is Nothing,
        ({
            let a = old(app)@;
            let b = final(app)@;
            &&& !b.is_turning
            &&& b.lines == a.lines && b.input == a.input && b.tasks == a.tasks
            &&& result matches Ok(TurnOutcome::Finished) ==> b.streaming == a.streaming && b.status
                == "就绪"@
            &&& !(result matches Ok(TurnOutcome::Finished)) ==> b.streaming.len() == 0
            &&& result matches Ok(TurnOutcome::Failed(e)) ==> {
                &&& b.status.len() >= e@.len()
                &&& b.status.skip(b.status.len() - e@.len()) == e@
            }
            &&& result matches Err(e) ==> {
                &&& b.status.len() >= e@.len()
                &&& b.status.skip(b.status.len() - e@.len()) == e@
            }
        }),
{
    assert(r@ == ActionView::Nothing);
    let b = final(app)@;
    if let Ok(TurnOutcome::Failed(e)) = result {
        assert(b.status == "失败: "@ + e@);
        assert(b.status.skip(b.status.len() - e@.len()) == e@);
    }
    if let Err(e) = result {
        assert(b.status == "运行时错误: "@ + e@);
        assert(b.status.skip(b.status.len() - e@.len()) == e@);
    }
}

/// What else comes in: a prompt is opened, a change of conversation ends this
/// one and names the next, and what a command says is a line of the system.
pub proof fn other_events_are_taken_in(app: &mut App, ev: AppEvent, r: AppAction)
    requires
        old(app).wf(),
        call_ensures(App::handle_app_event, (app, ev), r),
    ensures
        ({
            let a = old(app)@;
            let b = final(app)@;
            &&& ev is PermissionRequest ==> b == (AppView {
                prompt: Some(ev->PermissionRequest_0@),
                ..a
            })
            &&& ev is SwitchSession ==> b == (AppView {
                pending_switch: Some(ev->SwitchSession_0@),
                should_exit: true,
                ..a
            })
            &&& ev is CommandOutput ==> b == (AppView {
                lines: a.lines.push(ChatLineView::System(ev->CommandOutput_0@)),
                ..a
            })
            &&& ev matches AppEvent::Summary(Some(t)) ==> b == (AppView {
                lines: a.lines.push(ChatLineView::System(t@)),
                ..a
            })
            &&& !(ev is Term) ==> r is Nothing
        }),
{
    assert(r@ == r.view());
}

/// The keys for panels open their panel, or close it where it is open; F2
/// opens the list of conversations, and F4 changes the colours and nothing of
/// what is shown.
pub proof fn keys_for_panels(app: &mut App, key: KeyEvent, r: AppAction)
    requires
        old(app).wf(),
        call_ensures(App::handle_key, (app, key), r),
        key.press,
    ensures
        ({
            let a = old(app)@;
            let b = final(app)@;
            let tasks = key.control && !key.other_modifier && key.code == KeyCode::Char('t');
            let tools = key.code == KeyCode::F(3);
            &&& tools ==> b == (AppView { panel: b.panel, ..a }) && b.panel is Tool == !(a.panel
                is Tool) && (a.panel is Tool ==> b.panel is Off)
            &&& tasks ==> b == (AppView { panel: b.panel, ..a }) && b.panel is Task == !(a.panel
                is Task) && (a.panel is Task ==> b.panel is Off)
            &&& key.code == KeyCode::F(2) ==> b.sidebar_visible && b == (AppView {
                sidebar_visible: true,
                status: b.status,
                ..a
            })
            &&& key.code == KeyCode::F(4) ==> b == (AppView {
                theme: b.theme,
                status: b.status,
                ..a
            })
            &&& key.code == KeyCode::F(4) && a.theme == dark_theme() ==> b.theme == light_theme()
            &&& key.code == KeyCode::F(4) && a.theme == light_theme() ==> b.theme == dark_theme()
            &&& key.code is F || tasks ==> r is Nothing
        }),
{
    assert((final(app)@, r@) == after_key(old(app)@, key));
    assert(r@ == r.view());
}

/// A new interface shows nothing yet, is idle, and has the first of the
/// conversations chosen, if there is one.
pub proof fn new_interface_is_idle(sessions: Vec<SessionItem>, current: String, r: App)
    requires
        call_ensures(App::new, (sessions, current), r),
    ensures
        r.wf(),
        r@.lines.len() == 0 && r@.streaming.len() == 0 && r@.input.text.len() == 0,
        !r.is_turning && !r.should_exit && !r.sidebar_visible,
        r.pending_permission is None,
        r@.sessions == session_views(sessions@),
        r@.current == current@,
        sessions@.len() > 0 ==> r.selected == Some(0usize),
        sessions@.len() == 0 ==> r.selected is None,
{
    assert(r@.prompt is None);
}

/// The conversation to change to is handed out once.
pub proof fn change_is_handed_out_once(
    app: &mut App,
    first: Option<String>,
    again: &mut App,
    second: Option<String>,
)
    requires
        old(app).wf(),
        call_ensures(App::take_pending_switch, (app,), first),
        *old(again) == *final(app),
        call_ensures(App::take_pending_switch, (again,), second),
    ensures
        opt_view(first) == old(app)@.pending_switch,
        second is None,
{
    assert(opt_view(second) is None);
}

} // verus!
