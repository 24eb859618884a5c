//! What reaches the interface, and what it asks for in return.

use vstd::prelude::*;
use vstd::string::*;
use crate::task::model::Task;
use crate::text::split::opt_view;

verus! {

/// One line of the conversation.
#[derive(Debug)]
pub enum ChatLine {
    User(String),
    /// Shown as Markdown.
    Assistant(String),
    /// A tool call, under way or done.
    Tool { tool: String, done: bool },
    System(String),
}

/// A line with its text as a sequence.
#[verifier::ext_equal]
pub enum ChatLineView {
    User(Seq<char>),
    Assistant(Seq<char>),
    Tool { tool: Seq<char>, done: bool },
    System(Seq<char>),
}

impl View for ChatLine {
    type V = ChatLineView;

    open spec fn view(&self) -> ChatLineView {
        match self {
            ChatLine::User(t) => ChatLineView::User(t@),
            ChatLine::Assistant(t) => ChatLineView::Assistant(t@),
            ChatLine::Tool { tool, done } => ChatLineView::Tool { tool: tool@, done: *done },
            ChatLine::System(t) => ChatLineView::System(t@),
        }
    }
}

/// The lines of a conversation.
pub open spec fn chat_views(v: Seq<ChatLine>) -> Seq<ChatLineView> {
    Seq::new(v.len(), |i: int| v[i]@)
}

/// Who a message is from.
#[derive(Debug, Clone, Copy, PartialEq, Eq, Structural)]
pub enum Role {
    User,
    Assistant,
    Tool,
    System,
}

/// What the running conversation reports.
#[derive(Debug)]
pub enum RuntimeEvent {
    TurnStreamingStarted,
    /// A further piece of the answer.
    Token(String),
    /// A further piece of the reasoning behind it.
    ReasoningDelta(String),
    MessageAppended { role: Role, text: String },
    ToolCallStarted { tool: String },
    ToolCallFinished { tool: String },
    TurnEnd,
    TaskUpdated { task: Task },
    /// Anything the interface does not show.
    Other,
}

/// How a turn ended.
#[derive(Debug)]
pub enum TurnOutcome {
    Finished,
    Interrupted,
    Failed(String),
}

/// What a user may answer to a permission prompt.
#[derive(Debug, Clone, Copy, PartialEq, Eq, Structural)]
pub enum PromptOption {
    AllowOnce,
    AllowAlways,
    DenyOnce,
    DenyAlways,
}

/// How dangerous a tool call is.
#[derive(Debug, Clone, Copy, PartialEq, Eq, Structural)]
pub enum Risk {
    Low,
    Medium,
    High,
}

/// A tool call that needs the user's permission.
#[derive(Debug)]
pub struct PermissionPrompt {
    pub tool: String,
    pub summary: String,
    pub risk: Risk,
    pub options: Vec<PromptOption>,
}

/// A prompt with its texts as sequences.
#[verifier::ext_equal]
pub struct PromptView {
    pub tool: Seq<char>,
    pub summary: Seq<char>,
    pub risk: Risk,
    pub options: Seq<PromptOption>,
}

impl View for PermissionPrompt {
    type V = PromptView;

    open spec fn view(&self) -> PromptView {
        PromptView {
            tool: self.tool@,
            summary: self.summary@,
            risk: self.risk,
            options: self.options@,
        }
    }
}

/// The user's answer.
#[derive(Debug)]
pub enum Decision {
    Allow,
    AllowAlways,
    Deny(String),
}

/// An answer with its text as a sequence.
#[verifier::ext_equal]
pub enum DecisionView {
    Allow,
    AllowAlways,
    Deny(Seq<char>),
}

impl View for Decision {
    type V = DecisionView;

    open spec fn view(&self) -> DecisionView {
        match self {
            Decision::Allow => DecisionView::Allow,
            Decision::AllowAlways => DecisionView::AllowAlways,
            Decision::Deny(r) => DecisionView::Deny(r@),
        }
    }
}

/// A key.
#[derive(Debug, Clone, Copy, PartialEq, Eq, Structural)]
pub enum KeyCode {
    Enter,
    Esc,
    Backspace,
    Delete,
    Left,
    Right,
    Up,
    Down,
    Home,
    End,
    PageUp,
    PageDown,
    F(u8),
    Char(char),
    Other,
}

/// A key that was pressed, repeated or let go.
#[derive(Debug, Clone, Copy, PartialEq, Eq, Structural)]
pub struct KeyEvent {
    pub code: KeyCode,
    /// The control key is held.
    pub control: bool,
    /// Another modifier key is held.
    pub other_modifier: bool,
    /// The key was pressed.
    pub press: bool,
}

/// What the terminal reports.
#[derive(Debug, Clone, Copy)]
pub enum TermEvent {
    Key(KeyEvent),
    Other,
}

/// What reaches the interface.
#[derive(Debug)]
pub enum AppEvent {
    Term(TermEvent),
    Runtime(RuntimeEvent),
    /// A turn ended, or could not be run.
    TurnResult(Result<TurnOutcome, String>),
    PermissionRequest(PermissionPrompt),
    /// The conversation has to be changed for another one.
    SwitchSession(String),
    /// The summary that was asked for; none where there is nothing to sum up.
    Summary(Option<String>),
    /// What a command has to say.
    CommandOutput(String),
}

/// What the interface asks the conversation for.
#[derive(Debug)]
pub enum UiCommand {
    Submit(String),
    SwitchSession(String),
    Summary,
    Tokens,
    Status,
    /// Shows the model, or changes it.
    Model(Option<String>),
    PlanToggle,
    Undo { steps: usize },
    Exit,
}

/// What is to be done besides drawing.
#[derive(Debug)]
pub enum AppAction {
    Nothing,
    Send(UiCommand),
    /// Interrupt the turn.
    Cancel,
    /// Answer the permission prompt.
    Reply(Decision),
}

/// An action with its texts as sequences.
#[verifier::ext_equal]
pub enum ActionView {
    Nothing,
    Submit(Seq<char>),
    SwitchSession(Seq<char>),
    Summary,
    Tokens,
    Status,
    Model(Option<Seq<char>>),
    PlanToggle,
    Undo(usize),
    Exit,
    Cancel,
    Reply(DecisionView),
}

impl View for AppAction {
    type V = ActionView;

    open spec fn view(&self) -> ActionView {
        match self {
            AppAction::Nothing => ActionView::Nothing,
            AppAction::Send(UiCommand::Submit(t)) => ActionView::Submit(t@),
            AppAction::Send(UiCommand::SwitchSession(t)) => ActionView::SwitchSession(t@),
            AppAction::Send(UiCommand::Summary) => ActionView::Summary,
            AppAction::Send(UiCommand::Tokens) => ActionView::Tokens,
            AppAction::Send(UiCommand::Status) => ActionView::Status,
            AppAction::Send(UiCommand::Model(name)) => ActionView::Model(opt_view(*name)),
            AppAction::Send(UiCommand::PlanToggle) => ActionView::PlanToggle,
            AppAction::Send(UiCommand::Undo { steps }) => ActionView::Undo(*steps),
            AppAction::Send(UiCommand::Exit) => ActionView::Exit,
            AppAction::Cancel => ActionView::Cancel,
            AppAction::Reply(d) => ActionView::Reply(d@),
        }
    }
}

} // verus!
