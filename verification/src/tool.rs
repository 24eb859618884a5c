//! What every tool shares: errors, results, side effects and how a result is
//! meant to be shown.

use vstd::prelude::*;
use vstd::string::*;
use vstd::utf8::*;
use crate::text::chars::{byte_len, lemma_byte_len_is_encoding, str_byte_len};

verus! {

/// Why a tool call failed.
#[derive(Debug)]
pub enum ToolError {
    NotFound(String),
    PathEscaped(String),
    InvalidInput(String),
    Exec(String),
    Io(String),
    /// It took longer than this many nanoseconds.
    Timeout(u128),
    InvalidStateTransition(String),
}

/// A tool error with its text as a sequence.
#[verifier::ext_equal]
pub enum ToolErrorView {
    NotFound(Seq<char>),
    PathEscaped(Seq<char>),
    InvalidInput(Seq<char>),
    Exec(Seq<char>),
    Io(Seq<char>),
    Timeout(u128),
    InvalidStateTransition(Seq<char>),
}

impl View for ToolError {
    type V = ToolErrorView;

    open spec fn view(&self) -> ToolErrorView {
        match self {
            ToolError::NotFound(s) => ToolErrorView::NotFound(s@),
            ToolError::PathEscaped(s) => ToolErrorView::PathEscaped(s@),
            ToolError::InvalidInput(s) => ToolErrorView::InvalidInput(s@),
            ToolError::Exec(s) => ToolErrorView::Exec(s@),
            ToolError::Io(s) => ToolErrorView::Io(s@),
            ToolError::Timeout(nanos) => ToolErrorView::Timeout(*nanos),
            ToolError::InvalidStateTransition(s) => ToolErrorView::InvalidStateTransition(s@),
        }
    }
}

/// What a tool does to the world outside the conversation.
#[derive(Debug, Clone, Copy, PartialEq, Eq, Structural)]
pub enum SideEffect {
    Nothing,
    FileWrite,
    Command,
    Network,
}

impl SideEffect {
    /// Nothing changes outside the conversation, so that the tool may be
    /// called in plan mode.
    pub fn is_read_only(&self) -> (r: bool)
        ensures
            r == (*self == SideEffect::Nothing),
    {
        match self {
            SideEffect::Nothing => true,
            _ => false,
        }
    }
}

/// A textual tool result.
#[derive(Debug)]
pub struct ToolResult {
    pub content: String,
    pub is_error: bool,
    /// The content was cut.
    pub truncated: bool,
    /// Bytes of the content.
    pub bytes: usize,
}

/// A tool result with its content as a sequence.
#[verifier::ext_equal]
pub struct ToolResultView {
    pub content: Seq<char>,
    pub is_error: bool,
    pub truncated: bool,
    pub bytes: nat,
}

impl View for ToolResult {
    type V = ToolResultView;

    open spec fn view(&self) -> ToolResultView {
        ToolResultView {
            content: self.content@,
            is_error: self.is_error,
            truncated: self.truncated,
            bytes: self.bytes as nat,
        }
    }
}

/// A result that holds `content` whole.
pub open spec fn text_result(content: Seq<char>, is_error: bool) -> ToolResultView {
    ToolResultView { content, is_error, truncated: false, bytes: byte_len(content) }
}

impl ToolResult {
    /// A successful result.
    pub fn ok_text(content: String) -> (r: Self)
        ensures
            r@ == text_result(content@, false),
    {
        let bytes: usize = str_byte_len(content.as_str());
        ToolResult { content, is_error: false, truncated: false, bytes }
    }

    /// A result that tells the model what went wrong.
    pub fn err_text(content: String) -> (r: Self)
        ensures
            r@ == text_result(content@, true),
    {
        let bytes: usize = str_byte_len(content.as_str());
        ToolResult { content, is_error: true, truncated: false, bytes }
    }
}

/// What a tool call comes to, as a value.
pub open spec fn result_view(r: Result<ToolResult, ToolError>) -> Result<
    ToolResultView,
    ToolErrorView,
> {
    match r {
        Ok(v) => Ok(v@),
        Err(e) => Err(e@),
    }
}

/// What the lines of a list are.
#[derive(Debug, Clone, Copy, PartialEq, Eq, Structural)]
pub enum ListKind {
    Files,
    Generic,
}

/// How a result is meant to be shown.
#[derive(Debug)]
pub enum RenderIntent {
    /// As plain text.
    Text,
    /// As structured data.
    Json,
    /// As source text in a language.
    Code { language: Option<String>, content: String },
    /// As a table.
    Table { headers: Vec<String>, rows: Vec<Vec<String>> },
    /// As a list of lines.
    List { items: Vec<String>, kind: ListKind },
}

/// A result tells how many bytes its content takes, and whether it is an
/// error.
pub proof fn result_counts_its_bytes(content: String, ok: ToolResult, err: ToolResult)
    requires
        call_ensures(ToolResult::ok_text, (content,), ok),
        call_ensures(ToolResult::err_text, (content,), err),
    ensures
        ok.content@ == content@ && err.content@ == content@,
        ok.bytes == encode_utf8(content@).len() && err.bytes == ok.bytes,
        !ok.is_error && err.is_error,
        !ok.truncated && !err.truncated,
{
    lemma_byte_len_is_encoding(content@);
}

} // verus!
