//! Showing differences.

use vstd::prelude::*;
use vstd::string::*;
use crate::git::apply::{describe_failure, git_failure, labelled, GitEvent};
use crate::text::bytes::{decode_lossy, lossy_text};
use crate::text::number::signed_decimal;
use crate::text::split::{opt_view, views};
use crate::tool::{
    result_view, text_result, RenderIntent, SideEffect, ToolError, ToolErrorView, ToolResult,
    ToolResultView,
};

verus! {

/// The arguments of git: against what to compare, and which path.
pub open spec fn diff_args(git_ref: Option<Seq<char>>, path: Option<Seq<char>>) -> Seq<Seq<char>> {
    let head = seq![
        "diff"@,
        match git_ref {
            Some(r) => r,
            None => "HEAD"@,
        },
    ];
    match path {
        Some(p) => head + seq!["--"@, p],
        None => head,
    }
}

/// The result that each event leads to.
pub open spec fn diff_outcome(event: GitEvent) -> Result<ToolResultView, ToolErrorView> {
    match event {
        GitEvent::SpawnFailed(e) => Err(ToolErrorView::Exec("git diff 执行失败: "@ + e@)),
        GitEvent::StdinFailed(e) => Err(ToolErrorView::Exec("git diff 执行失败: "@ + e@)),
        GitEvent::WaitFailed(e) => Err(ToolErrorView::Exec("git diff 执行失败: "@ + e@)),
        GitEvent::TimedOut(t) => Ok(
            text_result("git diff 执行超时（超过 "@ + t@ + "），子进程已终止"@, true),
        ),
        GitEvent::Exited { success, code, stdout, stderr } => if success {
            Ok(text_result(lossy_text(stdout@), false))
        } else {
            Err(ToolErrorView::Exec(git_failure("git diff"@, code, lossy_text(stderr@))))
        },
    }
}

/// The `git.diff` tool.
#[derive(Debug, Clone, Copy, Default)]
pub struct GitDiff {}

impl GitDiff {
    pub fn new() -> Self {
        GitDiff {  }
    }

    pub fn name(&self) -> (r: &'static str)
        ensures
            r@ == "git.diff"@,
    {
        "git.diff"
    }

    pub fn side_effect(&self) -> (r: SideEffect)
        ensures
            r == SideEffect::Nothing,
    {
        SideEffect::Nothing
    }

    /// The arguments of git. A path is one that was found to lie in the
    /// working directory.
    pub fn arguments(&self, git_ref: Option<String>, path: Option<String>) -> (r: Vec<String>)
        ensures
            views(r@) == diff_args(
                opt_view(git_ref),
                opt_view(path),
            ),
    {
        let ghost want = diff_args(
            opt_view(git_ref),
            opt_view(path),
        );
        let mut v: Vec<String> = Vec::new();
        v.push("diff".to_owned());
        match git_ref {
            Some(r) => {
                v.push(r);
            },
            None => {
                v.push("HEAD".to_owned());
            },
        }
        if let Some(p) = path {
            v.push("--".to_owned());
            v.push(p);
        }
        assert(views(v@) == want);
        v
    }

    /// Turns what came of running git into the result of the call.
    pub fn finish(&self, event: GitEvent) -> (r: Result<ToolResult, ToolError>)
        ensures
            result_view(r) == diff_outcome(event),
    {
        match event {
            GitEvent::SpawnFailed(e) => Err(
                ToolError::Exec(labelled("git diff 执行失败: ", e.as_str())),
            ),
            GitEvent::StdinFailed(e) => Err(
                ToolError::Exec(labelled("git diff 执行失败: ", e.as_str())),
            ),
            GitEvent::WaitFailed(e) => Err(
                ToolError::Exec(labelled("git diff 执行失败: ", e.as_str())),
            ),
            GitEvent::TimedOut(t) => {
                let mut s = labelled("git diff 执行超时（超过 ", t.as_str());
                s.append("），子进程已终止");
                Ok(ToolResult::err_text(s))
            },
            GitEvent::Exited { success, code, stdout, stderr } => {
                if success {
                    Ok(ToolResult::ok_text(decode_lossy(stdout.as_slice())))
                } else {
                    Err(ToolError::Exec(describe_failure("git diff", code, stderr.as_slice())))
                }
            },
        }
    }

    /// The differences are shown as such.
    pub fn render_output(&self, result: &ToolResult) -> (r: RenderIntent)
        ensures
            r matches RenderIntent::Code { language, content } && language is Some
                && language->0@ == "diff"@ && content@ == result.content@,
    {
        RenderIntent::Code { language: Some("diff".to_owned()), content: result.content.clone() }
    }
}

/// A comparison is against what was named, else against `HEAD`; a path, where
/// there is one, comes last, behind `--`, and nothing else is handed to git.
pub proof fn comparison_is_against_what_was_named(
    tool: &GitDiff,
    git_ref: Option<String>,
    path: Option<String>,
    r: Vec<String>,
)
    requires
        call_ensures(GitDiff::arguments, (tool, git_ref, path), r),
    ensures
        r@.len() == if path is Some {
            4int
        } else {
            2int
        },
        r@[0]@ == "diff"@,
        git_ref is Some ==> r@[1]@ == git_ref->0@,
        git_ref is None ==> r@[1]@ == "HEAD"@,
        path is Some ==> r@[2]@ == "--"@ && r@[3]@ == path->0@,
{
    let v = views(r@);
    assert(v.len() == r@.len());
    assert(v[0] == r@[0]@ && v[1] == r@[1]@);
    if path is Some {
        assert(v[2] == r@[2]@ && v[3] == r@[3]@);
    }
}

/// What git printed is shown whole where it succeeded; a failure tells git's
/// exit code and what it said.
pub proof fn differences_are_shown_whole(
    tool: &GitDiff,
    event: GitEvent,
    r: Result<ToolResult, ToolError>,
)
    requires
        call_ensures(GitDiff::finish, (tool, event), r),
    ensures
        event matches GitEvent::Exited { success, code, stdout, stderr } ==> {
            &&& r is Ok == success
            &&& success ==> r->Ok_0.content@ == lossy_text(stdout@) && !r->Ok_0.is_error
                && !r->Ok_0.truncated
            &&& !success && code is Some ==> r->Err_0@ == ToolErrorView::Exec(
                "git diff"@ + " 失败 (exit "@ + signed_decimal(code->0 as int) + "): "@
                    + lossy_text(stderr@),
            )
            &&& !success && code is None ==> r->Err_0@ == ToolErrorView::Exec(
                "git diff"@ + " 失败 (exit "@ + signed_decimal(-1) + "): "@ + lossy_text(stderr@),
            )
        },
        event is TimedOut ==> r is Ok && r->Ok_0.is_error,
        event is SpawnFailed || event is StdinFailed || event is WaitFailed ==> r is Err,
{
}

} // verus!
