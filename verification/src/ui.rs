//! Asking the user.

use vstd::prelude::*;
use vstd::string::*;
use crate::ids::{fresh_id, is_id};
use crate::tool::{text_result, SideEffect, ToolError, ToolErrorView, ToolResult};
use crate::tui::event::{Decision, DecisionView, PermissionPrompt, PromptOption, PromptView, Risk};

verus! {

/// A question on its way to the user.
#[derive(Debug)]
pub struct Question {
    pub id: String,
    pub prompt: PermissionPrompt,
}

/// What a call to `ui.ask` leads to.
#[derive(Debug)]
pub enum AskStep {
    /// Nobody can be asked.
    NoOne(ToolResult),
    Ask(Question),
}

/// What is reported while a question is open.
#[derive(Debug)]
pub enum AskEvent {
    /// The question was put.
    Requested { id: String, tool: String, summary: String, risk: Risk },
    /// It was answered.
    Resolved { id: String, decision: Decision },
}

/// The answer as it is told.
pub open spec fn answer_text(d: DecisionView) -> Seq<char> {
    match d {
        DecisionView::Deny(reason) => if reason.len() == 0 {
            "no"@
        } else {
            "no ("@ + reason + ")"@
        },
        _ => "yes"@,
    }
}

/// The `ui.ask` tool.
#[derive(Debug, Clone, Copy, Default)]
pub struct UiAsk {}

impl UiAsk {
    pub fn new() -> Self {
        UiAsk {  }
    }

    pub fn name(&self) -> (r: &'static str)
        ensures
            r@ == "ui.ask"@,
    {
        "ui.ask"
    }

    pub fn side_effect(&self) -> (r: SideEffect)
        ensures
            r == SideEffect::Nothing,
    {
        SideEffect::Nothing
    }

    /// Puts the question as a prompt that can be allowed or denied once. A
    /// call without a question is refused; where nobody can be asked the
    /// caller is told to go on without.
    pub fn ask(&self, question: Option<String>, can_prompt: bool) -> (r: Result<AskStep, ToolError>)
        ensures
            question is None ==> r is Err && r->Err_0@ == ToolErrorView::InvalidInput(
                "question 缺失"@,
            ),
            question is Some && !can_prompt ==> {
                &&& r is Ok
                &&& r->Ok_0 matches AskStep::NoOne(t)
                &&& t@ == text_result(
                    "当前环境无交互通道（非交互运行），无法向用户提问；请自行做出合理假设并在回复中说明"@,
                    true,
                )
            },
            question is Some && can_prompt ==> {
                &&& r is Ok
                &&& r->Ok_0 matches AskStep::Ask(q)
                &&& q.id@.len() == 4 + crate::ids::ID_LEN
                &&& q.id@.take(4) == "ask-"@
                &&& is_id(q.id@.skip(4))
                &&& q.prompt@ == (PromptView {
                    tool: "ui.ask"@,
                    summary: question->0@,
                    risk: Risk::Low,
                    options: seq![PromptOption::AllowOnce, PromptOption::DenyOnce],
                })
            },
    {
        let summary = match question {
            Some(q) => q,
            None => {
                return Err(ToolError::InvalidInput("question 缺失".to_owned()));
            },
        };
        if !can_prompt {
            return Ok(
                AskStep::NoOne(
                    ToolResult::err_text(
                        "当前环境无交互通道（非交互运行），无法向用户提问；请自行做出合理假设并在回复中说明".to_owned(),
                    ),
                ),
            );
        }
        proof {
            reveal_strlit("ask-");
        }
        let mut id = "ask-".to_owned();
        let fresh = fresh_id();
        id.append(fresh.as_str());
        assert(id@.take(4) == "ask-"@);
        assert(id@.skip(4) == fresh@);
        let mut options: Vec<PromptOption> = Vec::new();
        options.push(PromptOption::AllowOnce);
        options.push(PromptOption::DenyOnce);
        assert(options@ == seq![PromptOption::AllowOnce, PromptOption::DenyOnce]);
        let prompt = PermissionPrompt {
            tool: "ui.ask".to_owned(),
            summary,
            risk: Risk::Low,
            options,
        };
        Ok(AskStep::Ask(Question { id, prompt }))
    }

    /// What is reported before the user is asked.
    pub fn requested(&self, question: &Question) -> (r: AskEvent)
        ensures
            r matches AskEvent::Requested { id, tool, summary, risk } && id@ == question.id@
                && tool@ == question.prompt@.tool && summary@ == question.prompt@.summary && risk
                == question.prompt@.risk,
    {
        AskEvent::Requested {
            id: question.id.clone(),
            tool: question.prompt.tool.clone(),
            summary: question.prompt.summary.clone(),
            risk: question.prompt.risk,
        }
    }

    /// What is reported once the user has answered.
    pub fn resolved(&self, id: String, decision: &Decision) -> (r: AskEvent)
        ensures
            r matches AskEvent::Resolved { id: i, decision: d } && i@ == id@ && d@ == decision@,
    {
        let copy = match decision {
            Decision::Allow => Decision::Allow,
            Decision::AllowAlways => Decision::AllowAlways,
            Decision::Deny(reason) => Decision::Deny(reason.clone()),
        };
        AskEvent::Resolved { id, decision: copy }
    }

    /// Tells the caller what the user answered.
    pub fn answer(&self, decision: Decision) -> (r: ToolResult)
        ensures
            r@ == text_result("用户回答: "@ + answer_text(decision@), false),
    {
        let mut s = "用户回答: ".to_owned();
        match decision {
            Decision::Deny(reason) => {
                let n: usize = reason.as_str().unicode_len();
                if n == 0 {
                    s.append("no");
                    assert(s@ == "用户回答: "@ + answer_text(decision@));
                } else {
                    s.append("no (");
                    s.append(reason.as_str());
                    s.append(")");
                    assert(s@ == "用户回答: "@ + answer_text(decision@));
                }
            },
            _ => {
                s.append("yes");
            },
        }
        ToolResult::ok_text(s)
    }
}

/// A question is put as it was asked, to be answered with yes or no, and only
/// where somebody can be asked.
pub proof fn question_is_put_as_it_was_asked(
    tool: &UiAsk,
    question: Option<String>,
    can_prompt: bool,
    r: Result<AskStep, ToolError>,
)
    requires
        call_ensures(UiAsk::ask, (tool, question, can_prompt), r),
    ensures
        r is Err == question is None,
        question is Some ==> r->Ok_0 is Ask == can_prompt,
        question is Some && can_prompt ==> {
            let q = r->Ok_0->Ask_0;
            &&& q.prompt.summary@ == question->0@
            &&& q.prompt.tool@ == "ui.ask"@
            &&& q.prompt.options@.contains(PromptOption::AllowOnce)
            &&& q.prompt.options@.contains(PromptOption::DenyOnce)
            &&& !q.prompt.options@.contains(PromptOption::AllowAlways)
        },
        question is Some && !can_prompt ==> r->Ok_0->NoOne_0.is_error,
{
    if question is Some && can_prompt {
        let o = r->Ok_0->Ask_0.prompt.options@;
        assert(r->Ok_0->Ask_0.prompt@.options == o);
        assert(o[0] == PromptOption::AllowOnce && o[1] == PromptOption::DenyOnce);
    }
}

/// The answer is yes where the user allowed and no where they denied, with
/// their reason where they gave one.
pub proof fn answer_is_told(tool: &UiAsk, decision: Decision, r: ToolResult)
    requires
        call_ensures(UiAsk::answer, (tool, decision), r),
    ensures
        decision is Allow || decision is AllowAlways ==> r.content@ == "用户回答: "@ + "yes"@,
        decision matches Decision::Deny(reason) ==> {
            &&& reason@.len() == 0 ==> r.content@ == "用户回答: "@ + "no"@
            &&& reason@.len() > 0 ==> {
                let end = "("@ + reason@ + ")"@;
                r.content@.len() > end.len() && r.content@.skip(r.content@.len() - end.len()) == end
                    && r.content@.take("用户回答: no"@.len() as int) == "用户回答: no"@
            }
        },
        !r.is_error,
{
    if let Decision::Deny(reason) = decision {
        if reason@.len() > 0 {
            reveal_strlit("no (");
            reveal_strlit("(");
            reveal_strlit("用户回答: ");
            reveal_strlit("用户回答: no");
            let end = "("@ + reason@ + ")"@;
            let t = r.content@;
            assert(t == "用户回答: "@ + ("no ("@ + reason@ + ")"@));
            assert(t.skip(t.len() - end.len()) == end);
            assert(t.take("用户回答: no"@.len() as int) == "用户回答: no"@);
        }
    }
}

} // verus!
