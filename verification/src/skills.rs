//! Skills: instructions that can be looked up by name.

use vstd::prelude::*;
use vstd::string::*;
use crate::tool::{text_result, SideEffect, ToolError, ToolErrorView, ToolResult};

verus! {

/// A skill.
#[derive(Debug)]
pub struct Skill {
    pub name: String,
    pub instructions: String,
}

/// A skill's instructions between marks that show where they come from.
pub open spec fn wrapped(name: Seq<char>, instructions: Seq<char>) -> Seq<char> {
    "<skill_output name=\""@ + name + "\">\n"@ + instructions + "\n</skill_output>"@
}

/// The `skill.list` tool.
#[derive(Debug, Clone, Copy, Default)]
pub struct SkillList {}

impl SkillList {
    pub fn new() -> Self {
        SkillList {  }
    }

    pub fn name(&self) -> (r: &'static str)
        ensures
            r@ == "skill.list"@,
    {
        "skill.list"
    }

    pub fn side_effect(&self) -> (r: SideEffect)
        ensures
            r == SideEffect::Nothing,
    {
        SideEffect::Nothing
    }
}

/// The `skill.read` tool.
#[derive(Debug, Clone, Copy, Default)]
pub struct SkillRead {}

impl SkillRead {
    pub fn new() -> Self {
        SkillRead {  }
    }

    pub fn name(&self) -> (r: &'static str)
        ensures
            r@ == "skill.read"@,
    {
        "skill.read"
    }

    pub fn side_effect(&self) -> (r: SideEffect)
        ensures
            r == SideEffect::Nothing,
    {
        SideEffect::Nothing
    }

    /// Hands out the instructions of the skill that was looked up.
    pub fn execute(&self, name: &str, found: Result<Option<Skill>, String>) -> (r: Result<
        ToolResult,
        ToolError,
    >)
        ensures
            match found {
                Ok(Some(s)) => r is Ok && r->Ok_0@ == text_result(
                    wrapped(s.name@, s.instructions@),
                    false,
                ),
                Ok(None) => r is Err && r->Err_0@ == ToolErrorView::NotFound(
                    "skill not found: "@ + name@,
                ),
                Err(e) => r is Err && r->Err_0@ == ToolErrorView::Exec(e@),
            },
    {
        match found {
            Ok(Some(skill)) => {
                let mut s = "<skill_output name=\"".to_owned();
                s.append(skill.name.as_str());
                s.append("\">\n");
                s.append(skill.instructions.as_str());
                s.append("\n</skill_output>");
                Ok(ToolResult::ok_text(s))
            },
            Ok(None) => {
                let mut s = "skill not found: ".to_owned();
                s.append(name);
                Err(ToolError::NotFound(s))
            },
            Err(e) => Err(ToolError::Exec(e)),
        }
    }
}

/// A skill that was found is handed out whole, between marks that name it; one
/// that was not is told by the name that was asked for.
pub proof fn skill_is_handed_out_whole(
    tool: &SkillRead,
    name: &str,
    found: Result<Option<Skill>, String>,
    r: Result<ToolResult, ToolError>,
)
    requires
        call_ensures(SkillRead::execute, (tool, name, found), r),
    ensures
        r is Ok == (found matches Ok(Some(_))),
        found matches Ok(Some(s)) ==> {
            let head = "<skill_output name=\""@ + s.name@ + "\">\n"@;
            let end = "\n</skill_output>"@;
            let t = r->Ok_0.content@;
            &&& t.len() == head.len() + s.instructions@.len() + end.len()
            &&& t.take(head.len() as int) == head
            &&& t.subrange(head.len() as int, (head.len() + s.instructions@.len()) as int)
                == s.instructions@
            &&& t.skip(t.len() - end.len()) == end
            &&& !r->Ok_0.is_error
        },
        found matches Ok(None) ==> r->Err_0@ == ToolErrorView::NotFound(
            "skill not found: "@ + name@,
        ),
        found matches Err(e) ==> r->Err_0@ == ToolErrorView::Exec(e@),
{
    if let Ok(Some(s)) = found {
        let head = "<skill_output name=\""@ + s.name@ + "\">\n"@;
        let end = "\n</skill_output>"@;
        let t = r->Ok_0.content@;
        assert(t.take(head.len() as int) == head);
        assert(t.subrange(head.len() as int, (head.len() + s.instructions@.len()) as int)
            == s.instructions@);
        assert(t.skip(t.len() - end.len()) == end);
    }
}

} // verus!
