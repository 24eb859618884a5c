//! Writing and deleting files, and the record of what was changed.

use vstd::prelude::*;
use vstd::slice::*;
use vstd::string::*;
use vstd::utf8::*;
use crate::ids::{fresh_id, is_id, unix_now};
use crate::path::{assert_within_workdir, join_path, joined_path, reattached, under};
use crate::text::chars::{byte_len, lemma_byte_len_is_encoding, str_byte_len};
use crate::text::number::{decimal, show_usize};
use crate::tool::{text_result, SideEffect, ToolError, ToolErrorView, ToolResult};

verus! {

/// A change to a file, with what it takes to undo it.
#[derive(Debug)]
pub enum FileChange {
    Created { path: String, content: Vec<u8> },
    Written { path: String, before: Vec<u8>, after: Vec<u8> },
    Edited { path: String, before: Vec<u8>, after: Vec<u8> },
    Deleted { path: String, content: Vec<u8> },
}

/// A record of changes made by one call.
#[derive(Debug)]
pub struct ChangeEntry {
    pub op_id: String,
    /// When it was made, in nanoseconds of Unix time.
    pub ts: i128,
    /// What the user had asked for.
    pub prompt_snippet: String,
    pub files: Vec<FileChange>,
}

/// The record of one change, under a fresh id.
pub fn record_change(change: FileChange) -> (r: ChangeEntry)
    ensures
        is_id(r.op_id@),
        r.prompt_snippet@ == Seq::<char>::empty(),
        r.files@ == seq![change],
{
    let mut files: Vec<FileChange> = Vec::new();
    files.push(change);
    let r = ChangeEntry { op_id: fresh_id(), ts: unix_now(), prompt_snippet: String::new(), files };
    assert(r.files@ == seq![change]);
    r
}

/// How much of the path of a file to be written exists.
#[derive(Debug)]
pub enum AncestorProbe {
    /// `anchor` is the canonical path of the longest beginning that exists,
    /// `tail` the rest of the path, and `workdir` the canonical path of the
    /// working directory, or the working directory itself where it has none.
    Found { workdir: String, anchor: String, tail: String },
    /// No beginning of the path could be looked up; why.
    Failed(String),
}

/// What to do next about the path of a file to be written.
#[derive(Debug)]
pub enum WriteStep {
    /// Write here.
    Write(String),
    /// Make the directories above this path, which lies in the working
    /// directory, and look again.
    MakeParents(String),
    /// Give up.
    Fail(ToolError),
}

/// The `fs.write` tool.
#[derive(Debug, Clone, Copy, Default)]
pub struct FsWrite {}

impl FsWrite {
    pub fn new() -> Self {
        FsWrite {  }
    }

    pub fn name(&self) -> (r: &'static str)
        ensures
            r@ == "fs.write"@,
    {
        "fs.write"
    }

    pub fn side_effect(&self) -> (r: SideEffect)
        ensures
            r == SideEffect::FileWrite,
    {
        SideEffect::FileWrite
    }

    /// What follows from looking the path up: where its parent is missing the
    /// directories are made, the first time, unless the path leads out of the
    /// working directory.
    pub fn step(
        &self,
        workdir: &str,
        input: &str,
        resolved: Result<String, ToolError>,
        first: bool,
        ancestor: AncestorProbe,
    ) -> (r: WriteStep)
        ensures
            match resolved {
                Ok(p) => r matches WriteStep::Write(q) && q@ == p@,
                Err(e) => if first && e is NotFound {
                    match ancestor {
                        AncestorProbe::Found { workdir: w, anchor, tail } => if under(
                            reattached(anchor@, tail@),
                            w@,
                        ) {
                            r matches WriteStep::MakeParents(c) && c@ == joined_path(
                                workdir@,
                                input@,
                            )
                        } else {
                            r matches WriteStep::Fail(f) && f@ == ToolErrorView::PathEscaped(
                                "path escapes workdir: "@ + joined_path(workdir@, input@),
                            )
                        },
                        AncestorProbe::Failed(why) => r matches WriteStep::Fail(f) && f@
                            == ToolErrorView::Exec("path normalize failed: "@ + why@),
                    }
                } else {
                    r matches WriteStep::Fail(f) && f@ == e@
                },
            },
    {
        match resolved {
            Ok(p) => WriteStep::Write(p),
            Err(ToolError::NotFound(s)) => {
                if first {
                    let candidate = join_path(workdir, input);
                    match ancestor {
                        AncestorProbe::Found { workdir: w, anchor, tail } => {
                            match assert_within_workdir(
                                w.as_str(),
                                candidate.as_str(),
                                anchor.as_str(),
                                tail.as_str(),
                            ) {
                                Ok(_) => WriteStep::MakeParents(candidate),
                                Err(e) => WriteStep::Fail(e),
                            }
                        },
                        AncestorProbe::Failed(why) => {
                            let mut s = "path normalize failed: ".to_owned();
                            s.append(why.as_str());
                            WriteStep::Fail(ToolError::Exec(s))
                        },
                    }
                } else {
                    WriteStep::Fail(ToolError::NotFound(s))
                }
            },
            Err(e) => WriteStep::Fail(e),
        }
    }

    /// The change that writing `content` made: a new file where there was
    /// none, else new content in place of the old.
    pub fn change(&self, path: String, before: Option<Vec<u8>>, content: &str) -> (r: FileChange)
        ensures
            match before {
                None => r matches FileChange::Created { path: p, content: c } && p@ == path@ && c@
                    == content.spec_bytes(),
                Some(b) => r matches FileChange::Written { path: p, before: x, after: y } && p@
                    == path@ && x@ == b@ && y@ == content.spec_bytes(),
            },
    {
        let after = slice_to_vec(content.as_bytes());
        match before {
            None => FileChange::Created { path, content: after },
            Some(b) => FileChange::Written { path, before: b, after },
        }
    }

    /// What the caller is told.
    pub fn result(&self, input: &str, content: &str) -> (r: ToolResult)
        ensures
            r@ == text_result(
                "wrote "@ + decimal(byte_len(content@)) + " bytes to "@ + input@,
                false,
            ),
    {
        let mut s = "wrote ".to_owned();
        let n: usize = str_byte_len(content);
        let shown = show_usize(n);
        s.append(shown.as_str());
        s.append(" bytes to ");
        s.append(input);
        ToolResult::ok_text(s)
    }
}

/// The `fs.delete` tool.
#[derive(Debug, Clone, Copy, Default)]
pub struct FsDelete {}

/// What came of deleting a file.
#[derive(Debug)]
pub enum DeleteEvent {
    /// There is no such file.
    Missing,
    /// Reading or removing it failed.
    Failed(String),
    /// It is gone; what it held.
    Deleted(Vec<u8>),
}

impl FsDelete {
    pub fn new() -> Self {
        FsDelete {  }
    }

    pub fn name(&self) -> (r: &'static str)
        ensures
            r@ == "fs.delete"@,
    {
        "fs.delete"
    }

    pub fn side_effect(&self) -> (r: SideEffect)
        ensures
            r == SideEffect::FileWrite,
    {
        SideEffect::FileWrite
    }

    /// The result of the call, and the change to record.
    pub fn execute(&self, input: &str, path: String, event: DeleteEvent) -> (r: Result<
        (ToolResult, FileChange),
        ToolError,
    >)
        ensures
            match event {
                DeleteEvent::Missing => r is Err && r->Err_0@ == ToolErrorView::NotFound(input@),
                DeleteEvent::Failed(e) => r is Err && r->Err_0@ == ToolErrorView::Io(e@),
                DeleteEvent::Deleted(b) => {
                    &&& r is Ok
                    &&& r->Ok_0.0@ == text_result("deleted "@ + input@, false)
                    &&& r->Ok_0.1 matches FileChange::Deleted { path: p, content }
                    &&& p@ == path@
                    &&& content@ == b@
                },
            },
    {
        match event {
            DeleteEvent::Missing => Err(ToolError::NotFound(input.to_owned())),
            DeleteEvent::Failed(e) => Err(ToolError::Io(e)),
            DeleteEvent::Deleted(b) => {
                let mut s = "deleted ".to_owned();
                s.append(input);
                Ok((ToolResult::ok_text(s), FileChange::Deleted { path, content: b }))
            },
        }
    }
}

/// Where a file is to be written: where its path leads, if it was found; else,
/// the first time, after the directories above it were made, which happens
/// only for a path that lies in the working directory.
pub proof fn directories_are_made_inside_alone(
    tool: &FsWrite,
    workdir: &str,
    input: &str,
    resolved: Result<String, ToolError>,
    first: bool,
    home: String,
    anchor: String,
    tail: String,
    whole: String,
    within: Result<(), ToolError>,
    candidate: &str,
    home_text: &str,
    anchor_text: &str,
    tail_text: &str,
    r: WriteStep,
)
    requires
        call_ensures(
            FsWrite::step,
            (
                tool,
                workdir,
                input,
                resolved,
                first,
                (AncestorProbe::Found { workdir: home, anchor, tail }),
            ),
            r,
        ),
        call_ensures(join_path, (workdir, input), whole),
        candidate@ == whole@,
        home_text@ == home@ && anchor_text@ == anchor@ && tail_text@ == tail@,
        call_ensures(
            assert_within_workdir,
            (home_text, candidate, anchor_text, tail_text),
            within,
        ),
    ensures
        resolved is Ok ==> r is Write && r->Write_0@ == resolved->Ok_0@,
        r is Write ==> resolved is Ok,
        r is MakeParents == (resolved is Err && resolved->Err_0 is NotFound && first && within is Ok),
        r is MakeParents ==> r->MakeParents_0@ == whole@,
        resolved is Err && (!first || !(resolved->Err_0 is NotFound)) ==> r is Fail && r->Fail_0@
            == resolved->Err_0@,
        resolved is Err && resolved->Err_0 is NotFound && first && within is Err ==> r is Fail
            && r->Fail_0@ == within->Err_0@,
{
}

/// A written file is recorded with all that it takes to undo it: where there
/// was none, what it holds now, else what it held before and holds now.
pub proof fn written_file_can_be_undone(
    tool: &FsWrite,
    path: String,
    before: Option<Vec<u8>>,
    content: &str,
    r: FileChange,
)
    requires
        call_ensures(FsWrite::change, (tool, path, before, content), r),
    ensures
        before is None ==> r is Created && r->Created_content@ == encode_utf8(content@)
            && r->Created_path@ == path@,
        before is Some ==> r is Written && r->Written_before@ == before->0@ && r->Written_after@
            == encode_utf8(content@) && r->Written_path@ == path@,
{
}

/// A deleted file is recorded with what it held, and only where it was
/// deleted.
pub proof fn deleted_file_can_be_undone(
    tool: &FsDelete,
    input: &str,
    path: String,
    event: DeleteEvent,
    r: Result<(ToolResult, FileChange), ToolError>,
)
    requires
        call_ensures(FsDelete::execute, (tool, input, path, event), r),
    ensures
        r is Ok == event is Deleted,
        event is Deleted ==> {
            &&& r->Ok_0.1 is Deleted
            &&& r->Ok_0.1->Deleted_content@ == event->Deleted_0@
            &&& r->Ok_0.1->Deleted_path@ == path@
            &&& !r->Ok_0.0.is_error
        },
        event is Missing ==> r->Err_0@ == ToolErrorView::NotFound(input@),
{
}

/// What the caller of a write is told: how many bytes the content takes, and
/// the path as they gave it.
pub proof fn write_tells_its_bytes(tool: &FsWrite, input: &str, content: &str, r: ToolResult)
    requires
        call_ensures(FsWrite::result, (tool, input, content), r),
    ensures
        r.content@ == "wrote "@ + decimal(encode_utf8(content@).len()) + " bytes to "@ + input@,
        !r.is_error,
{
    lemma_byte_len_is_encoding(content@);
}

/// A record holds the one change it was made for, under an id of the usual
/// form.
pub proof fn record_holds_its_change(change: FileChange, r: ChangeEntry)
    requires
        call_ensures(record_change, (change,), r),
    ensures
        r.files@.len() == 1,
        r.files@[0] == change,
        is_id(r.op_id@),
{
}

} // verus!
