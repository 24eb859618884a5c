//! Applying a patch, once every path it names is known to lie in the working
//! directory.

use vstd::prelude::*;
use vstd::string::*;
use crate::path::{
    components, joined_path, lemma_naming_from, plain_path_stays_below, under, up,
};
use crate::shell::redact::{lemma_space_at, to_space};
use crate::text::bytes::{decode_lossy, lossy_text};
use crate::text::chars::{char_is_space, chars_equal, from_chars, is_space, sub_chars, to_chars};
use crate::text::number::{show_i64, signed_decimal};
use crate::text::search::{
    begins, index_from, index_of, lemma_index_from, starts_with, trim, trimmed,
};
use crate::text::split::{char_views, lines, pieces, split_at_char, split_lines};
use crate::tool::{
    result_view, text_result, SideEffect, ToolError, ToolErrorView, ToolResult, ToolResultView,
};

verus! {

/// The path without the prefix of one side.
pub open spec fn without_side(raw: Seq<char>) -> Seq<char> {
    if starts_with(raw, "a/"@) || starts_with(raw, "b/"@) {
        raw.skip(2)
    } else {
        raw
    }
}

/// A path that one side of a patch may name: a relative path without steps
/// up, without backslashes and not in quotation marks, or `/dev/null`.
pub open spec fn valid_target(raw: Seq<char>) -> bool {
    let rel = without_side(raw);
    &&& !(raw.len() > 0 && raw[0] == '"')
    &&& raw == "/dev/null"@ || {
        &&& rel.len() > 0
        &&& rel[0] != '/'
        &&& !pieces(rel, '/').contains(up())
        &&& !rel.contains('\\')
    }
}

/// Whether one side of a patch may name this path.
pub fn patch_side_target_valid(raw: &str) -> (r: bool)
    ensures
        r == valid_target(raw@),
{
    let chars = to_chars(raw);
    target_valid(chars.as_slice())
}

/// Whether the text holds the character.
fn holds_char(s: &[char], c: char) -> (r: bool)
    ensures
        r == s@.contains(c),
{
    proof {
        lemma_index_from(s@, c, 0);
    }
    match index_of(s, c, 0) {
        Some(i) => true,
        None => false,
    }
}

fn target_valid(raw: &[char]) -> (r: bool)
    ensures
        r == valid_target(raw@),
{
    proof {
        reveal_strlit("a/");
        reveal_strlit("b/");
    }
    if raw.len() > 0 && raw[0] == '"' {
        return false;
    }
    if chars_equal(raw, to_chars("/dev/null").as_slice()) {
        return true;
    }
    let side = begins(raw, to_chars("a/").as_slice()) || begins(raw, to_chars("b/").as_slice());
    let rel = if side {
        sub_chars(raw, 2, raw.len())
    } else {
        sub_chars(raw, 0, raw.len())
    };
    assert(rel@ == without_side(raw@));
    if rel.len() == 0 || rel[0] == '/' || holds_char(rel.as_slice(), '\\') {
        return false;
    }
    let parts = split_at_char(rel.as_slice(), '/');
    let ghost all = pieces(rel@, '/');
    let mut i: usize = 0;
    while i < parts.len()
        invariant
            i <= parts@.len(),
            all == char_views(parts@),
            all == pieces(rel@, '/'),
            rel@ == without_side(raw@),
            raw@ != "/dev/null"@,
            forall|j: int| 0 <= j < i ==> all[j] != up(),
        decreases parts@.len() - i,
    {
        let p = &parts[i];
        assert(p@ == all[i as int]);
        if p.len() == 2 && p[0] == '.' && p[1] == '.' {
            assert(p@ =~= up());
            assert(all[i as int] == up());
            assert(all.contains(up()));
            return false;
        }
        i = i + 1;
    }
    true
}

/// The first word from index `i` on, and where it ends.
pub open spec fn word_from(s: Seq<char>, i: int) -> Option<(Seq<char>, int)> {
    let start = past_space(s, i);
    if start >= s.len() {
        None
    } else {
        Some((s.subrange(start, to_space(s, start)), to_space(s, start)))
    }
}

/// The first index at or after `i` past white space.
pub open spec fn past_space(s: Seq<char>, i: int) -> int
    decreases s.len() - i,
{
    if 0 <= i < s.len() && is_space(s[i]) {
        past_space(s, i + 1)
    } else {
        i
    }
}

/// What follows a header that names the path of one side: the path up to the
/// first tab.
pub open spec fn side_path(rest: Seq<char>) -> Seq<char> {
    let t = trim(rest);
    match index_from(t, '\t', 0) {
        Some(i) => t.take(i),
        None => t,
    }
}

/// The two words of a `diff --git` header are paths that may be named.
pub open spec fn both_valid(rest: Seq<char>) -> bool {
    match word_from(rest, 0) {
        None => false,
        Some((a, end)) => match word_from(rest, end) {
            None => false,
            Some((b, _)) => valid_target(a) && valid_target(b),
        },
    }
}

/// What a line of a patch names that it must not name.
pub open spec fn bad_target(line: Seq<char>) -> Option<Seq<char>> {
    if starts_with(line, "--- "@) || starts_with(line, "+++ "@) {
        let p = side_path(line.skip(4));
        if valid_target(p) {
            None
        } else {
            Some(p)
        }
    } else if starts_with(line, "diff --git "@) {
        let rest = line.skip(11);
        if both_valid(rest) {
            None
        } else {
            Some(rest)
        }
    } else {
        None
    }
}

/// The first target among the lines from `i` on that must not be named.
pub open spec fn first_bad(ls: Seq<Seq<char>>, i: int) -> Option<Seq<char>>
    decreases ls.len() - i,
{
    if i < 0 || i >= ls.len() {
        None
    } else {
        match bad_target(ls[i]) {
            Some(p) => Some(p),
            None => first_bad(ls, i + 1),
        }
    }
}

fn scan_space(s: &[char], from: usize, wanted: bool) -> (r: usize)
    requires
        from <= s@.len(),
    ensures
        from <= r <= s@.len(),
        r == (if wanted {
            past_space(s@, from as int)
        } else {
            to_space(s@, from as int)
        }),
{
    let mut i: usize = from;
    while i < s.len() && char_is_space(s[i]) == wanted
        invariant
            from <= i <= s@.len(),
            wanted ==> past_space(s@, from as int) == past_space(s@, i as int),
            !wanted ==> to_space(s@, from as int) == to_space(s@, i as int),
        decreases s@.len() - i,
    {
        i = i + 1;
    }
    i
}

/// The first word from index `from` on, and where it ends.
fn next_word(s: &[char], from: usize) -> (r: Option<(Vec<char>, usize)>)
    requires
        from <= s@.len(),
    ensures
        match r {
            Some((w, end)) => word_from(s@, from as int) == Some((w@, end as int)) && end
                <= s@.len(),
            None => word_from(s@, from as int) is None,
        },
{
    let start: usize = scan_space(s, from, true);
    if start >= s.len() {
        return None;
    }
    let end: usize = scan_space(s, start, false);
    Some((sub_chars(s, start, end), end))
}

/// Whether both words of a header are paths that may be named.
fn header_valid(rest: &[char]) -> (r: bool)
    ensures
        r == both_valid(rest@),
{
    match next_word(rest, 0) {
        None => false,
        Some((a, end)) => match next_word(rest, end) {
            None => false,
            Some((b, _)) => target_valid(a.as_slice()) && target_valid(b.as_slice()),
        },
    }
}

/// What a line names that it must not name.
fn line_problem(line: &[char]) -> (r: Option<Vec<char>>)
    ensures
        match r {
            Some(p) => bad_target(line@) == Some(p@),
            None => bad_target(line@) is None,
        },
{
    proof {
        reveal_strlit("--- ");
        reveal_strlit("+++ ");
        reveal_strlit("diff --git ");
    }
    if begins(line, to_chars("--- ").as_slice()) || begins(line, to_chars("+++ ").as_slice()) {
        let rest = sub_chars(line, 4, line.len());
        assert(rest@ == line@.skip(4));
        let t = trimmed(rest.as_slice());
        proof {
            lemma_index_from(t@, '\t', 0);
        }
        let p = match index_of(t.as_slice(), '\t', 0) {
            Some(i) => sub_chars(t.as_slice(), 0, i),
            None => t,
        };
        assert(p@ == side_path(line@.skip(4)));
        if target_valid(p.as_slice()) {
            None
        } else {
            Some(p)
        }
    } else if begins(line, to_chars("diff --git ").as_slice()) {
        let rest = sub_chars(line, 11, line.len());
        assert(rest@ == line@.skip(11));
        if header_valid(rest.as_slice()) {
            None
        } else {
            Some(rest)
        }
    } else {
        None
    }
}

/// The refusal of a patch.
pub open spec fn patch_refusal(target: Seq<char>) -> ToolErrorView {
    ToolErrorView::InvalidInput(
        "patch 目标路径越界（拒绝应用）: `"@ + target
            + "`——patch 仅允许修改工作目录内的相对路径"@,
    )
}

/// Refuses a patch that names a path it must not name.
pub fn validate_patch_paths(patch: &str) -> (r: Result<(), ToolError>)
    ensures
        match first_bad(lines(patch@), 0) {
            Some(p) => r is Err && r->Err_0@ == patch_refusal(p),
            None => r is Ok,
        },
{
    let chars = to_chars(patch);
    let ls = split_lines(chars.as_slice());
    let ghost all = lines(patch@);
    let mut i: usize = 0;
    while i < ls.len()
        invariant
            i <= ls@.len(),
            all == char_views(ls@),
            all == lines(patch@),
            first_bad(all, 0) == first_bad(all, i as int),
        decreases ls@.len() - i,
    {
        assert(all[i as int] == ls@[i as int]@);
        if let Some(p) = line_problem(ls[i].as_slice()) {
            let mut s = "patch 目标路径越界（拒绝应用）: `".to_owned();
            let target = from_chars(p.as_slice());
            s.append(target.as_str());
            s.append("`——patch 仅允许修改工作目录内的相对路径");
            return Err(ToolError::InvalidInput(s));
        }
        i = i + 1;
    }
    Ok(())
}

/// In a patch that is accepted, every header names only paths that may be
/// named.
pub proof fn accepted_patch_names_valid_paths(ls: Seq<Seq<char>>, from: int)
    requires
        0 <= from,
        first_bad(ls, from) is None,
    ensures
        forall|k: int| from <= k < ls.len() ==> bad_target(#[trigger] ls[k]) is None,
    decreases ls.len() - from,
{
    if from < ls.len() {
        accepted_patch_names_valid_paths(ls, from + 1);
    }
}

/// A path that may be named has no step up and does not start at the root.
pub proof fn valid_target_stays_inside(raw: Seq<char>)
    requires
        valid_target(raw),
        raw != "/dev/null"@,
    ensures
        !pieces(without_side(raw), '/').contains(up()),
        without_side(raw).len() > 0,
        without_side(raw)[0] != '/',
{
}

/// What came of running git.
#[derive(Debug)]
pub enum GitEvent {
    SpawnFailed(String),
    StdinFailed(String),
    WaitFailed(String),
    /// It took too long; how the time that passed is shown.
    TimedOut(String),
    Exited { success: bool, code: Option<i32>, stdout: Vec<u8>, stderr: Vec<u8> },
}

/// How git failed: its exit code and what it said.
pub open spec fn git_failure(label: Seq<char>, code: Option<i32>, stderr: Seq<char>) -> Seq<char> {
    let c = match code {
        Some(c) => c as int,
        None => -1,
    };
    label + " 失败 (exit "@ + signed_decimal(c) + "): "@ + stderr
}

/// Says how git failed.
pub fn describe_failure(label: &str, code: Option<i32>, stderr: &[u8]) -> (r: String)
    ensures
        r@ == git_failure(label@, code, lossy_text(stderr@)),
{
    let mut s = label.to_owned();
    s.append(" 失败 (exit ");
    let c: i64 = match code {
        Some(c) => c as i64,
        None => -1,
    };
    let shown = show_i64(c);
    s.append(shown.as_str());
    s.append("): ");
    let said = decode_lossy(stderr);
    s.append(said.as_str());
    s
}

/// `label` followed by `detail`.
pub(crate) fn labelled(label: &str, detail: &str) -> (r: String)
    ensures
        r@ == label@ + detail@,
{
    let mut s = label.to_owned();
    s.append(detail);
    s
}

/// The `git.apply` tool.
#[derive(Debug, Clone, Copy, Default)]
pub struct GitApply {}

/// The result that each event leads to.
pub open spec fn apply_outcome(event: GitEvent) -> Result<ToolResultView, ToolErrorView> {
    match event {
        GitEvent::SpawnFailed(e) => Err(ToolErrorView::Exec("git apply spawn 失败: "@ + e@)),
        GitEvent::StdinFailed(e) => Err(ToolErrorView::Exec("stdin 写入失败: "@ + e@)),
        GitEvent::WaitFailed(e) => Err(ToolErrorView::Exec("git apply 等待失败: "@ + e@)),
        GitEvent::TimedOut(t) => Ok(
            text_result(
                "git apply 执行超时（超过 "@ + t@ + "），子进程已终止"@,
                true,
            ),
        ),
        GitEvent::Exited { success, code, stdout, stderr } => if success {
            Ok(text_result("patch 已应用"@, false))
        } else {
            Err(ToolErrorView::Exec(git_failure("git apply"@, code, lossy_text(stderr@))))
        },
    }
}

impl GitApply {
    pub fn new() -> Self {
        GitApply {  }
    }

    pub fn name(&self) -> (r: &'static str)
        ensures
            r@ == "git.apply"@,
    {
        "git.apply"
    }

    pub fn side_effect(&self) -> (r: SideEffect)
        ensures
            r == SideEffect::FileWrite,
    {
        SideEffect::FileWrite
    }

    /// The patch to apply; a call without one, and one that names a path it
    /// must not name, are refused.
    pub fn patch(&self, patch: Option<String>) -> (r: Result<String, ToolError>)
        ensures
            match patch {
                None => r is Err && r->Err_0@ == ToolErrorView::InvalidInput("patch 缺失"@),
                Some(p) => match first_bad(lines(p@), 0) {
                    Some(t) => r is Err && r->Err_0@ == patch_refusal(t),
                    None => r is Ok && r->Ok_0@ == p@,
                },
            },
    {
        match patch {
            None => Err(ToolError::InvalidInput("patch 缺失".to_owned())),
            Some(p) => match validate_patch_paths(p.as_str()) {
                Ok(()) => Ok(p),
                Err(e) => Err(e),
            },
        }
    }

    /// Turns what came of running git into the result of the call.
    pub fn finish(&self, event: GitEvent) -> (r: Result<ToolResult, ToolError>)
        ensures
            result_view(r) == apply_outcome(event),
    {
        match event {
            GitEvent::SpawnFailed(e) => Err(
                ToolError::Exec(labelled("git apply spawn 失败: ", e.as_str())),
            ),
            GitEvent::StdinFailed(e) => Err(
                ToolError::Exec(labelled("stdin 写入失败: ", e.as_str())),
            ),
            GitEvent::WaitFailed(e) => Err(
                ToolError::Exec(labelled("git apply 等待失败: ", e.as_str())),
            ),
            GitEvent::TimedOut(t) => {
                let mut s = labelled("git apply 执行超时（超过 ", t.as_str());
                s.append("），子进程已终止");
                Ok(ToolResult::err_text(s))
            },
            GitEvent::Exited { success, code, stdout, stderr } => {
                if success {
                    Ok(ToolResult::ok_text("patch 已应用".to_owned()))
                } else {
                    Err(ToolError::Exec(describe_failure("git apply", code, stderr.as_slice())))
                }
            },
        }
    }
}

/// A path that a patch may name leads nowhere but below the directory that it
/// is applied in, whichever that is; it holds no backslash and is not quoted.
pub proof fn accepted_target_stays_below(raw: &str, base: Seq<char>, r: bool)
    requires
        call_ensures(patch_side_target_valid, (raw,), r),
        r,
        raw@ != "/dev/null"@,
        base.len() > 0,
    ensures
        raw@.len() > 0,
        raw@[0] != '"',
        !raw@.contains('\\'),
        ({
            let side = raw@.len() >= 2 && (raw@.take(2) == "a/"@ || raw@.take(2) == "b/"@);
            let rel = if side {
                raw@.skip(2)
            } else {
                raw@
            };
            &&& rel.len() > 0
            &&& rel[0] != '/'
            &&& under(joined_path(base, rel), base)
        }),
{
    reveal_strlit("a/");
    reveal_strlit("b/");
    let rel = without_side(raw@);
    if raw@.len() >= 2 {
        assert(raw@.subrange(0, 2) == raw@.take(2));
    }
    lemma_naming_from(pieces(rel, '/'));
    assert forall|i: int| 0 <= i < components(rel).len() implies #[trigger] components(rel)[i]
        != up() by {
        assert(pieces(rel, '/').contains(components(rel)[i]));
    }
    plain_path_stays_below(base, rel);
    if raw@.contains('\\') {
        let k = choose|k: int| 0 <= k < raw@.len() && raw@[k] == '\\';
        if rel != raw@ {
            if k >= 2 {
                assert(rel[k - 2] == '\\');
            } else {
                assert(raw@.subrange(0, 2)[k] == raw@[k]);
            }
        }
    }
}

/// What a patch may not name: a path in quotation marks, one that starts at
/// the root, one with a backslash, one with a step up among its pieces, and
/// nothing at all, with or without the mark of a side before it. Any other
/// path it may name, and `/dev/null`.
pub proof fn refused_targets(raw: &str, rel: Seq<char>, r: bool)
    requires
        call_ensures(patch_side_target_valid, (raw,), r),
        raw@ == rel && !(rel.len() >= 2 && (rel[0] == 'a' || rel[0] == 'b') && rel[1] == '/')
            || raw@ == seq!['a', '/'] + rel || raw@ == seq!['b', '/'] + rel,
        raw@ != "/dev/null"@,
    ensures
        r == !(raw@.len() == 0 || raw@[0] == '"' || rel.len() == 0 || rel[0] == '/' || (exists|
            i: int,
        |
            0 <= i < rel.len() && #[trigger] rel[i] == '\\') || (exists|i: int|
            0 <= i < pieces(rel, '/').len() && #[trigger] pieces(rel, '/')[i] == seq!['.', '.'])),
{
    reveal_strlit("a/");
    reveal_strlit("b/");
    assert("a/"@ == seq!['a', '/']);
    assert("b/"@ == seq!['b', '/']);
    if raw@.len() >= 2 {
        let two = raw@.subrange(0, 2);
        assert(two[0] == raw@[0] && two[1] == raw@[1]);
        if raw@[0] == 'a' && raw@[1] == '/' {
            assert(two == "a/"@);
        }
        if raw@[0] == 'b' && raw@[1] == '/' {
            assert(two == "b/"@);
        }
    }
    if raw@ != rel {
        assert(raw@.skip(2) == rel);
    }
    assert(without_side(raw@) == rel);
}

proof fn lemma_first_bad(ls: Seq<Seq<char>>, from: int, k: int)
    requires
        0 <= from <= k < ls.len(),
        bad_target(ls[k]) is Some,
    ensures
        first_bad(ls, from) is Some,
    decreases k - from,
{
    if from < k {
        lemma_first_bad(ls, from + 1, k);
    }
}

proof fn lemma_trim_nothing(s: Seq<char>)
    requires
        s.len() > 0,
        !is_space(s[0]),
        !is_space(s.last()),
    ensures
        trim(s) == s,
{
}

/// A patch with a header that names a path it may not name is refused,
/// wherever the header stands and on whichever side.
pub proof fn bad_header_refuses_the_patch(
    patch: &str,
    k: int,
    target: &str,
    ok: bool,
    r: Result<(), ToolError>,
)
    requires
        call_ensures(validate_patch_paths, (patch,), r),
        0 <= k < lines(patch@).len(),
        lines(patch@)[k] == "--- "@ + target@ || lines(patch@)[k] == "+++ "@ + target@,
        target@.len() > 0,
        !is_space(target@[0]),
        !is_space(target@.last()),
        !target@.contains('\t'),
        call_ensures(patch_side_target_valid, (target,), ok),
        !ok,
    ensures
        r is Err,
        r->Err_0 is InvalidInput,
{
    reveal_strlit("--- ");
    reveal_strlit("+++ ");
    let line = lines(patch@)[k];
    assert(line.subrange(0, 4) == line.take(4));
    if line == "--- "@ + target@ {
        assert(line.take(4) == "--- "@);
    } else {
        assert(line.take(4) == "+++ "@);
    }
    assert(line.skip(4) == target@);
    lemma_trim_nothing(target@);
    lemma_index_from(target@, '\t', 0);
    assert(side_path(target@) == target@);
    lemma_first_bad(lines(patch@), 0, k);
}

/// A patch whose `diff --git` header names, on either side, a path that it may
/// not name is refused.
pub proof fn bad_pair_refuses_the_patch(
    patch: &str,
    k: int,
    a: &str,
    b: &str,
    a_ok: bool,
    b_ok: bool,
    r: Result<(), ToolError>,
)
    requires
        call_ensures(validate_patch_paths, (patch,), r),
        0 <= k < lines(patch@).len(),
        lines(patch@)[k] == "diff --git "@ + a@ + " "@ + b@,
        a@.len() > 0,
        b@.len() > 0,
        forall|i: int| 0 <= i < a@.len() ==> !is_space(#[trigger] a@[i]),
        forall|i: int| 0 <= i < b@.len() ==> !is_space(#[trigger] b@[i]),
        call_ensures(patch_side_target_valid, (a,), a_ok),
        call_ensures(patch_side_target_valid, (b,), b_ok),
        !a_ok || !b_ok,
    ensures
        r is Err,
        r->Err_0 is InvalidInput,
{
    reveal_strlit("--- ");
    reveal_strlit("+++ ");
    reveal_strlit("diff --git ");
    reveal_strlit(" ");
    let line = lines(patch@)[k];
    assert(line.subrange(0, 11) == "diff --git "@);
    assert(line.subrange(0, 4)[0] == 'd');
    let rest = line.skip(11);
    let n = a@.len() as int;
    assert(rest == a@ + " "@ + b@);
    assert(rest[0] == a@[0]);
    assert forall|j: int| 0 <= j < n implies !is_space(#[trigger] rest[j]) by {
        assert(rest[j] == a@[j]);
    }
    assert(rest[n] == ' ');
    lemma_space_at(rest, 0, n);
    assert(rest.subrange(0, n) == a@);
    assert(word_from(rest, 0) == Some((a@, n)));
    let m = rest.len() as int;
    assert forall|j: int| n + 1 <= j < m implies !is_space(#[trigger] rest[j]) by {
        assert(rest[j] == b@[j - n - 1]);
    }
    assert(past_space(rest, n + 1) == n + 1);
    assert(past_space(rest, n) == n + 1);
    lemma_space_at(rest, n + 1, m);
    assert(rest.subrange(n + 1, m) == b@);
    assert(word_from(rest, n) == Some((b@, m)));
    lemma_first_bad(lines(patch@), 0, k);
}

proof fn lemma_no_header(ls: Seq<Seq<char>>, from: int)
    requires
        0 <= from,
        forall|k: int| from <= k < ls.len() ==> bad_target(#[trigger] ls[k]) is None,
    ensures
        first_bad(ls, from) is None,
    decreases ls.len() - from,
{
    if from < ls.len() {
        assert(bad_target(ls[from]) is None);
        lemma_no_header(ls, from + 1);
    }
}

/// A patch is refused for its headers alone: where no line is one, or each
/// names a path that it may name, the patch is accepted and handed on as it
/// is.
pub proof fn only_headers_refuse_a_patch(
    tool: &GitApply,
    patch: String,
    r: Result<String, ToolError>,
)
    requires
        call_ensures(GitApply::patch, (tool, Some(patch)), r),
        forall|k: int| 0 <= k < lines(patch@).len() ==> {
            let line = #[trigger] lines(patch@)[k];
            let short = line.len() < 4;
            let side = !short && (line.take(4) == "--- "@ || line.take(4) == "+++ "@);
            &&& side ==> exists|t: Seq<char>| line.skip(4) == t && #[trigger] valid_target(t)
                && t.len() > 0 && !is_space(t[0]) && !is_space(t.last()) && !t.contains('\t')
            &&& line.len() < 11 || line.take(11) != "diff --git "@
        },
    ensures
        r is Ok,
        r->Ok_0@ == patch@,
{
    reveal_strlit("--- ");
    reveal_strlit("+++ ");
    reveal_strlit("diff --git ");
    let ls = lines(patch@);
    assert forall|k: int| 0 <= k < ls.len() implies bad_target(#[trigger] ls[k]) is None by {
        let line = ls[k];
        if line.len() >= 4 {
            assert(line.subrange(0, 4) == line.take(4));
            if line.take(4) == "--- "@ || line.take(4) == "+++ "@ {
                let t = line.skip(4);
                lemma_trim_nothing(t);
                lemma_index_from(t, '\t', 0);
                assert(side_path(t) == t);
            }
        }
        if line.len() >= 11 {
            assert(line.subrange(0, 11) == line.take(11));
        }
    }
    lemma_no_header(ls, 0);
}

/// A patch counts as applied exactly where git says that it succeeded; a
/// failure tells git's exit code and what it said.
pub proof fn patch_is_applied_where_git_succeeds(
    tool: &GitApply,
    event: GitEvent,
    r: Result<ToolResult, ToolError>,
)
    requires
        call_ensures(GitApply::finish, (tool, event), r),
    ensures
        (r is Ok && !r->Ok_0.is_error) == (event matches GitEvent::Exited { success, .. }
            && success),
        event is TimedOut ==> r is Ok && r->Ok_0.is_error,
        event is SpawnFailed || event is StdinFailed || event is WaitFailed ==> r is Err,
        event matches GitEvent::Exited { success, code, stdout, stderr } ==> (!success ==> {
            let c = if code is Some {
                code->0 as int
            } else {
                -1
            };
            r is Err && r->Err_0@ == ToolErrorView::Exec(
                "git apply 失败 (exit "@ + signed_decimal(c) + "): "@ + lossy_text(stderr@),
            )
        }),
{
    if let GitEvent::Exited { success, code, stdout, stderr } = event {
        if !success {
            let c = if code is Some {
                code->0 as int
            } else {
                -1
            };
            reveal_strlit("git apply");
            reveal_strlit(" 失败 (exit ");
            reveal_strlit("git apply 失败 (exit ");
            assert("git apply"@ + " 失败 (exit "@ == "git apply 失败 (exit "@);
        }
    }
}

} // verus!
