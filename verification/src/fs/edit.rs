//! Replacing text in files: one place, or several places all at once.

use vstd::prelude::*;
use vstd::slice::*;
use vstd::string::*;
use vstd::utf8::*;
use crate::fs::change::FileChange;
use crate::text::chars::{chars_equal, from_chars, to_chars};
use crate::text::number::{decimal, show_u128, show_usize};
use crate::text::search::{
    count, count_from, find, find_from, lemma_find_from, occurs_at, replace_range, splice,
};
use crate::tool::{text_result, SideEffect, ToolResult};

verus! {

/// The number of places where `old` stands in the text, none overlapping
/// another. An empty text stands before every character and at the end.
pub open spec fn places(content: Seq<char>, old_text: Seq<char>) -> nat {
    if old_text.len() == 0 {
        content.len() + 1
    } else {
        count_from(content, old_text, 0)
    }
}

/// The text with the first place where `old` stands replaced by `new`.
pub open spec fn replaced_once(
    content: Seq<char>,
    old_text: Seq<char>,
    new_text: Seq<char>,
) -> Seq<char> {
    match find_from(content, old_text, 0) {
        Some(i) => splice(content, i, i + old_text.len(), new_text),
        None => content,
    }
}

/// Why a replacement is refused: there is nothing to do, the text is not
/// there, or it is there more than once.
pub open spec fn edit_refusal(
    path: Seq<char>,
    content: Seq<char>,
    old_text: Seq<char>,
    new_text: Seq<char>,
) -> Option<Seq<char>> {
    if old_text == new_text {
        Some("old_string equals new_string: nothing to do"@)
    } else if places(content, old_text) == 0 {
        Some("old_string not found in "@ + path)
    } else if places(content, old_text) > 1 {
        Some(
            "old_string is not unique ("@ + decimal(places(content, old_text)) + " matches) in "@
                + path + ": provide more context"@,
        )
    } else {
        None
    }
}

/// What comes of an edit.
#[derive(Debug)]
pub enum EditOutcome {
    /// The file stays as it is; the result says why.
    Refused(ToolResult),
    /// The file gets this content, and the call this result.
    Write { content: String, result: ToolResult },
}

/// An edit refused for a reason.
pub open spec fn is_refusal(o: EditOutcome, reason: Seq<char>) -> bool {
    o matches EditOutcome::Refused(r) && r@ == text_result(reason, true)
}

/// An edit that writes.
pub open spec fn is_write(o: EditOutcome, content: Seq<char>, message: Seq<char>) -> bool {
    o matches EditOutcome::Write { content: c, result } && c@ == content && result@ == text_result(
        message,
        false,
    )
}

/// Why the replacement is refused, if it is.
fn refusal(path: &str, content: &[char], old_text: &[char], new_text: &[char]) -> (r: Option<String>)
    ensures
        match r {
            Some(s) => edit_refusal(path@, content@, old_text@, new_text@) == Some(s@),
            None => edit_refusal(path@, content@, old_text@, new_text@) is None,
        },
{
    if chars_equal(old_text, new_text) {
        return Some("old_string equals new_string: nothing to do".to_owned());
    }
    let n: u128 = if old_text.len() == 0 {
        content.len() as u128 + 1
    } else {
        count(content, old_text) as u128
    };
    if n == 0 {
        let mut s = "old_string not found in ".to_owned();
        s.append(path);
        return Some(s);
    }
    if n > 1 {
        let mut s = "old_string is not unique (".to_owned();
        let shown = show_u128(n);
        s.append(shown.as_str());
        s.append(" matches) in ");
        s.append(path);
        s.append(": provide more context");
        return Some(s);
    }
    None
}

/// Where a text stands at least once, the search finds it.
proof fn lemma_one_place(content: Seq<char>, old_text: Seq<char>)
    requires
        places(content, old_text) > 0,
    ensures
        find_from(content, old_text, 0) is Some,
        occurs_at(content, old_text, find_from(content, old_text, 0)->0),
{
    lemma_find_from(content, old_text, 0);
    if old_text.len() == 0 {
        assert(content.subrange(0, 0) == old_text);
        assert(occurs_at(content, old_text, 0));
    }
}

/// Replaces the first place.
fn replace_first(content: &[char], old_text: &[char], new_text: &[char]) -> (r: Vec<char>)
    requires
        places(content@, old_text@) > 0,
    ensures
        r@ == replaced_once(content@, old_text@, new_text@),
{
    proof {
        lemma_one_place(content@, old_text@);
    }
    let len: usize = content.len();
    match find(content, old_text, 0) {
        Some(i) => replace_range(content, i, i + old_text.len(), new_text),
        None => {
            assert(false);
            Vec::new()
        },
    }
}

/// The `fs.edit` tool.
#[derive(Debug, Clone, Copy, Default)]
pub struct FsEdit {}

impl FsEdit {
    pub fn new() -> Self {
        FsEdit {  }
    }

    pub fn name(&self) -> (r: &'static str)
        ensures
            r@ == "fs.edit"@,
    {
        "fs.edit"
    }

    pub fn side_effect(&self) -> (r: SideEffect)
        ensures
            r == SideEffect::FileWrite,
    {
        SideEffect::FileWrite
    }

    /// Refuses an edit that would change nothing, before any file is read.
    pub fn check(&self, old_string: &str, new_string: &str) -> (r: Option<ToolResult>)
        ensures
            r is Some == (old_string@ == new_string@),
            r is Some ==> r->0@ == text_result(
                "old_string equals new_string: nothing to do"@,
                true,
            ),
    {
        let o = to_chars(old_string);
        let n = to_chars(new_string);
        if chars_equal(o.as_slice(), n.as_slice()) {
            Some(ToolResult::err_text("old_string equals new_string: nothing to do".to_owned()))
        } else {
            None
        }
    }

    /// The change that an edit of the file made.
    pub fn change(&self, path: String, before: &str, after: &str) -> (r: FileChange)
        ensures
            r matches FileChange::Edited { path: p, before: x, after: y } && p@ == path@ && x@
                == before.spec_bytes() && y@ == after.spec_bytes(),
    {
        FileChange::Edited {
            path,
            before: slice_to_vec(before.as_bytes()),
            after: slice_to_vec(after.as_bytes()),
        }
    }

    /// Replaces the one place where `old_string` stands.
    pub fn execute(&self, path: &str, content: &str, old_string: &str, new_string: &str) -> (r:
        EditOutcome)
        ensures
            match edit_refusal(path@, content@, old_string@, new_string@) {
                Some(reason) => is_refusal(r, reason),
                None => is_write(
                    r,
                    replaced_once(content@, old_string@, new_string@),
                    "edited "@ + path@,
                ),
            },
    {
        let c = to_chars(content);
        let o = to_chars(old_string);
        let n = to_chars(new_string);
        match refusal(path, c.as_slice(), o.as_slice(), n.as_slice()) {
            Some(reason) => EditOutcome::Refused(ToolResult::err_text(reason)),
            None => {
                let new_content = replace_first(c.as_slice(), o.as_slice(), n.as_slice());
                let mut s = "edited ".to_owned();
                s.append(path);
                EditOutcome::Write {
                    content: from_chars(new_content.as_slice()),
                    result: ToolResult::ok_text(s),
                }
            },
        }
    }
}

/// One replacement of several.
#[derive(Debug)]
pub struct Edit {
    pub old_string: String,
    pub new_string: String,
}

/// A replacement with its texts as sequences.
pub struct EditView {
    pub old_text: Seq<char>,
    pub new_text: Seq<char>,
}

impl View for Edit {
    type V = EditView;

    open spec fn view(&self) -> EditView {
        EditView { old_text: self.old_string@, new_text: self.new_string@ }
    }
}

/// The replacements of a list.
pub open spec fn edit_views(edits: Seq<Edit>) -> Seq<EditView> {
    Seq::new(edits.len(), |i: int| edits[i]@)
}

/// The text after the replacements in order.
pub open spec fn replaced_all(content: Seq<char>, edits: Seq<EditView>) -> Seq<char>
    decreases edits.len(),
{
    if edits.len() == 0 {
        content
    } else {
        let before = replaced_all(content, edits.drop_last());
        replaced_once(before, edits.last().old_text, edits.last().new_text)
    }
}

/// Why the replacements are refused: the first one that is, with its number.
/// Each is looked at in the text that those before it leave.
pub open spec fn multi_refusal(path: Seq<char>, content: Seq<char>, edits: Seq<EditView>) -> Option<
    Seq<char>,
>
    decreases edits.len(),
{
    if edits.len() == 0 {
        None
    } else {
        match multi_refusal(path, content, edits.drop_last()) {
            Some(reason) => Some(reason),
            None => match edit_refusal(
                path,
                replaced_all(content, edits.drop_last()),
                edits.last().old_text,
                edits.last().new_text,
            ) {
                Some(reason) => Some("edit #"@ + decimal(edits.len()) + ": "@ + reason),
                None => None,
            },
        }
    }
}

/// The `fs.multiedit` tool.
#[derive(Debug, Clone, Copy, Default)]
pub struct FsMultiEdit {}

/// Once one replacement is refused, all of a longer list are.
proof fn lemma_refusal_stays(path: Seq<char>, content: Seq<char>, edits: Seq<EditView>, k: int)
    requires
        0 <= k <= edits.len(),
        multi_refusal(path, content, edits.take(k)) is Some,
    ensures
        multi_refusal(path, content, edits) == multi_refusal(path, content, edits.take(k)),
    decreases edits.len() - k,
{
    if k == edits.len() {
        assert(edits.take(k) == edits);
    } else {
        assert(edits.take(k + 1).drop_last() == edits.take(k));
        lemma_refusal_stays(path, content, edits, k + 1);
    }
}

impl FsMultiEdit {
    pub fn new() -> Self {
        FsMultiEdit {  }
    }

    pub fn name(&self) -> (r: &'static str)
        ensures
            r@ == "fs.multiedit"@,
    {
        "fs.multiedit"
    }

    pub fn side_effect(&self) -> (r: SideEffect)
        ensures
            r == SideEffect::FileWrite,
    {
        SideEffect::FileWrite
    }

    /// Makes all replacements in order, or none of them.
    pub fn execute(&self, path: &str, content: &str, edits: &Vec<Edit>) -> (r: EditOutcome)
        ensures
            match multi_refusal(path@, content@, edit_views(edits@)) {
                Some(reason) => is_refusal(r, reason),
                None => is_write(
                    r,
                    replaced_all(content@, edit_views(edits@)),
                    "applied "@ + decimal(edits@.len()) + " edit(s) to "@ + path@,
                ),
            },
    {
        let ghost all = edit_views(edits@);
        let mut text = to_chars(content);
        let mut i: usize = 0;
        assert(all.take(0) == Seq::<EditView>::empty());
        while i < edits.len()
            invariant
                i <= edits@.len(),
                all == edit_views(edits@),
                multi_refusal(path@, content@, all.take(i as int)) is None,
                text@ == replaced_all(content@, all.take(i as int)),
            decreases edits@.len() - i,
        {
            let o = to_chars(edits[i].old_string.as_str());
            let n = to_chars(edits[i].new_string.as_str());
            let ghost now = all.take(i + 1);
            assert(now.drop_last() == all.take(i as int));
            assert(now.last() == edits@[i as int]@);
            match refusal(path, text.as_slice(), o.as_slice(), n.as_slice()) {
                Some(reason) => {
                    let mut s = "edit #".to_owned();
                    let shown = show_usize(i + 1);
                    s.append(shown.as_str());
                    s.append(": ");
                    s.append(reason.as_str());
                    proof {
                        assert(multi_refusal(path@, content@, now) == Some(s@));
                        lemma_refusal_stays(path@, content@, all, i + 1);
                    }
                    return EditOutcome::Refused(ToolResult::err_text(s));
                },
                None => {
                    text = replace_first(text.as_slice(), o.as_slice(), n.as_slice());
                },
            }
            i = i + 1;
        }
        assert(all.take(all.len() as int) == all);
        let mut s = "applied ".to_owned();
        let shown = show_usize(edits.len());
        s.append(shown.as_str());
        s.append(" edit(s) to ");
        s.append(path);
        EditOutcome::Write {
            content: from_chars(text.as_slice()),
            result: ToolResult::ok_text(s),
        }
    }
}

/// A refused list of replacements writes nothing at all.
pub proof fn refused_edits_write_nothing(o: EditOutcome, reason: Seq<char>)
    requires
        is_refusal(o, reason),
    ensures
        o is Refused,
        forall|content: Seq<char>, message: Seq<char>| !is_write(o, content, message),
{
}

/// A list of one replacement comes to the same text as that replacement.
pub proof fn one_edit_of_many(path: Seq<char>, content: Seq<char>, e: EditView)
    ensures
        replaced_all(content, seq![e]) == replaced_once(content, e.old_text, e.new_text),
        multi_refusal(path, content, seq![e]) is None == (edit_refusal(
            path,
            content,
            e.old_text,
            e.new_text,
        ) is None),
{
    let none = Seq::<EditView>::empty();
    assert(seq![e].drop_last() == none);
    assert(seq![e].last() == e);
    assert(replaced_all(content, none) == content);
    assert(multi_refusal(path, content, none) is None);
}

/// The replacement puts the new text exactly where the old one stood and
/// leaves what stands before and after it.
pub proof fn edit_changes_one_place(content: Seq<char>, old_text: Seq<char>, new_text: Seq<char>)
    requires
        places(content, old_text) == 1,
    ensures
        ({
            let i = find_from(content, old_text, 0)->0;
            &&& content == content.take(i) + old_text + content.skip(i + old_text.len())
            &&& replaced_once(content, old_text, new_text) == content.take(i) + new_text
                + content.skip(i + old_text.len())
        }),
{
    lemma_one_place(content, old_text);
    let i = find_from(content, old_text, 0)->0;
    assert(content == content.take(i) + content.subrange(i, i + old_text.len()) + content.skip(
        i + old_text.len(),
    ));
}

/// `part` stands in `text` at index `i` and, but for places that overlap that
/// one, nowhere else.
pub open spec fn stands_once(text: Seq<char>, part: Seq<char>, i: int) -> bool {
    &&& 0 <= i <= text.len() - part.len()
    &&& text.subrange(i, i + part.len()) == part
    &&& forall|j: int|
        0 <= j <= text.len() - part.len() && #[trigger] text.subrange(j, j + part.len()) == part
            ==> j == i || i < j < i + part.len()
}

/// A text has exactly one place where it stands exactly when it stands once.
proof fn lemma_single_place(text: Seq<char>, part: Seq<char>)
    ensures
        places(text, part) == 1 ==> find_from(text, part, 0) is Some && stands_once(
            text,
            part,
            find_from(text, part, 0)->0,
        ),
        forall|i: int| #[trigger]
            stands_once(text, part, i) ==> places(text, part) == 1 && find_from(text, part, 0)
                == Some(i),
{
    lemma_find_from(text, part, 0);
    let first = find_from(text, part, 0);
    if part.len() == 0 {
        assert(text.subrange(0, 0) == part);
        assert(occurs_at(text, part, 0));
        assert(first == Some(0int));
        if places(text, part) == 1 {
            assert(stands_once(text, part, 0));
        }
        assert forall|i: int| #[trigger] stands_once(text, part, i) implies places(text, part) == 1
            && first == Some(i) by {
            let n = text.len() as int;
            assert(text.subrange(0, 0int + part.len()) == part);
            assert(text.subrange(n, n + part.len()) == part);
        }
    } else {
        if first is Some {
            let i = first->0;
            lemma_find_from(text, part, i + part.len());
            if places(text, part) == 1 {
                assert(count_from(text, part, i + part.len()) == 0);
                assert(find_from(text, part, i + part.len()) is None);
                assert forall|j: int|
                    0 <= j <= text.len() - part.len() && #[trigger] text.subrange(
                        j,
                        j + part.len(),
                    ) == part implies j == i || i < j < i + part.len() by {
                    assert(occurs_at(text, part, j));
                }
                assert(stands_once(text, part, i));
            }
        }
        assert forall|i: int| #[trigger] stands_once(text, part, i) implies places(text, part) == 1
            && first == Some(i) by {
            assert(occurs_at(text, part, i));
            let k = first->0;
            assert(text.subrange(k, k + part.len()) == part);
            assert(k == i);
            lemma_find_from(text, part, i + part.len());
            if find_from(text, part, i + part.len()) is Some {
                let j = find_from(text, part, i + part.len())->0;
                assert(text.subrange(j, j + part.len()) == part);
            }
            assert(count_from(text, part, i + part.len()) == 0);
        }
    }
}

/// Replacing a text that stands once puts the new text there.
proof fn lemma_replaced_there(text: Seq<char>, part: Seq<char>, new_text: Seq<char>, i: int)
    requires
        stands_once(text, part, i),
    ensures
        replaced_once(text, part, new_text) == text.take(i) + new_text + text.skip(i + part.len()),
{
    lemma_single_place(text, part);
}

/// The texts that a list of replacements goes through: the first is the
/// content, and each replacement puts its new text at the one place where its
/// old text, which differs from it, stands in the text before.
pub open spec fn goes_through(
    content: Seq<char>,
    edits: Seq<EditView>,
    texts: Seq<Seq<char>>,
    at: Seq<int>,
) -> bool {
    &&& texts.len() == edits.len() + 1
    &&& at.len() == edits.len()
    &&& texts[0] == content
    &&& forall|k: int|
        #![trigger edits[k]]
        0 <= k < edits.len() ==> {
            let e = edits[k];
            &&& e.old_text != e.new_text
            &&& stands_once(texts[k], e.old_text, at[k])
            &&& texts[k + 1] == texts[k].take(at[k]) + e.new_text + texts[k].skip(
                at[k] + e.old_text.len(),
            )
        }
}

proof fn lemma_goes_through(
    path: Seq<char>,
    content: Seq<char>,
    edits: Seq<EditView>,
    texts: Seq<Seq<char>>,
    at: Seq<int>,
)
    requires
        goes_through(content, edits, texts, at),
    ensures
        multi_refusal(path, content, edits) is None,
        replaced_all(content, edits) == texts.last(),
    decreases edits.len(),
{
    if edits.len() > 0 {
        let init = edits.drop_last();
        let last = edits.len() - 1;
        let e = edits[last];
        assert forall|k: int| #![trigger init[k]] 0 <= k < init.len() implies {
            let e = init[k];
            &&& e.old_text != e.new_text
            &&& stands_once(texts.drop_last()[k], e.old_text, at.drop_last()[k])
            &&& texts.drop_last()[k + 1] == texts.drop_last()[k].take(at.drop_last()[k])
                + e.new_text + texts.drop_last()[k].skip(at.drop_last()[k] + e.old_text.len())
        } by {
            assert(init[k] == edits[k]);
        }
        lemma_goes_through(path, content, init, texts.drop_last(), at.drop_last());
        assert(texts.drop_last().last() == texts[last]);
        lemma_single_place(texts[last], e.old_text);
        lemma_replaced_there(texts[last], e.old_text, e.new_text, at[last]);
    }
}

/// What an accepted list of replacements went through.
proof fn lemma_went_through(path: Seq<char>, content: Seq<char>, edits: Seq<EditView>) -> (r: (
    Seq<Seq<char>>,
    Seq<int>,
))
    requires
        multi_refusal(path, content, edits) is None,
    ensures
        goes_through(content, edits, r.0, r.1),
        r.0.last() == replaced_all(content, edits),
    decreases edits.len(),
{
    if edits.len() == 0 {
        (seq![content], Seq::empty())
    } else {
        let init = edits.drop_last();
        let e = edits.last();
        let (texts, at) = lemma_went_through(path, content, init);
        let before = texts.last();
        lemma_single_place(before, e.old_text);
        let i = find_from(before, e.old_text, 0)->0;
        lemma_replaced_there(before, e.old_text, e.new_text, i);
        let all = texts.push(replaced_all(content, edits));
        let places_at = at.push(i);
        assert forall|k: int| #![trigger edits[k]] 0 <= k < edits.len() implies {
            let e = edits[k];
            &&& e.old_text != e.new_text
            &&& stands_once(all[k], e.old_text, places_at[k])
            &&& all[k + 1] == all[k].take(places_at[k]) + e.new_text + all[k].skip(
                places_at[k] + e.old_text.len(),
            )
        } by {
            if k < init.len() {
                assert(init[k] == edits[k]);
            }
        }
        (all, places_at)
    }
}

/// Several replacements are made, or none of them: they are made where each
/// old text stands exactly once in the text that those before it leave, and
/// then the file holds the last of these texts; else nothing is written.
pub proof fn edits_are_made_all_or_none(
    tool: &FsMultiEdit,
    path: &str,
    content: &str,
    edits: &Vec<Edit>,
    r: EditOutcome,
)
    requires
        call_ensures(FsMultiEdit::execute, (tool, path, content, edits), r),
    ensures
        r is Write == (exists|texts: Seq<Seq<char>>, at: Seq<int>|
            goes_through(content@, edit_views(edits@), texts, at)),
        forall|texts: Seq<Seq<char>>, at: Seq<int>| #[trigger]
            goes_through(content@, edit_views(edits@), texts, at) ==> r is Write && r->content@
                == texts[edits@.len() as int],
        r is Refused ==> r->Refused_0.is_error,
        r is Write ==> !r->result.is_error,
{
    let all = edit_views(edits@);
    if multi_refusal(path@, content@, all) is None {
        let (texts, at) = lemma_went_through(path@, content@, all);
        assert(goes_through(content@, all, texts, at));
    }
    assert forall|texts: Seq<Seq<char>>, at: Seq<int>| #[trigger]
        goes_through(content@, all, texts, at) implies r is Write && r->content@
        == texts[edits@.len() as int] by {
        lemma_goes_through(path@, content@, all, texts, at);
    }
}

/// One replacement is made exactly where the old text, which differs from the
/// new one, stands once; then the new text stands there and the rest stays.
pub proof fn edit_needs_exactly_one_place(
    tool: &FsEdit,
    path: &str,
    content: &str,
    old_string: &str,
    new_string: &str,
    r: EditOutcome,
)
    requires
        call_ensures(FsEdit::execute, (tool, path, content, old_string, new_string), r),
    ensures
        r is Write == (old_string@ != new_string@ && exists|i: int|
            stands_once(content@, old_string@, i)),
        forall|i: int| #[trigger]
            stands_once(content@, old_string@, i) && old_string@ != new_string@ ==> r is Write
                && r->content@ == content@.take(i) + new_string@ + content@.skip(
                i + old_string@.len(),
            ),
{
    lemma_single_place(content@, old_string@);
    if r is Write {
        assert(stands_once(content@, old_string@, find_from(content@, old_string@, 0)->0));
    }
    assert forall|i: int| #[trigger]
        stands_once(content@, old_string@, i) && old_string@ != new_string@ implies r is Write
        && r->content@ == content@.take(i) + new_string@ + content@.skip(
        i + old_string@.len(),
    ) by {
        lemma_replaced_there(content@, old_string@, new_string@, i);
    }
}

/// One replacement in a list does what it does by itself.
pub proof fn list_of_one_edit_is_that_edit(
    one: &FsEdit,
    many: &FsMultiEdit,
    path: &str,
    content: &str,
    old_string: &str,
    new_string: &str,
    edits: &Vec<Edit>,
    r: EditOutcome,
    s: EditOutcome,
)
    requires
        edits@.len() == 1,
        edits@[0].old_string@ == old_string@,
        edits@[0].new_string@ == new_string@,
        call_ensures(FsEdit::execute, (one, path, content, old_string, new_string), r),
        call_ensures(FsMultiEdit::execute, (many, path, content, edits), s),
    ensures
        r is Write == s is Write,
        r is Write ==> r->content@ == s->content@,
{
    assert(edit_views(edits@) == seq![edits@[0]@]);
    one_edit_of_many(path@, content@, edits@[0]@);
}

/// A refused list names the first replacement that cannot be made: those
/// before it could, and it cannot because it would change nothing, or because
/// its old text is not there, or because it is there more than once.
pub proof fn first_impossible_edit_is_named(
    tool: &FsMultiEdit,
    path: &str,
    content: &str,
    edits: &Vec<Edit>,
    k: int,
    texts: Seq<Seq<char>>,
    at: Seq<int>,
    r: EditOutcome,
)
    requires
        call_ensures(FsMultiEdit::execute, (tool, path, content, edits), r),
        0 <= k < edits@.len(),
        goes_through(content@, edit_views(edits@).take(k), texts, at),
        edits@[k].old_string@ == edits@[k].new_string@ || !exists|i: int|
            stands_once(texts[k], edits@[k].old_string@, i),
    ensures
        r is Refused,
        ({
            let label = "edit #"@ + decimal((k + 1) as nat) + ": "@;
            let told = r->Refused_0.content@;
            let e = edits@[k]@;
            &&& told.len() >= label.len() && told.take(label.len() as int) == label
            &&& e.old_text == e.new_text ==> told == label
                + "old_string equals new_string: nothing to do"@
            &&& e.old_text != e.new_text && (forall|j: int|
                0 <= j <= texts[k].len() - e.old_text.len() ==> #[trigger] texts[k].subrange(
                    j,
                    j + e.old_text.len(),
                ) != e.old_text) ==> told == label + "old_string not found in "@ + path@
        }),
{
    let all = edit_views(edits@);
    let e = all[k];
    let now = all.take(k + 1);
    assert(now.drop_last() == all.take(k));
    assert(now.last() == e);
    lemma_goes_through(path@, content@, all.take(k), texts, at);
    lemma_single_place(texts[k], e.old_text);
    if e.old_text != e.new_text && places(texts[k], e.old_text) == 1 {
        assert(stands_once(texts[k], e.old_text, find_from(texts[k], e.old_text, 0)->0));
    }
    let reason = edit_refusal(path@, texts[k], e.old_text, e.new_text);
    assert(reason is Some);
    let label = "edit #"@ + decimal((k + 1) as nat) + ": "@;
    assert(multi_refusal(path@, content@, now) == Some(label + reason->0));
    lemma_refusal_stays(path@, content@, all, k + 1);
    assert((label + reason->0).take(label.len() as int) == label);
    if e.old_text != e.new_text && (forall|j: int|
        0 <= j <= texts[k].len() - e.old_text.len() ==> #[trigger] texts[k].subrange(
            j,
            j + e.old_text.len(),
        ) != e.old_text) {
        lemma_find_from(texts[k], e.old_text, 0);
        if find_from(texts[k], e.old_text, 0) is Some {
            let j = find_from(texts[k], e.old_text, 0)->0;
            assert(texts[k].subrange(j, j + e.old_text.len()) == e.old_text);
        }
        if e.old_text.len() == 0 {
            assert(texts[k].subrange(0, 0) == e.old_text);
        }
        assert(places(texts[k], e.old_text) == 0);
        assert(label + ("old_string not found in "@ + path@) == label + "old_string not found in "@
            + path@);
    }
}

/// What is refused before the file is read is refused with the same words
/// whatever the file holds.
pub proof fn early_refusal_is_the_refusal(
    tool: &FsEdit,
    path: &str,
    content: &str,
    old_string: &str,
    new_string: &str,
    early: Option<ToolResult>,
    r: EditOutcome,
)
    requires
        call_ensures(FsEdit::check, (tool, old_string, new_string), early),
        call_ensures(FsEdit::execute, (tool, path, content, old_string, new_string), r),
    ensures
        early is Some == (old_string@ == new_string@),
        early is Some ==> r is Refused && r->Refused_0@ == early->0@ && early->0.is_error,
{
}

/// Where the old text stands more than once, or nowhere, the refusal says
/// which, and how often it stands there.
pub proof fn refusal_tells_how_often_the_text_stands(
    tool: &FsEdit,
    path: &str,
    content: &str,
    old_string: &str,
    new_string: &str,
    text: &[char],
    part: &[char],
    n: usize,
    r: EditOutcome,
)
    requires
        call_ensures(FsEdit::execute, (tool, path, content, old_string, new_string), r),
        old_string@ != new_string@,
        old_string@.len() > 0,
        text@ == content@ && part@ == old_string@,
        call_ensures(count, (text, part), n),
    ensures
        r is Write == (n == 1),
        n == 0 ==> r->Refused_0.content@ == "old_string not found in "@ + path@,
        n > 1 ==> {
            let head = "old_string is not unique ("@ + decimal(n as nat) + " matches) in "@ + path@;
            let t = r->Refused_0.content@;
            t.len() >= head.len() && t.take(head.len() as int) == head
        },
        r is Write ==> r->result.content@ == "edited "@ + path@,
{
    if n > 1 {
        let head = "old_string is not unique ("@ + decimal(n as nat) + " matches) in "@ + path@;
        let t = r->Refused_0.content@;
        assert(t == head + ": provide more context"@);
        assert(t.take(head.len() as int) == head);
    }
}

/// An edited file is recorded with what it held before and what it holds now.
pub proof fn edited_file_can_be_undone(
    tool: &FsEdit,
    path: String,
    before: &str,
    after: &str,
    r: FileChange,
)
    requires
        call_ensures(FsEdit::change, (tool, path, before, after), r),
    ensures
        r is Edited,
        r->Edited_path@ == path@,
        r->Edited_before@ == encode_utf8(before@),
        r->Edited_after@ == encode_utf8(after@),
{
}

} // verus!
