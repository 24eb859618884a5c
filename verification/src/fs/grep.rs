//! Searching files by regular expression, and finding files by name.

use vstd::prelude::*;
use vstd::string::*;
use crate::fs::read::{cut_result, finish};
use crate::fs::sensitive::{show_content, shown_content};
use crate::patterns::{
    check_glob, check_regex, glob_is_match, glob_matches, glob_problem, regex_finds, regex_is_match,
    regex_problem,
};
use crate::text::chars::{from_chars, push_all, push_text, to_chars};
use crate::text::number::{decimal, show_u128};
use crate::text::pick::{
    lemma_picked_of, lemma_picks_none, lemma_picks_step, picked_of, picks,
};
use crate::text::split::{char_views, join, joined, lines, opt_view, split_lines, views};
use crate::tool::{ListKind, RenderIntent, SideEffect, ToolError, ToolErrorView, ToolResult};

verus! {

/// What a search has found so far.
#[verifier::ext_equal]
pub struct FoundView {
    /// The lines found, as they are shown.
    pub out: Seq<char>,
    /// How many of them match.
    pub emitted: nat,
    /// The limit was met, and the search is over.
    pub stopped: bool,
}

/// As many matches were shown as may be.
pub open spec fn at_limit(emitted: nat, limit: Option<usize>) -> bool {
    match limit {
        Some(n) => emitted >= n,
        None => false,
    }
}

/// One line of output: the file, the number of the line counted from 1, a
/// mark and the line.
pub open spec fn shown_line(rel: Seq<char>, i: int, mark: char, line: Seq<char>) -> Seq<char> {
    (rel.push(':') + decimal((i + 1) as nat)).push(mark) + line.push('\n')
}

/// After the first `n` lines of a file without context: every matching line is
/// shown until one comes that is over the limit; that one ends the search.
pub open spec fn plain_to(
    before: FoundView,
    rel: Seq<char>,
    ls: Seq<Seq<char>>,
    pattern: Seq<char>,
    limit: Option<usize>,
    n: int,
) -> FoundView
    decreases n,
{
    if n <= 0 {
        before
    } else {
        let f = plain_to(before, rel, ls, pattern, limit, n - 1);
        let line = ls[n - 1];
        if f.stopped || !regex_finds(pattern, line) {
            f
        } else if at_limit(f.emitted, limit) {
            FoundView { stopped: true, ..f }
        } else {
            FoundView {
                out: f.out + shown_line(rel, n - 1, ':', line),
                emitted: f.emitted + 1,
                stopped: false,
            }
        }
    }
}

/// Line `i` lies within `context` lines of a line that matches.
pub open spec fn near(ls: Seq<Seq<char>>, pattern: Seq<char>, context: int, i: int) -> bool {
    exists|j: int|
        0 <= j < ls.len() && i - context <= j <= i + context && regex_finds(
            pattern,
            #[trigger] ls[j],
        )
}

/// A file under search with context: what was found, and whether the rest of
/// the file is left out because the limit was met.
#[verifier::ext_equal]
pub struct FileView {
    pub out: Seq<char>,
    pub emitted: nat,
    /// A line of the file was shown.
    pub shown: bool,
    pub cut: bool,
}

/// After the first `n` lines of a file with context: every line near a match
/// is shown, a match with `:` and another with `-`. A line `--` parts shown
/// lines that do not adjoin: it stands before a shown line where the line
/// before it is not shown and an earlier line of the file was. The first line
/// over the limit cuts the file off.
pub open spec fn context_to(
    before: FileView,
    rel: Seq<char>,
    ls: Seq<Seq<char>>,
    pattern: Seq<char>,
    context: int,
    limit: Option<usize>,
    n: int,
) -> FileView
    decreases n,
{
    if n <= 0 {
        before
    } else {
        let f = context_to(before, rel, ls, pattern, context, limit, n - 1);
        let i = n - 1;
        if f.cut || !near(ls, pattern, context, i) {
            f
        } else if at_limit(f.emitted, limit) {
            FileView { cut: true, ..f }
        } else {
            let hit = regex_finds(pattern, ls[i]);
            let parted = if f.shown && !near(ls, pattern, context, i - 1) {
                f.out + "--\n"@
            } else {
                f.out
            };
            FileView {
                out: parted + shown_line(
                    rel,
                    i,
                    if hit {
                        ':'
                    } else {
                        '-'
                    },
                    ls[i],
                ),
                emitted: if hit {
                    f.emitted + 1
                } else {
                    f.emitted
                },
                shown: true,
                cut: false,
            }
        }
    }
}

/// What a search has found after one more file. Where `path` leads to a file
/// that holds secrets, `hidden`, the content with its secrets hidden, is
/// searched in place of the content; `rel` is the name it is shown under.
pub open spec fn after_file(
    before: FoundView,
    rel: Seq<char>,
    path: Seq<char>,
    content: Seq<char>,
    hidden: Seq<char>,
    pattern: Seq<char>,
    context: usize,
    limit: Option<usize>,
) -> FoundView {
    let ls = lines(shown_content(path, content, hidden));
    if before.stopped {
        before
    } else if context == 0 {
        plain_to(before, rel, ls, pattern, limit, ls.len() as int)
    } else {
        let f = context_to(
            FileView { out: before.out, emitted: before.emitted, shown: false, cut: false },
            rel,
            ls,
            pattern,
            context as int,
            limit,
            ls.len() as int,
        );
        FoundView { out: f.out, emitted: f.emitted, stopped: false }
    }
}

/// A search over files.
#[derive(Debug)]
pub struct GrepSearch {
    pattern: String,
    include_glob: Option<String>,
    context: usize,
    head_limit: Option<usize>,
    out: Vec<char>,
    emitted: usize,
    stopped: bool,
}

impl GrepSearch {
    /// The regular expression.
    pub closed spec fn pattern(&self) -> Seq<char> {
        self.pattern@
    }

    /// The pattern that file names have to match.
    pub closed spec fn include_glob(&self) -> Option<Seq<char>> {
        opt_view(self.include_glob)
    }

    /// Lines shown around each match.
    pub closed spec fn context(&self) -> usize {
        self.context
    }

    /// The most matches shown.
    pub closed spec fn head_limit(&self) -> Option<usize> {
        self.head_limit
    }

    /// What was found so far.
    pub closed spec fn found(&self) -> FoundView {
        FoundView { out: self.out@, emitted: self.emitted as nat, stopped: self.stopped }
    }

    /// The patterns of the search compile, and what was found has room.
    pub closed spec fn wf(&self) -> bool {
        &&& regex_problem(self.pattern@) is None
        &&& self.include_glob is Some ==> glob_problem(self.include_glob->0@) is None
        &&& self.emitted <= self.out@.len()
    }

    /// Begins a search; a pattern that does not compile is refused.
    pub fn start(
        pattern: String,
        include_glob: Option<String>,
        context: usize,
        head_limit: Option<usize>,
    ) -> (r: Result<GrepSearch, ToolError>)
        ensures
            regex_problem(pattern@) is Some ==> r is Err && r->Err_0@
                == ToolErrorView::InvalidInput(regex_problem(pattern@)->0),
            regex_problem(pattern@) is None && include_glob is Some && glob_problem(
                include_glob->0@,
            ) is Some ==> r is Err && r->Err_0@ == ToolErrorView::InvalidInput(
                glob_problem(include_glob->0@)->0,
            ),
            regex_problem(pattern@) is None && (include_glob is None || glob_problem(
                include_glob->0@,
            ) is None) ==> {
                &&& r is Ok
                &&& r->Ok_0.wf()
                &&& r->Ok_0.pattern() == pattern@
                &&& r->Ok_0.include_glob() == opt_view(include_glob)
                &&& r->Ok_0.context() == context
                &&& r->Ok_0.head_limit() == head_limit
                &&& r->Ok_0.found() == (FoundView {
                    out: Seq::empty(),
                    emitted: 0,
                    stopped: false,
                })
            },
    {
        if let Some(e) = check_regex(pattern.as_str()) {
            return Err(ToolError::InvalidInput(e));
        }
        if let Some(g) = &include_glob {
            if let Some(e) = check_glob(g.as_str()) {
                return Err(ToolError::InvalidInput(e));
            }
        }
        let r = GrepSearch {
            pattern,
            include_glob,
            context,
            head_limit,
            out: Vec::new(),
            emitted: 0,
            stopped: false,
        };
        assert(r.found().out == Seq::<char>::empty());
        Ok(r)
    }

    /// Whether the file with this name is searched.
    pub fn wants(&self, basename: &str) -> (r: bool)
        requires
            self.wf(),
        ensures
            r == (self.include_glob() is None || glob_matches(self.include_glob()->0, basename@)),
    {
        match &self.include_glob {
            None => true,
            Some(g) => match glob_is_match(g.as_str(), basename) {
                Some(b) => b,
                None => false,
            },
        }
    }

    /// Whether the search is over.
    pub fn is_over(&self) -> (r: bool)
        ensures
            r == self.found().stopped,
    {
        self.stopped
    }

    /// Whether as many matches were shown as may be.
    fn full(&self) -> (r: bool)
        ensures
            r == at_limit(self.found().emitted, self.head_limit()),
    {
        match self.head_limit {
            Some(n) => self.emitted >= n,
            None => false,
        }
    }

    /// Shows one line.
    fn show(&mut self, rel: &[char], i: usize, mark: char, line: &[char])
        requires
            old(self).wf(),
        ensures
            final(self).found() == (FoundView {
                out: old(self).found().out + shown_line(rel@, i as int, mark, line@),
                ..old(self).found()
            }),
            final(self).found().emitted < final(self).found().out.len(),
            final(self).pattern() == old(self).pattern(),
            final(self).include_glob() == old(self).include_glob(),
            final(self).context() == old(self).context(),
            final(self).head_limit() == old(self).head_limit(),
            final(self).wf(),
    {
        let ghost out0 = self.out@;
        push_all(&mut self.out, rel);
        self.out.push(':');
        let number = show_u128(i as u128 + 1);
        push_text(&mut self.out, number.as_str());
        self.out.push(mark);
        push_all(&mut self.out, line);
        self.out.push('\n');
        assert(self.out@ == out0 + shown_line(rel@, i as int, mark, line@));
    }

    /// Searches one more file; `hidden` is its content with the secrets hidden,
    /// of a file that holds secrets.
    pub fn add_file(&mut self, rel: &str, path: &str, content: String, hidden: String)
        requires
            old(self).wf(),
        ensures
            final(self).wf(),
            final(self).found() == after_file(
                old(self).found(),
                rel@,
                path@,
                content@,
                hidden@,
                old(self).pattern(),
                old(self).context(),
                old(self).head_limit(),
            ),
            final(self).pattern() == old(self).pattern(),
            final(self).include_glob() == old(self).include_glob(),
            final(self).context() == old(self).context(),
            final(self).head_limit() == old(self).head_limit(),
    {
        if self.stopped {
            return ;
        }
        let shown = show_content(path, content, hidden);
        let chars = to_chars(shown.as_str());
        let ls = split_lines(chars.as_slice());
        let rel_chars = to_chars(rel);
        if self.context == 0 {
            self.add_plain(rel_chars.as_slice(), &ls);
        } else {
            self.add_with_context(rel_chars.as_slice(), &ls);
        }
    }

    /// Whether a line matches.
    fn hit(&self, line: &[char]) -> (r: bool)
        requires
            self.wf(),
        ensures
            r == regex_finds(self.pattern(), line@),
    {
        let text = from_chars(line);
        match regex_is_match(self.pattern.as_str(), text.as_str()) {
            Some(b) => b,
            None => false,
        }
    }

    fn add_plain(&mut self, rel: &[char], ls: &Vec<Vec<char>>)
        requires
            old(self).wf(),
            !old(self).found().stopped,
        ensures
            final(self).wf(),
            final(self).found() == plain_to(
                old(self).found(),
                rel@,
                char_views(ls@),
                old(self).pattern(),
                old(self).head_limit(),
                ls@.len() as int,
            ),
            final(self).pattern() == old(self).pattern(),
            final(self).include_glob() == old(self).include_glob(),
            final(self).context() == old(self).context(),
            final(self).head_limit() == old(self).head_limit(),
    {
        let ghost before = self.found();
        let ghost all = char_views(ls@);
        let mut i: usize = 0;
        while i < ls.len()
            invariant
                i <= ls@.len(),
                all == char_views(ls@),
                before == old(self).found(),
                self.wf(),
                self.found() == plain_to(
                    before,
                    rel@,
                    all,
                    self.pattern(),
                    self.head_limit(),
                    i as int,
                ),
                self.pattern() == old(self).pattern(),
                self.include_glob() == old(self).include_glob(),
                self.context() == old(self).context(),
                self.head_limit() == old(self).head_limit(),
            decreases ls@.len() - i,
        {
            let line = ls[i].as_slice();
            assert(line@ == all[i as int]);
            if !self.stopped && self.hit(line) {
                if self.full() {
                    self.stopped = true;
                } else {
                    self.show(rel, i, ':', line);
                    let room: usize = self.out.len();
                    self.emitted = self.emitted + 1;
                }
            }
            i = i + 1;
        }
    }

    fn add_with_context(&mut self, rel: &[char], ls: &Vec<Vec<char>>)
        requires
            old(self).wf(),
            !old(self).found().stopped,
            old(self).context() > 0,
        ensures
            final(self).wf(),
            !final(self).found().stopped,
            ({
                let f = context_to(
                    FileView {
                        out: old(self).found().out,
                        emitted: old(self).found().emitted,
                        shown: false,
                        cut: false,
                    },
                    rel@,
                    char_views(ls@),
                    old(self).pattern(),
                    old(self).context() as int,
                    old(self).head_limit(),
                    ls@.len() as int,
                );
                &&& final(self).found().out == f.out
                &&& final(self).found().emitted == f.emitted
            }),
            final(self).pattern() == old(self).pattern(),
            final(self).include_glob() == old(self).include_glob(),
            final(self).context() == old(self).context(),
            final(self).head_limit() == old(self).head_limit(),
    {
        let ghost start = FileView {
            out: self.out@,
            emitted: self.emitted as nat,
            shown: false,
            cut: false,
        };
        let ghost all = char_views(ls@);
        let hits = self.hits(ls);
        let shown = near_hits(&hits, self.context);
        let n: usize = ls.len();
        let mut shown_any = false;
        let mut cut = false;
        let mut i: usize = 0;
        assert forall|k: int| 0 <= k < n implies #[trigger] shown@[k] == near(
            all,
            self.pattern(),
            self.context() as int,
            k,
        ) by {
            lemma_near(all, hits@, self.pattern(), self.context() as int, k);
        }
        while i < n
            invariant
                i <= n,
                n == ls@.len(),
                hits@.len() == n,
                shown@.len() == n,
                all == char_views(ls@),
                start == (FileView {
                    out: old(self).found().out,
                    emitted: old(self).found().emitted,
                    shown: false,
                    cut: false,
                }),
                self.wf(),
                !self.found().stopped,
                forall|k: int|
                    0 <= k < n ==> #[trigger] hits@[k] == regex_finds(self.pattern(), all[k]),
                forall|k: int|
                    0 <= k < n ==> #[trigger] shown@[k] == near(
                        all,
                        self.pattern(),
                        self.context() as int,
                        k,
                    ),
                context_to(
                    start,
                    rel@,
                    all,
                    self.pattern(),
                    self.context() as int,
                    self.head_limit(),
                    i as int,
                ) == (FileView {
                    out: self.found().out,
                    emitted: self.found().emitted,
                    shown: shown_any,
                    cut,
                }),
                shown_any ==> i > 0,
                self.pattern() == old(self).pattern(),
                self.include_glob() == old(self).include_glob(),
                self.context() == old(self).context(),
                self.head_limit() == old(self).head_limit(),
            decreases n - i,
        {
            let line = ls[i].as_slice();
            assert(line@ == all[i as int]);
            if !cut && shown[i] {
                if self.full() {
                    cut = true;
                } else {
                    if shown_any && !shown[i - 1] {
                        push_text(&mut self.out, "--\n");
                    }
                    shown_any = true;
                    let mark = if hits[i] {
                        ':'
                    } else {
                        '-'
                    };
                    self.show(rel, i, mark, line);
                    let room: usize = self.out.len();
                    if hits[i] {
                        self.emitted = self.emitted + 1;
                    }
                }
            }
            i = i + 1;
        }
    }

    /// Which lines match.
    fn hits(&self, ls: &Vec<Vec<char>>) -> (r: Vec<bool>)
        requires
            self.wf(),
        ensures
            r@.len() == ls@.len(),
            forall|k: int|
                0 <= k < ls@.len() ==> #[trigger] r@[k] == regex_finds(
                    self.pattern(),
                    char_views(ls@)[k],
                ),
    {
        let mut out: Vec<bool> = Vec::new();
        let mut i: usize = 0;
        while i < ls.len()
            invariant
                i <= ls@.len(),
                self.wf(),
                out@.len() == i,
                forall|k: int|
                    0 <= k < i ==> #[trigger] out@[k] == regex_finds(
                        self.pattern(),
                        char_views(ls@)[k],
                    ),
            decreases ls@.len() - i,
        {
            let b = self.hit(ls[i].as_slice());
            out.push(b);
            i = i + 1;
        }
        out
    }

    /// The result of the search.
    pub fn finish(self, max_output_bytes: usize) -> (r: ToolResult)
        ensures
            r@ == cut_result(self.found().out, max_output_bytes as int),
    {
        finish(from_chars(self.out.as_slice()), max_output_bytes)
    }
}

/// Some flag within `context` of index `i` is set.
spec fn near_flag(hits: Seq<bool>, context: int, i: int) -> bool {
    exists|j: int|
        0 <= j < hits.len() && i - context <= j <= i + context && #[trigger] hits[j]
}

proof fn lemma_near(ls: Seq<Seq<char>>, hits: Seq<bool>, pattern: Seq<char>, context: int, i: int)
    requires
        hits.len() == ls.len(),
        forall|k: int| 0 <= k < ls.len() ==> #[trigger] hits[k] == regex_finds(pattern, ls[k]),
    ensures
        near(ls, pattern, context, i) == near_flag(hits, context, i),
{
    if near(ls, pattern, context, i) {
        let j = choose|j: int|
            0 <= j < ls.len() && i - context <= j <= i + context && regex_finds(
                pattern,
                #[trigger] ls[j],
            );
        assert(hits[j]);
    }
    if near_flag(hits, context, i) {
        let j = choose|j: int|
            0 <= j < hits.len() && i - context <= j <= i + context && #[trigger] hits[j];
        assert(regex_finds(pattern, ls[j]));
    }
}

/// Which indices lie within `context` of a set flag: one pass forward with
/// the distance to the last set flag, one pass back with that to the next.
fn near_hits(hits: &Vec<bool>, context: usize) -> (r: Vec<bool>)
    ensures
        r@.len() == hits@.len(),
        forall|i: int|
            0 <= i < hits@.len() ==> #[trigger] r@[i] == near_flag(hits@, context as int, i),
{
    let n: usize = hits.len();
    let mut out: Vec<bool> = Vec::new();
    let mut last: Option<usize> = None;
    let mut i: usize = 0;
    while i < n
        invariant
            i <= n,
            n == hits@.len(),
            out@.len() == i,
            match last {
                Some(j) => j < i && hits@[j as int] && forall|k: int|
                    j < k < i ==> !#[trigger] hits@[k],
                None => forall|k: int| 0 <= k < i ==> !#[trigger] hits@[k],
            },
            forall|k: int|
                0 <= k < i ==> #[trigger] out@[k] == (exists|j: int|
                    k - context <= j <= k && 0 <= j < n && #[trigger] hits@[j]),
        decreases n - i,
    {
        if hits[i] {
            last = Some(i);
        }
        let close = match last {
            Some(j) => i - j <= context,
            None => false,
        };
        proof {
            if close {
                let j = last->0;
                assert(hits@[j as int] && i - context <= j <= i);
            } else {
                assert forall|j: int| i - context <= j <= i && 0 <= j < n implies !#[trigger] hits@[j] by {}
            }
        }
        out.push(close);
        i = i + 1;
    }
    let ghost forward = out@;
    let mut next: Option<usize> = None;
    let mut i: usize = n;
    while i > 0
        invariant
            i <= n,
            n == hits@.len(),
            out@.len() == n,
            forward.len() == n,
            forall|k: int|
                0 <= k < n ==> #[trigger] forward[k] == (exists|j: int|
                    k - context <= j <= k && 0 <= j < n && #[trigger] hits@[j]),
            match next {
                Some(j) => i <= j < n && hits@[j as int] && forall|k: int|
                    i <= k < j ==> !#[trigger] hits@[k],
                None => forall|k: int| i <= k < n ==> !#[trigger] hits@[k],
            },
            forall|k: int| 0 <= k < i ==> #[trigger] out@[k] == forward[k],
            forall|k: int|
                i <= k < n ==> #[trigger] out@[k] == near_flag(hits@, context as int, k),
        decreases i,
    {
        i = i - 1;
        if hits[i] {
            next = Some(i);
        }
        let close = match next {
            Some(j) => j - i <= context,
            None => false,
        };
        let both = out[i] || close;
        proof {
            assert(out@[i as int] == forward[i as int]);
            if close {
                let j = next->0;
                assert(hits@[j as int] && i - context <= j <= i + context);
                assert(near_flag(hits@, context as int, i as int));
            }
            if forward[i as int] {
                let j = choose|j: int|
                    i - context <= j <= i && 0 <= j < n && #[trigger] hits@[j];
                assert(hits@[j] && i - context <= j <= i + context);
                assert(near_flag(hits@, context as int, i as int));
            }
            if near_flag(hits@, context as int, i as int) {
                let j = choose|j: int|
                    0 <= j < hits@.len() && i - context <= j <= i + context && #[trigger] hits@[j];
                if j <= i {
                    assert(forward[i as int]);
                } else {
                    assert(close);
                }
            }
        }
        out.set(i, both);
    }
    out
}

/// No search shows more matches than its limit.
pub proof fn limit_is_kept(
    before: FoundView,
    rel: Seq<char>,
    path: Seq<char>,
    content: Seq<char>,
    hidden: Seq<char>,
    pattern: Seq<char>,
    context: usize,
    limit: usize,
)
    requires
        before.emitted <= limit,
    ensures
        after_file(before, rel, path, content, hidden, pattern, context, Some(limit)).emitted
            <= limit,
{
    let ls = lines(shown_content(path, content, hidden));
    lemma_plain_limit(before, rel, ls, pattern, limit, ls.len() as int);
    lemma_context_limit(
        FileView { out: before.out, emitted: before.emitted, shown: false, cut: false },
        rel,
        ls,
        pattern,
        context as int,
        limit,
        ls.len() as int,
    );
}

proof fn lemma_plain_limit(
    before: FoundView,
    rel: Seq<char>,
    ls: Seq<Seq<char>>,
    pattern: Seq<char>,
    limit: usize,
    n: int,
)
    requires
        before.emitted <= limit,
    ensures
        plain_to(before, rel, ls, pattern, Some(limit), n).emitted <= limit,
    decreases n,
{
    if n > 0 {
        lemma_plain_limit(before, rel, ls, pattern, limit, n - 1);
    }
}

proof fn lemma_context_limit(
    before: FileView,
    rel: Seq<char>,
    ls: Seq<Seq<char>>,
    pattern: Seq<char>,
    context: int,
    limit: usize,
    n: int,
)
    requires
        before.emitted <= limit,
    ensures
        context_to(before, rel, ls, pattern, context, Some(limit), n).emitted <= limit,
    decreases n,
{
    if n > 0 {
        lemma_context_limit(before, rel, ls, pattern, context, limit, n - 1);
    }
}

/// The lines that are not empty.
pub open spec fn non_empty(ls: Seq<Seq<char>>) -> Seq<Seq<char>>
    decreases ls.len(),
{
    if ls.len() == 0 {
        Seq::empty()
    } else {
        let init = non_empty(ls.drop_last());
        if ls.last().len() > 0 {
            init.push(ls.last())
        } else {
            init
        }
    }
}

/// The lines of a text that are not empty.
pub fn non_empty_lines(text: &str) -> (r: Vec<String>)
    ensures
        views(r@) == non_empty(lines(text@)),
{
    let chars = to_chars(text);
    let ls = split_lines(chars.as_slice());
    let ghost all = lines(text@);
    let mut out: Vec<String> = Vec::new();
    let mut i: usize = 0;
    assert(all.take(0) == Seq::<Seq<char>>::empty());
    assert(views(out@) == Seq::<Seq<char>>::empty());
    while i < ls.len()
        invariant
            i <= ls@.len(),
            all == char_views(ls@),
            views(out@) == non_empty(all.take(i as int)),
        decreases ls@.len() - i,
    {
        let ghost out0 = views(out@);
        assert(all.take(i + 1).drop_last() == all.take(i as int));
        assert(all.take(i + 1).last() == ls@[i as int]@);
        if ls[i].len() > 0 {
            out.push(from_chars(ls[i].as_slice()));
            assert(views(out@) == out0.push(ls@[i as int]@));
        }
        i = i + 1;
    }
    assert(all.take(all.len() as int) == all);
    out
}

/// A file to be searched.
#[derive(Debug)]
pub struct SearchedFile {
    /// The name it is shown under.
    pub rel: String,
    /// The last component of its path.
    pub basename: String,
    /// Its path.
    pub path: String,
    pub content: String,
    /// The content with its secrets hidden, of a file that holds secrets.
    pub hidden: String,
}

/// What a search has found in the first `n` files. A file whose name does not
/// match the name pattern is passed over.
pub open spec fn found_in(
    files: Seq<SearchedFile>,
    pattern: Seq<char>,
    include_glob: Option<Seq<char>>,
    context: usize,
    limit: Option<usize>,
    n: int,
) -> FoundView
    decreases n,
{
    if n <= 0 {
        FoundView { out: Seq::empty(), emitted: 0, stopped: false }
    } else {
        let f = found_in(files, pattern, include_glob, context, limit, n - 1);
        let file = files[n - 1];
        if include_glob is Some && !glob_matches(include_glob->0, file.basename@) {
            f
        } else {
            after_file(
                f,
                file.rel@,
                file.path@,
                file.content@,
                file.hidden@,
                pattern,
                context,
                limit,
            )
        }
    }
}

/// The `fs.grep` tool.
#[derive(Debug, Clone, Copy, Default)]
pub struct FsGrep {}

impl FsGrep {
    pub fn new() -> Self {
        FsGrep {  }
    }

    pub fn name(&self) -> (r: &'static str)
        ensures
            r@ == "fs.grep"@,
    {
        "fs.grep"
    }

    pub fn side_effect(&self) -> (r: SideEffect)
        ensures
            r == SideEffect::Nothing,
    {
        SideEffect::Nothing
    }

    /// Searches the files in order.
    pub fn execute(
        &self,
        pattern: String,
        include_glob: Option<String>,
        context: usize,
        head_limit: Option<usize>,
        files: Vec<SearchedFile>,
        max_output_bytes: usize,
    ) -> (r: Result<ToolResult, ToolError>)
        ensures
            ({
                let g = opt_view(include_glob);
                if regex_problem(pattern@) is Some {
                    r is Err && r->Err_0@ == ToolErrorView::InvalidInput(
                        regex_problem(pattern@)->0,
                    )
                } else if g is Some && glob_problem(g->0) is Some {
                    r is Err && r->Err_0@ == ToolErrorView::InvalidInput(glob_problem(g->0)->0)
                } else {
                    r is Ok && r->Ok_0@ == cut_result(
                        found_in(
                            files@,
                            pattern@,
                            g,
                            context,
                            head_limit,
                            files@.len() as int,
                        ).out,
                        max_output_bytes as int,
                    )
                }
            }),
    {
        let ghost p = pattern@;
        let ghost g = opt_view(include_glob);
        let mut search = match GrepSearch::start(pattern, include_glob, context, head_limit) {
            Ok(s) => s,
            Err(e) => {
                return Err(e);
            },
        };
        let mut i: usize = 0;
        while i < files.len()
            invariant
                i <= files@.len(),
                search.wf(),
                search.pattern() == p,
                search.include_glob() == g,
                search.context() == context,
                search.head_limit() == head_limit,
                search.found() == found_in(files@, p, g, context, head_limit, i as int),
            decreases files@.len() - i,
        {
            let f = &files[i];
            if search.wants(f.basename.as_str()) {
                search.add_file(
                    f.rel.as_str(),
                    f.path.as_str(),
                    f.content.clone(),
                    f.hidden.clone(),
                );
            }
            i = i + 1;
        }
        Ok(search.finish(max_output_bytes))
    }

    /// The lines found are shown as a list, no lines as text.
    pub fn render_output(&self, result: &ToolResult) -> (r: RenderIntent)
        ensures
            ({
                let found = non_empty(lines(result.content@));
                if found.len() == 0 {
                    r is Text
                } else {
                    r matches RenderIntent::List { items, kind } && views(items@) == found && kind
                        == ListKind::Generic
                }
            }),
    {
        let items = non_empty_lines(result.content.as_str());
        assert(views(items@).len() == items@.len());
        if items.len() == 0 {
            RenderIntent::Text
        } else {
            RenderIntent::List { items, kind: ListKind::Generic }
        }
    }
}

/// The paths that a pattern matches.
pub open spec fn matching(paths: Seq<Seq<char>>, pattern: Seq<char>) -> Seq<Seq<char>>
    decreases paths.len(),
{
    if paths.len() == 0 {
        Seq::empty()
    } else {
        let init = matching(paths.drop_last(), pattern);
        if glob_matches(pattern, paths.last()) {
            init.push(paths.last())
        } else {
            init
        }
    }
}

/// The `fs.glob` tool.
#[derive(Debug, Clone, Copy, Default)]
pub struct FsGlob {}

impl FsGlob {
    pub fn new() -> Self {
        FsGlob {  }
    }

    pub fn name(&self) -> (r: &'static str)
        ensures
            r@ == "fs.glob"@,
    {
        "fs.glob"
    }

    pub fn side_effect(&self) -> (r: SideEffect)
        ensures
            r == SideEffect::Nothing,
    {
        SideEffect::Nothing
    }

    /// Refuses a pattern that does not compile, before any directory is read.
    pub fn check(&self, pattern: &str) -> (r: Result<(), ToolError>)
        ensures
            match glob_problem(pattern@) {
                Some(e) => r is Err && r->Err_0@ == ToolErrorView::InvalidInput(e),
                None => r is Ok,
            },
    {
        match check_glob(pattern) {
            Some(e) => Err(ToolError::InvalidInput(e)),
            None => Ok(()),
        }
    }

    /// Lists the paths that the pattern matches, one to a line, in the order
    /// in which they come.
    pub fn execute(&self, pattern: &str, paths: &Vec<String>, max_output_bytes: usize) -> (r:
        Result<ToolResult, ToolError>)
        ensures
            match glob_problem(pattern@) {
                Some(e) => r is Err && r->Err_0@ == ToolErrorView::InvalidInput(e),
                None => r is Ok && r->Ok_0@ == cut_result(
                    joined(matching(views(paths@), pattern@), seq!['\n']),
                    max_output_bytes as int,
                ),
            },
    {
        if let Some(e) = check_glob(pattern) {
            return Err(ToolError::InvalidInput(e));
        }
        let ghost all = views(paths@);
        let mut out: Vec<String> = Vec::new();
        let mut i: usize = 0;
        assert(all.take(0) == Seq::<Seq<char>>::empty());
        assert(views(out@) == Seq::<Seq<char>>::empty());
        while i < paths.len()
            invariant
                i <= paths@.len(),
                all == views(paths@),
                glob_problem(pattern@) is None,
                views(out@) == matching(all.take(i as int), pattern@),
            decreases paths@.len() - i,
        {
            let ghost out0 = views(out@);
            assert(all.take(i + 1).drop_last() == all.take(i as int));
            assert(all.take(i + 1).last() == paths@[i as int]@);
            let matched = match glob_is_match(pattern, paths[i].as_str()) {
                Some(b) => b,
                None => false,
            };
            if matched {
                out.push(paths[i].clone());
                assert(views(out@) == out0.push(paths@[i as int]@));
            }
            i = i + 1;
        }
        assert(all.take(all.len() as int) == all);
        proof {
            reveal_strlit("\n");
            assert("\n"@ == seq!['\n']);
        }
        Ok(finish(join(&out, "\n"), max_output_bytes))
    }

    /// The paths are shown as a list of files.
    pub fn render_output(&self, result: &ToolResult) -> (r: RenderIntent)
        ensures
            r matches RenderIntent::List { items, kind } && views(items@) == non_empty(
                lines(result.content@),
            ) && kind == ListKind::Files,
    {
        let items = non_empty_lines(result.content.as_str());
        RenderIntent::List { items, kind: ListKind::Files }
    }
}

/// How a line of a file is shown: the file, the number of the line, a mark and
/// the line.
pub open spec fn row(rel: Seq<char>, i: int, mark: Seq<char>, line: Seq<char>) -> Seq<char> {
    rel + ":"@ + decimal((i + 1) as nat) + mark + line + "\n"@
}

proof fn lemma_row(rel: Seq<char>, i: int, line: Seq<char>)
    ensures
        shown_line(rel, i, ':', line) == row(rel, i, ":"@, line),
        shown_line(rel, i, '-', line) == row(rel, i, "-"@, line),
{
    reveal_strlit(":");
    reveal_strlit("-");
    reveal_strlit("\n");
    assert(shown_line(rel, i, ':', line) == row(rel, i, ":"@, line));
    assert(shown_line(rel, i, '-', line) == row(rel, i, "-"@, line));
}

/// The rows of the first `m` picked lines, one after the other.
pub open spec fn plain_rows(
    rel: Seq<char>,
    ls: Seq<Seq<char>>,
    picked: Seq<int>,
    m: int,
) -> Seq<char> {
    Seq::new(m as nat, |k: int| row(rel, picked[k], ":"@, ls[picked[k]])).flatten()
}

proof fn lemma_plain_rows(rel: Seq<char>, ls: Seq<Seq<char>>, picked: Seq<int>, m: int)
    requires
        0 < m <= picked.len(),
    ensures
        plain_rows(rel, ls, picked, m) == plain_rows(rel, ls, picked, m - 1) + row(
            rel,
            picked[m - 1],
            ":"@,
            ls[picked[m - 1]],
        ),
{
    let f = |k: int| row(rel, picked[k], ":"@, ls[picked[k]]);
    let init = Seq::new((m - 1) as nat, f);
    assert(Seq::new(m as nat, f) == init.push(f(m - 1)));
    init.lemma_flatten_push(f(m - 1));
}

proof fn lemma_plain_rows_prefix(
    rel: Seq<char>,
    ls: Seq<Seq<char>>,
    a: Seq<int>,
    b: Seq<int>,
    m: int,
)
    requires
        0 <= m <= a.len(),
        m <= b.len(),
        forall|k: int| 0 <= k < m ==> #[trigger] a[k] == b[k],
    ensures
        plain_rows(rel, ls, a, m) == plain_rows(rel, ls, b, m),
{
    assert(Seq::new(m as nat, |k: int| row(rel, a[k], ":"@, ls[a[k]])) == Seq::new(
        m as nat,
        |k: int| row(rel, b[k], ":"@, ls[b[k]]),
    ));
}

/// As many of `n` further matches as there is room for.
pub open spec fn within(n: int, emitted: nat, limit: Option<usize>) -> int {
    if limit is Some && emitted + n > limit->0 {
        if emitted > limit->0 {
            0
        } else {
            limit->0 - emitted
        }
    } else {
        n
    }
}

proof fn lemma_plain_to(
    before: FoundView,
    rel: Seq<char>,
    ls: Seq<Seq<char>>,
    pattern: Seq<char>,
    limit: Option<usize>,
    picked: Seq<int>,
    n: int,
)
    requires
        0 <= n <= ls.len(),
        !before.stopped,
        picks(picked, n, |i: int| regex_finds(pattern, ls[i])),
    ensures
        ({
            let m = within(picked.len() as int, before.emitted, limit);
            plain_to(before, rel, ls, pattern, limit, n) == (FoundView {
                out: before.out + plain_rows(rel, ls, picked, m),
                emitted: (before.emitted + m) as nat,
                stopped: m < picked.len(),
            })
        }),
    decreases n,
{
    let wanted = |i: int| regex_finds(pattern, ls[i]);
    if n == 0 {
        lemma_picks_none(picked, n, wanted);
        assert(Seq::new(0, |k: int| row(rel, picked[k], ":"@, ls[picked[k]])) == Seq::<
            Seq<char>,
        >::empty());
        assert(plain_rows(rel, ls, picked, 0) == Seq::<char>::empty());
        assert(before.out + Seq::<char>::empty() == before.out);
    } else {
        lemma_picks_step(picked, n, wanted);
        if wanted(n - 1) {
            let init = picked.drop_last();
            lemma_plain_to(before, rel, ls, pattern, limit, init, n - 1);
            let m0 = within(init.len() as int, before.emitted, limit);
            let m = within(picked.len() as int, before.emitted, limit);
            lemma_plain_rows_prefix(rel, ls, init, picked, m0);
            if m0 == init.len() && m == picked.len() {
                lemma_plain_rows(rel, ls, picked, m);
                lemma_row(rel, n - 1, ls[n - 1]);
                assert(before.out + (plain_rows(rel, ls, picked, m0) + row(
                    rel,
                    n - 1,
                    ":"@,
                    ls[n - 1],
                )) == before.out + plain_rows(rel, ls, picked, m0) + row(
                    rel,
                    n - 1,
                    ":"@,
                    ls[n - 1],
                ));
            }
        } else {
            lemma_plain_to(before, rel, ls, pattern, limit, picked, n - 1);
        }
    }
}

/// Without context a search shows exactly the lines of a file that match, in
/// order and each with its number, until as many as may be are shown; a
/// further match ends the search.
pub proof fn plain_search_shows_matching_lines(
    search: &mut GrepSearch,
    rel: &str,
    path: &str,
    content: String,
    hidden: String,
    shown: String,
    picked: Seq<int>,
)
    requires
        old(search).wf(),
        old(search).context() == 0,
        !old(search).found().stopped,
        call_ensures(GrepSearch::add_file, (search, rel, path, content, hidden), ()),
        call_ensures(show_content, (path, content, hidden), shown),
        picks(
            picked,
            lines(shown@).len() as int,
            |i: int| regex_finds(old(search).pattern(), lines(shown@)[i]),
        ),
    ensures
        ({
            let room = within(
                picked.len() as int,
                old(search).found().emitted,
                old(search).head_limit(),
            );
            &&& final(search).found().out == old(search).found().out + Seq::new(
                room as nat,
                |k: int| row(rel@, picked[k], ":"@, lines(shown@)[picked[k]]),
            ).flatten()
            &&& final(search).found().emitted == old(search).found().emitted + room
            &&& final(search).found().stopped == (room < picked.len())
        }),
{
    let ls = lines(shown@);
    lemma_plain_to(
        old(search).found(),
        rel@,
        ls,
        old(search).pattern(),
        old(search).head_limit(),
        picked,
        ls.len() as int,
    );
}

/// How many of the picked lines match.
pub open spec fn hits_among(ls: Seq<Seq<char>>, pattern: Seq<char>, picked: Seq<int>) -> nat
    decreases picked.len(),
{
    if picked.len() == 0 {
        0
    } else {
        hits_among(ls, pattern, picked.drop_last()) + if regex_finds(pattern, ls[picked.last()]) {
            1nat
        } else {
            0
        }
    }
}

/// How the line picked as number `k` is shown: with `--` before it where it
/// does not follow the one picked before it.
pub open spec fn context_row(
    rel: Seq<char>,
    ls: Seq<Seq<char>>,
    pattern: Seq<char>,
    picked: Seq<int>,
    k: int,
) -> Seq<char> {
    let i = picked[k];
    (if k > 0 && picked[k - 1] != i - 1 {
        "--\n"@
    } else {
        Seq::<char>::empty()
    }) + row(
        rel,
        i,
        if regex_finds(pattern, ls[i]) {
            ":"@
        } else {
            "-"@
        },
        ls[i],
    )
}

/// The first `m` picked lines as they are shown, one after the other.
pub open spec fn context_rows(
    rel: Seq<char>,
    ls: Seq<Seq<char>>,
    pattern: Seq<char>,
    picked: Seq<int>,
    m: int,
) -> Seq<char> {
    Seq::new(m as nat, |k: int| context_row(rel, ls, pattern, picked, k)).flatten()
}

proof fn lemma_context_rows(
    rel: Seq<char>,
    ls: Seq<Seq<char>>,
    pattern: Seq<char>,
    picked: Seq<int>,
    m: int,
)
    requires
        0 < m <= picked.len(),
    ensures
        context_rows(rel, ls, pattern, picked, m) == context_rows(rel, ls, pattern, picked, m - 1)
            + context_row(rel, ls, pattern, picked, m - 1),
{
    let f = |k: int| context_row(rel, ls, pattern, picked, k);
    let init = Seq::new((m - 1) as nat, f);
    assert(Seq::new(m as nat, f) == init.push(f(m - 1)));
    init.lemma_flatten_push(f(m - 1));
}

proof fn lemma_context_rows_prefix(
    rel: Seq<char>,
    ls: Seq<Seq<char>>,
    pattern: Seq<char>,
    a: Seq<int>,
    b: Seq<int>,
    m: int,
)
    requires
        0 <= m <= a.len(),
        m <= b.len(),
        forall|k: int| 0 <= k < m ==> #[trigger] a[k] == b[k],
    ensures
        context_rows(rel, ls, pattern, a, m) == context_rows(rel, ls, pattern, b, m),
{
    let x = Seq::new(m as nat, |k: int| context_row(rel, ls, pattern, a, k));
    let y = Seq::new(m as nat, |k: int| context_row(rel, ls, pattern, b, k));
    assert forall|k: int| 0 <= k < m implies x[k] == y[k] by {
        assert(a[k] == b[k]);
        if k > 0 {
            assert(a[k - 1] == b[k - 1]);
        }
    }
    assert(x == y);
}

/// `m` is the number of picked lines that are shown: they are shown one by one
/// until as many matches were shown as may be.
pub open spec fn shown_until_full(
    ls: Seq<Seq<char>>,
    pattern: Seq<char>,
    picked: Seq<int>,
    emitted: nat,
    limit: Option<usize>,
    m: int,
) -> bool {
    &&& 0 <= m <= picked.len()
    &&& m < picked.len() ==> limit is Some && emitted + hits_among(ls, pattern, picked.take(m))
        >= limit->0
    &&& forall|k: int|
        0 <= k < m ==> limit is None || emitted + hits_among(
            ls,
            pattern,
            #[trigger] picked.take(k),
        ) < limit->0
}

/// The number picked before the last one is the next lower one exactly where
/// that is wanted.
proof fn lemma_previous(picked: Seq<int>, n: int, wanted: spec_fn(int) -> bool)
    requires
        picks(picked, n, wanted),
        picked.len() >= 2,
        picked.last() == n - 1,
    ensures
        (picked[picked.len() - 2] == n - 2) == wanted(n - 2),
{
    let m = picked.len() as int;
    assert(picked[m - 2] < picked[m - 1]);
    assert(wanted(picked[m - 2]));
    assert(0 <= picked[m - 2]);
    if wanted(n - 2) {
        assert(picked.contains(n - 2));
        let k = choose|k: int| 0 <= k < picked.len() && picked[k] == n - 2;
        if k < m - 2 {
            assert(picked[k] < picked[m - 2]);
        }
    }
}

#[verifier::spinoff_prover]
#[verifier::rlimit(50)]
proof fn lemma_context_to(
    before: FileView,
    rel: Seq<char>,
    ls: Seq<Seq<char>>,
    pattern: Seq<char>,
    context: int,
    limit: Option<usize>,
    picked: Seq<int>,
    n: int,
) -> (m: int)
    requires
        0 <= n <= ls.len(),
        !before.cut,
        !before.shown,
        picks(picked, n, |i: int| near(ls, pattern, context, i)),
    ensures
        shown_until_full(ls, pattern, picked, before.emitted, limit, m),
        context_to(before, rel, ls, pattern, context, limit, n) == (FileView {
            out: before.out + context_rows(rel, ls, pattern, picked, m),
            emitted: before.emitted + hits_among(ls, pattern, picked.take(m)),
            shown: m > 0,
            cut: m < picked.len(),
        }),
    decreases n,
{
    let wanted = |i: int| near(ls, pattern, context, i);
    if n == 0 {
        lemma_picks_none(picked, n, wanted);
        assert(Seq::new(0, |k: int| context_row(rel, ls, pattern, picked, k)) == Seq::<
            Seq<char>,
        >::empty());
        assert(before.out + Seq::<char>::empty() == before.out);
        assert(picked.take(0) == Seq::<int>::empty());
        0
    } else {
        lemma_picks_step(picked, n, wanted);
        if wanted(n - 1) {
            let init = picked.drop_last();
            let m0 = lemma_context_to(
                before,
                rel,
                ls,
                pattern,
                context,
                limit,
                init,
                n - 1,
            );
            lemma_context_rows_prefix(rel, ls, pattern, init, picked, m0);
            assert(init.take(m0) == picked.take(m0));
            assert forall|k: int| 0 <= k < m0 implies limit is None || before.emitted + hits_among(
                ls,
                pattern,
                #[trigger] picked.take(k),
            ) < limit->0 by {
                assert(init.take(k) == picked.take(k));
            }
            let f = context_to(before, rel, ls, pattern, context, limit, n - 1);
            if m0 < init.len() {
                m0
            } else if at_limit(f.emitted, limit) {
                m0
            } else {
                let m = picked.len() as int;
                lemma_context_rows(rel, ls, pattern, picked, m);
                lemma_row(rel, n - 1, ls[n - 1]);
                assert(picked.take(m) == picked);
                assert(picked.drop_last() == picked.take(m0));
                if m0 > 0 {
                    lemma_previous(picked, n, wanted);
                    assert(wanted(n - 2) == near(ls, pattern, context, n - 2));
                }
                let rows = context_rows(rel, ls, pattern, picked, m0);
                let mark = if regex_finds(pattern, ls[n - 1]) {
                    ":"@
                } else {
                    "-"@
                };
                let line = row(rel, n - 1, mark, ls[n - 1]);
                assert(Seq::<char>::empty() + line == line);
                assert((before.out + rows) + "--\n"@ + line == before.out + (rows + ("--\n"@
                    + line)));
                assert((before.out + rows) + line == before.out + (rows + line));
                m
            }
        } else {
            lemma_context_to(before, rel, ls, pattern, context, limit, picked, n - 1)
        }
    }
}

/// With context a search shows exactly the lines of a file within so many
/// lines of a match, in order, a match with `:` and another line with `-`, and
/// parts lines that do not adjoin by `--`, until as many matches are shown as
/// may be.
pub proof fn context_search_shows_lines_near_matches(
    search: &mut GrepSearch,
    rel: &str,
    path: &str,
    content: String,
    hidden: String,
    shown: String,
    picked: Seq<int>,
)
    requires
        old(search).wf(),
        old(search).context() > 0,
        !old(search).found().stopped,
        call_ensures(GrepSearch::add_file, (search, rel, path, content, hidden), ()),
        call_ensures(show_content, (path, content, hidden), shown),
        picks(
            picked,
            lines(shown@).len() as int,
            |i: int|
                exists|j: int|
                    0 <= j < lines(shown@).len() && j - i <= old(search).context() && i - j <= old(search).context() && regex_finds(
                        old(search).pattern(),
                        #[trigger] lines(shown@)[j],
                    ),
        ),
    ensures
        exists|m: int|
            {
                &&& #[trigger] shown_until_full(
                    lines(shown@),
                    old(search).pattern(),
                    picked,
                    old(search).found().emitted,
                    old(search).head_limit(),
                    m,
                )
                &&& final(search).found().out == old(search).found().out + Seq::new(
                    m as nat,
                    |k: int|
                        context_row(rel@, lines(shown@), old(search).pattern(), picked, k),
                ).flatten()
                &&& final(search).found().emitted == old(search).found().emitted + hits_among(
                    lines(shown@),
                    old(search).pattern(),
                    picked.take(m),
                )
                &&& !final(search).found().stopped
            },
{
    let ls = lines(shown@);
    let p = old(search).pattern();
    let c = old(search).context() as int;
    let want = |i: int| near(ls, p, c, i);
    let given = |i: int|
        exists|j: int|
            0 <= j < ls.len() && j - i <= c && i - j <= c && regex_finds(p, #[trigger] ls[j]);
    assert forall|i: int| #[trigger] want(i) == given(i) by {}
    assert(picks(picked, ls.len() as int, want)) by {
        assert(picks(picked, ls.len() as int, given));
        assert forall|i: int| 0 <= i < ls.len() && #[trigger] want(i) implies picked.contains(i) by {
            assert(given(i));
        }
        assert forall|a: int| 0 <= a < picked.len() implies 0 <= #[trigger] picked[a] < ls.len()
            && want(picked[a]) by {
            assert(given(picked[a]));
        }
    }
    let m = lemma_context_to(
        FileView {
            out: old(search).found().out,
            emitted: old(search).found().emitted,
            shown: false,
            cut: false,
        },
        rel@,
        ls,
        p,
        c,
        old(search).head_limit(),
        picked,
        ls.len() as int,
    );
    assert(shown_until_full(ls, p, picked, old(search).found().emitted, old(search).head_limit(), m));
}

/// Without a limit what one file shows does not depend on the files before it.
proof fn lemma_file_adds(
    before: FoundView,
    rel: Seq<char>,
    path: Seq<char>,
    content: Seq<char>,
    hidden: Seq<char>,
    pattern: Seq<char>,
    context: usize,
)
    requires
        !before.stopped,
    ensures
        ({
            let none = FoundView { out: Seq::empty(), emitted: 0, stopped: false };
            let alone = after_file(none, rel, path, content, hidden, pattern, context, None);
            let after = after_file(before, rel, path, content, hidden, pattern, context, None);
            &&& after.out == before.out + alone.out
            &&& !after.stopped
            &&& !alone.stopped
        }),
{
    let none = FoundView { out: Seq::empty(), emitted: 0, stopped: false };
    let ls = lines(shown_content(path, content, hidden));
    let n = ls.len() as int;
    if context == 0 {
        let wanted = |i: int| regex_finds(pattern, ls[i]);
        let picked = picked_of(n, wanted);
        lemma_picked_of(n, wanted);
        lemma_plain_to(none, rel, ls, pattern, None, picked, n);
        lemma_plain_to(before, rel, ls, pattern, None, picked, n);
        let rows = plain_rows(rel, ls, picked, picked.len() as int);
        assert(Seq::<char>::empty() + rows == rows);
    } else {
        let wanted = |i: int| near(ls, pattern, context as int, i);
        let picked = picked_of(n, wanted);
        lemma_picked_of(n, wanted);
        let a = lemma_context_to(
            FileView { out: none.out, emitted: 0, shown: false, cut: false },
            rel,
            ls,
            pattern,
            context as int,
            None,
            picked,
            n,
        );
        let b = lemma_context_to(
            FileView { out: before.out, emitted: before.emitted, shown: false, cut: false },
            rel,
            ls,
            pattern,
            context as int,
            None,
            picked,
            n,
        );
        assert(a == picked.len() && b == picked.len());
        let rows = context_rows(rel, ls, pattern, picked, picked.len() as int);
        assert(Seq::<char>::empty() + rows == rows);
    }
}

proof fn lemma_never_stopped(
    files: Seq<SearchedFile>,
    pattern: Seq<char>,
    glob: Option<Seq<char>>,
    context: usize,
    n: int,
)
    requires
        0 <= n <= files.len(),
    ensures
        !found_in(files, pattern, glob, context, None, n).stopped,
    decreases n,
{
    if n > 0 {
        lemma_never_stopped(files, pattern, glob, context, n - 1);
        let f = found_in(files, pattern, glob, context, None, n - 1);
        let file = files[n - 1];
        lemma_file_adds(
            f,
            file.rel@,
            file.path@,
            file.content@,
            file.hidden@,
            pattern,
            context,
        );
    }
}

proof fn lemma_same_files(
    a: Seq<SearchedFile>,
    b: Seq<SearchedFile>,
    pattern: Seq<char>,
    glob: Option<Seq<char>>,
    context: usize,
    limit: Option<usize>,
    n: int,
)
    requires
        n <= a.len(),
        n <= b.len(),
        forall|k: int| 0 <= k < n ==> #[trigger] a[k] == b[k],
    ensures
        found_in(a, pattern, glob, context, limit, n) == found_in(
            b,
            pattern,
            glob,
            context,
            limit,
            n,
        ),
    decreases n,
{
    if n > 0 {
        lemma_same_files(a, b, pattern, glob, context, limit, n - 1);
        assert(a[n - 1] == b[n - 1]);
    }
}

/// Without a limit the files are searched one after the other and each by
/// itself: what is found in them all is what is found in all but the last and,
/// behind it, what is found in the last.
pub proof fn files_are_searched_in_turn(
    tool: &FsGrep,
    pattern: String,
    glob: Option<String>,
    context: usize,
    max: usize,
    files: Vec<SearchedFile>,
    fewer: Vec<SearchedFile>,
    last: Vec<SearchedFile>,
    all: Result<ToolResult, ToolError>,
    first: Result<ToolResult, ToolError>,
    rest: Result<ToolResult, ToolError>,
)
    requires
        files@ == fewer@ + last@,
        last@.len() == 1,
        call_ensures(FsGrep::execute, (tool, pattern, glob, context, None::<usize>, files, max), all),
        call_ensures(
            FsGrep::execute,
            (tool, pattern, glob, context, None::<usize>, fewer, max),
            first,
        ),
        call_ensures(
            FsGrep::execute,
            (tool, pattern, glob, context, None::<usize>, last, max),
            rest,
        ),
        all is Ok,
        !all->Ok_0.truncated,
        first is Ok ==> !first->Ok_0.truncated,
        rest is Ok ==> !rest->Ok_0.truncated,
    ensures
        first is Ok,
        rest is Ok,
        all->Ok_0.content@ == first->Ok_0.content@ + rest->Ok_0.content@,
        glob is Some && !glob_matches(glob->0@, last@[0].basename@) ==> rest->Ok_0.content@.len()
            == 0,
{
    let p = pattern@;
    let g = opt_view(glob);
    let n = fewer@.len() as int;
    assert forall|k: int| 0 <= k < n implies #[trigger] files@[k] == fewer@[k] by {}
    lemma_same_files(files@, fewer@, p, g, context, None, n);
    lemma_never_stopped(fewer@, p, g, context, n);
    let f = last@[0];
    assert(files@[n] == f);
    let before = found_in(fewer@, p, g, context, None, n);
    lemma_file_adds(before, f.rel@, f.path@, f.content@, f.hidden@, p, context);
    assert(found_in(last@, p, g, context, None, 0) == (FoundView {
        out: Seq::empty(),
        emitted: 0,
        stopped: false,
    }));
    assert(before.out + Seq::<char>::empty() == before.out);
}

proof fn lemma_matching_picks(
    paths: Seq<Seq<char>>,
    pattern: Seq<char>,
    picked: Seq<int>,
)
    requires
        picks(picked, paths.len() as int, |i: int| glob_matches(pattern, paths[i])),
    ensures
        matching(paths, pattern) == Seq::new(picked.len(), |k: int| paths[picked[k]]),
    decreases paths.len(),
{
    let n = paths.len() as int;
    let wanted = |i: int| glob_matches(pattern, paths[i]);
    if n == 0 {
        lemma_picks_none(picked, n, wanted);
        assert(Seq::new(picked.len(), |k: int| paths[picked[k]]) == Seq::<Seq<char>>::empty());
    } else {
        lemma_picks_step(picked, n, wanted);
        let init = paths.drop_last();
        let fewer = if wanted(n - 1) {
            picked.drop_last()
        } else {
            picked
        };
        let narrow = |i: int| glob_matches(pattern, init[i]);
        assert(picks(fewer, n - 1, narrow)) by {
            assert(picks(fewer, n - 1, wanted));
            assert forall|i: int| 0 <= i < n - 1 && #[trigger] narrow(i) implies fewer.contains(
                i,
            ) by {
                assert(wanted(i));
            }
            assert forall|a: int| 0 <= a < fewer.len() implies 0 <= #[trigger] fewer[a] < n - 1
                && narrow(fewer[a]) by {
                assert(wanted(fewer[a]));
            }
        }
        lemma_matching_picks(init, pattern, fewer);
        assert forall|k: int| 0 <= k < fewer.len() implies #[trigger] init[fewer[k]]
            == paths[fewer[k]] by {
            assert(0 <= fewer[k] < n - 1);
        }
        assert(matching(paths, pattern) == Seq::new(picked.len(), |k: int| paths[picked[k]]));
    }
}

/// The paths that match are listed, all of them and no other, in the order in
/// which they come and one to a line.
pub proof fn glob_lists_the_matching_paths(
    tool: &FsGlob,
    pattern: &str,
    paths: &Vec<String>,
    max: usize,
    picked: Seq<int>,
    r: Result<ToolResult, ToolError>,
)
    requires
        call_ensures(FsGlob::execute, (tool, pattern, paths, max), r),
        r is Ok,
        !r->Ok_0.truncated,
        picks(picked, paths@.len() as int, |i: int| glob_matches(pattern@, paths@[i]@)),
    ensures
        r->Ok_0.content@ == joined(
            Seq::new(picked.len(), |k: int| paths@[picked[k]]@),
            seq!['\n'],
        ),
        !r->Ok_0.is_error,
{
    let all = views(paths@);
    let given = |i: int| glob_matches(pattern@, paths@[i]@);
    let want = |i: int| glob_matches(pattern@, all[i]);
    assert(picks(picked, all.len() as int, want)) by {
        assert(picks(picked, paths@.len() as int, given));
        assert forall|i: int| 0 <= i < all.len() && #[trigger] want(i) implies picked.contains(
            i,
        ) by {
            assert(given(i));
        }
        assert forall|a: int| 0 <= a < picked.len() implies 0 <= #[trigger] picked[a] < all.len()
            && want(picked[a]) by {
            assert(given(picked[a]));
        }
    }
    lemma_matching_picks(all, pattern@, picked);
    let x = Seq::new(picked.len(), |k: int| all[picked[k]]);
    let y = Seq::new(picked.len(), |k: int| paths@[picked[k]]@);
    assert forall|k: int| 0 <= k < picked.len() implies x[k] == y[k] by {
        assert(0 <= picked[k] < all.len());
    }
    assert(x == y);
}

proof fn lemma_non_empty_picks(ls: Seq<Seq<char>>, picked: Seq<int>)
    requires
        picks(picked, ls.len() as int, |i: int| ls[i].len() > 0),
    ensures
        non_empty(ls) == Seq::new(picked.len(), |k: int| ls[picked[k]]),
    decreases ls.len(),
{
    let n = ls.len() as int;
    let wanted = |i: int| ls[i].len() > 0;
    if n == 0 {
        lemma_picks_none(picked, n, wanted);
        assert(Seq::new(picked.len(), |k: int| ls[picked[k]]) == Seq::<Seq<char>>::empty());
    } else {
        lemma_picks_step(picked, n, wanted);
        let init = ls.drop_last();
        let fewer = if wanted(n - 1) {
            picked.drop_last()
        } else {
            picked
        };
        let narrow = |i: int| init[i].len() > 0;
        assert(picks(fewer, n - 1, narrow)) by {
            assert(picks(fewer, n - 1, wanted));
            assert forall|i: int| 0 <= i < n - 1 && #[trigger] narrow(i) implies fewer.contains(
                i,
            ) by {
                assert(wanted(i));
            }
            assert forall|a: int| 0 <= a < fewer.len() implies 0 <= #[trigger] fewer[a] < n - 1
                && narrow(fewer[a]) by {
                assert(wanted(fewer[a]));
            }
        }
        lemma_non_empty_picks(init, fewer);
        assert forall|k: int| 0 <= k < fewer.len() implies #[trigger] init[fewer[k]]
            == ls[fewer[k]] by {
            assert(0 <= fewer[k] < n - 1);
        }
        assert(non_empty(ls) == Seq::new(picked.len(), |k: int| ls[picked[k]]));
    }
}

/// What a search found is shown as its lines that are not empty, all of them
/// in order; where there is none, as text.
pub proof fn found_lines_are_the_list(
    tool: &FsGrep,
    result: &ToolResult,
    r: RenderIntent,
    picked: Seq<int>,
)
    requires
        call_ensures(FsGrep::render_output, (tool, result), r),
        picks(
            picked,
            lines(result.content@).len() as int,
            |i: int| lines(result.content@)[i].len() > 0,
        ),
    ensures
        r is Text == (picked.len() == 0),
        r is Text || r is List,
        r matches RenderIntent::List { items, kind } ==> {
            &&& items@.len() == picked.len()
            &&& forall|k: int|
                0 <= k < picked.len() ==> (#[trigger] items@[k])@ == lines(
                    result.content@,
                )[picked[k]]
        },
{
    let ls = lines(result.content@);
    lemma_non_empty_picks(ls, picked);
    let want = Seq::new(picked.len(), |k: int| ls[picked[k]]);
    if let RenderIntent::List { items, kind } = r {
        assert(views(items@) == want);
        assert forall|k: int| 0 <= k < picked.len() implies (#[trigger] items@[k])@
            == ls[picked[k]] by {
            assert(views(items@)[k] == want[k]);
        }
    }
}

/// A search is refused exactly where one of its patterns does not compile.
pub proof fn search_is_refused_for_its_patterns(
    tool: &FsGrep,
    pattern: String,
    glob: Option<String>,
    context: usize,
    limit: Option<usize>,
    files: Vec<SearchedFile>,
    max: usize,
    r: Result<ToolResult, ToolError>,
)
    requires
        call_ensures(FsGrep::execute, (tool, pattern, glob, context, limit, files, max), r),
    ensures
        r is Err == (regex_problem(pattern@) is Some || (glob is Some && glob_problem(glob->0@)
            is Some)),
        r is Err ==> r->Err_0 is InvalidInput,
        regex_problem(pattern@) is Some ==> r->Err_0@ == ToolErrorView::InvalidInput(
            regex_problem(pattern@)->0,
        ),
{
}

/// A search of one file is a search that was started with what was asked for
/// and given that file.
pub proof fn search_uses_what_was_asked_for(
    tool: &FsGrep,
    pattern: String,
    glob: Option<String>,
    context: usize,
    limit: Option<usize>,
    files: Vec<SearchedFile>,
    max: usize,
    started: Result<GrepSearch, ToolError>,
    search: &mut GrepSearch,
    rel: &str,
    path: &str,
    basename: &str,
    wanted: bool,
    content: String,
    hidden: String,
    told: ToolResult,
    r: Result<ToolResult, ToolError>,
)
    requires
        call_ensures(FsGrep::execute, (tool, pattern, glob, context, limit, files, max), r),
        files@.len() == 1,
        files@[0].rel@ == rel@ && files@[0].path@ == path@ && files@[0].basename@ == basename@,
        files@[0].content@ == content@ && files@[0].hidden@ == hidden@,
        call_ensures(GrepSearch::start, (pattern, glob, context, limit), started),
        started is Ok,
        *old(search) == started->Ok_0,
        call_ensures(GrepSearch::wants, (&started->Ok_0, basename), wanted),
        call_ensures(GrepSearch::add_file, (search, rel, path, content, hidden), ()),
        call_ensures(GrepSearch::finish, (*final(search), max), told),
    ensures
        r is Ok,
        wanted ==> r->Ok_0@ == told@,
        !wanted ==> r->Ok_0.content@.len() == 0 || r->Ok_0.truncated,
        old(search).context() == context && old(search).head_limit() == limit && old(search).pattern() == pattern@,
{
    let g = opt_view(glob);
    let none = FoundView { out: Seq::empty(), emitted: 0, stopped: false };
    assert(found_in(files@, pattern@, g, context, limit, 0) == none);
    assert(old(search).found() == none);
}

} // verus!
