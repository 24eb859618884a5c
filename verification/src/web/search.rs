//! Searching the web: reading the page of results.

use vstd::prelude::*;
use vstd::string::*;
use crate::patterns::{
    regex_find_all, regex_first_group, regex_group, regex_matches, regex_problem, regex_remove_all,
    regex_removed,
};
use crate::text::chars::{from_chars, push_text, to_chars};
use crate::text::number::{decimal, show_usize};
use crate::text::search::{replace_all, replaced_from, trim, trimmed};
use crate::text::split::views;
use crate::tool::{text_result, SideEffect, ToolError, ToolErrorView, ToolResult};

verus! {

/// The most results shown where no number is asked for.
pub const DEFAULT_RESULTS: usize = 5;

/// One result of a search.
#[derive(Debug)]
pub struct SearchResult {
    pub title: String,
    pub url: String,
    pub snippet: String,
}

/// A result with its texts as sequences.
#[verifier::ext_equal]
pub struct ResultView {
    pub title: Seq<char>,
    pub url: Seq<char>,
    pub snippet: Seq<char>,
}

impl View for SearchResult {
    type V = ResultView;

    open spec fn view(&self) -> ResultView {
        ResultView { title: self.title@, url: self.url@, snippet: self.snippet@ }
    }
}

/// The results of a list.
pub open spec fn result_views(v: Seq<SearchResult>) -> Seq<ResultView> {
    Seq::new(v.len(), |i: int| v[i]@)
}

/// A tag.
pub open spec fn tag_pattern() -> Seq<char> {
    "<[^>]+>"@
}

/// The link that holds the title of a result.
pub open spec fn title_pattern() -> Seq<char> {
    "<a[^>]*class=\"result__a\"[^>]*>(.*?)</a>"@
}

/// The target of a link.
pub open spec fn href_pattern() -> Seq<char> {
    "href=\"([^\"]+)\""@
}

/// The link that holds the snippet of a result.
pub open spec fn snippet_pattern() -> Seq<char> {
    "<a[^>]*class=\"result__snippet\"[^>]*>(.*?)</a>"@
}

/// The text without the white space around it and with `&amp;` and then
/// `&lt;` written as the characters they stand for.
pub open spec fn unescaped(text: Seq<char>) -> Seq<char> {
    replaced_from(
        replaced_from(trim(text), "&amp;"@, "&"@, 0),
        "&lt;"@,
        "<"@,
        0,
    )
}

/// HTML without its tags, as text.
pub open spec fn tagless(html: Seq<char>) -> Seq<char> {
    unescaped(
        if regex_problem(tag_pattern()) is None {
            regex_removed(tag_pattern(), html)
        } else {
            html
        },
    )
}

/// Writes `&amp;` and `&lt;` as the characters they stand for, and removes
/// the white space around the text.
pub fn unescape(text: &str) -> (r: String)
    ensures
        r@ == unescaped(text@),
{
    proof {
        reveal_strlit("&amp;");
        reveal_strlit("&lt;");
    }
    let chars = to_chars(text);
    let t = trimmed(chars.as_slice());
    let t = replace_all(t.as_slice(), to_chars("&amp;").as_slice(), to_chars("&").as_slice());
    let t = replace_all(t.as_slice(), to_chars("&lt;").as_slice(), to_chars("<").as_slice());
    from_chars(t.as_slice())
}

/// Removes tags from HTML.
pub fn strip_tags(html: &str) -> (r: String)
    ensures
        r@ == tagless(html@),
{
    match regex_remove_all("<[^>]+>", html) {
        Some(t) => unescape(t.as_str()),
        None => unescape(html),
    }
}

/// The matches of a pattern; none where it does not compile.
pub open spec fn found(pattern: Seq<char>, html: Seq<char>) -> Seq<Seq<char>> {
    if regex_problem(pattern) is None {
        regex_matches(pattern, html)
    } else {
        Seq::empty()
    }
}

/// The target of the link, if it has one.
pub open spec fn target(link: Seq<char>) -> Seq<char> {
    if regex_problem(href_pattern()) is None && regex_group(href_pattern(), link) is Some {
        regex_group(href_pattern(), link)->0
    } else {
        Seq::empty()
    }
}

/// The results: each title with the snippet at its place, at most `max`. A
/// title without a snippet has an empty one.
pub open spec fn paired(
    titles: Seq<Seq<char>>,
    snippets: Seq<Seq<char>>,
    max: int,
) -> Seq<ResultView> {
    Seq::new(
        if titles.len() < max {
            titles.len()
        } else {
            max as nat
        },
        |i: int|
            ResultView {
                title: tagless(titles[i]),
                url: target(titles[i]),
                snippet: if i < snippets.len() {
                    tagless(snippets[i])
                } else {
                    tagless(Seq::empty())
                },
            },
    )
}

/// Pairs the links that hold titles with those that hold snippets.
pub fn pair_results(titles: &Vec<String>, snippets: &Vec<String>, max: usize) -> (r: Vec<
    SearchResult,
>)
    ensures
        result_views(r@) == paired(views(titles@), views(snippets@), max as int),
{
    let ghost want = paired(views(titles@), views(snippets@), max as int);
    let mut out: Vec<SearchResult> = Vec::new();
    while out.len() < titles.len() && out.len() < max
        invariant
            out@.len() <= titles@.len(),
            out@.len() <= max,
            want == paired(views(titles@), views(snippets@), max as int),
            forall|i: int| 0 <= i < out@.len() ==> (#[trigger] out@[i])@ == want[i],
        decreases titles@.len() - out@.len(),
    {
        let i: usize = out.len();
        let link = titles[i].as_str();
        let title = strip_tags(link);
        let url = match regex_first_group("href=\"([^\"]+)\"", link) {
            Some(u) => u,
            None => String::new(),
        };
        assert(url@ == target(link@));
        let snippet = if i < snippets.len() {
            strip_tags(snippets[i].as_str())
        } else {
            let none = String::new();
            assert(none@ == Seq::<char>::empty());
            strip_tags(none.as_str())
        };
        out.push(SearchResult { title, url, snippet });
        assert(out@[i as int]@ == want[i as int]);
    }
    assert(result_views(out@) == want);
    out
}

/// The results on a page.
pub open spec fn page_results(html: Seq<char>, max: int) -> Seq<ResultView> {
    paired(found(title_pattern(), html), found(snippet_pattern(), html), max)
}

/// The matches of a pattern.
fn find_links(pattern: &str, html: &str) -> (r: Vec<String>)
    ensures
        views(r@) == found(pattern@, html@),
{
    match regex_find_all(pattern, html) {
        Some(v) => v,
        None => {
            let v: Vec<String> = Vec::new();
            assert(views(v@) == Seq::<Seq<char>>::empty());
            v
        },
    }
}

/// Reads the results off a page.
pub fn parse_ddg_results(html: &str, max: usize) -> (r: Vec<SearchResult>)
    ensures
        result_views(r@) == page_results(html@, max as int),
{
    let titles = find_links("<a[^>]*class=\"result__a\"[^>]*>(.*?)</a>", html);
    let snippets = find_links("<a[^>]*class=\"result__snippet\"[^>]*>(.*?)</a>", html);
    pair_results(&titles, &snippets, max)
}

/// The first `n` results, each with its number.
pub open spec fn listed_to(results: Seq<ResultView>, n: int) -> Seq<char>
    decreases n,
{
    if n <= 0 {
        Seq::empty()
    } else {
        let r = results[n - 1];
        listed_to(results, n - 1) + decimal(n as nat) + ". "@ + r.title + "\n   "@ + r.url
            + "\n   "@ + r.snippet + "\n\n"@
    }
}

/// What the caller is told of the results.
pub open spec fn results_text(results: Seq<ResultView>) -> Seq<char> {
    if results.len() == 0 {
        "无搜索结果"@
    } else {
        listed_to(results, results.len() as int)
    }
}

/// Lists the results.
pub fn present_results(results: &Vec<SearchResult>) -> (r: String)
    ensures
        r@ == results_text(result_views(results@)),
{
    let ghost all = result_views(results@);
    if results.len() == 0 {
        return "无搜索结果".to_owned();
    }
    let mut out: Vec<char> = Vec::new();
    let mut i: usize = 0;
    assert(out@ == Seq::<char>::empty());
    while i < results.len()
        invariant
            i <= results@.len(),
            all == result_views(results@),
            out@ == listed_to(all, i as int),
        decreases results@.len() - i,
    {
        let r = &results[i];
        assert(all[i as int] == r@);
        let number = show_usize(i + 1);
        push_text(&mut out, number.as_str());
        push_text(&mut out, ". ");
        push_text(&mut out, r.title.as_str());
        push_text(&mut out, "\n   ");
        push_text(&mut out, r.url.as_str());
        push_text(&mut out, "\n   ");
        push_text(&mut out, r.snippet.as_str());
        push_text(&mut out, "\n\n");
        assert(out@ == listed_to(all, i + 1));
        i = i + 1;
    }
    from_chars(out.as_slice())
}

/// What came of asking the search engine.
#[derive(Debug)]
pub enum SearchEvent {
    ClientFailed(String),
    RequestFailed(String),
    /// The server refused; its status.
    BadStatus(String),
    BodyFailed(String),
    /// The page of results.
    Page(String),
}

/// The `web.search` tool.
#[derive(Debug, Clone, Copy, Default)]
pub struct WebSearch {}

/// `label` followed by `detail`.
fn labelled(label: &str, detail: &str) -> (r: String)
    ensures
        r@ == label@ + detail@,
{
    let mut s = label.to_owned();
    s.append(detail);
    s
}

impl WebSearch {
    pub fn new() -> Self {
        WebSearch {  }
    }

    pub fn name(&self) -> (r: &'static str)
        ensures
            r@ == "web.search"@,
    {
        "web.search"
    }

    pub fn side_effect(&self) -> (r: SideEffect)
        ensures
            r == SideEffect::Network,
    {
        SideEffect::Network
    }

    /// The query; a call without one is refused.
    pub fn query(&self, query: Option<String>) -> (r: Result<String, ToolError>)
        ensures
            match query {
                Some(q) => r is Ok && r->Ok_0@ == q@,
                None => r is Err && r->Err_0@ == ToolErrorView::InvalidInput("query 缺失"@),
            },
    {
        match query {
            Some(q) => Ok(q),
            None => Err(ToolError::InvalidInput("query 缺失".to_owned())),
        }
    }

    /// Turns what came of the search into the result of the call.
    pub fn execute(&self, event: SearchEvent, max_results: Option<usize>) -> (r: Result<
        ToolResult,
        ToolError,
    >)
        ensures
            match event {
                SearchEvent::ClientFailed(e) => r is Err && r->Err_0@ == ToolErrorView::Exec(
                    "HTTP client 构建失败: "@ + e@,
                ),
                SearchEvent::RequestFailed(e) => r is Err && r->Err_0@ == ToolErrorView::Exec(
                    "搜索请求失败: "@ + e@,
                ),
                SearchEvent::BadStatus(s) => r is Err && r->Err_0@ == ToolErrorView::Exec(
                    "HTTP "@ + s@,
                ),
                SearchEvent::BodyFailed(e) => r is Err && r->Err_0@ == ToolErrorView::Exec(
                    "读取响应体失败: "@ + e@,
                ),
                SearchEvent::Page(html) => {
                    let max = match max_results {
                        Some(n) => n,
                        None => DEFAULT_RESULTS,
                    };
                    r is Ok && r->Ok_0@ == text_result(
                        results_text(page_results(html@, max as int)),
                        false,
                    )
                },
            },
    {
        match event {
            SearchEvent::ClientFailed(e) => Err(
                ToolError::Exec(labelled("HTTP client 构建失败: ", e.as_str())),
            ),
            SearchEvent::RequestFailed(e) => Err(
                ToolError::Exec(labelled("搜索请求失败: ", e.as_str())),
            ),
            SearchEvent::BadStatus(s) => Err(ToolError::Exec(labelled("HTTP ", s.as_str()))),
            SearchEvent::BodyFailed(e) => Err(
                ToolError::Exec(labelled("读取响应体失败: ", e.as_str())),
            ),
            SearchEvent::Page(html) => {
                let max: usize = match max_results {
                    Some(n) => n,
                    None => DEFAULT_RESULTS,
                };
                let results = parse_ddg_results(html.as_str(), max);
                Ok(ToolResult::ok_text(present_results(&results)))
            },
        }
    }
}

/// No more results are shown than were asked for.
pub proof fn results_keep_to_the_limit(html: Seq<char>, max: int)
    requires
        max >= 0,
    ensures
        page_results(html, max).len() <= max,
{
}

/// Each result is made of the title and the snippet at its own place: its
/// title and its snippet are those texts without tags, its address stands in
/// the title's link, and there are as many as there are titles, up to the
/// limit.
pub proof fn result_is_made_of_its_own_links(
    titles: &Vec<String>,
    snippets: &Vec<String>,
    max: usize,
    r: Vec<SearchResult>,
    i: int,
    link: &str,
    snippet: &str,
    title_text: String,
    snippet_text: String,
)
    requires
        call_ensures(pair_results, (titles, snippets, max), r),
        0 <= i < r@.len(),
        i < titles@.len() ==> link@ == titles@[i]@,
        snippet@ == if i < snippets@.len() {
            snippets@[i]@
        } else {
            Seq::<char>::empty()
        },
        call_ensures(strip_tags, (link,), title_text),
        call_ensures(strip_tags, (snippet,), snippet_text),
    ensures
        i < titles@.len(),
        i < max,
        r@[i].title@ == title_text@,
        r@[i].snippet@ == snippet_text@,
        ({
            let group = regex_group("href=\"([^\"]+)\""@, link@);
            let readable = regex_problem("href=\"([^\"]+)\""@) is None;
            &&& readable && group is Some ==> r@[i].url@ == group->0
            &&& !readable || group is None ==> r@[i].url@.len() == 0
        }),
        r@.len() == titles@.len() || r@.len() == max,
{
    assert(result_views(r@)[i] == r@[i]@);
    assert(result_views(r@).len() == r@.len());
    assert(views(titles@)[i] == link@);
    if i < snippets@.len() {
        assert(views(snippets@)[i] == snippets@[i]@);
    }
}

/// A result depends on the title and the snippet at its place alone: whatever
/// else two pages hold, where they agree at a place the results there agree.
pub proof fn other_links_have_no_part_in_a_result(
    titles: &Vec<String>,
    snippets: &Vec<String>,
    max: usize,
    r: Vec<SearchResult>,
    titles2: &Vec<String>,
    snippets2: &Vec<String>,
    max2: usize,
    r2: Vec<SearchResult>,
    i: int,
    k: int,
)
    requires
        call_ensures(pair_results, (titles, snippets, max), r),
        call_ensures(pair_results, (titles2, snippets2, max2), r2),
        0 <= i < r@.len(),
        0 <= k < r2@.len(),
        titles@[i]@ == titles2@[k]@,
        (i < snippets@.len()) == (k < snippets2@.len()),
        i < snippets@.len() ==> snippets@[i]@ == snippets2@[k]@,
    ensures
        r@[i]@ == r2@[k]@,
{
    assert(result_views(r@)[i] == r@[i]@);
    assert(result_views(r2@)[k] == r2@[k]@);
    assert(result_views(r@).len() == r@.len());
    assert(result_views(r2@).len() == r2@.len());
    assert(views(titles@)[i] == views(titles2@)[k]);
    if i < snippets@.len() {
        assert(views(snippets@)[i] == views(snippets2@)[k]);
    }
}

/// The results on a page are its title links paired with its snippet links, in
/// the order in which they stand on it.
pub proof fn page_is_read_in_order(
    html: &str,
    max: usize,
    titles: &Vec<String>,
    snippets: &Vec<String>,
    r: Vec<SearchResult>,
    paired_up: Vec<SearchResult>,
)
    requires
        call_ensures(parse_ddg_results, (html, max), r),
        regex_problem("<a[^>]*class=\"result__a\"[^>]*>(.*?)</a>"@) is None,
        regex_problem("<a[^>]*class=\"result__snippet\"[^>]*>(.*?)</a>"@) is None,
        views(titles@) == regex_matches("<a[^>]*class=\"result__a\"[^>]*>(.*?)</a>"@, html@),
        views(snippets@) == regex_matches(
            "<a[^>]*class=\"result__snippet\"[^>]*>(.*?)</a>"@,
            html@,
        ),
        call_ensures(pair_results, (titles, snippets, max), paired_up),
    ensures
        result_views(r@) == result_views(paired_up@),
{
}

/// The list of results with one more is the list without it and, behind it,
/// the number, the title, the address and the snippet of that one.
pub proof fn results_are_listed_in_order(
    results: &Vec<SearchResult>,
    fewer: &Vec<SearchResult>,
    r: String,
    s: String,
)
    requires
        results@.len() > 1,
        fewer@ == results@.drop_last(),
        call_ensures(present_results, (results,), r),
        call_ensures(present_results, (fewer,), s),
    ensures
        r@ == s@ + decimal(results@.len()) + ". "@ + results@.last().title@ + "\n   "@
            + results@.last().url@ + "\n   "@ + results@.last().snippet@ + "\n\n"@,
{
    let n = fewer@.len() as int;
    assert forall|k: int| 0 <= k < n implies #[trigger] result_views(results@)[k] == result_views(
        fewer@,
    )[k] by {
        assert(results@[k] == fewer@[k]);
    }
    lemma_listed_same(result_views(results@), result_views(fewer@), n);
    assert(result_views(results@)[n] == results@[n]@);
}

proof fn lemma_listed_same(a: Seq<ResultView>, b: Seq<ResultView>, n: int)
    requires
        n <= a.len(),
        n <= b.len(),
        forall|k: int| 0 <= k < n ==> #[trigger] a[k] == b[k],
    ensures
        listed_to(a, n) == listed_to(b, n),
    decreases n,
{
    if n > 0 {
        lemma_listed_same(a, b, n - 1);
        assert(a[n - 1] == b[n - 1]);
    }
}

/// No result is told in words; one result is listed under the number 1.
pub proof fn short_lists_are_told(results: &Vec<SearchResult>, r: String)
    requires
        results@.len() <= 1,
        call_ensures(present_results, (results,), r),
    ensures
        results@.len() == 0 ==> r@ == "无搜索结果"@,
        results@.len() == 1 ==> r@ == "1. "@ + results@[0].title@ + "\n   "@ + results@[0].url@
            + "\n   "@ + results@[0].snippet@ + "\n\n"@,
{
    if results@.len() == 1 {
        let all = result_views(results@);
        assert(all[0] == results@[0]@);
        assert(listed_to(all, 0) == Seq::<char>::empty());
        reveal_strlit("1. ");
        reveal_strlit(". ");
        assert(decimal(1) == seq!['1']);
        assert(listed_to(all, 0) + decimal(1) + ". "@ == "1. "@);
        assert(listed_to(all, 1) == "1. "@ + results@[0].title@ + "\n   "@ + results@[0].url@
            + "\n   "@ + results@[0].snippet@ + "\n\n"@);
    }
}

/// Tags go first, then the white space at the ends, then `&amp;` becomes `&`,
/// and last `&lt;` becomes `<`.
pub proof fn text_of_a_link(
    html: &str,
    bare: &[char],
    cut: Vec<char>,
    short: &[char],
    once: Vec<char>,
    half: &[char],
    twice: Vec<char>,
    amp: &[char],
    and: &[char],
    lt: &[char],
    less: &[char],
    r: String,
)
    requires
        call_ensures(strip_tags, (html,), r),
        regex_problem("<[^>]+>"@) is None,
        bare@ == regex_removed("<[^>]+>"@, html@),
        amp@ == "&amp;"@ && and@ == "&"@ && lt@ == "&lt;"@ && less@ == "<"@,
        call_ensures(trimmed, (bare,), cut),
        short@ == cut@,
        call_ensures(replace_all, (short, amp, and), once),
        half@ == once@,
        call_ensures(replace_all, (half, lt, less), twice),
    ensures
        r@ == twice@,
{
}

/// Where no number of results is asked for, five are shown; a page is told as
/// the list of its results, and everything else is an error.
pub proof fn search_tells_the_results_of_the_page(
    tool: &WebSearch,
    html: String,
    page: &str,
    max: Option<usize>,
    results: Vec<SearchResult>,
    list: &Vec<SearchResult>,
    told: String,
    r: Result<ToolResult, ToolError>,
)
    requires
        call_ensures(WebSearch::execute, (tool, SearchEvent::Page(html), max), r),
        page@ == html@,
        call_ensures(
            parse_ddg_results,
            (
                page,
                if max is Some {
                    max->0
                } else {
                    5
                },
            ),
            results,
        ),
        list@ == results@,
        call_ensures(present_results, (list,), told),
    ensures
        r is Ok,
        r->Ok_0.content@ == told@,
        !r->Ok_0.is_error,
{
}

/// A search that failed is an error that says what happened.
pub proof fn failed_search_is_an_error(
    tool: &WebSearch,
    event: SearchEvent,
    max: Option<usize>,
    r: Result<ToolResult, ToolError>,
)
    requires
        call_ensures(WebSearch::execute, (tool, event, max), r),
        !(event is Page),
    ensures
        r is Err,
        r->Err_0 is Exec,
{
}

} // verus!
