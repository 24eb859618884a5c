//! Fetching a page: following redirects, reading the body, turning HTML into
//! Markdown.

use vstd::prelude::*;
use vstd::string::*;
use vstd::utf8::*;
use crate::shell::run::{keep_capped, kept};
use crate::text::bytes::{decode_lossy, lossy_text};
use crate::text::chars::{
    ascii_lower, ascii_lower_all, byte_len, chars_ascii_lower, from_chars,
    lemma_byte_len_is_encoding, push_all, str_byte_len, sub_chars,
    to_chars,
};
use crate::text::search::{
    begins, contains, find, find_from, has, index_from, index_of, lemma_find_from,
    lemma_index_from, occurs_at, starts_with,
};
use crate::text::split::{
    char_views, joined, joined_pieces_are_the_text, opt_view, pieces, split_at_char,
};
use crate::tool::{text_result, SideEffect, ToolError, ToolErrorView, ToolResult, ToolResultView};
use crate::util::{truncate_output, truncated};
use crate::web::ip::{blocked, IpAddr};
use crate::web::ssrf::{
    accepted_addresses_may_be_reached, first_blocked, ip_refusal, lemma_distinct_members,
    lemma_first_blocked,
    lookup_check, parse_url, resolve_and_validate_host, url_check, url_parts, validate_ip,
    validate_url, CheckView, PartsView, UrlCheck, UrlParts,
};

verus! {

/// The most bytes of a page that are read.
pub const MAX_BODY_BYTES: usize = 10 * 1024 * 1024;

/// The most redirects that are followed.
pub const MAX_REDIRECTS: usize = 5;

/// The longest URL that a redirect may lead to, in bytes.
pub const MAX_REDIRECT_URL: usize = 2048;

/// The index of the last slash.
pub open spec fn last_slash(s: Seq<char>) -> Option<int>
    decreases s.len(),
{
    if s.len() == 0 {
        None
    } else if s.last() == '/' {
        Some(s.len() - 1)
    } else {
        last_slash(s.drop_last())
    }
}

/// The directory of a path: up to its last slash.
pub open spec fn directory(path: Seq<char>) -> Seq<char> {
    match last_slash(path) {
        Some(i) => path.take(i + 1),
        None => seq!['/'],
    }
}

/// Where the path ends in a URL or a part of one: at the first `?` or `#` at
/// or after `i`, or at the end.
pub open spec fn path_end(s: Seq<char>, i: int) -> int
    decreases s.len() - i,
{
    if 0 <= i < s.len() && s[i] != '?' && s[i] != '#' {
        path_end(s, i + 1)
    } else {
        i
    }
}

proof fn lemma_path_end(s: Seq<char>, i: int)
    requires
        0 <= i <= s.len(),
    ensures
        i <= path_end(s, i) <= s.len(),
        forall|j: int| i <= j < path_end(s, i) ==> #[trigger] s[j] != '?' && s[j] != '#',
    decreases s.len() - i,
{
    if i < s.len() {
        lemma_path_end(s, i + 1);
    }
}

/// The segments one level up.
pub open spec fn one_up(segs: Seq<Seq<char>>) -> Seq<Seq<char>> {
    if segs.len() > 0 {
        segs.drop_last()
    } else {
        segs
    }
}

/// The segments that remain of the first `n` segments of a path: `.` stays
/// where it is, `..` goes one level up, and either leaves an empty segment at
/// the end of the path.
pub open spec fn walked(parts: Seq<Seq<char>>, n: int) -> Seq<Seq<char>>
    decreases n,
{
    if n <= 0 {
        Seq::empty()
    } else {
        let segs = walked(parts, n - 1);
        let p = parts[n - 1];
        if p == seq!['.'] || p == seq!['.', '.'] {
            let left = if p == seq!['.'] {
                segs
            } else {
                one_up(segs)
            };
            if n == parts.len() {
                left.push(Seq::empty())
            } else {
                left
            }
        } else {
            segs.push(p)
        }
    }
}

/// A path that begins with a slash, with every `.` and `..` taken.
pub open spec fn without_dots(path: Seq<char>) -> Seq<char> {
    let parts = pieces(path.skip(1), '/');
    seq!['/'] + joined(walked(parts, parts.len() as int), seq!['/'])
}

/// The length of the host at the beginning of what follows `://` in a URL.
pub open spec fn host_len(rest: Seq<char>) -> int {
    match index_from(rest.take(path_end(rest, 0)), '/', 0) {
        Some(i) => i,
        None => path_end(rest, 0),
    }
}

/// A location that names its own scheme.
pub open spec fn is_whole_url(location: Seq<char>) -> bool {
    starts_with(ascii_lower_all(location), "http://"@) || starts_with(
        ascii_lower_all(location),
        "https://"@,
    )
}

/// Where a redirect from `base` to `location` leads: a URL of its own, another
/// host (`//host/..`), another path of the host (`/..`), or a path from the
/// directory of the current one, by the rules of RFC 3986. A location without
/// a path keeps the current one, and one without a query its query too.
/// Nothing where `base` is no URL.
pub open spec fn redirect_target(base: Seq<char>, location: Seq<char>) -> Option<Seq<char>> {
    if is_whole_url(location) {
        Some(location)
    } else {
        match find_from(base, seq![':', '/', '/'], 0) {
            None => None,
            Some(s) => {
                let rest = base.skip(s + 3);
                let origin = base.take(s + 3 + host_len(rest));
                let path = rest.subrange(host_len(rest), path_end(rest, 0));
                let end = path_end(location, 0);
                if location.len() >= 2 && location[0] == '/' && location[1] == '/' {
                    Some(base.take(s + 1) + location)
                } else if location.len() >= 1 && location[0] == '/' {
                    Some(origin + location)
                } else if end > 0 {
                    Some(
                        origin + without_dots(directory(path) + location.take(end))
                            + location.skip(end),
                    )
                } else if location.len() >= 1 && location[0] == '?' {
                    Some(origin + path + location)
                } else {
                    let kept = match index_from(rest, '#', 0) {
                        Some(i) => i,
                        None => rest.len() as int,
                    };
                    Some(base.take(s + 3 + kept) + location)
                }
            },
        }
    }
}

/// Where the path ends in a URL or a part of one.
fn find_path_end(s: &[char]) -> (r: usize)
    ensures
        r == path_end(s@, 0),
        r <= s@.len(),
{
    let n: usize = s.len();
    let mut i: usize = 0;
    while i < n && s[i] != '?' && s[i] != '#'
        invariant
            i <= n,
            n == s@.len(),
            path_end(s@, 0) == path_end(s@, i as int),
        decreases n - i,
    {
        i = i + 1;
    }
    i
}

/// Cuts a path off behind its last slash.
fn directory_of(path: &[char]) -> (r: Vec<char>)
    ensures
        r@ == directory(path@),
{
    let mut end: usize = path.len();
    assert(path@.take(path@.len() as int) == path@);
    while end > 0 && path[end - 1] != '/'
        invariant
            end <= path@.len(),
            last_slash(path@) == last_slash(path@.take(end as int)),
        decreases end,
    {
        assert(path@.take(end as int).drop_last() == path@.take(end - 1));
        end = end - 1;
    }
    let dir = if end > 0 {
        assert(last_slash(path@) == Some(end - 1));
        sub_chars(path, 0, end)
    } else {
        let mut v: Vec<char> = Vec::new();
        v.push('/');
        v
    };
    assert(dir@ == directory(path@));
    dir
}

/// Joins segments with slashes.
fn join_segments(segs: &Vec<Vec<char>>) -> (r: Vec<char>)
    ensures
        r@ == joined(char_views(segs@), seq!['/']),
{
    let ghost all = char_views(segs@);
    let mut out: Vec<char> = Vec::new();
    let mut i: usize = 0;
    assert(all.take(0) == Seq::<Seq<char>>::empty());
    while i < segs.len()
        invariant
            i <= segs@.len(),
            all == char_views(segs@),
            out@ == joined(all.take(i as int), seq!['/']),
        decreases segs@.len() - i,
    {
        let ghost now = all.take(i + 1);
        let ghost out0 = out@;
        assert(now.drop_last() == all.take(i as int));
        assert(now.last() == segs@[i as int]@);
        if i > 0 {
            out.push('/');
        }
        push_all(&mut out, segs[i].as_slice());
        proof {
            if i > 0 {
                assert(out@ == out0 + seq!['/'] + now.last());
            } else {
                assert(out@ == now[0]);
            }
        }
        i = i + 1;
    }
    assert(all.take(all.len() as int) == all);
    out
}

/// Takes every `.` and `..` of a path that begins with a slash.
fn remove_dots(path: &[char]) -> (r: Vec<char>)
    requires
        path@.len() > 0,
    ensures
        r@ == without_dots(path@),
{
    let inner = sub_chars(path, 1, path.len());
    assert(inner@ == path@.skip(1));
    let parts = split_at_char(inner.as_slice(), '/');
    let ghost all = pieces(inner@, '/');
    let mut segs: Vec<Vec<char>> = Vec::new();
    let mut i: usize = 0;
    assert(char_views(segs@) == Seq::<Seq<char>>::empty());
    while i < parts.len()
        invariant
            i <= parts@.len(),
            all == char_views(parts@),
            char_views(segs@) == walked(all, i as int),
        decreases parts@.len() - i,
    {
        let p = &parts[i];
        let ghost before = char_views(segs@);
        assert(p@ == all[i as int]);
        let stay = p.len() == 1 && p[0] == '.';
        let up = p.len() == 2 && p[0] == '.' && p[1] == '.';
        proof {
            if stay {
                assert(p@ =~= seq!['.']);
            }
            if up {
                assert(p@ =~= seq!['.', '.']);
            }
        }
        if stay || up {
            if up && segs.len() > 0 {
                segs.pop();
            }
            let ghost left = if stay {
                before
            } else {
                one_up(before)
            };
            assert(char_views(segs@) == left);
            if i + 1 == parts.len() {
                segs.push(Vec::new());
                assert(char_views(segs@) == left.push(Seq::empty()));
            }
        } else {
            let c = sub_chars(p.as_slice(), 0, p.len());
            assert(c@ == p@);
            segs.push(c);
            assert(char_views(segs@) == before.push(p@));
        }
        i = i + 1;
    }
    let body = join_segments(&segs);
    let mut out: Vec<char> = Vec::new();
    out.push('/');
    push_all(&mut out, body.as_slice());
    assert(out@ == without_dots(path@));
    out
}

/// Where a redirect leads.
pub fn join_redirect_url(base: &str, location: &str) -> (r: Result<String, ToolError>)
    ensures
        match redirect_target(base@, location@) {
            Some(u) => r is Ok && r->Ok_0@ == u,
            None => r is Err && r->Err_0@ == ToolErrorView::Exec("无效的 base URL"@),
        },
{
    let loc = to_chars(location);
    let lower = chars_ascii_lower(loc.as_slice());
    if begins(lower.as_slice(), to_chars("http://").as_slice()) || begins(
        lower.as_slice(),
        to_chars("https://").as_slice(),
    ) {
        return Ok(location.to_owned());
    }
    let b = to_chars(base);
    let n: usize = b.len();
    let mut mark: Vec<char> = Vec::new();
    mark.push(':');
    mark.push('/');
    mark.push('/');
    assert(mark@ == seq![':', '/', '/']);
    proof {
        lemma_find_from(b@, mark@, 0);
    }
    let s: usize = match find(b.as_slice(), mark.as_slice(), 0) {
        Some(s) => s,
        None => {
            return Err(ToolError::Exec("无效的 base URL".to_owned()));
        },
    };
    let rest = sub_chars(b.as_slice(), s + 3, n);
    assert(rest@ == base@.skip(s + 3));
    let rest_end: usize = find_path_end(rest.as_slice());
    let hier = sub_chars(rest.as_slice(), 0, rest_end);
    assert(hier@ == rest@.take(path_end(rest@, 0)));
    proof {
        lemma_index_from(hier@, '/', 0);
    }
    let host: usize = match index_of(hier.as_slice(), '/', 0) {
        Some(i) => i,
        None => rest_end,
    };
    assert(host == host_len(rest@));
    let mut out = sub_chars(b.as_slice(), 0, s + 3 + host);
    assert(out@ == base@.take(s + 3 + host));
    let path = sub_chars(rest.as_slice(), host, rest_end);
    if loc.len() >= 2 && loc[0] == '/' && loc[1] == '/' {
        let mut scheme = sub_chars(b.as_slice(), 0, s + 1);
        assert(scheme@ == base@.take(s + 1));
        push_all(&mut scheme, loc.as_slice());
        return Ok(from_chars(scheme.as_slice()));
    }
    if loc.len() >= 1 && loc[0] == '/' {
        push_all(&mut out, loc.as_slice());
        return Ok(from_chars(out.as_slice()));
    }
    let end: usize = find_path_end(loc.as_slice());
    if end > 0 {
        let mut merged = directory_of(path.as_slice());
        let wanted = sub_chars(loc.as_slice(), 0, end);
        assert(wanted@ == location@.take(end as int));
        push_all(&mut merged, wanted.as_slice());
        let plain = remove_dots(merged.as_slice());
        let tail = sub_chars(loc.as_slice(), end, loc.len());
        assert(tail@ == location@.skip(end as int));
        push_all(&mut out, plain.as_slice());
        push_all(&mut out, tail.as_slice());
        return Ok(from_chars(out.as_slice()));
    }
    if loc.len() >= 1 && loc[0] == '?' {
        push_all(&mut out, path.as_slice());
        push_all(&mut out, loc.as_slice());
        return Ok(from_chars(out.as_slice()));
    }
    proof {
        lemma_index_from(rest@, '#', 0);
    }
    let kept: usize = match index_of(rest.as_slice(), '#', 0) {
        Some(i) => i,
        None => rest.len(),
    };
    let mut page = sub_chars(b.as_slice(), 0, s + 3 + kept);
    assert(page@ == base@.take(s + 3 + kept));
    push_all(&mut page, loc.as_slice());
    Ok(from_chars(page.as_slice()))
}

/// A redirect without a host of its own stays on the host: the target begins
/// with the scheme and host of the page it came from.
pub proof fn relative_redirect_keeps_the_host(base: Seq<char>, location: Seq<char>)
    requires
        !is_whole_url(location),
        location.len() < 2 || location[0] != '/' || location[1] != '/',
        find_from(base, seq![':', '/', '/'], 0) is Some,
    ensures
        ({
            let s = find_from(base, seq![':', '/', '/'], 0)->0;
            let origin = base.take(s + 3 + host_len(base.skip(s + 3)));
            &&& redirect_target(base, location) is Some
            &&& starts_with(redirect_target(base, location)->0, origin)
        }),
{
    let s = find_from(base, seq![':', '/', '/'], 0)->0;
    lemma_find_from(base, seq![':', '/', '/'], 0);
    let rest = base.skip(s + 3);
    lemma_path_end(rest, 0);
    lemma_index_from(rest.take(path_end(rest, 0)), '/', 0);
    lemma_index_from(rest, '#', 0);
    let origin = base.take(s + 3 + host_len(rest));
    let t = redirect_target(base, location)->0;
    assert(t.subrange(0, origin.len() as int) == origin);
}

/// A path without `.` and `..` among its segments is left as it is, with its
/// empty segments.
pub proof fn plain_path_is_kept(path: Seq<char>)
    requires
        path.len() > 0,
        path[0] == '/',
        forall|i: int|
            0 <= i < pieces(path.skip(1), '/').len() ==> #[trigger] pieces(path.skip(1), '/')[i]
                != seq!['.'] && pieces(path.skip(1), '/')[i] != seq!['.', '.'],
    ensures
        without_dots(path) == path,
{
    let parts = pieces(path.skip(1), '/');
    lemma_walked_plain(parts, parts.len() as int);
    assert(parts.take(parts.len() as int) == parts);
    joined_pieces_are_the_text(path.skip(1), '/');
    assert(seq!['/'] + path.skip(1) == path);
}

proof fn lemma_walked_plain(parts: Seq<Seq<char>>, n: int)
    requires
        0 <= n <= parts.len(),
        forall|i: int|
            0 <= i < parts.len() ==> #[trigger] parts[i] != seq!['.'] && parts[i] != seq!['.', '.'],
    ensures
        walked(parts, n) == parts.take(n),
    decreases n,
{
    if n > 0 {
        lemma_walked_plain(parts, n - 1);
        assert(parts.take(n) == parts.take(n - 1).push(parts[n - 1]));
    } else {
        assert(parts.take(0) == Seq::<Seq<char>>::empty());
    }
}

/// Going one level up from a directory ends in a directory.
pub proof fn up_leads_to_a_directory(path: Seq<char>)
    requires
        path.len() > 0,
        pieces(path.skip(1), '/').last() == seq!['.', '.'] || pieces(path.skip(1), '/').last()
            == seq!['.'],
    ensures
        without_dots(path).last() == '/',
{
    let parts = pieces(path.skip(1), '/');
    joined_pieces_are_the_text(path.skip(1), '/');
    let segs = walked(parts, parts.len() as int);
    assert(segs.last() == Seq::<char>::empty());
    if segs.len() > 1 {
        let init = joined(segs.drop_last(), seq!['/']);
        assert(joined(segs, seq!['/']) == init + seq!['/'] + segs.last());
        assert(without_dots(path).last() == '/');
    } else {
        assert(without_dots(path) == seq!['/']);
    }
}

/// The host of a URL and its port.
pub open spec fn host_and_port(url: Seq<char>) -> Result<(Seq<char>, u16), ToolErrorView> {
    match url_parts(url) {
        Err(e) => Err(ToolErrorView::InvalidInput("URL 解析失败: "@ + e)),
        Ok(p) => host_and_port_of_parts(p),
    }
}

/// The host in the parts of a URL, and its port.
pub open spec fn host_and_port_of_parts(p: PartsView) -> Result<(Seq<char>, u16), ToolErrorView> {
    match p.host_text {
        None => Err(ToolErrorView::InvalidInput("URL 缺少 hostname"@)),
        Some(h) => Ok(
            (
                h,
                match p.port {
                    Some(n) => n,
                    None => 80,
                },
            ),
        ),
    }
}

/// A host and port, as a value.
pub open spec fn host_view(r: Result<(String, u16), ToolError>) -> Result<
    (Seq<char>, u16),
    ToolErrorView,
> {
    match r {
        Ok(p) => Ok((p.0@, p.1)),
        Err(e) => Err(e@),
    }
}

/// The host in the parts of a URL, and its port.
pub fn host_port_of_parts(p: UrlParts) -> (r: Result<(String, u16), ToolError>)
    ensures
        host_view(r) == host_and_port_of_parts(p@),
{
    let port: u16 = match p.port {
        Some(n) => n,
        None => 80,
    };
    match p.host_text {
        None => Err(ToolError::InvalidInput("URL 缺少 hostname".to_owned())),
        Some(h) => Ok((h, port)),
    }
}

/// The host of a URL and its port.
pub fn host_port_of(url: &str) -> (r: Result<(String, u16), ToolError>)
    ensures
        host_view(r) == host_and_port(url@),
{
    match parse_url(url) {
        Err(e) => {
            let mut s = "URL 解析失败: ".to_owned();
            s.append(e.as_str());
            Err(ToolError::InvalidInput(s))
        },
        Ok(p) => host_port_of_parts(p),
    }
}

/// The address that a connection is made to.
pub open spec fn pinned(host: Seq<char>, literal: Option<IpAddr>, ips: Seq<IpAddr>) -> Result<
    IpAddr,
    ToolErrorView,
> {
    match literal {
        Some(ip) => Ok(ip),
        None => match first_blocked(ips, 0) {
            Some(ip) => Err(ip_refusal(ip)),
            None => if ips.len() == 0 {
                Err(
                    ToolErrorView::Exec(
                        "无可钉住的解析地址 `"@ + host + "`（fail-closed）"@,
                    ),
                )
            } else {
                Ok(ips[0])
            },
        },
    }
}

/// Chooses the address that a connection is made to: the host itself where it
/// is an address, else the first of those it stands for, if all of them may be
/// reached.
pub fn pin_decision(host: &str, literal: Option<IpAddr>, resolved_ips: &Vec<IpAddr>) -> (r: Result<
    IpAddr,
    ToolError,
>)
    ensures
        match r {
            Ok(ip) => pinned(host@, literal, resolved_ips@) == Ok::<IpAddr, ToolErrorView>(ip),
            Err(e) => pinned(host@, literal, resolved_ips@) == Err::<IpAddr, ToolErrorView>(e@),
        },
{
    if let Some(ip) = literal {
        return Ok(ip);
    }
    let mut i: usize = 0;
    while i < resolved_ips.len()
        invariant
            i <= resolved_ips@.len(),
            literal is None,
            first_blocked(resolved_ips@, 0) == first_blocked(resolved_ips@, i as int),
        decreases resolved_ips@.len() - i,
    {
        if let Err(e) = validate_ip(&resolved_ips[i]) {
            return Err(e);
        }
        i = i + 1;
    }
    if resolved_ips.len() == 0 {
        let mut s = "无可钉住的解析地址 `".to_owned();
        s.append(host);
        s.append("`（fail-closed）");
        return Err(ToolError::Exec(s));
    }
    Ok(resolved_ips[0])
}

/// The address chosen for a name may be reached.
pub proof fn pinned_address_may_be_reached(host: Seq<char>, ips: Seq<IpAddr>)
    ensures
        pinned(host, None, ips) matches Ok(ip) ==> !blocked(ip) && ips.contains(ip),
{
    lemma_first_blocked(ips, 0);
    if ips.len() > 0 {
        assert(ips.contains(ips[0]));
    }
}

/// What a fetch does next to reach a page.
#[derive(Debug)]
pub enum HopStep {
    /// Look up the addresses of a host.
    Lookup { host: String, port: u16 },
    /// Ask for the page at this address, and at no other.
    Request { host: String, ip: IpAddr, port: u16 },
}

/// A step with its texts as sequences.
#[verifier::ext_equal]
pub enum HopView {
    Lookup { host: Seq<char>, port: u16 },
    Request { host: Seq<char>, ip: IpAddr, port: u16 },
}

impl View for HopStep {
    type V = HopView;

    open spec fn view(&self) -> HopView {
        match self {
            HopStep::Lookup { host, port } => HopView::Lookup { host: host@, port: *port },
            HopStep::Request { host, ip, port } => HopView::Request {
                host: host@,
                ip: *ip,
                port: *port,
            },
        }
    }
}

/// A step, as a value.
pub open spec fn hop_view(r: Result<HopStep, ToolError>) -> Result<HopView, ToolErrorView> {
    match r {
        Ok(h) => Ok(h@),
        Err(e) => Err(e@),
    }
}

/// The request for a page whose host stands for these addresses.
pub open spec fn connected(url: Seq<char>, literal: Option<IpAddr>, ips: Seq<IpAddr>) -> Result<
    HopView,
    ToolErrorView,
> {
    match host_and_port(url) {
        Err(e) => Err(e),
        Ok((host, port)) => match pinned(host, literal, ips) {
            Err(e) => Err(e),
            Ok(ip) => Ok(HopView::Request { host, ip, port }),
        },
    }
}

/// What a fetch does first to reach a page: a host that is an address is
/// asked, if it may be reached, a name is looked up.
pub open spec fn hop_start(url: Seq<char>) -> Result<HopView, ToolErrorView> {
    match url_check(url) {
        Err(e) => Err(e),
        Ok(CheckView::Address { ip, port }) => connected(url, Some(ip), seq![ip]),
        Ok(CheckView::Lookup { host, port }) => Ok(HopView::Lookup { host, port }),
    }
}

/// What a fetch does once the host of a page was looked up.
pub open spec fn hop_resolved(
    url: Seq<char>,
    host: Seq<char>,
    found: Result<Seq<IpAddr>, Seq<char>>,
) -> Result<HopView, ToolErrorView> {
    match lookup_check(host, found) {
        Err(e) => Err(e),
        Ok(ips) => connected(url, None, ips),
    }
}

/// Whatever page a fetch is sent to, and whatever the lookup of its host
/// brings, it asks only at addresses that may be reached.
pub proof fn requests_go_to_allowed_addresses(
    url: Seq<char>,
    host: Seq<char>,
    found: Result<Seq<IpAddr>, Seq<char>>,
)
    ensures
        hop_start(url) matches Ok(HopView::Request { ip, .. }) ==> !blocked(ip),
        hop_resolved(url, host, found) matches Ok(HopView::Request { ip, .. }) ==> !blocked(ip),
{
    if let Ok(ips) = lookup_check(host, found) {
        accepted_addresses_may_be_reached(host, found);
        if let Ok((h, _)) = host_and_port(url) {
            pinned_address_may_be_reached(h, ips);
        }
    }
}

/// The way from page to page.
#[derive(Debug)]
pub struct FetchState {
    /// The page to ask for.
    pub current: String,
    /// The redirects followed so far.
    pub hops: usize,
}

/// What to do with an answer.
#[derive(Debug)]
pub enum FetchStep {
    /// Ask for the current page.
    Follow,
    /// Read the body.
    Read,
}

/// Why a redirect is not followed, if it is not: too many of them, none
/// named, not to be made out, or too long.
pub open spec fn redirect_refusal(
    current: Seq<char>,
    hops: int,
    location: Option<Seq<char>>,
) -> Option<ToolErrorView> {
    if hops + 1 > MAX_REDIRECTS {
        Some(ToolErrorView::Exec("重定向超过 5 跳上限"@))
    } else {
        match location {
            None => Some(ToolErrorView::Exec("重定向缺少 Location 头"@)),
            Some(l) => match redirect_target(current, l) {
                None => Some(ToolErrorView::Exec("无效的 base URL"@)),
                Some(u) => if byte_len(u) > MAX_REDIRECT_URL {
                    Some(ToolErrorView::Exec("重定向 URL 过长"@))
                } else {
                    None
                },
            },
        }
    }
}

impl FetchState {
    /// No more redirects were followed than may be.
    pub open spec fn wf(&self) -> bool {
        self.hops <= MAX_REDIRECTS
    }

    /// The way from a URL.
    pub fn new(url: String) -> (r: FetchState)
        ensures
            r.wf(),
            r.current@ == url@,
            r.hops == 0,
    {
        FetchState { current: url, hops: 0 }
    }

    /// Asks for the current page at an address.
    fn connect(&self, literal: Option<IpAddr>, ips: &Vec<IpAddr>) -> (r: Result<
        HopStep,
        ToolError,
    >)
        ensures
            hop_view(r) == connected(self.current@, literal, ips@),
    {
        match host_port_of(self.current.as_str()) {
            Err(e) => Err(e),
            Ok((host, port)) => match pin_decision(host.as_str(), literal, ips) {
                Err(e) => Err(e),
                Ok(ip) => Ok(HopStep::Request { host, ip, port }),
            },
        }
    }

    /// What to do first to reach the current page. One that must not be
    /// reached is refused.
    pub fn start(&self) -> (r: Result<HopStep, ToolError>)
        ensures
            hop_view(r) == hop_start(self.current@),
    {
        match validate_url(self.current.as_str()) {
            Err(e) => Err(e),
            Ok(UrlCheck::Address { ip, port }) => {
                let mut ips: Vec<IpAddr> = Vec::new();
                ips.push(ip);
                assert(ips@ == seq![ip]);
                self.connect(Some(ip), &ips)
            },
            Ok(UrlCheck::Lookup { host, port }) => Ok(HopStep::Lookup { host, port }),
        }
    }

    /// What to do once the host of the current page was looked up.
    pub fn resolved(&self, host: &str, found: Result<Vec<IpAddr>, String>) -> (r: Result<
        HopStep,
        ToolError,
    >)
        ensures
            hop_view(r) == hop_resolved(
                self.current@,
                host@,
                match found {
                    Ok(v) => Ok(v@),
                    Err(e) => Err(e@),
                },
            ),
    {
        match resolve_and_validate_host(host, found) {
            Err(e) => Err(e),
            Ok(ips) => self.connect(None, &ips),
        }
    }

    /// What to do with an answer: a redirect is followed, if it may be.
    pub fn next(&mut self, is_redirection: bool, location: Option<String>) -> (r: Result<
        FetchStep,
        ToolError,
    >)
        requires
            old(self).wf(),
        ensures
            final(self).wf(),
            !is_redirection ==> r == Ok::<FetchStep, ToolError>(FetchStep::Read) && *final(self)
                == *old(self),
            is_redirection ==> match redirect_refusal(
                old(self).current@,
                old(self).hops as int,
                opt_view(location),
            ) {
                Some(e) => r is Err && r->Err_0@ == e && *final(self) == *old(self),
                None => {
                    &&& r == Ok::<FetchStep, ToolError>(FetchStep::Follow)
                    &&& final(self).hops == old(self).hops + 1
                    &&& redirect_target(old(self).current@, location->0@) == Some(
                        final(self).current@,
                    )
                },
            },
    {
        if !is_redirection {
            return Ok(FetchStep::Read);
        }
        if self.hops + 1 > MAX_REDIRECTS {
            return Err(ToolError::Exec("重定向超过 5 跳上限".to_owned()));
        }
        match location {
            None => Err(ToolError::Exec("重定向缺少 Location 头".to_owned())),
            Some(l) => {
                match join_redirect_url(self.current.as_str(), l.as_str()) {
                    Err(e) => Err(e),
                    Ok(u) => {
                        if str_byte_len(u.as_str()) > MAX_REDIRECT_URL {
                            return Err(ToolError::Exec("重定向 URL 过长".to_owned()));
                        }
                        self.current = u;
                        self.hops = self.hops + 1;
                        Ok(FetchStep::Follow)
                    },
                }
            },
        }
    }
}

/// A body that is being read.
#[derive(Debug)]
pub struct BodyReader {
    pub body: Vec<u8>,
    /// Something was left out.
    pub capped: bool,
}

impl BodyReader {
    /// Before anything was read.
    pub fn new() -> (r: BodyReader)
        ensures
            r.body@ == Seq::<u8>::empty(),
            !r.capped,
    {
        BodyReader { body: Vec::new(), capped: false }
    }

    /// Takes a further chunk, as far as there is room for it. Reading goes on
    /// unless something had to be left out.
    pub fn take(&mut self, chunk: &[u8], max_bytes: usize) -> (more: bool)
        requires
            !old(self).capped,
        ensures
            final(self).body@ == kept(old(self).body@, chunk@, max_bytes as int),
            final(self).capped == (old(self).body@.len() >= max_bytes || old(self).body@.len()
                + chunk@.len() > max_bytes),
            more == !final(self).capped,
    {
        let room: usize = if self.body.len() < max_bytes {
            max_bytes - self.body.len()
        } else {
            0
        };
        self.capped = room == 0 || chunk.len() > room;
        keep_capped(&mut self.body, chunk, max_bytes);
        !self.capped
    }
}

/// HTML as Markdown; nothing where it cannot be turned into it.
pub uninterp spec fn html_as_markdown(html: Seq<char>) -> Option<Seq<char>>;

/// Turns HTML into Markdown: `htmd::convert`.
///
/// The claim: the Markdown, or that there is none, is a function of the HTML.
#[verifier::external_body]
pub(crate) fn convert_html(html: &str) -> (r: Option<String>)
    ensures
        opt_view(r) == html_as_markdown(html@),
{
    htmd::convert(html).ok()
}

/// The text of a page: HTML is turned into Markdown, if it can be.
pub open spec fn page_text(content_type: Seq<char>, body: Seq<char>) -> Seq<char> {
    if contains(content_type, "text/html"@) {
        match html_as_markdown(body) {
            Some(md) => md,
            None => body,
        }
    } else {
        body
    }
}

/// The result of a fetch, cut to `max` bytes.
pub open spec fn fetched(text: Seq<char>, body_capped: bool, max: int) -> ToolResultView {
    ToolResultView {
        content: truncated(text, max),
        is_error: false,
        truncated: byte_len(text) > max || body_capped,
        bytes: byte_len(truncated(text, max)),
    }
}

/// Makes the text of a page the result of the call.
pub fn present_page(text: String, body_capped: bool, max_bytes: usize) -> (r: ToolResult)
    ensures
        r@ == fetched(text@, body_capped, max_bytes as int),
{
    let (content, cut) = truncate_output(text, max_bytes);
    let bytes: usize = str_byte_len(content.as_str());
    ToolResult { content, is_error: false, truncated: cut || body_capped, bytes }
}

/// What came of asking for a page.
#[derive(Debug)]
pub enum FetchEvent {
    ClientFailed(String),
    RequestFailed(String),
    /// The server refused; its status.
    BadStatus(String),
    BodyFailed(String),
    /// It took too long; how the time that passed is shown.
    TimedOut(String),
    /// The page.
    Page { content_type: String, body: Vec<u8>, body_capped: bool },
}

/// The `web.fetch` tool.
#[derive(Debug, Clone, Copy, Default)]
pub struct WebFetch {}

/// `label` followed by `detail`.
fn labelled(label: &str, detail: &str) -> (r: String)
    ensures
        r@ == label@ + detail@,
{
    let mut s = label.to_owned();
    s.append(detail);
    s
}

impl WebFetch {
    pub fn new() -> Self {
        WebFetch {  }
    }

    pub fn name(&self) -> (r: &'static str)
        ensures
            r@ == "web.fetch"@,
    {
        "web.fetch"
    }

    pub fn side_effect(&self) -> (r: SideEffect)
        ensures
            r == SideEffect::Network,
    {
        SideEffect::Network
    }

    /// The URL; a call without one is refused.
    pub fn url(&self, url: Option<String>) -> (r: Result<String, ToolError>)
        ensures
            match url {
                Some(u) => r is Ok && r->Ok_0@ == u@,
                None => r is Err && r->Err_0@ == ToolErrorView::InvalidInput("url 缺失"@),
            },
    {
        match url {
            Some(u) => Ok(u),
            None => Err(ToolError::InvalidInput("url 缺失".to_owned())),
        }
    }

    /// Turns what came of the fetch into the result of the call.
    pub fn execute(&self, event: FetchEvent, max_bytes: usize) -> (r: Result<ToolResult, ToolError>)
        ensures
            match event {
                FetchEvent::ClientFailed(e) => r is Err && r->Err_0@ == ToolErrorView::Exec(
                    "HTTP client 构建失败: "@ + e@,
                ),
                FetchEvent::RequestFailed(e) => r is Err && r->Err_0@ == ToolErrorView::Exec(
                    "HTTP 请求失败: "@ + e@,
                ),
                FetchEvent::BadStatus(s) => r is Err && r->Err_0@ == ToolErrorView::Exec(
                    "HTTP "@ + s@,
                ),
                FetchEvent::BodyFailed(e) => r is Err && r->Err_0@ == ToolErrorView::Exec(
                    "读取响应体失败: "@ + e@,
                ),
                FetchEvent::TimedOut(t) => r is Ok && r->Ok_0@ == text_result(
                    "web.fetch 执行超时（超过 "@ + t@ + "）"@,
                    true,
                ),
                FetchEvent::Page { content_type, body, body_capped } => r is Ok && r->Ok_0@
                    == fetched(
                    page_text(content_type@, lossy_text(body@)),
                    body_capped,
                    max_bytes as int,
                ),
            },
    {
        match event {
            FetchEvent::ClientFailed(e) => Err(
                ToolError::Exec(labelled("HTTP client 构建失败: ", e.as_str())),
            ),
            FetchEvent::RequestFailed(e) => Err(
                ToolError::Exec(labelled("HTTP 请求失败: ", e.as_str())),
            ),
            FetchEvent::BadStatus(s) => Err(ToolError::Exec(labelled("HTTP ", s.as_str()))),
            FetchEvent::BodyFailed(e) => Err(
                ToolError::Exec(labelled("读取响应体失败: ", e.as_str())),
            ),
            FetchEvent::TimedOut(t) => {
                let mut s = labelled("web.fetch 执行超时（超过 ", t.as_str());
                s.append("）");
                Ok(ToolResult::err_text(s))
            },
            FetchEvent::Page { content_type, body, body_capped } => {
                let text = decode_lossy(body.as_slice());
                let kind = to_chars(content_type.as_str());
                let page = if has(kind.as_slice(), to_chars("text/html").as_slice()) {
                    match convert_html(text.as_str()) {
                        Some(md) => md,
                        None => text,
                    }
                } else {
                    text
                };
                Ok(present_page(page, body_capped, max_bytes))
            },
        }
    }
}

proof fn lemma_walked_same(a: Seq<Seq<char>>, b: Seq<Seq<char>>, n: int)
    requires
        n < a.len(),
        n < b.len(),
        a.take(n) == b.take(n),
    ensures
        walked(a, n) == walked(b, n),
    decreases n,
{
    if n > 0 {
        assert(a.take(n - 1) == a.take(n).take(n - 1));
        assert(b.take(n - 1) == b.take(n).take(n - 1));
        assert(a[n - 1] == a.take(n)[n - 1] && b[n - 1] == b.take(n)[n - 1]);
        lemma_walked_same(a, b, n - 1);
    }
}

/// What follows is walked from where the segments before lead.
proof fn lemma_walked_on(
    a: Seq<Seq<char>>,
    b: Seq<Seq<char>>,
    i: int,
    j: int,
    n: int,
)
    requires
        0 <= i <= a.len(),
        0 <= j <= b.len(),
        n >= 0,
        a.len() - i == b.len() - j,
        i + n <= a.len(),
        a.skip(i) == b.skip(j),
        walked(a, i) == walked(b, j),
    ensures
        walked(a, i + n) == walked(b, j + n),
    decreases n,
{
    if n > 0 {
        lemma_walked_on(a, b, i, j, n - 1);
        assert(a[i + n - 1] == a.skip(i)[n - 1]);
        assert(b[j + n - 1] == b.skip(j)[n - 1]);
    }
}

/// A segment and a step up behind it lead nowhere, wherever they stand before
/// the last segment.
pub proof fn segment_and_step_up_cancel(
    before: Seq<Seq<char>>,
    x: Seq<char>,
    after: Seq<Seq<char>>,
)
    requires
        x != seq!['.'],
        x != seq!['.', '.'],
        after.len() > 0,
    ensures
        ({
            let long = before + seq![x, seq!['.', '.']] + after;
            let short = before + after;
            walked(long, long.len() as int) == walked(short, short.len() as int)
        }),
{
    let long = before + seq![x, seq!['.', '.']] + after;
    let short = before + after;
    let n = before.len() as int;
    assert(long.take(n) == before && short.take(n) == before);
    lemma_walked_same(long, short, n);
    assert(long[n] == x && long[n + 1] == seq!['.', '.']);
    let segs = walked(long, n);
    assert(walked(long, n + 1) == segs.push(x));
    assert(segs.push(x).drop_last() == segs);
    assert(seq!['.', '.'] != seq!['.']) by {
        assert(seq!['.', '.'].len() != seq!['.'].len());
    }
    assert(walked(long, n + 2) == one_up(segs.push(x)));
    assert(long.skip(n + 2) == after && short.skip(n) == after);
    lemma_walked_on(long, short, n + 2, n, after.len() as int);
}

/// A dot before the last segment leads nowhere, and neither does a step up at
/// the top.
pub proof fn dots_that_lead_nowhere(before: Seq<Seq<char>>, after: Seq<Seq<char>>)
    requires
        after.len() > 0,
    ensures
        ({
            let long = before + seq![seq!['.']] + after;
            let short = before + after;
            walked(long, long.len() as int) == walked(short, short.len() as int)
        }),
        ({
            let long = seq![seq!['.', '.']] + after;
            walked(long, long.len() as int) == walked(after, after.len() as int)
        }),
{
    let n = before.len() as int;
    let long = before + seq![seq!['.']] + after;
    let short = before + after;
    assert(long.take(n) == before && short.take(n) == before);
    lemma_walked_same(long, short, n);
    assert(long[n] == seq!['.']);
    assert(walked(long, n + 1) == walked(long, n));
    assert(long.skip(n + 1) == after && short.skip(n) == after);
    lemma_walked_on(long, short, n + 1, n, after.len() as int);
    let up = seq![seq!['.', '.']] + after;
    let none = Seq::<Seq<char>>::empty();
    assert(up[0] == seq!['.', '.']);
    assert(walked(up, 0) == none);
    assert(seq!['.', '.'] != seq!['.']) by {
        assert(seq!['.', '.'].len() != seq!['.'].len());
    }
    assert(walked(up, 1) == one_up(walked(up, 0)));
    assert(up.skip(1) == after && after.skip(0) == after);
    lemma_walked_on(up, after, 1, 0, after.len() as int);
}

proof fn lemma_path_end_at(s: Seq<char>, i: int, e: int)
    requires
        0 <= i <= e <= s.len(),
        forall|j: int| i <= j < e ==> #[trigger] s[j] != '?' && s[j] != '#',
        e < s.len() ==> s[e] == '?' || s[e] == '#',
    ensures
        path_end(s, i) == e,
    decreases e - i,
{
    if i < e {
        lemma_path_end_at(s, i + 1, e);
    }
}

proof fn lemma_last_slash(s: Seq<char>, i: int)
    requires
        0 <= i < s.len(),
        s[i] == '/',
        forall|j: int| i < j < s.len() ==> #[trigger] s[j] != '/',
    ensures
        last_slash(s) == Some(i),
    decreases s.len(),
{
    if i < s.len() - 1 {
        assert(s[s.len() - 1] != '/');
        let init = s.drop_last();
        assert forall|j: int| i < j < init.len() implies #[trigger] init[j] != '/' by {
            assert(init[j] == s[j]);
        }
        lemma_last_slash(init, i);
    }
}

/// The parts of the URL of a page: the scheme, the host, the directory, the
/// file and what follows the path.
pub open spec fn is_page(
    base: Seq<char>,
    scheme: Seq<char>,
    host: Seq<char>,
    dir: Seq<char>,
    file: Seq<char>,
    tail: Seq<char>,
) -> bool {
    &&& base == scheme + seq![':', '/', '/'] + host + dir + file + tail
    &&& !scheme.contains(':')
    &&& forall|i: int|
        0 <= i < host.len() ==> #[trigger] host[i] != '/' && host[i] != '?' && host[i] != '#'
    &&& dir.len() > 0 && dir[0] == '/' && dir.last() == '/'
    &&& forall|i: int| 0 <= i < dir.len() ==> #[trigger] dir[i] != '?' && dir[i] != '#'
    &&& forall|i: int|
        0 <= i < file.len() ==> #[trigger] file[i] != '/' && file[i] != '?' && file[i] != '#'
    &&& tail.len() > 0 ==> tail[0] == '?' || tail[0] == '#'
}

/// The directory of a path whose file holds no slash.
proof fn lemma_directory(dir: Seq<char>, file: Seq<char>)
    requires
        dir.len() > 0,
        dir.last() == '/',
        forall|i: int| 0 <= i < file.len() ==> #[trigger] file[i] != '/',
    ensures
        directory(dir + file) == dir,
{
    let path = dir + file;
    let d = dir.len() - 1;
    assert(path[d] == dir[d]);
    assert forall|j: int| d < j < path.len() implies #[trigger] path[j] != '/' by {
        assert(path[j] == file[j - dir.len()]);
    }
    lemma_last_slash(path, d);
    assert(path.take(d + 1) == dir);
}

/// Where the host and the path end in what follows the scheme.
proof fn lemma_host_and_path(rest: Seq<char>, host: Seq<char>, path: Seq<char>, tail: Seq<char>)
    requires
        rest == host + path + tail,
        forall|i: int|
            0 <= i < host.len() ==> #[trigger] host[i] != '/' && host[i] != '?' && host[i] != '#',
        path.len() > 0,
        path[0] == '/',
        forall|i: int| 0 <= i < path.len() ==> #[trigger] path[i] != '?' && path[i] != '#',
        tail.len() > 0 ==> tail[0] == '?' || tail[0] == '#',
    ensures
        path_end(rest, 0) == host.len() + path.len(),
        host_len(rest) == host.len(),
        rest.subrange(host_len(rest), path_end(rest, 0)) == path,
{
    let h = host.len() as int;
    let e = h + path.len();
    assert forall|j: int| 0 <= j < e implies #[trigger] rest[j] != '?' && rest[j] != '#' by {
        if j < h {
            assert(rest[j] == host[j]);
        } else {
            assert(rest[j] == path[j - h]);
        }
    }
    if tail.len() > 0 {
        assert(rest[e] == tail[0]);
    }
    lemma_path_end_at(rest, 0, e);
    let hier = rest.take(e);
    lemma_index_from(hier, '/', 0);
    assert(hier[h] == path[0]);
    let i = index_from(hier, '/', 0)->0;
    if i < h {
        assert(hier[i] == host[i]);
    }
    assert(rest.subrange(h, e) == path);
}

/// Where the scheme of a URL ends.
proof fn lemma_scheme(base: Seq<char>, scheme: Seq<char>, rest: Seq<char>)
    requires
        base == scheme + seq![':', '/', '/'] + rest,
        !scheme.contains(':'),
    ensures
        find_from(base, seq![':', '/', '/'], 0) == Some(scheme.len() as int),
        base.skip(scheme.len() as int + 3) == rest,
        base.take(scheme.len() as int + 1) == scheme + seq![':'],
{
    let mark = seq![':', '/', '/'];
    let s = scheme.len() as int;
    assert(base.subrange(s, s + 3) == mark);
    assert forall|k: int| 0 <= k < s implies !#[trigger] occurs_at(base, mark, k) by {
        if occurs_at(base, mark, k) {
            assert(base.subrange(k, k + 3)[0] == base[k]);
            assert(base[k] == scheme[k]);
            assert(scheme[k] == ':');
        }
    }
    lemma_found_at(base, mark, 0, s);
    assert(base.skip(s + 3) == rest);
    assert(base.take(s + 1) == scheme + seq![':']);
}

proof fn lemma_found_at(s: Seq<char>, pat: Seq<char>, from: int, at: int)
    requires
        0 <= from <= at,
        occurs_at(s, pat, at),
        forall|k: int| from <= k < at ==> !#[trigger] occurs_at(s, pat, k),
    ensures
        find_from(s, pat, from) == Some(at),
    decreases at - from,
{
    if from < at {
        assert(!occurs_at(s, pat, from));
        lemma_found_at(s, pat, from + 1, at);
    }
}

proof fn lemma_page(
    base: Seq<char>,
    scheme: Seq<char>,
    host: Seq<char>,
    dir: Seq<char>,
    file: Seq<char>,
    tail: Seq<char>,
)
    requires
        is_page(base, scheme, host, dir, file, tail),
    ensures
        find_from(base, seq![':', '/', '/'], 0) == Some(scheme.len() as int),
        base.take(scheme.len() as int + 1) == scheme + seq![':'],
        ({
            let s = scheme.len() as int;
            let rest = base.skip(s + 3);
            &&& base.take(s + 3 + host_len(rest)) == scheme + seq![':', '/', '/'] + host
            &&& rest.subrange(host_len(rest), path_end(rest, 0)) == dir + file
            &&& directory(dir + file) == dir
        }),
{
    let path = dir + file;
    let rest = host + path + tail;
    assert(base == scheme + seq![':', '/', '/'] + rest);
    lemma_scheme(base, scheme, rest);
    assert(path[0] == dir[0]);
    assert forall|i: int| 0 <= i < path.len() implies #[trigger] path[i] != '?' && path[i]
        != '#' by {
        if i < dir.len() {
            assert(path[i] == dir[i]);
        } else {
            assert(path[i] == file[i - dir.len()]);
        }
    }
    lemma_host_and_path(rest, host, path, tail);
    lemma_directory(dir, file);
    assert(base.take(scheme.len() as int + 3 + host.len()) == scheme + seq![':', '/', '/'] + host);
}

/// A location that names only a path is taken from the directory of the page,
/// whatever file and query the page has; what follows its own path stays
/// behind it as it is.
pub proof fn relative_location_is_taken_from_the_directory(
    base: &str,
    location: &str,
    scheme: Seq<char>,
    host: Seq<char>,
    dir: Seq<char>,
    file: Seq<char>,
    tail: Seq<char>,
    path: Seq<char>,
    more: Seq<char>,
    r: Result<String, ToolError>,
)
    requires
        call_ensures(join_redirect_url, (base, location), r),
        is_page(base@, scheme, host, dir, file, tail),
        !is_whole_url(location@),
        location@ == path + more,
        path.len() > 0,
        path[0] != '/',
        forall|i: int| 0 <= i < path.len() ==> #[trigger] path[i] != '?' && path[i] != '#',
        more.len() > 0 ==> more[0] == '?' || more[0] == '#',
    ensures
        r is Ok,
        r->Ok_0@ == scheme + seq![':', '/', '/'] + host + without_dots(dir + path) + more,
        (forall|i: int|
            0 <= i < pieces((dir + path).skip(1), '/').len() ==> #[trigger] pieces(
                (dir + path).skip(1),
                '/',
            )[i] != seq!['.'] && pieces((dir + path).skip(1), '/')[i] != seq!['.', '.'])
            ==> r->Ok_0@ == scheme + seq![':', '/', '/'] + host + dir + path + more,
{
    lemma_page(base@, scheme, host, dir, file, tail);
    let l = location@;
    let e = path.len() as int;
    assert forall|j: int| 0 <= j < e implies #[trigger] l[j] != '?' && l[j] != '#' by {
        assert(l[j] == path[j]);
    }
    if more.len() > 0 {
        assert(l[e] == more[0]);
    }
    lemma_path_end_at(l, 0, e);
    assert(l[0] == path[0]);
    assert(l.take(e) == path);
    assert(l.skip(e) == more);
    let whole = dir + path;
    assert(whole[0] == '/');
    if forall|i: int|
        0 <= i < pieces(whole.skip(1), '/').len() ==> #[trigger] pieces(whole.skip(1), '/')[i]
            != seq!['.'] && pieces(whole.skip(1), '/')[i] != seq!['.', '.'] {
        plain_path_is_kept(whole);
        let origin = scheme + seq![':', '/', '/'] + host;
        assert(origin + whole + more == origin + dir + path + more);
    }
}

/// A location that starts at the root replaces the path, one that names a host
/// all but the scheme, and a whole URL everything.
pub proof fn other_locations_replace_what_they_name(
    base: &str,
    location: &str,
    scheme: Seq<char>,
    host: Seq<char>,
    dir: Seq<char>,
    file: Seq<char>,
    tail: Seq<char>,
    r: Result<String, ToolError>,
)
    requires
        call_ensures(join_redirect_url, (base, location), r),
        is_page(base@, scheme, host, dir, file, tail),
    ensures
        ({
            let l = location@;
            let origin = scheme + seq![':', '/', '/'] + host;
            &&& r is Ok
            &&& is_whole_url(l) ==> r->Ok_0@ == l
            &&& l.len() >= 2 && l[0] == '/' && l[1] == '/' ==> r->Ok_0@ == scheme + seq![':'] + l
            &&& l.len() >= 1 && l[0] == '/' && (l.len() == 1 || l[1] != '/') ==> r->Ok_0@ == origin
                + l
            &&& l.len() >= 1 && l[0] == '?' ==> r->Ok_0@ == origin + dir + file + l
        }),
{
    lemma_page(base@, scheme, host, dir, file, tail);
    let l = location@;
    reveal_strlit("http://");
    reveal_strlit("https://");
    if is_whole_url(l) {
        let low = ascii_lower_all(l);
        if starts_with(low, "http://"@) {
            assert(low.subrange(0, 7)[0] == low[0]);
        } else {
            assert(low.subrange(0, 8)[0] == low[0]);
        }
        assert(low[0] == ascii_lower(l[0]));
    }
    let origin = scheme + seq![':', '/', '/'] + host;
    assert(origin + (dir + file) + l == origin + dir + file + l);
}

/// A location names a URL of its own exactly where it begins with `http://` or
/// `https://`, in whatever case.
pub proof fn whole_urls(location: Seq<char>)
    ensures
        is_whole_url(location) == ((location.len() >= 7 && ascii_lower_all(location).take(7)
            == "http://"@) || (location.len() >= 8 && ascii_lower_all(location).take(8)
            == "https://"@)),
{
    reveal_strlit("http://");
    reveal_strlit("https://");
    let low = ascii_lower_all(location);
    if low.len() >= 7 {
        assert(low.subrange(0, 7) == low.take(7));
    }
    if low.len() >= 8 {
        assert(low.subrange(0, 8) == low.take(8));
    }
}

/// At most five redirects are followed, each to where its location leads; an
/// answer that is no redirect is read.
pub proof fn redirects_are_followed_five_times(
    state: &mut FetchState,
    is_redirection: bool,
    location: Option<String>,
    base: &str,
    named: &str,
    target: Result<String, ToolError>,
    r: Result<FetchStep, ToolError>,
)
    requires
        old(state).wf(),
        call_ensures(FetchState::next, (state, is_redirection, location), r),
        base@ == old(state).current@,
        location is Some ==> named@ == location->0@,
        call_ensures(join_redirect_url, (base, named), target),
    ensures
        !is_redirection ==> r is Ok && r->Ok_0 is Read && *final(state) == *old(state),
        is_redirection ==> r is Ok == (old(state).hops < 5 && location is Some && target is Ok
            && encode_utf8(target->Ok_0@).len() <= 2048),
        is_redirection && r is Ok ==> r->Ok_0 is Follow && final(state).hops == old(state).hops + 1
            && final(state).current@ == target->Ok_0@,
        r is Err ==> *final(state) == *old(state),
        final(state).hops <= 5,
{
    if target is Ok {
        lemma_byte_len_is_encoding(target->Ok_0@);
    }
}

/// A connection is made to the host itself where it is an address, else to the
/// first of those it stands for, and only where all of them may be reached.
pub proof fn connection_is_made_to_the_first_address(
    host: &str,
    literal: Option<IpAddr>,
    ips: &Vec<IpAddr>,
    r: Result<IpAddr, ToolError>,
)
    requires
        call_ensures(pin_decision, (host, literal, ips), r),
    ensures
        literal is Some ==> r is Ok && r->Ok_0 == literal->0,
        literal is None ==> r is Ok == (ips@.len() > 0 && forall|i: int|
            0 <= i < ips@.len() ==> !blocked(#[trigger] ips@[i])),
        literal is None && r is Ok ==> r->Ok_0 == ips@[0],
{
    lemma_first_blocked(ips@, 0);
    if first_blocked(ips@, 0) is Some {
        let ip = first_blocked(ips@, 0)->0;
        let k = choose|k: int| 0 <= k < ips@.len() && ips@[k] == ip;
        assert(blocked(ips@[k]));
    }
}

/// A page is asked for only at an address that may be reached and that its
/// host stands for.
pub proof fn page_is_asked_for_at_an_address_of_its_host(
    state: &FetchState,
    host: &str,
    ips: Vec<IpAddr>,
    r: Result<HopStep, ToolError>,
)
    requires
        call_ensures(FetchState::resolved, (state, host, Ok(ips)), r),
        r is Ok,
    ensures
        r->Ok_0 matches HopStep::Request { host: h, ip, port } && ips@.contains(ip) && !blocked(ip)
            && forall|i: int| 0 <= i < ips@.len() ==> !blocked(#[trigger] ips@[i]),
{
    let found = Ok::<Seq<IpAddr>, Seq<char>>(ips@);
    assert(hop_view(r) == hop_resolved(state.current@, host@, found));
    assert(r->Ok_0@ == r->Ok_0.view());
    lemma_first_blocked(ips@, 0);
    let chosen = lookup_check(host@, found)->Ok_0;
    accepted_addresses_may_be_reached(host@, found);
    pinned_address_may_be_reached(host_and_port(state.current@)->Ok_0.0, chosen);
    lemma_distinct_members(ips@);
    let ip = r->Ok_0->Request_ip;
    assert(chosen.contains(ip));
    let k = choose|k: int| 0 <= k < chosen.len() && chosen[k] == ip;
    assert(ips@.contains(chosen[k]));
}

/// A body is kept from the front as far as there is room, and what did not fit
/// is told.
pub proof fn body_is_kept_from_the_front(
    reader: &mut BodyReader,
    chunk: &[u8],
    max: usize,
    more: bool,
)
    requires
        !old(reader).capped,
        old(reader).body@.len() <= max,
        call_ensures(BodyReader::take, (reader, chunk, max), more),
    ensures
        ({
            let all = old(reader).body@ + chunk@;
            &&& all.len() <= max ==> final(reader).body@ == all
            &&& all.len() > max ==> final(reader).body@ == all.take(max as int)
            &&& final(reader).capped == (all.len() > max || old(reader).body@.len() == max)
            &&& more == !final(reader).capped
        }),
{
    let all = old(reader).body@ + chunk@;
    if all.len() <= max {
        assert(chunk@.take(chunk@.len() as int) == chunk@);
        assert(final(reader).body@ == all);
    } else {
        assert(final(reader).body@ == all.take(max as int));
    }
}

/// A page is shown as its text, HTML as Markdown where it can be turned into
/// it, cut to the limit; whatever was left out is told.
pub proof fn page_is_shown_as_text(
    tool: &WebFetch,
    content_type: String,
    body: Vec<u8>,
    body_capped: bool,
    max: usize,
    shown: String,
    cut: (String, bool),
    r: Result<ToolResult, ToolError>,
)
    requires
        call_ensures(
            WebFetch::execute,
            (tool, (FetchEvent::Page { content_type, body, body_capped }), max),
            r,
        ),
        ({
            let text = lossy_text(body@);
            let html = exists|i: int|
                0 <= i <= content_type@.len() - 9 && #[trigger] content_type@.subrange(i, i + 9)
                    == "text/html"@;
            shown@ == if html && html_as_markdown(text) is Some {
                html_as_markdown(text)->0
            } else {
                text
            }
        }),
        call_ensures(truncate_output, (shown, max), cut),
    ensures
        r is Ok,
        r->Ok_0.content@ == cut.0@,
        r->Ok_0.truncated == (cut.1 || body_capped),
        !r->Ok_0.is_error,
{
    reveal_strlit("text/html");
    let s = content_type@;
    if contains(s, "text/html"@) {
        let i = choose|i: int| occurs_at(s, "text/html"@, i);
        assert(s.subrange(i, i + 9) == "text/html"@);
    }
    if exists|i: int| 0 <= i <= s.len() - 9 && #[trigger] s.subrange(i, i + 9) == "text/html"@ {
        let i = choose|i: int|
            0 <= i <= s.len() - 9 && #[trigger] s.subrange(i, i + 9) == "text/html"@;
        assert(occurs_at(s, "text/html"@, i));
    }
}

/// The host of a URL is asked under its own name, at its port or at 80.
pub proof fn host_is_asked_at_its_port(p: UrlParts, r: Result<(String, u16), ToolError>)
    requires
        call_ensures(host_port_of_parts, (p,), r),
    ensures
        r is Ok == p.host_text is Some,
        r is Ok ==> {
            &&& r matches Ok((h, port))
            &&& h@ == p.host_text->0@
            &&& p.port is Some ==> port == p.port->0
            &&& p.port is None ==> port == 80
        },
{
}

/// What a fetch does first: a URL that must not be fetched is refused, a name
/// is looked up, and an address is asked as it stands.
pub proof fn fetch_starts_with_the_check(
    state: &FetchState,
    url: &str,
    check: Result<UrlCheck, ToolError>,
    r: Result<HopStep, ToolError>,
)
    requires
        call_ensures(FetchState::start, (state,), r),
        url@ == state.current@,
        call_ensures(validate_url, (url,), check),
    ensures
        check is Err ==> r is Err && r->Err_0@ == check->Err_0@,
        check matches Ok(UrlCheck::Lookup { host, port }) ==> {
            &&& r matches Ok(HopStep::Lookup { host: h, port: p })
            &&& h@ == host@
            &&& p == port
        },
        check matches Ok(UrlCheck::Address { ip, port }) ==> (r is Ok ==> r->Ok_0 is Request
            && r->Ok_0->Request_ip == ip),
{
    assert(hop_view(r) == hop_start(state.current@));
    if check is Ok {
        assert(check->Ok_0@ == check->Ok_0.view());
    }
    if r is Ok {
        assert(r->Ok_0@ == r->Ok_0.view());
    }
}

} // verus!
