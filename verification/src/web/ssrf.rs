//! Which addresses a fetch may reach.
//!
//! A URL is refused unless it is http or https and every address its host
//! stands for may be reached. One bad address among several refuses them all.

use vstd::prelude::*;
use vstd::string::*;
use crate::text::chars::same;
use crate::text::pick::{lemma_picks_none, lemma_picks_step, picks};
use crate::text::split::opt_view;
use crate::tool::{ToolError, ToolErrorView};
use crate::web::ip::{blocked, is_blocked_ip, show_ip, shown_ip, IpAddr};

verus! {

/// The host of a URL.
#[derive(Debug)]
pub enum UrlHost {
    /// A name, to be looked up.
    Name(String),
    /// An IPv4 address, by its bytes.
    V4([u8; 4]),
    /// An IPv6 address, by its groups.
    V6([u16; 8]),
}

/// What the logic reads of a URL.
#[derive(Debug)]
pub struct UrlParts {
    pub scheme: String,
    pub host: Option<UrlHost>,
    /// The host as text.
    pub host_text: Option<String>,
    /// The port, or the usual one of the scheme.
    pub port: Option<u16>,
}

/// A host with its text as a sequence.
#[verifier::ext_equal]
pub enum HostView {
    Name(Seq<char>),
    Address(IpAddr),
}

/// The parts of a URL with their texts as sequences.
#[verifier::ext_equal]
pub struct PartsView {
    pub scheme: Seq<char>,
    pub host: Option<HostView>,
    pub host_text: Option<Seq<char>>,
    pub port: Option<u16>,
}

/// The IPv4 address with these bytes.
pub open spec fn address_v4(a: [u8; 4]) -> IpAddr {
    IpAddr::V4(a@[0], a@[1], a@[2], a@[3])
}

/// The IPv6 address with these groups.
pub open spec fn address_v6(a: [u16; 8]) -> IpAddr {
    IpAddr::V6(a@[0], a@[1], a@[2], a@[3], a@[4], a@[5], a@[6], a@[7])
}

impl View for UrlParts {
    type V = PartsView;

    open spec fn view(&self) -> PartsView {
        PartsView {
            scheme: self.scheme@,
            host: match self.host {
                None => None,
                Some(UrlHost::Name(n)) => Some(HostView::Name(n@)),
                Some(UrlHost::V4(a)) => Some(HostView::Address(address_v4(a))),
                Some(UrlHost::V6(a)) => Some(HostView::Address(address_v6(a))),
            },
            host_text: opt_view(self.host_text),
            port: self.port,
        }
    }
}

/// The parts of a URL, or what is wrong with it.
pub uninterp spec fn url_parts(url: Seq<char>) -> Result<PartsView, Seq<char>>;

/// Reads a URL: `url::Url::parse`, with the `scheme`, `host`, `host_str` and
/// `port_or_known_default` of the result.
///
/// The claim: the parts, or what the error says, are a function of the text.
#[verifier::external_body]
pub(crate) fn parse_url(text: &str) -> (r: Result<UrlParts, String>)
    ensures
        match r {
            Ok(p) => url_parts(text@) == Ok::<PartsView, Seq<char>>(p@),
            Err(e) => url_parts(text@) == Err::<PartsView, Seq<char>>(e@),
        },
{
    let u = url::Url::parse(text).map_err(|e| e.to_string())?;
    let host = u.host().map(|h| match h {
        url::Host::Domain(d) => UrlHost::Name(d.to_owned()),
        url::Host::Ipv4(ip) => UrlHost::V4(ip.octets()),
        url::Host::Ipv6(ip) => UrlHost::V6(ip.segments()),
    });
    let host_text = u.host_str().map(|h| h.to_owned());
    Ok(UrlParts { scheme: u.scheme().to_owned(), host, host_text, port: u.port_or_known_default() })
}

/// What has to be checked before a URL is fetched.
#[derive(Debug)]
pub enum UrlCheck {
    /// The host is an address, and may be reached.
    Address { ip: IpAddr, port: u16 },
    /// The host has to be looked up.
    Lookup { host: String, port: u16 },
}

/// A check with its texts as sequences.
#[verifier::ext_equal]
pub enum CheckView {
    Address { ip: IpAddr, port: u16 },
    Lookup { host: Seq<char>, port: u16 },
}

impl View for UrlCheck {
    type V = CheckView;

    open spec fn view(&self) -> CheckView {
        match self {
            UrlCheck::Address { ip, port } => CheckView::Address { ip: *ip, port: *port },
            UrlCheck::Lookup { host, port } => CheckView::Lookup { host: host@, port: *port },
        }
    }
}

/// The refusal of an address.
pub open spec fn ip_refusal(ip: IpAddr) -> ToolErrorView {
    ToolErrorView::InvalidInput(
        "SSRF 防护：IP `"@ + shown_ip(ip) + "` 被拒绝（loopback/private/link-local）"@,
    )
}

/// What follows from the parts of a URL.
pub open spec fn parts_check(p: PartsView) -> Result<CheckView, ToolErrorView> {
    if p.scheme != "http"@ && p.scheme != "https"@ {
        Err(
            ToolErrorView::InvalidInput(
                "不允许的 scheme `"@ + p.scheme + "`（仅 http/https）"@,
            ),
        )
    } else {
        let port = match p.port {
            Some(n) => n,
            None => 80,
        };
        match p.host {
            None => Err(ToolErrorView::InvalidInput("URL 缺少 hostname"@)),
            Some(HostView::Address(ip)) => if blocked(ip) {
                Err(ip_refusal(ip))
            } else {
                Ok(CheckView::Address { ip, port })
            },
            Some(HostView::Name(n)) => Ok(CheckView::Lookup { host: n, port }),
        }
    }
}

/// What follows from a URL.
pub open spec fn url_check(url: Seq<char>) -> Result<CheckView, ToolErrorView> {
    match url_parts(url) {
        Err(e) => Err(ToolErrorView::InvalidInput("URL 解析失败: "@ + e)),
        Ok(p) => parts_check(p),
    }
}

/// What a check comes to, as a value.
pub open spec fn check_view(r: Result<UrlCheck, ToolError>) -> Result<CheckView, ToolErrorView> {
    match r {
        Ok(c) => Ok(c@),
        Err(e) => Err(e@),
    }
}

/// Refuses an address that must not be reached.
pub fn validate_ip(ip: &IpAddr) -> (r: Result<(), ToolError>)
    ensures
        r is Err == blocked(*ip),
        r is Err ==> r->Err_0@ == ip_refusal(*ip),
{
    if is_blocked_ip(ip) {
        let mut s = "SSRF 防护：IP `".to_owned();
        let shown = show_ip(ip);
        s.append(shown.as_str());
        s.append("` 被拒绝（loopback/private/link-local）");
        return Err(ToolError::InvalidInput(s));
    }
    Ok(())
}

/// Checks a host that is an address.
fn check_address(ip: IpAddr, port: u16) -> (r: Result<UrlCheck, ToolError>)
    ensures
        check_view(r) == (if blocked(ip) {
            Err::<CheckView, ToolErrorView>(ip_refusal(ip))
        } else {
            Ok::<CheckView, ToolErrorView>(CheckView::Address { ip, port })
        }),
{
    match validate_ip(&ip) {
        Ok(()) => Ok(UrlCheck::Address { ip, port }),
        Err(e) => Err(e),
    }
}

/// What follows from the parts of a URL.
pub fn check_parts(p: UrlParts) -> (r: Result<UrlCheck, ToolError>)
    ensures
        check_view(r) == parts_check(p@),
{
    if !same(p.scheme.as_str(), "http") && !same(p.scheme.as_str(), "https") {
        let mut s = "不允许的 scheme `".to_owned();
        s.append(p.scheme.as_str());
        s.append("`（仅 http/https）");
        return Err(ToolError::InvalidInput(s));
    }
    let port: u16 = match p.port {
        Some(n) => n,
        None => 80,
    };
    match p.host {
        None => Err(ToolError::InvalidInput("URL 缺少 hostname".to_owned())),
        Some(UrlHost::V4(a)) => check_address(IpAddr::V4(a[0], a[1], a[2], a[3]), port),
        Some(UrlHost::V6(a)) => check_address(
            IpAddr::V6(a[0], a[1], a[2], a[3], a[4], a[5], a[6], a[7]),
            port,
        ),
        Some(UrlHost::Name(host)) => Ok(UrlCheck::Lookup { host, port }),
    }
}

/// Refuses a URL that must not be fetched, as far as the URL itself shows it.
/// Where its host is a name, the addresses it stands for are still to be
/// checked.
pub fn validate_url(url: &str) -> (r: Result<UrlCheck, ToolError>)
    ensures
        check_view(r) == url_check(url@),
{
    match parse_url(url) {
        Err(e) => {
            let mut s = "URL 解析失败: ".to_owned();
            s.append(e.as_str());
            Err(ToolError::InvalidInput(s))
        },
        Ok(p) => check_parts(p),
    }
}

/// The first address that must not be reached.
pub open spec fn first_blocked(ips: Seq<IpAddr>, i: int) -> Option<IpAddr>
    decreases ips.len() - i,
{
    if i < 0 || i >= ips.len() {
        None
    } else if blocked(ips[i]) {
        Some(ips[i])
    } else {
        first_blocked(ips, i + 1)
    }
}

/// The first address that must not be reached is one of them, and there is
/// none exactly where every address may be reached.
pub proof fn lemma_first_blocked(ips: Seq<IpAddr>, i: int)
    requires
        0 <= i,
    ensures
        match first_blocked(ips, i) {
            Some(ip) => blocked(ip) && ips.contains(ip),
            None => forall|k: int| i <= k < ips.len() ==> !blocked(#[trigger] ips[k]),
        },
    decreases ips.len() - i,
{
    if i < ips.len() && !blocked(ips[i]) {
        lemma_first_blocked(ips, i + 1);
    }
}

/// The addresses without repetitions, in the order of their first occurrence.
pub open spec fn distinct(ips: Seq<IpAddr>) -> Seq<IpAddr>
    decreases ips.len(),
{
    if ips.len() == 0 {
        Seq::empty()
    } else {
        let init = distinct(ips.drop_last());
        if init.contains(ips.last()) {
            init
        } else {
            init.push(ips.last())
        }
    }
}

/// What follows from looking up a host.
pub open spec fn lookup_check(host: Seq<char>, found: Result<Seq<IpAddr>, Seq<char>>) -> Result<
    Seq<IpAddr>,
    ToolErrorView,
> {
    match found {
        Err(e) => Err(ToolErrorView::Exec("DNS 解析失败 `"@ + host + "`: "@ + e)),
        Ok(ips) => match first_blocked(ips, 0) {
            Some(ip) => Err(ip_refusal(ip)),
            None => if ips.len() == 0 {
                Err(ToolErrorView::Exec("DNS 解析 `"@ + host + "` 无可用地址"@))
            } else {
                Ok(distinct(ips))
            },
        },
    }
}

/// Whether an address is on the list.
fn on_list(ips: &Vec<IpAddr>, ip: IpAddr) -> (r: bool)
    ensures
        r == ips@.contains(ip),
{
    let mut i: usize = 0;
    while i < ips.len()
        invariant
            i <= ips@.len(),
            forall|j: int| 0 <= j < i ==> ips@[j] != ip,
        decreases ips@.len() - i,
    {
        if ips[i] == ip {
            return true;
        }
        i = i + 1;
    }
    false
}

/// Checks the addresses that a host stands for. One that must not be reached
/// refuses them all.
pub fn resolve_and_validate_host(host: &str, found: Result<Vec<IpAddr>, String>) -> (r: Result<
    Vec<IpAddr>,
    ToolError,
>)
    ensures
        ({
            let seen = match found {
                Ok(v) => Ok(v@),
                Err(e) => Err(e@),
            };
            match r {
                Ok(v) => lookup_check(host@, seen) == Ok::<Seq<IpAddr>, ToolErrorView>(v@),
                Err(e) => lookup_check(host@, seen) == Err::<Seq<IpAddr>, ToolErrorView>(e@),
            }
        }),
{
    match found {
        Err(e) => {
            let mut s = "DNS 解析失败 `".to_owned();
            s.append(host);
            s.append("`: ");
            s.append(e.as_str());
            Err(ToolError::Exec(s))
        },
        Ok(ips) => {
            let mut out: Vec<IpAddr> = Vec::new();
            let mut i: usize = 0;
            assert(ips@.take(0) == Seq::<IpAddr>::empty());
            while i < ips.len()
                invariant
                    i <= ips@.len(),
                    first_blocked(ips@, 0) == first_blocked(ips@, i as int),
                    out@ == distinct(ips@.take(i as int)),
                    i > 0 ==> out@.len() > 0,
                    found == Ok::<Vec<IpAddr>, String>(ips),
                decreases ips@.len() - i,
            {
                if let Err(e) = validate_ip(&ips[i]) {
                    return Err(e);
                }
                assert(ips@.take(i + 1).drop_last() == ips@.take(i as int));
                assert(ips@.take(i + 1).last() == ips@[i as int]);
                if !on_list(&out, ips[i]) {
                    out.push(ips[i]);
                }
                i = i + 1;
            }
            assert(ips@.take(ips@.len() as int) == ips@);
            if out.len() == 0 {
                let mut s = "DNS 解析 `".to_owned();
                s.append(host);
                s.append("` 无可用地址");
                return Err(ToolError::Exec(s));
            }
            Ok(out)
        },
    }
}

/// Every address that a check lets through may be reached.
pub proof fn accepted_addresses_may_be_reached(
    host: Seq<char>,
    found: Result<Seq<IpAddr>, Seq<char>>,
)
    ensures
        lookup_check(host, found) matches Ok(ips) ==> ips.len() > 0 && forall|i: int|
            0 <= i < ips.len() ==> !blocked(#[trigger] ips[i]),
{
    if let Ok(ips) = found {
        lemma_first_blocked(ips, 0);
        lemma_distinct_members(ips);
        if lookup_check(host, found) is Ok {
            let d = distinct(ips);
            assert forall|i: int| 0 <= i < d.len() implies !blocked(#[trigger] d[i]) by {
                assert(ips.contains(d[i]));
                let k = choose|k: int| 0 <= k < ips.len() && ips[k] == d[i];
                assert(!blocked(ips[k]));
            }
        }
    }
}

/// One bad address refuses the whole lookup.
pub proof fn one_blocked_address_refuses_all(host: Seq<char>, ips: Seq<IpAddr>, i: int)
    requires
        0 <= i < ips.len(),
        blocked(ips[i]),
    ensures
        lookup_check(host, Ok::<Seq<IpAddr>, Seq<char>>(ips)) is Err,
{
    lemma_first_blocked(ips, 0);
}

/// Every distinct address is one of the addresses.
pub proof fn lemma_distinct_members(ips: Seq<IpAddr>)
    ensures
        forall|i: int|
            0 <= i < distinct(ips).len() ==> ips.contains(#[trigger] distinct(ips)[i]),
        ips.len() > 0 ==> distinct(ips).len() > 0,
    decreases ips.len(),
{
    if ips.len() > 0 {
        let init = ips.drop_last();
        lemma_distinct_members(init);
        let d = distinct(ips);
        let d0 = distinct(init);
        assert forall|i: int| 0 <= i < d.len() implies ips.contains(#[trigger] d[i]) by {
            if i < d0.len() {
                assert(d[i] == d0[i]);
                assert(init.contains(d0[i]));
                let k = choose|k: int| 0 <= k < init.len() && init[k] == d0[i];
                assert(ips[k] == d[i]);
            } else {
                assert(ips[ips.len() - 1] == d[i]);
            }
        }
    }
}

/// A URL whose host is an address that must not be reached is refused,
/// whatever its scheme and port.
pub proof fn blocked_literal_is_refused(p: PartsView, ip: IpAddr)
    requires
        p.host == Some(HostView::Address(ip)),
        blocked(ip),
    ensures
        parts_check(p) is Err,
{
}

/// A URL may be fetched only over http or https and only from a host; one that
/// is an address is asked only where it may be reached, a name is looked up as
/// it stands; without a port it is 80.
pub proof fn urls_that_may_be_fetched(p: UrlParts, r: Result<UrlCheck, ToolError>)
    requires
        call_ensures(check_parts, (p,), r),
    ensures
        ({
            let web = p.scheme@ == "http"@ || p.scheme@ == "https"@;
            let port = if p.port is Some {
                p.port->0
            } else {
                80
            };
            &&& !web || p.host is None ==> r is Err
            &&& p.host matches Some(UrlHost::Name(n)) ==> (web ==> {
                &&& r is Ok
                &&& r->Ok_0 matches UrlCheck::Lookup { host, port: q }
                &&& host@ == n@
                &&& q == port
            })
            &&& p.host matches Some(UrlHost::V4(v)) ==> (web ==> {
                let ip = IpAddr::V4(v@[0], v@[1], v@[2], v@[3]);
                &&& r is Ok == !blocked(ip)
                &&& r is Ok ==> r->Ok_0 == (UrlCheck::Address { ip, port })
            })
            &&& p.host matches Some(UrlHost::V6(v)) ==> (web ==> {
                let ip = IpAddr::V6(
                    v@[0],
                    v@[1],
                    v@[2],
                    v@[3],
                    v@[4],
                    v@[5],
                    v@[6],
                    v@[7],
                );
                &&& r is Ok == !blocked(ip)
                &&& r is Ok ==> r->Ok_0 == (UrlCheck::Address { ip, port })
            })
            &&& r is Err ==> r->Err_0 is InvalidInput
        }),
{
    if r is Ok {
        assert(r->Ok_0@ == r->Ok_0.view());
    }
}

proof fn lemma_distinct_holds(ips: Seq<IpAddr>)
    ensures
        forall|x: IpAddr| #[trigger] distinct(ips).contains(x) == ips.contains(x),
    decreases ips.len(),
{
    let d = distinct(ips);
    if ips.len() > 0 {
        let init = ips.drop_last();
        let d0 = distinct(init);
        lemma_distinct_holds(init);
        assert forall|x: IpAddr| #[trigger] d.contains(x) == ips.contains(x) by {
            assert(d0.contains(x) == init.contains(x));
            if ips.contains(x) && x != ips.last() {
                let k = choose|k: int| 0 <= k < ips.len() && ips[k] == x;
                assert(init[k] == x);
            }
            if init.contains(x) {
                let k = choose|k: int| 0 <= k < init.len() && init[k] == x;
                assert(ips[k] == x);
            }
            if x == ips.last() {
                assert(ips[ips.len() - 1] == x);
                if !d0.contains(x) {
                    assert(d[d0.len() as int] == x);
                }
            }
            if d0.contains(x) {
                let k = choose|k: int| 0 <= k < d0.len() && d0[k] == x;
                assert(d[k] == x);
            }
            if d.contains(x) && x != ips.last() {
                let k = choose|k: int| 0 <= k < d.len() && d[k] == x;
                assert(d0[k] == x);
            }
        }
    }
}

proof fn lemma_distinct_picks(ips: Seq<IpAddr>, picked: Seq<int>)
    requires
        picks(
            picked,
            ips.len() as int,
            |i: int| forall|j: int| 0 <= j < i ==> #[trigger] ips[j] != ips[i],
        ),
    ensures
        distinct(ips) == Seq::new(picked.len(), |k: int| ips[picked[k]]),
    decreases ips.len(),
{
    let n = ips.len() as int;
    let wanted = |i: int| forall|j: int| 0 <= j < i ==> #[trigger] ips[j] != ips[i];
    if n == 0 {
        lemma_picks_none(picked, n, wanted);
        assert(Seq::new(picked.len(), |k: int| ips[picked[k]]) == Seq::<IpAddr>::empty());
    } else {
        lemma_picks_step(picked, n, wanted);
        let init = ips.drop_last();
        let fewer = if wanted(n - 1) {
            picked.drop_last()
        } else {
            picked
        };
        let narrow = |i: int| forall|j: int| 0 <= j < i ==> #[trigger] init[j] != init[i];
        assert forall|i: int| 0 <= i < n - 1 implies #[trigger] narrow(i) == wanted(i) by {
            if narrow(i) {
                assert forall|j: int| 0 <= j < i implies #[trigger] ips[j] != ips[i] by {
                    assert(init[j] == ips[j]);
                }
            }
            if wanted(i) {
                assert forall|j: int| 0 <= j < i implies #[trigger] init[j] != init[i] by {
                    assert(init[j] == ips[j]);
                }
            }
        }
        assert(picks(fewer, n - 1, narrow)) by {
            assert(picks(fewer, n - 1, wanted));
            assert forall|i: int| 0 <= i < n - 1 && #[trigger] narrow(i) implies fewer.contains(
                i,
            ) by {
                assert(wanted(i));
            }
            assert forall|a: int| 0 <= a < fewer.len() implies 0 <= #[trigger] fewer[a] < n - 1
                && narrow(fewer[a]) by {
                assert(wanted(fewer[a]));
            }
        }
        lemma_distinct_picks(init, fewer);
        lemma_distinct_holds(init);
        let x = ips.last();
        assert(distinct(init).contains(x) == init.contains(x));
        if init.contains(x) {
            let j = choose|j: int| 0 <= j < init.len() && init[j] == x;
            assert(ips[j] == ips[n - 1]);
            assert(!wanted(n - 1));
        } else {
            assert forall|j: int| 0 <= j < n - 1 implies #[trigger] ips[j] != ips[n - 1] by {
                assert(init[j] == ips[j]);
            }
            assert(wanted(n - 1));
        }
        assert forall|k: int| 0 <= k < fewer.len() implies #[trigger] init[fewer[k]]
            == ips[fewer[k]] by {
            assert(0 <= fewer[k] < n - 1);
        }
        assert(distinct(ips) == Seq::new(picked.len(), |k: int| ips[picked[k]]));
    }
}

/// A host may be asked only where every address that it stands for may be
/// reached, and there is one; then each address is handed on once, in the
/// order in which the lookup named it.
pub proof fn host_is_asked_where_every_address_may_be_reached(
    host: &str,
    ips: Vec<IpAddr>,
    picked: Seq<int>,
    r: Result<Vec<IpAddr>, ToolError>,
)
    requires
        call_ensures(resolve_and_validate_host, (host, Ok(ips)), r),
        picks(
            picked,
            ips@.len() as int,
            |i: int| forall|j: int| 0 <= j < i ==> #[trigger] ips@[j] != ips@[i],
        ),
    ensures
        r is Ok == (ips@.len() > 0 && forall|i: int|
            0 <= i < ips@.len() ==> !blocked(#[trigger] ips@[i])),
        r is Ok ==> r->Ok_0@ == Seq::new(picked.len(), |k: int| ips@[picked[k]]),
{
    lemma_first_blocked(ips@, 0);
    lemma_distinct_picks(ips@, picked);
    if first_blocked(ips@, 0) is Some {
        let ip = first_blocked(ips@, 0)->0;
        let k = choose|k: int| 0 <= k < ips@.len() && ips@[k] == ip;
        assert(blocked(ips@[k]));
    }
}

/// A lookup that fails is an error that names the host.
pub proof fn failed_lookup_is_told(
    host: &str,
    e: String,
    r: Result<Vec<IpAddr>, ToolError>,
)
    requires
        call_ensures(resolve_and_validate_host, (host, Err(e)), r),
    ensures
        r is Err,
        r->Err_0@ == ToolErrorView::Exec("DNS 解析失败 `"@ + host@ + "`: "@ + e@),
{
}

/// An address is refused exactly where it must not be reached.
pub proof fn refused_addresses(ip: &IpAddr, bad: bool, r: Result<(), ToolError>)
    requires
        call_ensures(validate_ip, (ip,), r),
        call_ensures(is_blocked_ip, (ip,), bad),
    ensures
        r is Err == bad,
        r is Err ==> r->Err_0 is InvalidInput,
{
}

/// A URL is judged by its parts, and one that has none is refused.
pub proof fn url_is_judged_by_its_parts(
    url: &str,
    p: UrlParts,
    by_parts: Result<UrlCheck, ToolError>,
    r: Result<UrlCheck, ToolError>,
)
    requires
        call_ensures(validate_url, (url,), r),
        call_ensures(check_parts, (p,), by_parts),
    ensures
        url_parts(url@) == Ok::<PartsView, Seq<char>>(p@) ==> check_view(r) == check_view(by_parts),
        url_parts(url@) is Err ==> r is Err && r->Err_0 is InvalidInput,
{
}

} // verus!
