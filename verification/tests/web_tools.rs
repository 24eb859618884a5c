//! Fetching pages and searching the web.

use minicoding::tool::{SideEffect, ToolError, ToolResult};
use minicoding::web::fetch::{
    host_port_of, join_redirect_url, pin_decision, present_page, BodyReader, FetchEvent,
    FetchState, FetchStep, HopStep, WebFetch, MAX_BODY_BYTES, MAX_REDIRECTS,
};
use minicoding::web::ip::{
    embedded_ipv4, is_blocked_ip, is_ipv6_link_local, is_ipv6_ula, show_ip, IpAddr,
};
use minicoding::web::search::{
    parse_ddg_results, present_results, strip_tags, unescape, SearchEvent, WebSearch,
};
use minicoding::web::ssrf::{resolve_and_validate_host, validate_ip, validate_url, UrlCheck};

fn v4(a: u8, b: u8, c: u8, d: u8) -> IpAddr {
    IpAddr::V4(a, b, c, d)
}

/// An IPv6 address from its first groups and its last ones.
fn v6(head: &[u16], tail: &[u16]) -> IpAddr {
    let mut g = [0u16; 8];
    g[..head.len()].copy_from_slice(head);
    g[8 - tail.len()..].copy_from_slice(tail);
    IpAddr::V6(g[0], g[1], g[2], g[3], g[4], g[5], g[6], g[7])
}

/// `::ffff:a.b.c.d`
fn mapped(a: u16, b: u16, c: u16, d: u16) -> IpAddr {
    v6(&[], &[0xffff, a * 256 + b, c * 256 + d])
}

#[test]
fn absolute_location_passthrough() {
    assert_eq!(
        join_redirect_url("https://a.com/x", "https://b.com/y").expect("abs"),
        "https://b.com/y"
    );
}

#[test]
fn relative_location_joined_to_origin() {
    assert_eq!(join_redirect_url("https://a.com/x/y", "/z").expect("rel"), "https://a.com/z");
}

#[test]
fn relative_location_resolves_against_current_directory() {
    assert_eq!(
        join_redirect_url("https://a.com/b/c", "d/e").expect("rel"),
        "https://a.com/b/d/e"
    );
    assert_eq!(join_redirect_url("https://a.com/b/c", "../d").expect("up"), "https://a.com/d");
    assert_eq!(join_redirect_url("https://a.com/b", "./c/").expect("dot"), "https://a.com/c/");
}

fn redirect(base: &str, location: &str) -> String {
    join_redirect_url(base, location).expect("redirect")
}

#[test]
fn query_of_the_page_is_not_part_of_its_path() {
    assert_eq!(redirect("https://a.com/b/c?x=/y", "d"), "https://a.com/b/d");
    assert_eq!(redirect("https://a.com/b/c#/y", "d"), "https://a.com/b/d");
    assert_eq!(redirect("https://a.com?x=1", "d"), "https://a.com/d");
    assert_eq!(redirect("https://a.com?x=1", "/d"), "https://a.com/d");
    assert_eq!(redirect("https://a.com#/f", "/d"), "https://a.com/d");
}

#[test]
fn last_step_up_or_stay_ends_in_a_directory() {
    assert_eq!(redirect("https://a.com/b/c/d", ".."), "https://a.com/b/");
    assert_eq!(redirect("https://a.com/b/c/d", "."), "https://a.com/b/c/");
    assert_eq!(redirect("https://a.com/b/c/d", "../"), "https://a.com/b/");
    assert_eq!(redirect("https://a.com/b", "../../.."), "https://a.com/");
    assert_eq!(redirect("https://a.com/b/c/d", "x/.."), "https://a.com/b/c/");
}

#[test]
fn empty_segments_of_a_path_are_kept() {
    assert_eq!(redirect("https://a.com/b//c", "d"), "https://a.com/b//d");
    assert_eq!(redirect("https://a.com/b/c", "d//e"), "https://a.com/b/d//e");
    assert_eq!(redirect("https://a.com/b//c", "../d"), "https://a.com/b/d");
}

#[test]
fn query_of_a_location_is_left_as_it_is() {
    assert_eq!(redirect("https://a.com/b/c", "d?u=x/../y"), "https://a.com/b/d?u=x/../y");
    assert_eq!(redirect("https://a.com/b/c", "../d#a/.."), "https://a.com/d#a/..");
    assert_eq!(redirect("https://a.com/b/c", "/d?u=../y"), "https://a.com/d?u=../y");
}

#[test]
fn location_without_a_path_keeps_the_path() {
    assert_eq!(redirect("https://a.com/b/c?x=1#f", "?y=/2"), "https://a.com/b/c?y=/2");
    assert_eq!(redirect("https://a.com/b/c?x=1#f", "#g"), "https://a.com/b/c?x=1#g");
    assert_eq!(redirect("https://a.com/b/c?x=1#f", ""), "https://a.com/b/c?x=1");
    assert_eq!(redirect("https://a.com/b/c", "//d.com/e"), "https://d.com/e");
}

#[test]
fn invalid_base_rejected() {
    assert!(join_redirect_url("not-a-url", "/z").is_err());
}

#[test]
fn uppercase_scheme_location_treated_as_absolute() {
    assert_eq!(
        join_redirect_url("https://a.com/x", "HTTPS://b.com/y").expect("upper https"),
        "HTTPS://b.com/y"
    );
    assert_eq!(
        join_redirect_url("http://a.com/x", "HTTP://b.com/y").expect("upper http"),
        "HTTP://b.com/y"
    );
    assert_eq!(
        join_redirect_url("https://a.com/x", "HtTpS://b.com/y").expect("mixed case"),
        "HtTpS://b.com/y"
    );
}

#[test]
fn ip_literal_passes_through_without_resolution() {
    let literal = v4(93, 184, 216, 34);
    let ip = pin_decision("93.184.216.34", Some(literal), &vec![]).expect("literal");
    assert_eq!(ip, literal);
    let literal = v6(&[0x2606, 0x4700], &[0x1111]);
    let ip = pin_decision("2606:4700::1111", Some(literal), &vec![]).expect("v6 literal");
    assert_eq!(show_ip(&ip), "2606:4700::1111");
}

#[test]
fn all_valid_ips_pinned_to_first() {
    let candidates = vec![v4(8, 8, 8, 8), v4(1, 1, 1, 1), v4(9, 9, 9, 9)];
    let pinned = pin_decision("dns.example.com", None, &candidates).expect("pin");
    assert_eq!(pinned, v4(8, 8, 8, 8));
}

#[test]
fn any_blocked_ip_fails_closed() {
    let candidates = vec![v4(8, 8, 8, 8), v4(10, 0, 0, 1)];
    assert!(pin_decision("mixed.example.com", None, &candidates).is_err());
    let rebound = vec![mapped(169, 254, 169, 254)];
    assert!(pin_decision("rebind.example.com", None, &rebound).is_err());
}

#[test]
fn empty_resolution_fails_closed() {
    assert!(pin_decision("no-record.example.com", None, &vec![]).is_err());
}

#[test]
fn host_port_extracts_defaults() {
    let (host, port) = host_port_of("https://example.com/x").expect("https");
    assert_eq!((host.as_str(), port), ("example.com", 443));
    let (host, port) = host_port_of("http://example.com:8080/x").expect("http port");
    assert_eq!((host.as_str(), port), ("example.com", 8080));
}

#[test]
fn execute_missing_url_returns_invalid_input() {
    assert!(matches!(WebFetch::new().url(None).unwrap_err(), ToolError::InvalidInput(_)));
}

#[test]
fn execute_ssrf_rejects_private_ip() {
    assert!(validate_url("http://127.0.0.1/").is_err());
}

#[test]
fn execute_ssrf_rejects_non_http_scheme() {
    assert!(validate_url("ftp://example.com/").is_err());
}

#[test]
fn execute_side_effect_is_network() {
    assert_eq!(WebFetch::new().side_effect(), SideEffect::Network);
}

#[test]
fn execute_schema_has_correct_name() {
    assert_eq!(WebFetch::new().name(), "web.fetch");
}

#[test]
fn execute_default_equals_new() {
    assert_eq!(WebFetch::new().name(), WebFetch::default().name());
}

fn page(content_type: &str, body: &str, max: usize) -> ToolResult {
    let event = FetchEvent::Page {
        content_type: content_type.to_string(),
        body: body.as_bytes().to_vec(),
        body_capped: false,
    };
    WebFetch::new().execute(event, max).expect("fetch should succeed")
}

const LIMIT: usize = 1024 * 1024;

#[test]
fn html_content_converts_to_markdown() {
    let html = "<html><head><title>T</title></head>\
                <body><h1>Hello</h1><p>World</p></body></html>";
    let result = page("text/html; charset=utf-8", html, LIMIT);
    assert!(!result.is_error);
    assert!(result.content.contains("Hello"));
    assert!(result.content.contains("World"));
    assert!(!result.content.contains("<h1>"));
    assert!(!result.content.contains("<p>"));
}

#[test]
fn plain_text_returned_as_is() {
    let body = "just plain text\nline two";
    assert_eq!(page("text/plain", body, LIMIT).content, body);
}

#[test]
fn json_content_returned_as_is() {
    let text = page("application/json", r#"{"key":"value","n":42}"#, LIMIT).content;
    assert!(text.contains(r#""key":"value""#));
    assert!(text.contains("42"));
}

#[test]
fn missing_content_type_returns_body_as_text() {
    let body = "no content type header";
    assert_eq!(page("", body, LIMIT).content, body);
}

#[test]
fn non_success_status_returns_error() {
    let event = FetchEvent::BadStatus("404 Not Found".to_string());
    match WebFetch::new().execute(event, LIMIT).unwrap_err() {
        ToolError::Exec(msg) => assert!(msg.contains("404")),
        other => panic!("expected Exec error, got {other:?}"),
    }
}

#[test]
fn server_error_returns_error() {
    let event = FetchEvent::BadStatus("500 Internal Server Error".to_string());
    assert!(WebFetch::new().execute(event, LIMIT).is_err());
}

#[test]
fn fetch_failures_are_told_apart() {
    let tool = WebFetch::new();
    for event in vec![
        FetchEvent::ClientFailed("x".to_string()),
        FetchEvent::RequestFailed("x".to_string()),
        FetchEvent::BodyFailed("x".to_string()),
    ] {
        assert!(matches!(tool.execute(event, LIMIT), Err(ToolError::Exec(_))));
    }
    let late = tool.execute(FetchEvent::TimedOut("30s".to_string()), LIMIT).expect("a result");
    assert!(late.is_error);
    assert!(late.content.contains("30s"));
}

#[test]
fn large_body_truncated_to_max_bytes() {
    let text = page("text/plain", &"A".repeat(4 * 1024), 1024).content;
    assert!(text.len() <= 1024);
    assert!(text.starts_with('A'));
    assert!(text.ends_with("\n...[output truncated]"));
}

#[test]
fn oversized_body_capped_at_limit_with_metadata() {
    let mut reader = BodyReader::new();
    let chunk: Vec<u8> = vec![b'B'; MAX_BODY_BYTES / 2 + 512];
    assert!(reader.take(&chunk, MAX_BODY_BYTES));
    assert!(!reader.take(&chunk, MAX_BODY_BYTES));
    assert!(reader.capped);
    assert_eq!(reader.body.len(), MAX_BODY_BYTES);
    let result = present_page("BBB".to_string(), true, 64 * 1024 * 1024);
    assert!(result.truncated);
    assert!(result.content.starts_with('B'));
}

#[test]
fn small_body_not_marked_truncated() {
    assert!(!page("text/plain", "tiny", LIMIT).truncated);
}

#[test]
fn follows_redirects_up_to_limit() {
    let mut state = FetchState::new("http://a.com/redir".to_string());
    let step = state.next(true, Some("/target".to_string())).expect("follow");
    assert!(matches!(step, FetchStep::Follow));
    assert_eq!(state.current, "http://a.com/target");
    assert!(matches!(state.next(false, None).expect("read"), FetchStep::Read));
    let mut round = FetchState::new("http://a.com/loop".to_string());
    let mut followed: usize = 0;
    while matches!(round.next(true, Some("/loop".to_string())), Ok(FetchStep::Follow)) {
        followed += 1;
    }
    assert_eq!(followed, MAX_REDIRECTS);
}

#[test]
fn every_hop_is_checked_before_it_is_asked() {
    let mut state = FetchState::new("http://example.com/start".to_string());
    match state.start().expect("a name") {
        HopStep::Lookup { host, port } => assert_eq!((host.as_str(), port), ("example.com", 80)),
        other => panic!("expected Lookup, got {other:?}"),
    }
    assert!(state.resolved("example.com", Ok(vec![v4(8, 8, 8, 8), v4(10, 0, 0, 1)])).is_err());
    match state.resolved("example.com", Ok(vec![v4(8, 8, 8, 8)])).expect("may be reached") {
        HopStep::Request { host, ip, port } => {
            assert_eq!((host.as_str(), ip, port), ("example.com", v4(8, 8, 8, 8), 80));
        }
        other => panic!("expected Request, got {other:?}"),
    }
    state.next(true, Some("http://169.254.169.254/latest".to_string())).expect("followed");
    assert!(state.start().is_err());
    let literal = FetchState::new("http://1.1.1.1/".to_string());
    assert!(matches!(literal.start(), Ok(HopStep::Request { ip: IpAddr::V4(1, 1, 1, 1), .. })));
}

#[test]
fn empty_body_returns_empty_text() {
    let result = page("text/plain", "", LIMIT);
    assert_eq!(result.content, "");
    assert!(!result.is_error);
}

#[test]
fn html_with_complex_structure_converts() {
    let html = "<html><body>\
                <h2>Title</h2>\
                <ul><li>Item 1</li><li>Item 2</li></ul>\
                <a href=\"https://example.com\">link</a>\
                <pre><code>let x = 1;</code></pre>\
                </body></html>";
    let text = page("text/html", html, LIMIT).content;
    assert!(text.contains("Title"));
    assert!(text.contains("Item 1"));
    assert!(text.contains("Item 2"));
    assert!(text.contains("link"));
    assert!(text.contains("let x = 1;"));
}

#[test]
fn xhtml_content_type_not_treated_as_html() {
    let html = "<html><body><h1>XHTML</h1></body></html>";
    assert!(page("application/xhtml+xml", html, LIMIT).content.contains("<h1>XHTML</h1>"));
}

#[test]
fn html_with_charset_in_content_type_converts() {
    let html = "<html><body><h1>Test</h1></body></html>";
    let text = page("text/html; charset=iso-8859-1", html, LIMIT).content;
    assert!(text.contains("Test"));
    assert!(!text.contains("<h1>"));
}

#[test]
fn search_missing_query_returns_invalid_input() {
    assert!(matches!(WebSearch::new().query(None).unwrap_err(), ToolError::InvalidInput(_)));
}

#[test]
fn search_side_effect_is_network() {
    assert_eq!(WebSearch::new().side_effect(), SideEffect::Network);
}

#[test]
fn search_schema_has_correct_name() {
    assert_eq!(WebSearch::new().name(), "web.search");
}

#[test]
fn parse_ddg_results_extracts_title_url_snippet() {
    let html = r#"
        <div class="result">
            <a class="result__a" href="https://example.com/page1">Example Title</a>
            <a class="result__snippet">Some snippet text</a>
        </div>
        "#;
    let results = parse_ddg_results(html, 5);
    assert_eq!(results.len(), 1);
    assert_eq!(results[0].title, "Example Title");
    assert_eq!(results[0].url, "https://example.com/page1");
    assert_eq!(results[0].snippet, "Some snippet text");
}

#[test]
fn parse_ddg_results_respects_max_limit() {
    let html = r#"
        <a class="result__a" href="https://a.com">A</a>
        <a class="result__snippet">sa</a>
        <a class="result__a" href="https://b.com">B</a>
        <a class="result__snippet">sb</a>
        <a class="result__a" href="https://c.com">C</a>
        <a class="result__snippet">sc</a>
        "#;
    let results = parse_ddg_results(html, 2);
    assert_eq!(results.len(), 2);
}

#[test]
fn parse_ddg_results_empty_html_returns_empty() {
    assert!(parse_ddg_results("", 5).is_empty());
}

#[test]
fn parse_ddg_results_missing_snippet_uses_empty() {
    let html = r#"<a class="result__a" href="https://x.com">X</a>"#;
    let results = parse_ddg_results(html, 5);
    assert_eq!(results.len(), 1);
    assert_eq!(results[0].snippet, "");
}

#[test]
fn strip_tags_removes_html_tags() {
    assert_eq!(strip_tags("<b>hello</b>"), "hello");
    assert_eq!(strip_tags("<a href='x'>link</a>"), "link");
}

#[test]
fn strip_tags_unescapes_entities() {
    assert_eq!(strip_tags("a &amp; b"), "a & b");
    assert_eq!(strip_tags("x &lt; y"), "x < y");
    assert_eq!(unescape(" &amp;lt; "), "<");
    assert_eq!(unescape("&quot;"), "&quot;");
}

#[test]
fn strip_tags_no_tags_returns_trimmed() {
    assert_eq!(strip_tags("  plain text  "), "plain text");
}

#[test]
fn search_results_are_presented_in_order() {
    let html = r#"<a class="result__a" href="https://a.com">A</a><a class="result__a" href="https://b.com">B</a>"#;
    let text = present_results(&parse_ddg_results(html, 5));
    assert!(text.find("https://a.com").expect("a") < text.find("https://b.com").expect("b"));
    let one = WebSearch::new()
        .execute(SearchEvent::Page(html.to_string()), Some(1))
        .expect("search ok");
    assert!(one.content.contains("https://a.com"));
    assert!(!one.content.contains("https://b.com"));
    let err = WebSearch::new().execute(SearchEvent::BadStatus("503".to_string()), None).unwrap_err();
    assert!(matches!(err, ToolError::Exec(_)));
}

#[test]
fn validate_ip_accepts_public_and_rejects_private() {
    assert!(validate_ip(&v4(8, 8, 8, 8)).is_ok());
    assert!(validate_ip(&v6(&[0x2606, 0x4700], &[1])).is_ok());
    assert!(validate_ip(&v4(10, 0, 0, 1)).is_err());
    assert!(validate_ip(&v4(127, 0, 0, 1)).is_err());
    assert!(validate_ip(&mapped(169, 254, 169, 254)).is_err());
}

#[test]
fn resolve_and_validate_host_rejects_loopback_name() {
    assert!(resolve_and_validate_host("localhost", Ok(vec![v4(127, 0, 0, 1)])).is_err());
    assert!(resolve_and_validate_host("nowhere", Err("no such host".to_string())).is_err());
    assert!(resolve_and_validate_host("nowhere", Ok(vec![])).is_err());
    let found = resolve_and_validate_host("dns", Ok(vec![v4(8, 8, 8, 8), v4(1, 1, 1, 1)]));
    assert_eq!(found.expect("both may be reached").len(), 2);
}

#[test]
fn blocks_ipv4_mapped_ipv6_metadata() {
    assert!(is_blocked_ip(&mapped(169, 254, 169, 254)));
    assert!(is_blocked_ip(&mapped(10, 0, 0, 1)));
    assert!(!is_blocked_ip(&mapped(8, 8, 8, 8)));
    assert_eq!(embedded_ipv4(&mapped(10, 0, 0, 1)), Some(v4(10, 0, 0, 1)));
}

#[test]
fn blocks_nat64_and_6to4_embeddings() {
    assert!(is_blocked_ip(&v6(&[0x64, 0xff9b], &[0x7f00, 1])));
    assert!(is_blocked_ip(&v6(&[0x2002, 0x7f00, 1], &[])));
}

#[test]
fn blocks_cgnat_and_benchmarking() {
    assert!(is_blocked_ip(&v4(100, 100, 1, 1)));
    assert!(is_blocked_ip(&v4(198, 19, 0, 1)));
    assert!(!is_blocked_ip(&v4(1, 1, 1, 1)));
    assert!(!is_blocked_ip(&v6(&[0x2606, 0x4700, 0x4700], &[0x1111])));
}

#[test]
fn validate_url_rejects_non_http_scheme() {
    assert!(validate_url("ftp://example.com").is_err());
    assert!(validate_url("file:///etc/passwd").is_err());
    assert!(validate_url("javascript:alert(1)").is_err());
}

#[test]
fn validate_url_rejects_loopback_ipv4() {
    assert!(validate_url("http://127.0.0.1/").is_err());
    assert!(validate_url("http://127.0.0.1:8080/").is_err());
}

#[test]
fn validate_url_rejects_private_ipv4() {
    assert!(validate_url("http://10.0.0.1/").is_err());
    assert!(validate_url("http://172.16.0.1/").is_err());
    assert!(validate_url("http://192.168.1.1/").is_err());
}

#[test]
fn validate_url_rejects_link_local_ipv4() {
    assert!(validate_url("http://169.254.1.1/").is_err());
}

#[test]
fn validate_url_rejects_unspecified_ipv4() {
    assert!(validate_url("http://0.0.0.0/").is_err());
}

#[test]
fn validate_url_rejects_loopback_ipv6() {
    assert!(validate_url("http://[::1]/").is_err());
}

#[test]
fn validate_url_rejects_unspecified_ipv6() {
    assert!(validate_url("http://[::]/").is_err());
}

#[test]
fn validate_url_rejects_invalid_url() {
    assert!(validate_url("not a url").is_err());
    assert!(validate_url("").is_err());
}

#[test]
fn validate_url_says_what_is_left_to_check() {
    match validate_url("https://example.com/x").expect("a name") {
        UrlCheck::Lookup { host, port } => assert_eq!((host.as_str(), port), ("example.com", 443)),
        other => panic!("expected Lookup, got {other:?}"),
    }
    match validate_url("http://8.8.8.8:81/").expect("an address") {
        UrlCheck::Address { ip, port } => assert_eq!((ip, port), (v4(8, 8, 8, 8), 81)),
        other => panic!("expected Address, got {other:?}"),
    }
}

#[test]
fn is_blocked_ip_detects_loopback_v4() {
    assert!(is_blocked_ip(&v4(127, 0, 0, 1)));
    assert!(is_blocked_ip(&v4(127, 255, 255, 255)));
}

#[test]
fn is_blocked_ip_detects_private_v4() {
    assert!(is_blocked_ip(&v4(10, 0, 0, 1)));
    assert!(is_blocked_ip(&v4(172, 16, 0, 1)));
    assert!(is_blocked_ip(&v4(192, 168, 0, 1)));
}

#[test]
fn is_blocked_ip_detects_link_local_v4() {
    assert!(is_blocked_ip(&v4(169, 254, 0, 1)));
}

#[test]
fn is_blocked_ip_detects_unspecified_v4() {
    assert!(is_blocked_ip(&v4(0, 0, 0, 0)));
}

#[test]
fn is_blocked_ip_detects_broadcast_v4() {
    assert!(is_blocked_ip(&v4(255, 255, 255, 255)));
}

#[test]
fn is_blocked_ip_detects_documentation_v4() {
    assert!(is_blocked_ip(&v4(203, 0, 113, 1)));
}

#[test]
fn is_blocked_ip_allows_public_v4() {
    assert!(!is_blocked_ip(&v4(8, 8, 8, 8)));
    assert!(!is_blocked_ip(&v4(1, 1, 1, 1)));
}

#[test]
fn is_blocked_ip_detects_loopback_v6() {
    assert!(is_blocked_ip(&v6(&[], &[1])));
}

#[test]
fn is_blocked_ip_detects_unspecified_v6() {
    assert!(is_blocked_ip(&v6(&[], &[])));
}

#[test]
fn is_blocked_ip_allows_public_v6() {
    assert!(!is_blocked_ip(&v6(&[0x2606, 0x4700, 0x4700], &[0x1111])));
}

#[test]
fn is_ipv6_ula_detects_fc00_range() {
    assert!(is_ipv6_ula(&v6(&[0xfc00], &[1])));
    assert!(is_ipv6_ula(&v6(&[0xfd00], &[1])));
    assert!(is_ipv6_ula(&v6(&[0xfdff, 0xffff], &[1])));
}

#[test]
fn is_ipv6_ula_rejects_public() {
    assert!(!is_ipv6_ula(&v6(&[0x2606, 0x4700], &[1])));
}

#[test]
fn is_ipv6_link_local_detects_fe80_range() {
    assert!(is_ipv6_link_local(&v6(&[0xfe80], &[1])));
    assert!(is_ipv6_link_local(&v6(&[0xfebf], &[1])));
}

#[test]
fn is_ipv6_link_local_rejects_public() {
    assert!(!is_ipv6_link_local(&v6(&[0x2606, 0x4700], &[1])));
}
