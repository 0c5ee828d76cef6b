use fuze::{
    format_url, normalize_url, resolve_href, try_normalize_url, Host, ParsedUrl, UrlError,
};

fn text(s: &str) -> Option<String> {
    Some(s.to_string())
}

#[test]
fn anchor_is_dropped_whatever_the_base() {
    assert_eq!(normalize_url("https://example.com/", "#top"), None);
    assert_eq!(normalize_url("https://example.com/a/b", "#"), None);
    assert_eq!(normalize_url("not a url", "#top"), None);
    assert_eq!(normalize_url("", "#top"), None);
    assert_eq!(normalize_url("http://127.0.0.1/", "#top"), None);
}

#[test]
fn absolute_url_on_another_host_is_dropped() {
    assert_eq!(normalize_url("https://a.test/", "https://other.test/x"), None);
    assert_eq!(normalize_url("https://a.test/", "https://sub.a.test/x"), None);
    assert_eq!(normalize_url("https://a.test/", "https://a.test.evil/x"), None);
}

#[test]
fn rooted_href_joins_scheme_and_domain() {
    assert_eq!(
        normalize_url("https://example.com/anything", "/b"),
        text("https://example.com/b")
    );
    assert_eq!(
        normalize_url("https://example.com/anything", "/b/c?d=e#f"),
        text("https://example.com/b/c?d=e#f")
    );
    assert_eq!(normalize_url("https://example.com/anything", "/"), text("https://example.com/"));
}

#[test]
fn rooted_href_drops_the_port_of_the_base() {
    assert_eq!(normalize_url("http://a.test:8080/x", "/b"), text("http://a.test/b"));
}

#[test]
fn relative_href_joins_the_root_not_the_directory() {
    assert_eq!(
        normalize_url("https://example.com/dir/page.html", "b.html"),
        text("https://example.com/b.html")
    );
    assert_eq!(
        normalize_url("https://example.com/dir/page.html", "./sibling.html"),
        text("https://example.com/./sibling.html")
    );
    assert_eq!(
        normalize_url("https://example.com/dir/", "../up.html"),
        text("https://example.com/../up.html")
    );
}

#[test]
fn empty_href_is_the_root() {
    assert_eq!(normalize_url("https://example.com/dir/page", ""), text("https://example.com/"));
}

#[test]
fn scheme_relative_href_is_taken_as_a_path() {
    assert_eq!(
        normalize_url("https://a.test/", "//other.test/x"),
        text("https://a.test//other.test/x")
    );
}

#[test]
fn canonical_url_on_the_same_host_is_kept() {
    assert_eq!(normalize_url("https://a.test/", "https://a.test/b"), text("https://a.test/b"));
    assert_eq!(normalize_url("https://a.test/x/y", "https://a.test/"), text("https://a.test/"));
    let once = normalize_url("https://a.test/", "https://a.test/b?c=d").unwrap();
    assert_eq!(normalize_url("https://a.test/", &once), Some(once.clone()));
}

#[test]
fn absolute_url_comes_back_as_the_parser_writes_it() {
    assert_eq!(
        normalize_url("https://a.test/", "HTTPS://A.TEST/x/../y"),
        text("https://a.test/y")
    );
    assert_eq!(normalize_url("https://a.test/", "https://a.test"), text("https://a.test/"));
}

#[test]
fn only_the_host_is_compared() {
    assert_eq!(normalize_url("https://a.test/", "http://a.test/x"), text("http://a.test/x"));
    assert_eq!(
        normalize_url("https://a.test/", "https://a.test:8443/x"),
        text("https://a.test:8443/x")
    );
}

#[test]
fn url_without_a_host_is_dropped() {
    assert_eq!(normalize_url("https://a.test/", "mailto:someone@a.test"), None);
    assert_eq!(normalize_url("https://a.test/", "javascript:void(0)"), None);
    assert_eq!(normalize_url("https://a.test/", "tel:+123456"), None);
}

#[test]
fn ip_hosts_are_compared_by_address() {
    assert_eq!(
        normalize_url("http://127.0.0.1/", "http://127.0.0.1/x"),
        text("http://127.0.0.1/x")
    );
    assert_eq!(
        normalize_url("http://127.0.0.1/", "http://0x7f.0.0.1/x"),
        text("http://127.0.0.1/x")
    );
    assert_eq!(normalize_url("http://127.0.0.1/", "http://127.0.0.2/x"), None);
    assert_eq!(normalize_url("http://[::1]/", "http://[0:0:0:0:0:0:0:1]/x"), text("http://[::1]/x"));
    assert_eq!(normalize_url("http://[::1]/", "http://[::2]/x"), None);
    assert_eq!(normalize_url("http://[::1]/", "http://127.0.0.1/x"), None);
}

#[test]
fn try_normalize_agrees_where_the_base_is_good() {
    assert_eq!(try_normalize_url("https://a.test/", "/b"), Ok(text("https://a.test/b")));
    assert_eq!(try_normalize_url("https://a.test/", "#b"), Ok(None));
    assert_eq!(try_normalize_url("https://a.test/", "https://b.test/"), Ok(None));
    assert_eq!(try_normalize_url("not a url", "#b"), Ok(None));
    assert_eq!(try_normalize_url("http://127.0.0.1/", "http://127.0.0.1/x"), Ok(text("http://127.0.0.1/x")));
}

#[test]
fn try_normalize_reports_a_base_that_does_not_parse() {
    assert_eq!(try_normalize_url("not a url", "/b"), Err(UrlError::Unparsable));
    assert_eq!(try_normalize_url("not a url", "https://a.test/"), Err(UrlError::Unparsable));
    assert_eq!(try_normalize_url("", "b"), Err(UrlError::Unparsable));
}

#[test]
fn try_normalize_reports_a_base_without_a_domain() {
    assert_eq!(try_normalize_url("http://127.0.0.1/", "/b"), Err(UrlError::NoDomain));
    assert_eq!(try_normalize_url("http://[::1]/", "b"), Err(UrlError::NoDomain));
    assert_eq!(try_normalize_url("mailto:someone@a.test", "b"), Err(UrlError::NoDomain));
}

#[test]
fn parse_reads_scheme_host_and_serialization() {
    let url = ParsedUrl::parse("HTTP://Example.COM/a/../b").unwrap();
    assert_eq!(url.scheme, "http");
    assert_eq!(url.href, "http://example.com/b");
    assert!(matches!(url.host, Some(Host::Domain(ref name)) if name == "example.com"));
    assert_eq!(url.domain(), Some(&"example.com".to_string()));
}

#[test]
fn parse_tells_addresses_from_domains() {
    let v4 = ParsedUrl::parse("http://192.168.0.1:8080/").unwrap();
    assert!(matches!(v4.host, Some(Host::Ipv4(0xC0A8_0001))));
    assert_eq!(v4.domain(), None);
    let v6 = ParsedUrl::parse("http://[::1]/").unwrap();
    assert!(matches!(v6.host, Some(Host::Ipv6(1))));
    let none = ParsedUrl::parse("data:text/plain,hello").unwrap();
    assert!(none.host.is_none());
    assert_eq!(none.scheme, "data");
}

#[test]
fn parse_rejects_what_is_not_absolute() {
    assert!(ParsedUrl::parse("").is_none());
    assert!(ParsedUrl::parse("/b").is_none());
    assert!(ParsedUrl::parse("b.html").is_none());
    assert!(ParsedUrl::parse("#top").is_none());
    assert!(ParsedUrl::parse("//a.test/b").is_none());
    assert!(ParsedUrl::parse("https://").is_none());
}

#[test]
fn hosts_compare_by_kind_and_value() {
    let a = Host::Domain("a.test".to_string());
    assert!(a.same(&Host::Domain("a.test".to_string())));
    assert!(!a.same(&Host::Domain("b.test".to_string())));
    assert!(!a.same(&Host::Ipv4(1)));
    assert!(Host::Ipv4(1).same(&Host::Ipv4(1)));
    assert!(!Host::Ipv4(1).same(&Host::Ipv4(2)));
    assert!(!Host::Ipv4(1).same(&Host::Ipv6(1)));
    assert!(Host::Ipv6(1).same(&Host::Ipv6(1)));
    assert!(!Host::Ipv6(1).same(&Host::Ipv6(2)));
}

fn parts(scheme: &str, host: Option<Host>, href: &str) -> ParsedUrl {
    ParsedUrl { scheme: scheme.to_string(), host, href: href.to_string() }
}

#[test]
fn resolve_href_on_given_parts() {
    let base = parts("https", Some(Host::Domain("a.test".to_string())), "https://a.test/dir/");
    let same = parts("https", Some(Host::Domain("a.test".to_string())), "https://a.test/x");
    let other = parts("https", Some(Host::Domain("b.test".to_string())), "https://b.test/x");
    let hostless = parts("mailto", None, "mailto:x@a.test");
    assert_eq!(resolve_href(&base, "anything", Some(&same)), text("https://a.test/x"));
    assert_eq!(resolve_href(&base, "anything", Some(&other)), None);
    assert_eq!(resolve_href(&base, "anything", Some(&hostless)), None);
    assert_eq!(resolve_href(&base, "#x", Some(&same)), None);
    assert_eq!(resolve_href(&base, "#x", None), None);
    assert_eq!(resolve_href(&base, "/x", None), text("https://a.test/x"));
    assert_eq!(resolve_href(&base, "x", None), text("https://a.test/x"));
    assert_eq!(resolve_href(&base, "", None), text("https://a.test/"));
}

#[test]
fn resolve_href_needs_no_domain_for_an_absolute_url() {
    let base = parts("http", Some(Host::Ipv4(0x7F00_0001)), "http://127.0.0.1/");
    let same = parts("http", Some(Host::Ipv4(0x7F00_0001)), "http://127.0.0.1/x");
    assert_eq!(resolve_href(&base, "http://127.0.0.1/x", Some(&same)), text("http://127.0.0.1/x"));
    let hostless = parts("data", None, "data:,");
    assert_eq!(resolve_href(&hostless, "data:,", Some(&hostless)), None);
}

#[test]
fn shares_host_needs_a_host() {
    let hostless = parts("data", None, "data:,");
    let a = parts("https", Some(Host::Domain("a.test".to_string())), "https://a.test/");
    assert!(!hostless.shares_host_with(&hostless));
    assert!(!hostless.shares_host_with(&a));
    assert!(!a.shares_host_with(&hostless));
    assert!(a.shares_host_with(&a));
}

#[test]
fn format_url_keeps_scheme_and_domain() {
    assert_eq!(format_url("https://example.com/some/path?q=1#f"), Ok("https://example.com/".to_string()));
    assert_eq!(format_url("https://example.com"), Ok("https://example.com/".to_string()));
    assert_eq!(format_url("HTTP://User:Pw@Example.COM:8080/x"), Ok("http://example.com/".to_string()));
    assert_eq!(format_url("https://a.test/"), Ok("https://a.test/".to_string()));
}

#[test]
fn format_url_rejects_what_does_not_parse() {
    assert_eq!(format_url("nope"), Err(UrlError::Unparsable));
    assert_eq!(format_url(""), Err(UrlError::Unparsable));
    assert_eq!(format_url("/just/a/path"), Err(UrlError::Unparsable));
    assert_eq!(format_url("https://"), Err(UrlError::Unparsable));
}

#[test]
fn format_url_rejects_a_seed_without_a_domain() {
    assert_eq!(format_url("http://127.0.0.1/"), Err(UrlError::NoDomain));
    assert_eq!(format_url("http://[::1]:8000/x"), Err(UrlError::NoDomain));
    assert_eq!(format_url("mailto:someone@example.com"), Err(UrlError::NoDomain));
}

#[test]
fn root_of_parsed_url() {
    let url = ParsedUrl::parse("https://a.test/x/y").unwrap();
    assert_eq!(url.root(), text("https://a.test/"));
    let ip = ParsedUrl::parse("https://10.0.0.1/x/y").unwrap();
    assert_eq!(ip.root(), None);
}
