use fuze::{collect_links, get_links_from_raw_html, UrlError, UrlSet};

fn s(text: &str) -> String {
    text.to_string()
}

fn sorted(set: &UrlSet) -> Vec<String> {
    let mut urls = set.urls().clone();
    urls.sort();
    urls
}

#[test]
fn links_of_a_page() {
    let html = r##"<html><body>
        <a href="/b">b</a>
        <a href="c.html">c</a>
        <a href="https://a.test/d">d</a>
        <a href="https://other.test/x">x</a>
        <a href="#top">top</a>
        <a href="mailto:someone@a.test">mail</a>
    </body></html>"##;
    let links = get_links_from_raw_html("https://a.test/dir/page", html).unwrap();
    assert_eq!(
        sorted(&links),
        vec![s("https://a.test/b"), s("https://a.test/c.html"), s("https://a.test/d")]
    );
}

#[test]
fn links_that_occur_twice_count_once() {
    let html = r##"<a href="/b">1</a><a href="/b">2</a><a href="b">3</a><a href="https://a.test/b">4</a>"##;
    let links = get_links_from_raw_html("https://a.test/", html).unwrap();
    assert_eq!(links.urls(), &vec![s("https://a.test/b")]);
}

#[test]
fn only_anchors_with_an_href_count() {
    let html = r##"<a name="x">no href</a><link href="/style.css"><img src="/i.png">
        <area href="/area"><a HREF="/upper">upper</a><A href="/tag">tag</A>"##;
    let links = get_links_from_raw_html("https://a.test/", html).unwrap();
    assert_eq!(sorted(&links), vec![s("https://a.test/tag"), s("https://a.test/upper")]);
}

#[test]
fn href_values_are_decoded_as_markup() {
    let html = r##"<a href="/b?x=1&amp;y=2">b</a>"##;
    let links = get_links_from_raw_html("https://a.test/", html).unwrap();
    assert_eq!(links.urls(), &vec![s("https://a.test/b?x=1&y=2")]);
}

#[test]
fn malformed_markup_gives_what_can_be_read() {
    let html = r##"<div><a href="/ok">ok<p></div></a><a href="/late""##;
    let links = get_links_from_raw_html("https://a.test/", html).unwrap();
    assert_eq!(links.urls(), &vec![s("https://a.test/ok")]);
    assert!(get_links_from_raw_html("https://a.test/", "<<<>>>").unwrap().is_empty());
    assert!(get_links_from_raw_html("https://a.test/", "").unwrap().is_empty());
    assert!(get_links_from_raw_html("https://a.test/", "plain text").unwrap().is_empty());
}

#[test]
fn page_without_links_needs_no_base() {
    assert!(get_links_from_raw_html("not a url", "<p>nothing</p>").unwrap().is_empty());
    assert!(get_links_from_raw_html("not a url", r##"<a href="#x">x</a>"##).unwrap().is_empty());
}

#[test]
fn page_with_links_needs_a_base_that_parses() {
    assert_eq!(
        get_links_from_raw_html("not a url", r##"<a href="/b">b</a>"##).err(),
        Some(UrlError::Unparsable)
    );
    assert_eq!(
        get_links_from_raw_html("not a url", r##"<a href="https://a.test/">b</a>"##).err(),
        Some(UrlError::Unparsable)
    );
}

#[test]
fn relative_links_need_a_domain() {
    assert_eq!(
        get_links_from_raw_html("http://127.0.0.1/", r##"<a href="/b">b</a>"##).err(),
        Some(UrlError::NoDomain)
    );
    let absolute = r##"<a href="http://127.0.0.1/b">b</a><a href="#x">x</a>"##;
    let links = get_links_from_raw_html("http://127.0.0.1/", absolute).unwrap();
    assert_eq!(links.urls(), &vec![s("http://127.0.0.1/b")]);
}

#[test]
fn collect_links_skips_missing_values() {
    let hrefs = vec![None, Some(s("/b")), None, Some(s("#x")), Some(s("c")), Some(s("/b"))];
    let links = collect_links("https://a.test/", &hrefs).unwrap();
    assert_eq!(links.urls(), &vec![s("https://a.test/b"), s("https://a.test/c")]);
    assert!(collect_links("https://a.test/", &Vec::new()).unwrap().is_empty());
    assert!(collect_links("not a url", &vec![None, Some(s("#x"))]).unwrap().is_empty());
}

#[test]
fn collect_links_reports_the_base() {
    let hrefs = vec![Some(s("#x")), Some(s("https://a.test/")), Some(s("/b"))];
    assert_eq!(collect_links("nope", &hrefs).err(), Some(UrlError::Unparsable));
    assert_eq!(collect_links("http://10.0.0.1/", &hrefs).err(), Some(UrlError::NoDomain));
}
