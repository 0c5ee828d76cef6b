//! The links of a page: the `href` values of its anchors, normalized.

use vstd::prelude::*;
use crate::normalize::{
    base_error,
    can_normalize,
    normalized,
    resolve_href,
    starts_with_hash,
    UrlError,
};
use crate::url_parts::{parsed_url, ParsedUrl};
use crate::url_set::UrlSet;

verus! {

/// What the HTML parser and the selector engine find in `html`: `None` where
/// `selector` is not a selector; else, for each element that matches it, in
/// document order, the value of its attribute `name`, if it has that
/// attribute.
pub uninterp spec fn selected_attribute(
    html: Seq<char>,
    selector: Seq<char>,
    name: Seq<char>,
) -> Option<Seq<Option<Seq<char>>>>;

/// Parses `selector` with `scraper::Selector::parse` and `html` with
/// `scraper::Html::parse_document`, walks the matches of
/// `scraper::Html::select` and asks each for its attribute `name`.
///
/// Trusted: the result is what these calls return, which depends on the three
/// strings alone. Malformed markup is no error to the parser: it builds what
/// tree it can.
#[verifier::external_body]
fn select_attribute(html: &str, selector: &str, name: &str) -> (found: Option<Vec<Option<String>>>)
    ensures
        found.deep_view() == selected_attribute(html@, selector@, name@),
{
    match scraper::Selector::parse(selector) {
        Err(_) => None,
        Ok(matcher) => Some(
            scraper::Html::parse_document(html)
                .select(&matcher)
                .map(|element| element.value().attr(name).map(String::from))
                .collect(),
        ),
    }
}

/// The raw `href` values of the anchors of `html`, in document order.
pub open spec fn anchor_hrefs(html: Seq<char>) -> Seq<Option<Seq<char>>> {
    match selected_attribute(html, "a[href]"@, "href"@) {
        Some(values) => values,
        None => Seq::empty(),
    }
}

/// Whether every `href` that is present can be normalized against `url`.
pub open spec fn all_normalizable(url: Seq<char>, hrefs: Seq<Option<Seq<char>>>) -> bool {
    forall|i: int|
        0 <= i < hrefs.len() && (#[trigger] hrefs[i]) is Some ==> can_normalize(url, hrefs[i].unwrap())
}

/// The canonical URLs that the `hrefs` of the page `url` normalize to.
pub open spec fn links_among(url: Seq<char>, hrefs: Seq<Option<Seq<char>>>) -> Set<Seq<char>> {
    Set::new(
        |link: Seq<char>|
            exists|i: int|
                0 <= i < hrefs.len() && (#[trigger] hrefs[i]) is Some && normalized(
                    url,
                    hrefs[i].unwrap(),
                ) == Some(link),
    )
}

/// The links of the page `url` whose markup is `html`.
pub open spec fn page_links(url: Seq<char>, html: Seq<char>) -> Set<Seq<char>> {
    links_among(url, anchor_hrefs(html))
}

/// Normalizes each of `hrefs` against the page `url` and collects what they
/// resolve to; an `href` that resolves to nothing adds nothing.
///
/// Fails where one of them cannot be normalized against `url`, with what is
/// wrong with `url` as a base.
pub fn collect_links(url: &str, hrefs: &Vec<Option<String>>) -> (links: Result<UrlSet, UrlError>)
    ensures
        match links {
            Ok(set) => all_normalizable(url@, hrefs.deep_view()) && set@ == links_among(
                url@,
                hrefs.deep_view(),
            ),
            Err(error) => !all_normalizable(url@, hrefs.deep_view()) && error == base_error(url@),
        },
{
    let ghost raw = hrefs.deep_view();
    let base = ParsedUrl::parse(url);
    let mut set = UrlSet::new();
    let mut i: usize = 0;
    while i < hrefs.len()
        invariant
            i <= hrefs.len(),
            raw == hrefs.deep_view(),
            base.deep_view() == parsed_url(url@),
            forall|j: int| 0 <= j < i && (#[trigger] raw[j]) is Some ==> can_normalize(url@, raw[j].unwrap()),
            set@ == links_among(url@, raw.take(i as int)),
        decreases hrefs.len() - i,
    {
        assert(raw[i as int] == hrefs[i as int].deep_view());
        let ghost seen = raw.take(i as int);
        let ghost next = raw.take(i as int + 1);
        assert(next =~= seen.push(raw[i as int]));
        match &hrefs[i] {
            None => {
                assert(links_among(url@, next) =~= links_among(url@, seen)) by {
                    lemma_links_push(url@, seen, raw[i as int]);
                }
            },
            Some(href) => {
                let link = if starts_with_hash(href.as_str()) {
                    None
                } else {
                    let target = ParsedUrl::parse(href.as_str());
                    match &base {
                        None => {
                            return Err(UrlError::Unparsable);
                        },
                        Some(parsed) => {
                            if target.is_none() && parsed.domain().is_none() {
                                return Err(UrlError::NoDomain);
                            }
                            resolve_href(parsed, href.as_str(), target.as_ref())
                        },
                    }
                };
                assert(can_normalize(url@, href@));
                assert(link.deep_view() == normalized(url@, href@));
                proof {
                    lemma_links_push(url@, seen, raw[i as int]);
                }
                match link {
                    Some(text) => {
                        set.insert(text);
                    },
                    None => {},
                }
            },
        }
        i += 1;
    }
    assert(raw.take(i as int) =~= raw);
    Ok(set)
}

/// Extracts the `href` of every anchor of `html` and normalizes each against
/// the page `url`.
///
/// Fails where one of them cannot be normalized against `url`, with what is
/// wrong with `url` as a base. A page without anchors has no links, whatever
/// its `url`.
pub fn get_links_from_raw_html(url: &str, html: &str) -> (links: Result<UrlSet, UrlError>)
    ensures
        match links {
            Ok(set) => all_normalizable(url@, anchor_hrefs(html@)) && set@ == page_links(url@, html@),
            Err(error) => !all_normalizable(url@, anchor_hrefs(html@)) && error == base_error(url@),
        },
{
    match select_attribute(html, "a[href]", "href") {
        Some(hrefs) => collect_links(url, &hrefs),
        None => {
            let set = UrlSet::new();
            assert(set@ =~= page_links(url@, html@));
            Ok(set)
        },
    }
}

/// What one more `href` adds to the links of a page.
pub proof fn lemma_links_push(url: Seq<char>, hrefs: Seq<Option<Seq<char>>>, last: Option<Seq<char>>)
    ensures
        links_among(url, hrefs.push(last)) == match last {
            Some(href) => match normalized(url, href) {
                Some(link) => links_among(url, hrefs).insert(link),
                None => links_among(url, hrefs),
            },
            None => links_among(url, hrefs),
        },
{
    let longer = hrefs.push(last);
    let added = match last {
        Some(href) => normalized(url, href),
        None => None,
    };
    let expected = match added {
        Some(link) => links_among(url, hrefs).insert(link),
        None => links_among(url, hrefs),
    };
    assert forall|link: Seq<char>| links_among(url, longer).contains(link) implies expected.contains(
        link,
    ) by {
        let i = choose|i: int|
            0 <= i < longer.len() && (#[trigger] longer[i]) is Some && normalized(
                url,
                longer[i].unwrap(),
            ) == Some(link);
        if i < hrefs.len() {
            assert(hrefs[i] == longer[i]);
        }
    }
    assert forall|link: Seq<char>| expected.contains(link) implies links_among(url, longer).contains(
        link,
    ) by {
        if links_among(url, hrefs).contains(link) {
            let i = choose|i: int|
                0 <= i < hrefs.len() && (#[trigger] hrefs[i]) is Some && normalized(
                    url,
                    hrefs[i].unwrap(),
                ) == Some(link);
            assert(longer[i] == hrefs[i]);
        } else {
            assert(longer[hrefs.len() as int] == last);
        }
    }
    assert(links_among(url, longer) =~= expected);
}

/// A page has finitely many links.
pub proof fn lemma_links_finite(url: Seq<char>, hrefs: Seq<Option<Seq<char>>>)
    ensures
        links_among(url, hrefs).finite(),
    decreases hrefs.len(),
{
    if hrefs.len() == 0 {
        assert(links_among(url, hrefs) =~= Set::<Seq<char>>::empty());
    } else {
        lemma_links_finite(url, hrefs.drop_last());
        lemma_links_push(url, hrefs.drop_last(), hrefs.last());
        assert(hrefs.drop_last().push(hrefs.last()) =~= hrefs);
    }
}

} // verus!
