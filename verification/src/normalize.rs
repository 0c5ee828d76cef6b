//! Turning a raw `href` into a canonical URL on the base's host.
//!
//! A relative `href` is joined to the root of the base's domain, never to the
//! directory of the page it was found on: `b.html` found on
//! `https://a.test/dir/page` becomes `https://a.test/b.html`.

use vstd::prelude::*;
use vstd::string::*;
use crate::url_parts::{parsed_url, ParsedUrl, UrlView};

verus! {

/// Why a URL cannot serve as the base of a crawl.
#[derive(Clone, Copy, Debug, PartialEq, Eq)]
pub enum UrlError {
    /// The URL does not parse as an absolute URL.
    Unparsable,
    /// The URL parses, but its host is not a domain name.
    NoDomain,
}

/// An in-page anchor: an `href` that begins with `#`.
pub open spec fn is_anchor(href: Seq<char>) -> bool {
    href.len() > 0 && href[0] == '#'
}

/// An `href` that begins with `/`: a path from the root of the host.
pub open spec fn is_rooted(href: Seq<char>) -> bool {
    href.len() > 0 && href[0] == '/'
}

/// `scheme://domain`.
pub open spec fn origin_of(scheme: Seq<char>, domain: Seq<char>) -> Seq<char> {
    scheme + "://"@ + domain
}

/// A relative `href` joined to the root of a domain: `scheme://domain` and the
/// `href`, with one `/` between them unless the `href` brings its own.
pub open spec fn joined(scheme: Seq<char>, domain: Seq<char>, href: Seq<char>) -> Seq<char> {
    if is_rooted(href) {
        origin_of(scheme, domain) + href
    } else {
        origin_of(scheme, domain) + "/"@ + href
    }
}

/// Whether `href` can be resolved against `base`, where `target` is what the
/// parser made of `href`: only a relative `href` needs anything of the base,
/// namely a domain to be joined to.
pub open spec fn resolvable(base: UrlView, href: Seq<char>, target: Option<UrlView>) -> bool {
    is_anchor(href) || target is Some || base.domain() is Some
}

/// The canonical URL that `href` stands for on the host of `base`, where
/// `target` is what the parser made of `href`; `None` for an anchor and for a
/// URL on another host.
pub open spec fn resolved(base: UrlView, href: Seq<char>, target: Option<UrlView>) -> Option<
    Seq<char>,
> {
    if is_anchor(href) {
        None
    } else {
        match target {
            Some(absolute) => if absolute.host is Some && absolute.host == base.host {
                Some(absolute.href)
            } else {
                None
            },
            None => Some(joined(base.scheme, base.domain().unwrap(), href)),
        }
    }
}

/// Whether `path` can be normalized against the base `url`: always for an
/// anchor; otherwise the base has to parse, and to have a domain where `path`
/// is relative.
pub open spec fn can_normalize(url: Seq<char>, path: Seq<char>) -> bool {
    is_anchor(path) || (parsed_url(url) matches Some(base) && resolvable(
        base,
        path,
        parsed_url(path),
    ))
}

/// What `path`, found on the page `url`, is normalized to.
pub open spec fn normalized(url: Seq<char>, path: Seq<char>) -> Option<Seq<char>> {
    if is_anchor(path) {
        None
    } else {
        resolved(parsed_url(url).unwrap(), path, parsed_url(path))
    }
}

/// What is wrong with `url` as a base, where something is.
pub open spec fn base_error(url: Seq<char>) -> UrlError {
    if parsed_url(url) is None {
        UrlError::Unparsable
    } else {
        UrlError::NoDomain
    }
}

/// The canonical form of a seed: `scheme://domain/`, or why it has none.
pub open spec fn seed_of(parsed: Option<UrlView>) -> Result<Seq<char>, UrlError> {
    match parsed {
        None => Err(UrlError::Unparsable),
        Some(url) => match url.domain() {
            None => Err(UrlError::NoDomain),
            Some(domain) => Ok(origin_of(url.scheme, domain) + "/"@),
        },
    }
}

/// An anchor never names a page: whatever the base, even one that does not
/// parse, an `href` that begins with `#` normalizes to nothing.
pub proof fn lemma_anchor_is_dropped(url: Seq<char>, path: Seq<char>)
    requires
        is_anchor(path),
    ensures
        can_normalize(url, path),
        normalized(url, path) is None,
{
}

/// An absolute URL whose host is not the base's normalizes to nothing.
pub proof fn lemma_other_host_is_dropped(url: Seq<char>, path: Seq<char>)
    requires
        parsed_url(url) is Some,
        parsed_url(path) is Some,
        parsed_url(path).unwrap().host != parsed_url(url).unwrap().host,
    ensures
        can_normalize(url, path),
        normalized(url, path) is None,
{
}

/// A relative `href` that begins with `/` normalizes to the base's
/// `scheme://domain` with the `href` right behind it, whatever the path of
/// the base.
pub proof fn lemma_rooted_href_joins_domain(url: Seq<char>, path: Seq<char>)
    requires
        parsed_url(url) is Some,
        parsed_url(url).unwrap().domain() is Some,
        parsed_url(path) is None,
        is_rooted(path),
    ensures
        can_normalize(url, path),
        normalized(url, path) == Some(
            parsed_url(url).unwrap().scheme + "://"@ + parsed_url(url).unwrap().domain().unwrap()
                + path,
        ),
{
}

/// A URL that is written as the parser writes it back, and that is on the
/// base's host, normalizes to itself.
pub proof fn lemma_canonical_url_is_kept(url: Seq<char>, path: Seq<char>)
    requires
        parsed_url(url) is Some,
        parsed_url(path) is Some,
        parsed_url(path).unwrap().href == path,
        parsed_url(path).unwrap().host is Some,
        parsed_url(path).unwrap().host == parsed_url(url).unwrap().host,
        !is_anchor(path),
    ensures
        can_normalize(url, path),
        normalized(url, path) == Some(path),
        normalized(url, normalized(url, path).unwrap()) == normalized(url, path),
{
}

/// Whether `href` begins with `#`.
pub fn starts_with_hash(href: &str) -> (anchor: bool)
    ensures
        anchor == is_anchor(href@),
{
    !href.is_empty() && href.get_char(0) == '#'
}

/// Whether `href` begins with `/`.
pub fn starts_with_slash(href: &str) -> (rooted: bool)
    ensures
        rooted == is_rooted(href@),
{
    !href.is_empty() && href.get_char(0) == '/'
}

/// Writes `scheme://domain`.
fn write_origin(scheme: &String, domain: &String) -> (origin: String)
    ensures
        origin@ == origin_of(scheme@, domain@),
{
    let mut origin = scheme.clone();
    origin.append("://");
    origin.append(domain.as_str());
    origin
}

impl ParsedUrl {
    /// The root of this URL's domain, `scheme://domain/`; `None` where the
    /// host is not a domain.
    pub fn root(&self) -> (root: Option<String>)
        ensures
            match root {
                Some(text) => seed_of(Some(self@)) == Ok::<Seq<char>, UrlError>(text@),
                None => seed_of(Some(self@)) == Err::<Seq<char>, UrlError>(UrlError::NoDomain),
            },
    {
        match self.domain() {
            None => None,
            Some(domain) => {
                let mut root = write_origin(&self.scheme, domain);
                root.append("/");
                Some(root)
            },
        }
    }
}

/// Resolves `href` against `base`, given what the parser made of `href`.
///
/// An anchor resolves to nothing. An absolute URL resolves to its own
/// serialization if it is on the host of `base`, and to nothing otherwise. A
/// relative `href` is joined to the root of the base's domain.
pub fn resolve_href(base: &ParsedUrl, href: &str, target: Option<&ParsedUrl>) -> (link: Option<
    String,
>)
    requires
        resolvable(base@, href@, target.deep_view()),
    ensures
        link.deep_view() == resolved(base@, href@, target.deep_view()),
{
    if starts_with_hash(href) {
        return None;
    }
    match target {
        Some(absolute) => {
            if absolute.shares_host_with(base) {
                Some(absolute.href.clone())
            } else {
                None
            }
        },
        None => {
            match base.domain() {
                Some(domain) => {
                    let mut link = write_origin(&base.scheme, domain);
                    if !starts_with_slash(href) {
                        link.append("/");
                    }
                    link.append(href);
                    Some(link)
                },
                None => None,
            }
        },
    }
}

/// Normalizes `path`, an `href` found on the page `url`.
///
/// The caller answers for the base: unless `path` is an anchor, `url` has to
/// parse, and to have a domain where `path` is relative.
pub fn normalize_url(url: &str, path: &str) -> (link: Option<String>)
    requires
        can_normalize(url@, path@),
    ensures
        link.deep_view() == normalized(url@, path@),
{
    if starts_with_hash(path) {
        return None;
    }
    match ParsedUrl::parse(url) {
        Some(base) => {
            let target = ParsedUrl::parse(path);
            resolve_href(&base, path, target.as_ref())
        },
        None => None,
    }
}

/// Normalizes `path` against the base `url` where that can be done, and says
/// what is wrong with the base where it cannot.
pub fn try_normalize_url(url: &str, path: &str) -> (outcome: Result<Option<String>, UrlError>)
    ensures
        match outcome {
            Ok(link) => can_normalize(url@, path@) && link.deep_view() == normalized(url@, path@),
            Err(error) => !can_normalize(url@, path@) && error == base_error(url@),
        },
{
    if !starts_with_hash(path) {
        match ParsedUrl::parse(url) {
            None => {
                return Err(UrlError::Unparsable);
            },
            Some(base) => {
                if base.domain().is_none() && ParsedUrl::parse(path).is_none() {
                    return Err(UrlError::NoDomain);
                }
            },
        }
    }
    Ok(normalize_url(url, path))
}

/// Checks a seed URL and brings it to the form `scheme://domain/`.
pub fn format_url(url: &str) -> (seed: Result<String, UrlError>)
    ensures
        match seed {
            Ok(text) => seed_of(parsed_url(url@)) == Ok::<Seq<char>, UrlError>(text@),
            Err(error) => seed_of(parsed_url(url@)) == Err::<Seq<char>, UrlError>(error),
        },
{
    match ParsedUrl::parse(url) {
        None => Err(UrlError::Unparsable),
        Some(parsed) => match parsed.root() {
            Some(text) => Ok(text),
            None => Err(UrlError::NoDomain),
        },
    }
}

} // verus!
