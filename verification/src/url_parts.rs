//! The parts of an absolute URL that link resolution reads.

use vstd::prelude::*;

verus! {

/// The host of a URL: a domain name or an IP address.
#[derive(Clone, Debug)]
pub enum Host {
    /// A domain name, or the opaque host of a URL with a non-special scheme.
    Domain(String),
    /// An IPv4 address, as its 32 bits.
    Ipv4(u32),
    /// An IPv6 address, as its 128 bits.
    Ipv6(u128),
}

/// The mathematical value of a [`Host`].
pub ghost enum HostView {
    Domain(Seq<char>),
    Ipv4(u32),
    Ipv6(u128),
}

/// A URL that parsed as absolute: its scheme, its host if it has one, and its
/// serialization.
#[derive(Clone, Debug)]
pub struct ParsedUrl {
    /// The scheme, without the `:` that follows it.
    pub scheme: String,
    /// The host, if the URL has one.
    pub host: Option<Host>,
    /// The whole URL, as the parser writes it back.
    pub href: String,
}

/// The mathematical value of a [`ParsedUrl`].
pub ghost struct UrlView {
    pub scheme: Seq<char>,
    pub host: Option<HostView>,
    pub href: Seq<char>,
}

impl View for Host {
    type V = HostView;

    open spec fn view(&self) -> HostView {
        match *self {
            Host::Domain(name) => HostView::Domain(name@),
            Host::Ipv4(bits) => HostView::Ipv4(bits),
            Host::Ipv6(bits) => HostView::Ipv6(bits),
        }
    }
}

impl DeepView for Host {
    type V = HostView;

    open spec fn deep_view(&self) -> HostView {
        self@
    }
}

impl View for ParsedUrl {
    type V = UrlView;

    open spec fn view(&self) -> UrlView {
        UrlView { scheme: self.scheme@, host: self.host.deep_view(), href: self.href@ }
    }
}

impl DeepView for ParsedUrl {
    type V = UrlView;

    open spec fn deep_view(&self) -> UrlView {
        self@
    }
}

impl UrlView {
    /// The host's name where the host is a domain, as opposed to an IP
    /// address or no host at all.
    pub open spec fn domain(self) -> Option<Seq<char>> {
        match self.host {
            Some(HostView::Domain(name)) => Some(name),
            _ => None,
        }
    }
}

/// What the URL parser makes of `input`: `None` where it does not parse as an
/// absolute URL, else the parts of the URL it read.
pub uninterp spec fn parsed_url(input: Seq<char>) -> Option<UrlView>;

/// Calls `url::Url::parse` and copies out the scheme, the host and the
/// serialization of the URL it returns.
///
/// Trusted: the result is what the parser returns for `input`, which depends
/// on `input` alone. A parse error of any kind becomes `None`. An IP address
/// is carried as std's conversion of it to an integer.
#[verifier::external_body]
fn parse_absolute(input: &str) -> (parsed: Option<ParsedUrl>)
    ensures
        parsed.deep_view() == parsed_url(input@),
{
    match url::Url::parse(input) {
        Err(_) => None,
        Ok(url) => Some(ParsedUrl {
            scheme: url.scheme().to_string(),
            host: match url.host() {
                None => None,
                Some(url::Host::Domain(name)) => Some(Host::Domain(name.to_string())),
                Some(url::Host::Ipv4(address)) => Some(Host::Ipv4(u32::from(address))),
                Some(url::Host::Ipv6(address)) => Some(Host::Ipv6(u128::from(address))),
            },
            href: url.to_string(),
        }),
    }
}

impl Host {
    /// Whether two hosts are the same: both domains with the same name, or
    /// both addresses of the same family with the same bits.
    pub fn same(&self, other: &Host) -> (same: bool)
        ensures
            same == (self@ == other@),
    {
        match (self, other) {
            (Host::Domain(a), Host::Domain(b)) => *a == *b,
            (Host::Ipv4(a), Host::Ipv4(b)) => *a == *b,
            (Host::Ipv6(a), Host::Ipv6(b)) => *a == *b,
            _ => false,
        }
    }
}

impl ParsedUrl {
    /// Parses `input` as an absolute URL.
    pub fn parse(input: &str) -> (parsed: Option<ParsedUrl>)
        ensures
            parsed.deep_view() == parsed_url(input@),
    {
        parse_absolute(input)
    }

    /// The host's name where the host is a domain.
    pub fn domain(&self) -> (name: Option<&String>)
        ensures
            name.deep_view() == self@.domain(),
    {
        match &self.host {
            Some(Host::Domain(name)) => Some(name),
            _ => None,
        }
    }

    /// Whether this URL has a host and `other` has the same one.
    pub fn shares_host_with(&self, other: &ParsedUrl) -> (shared: bool)
        ensures
            shared == (self@.host is Some && self@.host == other@.host),
    {
        match (&self.host, &other.host) {
            (Some(mine), Some(theirs)) => mine.same(theirs),
            _ => false,
        }
    }
}

} // verus!
