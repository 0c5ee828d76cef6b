//! A same-host broken-link checker, as a verified crawl engine.
//!
//! The crate turns raw `href` values into canonical same-host URLs, keeps the
//! visited, frontier and broken-link sets of one run, and decides which page
//! is fetched next. Fetching itself is left to the caller: the engine hands
//! out a URL, the caller fetches it and reports what came back.

pub mod crawl;
pub mod links;
pub mod normalize;
pub mod url_parts;
pub mod url_set;

pub use crawl::{is_ok, Crawl, CrawlError, FetchOutcome, Observation};
pub use links::{collect_links, get_links_from_raw_html};
pub use normalize::{format_url, normalize_url, resolve_href, try_normalize_url, UrlError};
pub use url_parts::{Host, ParsedUrl};
pub use url_set::UrlSet;
