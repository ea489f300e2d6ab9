//! Trusted boundary to the `url` crate: parsing an absolute URL and
//! resolving a reference against a base.
//!
//! Both outcomes are functions of the input text alone, so they are given
//! names that the rest of the library's contracts speak of.

use vstd::prelude::*;

verus! {

/// The parts of a parsed absolute URL that the pipeline reads.
pub struct UrlParts {
    /// The serialized, normalized form of the whole URL.
    pub norm: String,
    /// The URL's scheme, without the `://` separator.
    pub scheme: String,
    /// The URL's host, or empty when it has none.
    pub host: String,
}

pub struct UrlPartsV {
    pub norm: Seq<char>,
    pub scheme: Seq<char>,
    pub host: Seq<char>,
}

impl View for UrlParts {
    type V = UrlPartsV;

    open spec fn view(&self) -> UrlPartsV {
        UrlPartsV { norm: self.norm@, scheme: self.scheme@, host: self.host@ }
    }
}

/// What parsing an absolute URL yields: its normalized serialization, its
/// scheme and its host (empty when absent), or nothing when the text does
/// not parse as an absolute URL.
pub uninterp spec fn url_parse_parts(s: Seq<char>) -> Option<UrlPartsV>;

/// What resolving the reference `href` against the absolute URL `base`
/// yields: the serialized absolute result, or nothing when resolution fails.
pub uninterp spec fn url_join(base: Seq<char>, href: Seq<char>) -> Option<Seq<char>>;

/// Relies on `url::Url::parse`: whether a text parses as an absolute URL,
/// and the parsed URL's serialization (`Url::as_str`), `Url::scheme` and
/// `Url::host_str`, are functions of the text alone.
#[verifier::external_body]
pub fn parse_url_parts(s: &str) -> (r: Option<UrlParts>)
    ensures
        match r {
            Some(p) => url_parse_parts(s@) == Some(p@),
            None => url_parse_parts(s@) is None,
        },
{
    match url::Url::parse(s) {
        Ok(u) => Some(
            UrlParts {
                scheme: u.scheme().to_string(),
                host: u.host_str().unwrap_or_default().to_string(),
                norm: u.to_string(),
            },
        ),
        Err(_) => None,
    }
}

/// Relies on `url::Url::join` (with `url::Url::parse` to read the base):
/// standard URL reference resolution, a function of the two texts alone.
#[verifier::external_body]
pub fn resolve_url(base: &str, href: &str) -> (r: Option<String>)
    ensures
        match r {
            Some(u) => url_join(base@, href@) == Some(u@),
            None => url_join(base@, href@) is None,
        },
{
    match url::Url::parse(base) {
        Ok(b) => b.join(href).ok().map(|u| u.to_string()),
        Err(_) => None,
    }
}

} // verus!
