//! URLs: parsing, the parts that the request guard reads, and resolving a
//! reference against a base.

use crate::text::opt_view;
use vstd::prelude::*;

verus! {

#[verifier::external_type_specification]
#[verifier::external_body]
pub struct ExUrl(url::Url);

#[verifier::external_type_specification]
#[verifier::external_body]
pub struct ExUrlParseError(url::ParseError);

/// The parts of a parsed URL that the request guard reads.
#[derive(Clone, Debug)]
pub struct UrlParts {
    /// The scheme, in lower case, without the colon.
    pub scheme: String,
    /// The host as it stands in the URL, if the URL has one.
    pub host: Option<String>,
    /// The port, where the URL states one that is not its scheme's default.
    pub port: Option<u16>,
}

/// What a [`UrlParts`] holds.
pub struct UrlPartsView {
    pub scheme: Seq<char>,
    pub host: Option<Seq<char>>,
    pub port: Option<u16>,
}

impl View for UrlParts {
    type V = UrlPartsView;

    open spec fn view(&self) -> UrlPartsView {
        UrlPartsView { scheme: self.scheme@, host: opt_view(self.host), port: self.port }
    }
}

/// What `url::Url::parse` makes of a text: a URL, or the error it reports.
pub uninterp spec fn url_parsed(text: Seq<char>) -> Result<url::Url, url::ParseError>;

/// The scheme, host and port of a URL, as `Url::scheme`, `Url::host_str` and
/// `Url::port` give them.
pub uninterp spec fn parts_of(u: url::Url) -> UrlParts;

/// What `url::Url::join` makes of a reference against a base: the resolved
/// URL as text, or nothing where the reference does not resolve.
pub uninterp spec fn url_joined(base: url::Url, reference: Seq<char>) -> Option<Seq<char>>;

/// The text that `url::ParseError` shows for an error.
pub uninterp spec fn parse_error_text(e: url::ParseError) -> Seq<char>;

/// Wraps `url::Url::parse`.
#[verifier::external_body]
pub(crate) fn parse_url(text: &str) -> (r: Result<url::Url, url::ParseError>)
    ensures
        r == url_parsed(text@),
{
    url::Url::parse(text)
}

/// Wraps `Url::scheme`, `Url::host_str` and `Url::port`: the three as plain
/// values.
#[verifier::external_body]
pub(crate) fn read_parts(u: &url::Url) -> (r: UrlParts)
    ensures
        r == parts_of(*u),
{
    UrlParts {
        scheme: u.scheme().to_string(),
        host: u.host_str().map(|h| h.to_string()),
        port: u.port(),
    }
}

/// Wraps `url::Url::join`: the reference resolved against the base, written
/// out as the URL's `Display` writes it.
#[verifier::external_body]
pub(crate) fn join(base: &url::Url, reference: &str) -> (r: Option<String>)
    ensures
        opt_view(r) == url_joined(*base, reference@),
{
    base.join(reference).ok().map(|u| u.to_string())
}

/// Wraps the `Display` of `url::ParseError`: the description of the error.
#[verifier::external_body]
pub(crate) fn describe_parse_error(e: &url::ParseError) -> (r: String)
    ensures
        r@ == parse_error_text(*e),
{
    e.to_string()
}

} // verus!
