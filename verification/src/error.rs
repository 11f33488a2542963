//! The errors of fetching and parsing a page.

use crate::resolve::{describe_parse_error, parse_error_text};
use vstd::prelude::*;
use vstd::string::StringExecFns;

verus! {

/// What can go wrong when a page is fetched or parsed. Each kind carries a
/// message for people to read.
#[derive(Debug)]
pub enum Error {
    /// The URL does not parse, has no host, or has a scheme other than
    /// `http` and `https`.
    InvalidUrl(String),
    /// A URL failed to parse in a nested call.
    UrlParse(url::ParseError),
    /// The transport failed: connect, TLS, timeout or read.
    Http(String),
    /// A file could not be read.
    Io(String),
    /// The HTML parser gave up.
    ParseError,
    /// The response has a content type that is neither HTML nor XML.
    InvalidContentType(String),
    /// The request would have gone to an internal host or a private address.
    SsrfBlocked(String),
}

/// What an [`Error`] holds.
pub enum ErrorView {
    InvalidUrl(Seq<char>),
    UrlParse(url::ParseError),
    Http(Seq<char>),
    Io(Seq<char>),
    ParseError,
    InvalidContentType(Seq<char>),
    SsrfBlocked(Seq<char>),
}

impl View for Error {
    type V = ErrorView;

    open spec fn view(&self) -> ErrorView {
        match *self {
            Error::InvalidUrl(m) => ErrorView::InvalidUrl(m@),
            Error::UrlParse(e) => ErrorView::UrlParse(e),
            Error::Http(m) => ErrorView::Http(m@),
            Error::Io(m) => ErrorView::Io(m@),
            Error::ParseError => ErrorView::ParseError,
            Error::InvalidContentType(m) => ErrorView::InvalidContentType(m@),
            Error::SsrfBlocked(m) => ErrorView::SsrfBlocked(m@),
        }
    }
}

/// The line that describes an error.
pub open spec fn error_text(e: ErrorView) -> Seq<char> {
    match e {
        ErrorView::InvalidUrl(m) => "invalid URL: "@ + m,
        ErrorView::UrlParse(e) => "URL parse error: "@ + parse_error_text(e),
        ErrorView::Http(m) => "HTTP request failed: "@ + m,
        ErrorView::Io(m) => "failed to read file: "@ + m,
        ErrorView::ParseError => "failed to parse HTML"@,
        ErrorView::InvalidContentType(m) => "invalid content type: expected HTML, got "@ + m,
        ErrorView::SsrfBlocked(m) => "SSRF protection: "@ + m,
    }
}

impl Error {
    /// The line that describes the error: what kind it is, then its message.
    pub fn to_string(&self) -> (r: String)
        ensures
            r@ == error_text(self@),
    {
        match self {
            Error::InvalidUrl(m) => String::from_str("invalid URL: ").concat(m.as_str()),
            Error::UrlParse(e) => {
                let text = describe_parse_error(e);
                String::from_str("URL parse error: ").concat(text.as_str())
            },
            Error::Http(m) => String::from_str("HTTP request failed: ").concat(m.as_str()),
            Error::Io(m) => String::from_str("failed to read file: ").concat(m.as_str()),
            Error::ParseError => String::from_str("failed to parse HTML"),
            Error::InvalidContentType(m) => String::from_str(
                "invalid content type: expected HTML, got ",
            ).concat(m.as_str()),
            Error::SsrfBlocked(m) => String::from_str("SSRF protection: ").concat(m.as_str()),
        }
    }
}

} // verus!
