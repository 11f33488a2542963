//! Webpage metadata extraction: page title, language, description, canonical
//! and feed URLs, meta tags, OpenGraph media, Schema.org items and links, with
//! the address rules that guard a fetch against internal targets.
//!
//! The library computes; it opens no file and no connection. A transport
//! hands it the head and the body chunks of a response, and gets back what
//! to do next and, in the end, the record of the page.

use vstd::prelude::*;

pub mod body_text;
pub mod dom;
pub mod encoding;
pub mod error;
pub mod guard;
pub mod html;
pub mod http;
pub mod json;
pub mod net;
pub mod opengraph;
pub mod resolve;
pub mod schema_org;
pub mod string_map;
pub mod text;

pub use error::Error;
pub use html::{HtmlInfo, Link};
pub use http::{HttpInfo, HttpOptions};
pub use net::{is_internal_host, is_private_ip, is_private_ipv4, is_private_ipv6};
pub use opengraph::{Opengraph, OpengraphMedia};
pub use schema_org::SchemaOrg;

use crate::dom::parsed_document;
use crate::error::ErrorView;
use crate::html::{base_of, extracted};
use crate::text::{contains, has_infix, opt_view};

verus! {

/// A fetched page: the response and what the page states.
#[derive(Clone, Debug)]
pub struct WebpageInfo {
    /// The response.
    pub http: HttpInfo,
    /// What the page states.
    pub html: HtmlInfo,
}

/// Whether a media type is one that a page may have: it holds `html` or
/// `xml`.
pub open spec fn is_page_type(content_type: Seq<char>) -> bool {
    has_infix(content_type, "html"@) || has_infix(content_type, "xml"@)
}

/// Whether a response with this media type is taken for a page. A response
/// that states no media type is.
pub open spec fn is_accepted(content_type: Option<Seq<char>>) -> bool {
    match content_type {
        Some(ct) => is_page_type(ct),
        None => true,
    }
}

/// Whether a response with this media type is taken for a page.
pub fn accepts_content_type(content_type: &Option<String>) -> (r: bool)
    ensures
        r == is_accepted(opt_view(*content_type)),
{
    match content_type {
        Some(ct) => contains(ct.as_str(), "html") || contains(ct.as_str(), "xml"),
        None => true,
    }
}

impl WebpageInfo {
    /// Makes the record of a fetched page from its response: refuses a
    /// response whose media type is neither HTML nor XML, else extracts what
    /// the body states, with the response's URL as the base of its links.
    pub fn from_response(http: HttpInfo) -> (r: Result<WebpageInfo, Error>)
        ensures
            match r {
                Ok(page) => {
                    &&& is_accepted(opt_view(http.content_type))
                    &&& page.http == http
                    &&& page.html@ == extracted(
                        parsed_document(http.body@),
                        base_of(Some(http.url@)),
                    )
                },
                Err(e) => {
                    &&& !is_accepted(opt_view(http.content_type))
                    &&& http.content_type is Some
                    &&& e@ == ErrorView::InvalidContentType(http.content_type->Some_0@)
                },
            },
    {
        if !accepts_content_type(&http.content_type) {
            match &http.content_type {
                Some(ct) => {
                    return Err(Error::InvalidContentType(ct.clone()));
                },
                None => {},
            }
        }
        match HtmlInfo::from_string(http.body.as_str(), Some(http.url.as_str())) {
            Ok(html) => Ok(WebpageInfo { http, html }),
            Err(e) => Err(e),
        }
    }
}

} // verus!
