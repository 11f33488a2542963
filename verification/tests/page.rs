use webpage_info::{accepts_content_type, Error, HttpInfo, WebpageInfo};

fn response(content_type: Option<&str>, body: &str) -> HttpInfo {
    HttpInfo {
        url: "https://example.com/articles/one".to_string(),
        status_code: 200,
        headers: Vec::new(),
        content_type: content_type.map(|s| s.to_string()),
        redirect_count: 0,
        body: body.to_string(),
    }
}

#[test]
fn content_types_of_pages() {
    for ct in [
        "text/html",
        "application/xhtml+xml",
        "application/xml",
        "text/xml",
        "application/rss+xml",
    ] {
        assert!(accepts_content_type(&Some(ct.to_string())), "{}", ct);
    }
    for ct in ["application/json", "image/png", "text/plain", "", "TEXT/HTML"] {
        assert!(!accepts_content_type(&Some(ct.to_string())), "{}", ct);
    }
    assert!(accepts_content_type(&None));
}

#[test]
fn a_page_is_extracted_with_its_url_as_base() {
    let page = WebpageInfo::from_response(response(
        Some("text/html"),
        "<title>One</title><a href=\"two\">next</a>",
    ))
    .unwrap();
    assert_eq!(page.http.status_code, 200);
    assert_eq!(page.html.title.as_deref(), Some("One"));
    assert_eq!(page.html.links[0].url, "https://example.com/articles/two");
}

#[test]
fn a_response_without_content_type_is_taken_for_a_page() {
    let page = WebpageInfo::from_response(response(None, "<title>T</title>")).unwrap();
    assert_eq!(page.html.title.as_deref(), Some("T"));
}

#[test]
fn other_content_is_refused() {
    match WebpageInfo::from_response(response(Some("application/pdf"), "%PDF")) {
        Err(Error::InvalidContentType(ct)) => assert_eq!(ct, "application/pdf"),
        other => panic!("{:?}", other.map(|p| p.http.status_code)),
    }
    let e = WebpageInfo::from_response(response(Some("image/png"), "")).unwrap_err();
    assert_eq!(
        e.to_string(),
        "invalid content type: expected HTML, got image/png"
    );
}

#[test]
fn every_error_has_its_line() {
    assert_eq!(Error::InvalidUrl("x".into()).to_string(), "invalid URL: x");
    assert_eq!(
        Error::Http("timed out".into()).to_string(),
        "HTTP request failed: timed out"
    );
    assert_eq!(
        Error::Io("gone".into()).to_string(),
        "failed to read file: gone"
    );
    assert_eq!(Error::ParseError.to_string(), "failed to parse HTML");
    assert_eq!(
        Error::SsrfBlocked("y".into()).to_string(),
        "SSRF protection: y"
    );
    let parse = url::Url::parse("//no-scheme").unwrap_err();
    assert_eq!(
        Error::UrlParse(parse).to_string(),
        "URL parse error: relative URL without a base"
    );
}
