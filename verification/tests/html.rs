use webpage_info::html::{
    feed_from, first_attribute_from, link_from, links_from, meaningful_of, schema_org_from,
    title_from, MAX_LINKS, MAX_SCHEMA_ORG_ITEMS,
};
use webpage_info::dom::{elements_of, inner_text_of, DomEvent, Element};
use webpage_info::HtmlInfo;

fn element(attributes: Vec<Option<&str>>, text: &str) -> Element {
    Element {
        attributes: attributes
            .into_iter()
            .map(|a| a.map(|s| s.to_string()))
            .collect(),
        text: text.to_string(),
    }
}

#[test]
fn test_basic_parsing() {
    let html = r#"
            <!DOCTYPE html>
            <html lang="en">
            <head>
                <title>Test Page</title>
                <meta name="description" content="A test page">
                <meta property="og:title" content="OG Title">
                <meta property="og:type" content="article">
                <link rel="canonical" href="https://example.com/test">
            </head>
            <body>
                <p>Hello World</p>
                <a href="/about">About Us</a>
            </body>
            </html>
        "#;

    let info = HtmlInfo::from_string(html, Some("https://example.com/")).unwrap();

    assert_eq!(info.title, Some("Test Page".to_string()));
    assert_eq!(info.description, Some("A test page".to_string()));
    assert_eq!(info.language, Some("en".to_string()));
    assert_eq!(
        info.canonical_url,
        Some("https://example.com/test".to_string())
    );
    assert_eq!(info.opengraph.title, Some("OG Title".to_string()));
    assert_eq!(info.opengraph.og_type, Some("article".to_string()));
    assert!(info.text_content.contains("Hello World"));
    assert_eq!(info.links.len(), 1);
    assert_eq!(info.links[0].url, "https://example.com/about");
    assert_eq!(info.links[0].text, "About Us");
}

#[test]
fn test_feed_extraction() {
    let html = r#"
            <html>
            <head>
                <link rel="alternate" type="application/rss+xml" href="/feed.xml">
            </head>
            </html>
        "#;

    let info = HtmlInfo::from_string(html, None).unwrap();
    assert_eq!(info.feed_url, Some("/feed.xml".to_string()));
}

#[test]
fn test_schema_org_extraction() {
    let html = r#"
            <html>
            <head>
                <script type="application/ld+json">
                {"@type": "Article", "headline": "Test Article"}
                </script>
            </head>
            </html>
        "#;

    let info = HtmlInfo::from_string(html, None).unwrap();
    assert_eq!(info.schema_org.len(), 1);
    assert_eq!(info.schema_org[0].schema_type, "Article");
}

#[test]
fn test_text_excludes_scripts() {
    let html = r#"
            <html>
            <body>
                <p>Visible text</p>
                <script>console.log('hidden');</script>
                <style>.hidden { display: none; }</style>
                <p>More visible</p>
            </body>
            </html>
        "#;

    let info = HtmlInfo::from_string(html, None).unwrap();
    assert!(info.text_content.contains("Visible text"));
    assert!(info.text_content.contains("More visible"));
    assert!(!info.text_content.contains("console.log"));
    assert!(!info.text_content.contains(".hidden"));
}

#[test]
fn page_scenario_with_base() {
    let html = "<html lang=\"en\"><head><title>Test Page</title><meta name=\"description\" content=\"A test page\"><meta property=\"og:title\" content=\"OG Title\"><meta property=\"og:type\" content=\"article\"><link rel=\"canonical\" href=\"https://example.com/test\"></head><body><p>Hello World</p><a href=\"/about\">About Us</a></body></html>";
    let info = HtmlInfo::from_string(html, Some("https://example.com/")).unwrap();
    assert_eq!(info.title.as_deref(), Some("Test Page"));
    assert_eq!(info.description.as_deref(), Some("A test page"));
    assert_eq!(info.language.as_deref(), Some("en"));
    assert_eq!(info.canonical_url.as_deref(), Some("https://example.com/test"));
    assert_eq!(info.opengraph.title.as_deref(), Some("OG Title"));
    assert_eq!(info.opengraph.og_type.as_deref(), Some("article"));
    assert_eq!(info.text_content, "Hello World About Us");
    assert_eq!(info.links.len(), 1);
    assert_eq!(info.links[0].url, "https://example.com/about");
    assert_eq!(info.links[0].text, "About Us");
    assert_eq!(info.links[0].rel, None);
    assert_eq!(info.meta.get("description").map(|s| s.as_str()), Some("A test page"));
    assert_eq!(info.meta.get("og:title").map(|s| s.as_str()), Some("OG Title"));
}

#[test]
fn feed_scenario_bare_link() {
    let info = HtmlInfo::from_string(
        "<link rel=\"alternate\" type=\"application/rss+xml\" href=\"/feed.xml\">",
        None,
    )
    .unwrap();
    assert_eq!(info.feed_url.as_deref(), Some("/feed.xml"));
}

#[test]
fn schema_scenario_headline() {
    let info = HtmlInfo::from_string(
        "<script type=\"application/ld+json\">{\"@type\":\"Article\",\"headline\":\"Test\"}</script>",
        None,
    )
    .unwrap();
    assert_eq!(info.schema_org.len(), 1);
    assert_eq!(info.schema_org[0].schema_type, "Article");
    assert_eq!(info.schema_org[0].get_str("headline"), Some("Test"));
}

#[test]
fn text_scenario_skips_script_and_style() {
    let info = HtmlInfo::from_string(
        "<html><body><p>Visible</p><script>console.log('hide')</script><style>.x{}</style><p>More</p></body></html>",
        None,
    )
    .unwrap();
    assert_eq!(info.text_content, "Visible More");
    assert!(!info.text_content.contains("console.log"));
    assert!(!info.text_content.contains(".x{"));
}

#[test]
fn noscript_text_is_skipped_at_any_depth() {
    let info = HtmlInfo::from_string(
        "<html><body><div>a<noscript><div><b>deep</b></div></noscript>b</div><script>x</script>c</body></html>",
        None,
    )
    .unwrap();
    assert_eq!(info.text_content, "a b c");
}

#[test]
fn empty_document_states_nothing() {
    let info = HtmlInfo::from_string("", None).unwrap();
    assert_eq!(info.title, None);
    assert_eq!(info.description, None);
    assert_eq!(info.language, None);
    assert_eq!(info.canonical_url, None);
    assert_eq!(info.feed_url, None);
    assert_eq!(info.text_content, "");
    assert!(info.meta.is_empty());
    assert!(info.opengraph.is_empty());
    assert!(info.schema_org.is_empty());
    assert!(info.links.is_empty());
}

#[test]
fn scalars_are_absent_when_they_trim_to_nothing() {
    let html = "<html lang=\"  \"><head><title>   </title><meta name=\"description\" content=\"  \"><link rel=\"canonical\" href=\" \"><link rel=\"alternate\" type=\"application/atom+xml\" href=\"  \"></head><body></body></html>";
    let info = HtmlInfo::from_string(html, None).unwrap();
    assert_eq!(info.title, None);
    assert_eq!(info.language, None);
    assert_eq!(info.canonical_url, None);
    assert_eq!(info.feed_url, None);
    assert_eq!(info.description, None);
    assert_eq!(info.meta.get("description").map(|s| s.as_str()), Some(""));
}

#[test]
fn scalars_are_trimmed() {
    let html = "<html lang=\" de \"><head><title>\n  Titel \t</title><link rel=\"canonical\" href=\" /c \"></head></html>";
    let info = HtmlInfo::from_string(html, Some("https://example.com/")).unwrap();
    assert_eq!(info.title.as_deref(), Some("Titel"));
    assert_eq!(info.language.as_deref(), Some("de"));
    assert_eq!(info.canonical_url.as_deref(), Some("/c"));
}

#[test]
fn meta_last_write_wins_and_charset() {
    let html = "<head><meta charset=\"utf-8\"><meta name=\"robots\" content=\"a\"><meta name=\"robots\" content=\" b \"><meta http-equiv=\"refresh\" content=\"5\"><meta property=\"p\" name=\"n\" content=\"v\"></head>";
    let info = HtmlInfo::from_string(html, None).unwrap();
    assert_eq!(info.meta.get("charset").map(|s| s.as_str()), Some("utf-8"));
    assert_eq!(info.meta.get("robots").map(|s| s.as_str()), Some("b"));
    assert_eq!(info.meta.get("refresh").map(|s| s.as_str()), Some("5"));
    assert_eq!(info.meta.get("p").map(|s| s.as_str()), Some("v"));
    assert_eq!(info.meta.get("n"), None);
    assert_eq!(info.meta.len(), 4);
}

#[test]
fn description_follows_the_last_tag() {
    let html = "<head><meta name=\"description\" content=\"first\"><meta name=\"description\" content=\"second\"></head>";
    let info = HtmlInfo::from_string(html, None).unwrap();
    assert_eq!(info.description.as_deref(), Some("second"));
}

#[test]
fn opengraph_media_from_meta_tags() {
    let html = "<head><meta property=\"og:image\" content=\"http://e.org/1.png\"><meta property=\"og:image:width\" content=\"10\"><meta property=\"og:video:url\" content=\"http://e.org/v\"><meta property=\"og:image:height\" content=\"x\"><meta property=\"og:custom\" content=\"c\"></head>";
    let info = HtmlInfo::from_string(html, None).unwrap();
    assert_eq!(info.opengraph.images.len(), 1);
    assert_eq!(info.opengraph.images[0].width, Some(10));
    assert_eq!(info.opengraph.images[0].height, None);
    assert_eq!(info.opengraph.videos.len(), 1);
    assert_eq!(info.opengraph.videos[0].url, "http://e.org/v");
    assert_eq!(info.opengraph.properties.get("custom").map(|s| s.as_str()), Some("c"));
}

#[test]
fn links_without_base_stay_as_written() {
    let html = "<body><a href=\" /a \" rel=\"nofollow\"> A </a><a href=\"javascript:void(0)\">J</a><a href=\"  \">E</a><a>N</a><a href=\"b.html\">B</a></body>";
    let info = HtmlInfo::from_string(html, None).unwrap();
    assert_eq!(info.links.len(), 2);
    assert_eq!(info.links[0].url, "/a");
    assert_eq!(info.links[0].text, "A");
    assert_eq!(info.links[0].rel.as_deref(), Some("nofollow"));
    assert_eq!(info.links[1].url, "b.html");
    assert_eq!(info.links[1].rel, None);
}

#[test]
fn relative_links_take_the_scheme_of_the_base() {
    let html = "<body><a href=\"x/y?q=1#f\">1</a><a href=\"//other.example/z\">2</a><a href=\"../up\">3</a></body>";
    let info = HtmlInfo::from_string(html, Some("https://example.com/dir/page.html")).unwrap();
    let urls: Vec<&str> = info.links.iter().map(|l| l.url.as_str()).collect();
    assert_eq!(
        urls,
        vec![
            "https://example.com/dir/x/y?q=1#f",
            "https://other.example/z",
            "https://example.com/up"
        ]
    );
    for u in urls {
        assert!(u.starts_with("https://"));
    }
}

#[test]
fn a_base_that_does_not_parse_is_ignored() {
    let info = HtmlInfo::from_string("<a href=\"/x\">x</a>", Some("not a url")).unwrap();
    assert_eq!(info.links[0].url, "/x");
}

#[test]
fn a_reference_that_does_not_resolve_stays_as_written() {
    let info =
        HtmlInfo::from_string("<a href=\"http://[bad\">x</a>", Some("https://example.com/")).unwrap();
    assert_eq!(info.links.len(), 1);
    assert_eq!(info.links[0].url, "http://[bad");
}

#[test]
fn links_stop_at_the_limit() {
    let mut anchors = Vec::new();
    for i in 0..(MAX_LINKS + 5) {
        anchors.push(element(vec![Some(&format!("/p{}", i)), None], "t"));
    }
    let links = links_from(&anchors, None);
    assert_eq!(links.len(), MAX_LINKS);
    assert_eq!(links[0].url, "/p0");
    assert_eq!(links[MAX_LINKS - 1].url, format!("/p{}", MAX_LINKS - 1));
}

#[test]
fn link_from_plain_values() {
    assert_eq!(link_from(&element(vec![None, None], "t"), None), None);
    assert_eq!(link_from(&element(vec![Some("   "), None], "t"), None), None);
    assert_eq!(
        link_from(&element(vec![Some("javascript:alert(1)"), None], "t"), None),
        None
    );
    let l = link_from(&element(vec![Some(" #top "), Some(" Me ")], "  go\n"), None).unwrap();
    assert_eq!(l.url, "#top");
    assert_eq!(l.text, "go");
    assert_eq!(l.rel.as_deref(), Some(" Me "));
}

#[test]
fn title_and_first_attribute_from_plain_values() {
    assert_eq!(title_from(&vec![]), None);
    assert_eq!(
        title_from(&vec![element(vec![], " One "), element(vec![], "Two")]),
        Some("One".to_string())
    );
    assert_eq!(title_from(&vec![element(vec![], " "), element(vec![], "Two")]), None);
    assert_eq!(first_attribute_from(&vec![]), None);
    assert_eq!(first_attribute_from(&vec![element(vec![None], "")]), None);
    assert_eq!(
        first_attribute_from(&vec![element(vec![Some(" en ")], "")]),
        Some("en".to_string())
    );
    assert_eq!(meaningful_of(" \t\n"), None);
    assert_eq!(meaningful_of("\u{a0}x\u{3000}"), Some("x".to_string()));
}

#[test]
fn feed_takes_the_first_link_of_a_feed_type() {
    let alternates = vec![
        element(vec![Some("text/html"), Some("/page")], ""),
        element(vec![None, Some("/none")], ""),
        element(vec![Some("Application/RSS+XML"), Some("/case")], ""),
        element(vec![Some("application/atom+xml"), Some(" /atom ")], ""),
        element(vec![Some("application/rss+xml"), Some("/rss")], ""),
    ];
    assert_eq!(feed_from(&alternates), Some("/atom".to_string()));
    for t in [
        "application/atom+xml",
        "application/rss+xml",
        "application/json",
        "application/xml",
        "text/xml",
    ] {
        assert_eq!(
            feed_from(&vec![element(vec![Some(t), Some("/f")], "")]),
            Some("/f".to_string())
        );
    }
    assert_eq!(
        feed_from(&vec![
            element(vec![Some("text/xml"), None], ""),
            element(vec![Some("text/xml"), Some("/second")], "")
        ]),
        None
    );
}

#[test]
fn schema_items_stop_at_the_limit() {
    let mut one = String::from("[");
    for i in 0..60 {
        if i > 0 {
            one.push(',');
        }
        one.push_str(&format!("{{\"@type\":\"T{}\"}}", i));
    }
    one.push(']');
    let scripts = vec![
        element(vec![], &one),
        element(vec![], "not json"),
        element(vec![], &one),
        element(vec![], &one),
    ];
    let items = schema_org_from(&scripts);
    assert_eq!(items.len(), MAX_SCHEMA_ORG_ITEMS);
    assert_eq!(items[0].schema_type, "T0");
    assert_eq!(items[59].schema_type, "T59");
    assert_eq!(items[60].schema_type, "T0");
    assert_eq!(items[99].schema_type, "T39");
}

#[test]
fn page_text_is_cut_at_the_limit() {
    let mut html = String::from("<html><body>");
    for _ in 0..150_000 {
        html.push_str("<p>abcdefg</p>");
    }
    html.push_str("</body></html>");
    let info = HtmlInfo::from_string(&html, None).unwrap();
    assert_eq!(info.text_content.len(), 1_000_000);
    assert!(info.text_content.starts_with("abcdefg abcdefg "));
    assert!(info.text_content.ends_with("abcdefg abcdefg "));
}

#[test]
fn page_links_stop_at_the_limit() {
    let mut html = String::from("<html><body>");
    for i in 0..(MAX_LINKS + 3) {
        html.push_str(&format!("<a href=\"/{}\">l</a>", i));
    }
    html.push_str("</body></html>");
    let info = HtmlInfo::from_string(&html, Some("http://example.com/")).unwrap();
    assert_eq!(info.links.len(), MAX_LINKS);
    assert_eq!(info.links[MAX_LINKS - 1].url, format!("http://example.com/{}", MAX_LINKS - 1));
}

#[test]
fn meta_keys_and_contents_are_trimmed() {
    let html = "<head><meta property=\" og:title \" content=\"  T  \"><meta content=\"no key\"><meta name=\"k\"><meta name=\" description \" content=\" d \"></head>";
    let info = HtmlInfo::from_string(html, None).unwrap();
    assert_eq!(info.opengraph.title.as_deref(), Some("T"));
    assert_eq!(info.meta.get("og:title").map(|s| s.as_str()), Some("T"));
    assert_eq!(info.description.as_deref(), Some("d"));
    assert_eq!(info.meta.len(), 2);
}

#[test]
fn json_ld_scripts_in_document_order() {
    let html = "<head><script type=\"application/ld+json\">[{\"@type\":\"A\"},{\"@type\":\"B\"}]</script><script type=\"text/javascript\">{\"@type\":\"No\"}</script><script type=\"application/ld+json\">oops</script></head><body><script type=\"application/ld+json\">{\"@graph\":[{\"@type\":\"C\"}]}</script></body>";
    let info = HtmlInfo::from_string(html, None).unwrap();
    let types: Vec<&str> = info.schema_org.iter().map(|s| s.schema_type.as_str()).collect();
    assert_eq!(types, vec!["A", "B", "C"]);
    assert!(!info.text_content.contains("@graph"));
}

fn open(text: Option<&str>, matches: Vec<bool>, attributes: Vec<Option<&str>>) -> DomEvent {
    DomEvent::Open {
        text: text.map(|t| t.to_string()),
        matches,
        attributes: attributes
            .into_iter()
            .map(|a| a.map(|s| s.to_string()))
            .collect(),
    }
}

#[test]
fn elements_and_their_text_from_a_walk_written_by_hand() {
    // <div x=1> a <p y=2> b <i> c </i> </p> d </div> <p> e </p>
    let events = vec![
        open(None, vec![true, false], vec![Some("1"), None]),
        open(Some("a"), vec![false, false], vec![None, None]),
        DomEvent::Close,
        open(None, vec![false, true], vec![None, Some("2")]),
        open(Some("b"), vec![false, false], vec![None, None]),
        DomEvent::Close,
        open(None, vec![false, false], vec![None, None]),
        open(Some("c"), vec![false, false], vec![None, None]),
        DomEvent::Close,
        DomEvent::Close,
        DomEvent::Close,
        open(Some("d"), vec![false, false], vec![None, None]),
        DomEvent::Close,
        DomEvent::Close,
        open(None, vec![false, true], vec![None, None]),
        open(Some("e"), vec![false, false], vec![None, None]),
        DomEvent::Close,
        DomEvent::Close,
    ];
    assert_eq!(inner_text_of(&events, 0), "abcd");
    assert_eq!(inner_text_of(&events, 3), "bc");
    assert_eq!(inner_text_of(&events, 6), "c");
    assert_eq!(inner_text_of(&events, 7), "");
    assert_eq!(inner_text_of(&events, 14), "e");
    assert_eq!(inner_text_of(&events, 17), "");
    assert_eq!(inner_text_of(&events, 18), "");
    assert_eq!(inner_text_of(&events, usize::MAX), "");

    let divs = elements_of(&events, 0, &vec![0, 1], true);
    assert_eq!(divs.len(), 1);
    assert_eq!(divs[0].attributes, vec![Some("1".to_string()), None]);
    assert_eq!(divs[0].text, "abcd");

    let ps = elements_of(&events, 1, &vec![1, 5, 0], true);
    assert_eq!(ps.len(), 2);
    assert_eq!(ps[0].attributes, vec![Some("2".to_string()), None, None]);
    assert_eq!(ps[0].text, "bc");
    assert_eq!(ps[1].attributes, vec![None, None, None]);
    assert_eq!(ps[1].text, "e");

    let bare = elements_of(&events, 1, &vec![], false);
    assert_eq!(bare.len(), 2);
    assert_eq!(bare[0].text, "");
    assert!(bare[0].attributes.is_empty());
    assert!(elements_of(&events, 2, &vec![0], true).is_empty());
}

#[test]
fn links_come_in_document_order() {
    // The second anchor is moved in front of the table by the parser.
    let html = "<body><table><tr><td><a href=\"/cell\">cell</a></td></tr><a href=\"/moved\">moved</a></table><a href=\"/last\">last</a></body>";
    let info = HtmlInfo::from_string(html, None).unwrap();
    let urls: Vec<&str> = info.links.iter().map(|l| l.url.as_str()).collect();
    assert_eq!(urls, vec!["/moved", "/cell", "/last"]);
    assert_eq!(info.text_content, "moved cell last");
}

#[test]
fn nested_text_of_title_and_anchor() {
    let html = "<head><title>A <b>bold</b> title</title></head><body><a href=\"/x\"> see <em>this</em>\n<span>now</span> </a></body>";
    let info = HtmlInfo::from_string(html, None).unwrap();
    assert_eq!(info.title.as_deref(), Some("A <b>bold</b> title"));
    assert_eq!(info.links[0].text, "see this\nnow");
}

#[test]
fn a_reference_with_a_scheme_of_its_own_is_resolved_as_it_is() {
    let html = "<a href=\"JavaScript:alert(1)\">x</a><a href=\"mailto:a@example.com\">m</a>";
    let with_base = HtmlInfo::from_string(html, Some("https://example.com/")).unwrap();
    assert_eq!(with_base.links.len(), 2);
    assert_eq!(with_base.links[0].url, "javascript:alert(1)");
    assert_eq!(with_base.links[1].url, "mailto:a@example.com");
    let without = HtmlInfo::from_string(html, None).unwrap();
    assert_eq!(without.links[0].url, "JavaScript:alert(1)");
}
