use webpage_info::opengraph::Opengraph;

#[test]
fn test_basic_properties() {
    let mut og = Opengraph::new();
    og.extend("type", "article".to_string());
    og.extend("title", "Test Article".to_string());
    og.extend("description", "A test description".to_string());

    assert_eq!(og.og_type, Some("article".to_string()));
    assert_eq!(og.title, Some("Test Article".to_string()));
    assert_eq!(og.description, Some("A test description".to_string()));
}

#[test]
fn test_image_with_properties() {
    let mut og = Opengraph::new();
    og.extend("image", "http://example.org/image.png".to_string());
    og.extend(
        "image:secure_url",
        "https://example.org/image.png".to_string(),
    );
    og.extend("image:width", "800".to_string());
    og.extend("image:height", "600".to_string());
    og.extend("image:alt", "Example image".to_string());

    assert_eq!(og.images.len(), 1);
    let image = &og.images[0];
    assert_eq!(image.url, "http://example.org/image.png");
    assert_eq!(
        image.secure_url,
        Some("https://example.org/image.png".to_string())
    );
    assert_eq!(image.width, Some(800));
    assert_eq!(image.height, Some(600));
    assert_eq!(image.alt, Some("Example image".to_string()));
}

#[test]
fn test_multiple_images() {
    let mut og = Opengraph::new();
    og.extend("image", "http://example.org/image1.png".to_string());
    og.extend("image:width", "100".to_string());
    og.extend("image", "http://example.org/image2.png".to_string());
    og.extend("image:width", "200".to_string());

    assert_eq!(og.images.len(), 2);
    assert_eq!(og.images[0].url, "http://example.org/image1.png");
    assert_eq!(og.images[0].width, Some(100));
    assert_eq!(og.images[1].url, "http://example.org/image2.png");
    assert_eq!(og.images[1].width, Some(200));
}

#[test]
fn test_is_empty() {
    let og = Opengraph::new();
    assert!(og.is_empty());

    let mut og2 = Opengraph::new();
    og2.extend("title", "Test".to_string());
    assert!(!og2.is_empty());
}

#[test]
fn every_scalar_has_its_property() {
    let mut og = Opengraph::new();
    for (p, c) in [
        ("type", "t"),
        ("title", "ti"),
        ("description", "d"),
        ("url", "u"),
        ("site_name", "s"),
        ("locale", "l"),
        ("title", "again"),
    ] {
        og.extend(p, c.to_string());
    }
    assert_eq!(og.og_type.as_deref(), Some("t"));
    assert_eq!(og.title.as_deref(), Some("again"));
    assert_eq!(og.description.as_deref(), Some("d"));
    assert_eq!(og.url.as_deref(), Some("u"));
    assert_eq!(og.site_name.as_deref(), Some("s"));
    assert_eq!(og.locale.as_deref(), Some("l"));
    assert!(og.properties.is_empty());
}

#[test]
fn locale_alternates_and_other_properties() {
    let mut og = Opengraph::new();
    og.extend("locale:alternate", "fr_FR".to_string());
    og.extend("locale:alternate", "es_ES".to_string());
    og.extend("determiner", "the".to_string());
    og.extend("locale:other", "x".to_string());
    og.extend("determiner", "a".to_string());
    assert_eq!(og.locale_alternates, vec!["fr_FR", "es_ES"]);
    assert_eq!(og.locale, None);
    assert_eq!(og.properties.get("determiner").map(|s| s.as_str()), Some("a"));
    assert_eq!(og.properties.get("locale:other").map(|s| s.as_str()), Some("x"));
    assert_eq!(og.properties.len(), 2);
    assert!(og.is_empty());
}

#[test]
fn sub_properties_go_to_the_object_begun_last_of_their_type() {
    let mut og = Opengraph::new();
    og.extend("image:width", "1".to_string());
    assert!(og.images.is_empty());
    og.extend("image", "i1".to_string());
    og.extend("video:url", "v1".to_string());
    og.extend("image:type", "image/png".to_string());
    og.extend("audio", "a1".to_string());
    og.extend("video:width", "640".to_string());
    og.extend("image:url", "i2".to_string());
    og.extend("image:alt", "second".to_string());
    og.extend("audio:secure_url", "https://a1".to_string());
    og.extend("video:tag", "x".to_string());
    assert_eq!(og.images.len(), 2);
    assert_eq!(og.images[0].url, "i1");
    assert_eq!(og.images[0].mime_type.as_deref(), Some("image/png"));
    assert_eq!(og.images[0].alt, None);
    assert_eq!(og.images[1].url, "i2");
    assert_eq!(og.images[1].alt.as_deref(), Some("second"));
    assert_eq!(og.videos.len(), 1);
    assert_eq!(og.videos[0].url, "v1");
    assert_eq!(og.videos[0].width, Some(640));
    assert_eq!(og.videos[0].properties.get("tag").map(|s| s.as_str()), Some("x"));
    assert_eq!(og.audios.len(), 1);
    assert_eq!(og.audios[0].secure_url.as_deref(), Some("https://a1"));
    assert!(og.properties.is_empty());
}

#[test]
fn numbers_that_do_not_parse_leave_the_size_absent() {
    let mut og = Opengraph::new();
    og.extend("image", "i".to_string());
    og.extend("image:width", "12px".to_string());
    og.extend("image:height", "-3".to_string());
    assert_eq!(og.images[0].width, None);
    assert_eq!(og.images[0].height, None);
    og.extend("image:width", "4294967295".to_string());
    og.extend("image:height", "4294967296".to_string());
    assert_eq!(og.images[0].width, Some(u32::MAX));
    assert_eq!(og.images[0].height, None);
}

#[test]
fn names_that_only_begin_like_a_media_type() {
    let mut og = Opengraph::new();
    og.extend("image", "i".to_string());
    og.extend("images", "ignored".to_string());
    og.extend("image:", "ignored".to_string());
    og.extend("imagewidth", "7".to_string());
    assert_eq!(og.images.len(), 1);
    assert_eq!(og.images[0].width, None);
    assert!(og.images[0].properties.is_empty());
    assert!(og.properties.is_empty());
    og.extend("image:url:extra", "kept".to_string());
    assert_eq!(
        og.images[0].properties.get("url:extra").map(|s| s.as_str()),
        Some("kept")
    );
}

#[test]
fn a_media_collection_stops_at_its_limit() {
    let mut og = Opengraph::new();
    for i in 0..105 {
        og.extend("video", format!("v{}", i));
        og.extend("image:url", format!("i{}", i));
    }
    assert_eq!(og.videos.len(), 100);
    assert_eq!(og.images.len(), 100);
    assert_eq!(og.videos[99].url, "v99");
    og.extend("video:alt", "last".to_string());
    assert_eq!(og.videos[99].alt.as_deref(), Some("last"));
    assert!(og.audios.is_empty());
}

#[test]
fn extend_media_on_a_collection_of_its_own() {
    let mut items = Vec::new();
    Opengraph::extend_media("audio", "audio:type", "audio/mpeg".to_string(), &mut items);
    assert!(items.is_empty());
    Opengraph::extend_media("audio", "audio", "a".to_string(), &mut items);
    Opengraph::extend_media("audio", "audio:type", "audio/mpeg".to_string(), &mut items);
    Opengraph::extend_media("audio", "video:type", "ignored".to_string(), &mut items);
    assert_eq!(items.len(), 1);
    assert_eq!(items[0].url, "a");
    assert_eq!(items[0].mime_type.as_deref(), Some("audio/mpeg"));
    let m = webpage_info::OpengraphMedia::new("u".to_string());
    assert_eq!(m.url, "u");
    assert_eq!(m.width, None);
    assert!(m.properties.is_empty());
}
