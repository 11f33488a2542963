use webpage_info::json::{JsonNumber, JsonValue};
use webpage_info::schema_org::stated_type_of;
use webpage_info::SchemaOrg;

fn object(members: Vec<(&str, JsonValue)>) -> JsonValue {
    JsonValue::Object(
        members
            .into_iter()
            .map(|(k, v)| (k.to_string(), v))
            .collect(),
    )
}

fn string(s: &str) -> JsonValue {
    JsonValue::String(s.to_string())
}

#[test]
fn test_empty_object() {
    let schema = SchemaOrg::parse("{}");
    assert!(schema.is_empty());
}

#[test]
fn test_invalid_json() {
    let schema = SchemaOrg::parse("not json");
    assert!(schema.is_empty());
}

#[test]
fn test_single_type() {
    let schema = SchemaOrg::parse(r#"{"@type": "NewsArticle", "headline": "Test"}"#);
    assert_eq!(schema.len(), 1);
    assert_eq!(schema[0].schema_type, "NewsArticle");
    assert_eq!(schema[0].get_str("headline"), Some("Test"));
}

#[test]
fn test_array_of_types() {
    let schema = SchemaOrg::parse(r#"[{"@type": "Article"}, {"@type": "WebPage"}]"#);
    assert_eq!(schema.len(), 2);
    assert_eq!(schema[0].schema_type, "Article");
    assert_eq!(schema[1].schema_type, "WebPage");
}

#[test]
fn test_graph_structure() {
    let json = r#"{
            "@context": "https://schema.org",
            "@graph": [
                {"@type": "Organization", "name": "Example"},
                {"@type": "WebSite", "url": "https://example.org"}
            ]
        }"#;
    let schema = SchemaOrg::parse(json);
    assert_eq!(schema.len(), 2);
    assert_eq!(schema[0].schema_type, "Organization");
    assert_eq!(schema[0].get_str("name"), Some("Example"));
    assert_eq!(schema[1].schema_type, "WebSite");
}

#[test]
fn test_multiple_types() {
    let schema = SchemaOrg::parse(r#"{"@type": ["Article", "BlogPosting"]}"#);
    assert_eq!(schema.len(), 1);
    assert_eq!(schema[0].schema_type, "Article");
}

#[test]
fn test_helper_methods() {
    let schema = SchemaOrg::parse(
        r#"{
            "@type": "Product",
            "name": "Widget",
            "price": 99,
            "offers": {"@type": "Offer"},
            "images": ["a.jpg", "b.jpg"]
        }"#,
    );

    let product = &schema[0];
    assert_eq!(product.get_str("name"), Some("Widget"));
    assert_eq!(product.get_i64("price"), Some(99));
    assert!(product.get_object("offers").is_some());
    assert_eq!(product.get_array("images").map(|a| a.len()), Some(2));
}

#[test]
fn scalars_and_null_give_nothing() {
    for text in ["null", "true", "7", "1.5", "\"Article\"", "", "   ", "[]"] {
        assert!(SchemaOrg::parse(text).is_empty(), "{}", text);
    }
}

#[test]
fn candidates_that_state_no_type_are_dropped_in_place() {
    let schema = SchemaOrg::parse(
        r#"[{"@type":"A"}, 3, "s", null, [], {"name":"x"}, {"@type":7}, {"@type":[]}, {"@type":[1,"B"]}, {"@type":{"a":1}}, {"@type":["C", 2]}, {"@type":"D"}]"#,
    );
    let types: Vec<&str> = schema.iter().map(|s| s.schema_type.as_str()).collect();
    assert_eq!(types, vec!["A", "C", "D"]);
    for item in &schema {
        assert!(item.value.is_object());
    }
}

#[test]
fn only_the_top_level_graph_is_opened() {
    let schema = SchemaOrg::parse(
        r#"{"@graph":[{"@type":"Outer","@graph":[{"@type":"Inner"}]}], "@type":"Ignored"}"#,
    );
    assert_eq!(schema.len(), 1);
    assert_eq!(schema[0].schema_type, "Outer");
    assert!(schema[0].get_array("@graph").is_some());
}

#[test]
fn a_graph_that_is_no_array_leaves_the_object_whole() {
    let schema = SchemaOrg::parse(r#"{"@type":"Thing","@graph":"none","name":"n"}"#);
    assert_eq!(schema.len(), 1);
    assert_eq!(schema[0].schema_type, "Thing");
    assert_eq!(schema[0].get_str("@graph"), Some("none"));
    assert_eq!(schema[0].get_str("name"), Some("n"));
}

#[test]
fn an_empty_type_string_is_kept_as_it_is() {
    let schema = SchemaOrg::parse(r#"{"@type":""}"#);
    assert_eq!(schema.len(), 1);
    assert_eq!(schema[0].schema_type, "");
}

#[test]
fn items_from_values_built_by_hand() {
    let node = JsonValue::Array(vec![
        object(vec![("name", string("first")), ("@type", string("Person"))]),
        JsonValue::Null,
        object(vec![(
            "@type",
            JsonValue::Array(vec![string("Event"), string("Thing")]),
        )]),
    ]);
    let items = SchemaOrg::extract_from_value(node);
    assert_eq!(items.len(), 2);
    assert_eq!(items[0].schema_type, "Person");
    assert_eq!(items[0].get_str("name"), Some("first"));
    assert_eq!(items[1].schema_type, "Event");

    let graph = object(vec![
        ("@context", string("https://schema.org")),
        (
            "@graph",
            JsonValue::Array(vec![object(vec![("@type", string("WebSite"))])]),
        ),
    ]);
    let items = SchemaOrg::extract_from_value(graph);
    assert_eq!(items.len(), 1);
    assert_eq!(items[0].schema_type, "WebSite");
    assert!(SchemaOrg::extract_from_value(JsonValue::Bool(true)).is_empty());
}

#[test]
fn stated_type_of_each_shape() {
    assert_eq!(
        stated_type_of(&object(vec![("@type", string("A"))])),
        Some("A".to_string())
    );
    assert_eq!(stated_type_of(&object(vec![("type", string("A"))])), None);
    assert_eq!(stated_type_of(&string("A")), None);
    assert_eq!(
        stated_type_of(&object(vec![("@type", JsonValue::Array(vec![]))])),
        None
    );
    assert_eq!(
        stated_type_of(&object(vec![
            ("@type", JsonValue::Bool(false)),
            ("@type", string("late"))
        ])),
        None
    );
}

#[test]
fn getters_tell_the_kinds_apart() {
    let number = |integer: Option<i64>, text: &str| {
        JsonValue::Number(JsonNumber {
            integer,
            text: text.to_string(),
        })
    };
    let item = SchemaOrg {
        schema_type: "T".to_string(),
        value: object(vec![
            ("s", string("text")),
            ("i", number(Some(-5), "-5")),
            ("f", number(None, "1.5")),
            ("o", object(vec![])),
            ("a", JsonValue::Array(vec![JsonValue::Null])),
        ]),
    };
    assert_eq!(item.get_str("s"), Some("text"));
    assert_eq!(item.get_str("i"), None);
    assert_eq!(item.get_str("missing"), None);
    assert_eq!(item.get_i64("i"), Some(-5));
    assert_eq!(item.get_i64("f"), None);
    assert_eq!(item.get_i64("s"), None);
    assert!(item.get_object("o").is_some());
    assert!(item.get_object("a").is_none());
    assert_eq!(item.get_array("a").map(|a| a.len()), Some(1));
    assert!(item.get_array("o").is_none());
}

#[test]
fn parsed_numbers_keep_integer_and_text() {
    let schema = SchemaOrg::parse(
        r#"{"@type":"N","a":9223372036854775807,"b":9223372036854775808,"c":-1,"d":2.5}"#,
    );
    let n = &schema[0];
    assert_eq!(n.get_i64("a"), Some(i64::MAX));
    assert_eq!(n.get_i64("b"), None);
    assert_eq!(n.get_i64("c"), Some(-1));
    assert_eq!(n.get_i64("d"), None);
    match n.value.get("d") {
        Some(JsonValue::Number(x)) => assert_eq!(x.text, "2.5"),
        other => panic!("{:?}", other),
    }
    let copy = n.value.clone();
    assert_eq!(copy, n.value);
}
