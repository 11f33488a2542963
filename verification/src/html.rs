//! The record of a page and its extraction from a parsed document: title,
//! language, canonical and feed URLs, meta tags with OpenGraph, body text,
//! links and Schema.org items.

use crate::body_text::{collect_text, lemma_text_within_limit, text_of, MAX_TEXT_CONTENT_LEN};
use crate::json::{json_copied, json_parsed};
use crate::dom::{
    all_elements, element_views, elements_of, name_views, parse_document, parsed_document,
    walk_document, walk_with, DomEvent, Element, ElementView,
};
use crate::error::Error;
use crate::opengraph::{
    empty_opengraph, extended, lemma_extend_properties_unrecognized, lemma_extend_within_limits,
    properties_unrecognized, within_limits, Opengraph, OpengraphView,
};
use crate::resolve::{join, parse_url, url_joined, url_parsed};
use crate::schema_org::{
    candidates, items_of_text, lemma_items_are_typed_objects, schema_views, SchemaOrg,
    SchemaOrgView,
};
use crate::string_map::StringMap;
use crate::encoding::byte_len;
use crate::text::{
    has_prefix, lemma_trimmed_idempotent, opt_view, starts_with, str_eq, strip_prefix, trim,
    trimmed,
};
use vstd::prelude::*;

verus! {

/// The most links that are taken from a page.
pub const MAX_LINKS: usize = 10_000;

/// The most Schema.org items that are taken from a page.
pub const MAX_SCHEMA_ORG_ITEMS: usize = 100;

/// A link of the page.
#[derive(Clone, Debug, PartialEq, Eq, Hash)]
pub struct Link {
    /// The target: resolved against the base where there is one and the
    /// reference resolves, else as it stands in the page, trimmed.
    pub url: String,
    /// The anchor's text, trimmed.
    pub text: String,
    /// The `rel` attribute, as it stands.
    pub rel: Option<String>,
}

/// What a [`Link`] holds.
pub struct LinkView {
    pub url: Seq<char>,
    pub text: Seq<char>,
    pub rel: Option<Seq<char>>,
}

impl View for Link {
    type V = LinkView;

    open spec fn view(&self) -> LinkView {
        LinkView { url: self.url@, text: self.text@, rel: opt_view(self.rel) }
    }
}

/// The views of a list of links.
pub open spec fn link_views(links: Seq<Link>) -> Seq<LinkView> {
    links.map_values(|l: Link| l@)
}

/// What a page states.
#[derive(Clone, Debug)]
pub struct HtmlInfo {
    /// The text of the first `<title>`.
    pub title: Option<String>,
    /// The last `description` meta tag.
    pub description: Option<String>,
    /// The target of the first `<link rel="canonical">`.
    pub canonical_url: Option<String>,
    /// The target of the first feed link.
    pub feed_url: Option<String>,
    /// The `lang` of the `<html>` element.
    pub language: Option<String>,
    /// The text of the body, tags stripped.
    pub text_content: String,
    /// All meta tags by key; of several with one key the last.
    pub meta: StringMap,
    /// OpenGraph metadata.
    pub opengraph: Opengraph,
    /// Schema.org items from JSON-LD, in document order.
    pub schema_org: Vec<SchemaOrg>,
    /// The links, in document order.
    pub links: Vec<Link>,
}

/// What an [`HtmlInfo`] holds.
pub struct HtmlInfoView {
    pub title: Option<Seq<char>>,
    pub description: Option<Seq<char>>,
    pub canonical_url: Option<Seq<char>>,
    pub feed_url: Option<Seq<char>>,
    pub language: Option<Seq<char>>,
    pub text_content: Seq<char>,
    pub meta: Map<Seq<char>, Seq<char>>,
    pub opengraph: OpengraphView,
    pub schema_org: Seq<SchemaOrgView>,
    pub links: Seq<LinkView>,
}

impl View for HtmlInfo {
    type V = HtmlInfoView;

    open spec fn view(&self) -> HtmlInfoView {
        HtmlInfoView {
            title: opt_view(self.title),
            description: opt_view(self.description),
            canonical_url: opt_view(self.canonical_url),
            feed_url: opt_view(self.feed_url),
            language: opt_view(self.language),
            text_content: self.text_content@,
            meta: self.meta@,
            opengraph: self.opengraph@,
            schema_org: schema_views(self.schema_org@),
            links: link_views(self.links@),
        }
    }
}

/// The value of the `k`-th attribute that was asked for.
pub open spec fn attribute(e: ElementView, k: int) -> Option<Seq<char>> {
    if 0 <= k < e.attributes.len() {
        e.attributes[k]
    } else {
        None
    }
}

impl Element {
    /// The value of the `k`-th attribute that was asked for, where the
    /// element has it.
    pub fn attribute(&self, k: usize) -> (r: Option<&str>)
        ensures
            match r {
                Some(s) => attribute(self@, k as int) == Some(s@),
                None => attribute(self@, k as int) is None,
            },
    {
        if k < self.attributes.len() {
            match &self.attributes[k] {
                Some(s) => Some(s.as_str()),
                None => None,
            }
        } else {
            None
        }
    }
}

/// A text trimmed, where that leaves anything.
pub open spec fn meaningful(raw: Seq<char>) -> Option<Seq<char>> {
    if trimmed(raw).len() == 0 {
        None
    } else {
        Some(trimmed(raw))
    }
}

/// An optional text trimmed, where there is one and that leaves anything.
pub open spec fn meaningful_opt(raw: Option<Seq<char>>) -> Option<Seq<char>> {
    match raw {
        Some(s) => meaningful(s),
        None => None,
    }
}

/// A text trimmed, where that leaves anything.
pub fn meaningful_of(raw: &str) -> (r: Option<String>)
    ensures
        opt_view(r) == meaningful(raw@),
{
    let t = trim(raw);
    if t.is_empty() {
        None
    } else {
        Some(t.to_owned())
    }
}

/// The title that a list of `<title>` elements gives: the text of the first,
/// trimmed, where that leaves anything.
pub open spec fn title_spec(titles: Seq<ElementView>) -> Option<Seq<char>> {
    if titles.len() == 0 {
        None
    } else {
        meaningful(titles[0].text)
    }
}

/// The title that a list of `<title>` elements gives.
pub fn title_from(titles: &Vec<Element>) -> (r: Option<String>)
    ensures
        opt_view(r) == title_spec(element_views(titles@)),
{
    if titles.len() == 0 {
        None
    } else {
        meaningful_of(titles[0].text.as_str())
    }
}

/// What the first element of a list states in its first attribute, trimmed,
/// where that leaves anything.
pub open spec fn first_attribute_spec(elements: Seq<ElementView>) -> Option<Seq<char>> {
    if elements.len() == 0 {
        None
    } else {
        meaningful_opt(attribute(elements[0], 0))
    }
}

/// What the first element of a list states in its first attribute: the
/// language of the `<html>` elements, the target of the canonical links.
pub fn first_attribute_from(elements: &Vec<Element>) -> (r: Option<String>)
    ensures
        opt_view(r) == first_attribute_spec(element_views(elements@)),
{
    if elements.len() == 0 {
        None
    } else {
        match elements[0].attribute(0) {
            Some(v) => meaningful_of(v),
            None => None,
        }
    }
}

/// Whether a media type is one of those that name a feed. The match is
/// exact.
pub open spec fn is_feed_type(t: Seq<char>) -> bool {
    ||| t == "application/atom+xml"@
    ||| t == "application/rss+xml"@
    ||| t == "application/json"@
    ||| t == "application/xml"@
    ||| t == "text/xml"@
}

/// Whether a media type is one of those that name a feed.
pub fn is_feed_type_str(t: &str) -> (r: bool)
    ensures
        r == is_feed_type(t@),
{
    str_eq(t, "application/atom+xml") || str_eq(t, "application/rss+xml") || str_eq(
        t,
        "application/json",
    ) || str_eq(t, "application/xml") || str_eq(t, "text/xml")
}

/// Whether an alternate link, asked for `type` and `href`, names a feed.
pub open spec fn names_feed(e: ElementView) -> bool {
    match attribute(e, 0) {
        Some(t) => is_feed_type(t),
        None => false,
    }
}

/// The feed that the alternate links from the `n`-th on give: the `href` of
/// the first that names a feed, trimmed, where that leaves anything.
pub open spec fn feed_spec(alternates: Seq<ElementView>, n: int) -> Option<Seq<char>>
    decreases alternates.len() - n,
{
    if n < 0 || n >= alternates.len() {
        None
    } else if names_feed(alternates[n]) {
        meaningful_opt(attribute(alternates[n], 1))
    } else {
        feed_spec(alternates, n + 1)
    }
}

/// The feed that a list of alternate links gives.
pub fn feed_from(alternates: &Vec<Element>) -> (r: Option<String>)
    ensures
        opt_view(r) == feed_spec(element_views(alternates@), 0),
{
    let mut i: usize = 0;
    while i < alternates.len()
        invariant
            i <= alternates@.len(),
            feed_spec(element_views(alternates@), 0) == feed_spec(
                element_views(alternates@),
                i as int,
            ),
        decreases alternates@.len() - i,
    {
        let e = &alternates[i];
        let names = match e.attribute(0) {
            Some(t) => is_feed_type_str(t),
            None => false,
        };
        if names {
            return match e.attribute(1) {
                Some(h) => meaningful_of(h),
                None => None,
            };
        }
        i += 1;
    }
    None
}

/// The key of a meta element, asked for `content`, `charset`, `property`,
/// `name` and `http-equiv`: the first of the last three that is there.
pub open spec fn meta_key(e: ElementView) -> Option<Seq<char>> {
    match attribute(e, 2) {
        Some(p) => Some(p),
        None => match attribute(e, 3) {
            Some(n) => Some(n),
            None => attribute(e, 4),
        },
    }
}

/// What the meta elements of a page state together.
pub struct MetaState {
    pub meta: Map<Seq<char>, Seq<char>>,
    pub opengraph: OpengraphView,
    pub description: Option<Seq<char>>,
}

/// The part of a meta key after `og:`.
pub open spec fn og_suffix(key: Seq<char>) -> Seq<char> {
    key.subrange("og:"@.len() as int, key.len() as int)
}

/// The state after one more meta element. With a `content`, the trimmed
/// content goes under the trimmed key; a key that begins with `og:` also
/// feeds OpenGraph, and the key `description` sets the description, which an
/// empty content clears. Without a `content`, a `charset` goes under
/// `charset`.
pub open spec fn meta_step(s: MetaState, e: ElementView) -> MetaState {
    match attribute(e, 0) {
        None => match attribute(e, 1) {
            Some(charset) => MetaState { meta: s.meta.insert("charset"@, charset), ..s },
            None => s,
        },
        Some(raw) => match meta_key(e) {
            None => s,
            Some(k) => {
                let key = trimmed(k);
                let content = trimmed(raw);
                MetaState {
                    meta: s.meta.insert(key, content),
                    opengraph: if has_prefix(key, "og:"@) {
                        extended(s.opengraph, og_suffix(key), content)
                    } else {
                        s.opengraph
                    },
                    description: if key == "description"@ {
                        if content.len() == 0 {
                            None
                        } else {
                            Some(content)
                        }
                    } else {
                        s.description
                    },
                }
            },
        },
    }
}

/// The state after the first `n` meta elements.
pub open spec fn meta_folded(s: MetaState, metas: Seq<ElementView>, n: int) -> MetaState
    decreases n,
{
    if n <= 0 {
        s
    } else {
        meta_step(meta_folded(s, metas, n - 1), metas[n - 1])
    }
}

/// The state before the first meta element.
pub open spec fn no_meta() -> MetaState {
    MetaState { meta: Map::empty(), opengraph: empty_opengraph(), description: None }
}

/// The link that an anchor, asked for `href` and `rel`, gives: none where the
/// trimmed `href` is empty or begins with `javascript:`.
pub open spec fn link_of(e: ElementView, base: Option<url::Url>) -> Option<LinkView> {
    match attribute(e, 0) {
        None => None,
        Some(raw) => {
            let href = trimmed(raw);
            if href.len() == 0 || has_prefix(href, "javascript:"@) {
                None
            } else {
                Some(
                    LinkView {
                        url: match base {
                            Some(b) => match url_joined(b, href) {
                                Some(u) => u,
                                None => href,
                            },
                            None => href,
                        },
                        text: trimmed(e.text),
                        rel: attribute(e, 1),
                    },
                )
            }
        },
    }
}

/// The link that an anchor gives.
pub fn link_from(e: &Element, base: Option<&url::Url>) -> (r: Option<Link>)
    ensures
        match r {
            Some(l) => link_of(
                e@,
                match base {
                    Some(b) => Some(*b),
                    None => None,
                },
            ) == Some(l@),
            None => link_of(
                e@,
                match base {
                    Some(b) => Some(*b),
                    None => None,
                },
            ) is None,
        },
{
    match e.attribute(0) {
        None => None,
        Some(raw) => {
            let href = trim(raw);
            if href.is_empty() || starts_with(href, "javascript:") {
                None
            } else {
                let url = match base {
                    Some(b) => match join(b, href) {
                        Some(u) => u,
                        None => href.to_owned(),
                    },
                    None => href.to_owned(),
                };
                let text = trim(e.text.as_str()).to_owned();
                let rel = match e.attribute(1) {
                    Some(v) => Some(v.to_owned()),
                    None => None,
                };
                Some(Link { url, text, rel })
            }
        },
    }
}

/// The links that the first `n` anchors give, in their order, as far as the
/// limit allows.
pub open spec fn links_spec(
    anchors: Seq<ElementView>,
    base: Option<url::Url>,
    n: int,
) -> Seq<LinkView>
    decreases n,
{
    if n <= 0 {
        seq![]
    } else {
        let rest = links_spec(anchors, base, n - 1);
        if rest.len() >= MAX_LINKS {
            rest
        } else {
            match link_of(anchors[n - 1], base) {
                Some(l) => rest.push(l),
                None => rest,
            }
        }
    }
}

/// Once the limit is reached, further anchors add nothing.
pub proof fn lemma_links_full(anchors: Seq<ElementView>, base: Option<url::Url>, n: int, m: int)
    requires
        0 <= n <= m,
        links_spec(anchors, base, n).len() >= MAX_LINKS,
    ensures
        links_spec(anchors, base, m) == links_spec(anchors, base, n),
    decreases m - n,
{
    if n < m {
        lemma_links_full(anchors, base, n, m - 1);
    }
}

/// The links that a list of anchors gives.
pub fn links_from(anchors: &Vec<Element>, base: Option<&url::Url>) -> (r: Vec<Link>)
    ensures
        link_views(r@) == links_spec(
            element_views(anchors@),
            match base {
                Some(b) => Some(*b),
                None => None,
            },
            anchors@.len() as int,
        ),
        r@.len() <= MAX_LINKS,
{
    let ghost b = match base {
        Some(b) => Some(*b),
        None => None,
    };
    let mut out: Vec<Link> = Vec::new();
    let mut i: usize = 0;
    assert(link_views(out@) =~= links_spec(element_views(anchors@), b, 0));
    while i < anchors.len() && out.len() < MAX_LINKS
        invariant
            i <= anchors@.len(),
            b == (match base {
                Some(b) => Some(*b),
                None => None,
            }),
            out@.len() <= MAX_LINKS,
            link_views(out@) == links_spec(element_views(anchors@), b, i as int),
        decreases anchors@.len() - i,
    {
        match link_from(&anchors[i], base) {
            Some(l) => {
                out.push(l);
                assert(link_views(out@) =~= links_spec(element_views(anchors@), b, i + 1));
            },
            None => {},
        }
        i += 1;
    }
    proof {
        if i < anchors@.len() {
            lemma_links_full(element_views(anchors@), b, i as int, anchors@.len() as int);
        }
    }
    out
}

/// The first `limit` of a list of items; all of them where there are no
/// more.
pub open spec fn first_items(items: Seq<SchemaOrgView>, limit: int) -> Seq<SchemaOrgView> {
    if items.len() <= limit {
        items
    } else {
        items.subrange(0, limit)
    }
}

/// The Schema.org items that the first `n` JSON-LD scripts give, in their
/// order, as far as the limit allows.
pub open spec fn schema_spec(scripts: Seq<ElementView>, n: int) -> Seq<SchemaOrgView>
    decreases n,
{
    if n <= 0 {
        seq![]
    } else {
        let rest = schema_spec(scripts, n - 1);
        if rest.len() >= MAX_SCHEMA_ORG_ITEMS {
            rest
        } else {
            first_items(rest + items_of_text(scripts[n - 1].text), MAX_SCHEMA_ORG_ITEMS as int)
        }
    }
}

/// Once the limit is reached, further scripts add nothing.
pub proof fn lemma_schema_full(scripts: Seq<ElementView>, n: int, m: int)
    requires
        0 <= n <= m,
        schema_spec(scripts, n).len() >= MAX_SCHEMA_ORG_ITEMS,
    ensures
        schema_spec(scripts, m) == schema_spec(scripts, n),
    decreases m - n,
{
    if n < m {
        lemma_schema_full(scripts, n, m - 1);
    }
}

/// The Schema.org items that a list of JSON-LD scripts gives.
pub fn schema_org_from(scripts: &Vec<Element>) -> (r: Vec<SchemaOrg>)
    ensures
        schema_views(r@) == schema_spec(element_views(scripts@), scripts@.len() as int),
        r@.len() <= MAX_SCHEMA_ORG_ITEMS,
{
    let mut out: Vec<SchemaOrg> = Vec::new();
    let mut i: usize = 0;
    assert(schema_views(out@) =~= schema_spec(element_views(scripts@), 0));
    while i < scripts.len() && out.len() < MAX_SCHEMA_ORG_ITEMS
        invariant
            i <= scripts@.len(),
            out@.len() <= MAX_SCHEMA_ORG_ITEMS,
            schema_views(out@) == schema_spec(element_views(scripts@), i as int),
        decreases scripts@.len() - i,
    {
        let items = SchemaOrg::parse(scripts[i].text.as_str());
        let ghost before = schema_views(out@);
        let ghost found = schema_views(items@);
        let ghost all = items@;
        for item in it: items
            invariant
                it.seq() == all,
                found == schema_views(all),
                out@.len() <= MAX_SCHEMA_ORG_ITEMS,
                schema_views(out@) == first_items(
                    before + found.subrange(0, it.index() as int),
                    MAX_SCHEMA_ORG_ITEMS as int,
                ),
        {
            let ghost k = it.index() as int;
            let ghost earlier = schema_views(out@);
            proof {
                assert(all[k] == item);
                assert(found[k] == item@);
                assert(found.subrange(0, k + 1) =~= found.subrange(0, k).push(item@));
                assert(before + found.subrange(0, k + 1) =~= (before + found.subrange(0, k)).push(
                    item@,
                ));
            }
            if out.len() < MAX_SCHEMA_ORG_ITEMS {
                out.push(item);
                assert(schema_views(out@) =~= earlier.push(item@));
            }
            assert(schema_views(out@) =~= first_items(
                before + found.subrange(0, it.index() + 1),
                MAX_SCHEMA_ORG_ITEMS as int,
            ));
        }
        assert(found.subrange(0, all.len() as int) =~= found);
        i += 1;
    }
    proof {
        if i < scripts@.len() {
            lemma_schema_full(element_views(scripts@), i as int, scripts@.len() as int);
        }
    }
    out
}

/// The selectors of the walk through a page: for the title, the root
/// element, the meta elements, the canonical and the alternate links, the
/// body, what the body text leaves out, the anchors, and the JSON-LD
/// scripts.
pub open spec fn page_selectors() -> Seq<Seq<char>> {
    seq![
        "title"@,
        "html"@,
        "meta"@,
        "link[rel=\"canonical\"]"@,
        "link[rel=\"alternate\"]"@,
        "body"@,
        "script, style, noscript"@,
        "a[href]"@,
        "script[type=\"application/ld+json\"]"@,
    ]
}

/// The position of the title selector among the selectors of the walk.
pub const TITLE: usize = 0;

/// The position of the selector of the root element.
pub const ROOT: usize = 1;

/// The position of the selector of the meta elements.
pub const META: usize = 2;

/// The position of the selector of the canonical links.
pub const CANONICAL: usize = 3;

/// The position of the selector of the alternate links.
pub const ALTERNATE: usize = 4;

/// The position of the selector of the body.
pub const BODY: usize = 5;

/// The position of the selector of what the body text leaves out.
pub const HIDDEN: usize = 6;

/// The position of the selector of the anchors.
pub const ANCHOR: usize = 7;

/// The position of the selector of the JSON-LD scripts.
pub const JSON_LD: usize = 8;

/// The attribute names of the walk through a page.
pub open spec fn page_attributes() -> Seq<Seq<char>> {
    seq![
        "lang"@,
        "content"@,
        "charset"@,
        "property"@,
        "name"@,
        "http-equiv"@,
        "href"@,
        "type"@,
        "rel"@,
    ]
}

/// The position of `lang` among the attribute names of the walk.
pub const LANG: usize = 0;

/// The position of `content`.
pub const CONTENT: usize = 1;

/// The position of `charset`.
pub const CHARSET: usize = 2;

/// The position of `property`.
pub const PROPERTY: usize = 3;

/// The position of `name`.
pub const NAME: usize = 4;

/// The position of `http-equiv`.
pub const HTTP_EQUIV: usize = 5;

/// The position of `href`.
pub const HREF: usize = 6;

/// The position of `type`.
pub const TYPE: usize = 7;

/// The position of `rel`.
pub const REL: usize = 8;

/// The walk through a page.
pub open spec fn page_walk(doc: scraper::Html) -> Seq<DomEvent> {
    walk_with(doc, page_selectors(), page_attributes())
}

/// The base that an optional text gives: the URL it parses to, none where
/// there is no text or it does not parse.
pub open spec fn base_of(text: Option<Seq<char>>) -> Option<url::Url> {
    match text {
        Some(t) => match url_parsed(t) {
            Ok(u) => Some(u),
            Err(_) => None,
        },
        None => None,
    }
}

/// The title that a walk gives.
pub open spec fn walk_title(events: Seq<DomEvent>) -> Option<Seq<char>> {
    title_spec(all_elements(events, TITLE as int, seq![], true))
}

/// The language that a walk gives.
pub open spec fn walk_language(events: Seq<DomEvent>) -> Option<Seq<char>> {
    first_attribute_spec(all_elements(events, ROOT as int, seq![LANG], false))
}

/// The canonical URL that a walk gives.
pub open spec fn walk_canonical(events: Seq<DomEvent>) -> Option<Seq<char>> {
    first_attribute_spec(all_elements(events, CANONICAL as int, seq![HREF], false))
}

/// The feed URL that a walk gives.
pub open spec fn walk_feed(events: Seq<DomEvent>) -> Option<Seq<char>> {
    feed_spec(all_elements(events, ALTERNATE as int, seq![TYPE, HREF], false), 0)
}

/// The body text that a walk gives: the walk begins its work at the first
/// `<body>` and leaves out what stands below scripts, styles and `noscript`
/// elements. Empty where the document has no body.
pub open spec fn walk_text(events: Seq<DomEvent>) -> Seq<char> {
    text_of(events, BODY as int, HIDDEN as int)
}

/// The meta elements of a walk, in document order.
pub open spec fn walk_metas(events: Seq<DomEvent>) -> Seq<ElementView> {
    all_elements(events, META as int, seq![CONTENT, CHARSET, PROPERTY, NAME, HTTP_EQUIV], false)
}

/// The links that a walk gives, in document order.
pub open spec fn walk_links(events: Seq<DomEvent>, base: Option<url::Url>) -> Seq<LinkView> {
    let anchors = all_elements(events, ANCHOR as int, seq![HREF, REL], true);
    links_spec(anchors, base, anchors.len() as int)
}

/// The Schema.org items that a walk gives, in document order.
pub open spec fn walk_schema_org(events: Seq<DomEvent>) -> Seq<SchemaOrgView> {
    let scripts = all_elements(events, JSON_LD as int, seq![], true);
    schema_spec(scripts, scripts.len() as int)
}

/// What a walk through a page states, with links resolved against `base`.
pub open spec fn extracted_from(events: Seq<DomEvent>, base: Option<url::Url>) -> HtmlInfoView {
    let metas = walk_metas(events);
    let m = meta_folded(no_meta(), metas, metas.len() as int);
    HtmlInfoView {
        title: walk_title(events),
        description: m.description,
        canonical_url: walk_canonical(events),
        feed_url: walk_feed(events),
        language: walk_language(events),
        text_content: walk_text(events),
        meta: m.meta,
        opengraph: m.opengraph,
        schema_org: walk_schema_org(events),
        links: walk_links(events, base),
    }
}

/// What a parsed document states, with links resolved against `base`.
pub open spec fn extracted(doc: scraper::Html, base: Option<url::Url>) -> HtmlInfoView {
    extracted_from(page_walk(doc), base)
}

/// What the meta elements of a record state.
pub open spec fn meta_state(info: HtmlInfo) -> MetaState {
    MetaState {
        meta: info.meta@,
        opengraph: info.opengraph@,
        description: opt_view(info.description),
    }
}

impl HtmlInfo {
    /// A record that states nothing.
    pub fn new() -> (r: Self)
        ensures
            r@.title is None,
            r@.description is None,
            r@.canonical_url is None,
            r@.feed_url is None,
            r@.language is None,
            r@.text_content.len() == 0,
            r@.meta == Map::<Seq<char>, Seq<char>>::empty(),
            r@.opengraph == empty_opengraph(),
            r@.schema_org.len() == 0,
            r@.links.len() == 0,
    {
        HtmlInfo {
            title: None,
            description: None,
            canonical_url: None,
            feed_url: None,
            language: None,
            text_content: String::new(),
            meta: StringMap::new(),
            opengraph: Opengraph::new(),
            schema_org: Vec::new(),
            links: Vec::new(),
        }
    }

    /// Parses a page and extracts what it states. Links are resolved against
    /// `base_url` where it is given and parses; a base that does not parse
    /// is ignored. Never fails.
    pub fn from_string(html: &str, base_url: Option<&str>) -> (r: Result<HtmlInfo, Error>)
        ensures
            r is Ok,
            r->Ok_0@ == extracted(
                parsed_document(html@),
                base_of(
                    match base_url {
                        Some(t) => Some(t@),
                        None => None,
                    },
                ),
            ),
            record_in_order(
                r->Ok_0@,
                base_of(
                    match base_url {
                        Some(t) => Some(t@),
                        None => None,
                    },
                ),
            ),
    {
        let base: Option<url::Url> = match base_url {
            Some(t) => match parse_url(t) {
                Ok(u) => Some(u),
                Err(_) => None,
            },
            None => None,
        };
        let document = parse_document(html);
        Ok(Self::extract(&document, base.as_ref()))
    }

    /// Extracts what a parsed document states.
    pub fn extract(document: &scraper::Html, base: Option<&url::Url>) -> (r: HtmlInfo)
        ensures
            r@ == extracted(
                *document,
                match base {
                    Some(b) => Some(*b),
                    None => None,
                },
            ),
            record_in_order(
                r@,
                match base {
                    Some(b) => Some(*b),
                    None => None,
                },
            ),
    {
        let events = Self::walk_page(document);
        Self::extract_from(&events, base)
    }

    /// Walks through a parsed document with the selectors and the attribute
    /// names of a page.
    pub fn walk_page(document: &scraper::Html) -> (r: Vec<DomEvent>)
        ensures
            r@ == page_walk(*document),
    {
        let mut selectors: Vec<&'static str> = Vec::new();
        selectors.push("title");
        selectors.push("html");
        selectors.push("meta");
        selectors.push("link[rel=\"canonical\"]");
        selectors.push("link[rel=\"alternate\"]");
        selectors.push("body");
        selectors.push("script, style, noscript");
        selectors.push("a[href]");
        selectors.push("script[type=\"application/ld+json\"]");
        let mut names: Vec<&'static str> = Vec::new();
        names.push("lang");
        names.push("content");
        names.push("charset");
        names.push("property");
        names.push("name");
        names.push("http-equiv");
        names.push("href");
        names.push("type");
        names.push("rel");
        assert(name_views(selectors@) =~= page_selectors());
        assert(name_views(names@) =~= page_attributes());
        walk_document(document, &selectors, &names)
    }

    /// Extracts what a walk through a page states.
    pub fn extract_from(events: &Vec<DomEvent>, base: Option<&url::Url>) -> (r: HtmlInfo)
        ensures
            r@ == extracted_from(
                events@,
                match base {
                    Some(b) => Some(*b),
                    None => None,
                },
            ),
            record_in_order(
                r@,
                match base {
                    Some(b) => Some(*b),
                    None => None,
                },
            ),
    {
        proof {
            lemma_extracted_in_order(
                events@,
                match base {
                    Some(b) => Some(*b),
                    None => None,
                },
            );
        }
        let mut info = HtmlInfo {
            title: Self::extract_title(events),
            description: None,
            canonical_url: Self::extract_canonical(events),
            feed_url: Self::extract_feed(events),
            language: Self::extract_language(events),
            text_content: Self::extract_text_content(events),
            meta: StringMap::new(),
            opengraph: Opengraph::new(),
            schema_org: Self::extract_schema_org(events),
            links: Self::extract_links(events, base),
        };
        let mut picks: Vec<usize> = Vec::new();
        picks.push(CONTENT);
        picks.push(CHARSET);
        picks.push(PROPERTY);
        picks.push(NAME);
        picks.push(HTTP_EQUIV);
        assert(picks@ =~= seq![CONTENT, CHARSET, PROPERTY, NAME, HTTP_EQUIV]);
        let metas = elements_of(events, META, &picks, false);
        info.extract_meta_tags(&metas);
        info
    }

    /// The title of a page.
    pub fn extract_title(events: &Vec<DomEvent>) -> (r: Option<String>)
        ensures
            opt_view(r) == walk_title(events@),
    {
        let picks: Vec<usize> = Vec::new();
        assert(picks@ =~= seq![]);
        let titles = elements_of(events, TITLE, &picks, true);
        title_from(&titles)
    }

    /// The language of a page.
    pub fn extract_language(events: &Vec<DomEvent>) -> (r: Option<String>)
        ensures
            opt_view(r) == walk_language(events@),
    {
        let mut picks: Vec<usize> = Vec::new();
        picks.push(LANG);
        assert(picks@ =~= seq![LANG]);
        let roots = elements_of(events, ROOT, &picks, false);
        first_attribute_from(&roots)
    }

    /// The canonical URL of a page.
    pub fn extract_canonical(events: &Vec<DomEvent>) -> (r: Option<String>)
        ensures
            opt_view(r) == walk_canonical(events@),
    {
        let mut picks: Vec<usize> = Vec::new();
        picks.push(HREF);
        assert(picks@ =~= seq![HREF]);
        let links = elements_of(events, CANONICAL, &picks, false);
        first_attribute_from(&links)
    }

    /// The feed URL of a page.
    pub fn extract_feed(events: &Vec<DomEvent>) -> (r: Option<String>)
        ensures
            opt_view(r) == walk_feed(events@),
    {
        let mut picks: Vec<usize> = Vec::new();
        picks.push(TYPE);
        picks.push(HREF);
        assert(picks@ =~= seq![TYPE, HREF]);
        let alternates = elements_of(events, ALTERNATE, &picks, false);
        feed_from(&alternates)
    }

    /// The body text of a page.
    pub fn extract_text_content(events: &Vec<DomEvent>) -> (r: String)
        ensures
            r@ == walk_text(events@),
    {
        collect_text(events, BODY, HIDDEN)
    }

    /// The links of a page.
    pub fn extract_links(events: &Vec<DomEvent>, base: Option<&url::Url>) -> (r: Vec<Link>)
        ensures
            link_views(r@) == walk_links(
                events@,
                match base {
                    Some(b) => Some(*b),
                    None => None,
                },
            ),
    {
        let mut picks: Vec<usize> = Vec::new();
        picks.push(HREF);
        picks.push(REL);
        assert(picks@ =~= seq![HREF, REL]);
        let anchors = elements_of(events, ANCHOR, &picks, true);
        links_from(&anchors, base)
    }

    /// The Schema.org items of a page.
    pub fn extract_schema_org(events: &Vec<DomEvent>) -> (r: Vec<SchemaOrg>)
        ensures
            schema_views(r@) == walk_schema_org(events@),
    {
        let picks: Vec<usize> = Vec::new();
        assert(picks@ =~= seq![]);
        let scripts = elements_of(events, JSON_LD, &picks, true);
        schema_org_from(&scripts)
    }

    /// Folds the meta elements of a page, asked for `content`, `charset`,
    /// `property`, `name` and `http-equiv`, into the record: its meta tags,
    /// its OpenGraph data and its description.
    pub fn extract_meta_tags(&mut self, metas: &Vec<Element>)
        ensures
            meta_state(*final(self)) == meta_folded(
                meta_state(*old(self)),
                element_views(metas@),
                metas@.len() as int,
            ),
            final(self).title == old(self).title,
            final(self).canonical_url == old(self).canonical_url,
            final(self).feed_url == old(self).feed_url,
            final(self).language == old(self).language,
            final(self).text_content == old(self).text_content,
            final(self).schema_org == old(self).schema_org,
            final(self).links == old(self).links,
    {
        let mut i: usize = 0;
        while i < metas.len()
            invariant
                i <= metas@.len(),
                meta_state(*self) == meta_folded(
                    meta_state(*old(self)),
                    element_views(metas@),
                    i as int,
                ),
                self.title == old(self).title,
                self.canonical_url == old(self).canonical_url,
                self.feed_url == old(self).feed_url,
                self.language == old(self).language,
                self.text_content == old(self).text_content,
                self.schema_org == old(self).schema_org,
                self.links == old(self).links,
            decreases metas@.len() - i,
        {
            self.apply_meta(&metas[i]);
            i += 1;
        }
    }

    /// Folds one meta element into the record.
    pub fn apply_meta(&mut self, e: &Element)
        ensures
            meta_state(*final(self)) == meta_step(meta_state(*old(self)), e@),
            final(self).title == old(self).title,
            final(self).canonical_url == old(self).canonical_url,
            final(self).feed_url == old(self).feed_url,
            final(self).language == old(self).language,
            final(self).text_content == old(self).text_content,
            final(self).schema_org == old(self).schema_org,
            final(self).links == old(self).links,
    {
        let raw = match e.attribute(0) {
            Some(raw) => raw,
            None => {
                match e.attribute(1) {
                    Some(charset) => {
                        self.meta.insert("charset".to_owned(), charset.to_owned());
                    },
                    None => {},
                }
                return ;
            },
        };
        let key_raw = match e.attribute(2) {
            Some(p) => Some(p),
            None => match e.attribute(3) {
                Some(n) => Some(n),
                None => e.attribute(4),
            },
        };
        match key_raw {
            None => {},
            Some(k) => {
                let key = trim(k);
                let content = trim(raw);
                self.meta.insert(key.to_owned(), content.to_owned());
                match strip_prefix(key, "og:") {
                    Some(suffix) => {
                        proof {
                            assert(suffix@ =~= og_suffix(key@));
                            assert(key@.subrange(0, "og:"@.len() as int) =~= "og:"@);
                        }
                        self.opengraph.extend(suffix, content.to_owned());
                    },
                    None => {},
                }
                if str_eq(key, "description") {
                    self.description = if content.is_empty() {
                        None
                    } else {
                        Some(content.to_owned())
                    };
                }
            },
        }
    }
}

impl Default for HtmlInfo {
    fn default() -> (r: Self)
        ensures
            r@.title is None,
            r@.description is None,
            r@.canonical_url is None,
            r@.feed_url is None,
            r@.language is None,
            r@.text_content.len() == 0,
            r@.meta == Map::<Seq<char>, Seq<char>>::empty(),
            r@.opengraph == empty_opengraph(),
            r@.schema_org.len() == 0,
            r@.links.len() == 0,
    {
        HtmlInfo::new()
    }
}

/// Whether a text is absent, or is non-empty and has no whitespace at
/// either end.
pub open spec fn absent_or_trimmed(v: Option<Seq<char>>) -> bool {
    match v {
        None => true,
        Some(s) => s.len() > 0 && trimmed(s) == s,
    }
}

/// What is kept of a text is never empty and never has whitespace at either
/// end.
pub proof fn lemma_meaningful(raw: Seq<char>)
    ensures
        absent_or_trimmed(meaningful(raw)),
{
    lemma_trimmed_idempotent(raw);
}

/// The feed URL is absent or trimmed and non-empty.
pub proof fn lemma_feed_trimmed(alternates: Seq<ElementView>, n: int)
    ensures
        absent_or_trimmed(feed_spec(alternates, n)),
    decreases alternates.len() - n,
{
    if 0 <= n < alternates.len() {
        if names_feed(alternates[n]) {
            match attribute(alternates[n], 1) {
                Some(h) => lemma_meaningful(h),
                None => {},
            }
        } else {
            lemma_feed_trimmed(alternates, n + 1);
        }
    }
}

/// What the first attribute of the first element gives is absent or trimmed
/// and non-empty.
pub proof fn lemma_first_attribute_trimmed(elements: Seq<ElementView>)
    ensures
        absent_or_trimmed(first_attribute_spec(elements)),
{
    if elements.len() > 0 {
        match attribute(elements[0], 0) {
            Some(v) => lemma_meaningful(v),
            None => {},
        }
    }
}

/// Whether the state of the meta tags is in order: the description absent or
/// trimmed and non-empty, no media collection over its limit, no recognized
/// name among the other OpenGraph properties.
pub open spec fn meta_in_order(s: MetaState) -> bool {
    &&& absent_or_trimmed(s.description)
    &&& within_limits(s.opengraph)
    &&& properties_unrecognized(s.opengraph)
}

/// Meta elements keep the state of the meta tags in order.
pub proof fn lemma_meta_in_order(s: MetaState, metas: Seq<ElementView>, n: int)
    requires
        meta_in_order(s),
    ensures
        meta_in_order(meta_folded(s, metas, n)),
    decreases n,
{
    if n > 0 {
        lemma_meta_in_order(s, metas, n - 1);
        let before = meta_folded(s, metas, n - 1);
        let e = metas[n - 1];
        match (attribute(e, 0), meta_key(e)) {
            (Some(raw), Some(k)) => {
                let key = trimmed(k);
                let content = trimmed(raw);
                lemma_trimmed_idempotent(raw);
                lemma_extend_within_limits(before.opengraph, og_suffix(key), content);
                lemma_extend_properties_unrecognized(before.opengraph, og_suffix(key), content);
            },
            _ => {},
        }
    }
}

/// Whether a link comes from a reference that was neither empty nor a
/// `javascript:` reference: its URL is that reference, or what the
/// reference resolved to against the base.
pub open spec fn link_in_order(l: LinkView, base: Option<url::Url>) -> bool {
    exists|href: Seq<char>|
        {
            &&& href.len() > 0
            &&& trimmed(href) == href
            &&& !has_prefix(href, "javascript:"@)
            &&& (l.url == href || (base is Some && #[trigger] url_joined(base->Some_0, href)
                == Some(l.url)))
        }
}

/// A link that an anchor gives is in order.
pub proof fn lemma_link_of_in_order(e: ElementView, base: Option<url::Url>)
    requires
        link_of(e, base) is Some,
    ensures
        link_in_order(link_of(e, base)->Some_0, base),
{
    let raw = attribute(e, 0)->Some_0;
    let href = trimmed(raw);
    lemma_trimmed_idempotent(raw);
    let l = link_of(e, base)->Some_0;
    match base {
        Some(b) => {
            if url_joined(b, href) is Some {
                assert(url_joined(base->Some_0, href) == Some(l.url));
            }
        },
        None => {},
    }
}

/// There are never more links than the limit allows, and every link is in
/// order.
pub proof fn lemma_links_in_order(anchors: Seq<ElementView>, base: Option<url::Url>, n: int)
    ensures
        links_spec(anchors, base, n).len() <= MAX_LINKS,
        forall|i: int|
            0 <= i < links_spec(anchors, base, n).len() ==> link_in_order(
                #[trigger] links_spec(anchors, base, n)[i],
                base,
            ),
    decreases n,
{
    if n > 0 {
        lemma_links_in_order(anchors, base, n - 1);
        if link_of(anchors[n - 1], base) is Some {
            lemma_link_of_in_order(anchors[n - 1], base);
        }
    }
}

/// Without a base, no link's URL begins with `javascript:`, and none is
/// empty.
pub proof fn lemma_links_without_base(anchors: Seq<ElementView>, n: int, i: int)
    requires
        0 <= i < links_spec(anchors, None, n).len(),
    ensures
        !has_prefix(links_spec(anchors, None, n)[i].url, "javascript:"@),
        links_spec(anchors, None, n)[i].url.len() > 0,
{
    lemma_links_in_order(anchors, None, n);
    assert(link_in_order(links_spec(anchors, None, n)[i], None));
}

/// Every item of a JSON-LD text is a JSON object.
pub proof fn lemma_text_items_are_objects(text: Seq<char>, i: int)
    requires
        0 <= i < items_of_text(text).len(),
    ensures
        items_of_text(text)[i].value is Object,
{
    match json_parsed(text) {
        Some(node) => {
            lemma_items_are_typed_objects(candidates(json_copied(node)), i);
        },
        None => {},
    }
}

/// There are never more Schema.org items than the limit allows, and every
/// item's value is a JSON object.
pub proof fn lemma_schema_in_order(scripts: Seq<ElementView>, n: int)
    ensures
        schema_spec(scripts, n).len() <= MAX_SCHEMA_ORG_ITEMS,
        forall|i: int|
            0 <= i < schema_spec(scripts, n).len() ==> (#[trigger] schema_spec(
                scripts,
                n,
            )[i]).value is Object,
    decreases n,
{
    if n > 0 {
        lemma_schema_in_order(scripts, n - 1);
        let rest = schema_spec(scripts, n - 1);
        let found = items_of_text(scripts[n - 1].text);
        if rest.len() < MAX_SCHEMA_ORG_ITEMS {
            assert forall|i: int| 0 <= i < schema_spec(scripts, n).len() implies (
            #[trigger] schema_spec(scripts, n)[i]).value is Object by {
                if i >= rest.len() {
                    lemma_text_items_are_objects(scripts[n - 1].text, i - rest.len());
                    assert(schema_spec(scripts, n)[i] == found[i - rest.len()]);
                } else {
                    assert(schema_spec(scripts, n)[i] == rest[i]);
                }
            }
        }
    }
}

/// Whether a record keeps to the rules of a page's data: the optional texts
/// absent or trimmed and non-empty; the body text, the links, the Schema.org
/// items and the OpenGraph media within their limits; every link from a
/// proper reference; every Schema.org value an object; no recognized name
/// among the other OpenGraph properties.
pub open spec fn record_in_order(info: HtmlInfoView, base: Option<url::Url>) -> bool {
    &&& absent_or_trimmed(info.title)
    &&& absent_or_trimmed(info.description)
    &&& absent_or_trimmed(info.language)
    &&& absent_or_trimmed(info.canonical_url)
    &&& absent_or_trimmed(info.feed_url)
    &&& byte_len(info.text_content) <= MAX_TEXT_CONTENT_LEN
    &&& info.links.len() <= MAX_LINKS
    &&& info.schema_org.len() <= MAX_SCHEMA_ORG_ITEMS
    &&& within_limits(info.opengraph)
    &&& properties_unrecognized(info.opengraph)
    &&& forall|i: int| 0 <= i < info.links.len() ==> link_in_order(#[trigger] info.links[i], base)
    &&& forall|i: int|
        0 <= i < info.schema_org.len() ==> (#[trigger] info.schema_org[i]).value is Object
}

/// Whatever the walk and the base, what is extracted keeps to the rules of a
/// page's data.
pub proof fn lemma_extracted_in_order(events: Seq<DomEvent>, base: Option<url::Url>)
    ensures
        record_in_order(extracted_from(events, base), base),
{
    let titles = all_elements(events, TITLE as int, seq![], true);
    if titles.len() > 0 {
        lemma_meaningful(titles[0].text);
    }
    lemma_first_attribute_trimmed(all_elements(events, ROOT as int, seq![LANG], false));
    lemma_first_attribute_trimmed(all_elements(events, CANONICAL as int, seq![HREF], false));
    lemma_feed_trimmed(all_elements(events, ALTERNATE as int, seq![TYPE, HREF], false), 0);
    let metas = walk_metas(events);
    lemma_meta_in_order(no_meta(), metas, metas.len() as int);
    lemma_text_within_limit(events, BODY as int, HIDDEN as int);
    let anchors = all_elements(events, ANCHOR as int, seq![HREF, REL], true);
    lemma_links_in_order(anchors, base, anchors.len() as int);
    let scripts = all_elements(events, JSON_LD as int, seq![], true);
    lemma_schema_in_order(scripts, scripts.len() as int);
}

/// Whatever the page and the base, what is extracted from the page keeps to
/// the rules of a page's data.
pub proof fn lemma_page_in_order(html: Seq<char>, base: Option<Seq<char>>)
    ensures
        record_in_order(extracted(parsed_document(html), base_of(base)), base_of(base)),
{
    lemma_extracted_in_order(page_walk(parsed_document(html)), base_of(base));
}

} // verus!
