//! The parsed document, as far as the extractor reads it: one walk through
//! its tree, in document order, that tells of every node what the extractor
//! asks — its text, the selectors that select it, its attributes.

use crate::text::opt_view;
use ego_tree::iter::Edge;
use scraper::ElementRef;
use vstd::prelude::*;
use vstd::string::StringExecFns;

verus! {

#[verifier::external_type_specification]
#[verifier::external_body]
pub struct ExHtml(scraper::Html);

#[verifier::external_type_specification]
#[verifier::external_body]
pub struct ExSelector(scraper::Selector);

/// One step of a walk through a tree, in document order.
#[derive(Clone, Debug)]
pub enum DomEvent {
    /// A node is entered.
    Open {
        /// The node's text, where it is a text node.
        text: Option<String>,
        /// For each selector of the walk, whether it selects the node. Empty
        /// for a node that is no element.
        matches: Vec<bool>,
        /// For each attribute name of the walk, the value that the node has
        /// for it, where it has the attribute. Empty for a node that is no
        /// element.
        attributes: Vec<Option<String>>,
    },
    /// The node entered last and not yet left is left.
    Close,
}

/// An element, as far as it is read: some of its attributes and its text.
#[derive(Clone, Debug)]
pub struct Element {
    /// The values of the attributes that were asked for, in the order of the
    /// asking; `None` where the element lacks the attribute.
    pub attributes: Vec<Option<String>>,
    /// The text of all text nodes below the element, in document order;
    /// empty where the text was not asked for.
    pub text: String,
}

/// What an [`Element`] holds.
pub struct ElementView {
    pub attributes: Seq<Option<Seq<char>>>,
    pub text: Seq<char>,
}

impl View for Element {
    type V = ElementView;

    open spec fn view(&self) -> ElementView {
        ElementView {
            attributes: self.attributes@.map_values(|a: Option<String>| opt_view(a)),
            text: self.text@,
        }
    }
}

/// The views of a list of elements.
pub open spec fn element_views(elements: Seq<Element>) -> Seq<ElementView> {
    elements.map_values(|e: Element| e@)
}

/// The document that `scraper::Html::parse_document` builds from a text.
pub uninterp spec fn parsed_document(html: Seq<char>) -> scraper::Html;

/// The selector that `scraper::Selector::parse` builds from a text; nothing
/// where the text is no selector.
pub uninterp spec fn selector_parsed(text: Seq<char>) -> Option<scraper::Selector>;

/// The walk through a document: what `traverse` yields from the root of its
/// tree, edge by edge, each entered node with its text, with what
/// `Selector::matches` says of it for each of the selectors, and with what
/// `Element::attr` gives for each of the names.
pub uninterp spec fn walk_of(
    doc: scraper::Html,
    selectors: Seq<scraper::Selector>,
    names: Seq<Seq<char>>,
) -> Seq<DomEvent>;

/// Wraps `scraper::Html::parse_document`. The parser is lenient: every text
/// gives a document.
#[verifier::external_body]
pub(crate) fn parse_document(html: &str) -> (r: scraper::Html)
    ensures
        r == parsed_document(html@),
{
    scraper::Html::parse_document(html)
}

/// Wraps `scraper::Selector::parse`.
#[verifier::external_body]
pub(crate) fn parse_selector(text: &str) -> (r: Option<scraper::Selector>)
    ensures
        r == selector_parsed(text@),
{
    scraper::Selector::parse(text).ok()
}

/// The views of a list of names.
pub open spec fn name_views(names: Seq<&'static str>) -> Seq<Seq<char>> {
    names.map_values(|n: &'static str| n@)
}

/// Wraps `ego_tree::NodeRef::traverse` on the root of the document's tree:
/// one event for each edge, and for an entered node `Node::as_text` for its
/// text and, where it is an element, `Selector::matches` for each selector
/// and `Element::attr` for each name.
#[verifier::external_body]
pub(crate) fn walk(
    doc: &scraper::Html,
    selectors: &[scraper::Selector],
    names: &[&'static str],
) -> (r: Vec<DomEvent>)
    ensures
        r@ == walk_of(*doc, selectors@, name_views(names@)),
{
    let flags = |e: ElementRef| selectors.iter().map(|s| s.matches(&e)).collect();
    let values = |e: ElementRef| names.iter().map(|a| e.attr(a).map(|v| v.to_string())).collect();
    doc.tree.root().traverse().map(|edge| match edge {
        Edge::Open(n) => DomEvent::Open {
            text: n.value().as_text().map(|t| t.to_string()),
            matches: ElementRef::wrap(n).map(flags).unwrap_or_default(),
            attributes: ElementRef::wrap(n).map(values).unwrap_or_default(),
        },
        Edge::Close(_) => DomEvent::Close,
    }).collect()
}

/// The selectors that a list of texts gives, where every one of the texts is
/// a selector; else nothing.
pub open spec fn selectors_parsed(texts: Seq<Seq<char>>) -> Option<Seq<scraper::Selector>> {
    if forall|i: int| 0 <= i < texts.len() ==> selector_parsed(#[trigger] texts[i]) is Some {
        Some(texts.map_values(|t: Seq<char>| selector_parsed(t)->Some_0))
    } else {
        None
    }
}

/// Parses a list of selectors. Nothing where one of the texts is no
/// selector.
pub fn parse_selectors(texts: &Vec<&'static str>) -> (r: Option<Vec<scraper::Selector>>)
    ensures
        match r {
            Some(v) => selectors_parsed(name_views(texts@)) == Some(v@),
            None => selectors_parsed(name_views(texts@)) is None,
        },
{
    let mut out: Vec<scraper::Selector> = Vec::new();
    let mut i: usize = 0;
    while i < texts.len()
        invariant
            i <= texts@.len(),
            out@.len() == i,
            forall|j: int|
                0 <= j < i ==> selector_parsed(#[trigger] name_views(texts@)[j]) == Some(out@[j]),
        decreases texts@.len() - i,
    {
        match parse_selector(texts[i]) {
            Some(s) => {
                out.push(s);
            },
            None => {
                assert(selector_parsed(name_views(texts@)[i as int]) is None);
                return None;
            },
        }
        i += 1;
    }
    assert(out@ =~= name_views(texts@).map_values(|t: Seq<char>| selector_parsed(t)->Some_0));
    Some(out)
}

/// The walk through a document with selectors given as texts. Where one of
/// the texts is no selector, there is no walk.
pub open spec fn walk_with(
    doc: scraper::Html,
    selectors: Seq<Seq<char>>,
    names: Seq<Seq<char>>,
) -> Seq<DomEvent> {
    match selectors_parsed(selectors) {
        Some(s) => walk_of(doc, s, names),
        None => seq![],
    }
}

/// Walks through a document with selectors given as texts.
pub fn walk_document(
    doc: &scraper::Html,
    selectors: &Vec<&'static str>,
    names: &Vec<&'static str>,
) -> (r: Vec<DomEvent>)
    ensures
        r@ == walk_with(*doc, name_views(selectors@), name_views(names@)),
{
    match parse_selectors(selectors) {
        Some(s) => walk(doc, s.as_slice(), names.as_slice()),
        None => Vec::new(),
    }
}

/// Whether an event enters a node that the `k`-th selector selects.
pub open spec fn enters(e: DomEvent, k: int) -> bool {
    match e {
        DomEvent::Open { text, matches, attributes } => 0 <= k < matches@.len() && matches@[k],
        DomEvent::Close => false,
    }
}

/// The text of the node that an event enters, where it is a text node.
pub open spec fn event_text(e: DomEvent) -> Seq<char> {
    match e {
        DomEvent::Open { text: Some(t), matches, attributes } => t@,
        _ => seq![],
    }
}

/// The value that the node which an event enters has for the `p`-th attribute
/// name.
pub open spec fn event_attribute(e: DomEvent, p: int) -> Option<Seq<char>> {
    match e {
        DomEvent::Open { text, matches, attributes } => if 0 <= p < attributes@.len() {
            opt_view(attributes@[p])
        } else {
            None
        },
        DomEvent::Close => None,
    }
}

/// The text of the text nodes that are entered from the `j`-th event on,
/// until `depth` more nodes have been left than entered.
pub open spec fn gathered(events: Seq<DomEvent>, j: int, depth: nat) -> Seq<char>
    decreases events.len() - j,
{
    if j < 0 || j >= events.len() || depth == 0 {
        seq![]
    } else {
        match events[j] {
            DomEvent::Close => gathered(events, j + 1, (depth - 1) as nat),
            DomEvent::Open { text, matches, attributes } => event_text(events[j]) + gathered(
                events,
                j + 1,
                depth + 1,
            ),
        }
    }
}

/// The text below the node that the `i`-th event enters: that of all text
/// nodes between the event and the one that leaves the node, one after the
/// other.
pub open spec fn inner_text(events: Seq<DomEvent>, i: int) -> Seq<char> {
    gathered(events, i + 1, 1)
}

/// The element that the `i`-th event enters, read for the attributes at the
/// positions `picks`, and for its text where `with_text` holds.
pub open spec fn element_at(
    events: Seq<DomEvent>,
    i: int,
    picks: Seq<usize>,
    with_text: bool,
) -> ElementView {
    ElementView {
        attributes: picks.map_values(|p: usize| event_attribute(events[i], p as int)),
        text: if with_text {
            inner_text(events, i)
        } else {
            seq![]
        },
    }
}

/// The elements among the nodes that the first `n` events enter which the
/// `k`-th selector selects, in document order.
pub open spec fn elements(
    events: Seq<DomEvent>,
    k: int,
    picks: Seq<usize>,
    with_text: bool,
    n: int,
) -> Seq<ElementView>
    decreases n,
{
    if n <= 0 {
        seq![]
    } else {
        let rest = elements(events, k, picks, with_text, n - 1);
        if enters(events[n - 1], k) {
            rest.push(element_at(events, n - 1, picks, with_text))
        } else {
            rest
        }
    }
}

/// All elements of a walk that the `k`-th selector selects, in document
/// order.
pub open spec fn all_elements(
    events: Seq<DomEvent>,
    k: int,
    picks: Seq<usize>,
    with_text: bool,
) -> Seq<ElementView> {
    elements(events, k, picks, with_text, events.len() as int)
}

/// Whether the `i`-th event of a walk enters a node that the `k`-th selector
/// selects.
pub open spec fn enters_at(events: Seq<DomEvent>, i: int, k: int) -> bool {
    0 <= i < events.len() && enters(events[i], k)
}

/// Whether the `i`-th event enters a node that the `k`-th selector selects.
pub fn is_entered(events: &Vec<DomEvent>, i: usize, k: usize) -> (r: bool)
    ensures
        r == enters_at(events@, i as int, k as int),
{
    if i >= events.len() {
        return false;
    }
    match &events[i] {
        DomEvent::Open { text, matches, attributes } => k < matches.len() && matches[k],
        DomEvent::Close => false,
    }
}

/// The text below the node that the `i`-th event enters.
pub fn inner_text_of(events: &Vec<DomEvent>, i: usize) -> (r: String)
    ensures
        r@ == inner_text(events@, i as int),
{
    let mut out = String::new();
    let n = events.len();
    if i >= n {
        return out;
    }
    let mut j: usize = i + 1;
    let mut depth: usize = 1;
    while j < n && depth > 0
        invariant
            n == events@.len(),
            i < j <= n,
            depth <= j - i,
            inner_text(events@, i as int) == out@ + gathered(events@, j as int, depth as nat),
        decreases events@.len() - j,
    {
        match &events[j] {
            DomEvent::Close => {
                depth -= 1;
            },
            DomEvent::Open { text, matches, attributes } => {
                let ghost before = out@;
                match text {
                    Some(t) => {
                        out.append(t.as_str());
                    },
                    None => {},
                }
                depth += 1;
                assert(out@ =~= before + event_text(events@[j as int]));
                assert(out@ + gathered(events@, j + 1, depth as nat) =~= before + (event_text(
                    events@[j as int],
                ) + gathered(events@, j + 1, depth as nat)));
            },
        }
        j += 1;
    }
    assert(out@ + Seq::<char>::empty() =~= out@);
    out
}

/// The elements of a walk that the `k`-th selector selects, in document
/// order, each read for the attributes at the positions `picks`, and for its
/// text where `with_text` holds.
pub fn elements_of(events: &Vec<DomEvent>, k: usize, picks: &Vec<usize>, with_text: bool) -> (r:
    Vec<Element>)
    ensures
        element_views(r@) == all_elements(events@, k as int, picks@, with_text),
{
    let mut out: Vec<Element> = Vec::new();
    let mut i: usize = 0;
    assert(element_views(out@) =~= elements(events@, k as int, picks@, with_text, 0));
    while i < events.len()
        invariant
            i <= events@.len(),
            element_views(out@) == elements(events@, k as int, picks@, with_text, i as int),
        decreases events@.len() - i,
    {
        if is_entered(events, i, k) {
            let mut attributes: Vec<Option<String>> = Vec::new();
            let mut t: usize = 0;
            while t < picks.len()
                invariant
                    i < events@.len(),
                    t <= picks@.len(),
                    attributes@.len() == t,
                    forall|u: int|
                        0 <= u < t ==> opt_view(#[trigger] attributes@[u]) == event_attribute(
                            events@[i as int],
                            picks@[u] as int,
                        ),
                decreases picks@.len() - t,
            {
                let p = picks[t];
                let value: Option<String> = match &events[i] {
                    DomEvent::Open { text, matches, attributes } => if p < attributes.len() {
                        match &attributes[p] {
                            Some(v) => Some(v.clone()),
                            None => None,
                        }
                    } else {
                        None
                    },
                    DomEvent::Close => None,
                };
                attributes.push(value);
                t += 1;
            }
            let text = if with_text {
                inner_text_of(events, i)
            } else {
                String::new()
            };
            let e = Element { attributes, text };
            assert(e@.attributes =~= element_at(events@, i as int, picks@, with_text).attributes);
            out.push(e);
            assert(element_views(out@) =~= elements(events@, k as int, picks@, with_text, i + 1));
        }
        i += 1;
    }
    out
}

} // verus!
