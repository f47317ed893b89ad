//! The boundary with `scraper`: HTML parsing (html5ever) and CSS selector
//! parsing and matching stay with the outside crate; what they produce is
//! handed to the library as plain values (`DomEvent` walks, names,
//! error text) and named here.

use vstd::prelude::*;

use crate::dom::{
    event_views, events_of, lemma_events_of_shape, tree_from_events, DomEvent, DomNode, DomTree,
    EventView, NodeData,
};
use ego_tree::iter::Edge;
use scraper::{Html, Selector};

verus! {

#[verifier::external_type_specification]
#[verifier::external_body]
pub struct ExSelector(Selector);

/// Whether `scraper::Selector::parse` accepts `source` as a CSS selector
/// group.
pub uninterp spec fn selector_parses(source: Seq<char>) -> bool;

/// The text (`Display`) of the error that `scraper::Selector::parse`
/// returns for `source`.
pub uninterp spec fn selector_error_text(source: Seq<char>) -> Seq<char>;

/// The root element (`Html::root_element`) of the document that
/// `scraper::Html::parse_document` builds from `html`.
pub uninterp spec fn parsed_root_element(html: Seq<char>) -> DomTree;

/// The elements that `Html::select` yields, in its order, for the document
/// built from `html` and the selector parsed from `selector`.
pub uninterp spec fn selected_elements(html: Seq<char>, selector: Seq<char>) -> Seq<SelectedElement>;

/// An element picked by a selector: its subtree, and for each of its
/// ancestors (parent first) the element name, or `None` for a node that is
/// not an element.
pub struct SelectedElement {
    pub element: DomTree,
    pub ancestors: Seq<Option<Seq<char>>>,
}

/// A CSS selector group that `scraper` accepted, with its source text.
/// Only `parse_selector` builds one, so `compiled` is always what
/// `scraper::Selector::parse` made of `source`.
pub struct CssSelector {
    source: String,
    compiled: Selector,
}

impl View for CssSelector {
    type V = Seq<char>;

    closed spec fn view(&self) -> Seq<char> {
        self.source@
    }
}

/// A CSS selector that `scraper` refused, with the error's text.
pub struct SelectorError {
    pub message: String,
}

pub open spec fn names_view(names: Seq<Option<String>>) -> Seq<Option<Seq<char>>> {
    names.map_values(
        |o: Option<String>|
            match o {
                Some(s) => Some(s@),
                None => None,
            },
    )
}

/// Calls `scraper::Selector::parse` on `source`. Claimed: success exactly
/// when the name `selector_parses` holds of `source`; the kept selector
/// remembers `source`; the error carries the error's `Display` text.
#[verifier::external_body]
fn parse_selector(source: &str) -> (r: Result<CssSelector, SelectorError>)
    ensures
        r is Ok <==> selector_parses(source@),
        r matches Ok(s) ==> s@ == source@,
        r matches Err(e) ==> e.message@ == selector_error_text(source@),
{
    match Selector::parse(source) {
        Ok(compiled) => Ok(CssSelector { source: source.to_string(), compiled }),
        Err(e) => Err(SelectorError { message: e.to_string() }),
    }
}

/// Calls `scraper::Html::parse_document`, then `root_element` and walks it
/// with `traverse`. Claimed: the walk is the depth-first open/close walk of
/// the tree named `parsed_root_element`, whose top node is an element
/// (`root_element` returns an `ElementRef`; html5ever always inserts the
/// `html` element, so it does not panic). Each node becomes its element
/// data (`as_element`: name and attributes with namespace) or its text
/// (`as_text`); other node kinds carry neither.
#[verifier::external_body]
fn root_element_walk(html: &str) -> (events: Vec<DomEvent>)
    ensures
        event_views(events@) == events_of(parsed_root_element(html@)),
        events@.len() > 0,
        events@[0] is Open,
        events@[0]->Open_0.element is Some,
{
    Html::parse_document(html).root_element().traverse().map(|edge| match edge {
        Edge::Open(node) => DomEvent::Open(NodeData {
            element: node.value().as_element().map(|e| (e.name().to_string(), e.attrs.iter().map(|(q, v)| (q.ns.to_string(), q.local.to_string(), v.to_string())).collect())),
            text: node.value().as_text().map(|t| t.to_string()),
        }),
        Edge::Close(_) => DomEvent::Close,
    }).collect()
}

/// Calls `scraper::Html::parse_document` and `Html::select` with the kept
/// selector, and walks each selected element with `traverse` (converted as
/// in `root_element_walk`). Claimed: one walk per element that the name
/// `selected_elements` lists, in that order; each is an element.
#[verifier::external_body]
fn selected_walks(html: &str, selector: &CssSelector) -> (walks: Vec<Vec<DomEvent>>)
    ensures
        walks@.len() == selected_elements(html@, selector@).len(),
        forall|i: int|
            0 <= i < walks@.len() ==> event_views(#[trigger] walks@[i]@) == events_of(
                selected_elements(html@, selector@)[i].element,
            ),
        forall|i: int|
            0 <= i < walks@.len() ==> (#[trigger] walks@[i]@).len() > 0 && walks@[i]@[0] is Open
                && walks@[i]@[0]->Open_0.element is Some,
{
    let doc = Html::parse_document(html);
    doc.select(&selector.compiled).map(|el| el.traverse().map(|edge| match edge {
        Edge::Open(node) => DomEvent::Open(NodeData {
            element: node.value().as_element().map(|e| (e.name().to_string(), e.attrs.iter().map(|(q, v)| (q.ns.to_string(), q.local.to_string(), v.to_string())).collect())),
            text: node.value().as_text().map(|t| t.to_string()),
        }),
        Edge::Close(_) => DomEvent::Close,
    }).collect()).collect()
}

/// Calls `scraper::Html::parse_document` and `Html::select` with the kept
/// selector, and lists each selected element's `ancestors` (parent first)
/// as element names (`as_element`) or `None`. Claimed: one list per element
/// that the name `selected_elements` lists, equal to its `ancestors`.
#[verifier::external_body]
fn selected_ancestor_names(html: &str, selector: &CssSelector) -> (names: Vec<Vec<Option<String>>>)
    ensures
        names@.len() == selected_elements(html@, selector@).len(),
        forall|i: int|
            0 <= i < names@.len() ==> names_view(#[trigger] names@[i]@) == selected_elements(
                html@,
                selector@,
            )[i].ancestors,
{
    let doc = Html::parse_document(html);
    doc.select(&selector.compiled).map(|el| el.ancestors().map(|a| a.value().as_element().map(|e| e.name().to_string())).collect()).collect()
}

impl CssSelector {
    /// Parses a CSS selector group; fails exactly when `scraper` refuses
    /// it, with the parser's error text.
    pub fn new(source: &str) -> (r: Result<CssSelector, SelectorError>)
        ensures
            r is Ok <==> selector_parses(source@),
            r matches Ok(s) ==> s@ == source@,
            r matches Err(e) ==> e.message@ == selector_error_text(source@),
    {
        parse_selector(source)
    }

    /// The selector's source text.
    pub fn source(&self) -> (r: &String)
        ensures
            r@ == self@,
    {
        &self.source
    }
}

/// The root element of the parsed document, as a tree.
pub fn parse_root_element(html: &str) -> (n: DomNode)
    ensures
        n@ == parsed_root_element(html@),
        n@.data.element is Some,
{
    let events = root_element_walk(html);
    proof {
        lemma_events_of_shape(parsed_root_element(html@));
        assert(event_views(events@)[0] == events@[0]@);
    }
    tree_from_events(&events, Ghost(parsed_root_element(html@)))
}

/// The subtrees of the elements that `selector` picks, in selection order.
pub fn select_elements(html: &str, selector: &CssSelector) -> (r: Vec<DomNode>)
    ensures
        r@.len() == selected_elements(html@, selector@).len(),
        forall|i: int|
            0 <= i < r@.len() ==> (#[trigger] r@[i])@ == selected_elements(html@, selector@)[i].element,
        forall|i: int|
            0 <= i < r@.len() ==> (#[trigger] r@[i])@.data.element is Some,
{
    let walks = selected_walks(html, selector);
    let ghost sel = selected_elements(html@, selector@);
    let mut r: Vec<DomNode> = Vec::new();
    for i in 0..walks.len()
        invariant
            sel == selected_elements(html@, selector@),
            walks@.len() == sel.len(),
            forall|k: int|
                0 <= k < walks@.len() ==> event_views(#[trigger] walks@[k]@) == events_of(sel[k].element),
            forall|k: int|
                0 <= k < walks@.len() ==> (#[trigger] walks@[k]@).len() > 0 && walks@[k]@[0] is Open
                    && walks@[k]@[0]->Open_0.element is Some,
            r@.len() == i,
            forall|k: int| 0 <= k < i ==> (#[trigger] r@[k])@ == sel[k].element,
            forall|k: int| 0 <= k < i ==> (#[trigger] r@[k])@.data.element is Some,
    {
        proof {
            let k = i as int;
            lemma_events_of_shape(sel[k].element);
            assert(event_views(walks@[k]@)[0] == walks@[k]@[0]@);
        }
        let n = tree_from_events(&walks[i], Ghost(sel[i as int].element));
        r.push(n);
    }
    r
}

/// For each element that `selector` picks, the names of its ancestors.
pub fn select_ancestor_names(html: &str, selector: &CssSelector) -> (r: Vec<Vec<Option<String>>>)
    ensures
        r@.len() == selected_elements(html@, selector@).len(),
        forall|i: int|
            0 <= i < r@.len() ==> names_view(#[trigger] r@[i]@) == selected_elements(html@, selector@)[i].ancestors,
{
    selected_ancestor_names(html, selector)
}

} // verus!
