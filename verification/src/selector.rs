//! Queries by a caller-supplied CSS selector: text or attribute of the
//! first match, whether anything matches, and how many elements match.

use vstd::prelude::*;

use crate::chars::chars_of;
use crate::document::{first_text, first_text_of, selected_trees};
use crate::dom::{lemma_node_trees, node_trees};
use crate::dom_query::{element_attr, node_attr};
use crate::scrape::{select_elements, selected_elements, CssSelector};

verus! {

/// The trimmed text of the first element that `selector` picks in `html`,
/// unless there is none or it is blank.
pub open spec fn selected_text(html: Seq<char>, selector: Seq<char>) -> Option<Seq<char>> {
    first_text(selected_trees(selected_elements(html, selector)))
}

/// The attribute `attr` of the first element that `selector` picks in
/// `html`.
pub open spec fn selected_attr(html: Seq<char>, selector: Seq<char>, attr: Seq<char>) -> Option<Seq<char>> {
    if selected_elements(html, selector).len() == 0 {
        None
    } else {
        element_attr(selected_elements(html, selector)[0].element, attr)
    }
}

/// The number of elements that `selector` picks in `html`.
pub open spec fn match_count(html: Seq<char>, selector: Seq<char>) -> nat {
    selected_elements(html, selector).len()
}

/// The trimmed text of the first element that `selector` matches; `None`
/// when nothing matches or the text is blank.
pub fn extract_text_str(html: &str, selector: &CssSelector) -> (r: Option<String>)
    ensures
        match r {
            Some(s) => selected_text(html@, selector@) == Some(s@),
            None => selected_text(html@, selector@) is None,
        },
{
    let elements = select_elements(html, selector);
    proof {
        lemma_node_trees(elements@);
        assert(node_trees(elements@) == selected_trees(selected_elements(html@, selector@)));
    }
    first_text_of(&elements)
}

/// The value of the attribute `attr` of the first element that `selector`
/// matches; `None` when nothing matches or it lacks the attribute.
pub fn get_attribute_str(html: &str, selector: &CssSelector, attr: &str) -> (r: Option<String>)
    ensures
        match r {
            Some(s) => selected_attr(html@, selector@, attr@) == Some(s@),
            None => selected_attr(html@, selector@, attr@) is None,
        },
        selected_elements(html@, selector@).len() == 0 ==> r is None,
        selected_elements(html@, selector@).len() > 0 ==> match r {
            Some(s) => element_attr(selected_elements(html@, selector@)[0].element, attr@) == Some(s@),
            None => element_attr(selected_elements(html@, selector@)[0].element, attr@) is None,
        },
{
    let elements = select_elements(html, selector);
    if elements.len() == 0 {
        return None;
    }
    let name = chars_of(attr);
    node_attr(&elements[0], &name)
}

/// Whether `selector` matches at least one element.
pub fn has_element_str(html: &str, selector: &CssSelector) -> (r: bool)
    ensures
        r == (match_count(html@, selector@) > 0),
        r == (selected_elements(html@, selector@).len() > 0),
{
    let elements = select_elements(html, selector);
    elements.len() > 0
}

/// The number of elements that `selector` matches.
pub fn count_elements_str(html: &str, selector: &CssSelector) -> (r: usize)
    ensures
        r == match_count(html@, selector@),
        r == selected_elements(html@, selector@).len(),
{
    let elements = select_elements(html, selector);
    elements.len()
}

/// Text is extracted only from a matching element.
pub proof fn law_text_needs_a_match(html: Seq<char>, selector: Seq<char>)
    ensures
        selected_text(html, selector) is Some ==> match_count(html, selector) > 0,
{
}

/// An attribute is read only from a matching element.
pub proof fn law_attribute_needs_a_match(html: Seq<char>, selector: Seq<char>, attr: Seq<char>)
    ensures
        selected_attr(html, selector, attr) is Some ==> match_count(html, selector) > 0,
{
}

/// The attribute is read from the first element in selection order: when
/// anything matches, it is that element's attribute, whatever the later
/// matches hold; when nothing matches, there is none.
pub proof fn law_attribute_of_first_match(html: Seq<char>, selector: Seq<char>, attr: Seq<char>)
    ensures
        selected_elements(html, selector).len() > 0 ==> selected_attr(html, selector, attr)
            == element_attr(selected_elements(html, selector)[0].element, attr),
        selected_elements(html, selector).len() == 0 ==> selected_attr(html, selector, attr) is None,
{
}

/// The count is the number of elements the selector picks, whatever they
/// hold: every picked element counts, an empty `br` as much as any other.
pub proof fn law_count_is_number_of_matches(html: Seq<char>, selector: Seq<char>)
    ensures
        match_count(html, selector) == selected_elements(html, selector).len(),
{
}

} // verus!
