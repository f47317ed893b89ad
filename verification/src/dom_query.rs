//! Queries on parsed trees: element names, attribute lookup and the
//! concatenated text of a subtree.

use vstd::prelude::*;

use crate::chars::{chars_eq, chars_eq_str, chars_of};
use crate::dom::{attr_view, attrs_view, lemma_node_trees, node_trees, Attr, AttrView, DomNode, DomTree, NodeView};

verus! {

/// Whether `t` is an element whose local name is `name`.
pub open spec fn is_named(t: DomTree, name: Seq<char>) -> bool {
    t.data.element matches Some(e) && e.0 == name
}

/// The local name of the element `t`; empty when `t` is no element.
pub open spec fn element_name(t: DomTree) -> Seq<char> {
    match t.data.element {
        Some(e) => e.0,
        None => Seq::empty(),
    }
}

/// The value of the attribute `name` that has no namespace, as
/// `scraper::node::Element::attr` looks it up.
pub open spec fn attr_value(attrs: Seq<AttrView>, name: Seq<char>) -> Option<Seq<char>>
    decreases attrs.len(),
{
    if attrs.len() == 0 {
        None
    } else if attrs[0].namespace.len() == 0 && attrs[0].name == name {
        Some(attrs[0].value)
    } else {
        attr_value(attrs.drop_first(), name)
    }
}

/// The attribute `name` of the element `t`; `None` when `t` is no element.
pub open spec fn element_attr(t: DomTree, name: Seq<char>) -> Option<Seq<char>> {
    match t.data.element {
        Some(e) => attr_value(e.1, name),
        None => None,
    }
}

/// The text that a node holds itself: a text node's text, else nothing.
pub open spec fn own_text(d: NodeView) -> Seq<char> {
    match d.text {
        Some(s) => s,
        None => Seq::empty(),
    }
}

/// The text of all text nodes in `t`, in document order
/// (`ElementRef::text` concatenated).
pub open spec fn text_content(t: DomTree) -> Seq<char>
    decreases t,
{
    own_text(t.data) + text_content_list(t.children)
}

pub open spec fn text_content_list(ts: Seq<DomTree>) -> Seq<char>
    decreases ts,
{
    if ts.len() == 0 {
        Seq::empty()
    } else {
        text_content_list(ts.drop_last()) + text_content(ts.last())
    }
}

/// Whether `n` is an element named `lit`.
pub fn node_is_named(n: &DomNode, lit: &str) -> (r: bool)
    ensures
        r == is_named(n@, lit@),
{
    match &n.data.element {
        Some(e) => {
            let name = chars_of(e.0.as_str());
            chars_eq_str(&name, lit)
        },
        None => false,
    }
}

/// Looks up the attribute `name` that has no namespace.
pub fn find_attr(attrs: &Vec<Attr>, name: &Vec<char>) -> (r: Option<String>)
    ensures
        match r {
            Some(v) => attr_value(attrs_view(attrs@), name@) == Some(v@),
            None => attr_value(attrs_view(attrs@), name@) is None,
        },
{
    let ghost all = attrs_view(attrs@);
    assert(all.skip(0) == all);
    let mut i: usize = 0;
    while i < attrs.len()
        invariant
            all == attrs_view(attrs@),
            all.len() == attrs@.len(),
            i <= attrs@.len(),
            attr_value(all, name@) == attr_value(all.skip(i as int), name@),
        decreases attrs@.len() - i,
    {
        let a = &attrs[i];
        let ghost rest = all.skip(i as int);
        assert(rest[0] == attr_view(attrs@[i as int]));
        assert(rest.drop_first() == all.skip(i + 1));
        if a.0.as_str().is_empty() {
            let key = chars_of(a.1.as_str());
            if chars_eq(&key, name) {
                return Some(a.2.clone());
            }
        }
        i = i + 1;
    }
    assert(all.skip(attrs@.len() as int).len() == 0);
    None
}

/// Looks up the attribute `name` (no namespace) of the element `n`.
pub fn node_attr(n: &DomNode, name: &Vec<char>) -> (r: Option<String>)
    ensures
        match r {
            Some(v) => element_attr(n@, name@) == Some(v@),
            None => element_attr(n@, name@) is None,
        },
{
    match &n.data.element {
        Some(e) => find_attr(&e.1, name),
        None => None,
    }
}

/// Appends the text of all text nodes in `n` to `out`.
pub fn push_text_content(n: &DomNode, out: &mut Vec<char>)
    ensures
        final(out)@ == old(out)@ + text_content(n@),
    decreases n,
{
    let ghost start = out@;
    match &n.data.text {
        Some(s) => {
            let mut v = chars_of(s.as_str());
            out.append(&mut v);
        },
        None => {},
    }
    let ghost mid = out@;
    let ghost cs = n@.children;
    proof {
        lemma_node_trees(n.children@);
        assert(cs.take(0) == Seq::<DomTree>::empty());
    }
    for i in 0..n.children.len()
        invariant
            cs == node_trees(n.children@),
            cs.len() == n.children@.len(),
            forall|j: int| 0 <= j < cs.len() ==> cs[j] == #[trigger] n.children@[j]@,
            out@ == mid + text_content_list(cs.take(i as int)),
    {
        proof {
            assert(decreases_to!(*n => n.children));
            assert(decreases_to!(n.children => n.children@));
            assert(decreases_to!(n.children@ => n.children@[i as int]));
        }
        push_text_content(&n.children[i], out);
        assert(cs.take(i + 1).drop_last() == cs.take(i as int));
    }
    assert(cs.take(cs.len() as int) == cs);
}

/// The text of all text nodes in `n`, in document order.
pub fn text_of(n: &DomNode) -> (r: Vec<char>)
    ensures
        r@ == text_content(n@),
{
    let mut out: Vec<char> = Vec::new();
    push_text_content(n, &mut out);
    assert(out@ == Seq::<char>::empty() + text_content(n@));
    out
}

} // verus!
