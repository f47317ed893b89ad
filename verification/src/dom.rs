//! A plain model of a parsed HTML tree.
//!
//! The parser hands the library a document as a stream of traversal events
//! (open a node, close a node), which is how `ego_tree` walks a tree. This
//! module holds the event and node types, their mathematical views, the
//! serialisation of a tree into events, and a verified decoder that rebuilds
//! the tree from its events.

use vstd::prelude::*;

verus! {

/// An attribute as the parser stores it: namespace URL, local name, value.
pub type Attr = (String, String, String);

/// An element as the parser stores it: local name and attributes.
pub type ElementData = (String, Vec<Attr>);

/// The view of an attribute.
pub struct AttrView {
    pub namespace: Seq<char>,
    pub name: Seq<char>,
    pub value: Seq<char>,
}

pub open spec fn attr_view(a: Attr) -> AttrView {
    AttrView { namespace: a.0@, name: a.1@, value: a.2@ }
}

pub open spec fn attrs_view(attrs: Seq<Attr>) -> Seq<AttrView> {
    attrs.map_values(|a: Attr| attr_view(a))
}

/// What a node holds: element data for an element, text for a text node,
/// neither for the document, doctypes, comments and processing instructions.
pub struct NodeData {
    pub element: Option<ElementData>,
    pub text: Option<String>,
}

/// The view of a node's data.
pub struct NodeView {
    pub element: Option<(Seq<char>, Seq<AttrView>)>,
    pub text: Option<Seq<char>>,
}

impl View for NodeData {
    type V = NodeView;

    open spec fn view(&self) -> NodeView {
        NodeView {
            element: match self.element {
                Some(e) => Some((e.0@, attrs_view(e.1@))),
                None => None,
            },
            text: match self.text {
                Some(t) => Some(t@),
                None => None,
            },
        }
    }
}

/// One step of a depth-first walk: a node is opened, or the most recently
/// opened node that is still open is closed.
pub enum DomEvent {
    Open(NodeData),
    Close,
}

pub enum EventView {
    Open(NodeView),
    Close,
}

impl View for DomEvent {
    type V = EventView;

    open spec fn view(&self) -> EventView {
        match self {
            DomEvent::Open(d) => EventView::Open(d@),
            DomEvent::Close => EventView::Close,
        }
    }
}

pub open spec fn event_views(events: Seq<DomEvent>) -> Seq<EventView> {
    events.map_values(|e: DomEvent| e@)
}

/// A node of a parsed document with its children in document order.
pub struct DomNode {
    pub data: NodeData,
    pub children: Vec<DomNode>,
}

/// The mathematical tree that a `DomNode` stands for.
pub struct DomTree {
    pub data: NodeView,
    pub children: Seq<DomTree>,
}

pub open spec fn node_tree(n: DomNode) -> DomTree
    decreases n,
{
    DomTree { data: n.data@, children: node_trees(n.children@) }
}

pub open spec fn node_trees(ns: Seq<DomNode>) -> Seq<DomTree>
    decreases ns,
{
    if ns.len() == 0 {
        Seq::empty()
    } else {
        node_trees(ns.drop_last()).push(node_tree(ns.last()))
    }
}

impl View for DomNode {
    type V = DomTree;

    open spec fn view(&self) -> DomTree {
        node_tree(*self)
    }
}

pub proof fn lemma_node_trees(ns: Seq<DomNode>)
    ensures
        node_trees(ns).len() == ns.len(),
        forall|i: int| 0 <= i < ns.len() ==> #[trigger] node_trees(ns)[i] == ns[i]@,
    decreases ns.len(),
{
    if ns.len() > 0 {
        lemma_node_trees(ns.drop_last());
    }
}

/// The events of a depth-first walk of `t`: open `t`, walk its children in
/// order, close `t`.
pub open spec fn events_of(t: DomTree) -> Seq<EventView>
    decreases t,
{
    seq![EventView::Open(t.data)] + events_of_list(t.children) + seq![EventView::Close]
}

/// The walks of the trees `ts`, one after the other.
pub open spec fn events_of_list(ts: Seq<DomTree>) -> Seq<EventView>
    decreases ts,
{
    if ts.len() == 0 {
        Seq::empty()
    } else {
        events_of(ts[0]) + events_of_list(ts.drop_first())
    }
}

pub proof fn lemma_events_of_list_concat(a: Seq<DomTree>, b: Seq<DomTree>)
    ensures
        events_of_list(a + b) == events_of_list(a) + events_of_list(b),
    decreases a.len(),
{
    if a.len() == 0 {
        assert(a + b == b);
    } else {
        assert((a + b).drop_first() == a.drop_first() + b);
        lemma_events_of_list_concat(a.drop_first(), b);
    }
}

pub proof fn lemma_events_of_list_single(t: DomTree)
    ensures
        events_of_list(seq![t]) == events_of(t),
{
    let e = seq![t].drop_first();
    assert(e == Seq::<DomTree>::empty());
    assert(events_of_list(e) == Seq::<EventView>::empty());
    assert(seq![t][0] == t);
    assert(events_of(t) + Seq::<EventView>::empty() == events_of(t));
}

/// The walk of a tree opens the tree first and closes it last.
pub proof fn lemma_events_of_shape(t: DomTree)
    ensures
        events_of(t).len() == events_of_list(t.children).len() + 2,
        events_of(t)[0] == EventView::Open(t.data),
        events_of(t).subrange(1, events_of(t).len() as int) == events_of_list(t.children) + seq![
            EventView::Close,
        ],
{
    let w = events_of(t);
    assert(w.subrange(1, w.len() as int) =~= events_of_list(t.children) + seq![EventView::Close]);
}

proof fn lemma_subrange_of_subrange<A>(s: Seq<A>, a: int, b: int, c: int, d: int)
    requires
        0 <= a <= b <= c <= d <= s.len(),
    ensures
        s.subrange(a, d).subrange(b - a, c - a) == s.subrange(b, c),
{
    assert(s.subrange(a, d).subrange(b - a, c - a) =~= s.subrange(b, c));
}

/// Splitting a list of trees at `i` splits its walk.
pub proof fn lemma_events_split(ts: Seq<DomTree>, i: int)
    requires
        0 <= i < ts.len(),
    ensures
        events_of_list(ts.take(i + 1)) == events_of_list(ts.take(i)) + events_of(ts[i]),
        events_of_list(ts.skip(i)) == events_of(ts[i]) + events_of_list(ts.skip(i + 1)),
{
    assert(ts.take(i + 1) == ts.take(i) + seq![ts[i]]);
    lemma_events_of_list_concat(ts.take(i), seq![ts[i]]);
    lemma_events_of_list_single(ts[i]);
    assert(ts.skip(i) == seq![ts[i]] + ts.skip(i + 1));
    lemma_events_of_list_concat(seq![ts[i]], ts.skip(i + 1));
}

/// A copy of a node's data.
pub fn copy_node_data(d: &NodeData) -> (r: NodeData)
    ensures
        r@ == d@,
{
    let element = match &d.element {
        Some(e) => {
            let mut attrs: Vec<Attr> = Vec::new();
            for i in 0..e.1.len()
                invariant
                    attrs@.len() == i,
                    i <= e.1@.len(),
                    forall|j: int| 0 <= j < i ==> #[trigger] attr_view(attrs@[j]) == attr_view(e.1@[j]),
            {
                let a = &e.1[i];
                attrs.push((a.0.clone(), a.1.clone(), a.2.clone()));
            }
            assert(attrs_view(attrs@) == attrs_view(e.1@));
            Some((e.0.clone(), attrs))
        },
        None => None,
    };
    let text = match &d.text {
        Some(t) => Some(t.clone()),
        None => None,
    };
    NodeData { element, text }
}

fn open_data(e: &DomEvent) -> (r: NodeData)
    requires
        e is Open,
    ensures
        EventView::Open(r@) == e@,
{
    match e {
        DomEvent::Open(d) => copy_node_data(d),
        DomEvent::Close => NodeData { element: None, text: None },
    }
}

fn is_open(e: &DomEvent) -> (r: bool)
    ensures
        r == (e is Open),
{
    match e {
        DomEvent::Open(_) => true,
        DomEvent::Close => false,
    }
}

fn decode_node(events: &Vec<DomEvent>, pos: usize, Ghost(t): Ghost<DomTree>) -> (r: (
    DomNode,
    usize,
))
    requires
        pos + events_of(t).len() <= events@.len(),
        event_views(events@).subrange(pos as int, pos + events_of(t).len()) == events_of(t),
    ensures
        r.0@ == t,
        r.1 == pos + events_of(t).len(),
    decreases t,
{
    // Reading the length makes its `usize` bound known to the proof.
    let _len = events.len();
    let ghost ev = event_views(events@);
    let ghost cs = t.children;
    let ghost end = pos + events_of(t).len();
    proof {
        lemma_events_of_shape(t);
        assert(ev.len() == events@.len());
        assert(ev[pos as int] == ev.subrange(pos as int, end)[0]);
        lemma_subrange_of_subrange(ev, pos as int, pos + 1, end, end);
    }
    let data = open_data(&events[pos]);
    let mut children: Vec<DomNode> = Vec::new();
    let mut p = pos + 1;
    proof {
        assert(cs.take(0) == Seq::<DomTree>::empty());
        assert(cs.skip(0) == cs);
        assert(events_of_list(Seq::<DomTree>::empty()) == Seq::<EventView>::empty());
    }
    while is_open(&events[p])
        invariant
            ev == event_views(events@),
            ev.len() == events@.len(),
            cs == t.children,
            end == pos + events_of(t).len(),
            end <= events@.len(),
            p < end,
            children@.len() <= cs.len(),
            p == pos + 1 + events_of_list(cs.take(children@.len() as int)).len(),
            node_trees(children@) == cs.take(children@.len() as int),
            ev.subrange(p as int, end) == events_of_list(cs.skip(children@.len() as int))
                + seq![EventView::Close],
        decreases cs.len() - children@.len(),
    {
        let ghost i = children@.len() as int;
        proof {
            assert(ev[p as int] == ev.subrange(p as int, end)[0]);
            if i == cs.len() {
                assert(cs.skip(i) == Seq::<DomTree>::empty());
                assert(events_of_list(cs.skip(i)) == Seq::<EventView>::empty());
                assert(ev.subrange(p as int, end)[0] == EventView::Close);
                assert(false);
            }
            lemma_events_split(cs, i);
            lemma_events_of_shape(cs[i]);
            let ci = events_of(cs[i]);
            let x = ev.subrange(p as int, end);
            let tail = events_of_list(cs.skip(i + 1)) + seq![EventView::Close];
            assert(x == (ci + events_of_list(cs.skip(i + 1))) + seq![EventView::Close]);
            assert(x =~= ci + tail);
            assert(x.len() == end - p);
            assert(p + ci.len() < end);
            assert(x.subrange(0, ci.len() as int) =~= ci);
            assert(x.subrange(ci.len() as int, end - p) =~= tail);
            lemma_subrange_of_subrange(ev, p as int, p as int, p + ci.len(), end);
            assert(decreases_to!(t => t.children));
            assert(decreases_to!(t.children => t.children[i]));
        }
        let (child, e) = decode_node(events, p, Ghost(cs[i]));
        proof {
            lemma_subrange_of_subrange(ev, p as int, e as int, end, end);
            assert(children@.push(child).drop_last() == children@);
            assert(cs.take(i + 1) == cs.take(i).push(cs[i]));
        }
        children.push(child);
        p = e;
    }
    proof {
        let i = children@.len() as int;
        assert(ev[p as int] == ev.subrange(p as int, end)[0]);
        if i < cs.len() {
            lemma_events_split(cs, i);
            lemma_events_of_shape(cs[i]);
            assert(ev.subrange(p as int, end)[0] == events_of(cs[i])[0]);
        }
        assert(cs.take(cs.len() as int) == cs);
        assert(cs.skip(cs.len() as int) == Seq::<DomTree>::empty());
        assert(events_of_list(cs.skip(i)) == Seq::<EventView>::empty());
        assert(ev.subrange(p as int, end) == seq![EventView::Close]);
        assert(node_trees(children@) == cs);
        assert(p + 1 <= end);
    }
    let node = DomNode { data, children };
    (node, p + 1)
}

/// Rebuilds the tree whose walk `events` is.
pub fn tree_from_events(events: &Vec<DomEvent>, Ghost(t): Ghost<DomTree>) -> (n: DomNode)
    requires
        event_views(events@) == events_of(t),
    ensures
        n@ == t,
{
    assert(event_views(events@).subrange(0, events_of(t).len() as int) == events_of(t));
    let (n, _) = decode_node(events, 0, Ghost(t));
    n
}

} // verus!
