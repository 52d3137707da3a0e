//! The DOM data model: nodes in an arena, addressed by stable indices.
//!
//! Owning forward links (`first_child`, `next_sibling`) always point to
//! nodes allocated later, so the links form a tree with no cycles; the
//! backward links (`parent`, `previous_sibling`, `last_child`) are for
//! traversal only. Exactly one Document node exists per tree, at index 0,
//! and it has no parent. `window_wf` states all of this and every mutation
//! preserves it.

use vstd::prelude::*;

use crate::html::attribute::Attribute;
use crate::html::attribute::AttrV;
use crate::html::attribute::attrs_view;
use crate::html::attribute::clone_attrs;
use crate::text::str_eq;
use crate::text::push_char;

verus! {

/// The closed set of element names this engine recognizes, so that the
/// tree builder can compare elements without comparing strings.
#[derive(Debug, Clone, Copy, PartialEq, Eq, Structural)]
pub enum ElementKind {
    Html,
    Head,
    Style,
    Script,
    Body,
    P,
    H1,
    H2,
    A,
}

/// The element kind a lowercase tag name stands for, if any.
pub open spec fn kind_from_tag(t: Seq<char>) -> Option<ElementKind> {
    if t == "html"@ {
        Some(ElementKind::Html)
    } else if t == "head"@ {
        Some(ElementKind::Head)
    } else if t == "style"@ {
        Some(ElementKind::Style)
    } else if t == "script"@ {
        Some(ElementKind::Script)
    } else if t == "body"@ {
        Some(ElementKind::Body)
    } else if t == "p"@ {
        Some(ElementKind::P)
    } else if t == "h1"@ {
        Some(ElementKind::H1)
    } else if t == "h2"@ {
        Some(ElementKind::H2)
    } else if t == "a"@ {
        Some(ElementKind::A)
    } else {
        None
    }
}

/// Classifies a tag name, as `kind_from_tag` says.
pub fn element_kind_of(tag: &str) -> (r: Option<ElementKind>)
    ensures
        r == kind_from_tag(tag@),
{
    if str_eq(tag, "html") {
        Some(ElementKind::Html)
    } else if str_eq(tag, "head") {
        Some(ElementKind::Head)
    } else if str_eq(tag, "style") {
        Some(ElementKind::Style)
    } else if str_eq(tag, "script") {
        Some(ElementKind::Script)
    } else if str_eq(tag, "body") {
        Some(ElementKind::Body)
    } else if str_eq(tag, "p") {
        Some(ElementKind::P)
    } else if str_eq(tag, "h1") {
        Some(ElementKind::H1)
    } else if str_eq(tag, "h2") {
        Some(ElementKind::H2)
    } else if str_eq(tag, "a") {
        Some(ElementKind::A)
    } else {
        None
    }
}

pub struct ElementV {
    pub kind: ElementKind,
    pub attributes: Seq<AttrV>,
}

#[derive(Debug, PartialEq, Eq)]
pub struct Element {
    kind: ElementKind,
    attributes: Vec<Attribute>,
}

impl View for Element {
    type V = ElementV;

    closed spec fn view(&self) -> ElementV {
        ElementV { kind: self.kind, attributes: attrs_view(self.attributes@) }
    }
}

impl Clone for Element {
    fn clone(&self) -> (r: Self)
        ensures
            r@ == self@,
    {
        Element { kind: self.kind, attributes: clone_attrs(&self.attributes) }
    }
}

impl Element {
    /// Builds an element from a recognized tag name, caching its kind.
    pub fn new(tag: &str, attributes: Vec<Attribute>) -> (r: Self)
        requires
            kind_from_tag(tag@) is Some,
        ensures
            r@.kind == kind_from_tag(tag@)->0,
            r@.attributes == attrs_view(attributes@),
    {
        // the precondition rules the fallback arm out
        let kind = match element_kind_of(tag) {
            Some(k) => k,
            None => ElementKind::Html,
        };
        Element { kind, attributes }
    }

    pub fn kind(&self) -> (r: ElementKind)
        ensures
            r == self@.kind,
    {
        self.kind
    }
}

pub enum NodeKindV {
    Document,
    Element(ElementV),
    Text(Seq<char>),
}

#[derive(Debug, PartialEq, Eq)]
pub enum NodeKind {
    Document,
    Element(Element),
    Text(String),
}

impl View for NodeKind {
    type V = NodeKindV;

    open spec fn view(&self) -> NodeKindV {
        match self {
            NodeKind::Document => NodeKindV::Document,
            NodeKind::Element(e) => NodeKindV::Element(e@),
            NodeKind::Text(s) => NodeKindV::Text(s@),
        }
    }
}

impl Clone for NodeKind {
    fn clone(&self) -> (r: Self)
        ensures
            r@ == self@,
    {
        match self {
            NodeKind::Document => NodeKind::Document,
            NodeKind::Element(e) => NodeKind::Element(e.clone()),
            NodeKind::Text(s) => NodeKind::Text(s.clone()),
        }
    }
}

/// A node's view: its kind and its links, as arena indices.
pub struct NodeV {
    pub kind: NodeKindV,
    pub parent: Option<int>,
    pub first_child: Option<int>,
    pub last_child: Option<int>,
    pub previous_sibling: Option<int>,
    pub next_sibling: Option<int>,
}

/// An index option, widened for the mathematical model.
pub open spec fn li(o: Option<usize>) -> Option<int> {
    match o {
        Some(x) => Some(x as int),
        None => None,
    }
}

#[derive(Debug, PartialEq, Eq)]
pub struct Node {
    pub kind: NodeKind,
    pub parent: Option<usize>,
    pub first_child: Option<usize>,
    pub last_child: Option<usize>,
    pub previous_sibling: Option<usize>,
    pub next_sibling: Option<usize>,
}

impl View for Node {
    type V = NodeV;

    open spec fn view(&self) -> NodeV {
        NodeV {
            kind: self.kind@,
            parent: li(self.parent),
            first_child: li(self.first_child),
            last_child: li(self.last_child),
            previous_sibling: li(self.previous_sibling),
            next_sibling: li(self.next_sibling),
        }
    }
}

impl Clone for Node {
    fn clone(&self) -> (r: Self)
        ensures
            r@ == self@,
    {
        Node {
            kind: self.kind.clone(),
            parent: self.parent,
            first_child: self.first_child,
            last_child: self.last_child,
            previous_sibling: self.previous_sibling,
            next_sibling: self.next_sibling,
        }
    }
}

impl Node {
    /// A fresh unlinked node.
    pub fn new(kind: NodeKind) -> (r: Self)
        ensures
            r@ == (NodeV {
                kind: kind@,
                parent: None,
                first_child: None,
                last_child: None,
                previous_sibling: None,
                next_sibling: None,
            }),
    {
        Node {
            kind,
            parent: None,
            first_child: None,
            last_child: None,
            previous_sibling: None,
            next_sibling: None,
        }
    }

    /// The element kind, for element nodes.
    pub fn element_kind(&self) -> (r: Option<ElementKind>)
        ensures
            r == nv_element_kind(self@),
    {
        match &self.kind {
            NodeKind::Element(e) => Some(e.kind()),
            _ => None,
        }
    }
}

/// The element kind a node carries, if it is an element.
pub open spec fn nv_element_kind(n: NodeV) -> Option<ElementKind> {
    match n.kind {
        NodeKindV::Element(e) => Some(e.kind),
        _ => None,
    }
}

pub open spec fn node_links_ok(w: Seq<NodeV>, i: int) -> bool {
    let n = w[i];
    &&& (n.first_child matches Some(j) ==> i < j < w.len() && w[j].parent == Some(i))
    &&& (n.next_sibling matches Some(j) ==> i < j < w.len() && w[j].parent == w[i].parent)
    &&& (n.last_child matches Some(j) ==> i < j < w.len())
    &&& (n.parent matches Some(j) ==> 0 <= j < i)
    &&& (n.previous_sibling matches Some(j) ==> 0 <= j < i)
}

/// Well-formed tree: the document sits alone at the root, owning links go
/// strictly forward, backward links strictly backward.
pub open spec fn window_wf(w: Seq<NodeV>) -> bool {
    &&& w.len() >= 1
    &&& w[0].kind is Document
    &&& w[0].parent is None
    &&& w[0].previous_sibling is None
    &&& w[0].next_sibling is None
    &&& forall|i: int| 1 <= i < w.len() ==> !(#[trigger] w[i].kind is Document)
    &&& forall|i: int| 0 <= i < w.len() ==> node_links_ok(w, i)
}

/// The end of a sibling chain, following forward links only.
pub open spec fn last_sibling(w: Seq<NodeV>, i: int) -> int
    decreases w.len() - i,
{
    if 0 <= i < w.len() && (w[i].next_sibling matches Some(j) && i < j < w.len()) {
        last_sibling(w, w[i].next_sibling->0)
    } else {
        i
    }
}

/// A node appended as the last child of `cur`: the new node goes to the end
/// of the arena, the sibling chain or the first-child slot is extended, and
/// the backward links are set.
pub open spec fn append_spec(w: Seq<NodeV>, cur: int, kv: NodeKindV) -> Seq<NodeV> {
    let nid = w.len() as int;
    if w[cur].first_child is None {
        let n = NodeV {
            kind: kv,
            parent: Some(cur),
            first_child: None,
            last_child: None,
            previous_sibling: None,
            next_sibling: None,
        };
        w.update(
            cur,
            NodeV { first_child: Some(nid), last_child: Some(nid), ..w[cur] },
        ).push(n)
    } else {
        let ls = last_sibling(w, w[cur].first_child->0);
        let n = NodeV {
            kind: kv,
            parent: Some(cur),
            first_child: None,
            last_child: None,
            previous_sibling: Some(ls),
            next_sibling: None,
        };
        let w2 = w.update(ls, NodeV { next_sibling: Some(nid), ..w[ls] });
        w2.update(cur, NodeV { last_child: Some(nid), ..w2[cur] }).push(n)
    }
}

/// Under well-formedness the chain's end lies in bounds and past its start.
pub proof fn lemma_last_sibling_bounds(w: Seq<NodeV>, i: int)
    requires
        window_wf(w),
        0 <= i < w.len(),
    ensures
        i <= last_sibling(w, i) < w.len(),
        w[last_sibling(w, i)].next_sibling is None,
    decreases w.len() - i,
{
    assert(node_links_ok(w, i));
    match w[i].next_sibling {
        Some(j) => {
            lemma_last_sibling_bounds(w, j);
        },
        None => {},
    }
}

/// Growing a text node's content changes no link, so the tree stays
/// well-formed and the document's children stay put.
pub proof fn lemma_text_update_wf(w: Seq<NodeV>, id: int, c: char)
    requires
        window_wf(w),
        0 <= id < w.len(),
        w[id].kind is Text,
    ensures
        ({
            let w9 = w.update(id, NodeV { kind: NodeKindV::Text(w[id].kind->Text_0.push(c)), ..w[id] });
            &&& window_wf(w9)
            &&& doc_one_child(w) ==> doc_one_child(w9)
        }),
{
    let w9 = w.update(id, NodeV { kind: NodeKindV::Text(w[id].kind->Text_0.push(c)), ..w[id] });
    assert(id != 0);
    assert(w9[0] == w[0]);
    assert forall|i: int| 0 <= i < w9.len() implies node_links_ok(w9, i) by {
        assert(node_links_ok(w, i));
    }
    assert forall|i: int| 1 <= i < w9.len() implies !(#[trigger] w9[i].kind is Document) by {
        if i != id {
            assert(w9[i] == w[i]);
        }
    }
    if doc_one_child(w) {
        match w[0].first_child {
            Some(c0) => {
                assert(node_links_ok(w, 0));
                assert(w9[c0].next_sibling == w[c0].next_sibling);
            },
            None => {},
        }
    }
}

/// Everything on a sibling chain hangs under the same parent.
pub proof fn lemma_last_sibling_parent(w: Seq<NodeV>, i: int)
    requires
        window_wf(w),
        0 <= i < w.len(),
    ensures
        w[last_sibling(w, i)].parent == w[i].parent,
    decreases w.len() - i,
{
    assert(node_links_ok(w, i));
    match w[i].next_sibling {
        Some(j) => {
            lemma_last_sibling_parent(w, j);
        },
        None => {},
    }
}

/// The document's root child, if there is one, has no sibling.
pub open spec fn doc_one_child(w: Seq<NodeV>) -> bool {
    w[0].first_child matches Some(c) ==> w[c].next_sibling is None
}

/// A node appended under an open element leaves the document's children
/// alone: only an append at the document itself can give it a new child.
pub proof fn lemma_append_keeps_one_child(w: Seq<NodeV>, cur: int, kv: NodeKindV)
    requires
        window_wf(w),
        1 <= cur < w.len(),
        doc_one_child(w),
    ensures
        doc_one_child(append_spec(w, cur, kv)),
        append_spec(w, cur, kv)[0].first_child == w[0].first_child,
{
    let w9 = append_spec(w, cur, kv);
    assert(node_links_ok(w, cur));
    assert(node_links_ok(w, 0));
    if w[cur].first_child is None {
    } else {
        let f = w[cur].first_child->0;
        lemma_last_sibling_bounds(w, f);
        lemma_last_sibling_parent(w, f);
        let ls = last_sibling(w, f);
        // the chain under cur hangs under cur, so the document's child is
        // not on it
        assert(w[ls].parent == Some(cur));
        match w[0].first_child {
            Some(c) => {
                assert(node_links_ok(w, 0));
                assert(w[c].parent == Some(0int));
                assert(ls != c);
            },
            None => {},
        }
    }
}

/// The whole document tree, owned through its arena.
#[derive(Debug, PartialEq, Eq)]
pub struct Window {
    nodes: Vec<Node>,
}

impl View for Window {
    type V = Seq<NodeV>;

    closed spec fn view(&self) -> Seq<NodeV> {
        self.nodes@.map_values(|n: Node| n@)
    }
}

impl Clone for Window {
    fn clone(&self) -> (r: Self)
        ensures
            r@ == self@,
    {
        let mut nodes: Vec<Node> = Vec::new();
        let mut i: usize = 0;
        while i < self.nodes.len()
            invariant
                i <= self.nodes@.len(),
                nodes@.map_values(|n: Node| n@) =~= self@.subrange(0, i as int),
            decreases self.nodes@.len() - i,
        {
            let ghost r0 = nodes@;
            nodes.push(self.nodes[i].clone());
            proof {
                assert(nodes@.map_values(|n: Node| n@) =~= r0.map_values(|n: Node| n@).push(
                    self.nodes@[i as int]@,
                ));
                assert(nodes@.map_values(|n: Node| n@) =~= self@.subrange(0, i + 1));
            }
            i = i + 1;
        }
        let r = Window { nodes };
        proof {
            assert(self@.subrange(0, self@.len() as int) =~= self@);
            assert(r@ =~= self@);
        }
        r
    }
}

impl Window {
    /// A tree holding only its document root.
    pub fn new() -> (r: Self)
        ensures
            r@ == seq![
                NodeV {
                    kind: NodeKindV::Document,
                    parent: None,
                    first_child: None,
                    last_child: None,
                    previous_sibling: None,
                    next_sibling: None,
                },
            ],
            window_wf(r@),
    {
        let mut nodes: Vec<Node> = Vec::new();
        nodes.push(Node::new(NodeKind::Document));
        let r = Window { nodes };
        proof {
            assert(r@ =~= seq![
                NodeV {
                    kind: NodeKindV::Document,
                    parent: None,
                    first_child: None,
                    last_child: None,
                    previous_sibling: None,
                    next_sibling: None,
                },
            ]);
        }
        r
    }

    /// The document root's index.
    pub fn document(&self) -> (r: usize)
        ensures
            r == 0,
    {
        0
    }

    pub fn len(&self) -> (r: usize)
        ensures
            r == self@.len(),
    {
        self.nodes.len()
    }

    /// The node at `id`, if the index is in bounds.
    pub fn node(&self, id: usize) -> (r: Option<&Node>)
        ensures
            match r {
                Some(n) => id < self@.len() && n@ == self@[id as int],
                None => id >= self@.len(),
            },
    {
        if id < self.nodes.len() {
            Some(&self.nodes[id])
        } else {
            None
        }
    }

    pub fn first_child(&self, id: usize) -> (r: Option<usize>)
        ensures
            id < self@.len() ==> li(r) == self@[id as int].first_child,
            id >= self@.len() ==> r is None,
    {
        if id < self.nodes.len() {
            self.nodes[id].first_child
        } else {
            None
        }
    }

    pub fn next_sibling(&self, id: usize) -> (r: Option<usize>)
        ensures
            id < self@.len() ==> li(r) == self@[id as int].next_sibling,
            id >= self@.len() ==> r is None,
    {
        if id < self.nodes.len() {
            self.nodes[id].next_sibling
        } else {
            None
        }
    }

    /// The element kind of the node at `id`, if it is an element.
    pub fn element_kind(&self, id: usize) -> (r: Option<ElementKind>)
        ensures
            id < self@.len() ==> r == nv_element_kind(self@[id as int]),
            id >= self@.len() ==> r is None,
    {
        if id < self.nodes.len() {
            self.nodes[id].element_kind()
        } else {
            None
        }
    }

    /// The end of the sibling chain starting at `start`.
    fn last_sibling_of(&self, start: usize) -> (r: usize)
        requires
            window_wf(self@),
            start < self@.len(),
        ensures
            r == last_sibling(self@, start as int),
            r < self@.len(),
    {
        let mut i = start;
        loop
            invariant
                window_wf(self@),
                start <= i < self@.len(),
                last_sibling(self@, start as int) == last_sibling(self@, i as int),
            decreases self@.len() - i,
        {
            proof {
                assert(node_links_ok(self@, i as int));
            }
            match self.nodes[i].next_sibling {
                Some(nx) => {
                    i = nx;
                },
                None => {
                    return i;
                },
            }
        }
    }

    /// Appends a node as the last child of `cur`, exactly as `append_spec`
    /// says, and reports the new node's index.
    pub fn append_node(&mut self, cur: usize, kind: NodeKind) -> (r: usize)
        requires
            window_wf(old(self)@),
            cur < old(self)@.len(),
            !(kind@ is Document),
        ensures
            final(self)@ == append_spec(old(self)@, cur as int, kind@),
            window_wf(final(self)@),
            r == old(self)@.len(),
            final(self)@.len() == old(self)@.len() + 1,
    {
        let ghost w0 = self@;
        let nid = self.nodes.len();
        let fc = self.nodes[cur].first_child;
        match fc {
            None => {
                let c = &self.nodes[cur];
                let newcur = Node {
                    kind: c.kind.clone(),
                    parent: c.parent,
                    first_child: Some(nid),
                    last_child: Some(nid),
                    previous_sibling: c.previous_sibling,
                    next_sibling: c.next_sibling,
                };
                self.nodes.set(cur, newcur);
                let mut n = Node::new(kind);
                n.parent = Some(cur);
                self.nodes.push(n);
                proof {
                    assert(self@ =~= append_spec(w0, cur as int, kind@));
                    lemma_append_wf(w0, cur as int, kind@);
                }
                nid
            },
            Some(f) => {
                proof {
                    assert(node_links_ok(w0, cur as int));
                }
                let ls = self.last_sibling_of(f);
                proof {
                    lemma_last_sibling_bounds(w0, f as int);
                }
                let lsn = &self.nodes[ls];
                let newls = Node {
                    kind: lsn.kind.clone(),
                    parent: lsn.parent,
                    first_child: lsn.first_child,
                    last_child: lsn.last_child,
                    previous_sibling: lsn.previous_sibling,
                    next_sibling: Some(nid),
                };
                self.nodes.set(ls, newls);
                let c = &self.nodes[cur];
                let newcur = Node {
                    kind: c.kind.clone(),
                    parent: c.parent,
                    first_child: c.first_child,
                    last_child: Some(nid),
                    previous_sibling: c.previous_sibling,
                    next_sibling: c.next_sibling,
                };
                self.nodes.set(cur, newcur);
                let mut n = Node::new(kind);
                n.parent = Some(cur);
                n.previous_sibling = Some(ls);
                self.nodes.push(n);
                proof {
                    assert(self@ =~= append_spec(w0, cur as int, kind@));
                    lemma_append_wf(w0, cur as int, kind@);
                }
                nid
            },
        }
    }

    /// Appends one character to the text node at `id`.
    pub fn append_text_char(&mut self, id: usize, c: char)
        requires
            window_wf(old(self)@),
            id < old(self)@.len(),
            old(self)@[id as int].kind is Text,
        ensures
            final(self)@ == old(self)@.update(
                id as int,
                NodeV { kind: NodeKindV::Text(old(self)@[id as int].kind->Text_0.push(c)), ..old(
                    self,
                )@[id as int] },
            ),
            window_wf(final(self)@),
    {
        let ghost w0 = self@;
        let n = &self.nodes[id];
        let mut s2 = match &n.kind {
            NodeKind::Text(s) => s.clone(),
            _ => String::new(),
        };
        push_char(&mut s2, c);
        let newn = Node {
            kind: NodeKind::Text(s2),
            parent: n.parent,
            first_child: n.first_child,
            last_child: n.last_child,
            previous_sibling: n.previous_sibling,
            next_sibling: n.next_sibling,
        };
        self.nodes.set(id, newn);
        proof {
            let w1 = self@;
            assert(w1 =~= w0.update(
                id as int,
                NodeV { kind: NodeKindV::Text(w0[id as int].kind->Text_0.push(c)), ..w0[id as int] },
            ));
            assert forall|i: int| 0 <= i < w1.len() implies node_links_ok(w1, i) by {
                assert(node_links_ok(w0, i));
            }
        }
    }
}

/// Appending preserves well-formedness: the fresh node's backward links
/// point into the old arena, and only forward slots of existing nodes gain
/// the fresh index.
pub proof fn lemma_append_wf(w: Seq<NodeV>, cur: int, kv: NodeKindV)
    requires
        window_wf(w),
        0 <= cur < w.len(),
        !(kv is Document),
    ensures
        window_wf(append_spec(w, cur, kv)),
{
    let nid = w.len() as int;
    let w9 = append_spec(w, cur, kv);
    if w[cur].first_child is None {
        assert forall|i: int| 0 <= i < w9.len() implies node_links_ok(w9, i) by {
            if i < nid {
                assert(node_links_ok(w, i));
            }
        }
    } else {
        assert(node_links_ok(w, cur));
        lemma_last_sibling_bounds(w, w[cur].first_child->0);
        lemma_last_sibling_parent(w, w[cur].first_child->0);
        let ls = last_sibling(w, w[cur].first_child->0);
        assert(w[ls].parent == Some(cur));
        assert forall|i: int| 0 <= i < w9.len() implies node_links_ok(w9, i) by {
            if i < nid {
                assert(node_links_ok(w, i));
            }
        }
        assert(ls >= w[cur].first_child->0);
        assert(w[cur].first_child->0 > cur);
    }
}

} // verus!
