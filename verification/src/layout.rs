//! Layout-tree node data: the hand-off structure a layout stage builds
//! over the DOM. Only the data model lives here; geometry and painting are
//! outside this crate.

use vstd::prelude::*;

use crate::dom::node::NodeKind;

verus! {

#[derive(Debug, Clone, Copy, PartialEq, Eq, Structural)]
pub enum LayoutObjectKind {
    Block,
    Inline,
    Text,
}

/// Computed style of a layout node. The style model of this engine is
/// still empty; the type anchors where computed properties will live.
#[derive(Debug, Clone, Copy, PartialEq, Eq, Structural)]
pub struct ComputeStyle {
}

impl ComputeStyle {
    pub fn new() -> (r: Self)
        ensures
            r == (ComputeStyle {  }),
    {
        ComputeStyle {  }
    }
}

#[derive(Debug, Clone, Copy, PartialEq, Eq, Structural)]
pub struct LayoutPoint {
    pub x: i64,
    pub y: i64,
}

impl LayoutPoint {
    pub fn new(x: i64, y: i64) -> (r: Self)
        ensures
            r == (LayoutPoint { x, y }),
    {
        LayoutPoint { x, y }
    }
}

#[derive(Debug, Clone, Copy, PartialEq, Eq, Structural)]
pub struct LayoutSize {
    pub width: i64,
    pub height: i64,
}

impl LayoutSize {
    pub fn new(width: i64, height: i64) -> (r: Self)
        ensures
            r == (LayoutSize { width, height }),
    {
        LayoutSize { width, height }
    }
}

/// One node of the layout tree: the DOM node's kind it was made from, its
/// links as indices into a layout arena, and its style and geometry.
#[derive(Debug)]
pub struct LayoutObject {
    pub kind: LayoutObjectKind,
    pub node: NodeKind,
    pub first_child: Option<usize>,
    pub next_sibling: Option<usize>,
    pub parent: Option<usize>,
    pub style: ComputeStyle,
    pub point: LayoutPoint,
    pub size: LayoutSize,
}

impl LayoutObject {
    /// A block-level layout node for a DOM node, with everything else at
    /// its starting value.
    pub fn new(node: NodeKind, parent: Option<usize>) -> (r: Self)
        ensures
            r.kind == LayoutObjectKind::Block,
            r.node@ == node@,
            r.first_child is None,
            r.next_sibling is None,
            r.parent == parent,
            r.style == (ComputeStyle {  }),
            r.point == (LayoutPoint { x: 0, y: 0 }),
            r.size == (LayoutSize { width: 0, height: 0 }),
    {
        Self {
            kind: LayoutObjectKind::Block,
            node,
            first_child: None,
            next_sibling: None,
            parent,
            style: ComputeStyle::new(),
            point: LayoutPoint::new(0, 0),
            size: LayoutSize::new(0, 0),
        }
    }

    pub fn kind(&self) -> (r: LayoutObjectKind)
        ensures
            r == self.kind,
    {
        self.kind
    }

    pub fn node_kind(&self) -> (r: &NodeKind)
        ensures
            r == &self.node,
    {
        &self.node
    }

    pub fn set_first_child(&mut self, first_child: Option<usize>)
        ensures
            final(self).first_child == first_child,
            final(self).kind == old(self).kind,
            final(self).node == old(self).node,
            final(self).next_sibling == old(self).next_sibling,
            final(self).parent == old(self).parent,
            final(self).style == old(self).style,
            final(self).point == old(self).point,
            final(self).size == old(self).size,
    {
        self.first_child = first_child;
    }

    pub fn first_child(&self) -> (r: Option<usize>)
        ensures
            r == self.first_child,
    {
        self.first_child
    }

    pub fn set_next_sibling(&mut self, next_sibling: Option<usize>)
        ensures
            final(self).next_sibling == next_sibling,
            final(self).kind == old(self).kind,
            final(self).node == old(self).node,
            final(self).first_child == old(self).first_child,
            final(self).parent == old(self).parent,
            final(self).style == old(self).style,
            final(self).point == old(self).point,
            final(self).size == old(self).size,
    {
        self.next_sibling = next_sibling;
    }

    pub fn next_sibling(&self) -> (r: Option<usize>)
        ensures
            r == self.next_sibling,
    {
        self.next_sibling
    }

    pub fn parent(&self) -> (r: Option<usize>)
        ensures
            r == self.parent,
    {
        self.parent
    }

    pub fn style(&self) -> (r: ComputeStyle)
        ensures
            r == self.style,
    {
        self.style
    }

    pub fn point(&self) -> (r: LayoutPoint)
        ensures
            r == self.point,
    {
        self.point
    }

    pub fn size(&self) -> (r: LayoutSize)
        ensures
            r == self.size,
    {
        self.size
    }
}

} // verus!
