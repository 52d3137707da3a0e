//! Preorder search over the DOM tree.

use vstd::prelude::*;

use crate::dom::node::ElementKind;
use crate::dom::node::Window;
use crate::dom::node::li;
use crate::dom::node::node_links_ok;
use crate::dom::node::nv_element_kind;
use crate::dom::node::window_wf;
use crate::dom::node::NodeV;

verus! {

/// A link, kept only when it leads strictly forward and in bounds.
pub open spec fn fwd_link(o: Option<int>, i: int, len: int) -> Option<int> {
    match o {
        Some(j) => if i < j < len {
            Some(j)
        } else {
            None
        },
        None => None,
    }
}

/// The first node of the target kind: the node itself, else its children's
/// subtree, else its sibling chain — children before siblings.
pub open spec fn search_spec(w: Seq<NodeV>, node: Option<int>, k: ElementKind) -> Option<int>
    decreases (match node {
        Some(i) => w.len() - i,
        None => 0int,
    }),
{
    match node {
        None => None,
        Some(i) => {
            if !(0 <= i < w.len()) {
                None
            } else if nv_element_kind(w[i]) == Some(k) {
                Some(i)
            } else {
                let r1 = search_spec(w, fwd_link(w[i].first_child, i, w.len() as int), k);
                let r2 = search_spec(w, fwd_link(w[i].next_sibling, i, w.len() as int), k);
                if r1 is None && r2 is None {
                    None
                } else if r1 is None {
                    r2
                } else {
                    r1
                }
            }
        },
    }
}

/// Finds the first element of the wanted kind, searching the node, then its
/// children, then its siblings, exactly as `search_spec` says.
pub fn get_target_element_node(window: &Window, node: Option<usize>, element_kind: ElementKind) -> (r:
    Option<usize>)
    requires
        window_wf(window@),
    ensures
        li(r) == search_spec(window@, li(node), element_kind),
    decreases (match node {
        Some(i) => window@.len() - i,
        None => 0int,
    }),
{
    match node {
        None => None,
        Some(i) => {
            if i >= window.len() {
                return None;
            }
            let found = match window.element_kind(i) {
                Some(k) => k == element_kind,
                None => false,
            };
            if found {
                return Some(i);
            }
            proof {
                assert(node_links_ok(window@, i as int));
            }
            let result1 = get_target_element_node(window, window.first_child(i), element_kind);
            let result2 = get_target_element_node(window, window.next_sibling(i), element_kind);
            if result1.is_none() && result2.is_none() {
                None
            } else if result1.is_none() {
                result2
            } else {
                result1
            }
        },
    }
}

} // verus!
