//! DOM tree: the node arena and the search helper over it.

pub mod api;
pub mod node;
