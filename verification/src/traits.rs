use vstd::prelude::*;

use crate::node::Node;

verus! {

/// Helper trait to transform a struct into key-value pairs for the
/// attributes of a [`Node`].
pub trait IntoAttributes {
    /// Gets the key-value pairs, in the order they are to be bound.
    fn to_attributes(&self) -> Vec<(String, String)>;
}

/// Helper trait to transform a struct into nodes for the childs of a
/// [`Node`].
pub trait IntoChilds {
    /// Gets the nodes, in document order.
    fn to_childs(&self) -> Vec<Node>;
}

} // verus!
