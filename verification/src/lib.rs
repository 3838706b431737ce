//! Tree abstraction on top of the XML reader/writer of the `quick-xml`
//! crate.
//!
//! A document is materialized as a [`node::Node`]: a tree of named elements
//! carrying text content, an attribute mapping and ordered childs.  The
//! read path reduces a flat sequence of parse events into one tree with an
//! explicit stack, in a single pass ([`parse`]); the write path flattens a
//! tree back into an equivalent event sequence ([`write`]).  Both
//! directions are specified against the common mathematical [`model`], and
//! [`laws`] proves that the reduction inverts the flattening.

/// Association-list model of a node's attribute mapping.
pub mod attrs;
/// Trusted boundary to the `quick-xml` tokenizer and writer.
mod backend;
/// Error management module.
pub mod error;
/// Decoded parse events, the input of the tree builder.
pub mod event;
/// Laws relating the read path and the write path.
pub mod laws;
/// The mathematical model of the read and write paths.
pub mod model;
/// Contains helper traits to work with nodes.
pub mod traits;
/// High level representation of an XML DOM element.
pub mod node;
/// The event-to-tree reduction (read path).
pub mod parse;
/// The tree-to-event flattening (write path).
pub mod write;
