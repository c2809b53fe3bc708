//! An in-memory tree of markup nodes: each node carries text, a comment, or
//! an element (tag name plus attributes), together with its ordered children.
//! The library offers a shallow debug rendering of a single node and a
//! recursive, indenting pretty-printer over whole trees, both with proved
//! contracts.

pub mod tree;
pub mod printer;
