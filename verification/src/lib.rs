//! An in-memory XML node graph: a store of elements, attributes, text,
//! comments and processing instructions, linked into trees under root nodes,
//! with namespace resolution and sibling traversal.
//!
//! A [`Storage`] allocates the nodes and hands out handles; a [`Connections`]
//! links them under one root. The contract of every operation is stated over
//! the store's mathematical value, a [`graph::Graph`]. A store always
//! satisfies the tree invariant [`graph::Graph::wf`]; what follows from it is
//! proved in [`laws`].

pub mod interned;
pub mod nodes;
pub mod graph;
pub mod proofs;
pub mod storage;
pub mod links;
pub mod connections;
pub mod siblings;
pub mod namespaces;
pub mod laws;

pub use crate::connections::{Connections, ToChildOfElement, ToChildOfRoot};
pub use crate::interned::{QName, ToQName};
pub use crate::namespaces::{NamespacesInScope, XML_NS_PREFIX, XML_NS_URI};
pub use crate::nodes::{
    Attribute, AttributeHandle, ChildOfElement, ChildOfRoot, Comment, CommentHandle, Element,
    ElementHandle, ParentOfChild, ProcessingInstruction, ProcessingInstructionHandle, Root,
    RootHandle, Text, TextHandle,
};
pub use crate::siblings::SiblingIter;
pub use crate::storage::Storage;
