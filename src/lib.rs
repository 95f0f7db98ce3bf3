//! Semantic analysis for a small expression-oriented language: the passes
//! that take an unresolved syntax tree to one where every name is bound to a
//! hierarchical identifier and every identifier has a concrete type, or a
//! diagnostic says why not.
//!
//! The passes, in the order `check::check` runs them:
//! - `item_namer`: identifiers for functions, type aliases and parameters,
//!   over all items before any body is looked at, so that bodies may refer to
//!   items declared later;
//! - `type_namer`: type annotations of items, resolved against the declared
//!   aliases;
//! - `expr_namer`: identifiers for blocks and local variables, and resolution
//!   of references (and of annotations) in function bodies, as `expr_spec`
//!   describes;
//! - `constraints`: the type relations the resolved tree states, recorded in a
//!   `graph::TypeGraph`;
//! - `concretifier`: each identifier whose type is inferred is solved in the
//!   graph, once, giving the `TypeMapping`.
//!
//! `naming` states what a run without diagnostics guarantees of the tree.
pub mod ast;
pub mod check;
pub mod concretifier;
pub mod constraints;
pub mod errors;
pub mod expr_namer;
pub mod expr_spec;
pub mod graph;
pub mod item_namer;
pub mod naming;
pub mod scope;
pub mod scoped_id;
pub mod token;
pub mod type_namer;
pub mod types;
