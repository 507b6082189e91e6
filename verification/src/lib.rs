//! Whole-program constant-prop analysis and rewrite for a component-based
//! reactive UI format.
//!
//! Components declare props; call sites supply prop values either as plain
//! references or wrapped in reactive accessors carrying explicit dependency
//! arrays.  The pass discovers every component definition and call site,
//! propagates constancy to a fixpoint, and then rewrites the tree: dependency
//! arrays are pruned of provably-constant entries, useless reactive wrappers
//! are unwrapped, and reads of never-supplied props are folded away.
//!
//! The pass works on a tree of plain values: identifiers arrive already
//! resolved to stable numeric bindings, and every node the pass does not
//! recognize is carried as an opaque node whose children are still traversed.
//! Parsing, code generation and the host plugin protocol stay with the host
//! pipeline.

pub mod ast;
pub mod text;
pub mod registry;
pub mod prune;
pub mod analysis;
pub mod discover;
pub mod rewrite;
pub mod pass;
