//! The tree model the pass runs on.
//!
//! Identifiers are resolved bindings, represented by a stable numeric id.
//! Member keys and object keys are interned symbol ids drawn from the same
//! space.  String literals and comment texts are sequences of characters.
//! Any node shape the pass does not inspect is an opaque node: it keeps a
//! host-side token so the surrounding pipeline can map it back, together
//! with its child expressions and statements, which the rewrite still
//! traverses.

use vstd::prelude::*;

verus! {

/// Marker found in the leading comment of a dependency-array literal,
/// selecting which pruning/rewrite strategy applies to that array.
#[derive(Debug, PartialEq, Eq, Clone, Copy)]
pub enum Annotation {
    /// No recognized marker: the array gets generic traversal only.
    Plain,
    EffectDeps,
    ImmediateEffectDeps,
    StateDeps,
    DynamicAttrs,
    DynamicViewDeps,
}

/// One argument of a call, or one present element of an array literal.
#[derive(Debug, PartialEq)]
pub struct Arg {
    /// True when the argument is spread into the call or array.
    pub spread: bool,
    pub expr: Expr,
}

/// One property of an object literal.
#[derive(Debug, PartialEq)]
pub enum ObjProp {
    /// `key: value` with a plain identifier key (an interned symbol).
    KeyValue { key: u64, value: Expr },
    /// Any other property shape (shorthand, spread, computed key).
    OpaqueProp { token: u64, children: Vec<Expr> },
}

/// An expression.
#[derive(Debug, PartialEq)]
pub enum Expr {
    /// A reference to a resolved binding.
    Ident { id: u64 },
    /// A string literal.
    Str { text: Vec<char> },
    /// `obj.key` with a plain identifier key (an interned symbol).
    Member { obj: Box<Expr>, key: u64 },
    /// `left || right`.
    Or { left: Box<Expr>, right: Box<Expr> },
    /// `test ? cons : alt`.
    Cond { test: Box<Expr>, cons: Box<Expr>, alt: Box<Expr> },
    /// A call; elements of `args` are in source order.
    Call { callee: Box<Expr>, args: Vec<Arg> },
    /// An array literal; a `None` element is an elision.  `note` holds the
    /// text of the first leading comment, when there is one.
    Array { elems: Vec<Option<Arg>>, note: Option<Vec<char>> },
    /// An object literal.
    Object { props: Vec<ObjProp> },
    /// A function expression; only the body statements are inspected.
    Func { body: Vec<Stmt> },
    /// The `undefined` sentinel the rewrite writes for a folded prop read.
    Undef,
    /// The `false` literal the rewrite writes for a folded default.
    FalseLit,
    /// Any other expression, with its child expressions in order.
    Opaque { token: u64, children: Vec<Expr> },
}

/// One declarator of a variable declaration.
#[derive(Debug, PartialEq)]
pub struct Declarator {
    /// The bound identifier, when the pattern is a plain binding.
    pub name: Option<u64>,
    pub init: Option<Expr>,
}

/// A statement.
#[derive(Debug, PartialEq)]
pub enum Stmt {
    /// An expression statement (also carries directive strings).
    ExprStmt { expr: Expr },
    /// A variable declaration.
    VarDecl { decls: Vec<Declarator> },
    /// `return`, with its optional argument.
    Ret { arg: Option<Expr> },
    /// Any other statement, with its child expressions and statements.
    OpaqueStmt { token: u64, exprs: Vec<Expr>, stmts: Vec<Stmt> },
}

/// One compilation unit.
#[derive(Debug, PartialEq)]
pub struct Program {
    pub body: Vec<Stmt>,
}

} // verus!
