//! A minimal model of the expression syntax that dynamic-import rewriting
//! reads and produces. A node is addressed by an index path from the tree
//! root; a code-generation visitor mutates exactly the node at its path.

use vstd::prelude::*;

verus! {

/// An expression node.
pub enum Expr {
    /// A string literal.
    Lit(String),
    /// An identifier.
    Ident(String),
    /// A numeric literal (used for internal module ids).
    Num(u64),
    /// A member access: `obj.prop`.
    Member(Box<Expr>, String),
    /// A call of a callee expression with a single argument.
    Call(Box<Expr>, Box<Expr>),
    /// A dynamic import call: `import(args...)`; the callee is the `import`
    /// keyword itself, not an expression.
    ImportCall(Vec<ExprOrSpread>),
    /// A constructor call with a single argument: `new ctor(arg)`.
    New(Box<Expr>, Box<Expr>),
    /// String concatenation: `a + b`.
    Concat(Box<Expr>, Box<Expr>),
}

/// One element of an argument list, possibly spread (`...expr`).
pub struct ExprOrSpread {
    pub spread: bool,
    pub expr: Expr,
}

/// A stable coordinate into a syntax tree: the child index to take at each
/// level, starting from the root.
pub type AstPath = Vec<usize>;

/// `e` is the string literal with text `s`.
pub open spec fn is_lit(e: Expr, s: Seq<char>) -> bool {
    e matches Expr::Lit(t) && t@ == s
}

/// `e` is the identifier named `s`.
pub open spec fn is_ident(e: Expr, s: Seq<char>) -> bool {
    e matches Expr::Ident(t) && t@ == s
}

/// The argument list of a dynamic import call (empty for any other node).
pub open spec fn import_args(e: Expr) -> Seq<ExprOrSpread> {
    match e {
        Expr::ImportCall(args) => args@,
        _ => Seq::empty(),
    }
}

} // verus!
