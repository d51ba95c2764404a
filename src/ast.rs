use vstd::prelude::*;

verus! {

/// A type as written in a program: a bare name, or a quotation shape.
#[derive(Debug)]
pub enum TypeExpr {
    Word(String),
    Quotation { inputs: Vec<TypeExpr>, outputs: Vec<TypeExpr> },
}

/// A pattern of a branch: a catch-all that binds a name, or a constructor
/// with one sub-pattern per argument.
#[derive(Debug)]
pub enum Pattern {
    All(String),
    Constructor { name: String, arguments: Vec<Pattern> },
}

/// An expression of a body.
#[derive(Debug)]
pub enum Expr {
    /// A reference to a local binding, a constructor or a function.
    Word(String),
    /// A quotation literal with its declared inputs and its body.
    Quotation { inputs: Vec<TypeExpr>, quotation: Vec<Expr> },
    /// Pops a quotation value and applies its effect to the stack.
    Unquote,
}

/// A constructor of a data declaration.
#[derive(Debug)]
pub struct Constructor {
    pub name: String,
    pub argument_types: Vec<TypeExpr>,
}

/// One pattern-guarded equation of a definition.
#[derive(Debug)]
pub struct Branch {
    pub patterns: Vec<Pattern>,
    pub body: Vec<Expr>,
}

/// A top-level item of a program.
#[derive(Debug)]
pub enum TopLevel {
    Data { name: String, constructors: Vec<Constructor> },
    Def { name: String, inputs: Vec<TypeExpr>, outputs: Vec<TypeExpr>, branches: Vec<Branch> },
}

} // verus!
