//! The syntax tree that the rules read: statements with byte-offset spans
//! into the source text, reduced to the shapes that matter here.

use vstd::prelude::*;

verus! {

/// An expression, as far as the hook rule looks into one.
pub enum Expression {
    /// A call; its arguments are only counted.
    Call { func: Box<Expression>, arg_count: usize },
    /// An attribute access `value.attr`.
    Attribute { value: Box<Expression>, attr: String },
    /// A bare identifier.
    Name { id: String },
    /// Any other expression.
    Other,
}

/// What a statement is.
pub enum StatementKind {
    /// A function or method definition. `name_start` is the byte offset of
    /// its name, which lies on the `def` line.
    FunctionDef { name: String, name_start: usize, body: Vec<Statement> },
    /// A class definition.
    ClassDef { body: Vec<Statement> },
    /// An expression statement.
    Expression { value: Expression },
    /// The no-op placeholder `pass`.
    Pass,
    /// Any other statement.
    Other,
}

/// A statement with its byte-offset span `start..end` in the source text.
pub struct Statement {
    pub start: usize,
    pub end: usize,
    pub kind: StatementKind,
}

/// The function definitions that the walk reaches, in document order: those
/// among `stmts` and, recursively, in the bodies of classes among them.
pub open spec fn methods(stmts: Seq<Statement>) -> Seq<Statement>
    decreases stmts,
{
    if stmts.len() == 0 {
        seq![]
    } else {
        methods(stmts.drop_last()) + stmt_methods(stmts.last())
    }
}

/// The function definitions that the walk reaches in one statement.
pub open spec fn stmt_methods(s: Statement) -> Seq<Statement>
    decreases s,
{
    match s.kind {
        StatementKind::FunctionDef { .. } => seq![s],
        StatementKind::ClassDef { body } => methods(body@),
        _ => seq![],
    }
}

} // verus!
