//! Reading Python source text with ruff's parser, and converting ruff's tree
//! into the tree that the rules read.

use vstd::prelude::*;
use vstd::string::StringSliceAdditionalSpecFns;
use ruff_text_size::Ranged;
use crate::tree;

verus! {

#[verifier::external_type_specification]
#[verifier::external_body]
pub struct ExStmt(ruff_python_ast::Stmt);

#[verifier::external_type_specification]
#[verifier::external_body]
pub struct ExExpr(ruff_python_ast::Expr);

/// The module that ruff's parser reads from the text `s`, converted one for
/// one into the tree that the rules read; `None` where the parser reports a
/// syntax error.
pub uninterp spec fn parsed_module(s: Seq<char>) -> Option<Seq<tree::Statement>>;

/// Relies on `ruff_python_parser::parse_module`, which returns `Ok` exactly
/// when it found no syntax error, and on `Parsed::syntax` for the module's
/// statements, converted by `convert_stmt`. The lexer asserts that the text
/// fits `u32` offsets.
#[verifier::external_body]
fn parse_python(src: &str) -> (r: Option<Vec<tree::Statement>>)
    requires
        src.spec_bytes().len() <= u32::MAX,
    ensures
        match r {
            Some(t) => parsed_module(src@) == Some(t@),
            None => parsed_module(src@) is None,
        },
{
    match ruff_python_parser::parse_module(src) {
        Ok(parsed) => Some(parsed.syntax().body.iter().map(convert_stmt).collect()),
        Err(_) => None,
    }
}

/// The conversion that `parse_python` applies to each statement: one arm per
/// variant of ruff's `Stmt` that the rules read, relying on
/// `Identifier::as_str` for a function's name and on `Ranged::start` and
/// `Ranged::end` for byte offsets.
#[verifier::external_body]
fn convert_stmt(s: &ruff_python_ast::Stmt) -> tree::Statement {
    let kind = match s {
        ruff_python_ast::Stmt::FunctionDef(f) => tree::StatementKind::FunctionDef {
            name: f.name.as_str().to_string(),
            name_start: f.name.start().to_usize(),
            body: f.body.iter().map(convert_stmt).collect(),
        },
        ruff_python_ast::Stmt::ClassDef(c) => tree::StatementKind::ClassDef {
            body: c.body.iter().map(convert_stmt).collect(),
        },
        ruff_python_ast::Stmt::Expr(e) => tree::StatementKind::Expression { value: convert_expr(&e.value) },
        ruff_python_ast::Stmt::Pass(_) => tree::StatementKind::Pass,
        _ => tree::StatementKind::Other,
    };
    tree::Statement { start: s.start().to_usize(), end: s.end().to_usize(), kind }
}

/// The conversion that `convert_stmt` applies to an expression: one arm per
/// variant of ruff's `Expr` that the rules read, relying on `Arguments::len`
/// (positional and keyword arguments together) and on `as_str` of
/// identifiers and names.
#[verifier::external_body]
fn convert_expr(e: &ruff_python_ast::Expr) -> tree::Expression {
    match e {
        ruff_python_ast::Expr::Call(c) => tree::Expression::Call {
            func: Box::new(convert_expr(&c.func)),
            arg_count: c.arguments.len(),
        },
        ruff_python_ast::Expr::Attribute(a) => tree::Expression::Attribute {
            value: Box::new(convert_expr(&a.value)),
            attr: a.attr.as_str().to_string(),
        },
        ruff_python_ast::Expr::Name(n) => tree::Expression::Name { id: n.id.as_str().to_string() },
        _ => tree::Expression::Other,
    }
}

/// Parses Python source text into the tree that the rules read: `None`
/// where ruff's parser reports a syntax error, or the text is longer than
/// its 32-bit offsets reach.
pub fn parse_source(src: &str) -> (r: Option<Vec<tree::Statement>>)
    ensures
        src.spec_bytes().len() > u32::MAX ==> r is None,
        src.spec_bytes().len() <= u32::MAX ==> match r {
            Some(t) => parsed_module(src@) == Some(t@),
            None => parsed_module(src@) is None,
        },
{
    if src.as_bytes().len() > u32::MAX as usize {
        return None;
    }
    parse_python(src)
}

} // verus!
