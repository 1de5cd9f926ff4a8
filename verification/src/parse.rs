//! Parsing: Python source text to the statement model.
//!
//! The parser is rustpython_parser. Its syntax tree is reduced, variant
//! by variant, to the crate's own statement model: exactly the fields
//! import classification reads, with every other statement keeping only
//! its nested statements. The parser hands an `elif` chain back as a
//! nested `if` in the else branch, so each link of the chain is its own
//! `If` statement of the model.

use vstd::prelude::*;

use crate::ast::CallInfo;
use crate::ast::CallTarget;
use crate::ast::IfTest;
use crate::ast::ImportAlias;
use crate::ast::PyStmt;
use crate::ast::StmtV;
use crate::ast::TextSpan;
use crate::ast::stmts_view;
use crate::pipeline::FileError;
use rustpython_ast::Alias;
use rustpython_ast::Expr;
use rustpython_ast::ExceptHandler;
use rustpython_ast::Stmt;
use rustpython_ast::StmtImportFrom;
use rustpython_ast::text_size::TextRange;

verus! {

#[verifier::external_type_specification]
#[verifier::external_body]
#[verifier::reject_recursive_types(R)]
pub struct ExStmt<R>(Stmt<R>);

#[verifier::external_type_specification]
#[verifier::external_body]
#[verifier::reject_recursive_types(R)]
pub struct ExExpr<R>(Expr<R>);

#[verifier::external_type_specification]
#[verifier::external_body]
#[verifier::reject_recursive_types(R)]
pub struct ExAlias<R>(Alias<R>);

#[verifier::external_type_specification]
#[verifier::external_body]
#[verifier::reject_recursive_types(R)]
pub struct ExExceptHandler<R>(ExceptHandler<R>);

#[verifier::external_type_specification]
#[verifier::external_body]
#[verifier::reject_recursive_types(R)]
pub struct ExStmtImportFrom<R>(StmtImportFrom<R>);

#[verifier::external_type_specification]
#[verifier::external_body]
pub struct ExTextRange(TextRange);

/// The statement model of the module that the text parses to, or `None`
/// when the text is not a well-formed Python module. Parsing is a
/// function of the text alone.
pub uninterp spec fn parsed_module(text: Seq<u8>) -> Option<Seq<StmtV>>;

/// Relies on rustpython_parser::parse: whether the text parses, and what
/// tree it yields, depend on the text alone; `path` only names the source
/// inside error messages. The error carries the parser's message.
#[verifier::external_body]
pub fn parse_file_content(text: &Vec<u8>, path: &Vec<u8>) -> (r: Result<Vec<PyStmt>, FileError>)
    ensures
        match r {
            Ok(stmts) => parsed_module(text@) == Some(stmts_view(stmts@)),
            Err(e) => parsed_module(text@) is None && e matches FileError::Syntax(_),
        },
{
    let s = match std::str::from_utf8(text) {
        Ok(s) => s,
        Err(e) => return Err(FileError::Syntax(e.to_string().into_bytes())),
    };
    let p = String::from_utf8_lossy(path);
    match rustpython_parser::parse(s, rustpython_parser::Mode::Module, &p) {
        Ok(rustpython_ast::Mod::Module(m)) => Ok(conv_stmts(&m.body)),
        Ok(_) => Ok(Vec::new()),
        Err(e) => Err(FileError::Syntax(e.to_string().into_bytes())),
    }
}

#[verifier::external_body]
fn conv_span(r: &TextRange) -> TextSpan {
    TextSpan { start: r.start().to_u32(), end: r.end().to_u32() }
}

#[verifier::external_body]
fn conv_stmts(ss: &[Stmt]) -> Vec<PyStmt> {
    ss.iter().map(conv_stmt).collect()
}

#[verifier::external_body]
fn conv_stmt(s: &Stmt) -> PyStmt {
    match s {
        Stmt::Import(x) => PyStmt::Import { names: conv_aliases(&x.names) },
        Stmt::ImportFrom(x) => conv_import_from(x),
        Stmt::Expr(x) => PyStmt::Expression {
            call: conv_call(&x.value),
            span: conv_span(&x.range),
        },
        Stmt::If(x) => PyStmt::If { test: conv_test(&x.test), body: conv_two(&x.body, &x.orelse) },
        _ => PyStmt::Other { body: conv_children(s) },
    }
}

#[verifier::external_body]
fn conv_import_from(x: &StmtImportFrom) -> PyStmt {
    PyStmt::ImportFrom {
        module: x.module.as_ref().map(|m| m.as_str().as_bytes().to_vec()),
        names: conv_aliases(&x.names),
        level: x.level.as_ref().map_or(0, |l| l.to_u32()),
        span: conv_span(&x.range),
    }
}

#[verifier::external_body]
fn conv_two(a: &[Stmt], b: &[Stmt]) -> Vec<PyStmt> {
    let mut v = conv_stmts(a);
    v.extend(conv_stmts(b));
    v
}

#[verifier::external_body]
fn conv_try(body: &[Stmt], handlers: &[ExceptHandler], orelse: &[Stmt], fin: &[Stmt]) -> Vec<
    PyStmt,
> {
    let mut v = conv_stmts(body);
    v.extend(handlers.iter().flat_map(|h| match h {
        ExceptHandler::ExceptHandler(hh) => conv_stmts(&hh.body),
    }));
    v.extend(conv_stmts(orelse));
    v.extend(conv_stmts(fin));
    v
}

#[verifier::external_body]
fn conv_children(s: &Stmt) -> Vec<PyStmt> {
    match s {
        Stmt::FunctionDef(x) => conv_stmts(&x.body),
        Stmt::AsyncFunctionDef(x) => conv_stmts(&x.body),
        Stmt::ClassDef(x) => conv_stmts(&x.body),
        Stmt::For(x) => conv_two(&x.body, &x.orelse),
        Stmt::AsyncFor(x) => conv_two(&x.body, &x.orelse),
        Stmt::While(x) => conv_two(&x.body, &x.orelse),
        _ => conv_more_children(s),
    }
}

#[verifier::external_body]
fn conv_more_children(s: &Stmt) -> Vec<PyStmt> {
    match s {
        Stmt::With(x) => conv_stmts(&x.body),
        Stmt::AsyncWith(x) => conv_stmts(&x.body),
        Stmt::Match(x) => x.cases.iter().flat_map(|c| conv_stmts(&c.body)).collect(),
        Stmt::Try(x) => conv_try(&x.body, &x.handlers, &x.orelse, &x.finalbody),
        Stmt::TryStar(x) => conv_try(&x.body, &x.handlers, &x.orelse, &x.finalbody),
        _ => Vec::new(),
    }
}

#[verifier::external_body]
fn conv_aliases(xs: &[Alias]) -> Vec<ImportAlias> {
    xs.iter().map(|a| ImportAlias {
        name: a.name.as_str().as_bytes().to_vec(),
        asname: a.asname.as_ref().map(|n| n.as_str().as_bytes().to_vec()),
        span: conv_span(&a.range),
    }).collect()
}

#[verifier::external_body]
fn conv_call(e: &Expr) -> Option<CallInfo> {
    match e {
        Expr::Call(c) => Some(
            CallInfo { target: conv_target(&c.func), first_arg: conv_str_arg(c.args.first()) },
        ),
        _ => None,
    }
}

#[verifier::external_body]
fn conv_target(f: &Expr) -> CallTarget {
    match f {
        Expr::Attribute(a) => match a.value.as_ref() {
            Expr::Name(n) => CallTarget::AttributeOf(n.id.as_str().as_bytes().to_vec()),
            _ => CallTarget::Other,
        },
        Expr::Name(n) => CallTarget::Name(n.id.as_str().as_bytes().to_vec()),
        _ => CallTarget::Other,
    }
}

#[verifier::external_body]
fn conv_str_arg(a: Option<&Expr>) -> Option<Vec<u8>> {
    match a {
        Some(Expr::Constant(c)) => match &c.value {
            rustpython_ast::Constant::Str(s) => Some(s.as_bytes().to_vec()),
            _ => None,
        },
        _ => None,
    }
}

#[verifier::external_body]
fn conv_test(e: &Expr) -> IfTest {
    match e {
        Expr::Attribute(a) => match a.value.as_ref() {
            Expr::Name(n) => IfTest::Attribute(
                n.id.as_str().as_bytes().to_vec(),
                a.attr.as_str().as_bytes().to_vec(),
            ),
            _ => IfTest::Other,
        },
        Expr::Name(n) => IfTest::Name(n.id.as_str().as_bytes().to_vec()),
        _ => IfTest::Other,
    }
}

} // verus!
