//! The statement model that import extraction works on.
//!
//! A parsed Python module is reduced to the closed statement shape below:
//! exactly the constructs that import classification reads. Every other
//! statement kind keeps only its nested statements, so that imports inside
//! function bodies, loops or `try` blocks are still reached.

use vstd::prelude::*;

verus! {

/// A half-open range of byte offsets into the source text.
#[derive(Clone, Copy, PartialEq, Eq, Structural, Debug)]
pub struct TextSpan {
    pub start: u32,
    pub end: u32,
}

/// One target of an `import` statement: the dotted module path, the local
/// alias when `as` is used, and the span of the `name as alias` text.
#[derive(Debug)]
pub struct ImportAlias {
    pub name: Vec<u8>,
    pub asname: Option<Vec<u8>>,
    pub span: TextSpan,
}

/// The test expression of an `if` statement, reduced to the shapes the
/// type-checking-guard rule looks at.
#[derive(Debug)]
pub enum IfTest {
    /// A bare name, as in `if TYPE_CHECKING:`.
    Name(Vec<u8>),
    /// An attribute access on a bare name: object, then attribute,
    /// as in `if typing.TYPE_CHECKING:`.
    Attribute(Vec<u8>, Vec<u8>),
    /// Any other expression.
    Other,
}

/// The callee of a call expression, reduced to the shapes the
/// dynamic-import rule looks at.
#[derive(Debug)]
pub enum CallTarget {
    /// An attribute access on a bare name; only the object name is kept,
    /// as in `mod.anything(...)`.
    AttributeOf(Vec<u8>),
    /// A bare name, as in `loader(...)`.
    Name(Vec<u8>),
    /// Any other expression.
    Other,
}

/// A call expression standing as a statement: its callee shape and its
/// first positional argument when that argument is a string literal.
#[derive(Debug)]
pub struct CallInfo {
    pub target: CallTarget,
    pub first_arg: Option<Vec<u8>>,
}

/// A statement, reduced to what import extraction reads.
#[derive(Debug)]
pub enum PyStmt {
    /// `import a.b.c as x, d.e`
    Import { names: Vec<ImportAlias> },
    /// `from mod import x as y, z`; `level` counts the leading dots of a
    /// relative import, and `span` covers the whole statement.
    ImportFrom { module: Option<Vec<u8>>, names: Vec<ImportAlias>, level: u32, span: TextSpan },
    /// An expression statement; `span` covers the whole statement.
    Expression { call: Option<CallInfo>, span: TextSpan },
    /// An `if` statement; `body` holds the statements of every branch.
    If { test: IfTest, body: Vec<PyStmt> },
    /// Any other statement; `body` holds its nested statements.
    Other { body: Vec<PyStmt> },
}

/// Mathematical image of an `ImportAlias`.
pub struct AliasV {
    pub name: Seq<u8>,
    pub asname: Option<Seq<u8>>,
    pub span: TextSpan,
}

/// Mathematical image of an `IfTest`.
pub enum IfTestV {
    Name(Seq<u8>),
    Attribute(Seq<u8>, Seq<u8>),
    Other,
}

/// Mathematical image of a `CallTarget`.
pub enum CallTargetV {
    AttributeOf(Seq<u8>),
    Name(Seq<u8>),
    Other,
}

/// Mathematical image of a `CallInfo`.
pub struct CallInfoV {
    pub target: CallTargetV,
    pub first_arg: Option<Seq<u8>>,
}

/// Mathematical image of a `PyStmt`.
pub enum StmtV {
    Import { names: Seq<AliasV> },
    ImportFrom { module: Option<Seq<u8>>, names: Seq<AliasV>, level: u32, span: TextSpan },
    Expression { call: Option<CallInfoV>, span: TextSpan },
    If { test: IfTestV, body: Seq<StmtV> },
    Other { body: Seq<StmtV> },
}

impl DeepView for TextSpan {
    type V = TextSpan;

    open spec fn deep_view(&self) -> TextSpan {
        *self
    }
}

impl DeepView for ImportAlias {
    type V = AliasV;

    open spec fn deep_view(&self) -> AliasV {
        AliasV { name: self.name.deep_view(), asname: self.asname.deep_view(), span: self.span }
    }
}

impl DeepView for IfTest {
    type V = IfTestV;

    open spec fn deep_view(&self) -> IfTestV {
        match self {
            IfTest::Name(id) => IfTestV::Name(id.deep_view()),
            IfTest::Attribute(obj, attr) => IfTestV::Attribute(obj.deep_view(), attr.deep_view()),
            IfTest::Other => IfTestV::Other,
        }
    }
}

impl DeepView for CallTarget {
    type V = CallTargetV;

    open spec fn deep_view(&self) -> CallTargetV {
        match self {
            CallTarget::AttributeOf(obj) => CallTargetV::AttributeOf(obj.deep_view()),
            CallTarget::Name(id) => CallTargetV::Name(id.deep_view()),
            CallTarget::Other => CallTargetV::Other,
        }
    }
}

impl DeepView for CallInfo {
    type V = CallInfoV;

    open spec fn deep_view(&self) -> CallInfoV {
        CallInfoV { target: self.target.deep_view(), first_arg: self.first_arg.deep_view() }
    }
}

/// Mathematical image of a statement.
pub open spec fn stmt_view(s: PyStmt) -> StmtV
    decreases s,
{
    match s {
        PyStmt::Import { names } => StmtV::Import { names: names.deep_view() },
        PyStmt::ImportFrom { module, names, level, span } => StmtV::ImportFrom {
            module: module.deep_view(),
            names: names.deep_view(),
            level,
            span,
        },
        PyStmt::Expression { call, span } => StmtV::Expression { call: call.deep_view(), span },
        PyStmt::If { test, body } => StmtV::If {
            test: test.deep_view(),
            body: stmts_view(body@),
        },
        PyStmt::Other { body } => StmtV::Other { body: stmts_view(body@) },
    }
}

/// Mathematical image of a statement sequence.
pub open spec fn stmts_view(ss: Seq<PyStmt>) -> Seq<StmtV>
    decreases ss,
{
    if ss.len() == 0 {
        Seq::empty()
    } else {
        stmts_view(ss.drop_last()).push(stmt_view(ss.last()))
    }
}

impl DeepView for PyStmt {
    type V = StmtV;

    open spec fn deep_view(&self) -> StmtV {
        stmt_view(*self)
    }
}

/// `stmts_view` agrees index-wise with `stmt_view`.
pub proof fn lemma_stmts_view_len(ss: Seq<PyStmt>)
    ensures
        stmts_view(ss).len() == ss.len(),
        forall|i: int| 0 <= i < ss.len() ==> stmts_view(ss)[i] == stmt_view(ss[i]),
    decreases ss,
{
    if ss.len() > 0 {
        lemma_stmts_view_len(ss.drop_last());
    }
}

} // verus!
