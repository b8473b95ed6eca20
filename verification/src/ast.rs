//! The part of the Nova syntax tree that the analyses in this crate read
//! and rewrite.

use vstd::prelude::*;

verus! {

/// A source range: byte offsets and the file they belong to.
#[derive(Clone, Copy, Debug, Default, PartialEq, Eq)]
pub struct Span {
    pub start: u32,
    pub end: u32,
    pub file_id: u32,
}

/// Binary operators.
#[derive(Clone, Copy, Debug, PartialEq, Eq)]
pub enum BinOp {
    Add,
    Sub,
    Mul,
    Div,
    Rem,
    Eq,
    Ne,
    Lt,
    Le,
    Gt,
    Ge,
    And,
    Or,
}

/// Unary operators (`Ref` is `&e`, `RawRef` is `raw &e`).
#[derive(Clone, Copy, Debug, PartialEq, Eq)]
pub enum UnOp {
    Neg,
    Not,
    Ref,
    RawRef,
}

/// A written type.
#[derive(Debug)]
pub enum TypeRef {
    Unit(Span),
    Named(String),
    Array(Box<TypeRef>),
}

/// A pattern of a `let`, a `match` arm or a parameter.
#[derive(Debug)]
pub enum Pattern {
    Wildcard,
    Ident { name: String, is_mut: bool },
    Literal(i64),
    Tuple(Vec<Pattern>),
    Variant { name: String, args: Vec<Pattern> },
}

/// An expression with its source range.
#[derive(Debug)]
pub struct Expr {
    pub kind: ExprKind,
    pub span: Span,
}

/// One field of a record literal.
#[derive(Debug)]
pub struct RecordLitField {
    pub name: String,
    pub value: Option<Expr>,
    pub is_spread: bool,
    pub at_shorthand: bool,
    pub span: Span,
}

/// The `else` part of an `if`.
#[derive(Debug)]
pub enum ElseBranch {
    Block(Block),
    If(Box<Expr>),
}

/// The body of a `match` arm.
#[derive(Debug)]
pub enum MatchArmBody {
    Expr(Expr),
    Block(Block),
}

/// One arm of a `match`.
#[derive(Debug)]
pub struct MatchArm {
    pub pattern: Pattern,
    pub body: MatchArmBody,
}

/// Expression forms.
#[derive(Debug)]
pub enum ExprKind {
    IntLit(i64),
    BoolLit(bool),
    StrLit(String),
    CharLit(char),
    UnitLit,
    Ident(String),
    /// `@` — the receiver of a method.
    SelfAccess,
    /// `obj.name`; `@name` is a `Member` on `SelfAccess`.
    Member { obj: Box<Expr>, name: String },
    Call { func: Box<Expr>, args: Vec<Expr> },
    Binary { op: BinOp, left: Box<Expr>, right: Box<Expr> },
    Unary { op: UnOp, operand: Box<Expr> },
    Index { obj: Box<Expr>, index: Box<Expr> },
    If { cond: Box<Expr>, then: Block, else_: Option<ElseBranch> },
    /// `if let pattern = scrutinee { then } else { .. }`.
    IfLet { pattern: Pattern, scrutinee: Box<Expr>, then: Block, else_: Option<ElseBranch> },
    /// `while cond { body }`; `loop { body }` is a `While` whose condition
    /// is `true`.
    While { cond: Box<Expr>, body: Block },
    /// `while let pattern = scrutinee { body }`.
    WhileLet { pattern: Pattern, scrutinee: Box<Expr>, body: Block },
    /// `for var in iter { body }`.
    For { var: String, iter: Box<Expr>, body: Block },
    /// A `for` loop whose iterations run concurrently.
    ParallelFor { var: String, iter: Box<Expr>, body: Block },
    Match { scrutinee: Box<Expr>, arms: Vec<MatchArm> },
    Block(Block),
    /// A closure `|params| body`.
    Lambda { params: Vec<String>, body: Box<Expr> },
    /// Concurrent evaluation of the inner expression.
    Spawn(Box<Expr>),
    TupleLit(Vec<Expr>),
    /// `[a, b, ...]`.
    ArrayLit(Vec<Expr>),
    /// A qualified name such as `EmbeddedDir.new`.
    Path(Vec<String>),
    /// A byte-string literal: the bytes of an embedded file.
    HexBlobLit(Vec<u8>),
    /// `inner?`: the value of `inner`, or an early return of its error.
    Try(Box<Expr>),
    /// A named argument `name: value` of a call.
    NamedArg { name: String, value: Box<Expr> },
    RecordLit { type_path: Option<Vec<String>>, fields: Vec<RecordLitField>, inferred_map_v: Option<TypeRef> },
}

impl Expr {
    pub fn new(kind: ExprKind, span: Span) -> (e: Expr)
        ensures
            e.kind == kind,
            e.span == span,
    {
        Expr { kind, span }
    }
}

/// A braced block: statements and an optional value expression at the end.
#[derive(Debug)]
pub struct Block {
    pub stmts: Vec<Stmt>,
    pub trailing: Option<Box<Expr>>,
    pub span: Span,
}

/// A `let` binding (`ro x = v` / `mut x = v`).
#[derive(Debug)]
pub struct LetDecl {
    pub mutable: bool,
    pub pattern: Pattern,
    /// The written type, if any.
    pub ty: Option<TypeRef>,
    pub value: Expr,
    pub span: Span,
}

/// Statements.
#[derive(Debug)]
pub enum Stmt {
    Let(LetDecl),
    Assign { target: Expr, value: Expr, span: Span },
    Expr(Expr),
    Return { value: Option<Expr>, span: Span },
    Break(Span),
    Continue(Span),
}

/// How a method receives its receiver.
#[derive(Clone, Copy, Debug, PartialEq, Eq, Structural)]
pub enum ReceiverKind {
    /// `fn T @m()` / `fn T mut @m()`: has an `@` receiver.
    Instance,
    /// `fn T.m()`: associated function without receiver.
    Static,
}

/// The receiver part of a method declaration.
#[derive(Debug)]
pub struct Receiver {
    pub owner_type: String,
    pub kind: ReceiverKind,
    pub mutable: bool,
}

/// A parameter.
#[derive(Debug)]
pub struct Param {
    pub name: String,
    pub ty: TypeRef,
}

/// Declared purity of a function.
#[derive(Clone, Copy, Debug, PartialEq, Eq, Structural)]
pub enum Purity {
    Pure,
    Impure,
}

/// A function body.
#[derive(Debug)]
pub enum FnBody {
    Block(Block),
    Expr(Expr),
    External,
}

/// A function or method declaration.
#[derive(Debug)]
pub struct FnDecl {
    pub name: String,
    pub receiver: Option<Receiver>,
    pub params: Vec<Param>,
    pub effects: Vec<String>,
    pub ret: Option<TypeRef>,
    pub body: FnBody,
    pub purity: Purity,
    pub is_external: bool,
    pub is_export: bool,
    pub span: Span,
}

/// A field of a record type.
#[derive(Debug)]
pub struct RecordField {
    pub name: String,
    pub ty: TypeRef,
    pub readonly: bool,
    pub mutable: bool,
    pub consume: bool,
    pub is_embed: bool,
}

/// One variant of a sum type.
#[derive(Debug)]
pub struct SumVariant {
    pub name: String,
    pub fields: Vec<TypeRef>,
}

/// How values of a type are allocated.
#[derive(Clone, Copy, Debug, PartialEq, Eq, Structural)]
pub enum AllocKind {
    Heap,
    Value,
}

/// The shape of a type declaration.
#[derive(Debug)]
pub enum TypeDeclKind {
    Record(Vec<RecordField>),
    NamedTuple(Vec<RecordField>),
    Protocol { methods: Vec<String> },
    Effect(Vec<String>),
    Opaque,
    Alias(TypeRef),
    Newtype(TypeRef),
    Sum(Vec<SumVariant>),
}

/// A type declaration.
#[derive(Debug)]
pub struct TypeDecl {
    pub name: String,
    pub kind: TypeDeclKind,
    pub allocation: AllocKind,
    pub is_export: bool,
}

/// A `test "name" { ... }` block.
#[derive(Debug)]
pub struct TestDecl {
    pub name: String,
    pub body: Block,
}

/// Top-level items.
#[derive(Debug)]
pub enum Item {
    Fn(FnDecl),
    Type(TypeDecl),
    Test(TestDecl),
}

/// A source file that makes up part of a module.
#[derive(Debug)]
pub struct PeerFile {
    pub path: String,
    pub file_id: u32,
    pub items_here: Vec<Item>,
    pub is_entry_module: bool,
}

/// A parsed module.
#[derive(Debug)]
pub struct Module {
    pub name: Vec<String>,
    pub items: Vec<Item>,
    pub peer_files: Vec<PeerFile>,
}

} // verus!
