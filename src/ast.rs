//! The syntax tree that the parser builds. Its nodes carry the spans of the
//! source text they come from.
use vstd::prelude::*;

use crate::span::Span;
use crate::symbol::Symbol;

verus! {

/// A node that knows its span.
pub trait Spanned {
    fn span(&self) -> Span;
}

#[derive(Debug, Clone, Copy, PartialEq, Eq, PartialOrd, Ord, Hash)]
pub enum Notation {
    Decimal,
    Hexadecimal,
}

#[derive(Debug, Clone, Copy, PartialEq, Eq, PartialOrd, Ord, Hash)]
pub enum Literal {
    Int(Notation),
    Word(Notation),
    Real,
    String { terminated: bool },
    Char,
}

#[derive(Debug, Clone, Copy, PartialEq, Eq, PartialOrd, Ord, Hash)]
pub enum TokenKind {
    // Core keywords.
    AbsType,
    And,
    AndAlso,
    As,
    Case,
    DataType,
    Do,
    Else,
    End,
    Exception,
    Fn,
    Fun,
    Handle,
    If,
    In,
    Infix,
    InfixR,
    Let,
    Local,
    NonFix,
    Of,
    Op,
    Open,
    OrElse,
    Raise,
    Rec,
    Then,
    Type,
    Val,
    With,
    WithType,
    While,
    /// `(`.
    LParen,
    /// `)`.
    RParen,
    /// `[`.
    LSquare,
    /// `]`.
    RSquare,
    /// `{`.
    LCurly,
    /// `}`.
    RCurly,
    /// `,`.
    Comma,
    /// `:`.
    Colon,
    /// `;`.
    Semi,
    /// `...`.
    Ellipsis,
    /// `_`.
    Wildcard,
    /// `|`.
    Bar,
    /// `=`.
    Eq,
    /// `=>`.
    DArrow,
    /// `->`.
    Arrow,
    /// `#`.
    NumSign,
    Lit(Literal),
    Comment,
    /// An identifier, atomic (`hello`) or qualified (`List.length`).
    Ident { qualified: bool },
}

#[derive(Debug, Clone, PartialEq, Eq, PartialOrd, Ord, Hash)]
pub struct Token {
    pub kind: TokenKind,
    pub span: Span,
}

/// A short identifier: alphanumeric (`x`), symbolic (`++`), a type variable
/// (`'a`) or an equality type variable (`''a`).
#[derive(Debug, Clone, PartialEq, Eq, Hash)]
pub struct Ident {
    pub ident_tk: Token,
    pub name: Symbol,
    pub kind: IdentKind,
    pub span: Span,
}

#[derive(Debug, Clone, Copy, PartialEq, Eq, Hash)]
pub enum IdentKind {
    Symbolic,
    Alphanumeric,
    TyVar,
    EqTyVar,
}

/// A qualified identifier.
#[derive(Debug, Clone, PartialEq, Eq, Hash)]
pub struct QualifiedIdent {
    pub structs: Vec<MemberAccess>,
    pub ident: Ident,
}

#[derive(Debug, Clone, PartialEq, Eq, Hash)]
pub struct MemberAccess {
    pub name: Ident,
    pub dot_tk: Token,
}

pub struct LongIdent {
    pub op: Option<Token>,
    pub modules: Vec<ModuleIdent>,
    pub ident: Token,
}

pub struct ModuleIdent {
    pub ident: Token,
    pub dot: Token,
}

pub enum Ty {
    /// A type variable.
    Var(LongIdent),
    Record,
    Tuple,
    Fn,
    Paren,
}

pub struct Expr {
    pub kind: ExprKind,
    pub span: Span,
}

pub enum ExprKind {
    Lit(Literal),
    Ident { op: Option<Token>, ident: LongIdent },
    Record(Record),
    Tuple(Tuple),
    List(List),
    Sequence(SeqExpr),
    LetIn(LetIn),
    Paren { l_paren: Token, expr: Box<Expr>, r_paren: Token },
    Pending(Vec<PendingItem>),
    Typed { expr: Box<Expr>, colon: Token, ty: Box<()> },
    AndAlso { left: Box<Expr>, and_also_kw: Token, right: Box<Expr> },
    OrElse { left: Box<Expr>, or_else_kw: Token, right: Box<Expr> },
    IfElse {
        if_kw: Token,
        cond: Box<Expr>,
        then_kw: Token,
        then_expr: Box<Expr>,
        else_kw: Token,
        else_expr: Box<Expr>,
    },
    While { while_kw: Token, cond: Box<Expr>, do_kw: Token, body: Box<Expr> },
    Case { case_kw: Token, expr: Box<Expr>, of_kw: Token, matches: Matches },
    Fn { fn_kw: Token, matches: Matches },
}

pub enum PendingItem {
    Expr(Box<Expr>),
    Ident(LongIdent),
}

pub struct Matches {
    pub matches: Vec<MatchItem>,
}

pub struct MatchItem {
    pub pat: Box<()>,
    pub arrow: Token,
    pub expr: Box<Expr>,
}

pub struct Record {
    pub l_curly: Token,
    pub fields: Vec<RecordRow>,
    pub r_curly: Token,
}

pub struct RecordRow {
    pub label: Label,
    pub comma: Token,
}

pub enum Label {
    Name(LongIdent),
    Num(u32),
}

pub struct Tuple {
    pub l_paren: Token,
    pub elems: Vec<TupleElem>,
    pub r_paren: Token,
}

pub struct TupleElem {
    pub expr: Box<Expr>,
    pub comma: Token,
}

pub struct List {
    pub l_square: Token,
    pub elems: Vec<ListElem>,
    pub r_square: Token,
}

pub struct ListElem {
    pub expr: Box<Expr>,
    pub comma: Token,
}

/// A sequence of expressions: `(e1; e2; ...)`.
pub struct SeqExpr {
    pub l_paren: Token,
    pub exprs: Vec<SeqItem>,
    pub r_paren: Token,
}

pub struct SeqItem {
    pub expr: Box<Expr>,
    pub semi: Token,
}

pub struct LetIn {
    pub let_kw: Token,
    pub decls: Box<()>,
    pub in_kw: Token,
    pub exprs: Vec<SeqItem>,
    pub end_kw: Token,
}

impl Spanned for Token {
    fn span(&self) -> Span {
        self.span
    }
}

impl Spanned for Ident {
    fn span(&self) -> Span {
        self.span
    }
}

impl Spanned for Expr {
    fn span(&self) -> Span {
        self.span
    }
}

} // verus!
