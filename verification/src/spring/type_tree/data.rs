//! The typed tree: the program after type checking, each expression with its type.

use crate::spring::span::{Span, Spanned};
use vstd::prelude::*;

pub use crate::spring::parse_tree::data::{BinOp, Pattern};

verus! {

#[derive(Debug, PartialEq)]
pub struct Module<'src> {
    pub items: Vec<Item<'src>>,
    pub span: Span,
}

#[derive(Debug, PartialEq)]
pub struct Item<'src> {
    pub kind: ItemKind<'src>,
    pub span: Span,
}

#[derive(Debug, PartialEq)]
pub enum ItemKind<'src> {
    Func(FuncItem<'src>),
}

#[derive(Debug, PartialEq)]
pub struct FuncItem<'src> {
    pub name: Ident<'src>,
    pub body: Block<'src>,
}

#[derive(Debug, PartialEq)]
pub struct Block<'src> {
    pub body: Vec<Statement<'src>>,
    pub trailing: Expr<'src>,
    pub span: Span,
}

#[derive(Debug, Clone, Copy, PartialEq)]
pub struct Ident<'src> {
    pub name: &'src str,
    pub span: Span,
}

#[derive(Debug, PartialEq)]
pub struct Statement<'src> {
    pub kind: StatementKind<'src>,
    pub ty: Type,
    pub span: Span,
}

#[derive(Debug, PartialEq)]
pub enum StatementKind<'src> {
    Expr(Expr<'src>),
}

#[derive(Debug, PartialEq)]
pub struct Expr<'src> {
    pub kind: ExprKind<'src>,
    pub ty: Type,
    pub span: Span,
}

#[derive(Debug, PartialEq)]
pub enum ExprKind<'src> {
    Unit,
    Int(u64),
    /// A floating-point literal, by the bits of its IEEE 754 double.
    Float(u64),
    String(&'src str),
    Var(Ident<'src>),
    BinOp(BinOpExpr<'src>),
    Match(MatchExpr<'src>),
    MacroCall(MacroCallExpr<'src>),
}

#[derive(Debug, PartialEq)]
pub struct BinOpExpr<'src> {
    pub op: BinOp,
    pub lhs: Box<Expr<'src>>,
    pub rhs: Box<Expr<'src>>,
}

#[derive(Debug, PartialEq)]
pub struct MatchExpr<'src> {
    pub scrutinee: Box<Expr<'src>>,
    pub arms: Vec<(Spanned<Pattern>, Expr<'src>)>,
}

#[derive(Debug, PartialEq)]
pub struct MacroCallExpr<'src> {
    pub name: Ident<'src>,
    pub args: Vec<Expr<'src>>,
}

#[derive(Debug, PartialEq)]
pub struct Type {
    pub kind: TypeKind,
}

#[derive(Debug, PartialEq)]
pub enum TypeKind {
    Error,
    Unit,
    Int,
    Float,
    String,
    Func { args: Vec<Type>, return_type: Box<Type> },
}

// ---------------------------------------------------------------------------
// Views: the typed tree as mathematical values
// ---------------------------------------------------------------------------

pub enum TypeKindV {
    Error,
    Unit,
    Int,
    Float,
    String,
    Func(Seq<TypeKindV>, Box<TypeKindV>),
}

pub open spec fn kind_view(k: TypeKind) -> TypeKindV
    decreases k, 0int,
{
    match k {
        TypeKind::Error => TypeKindV::Error,
        TypeKind::Unit => TypeKindV::Unit,
        TypeKind::Int => TypeKindV::Int,
        TypeKind::Float => TypeKindV::Float,
        TypeKind::String => TypeKindV::String,
        TypeKind::Func { args, return_type } => TypeKindV::Func(
            kinds_view(args@),
            Box::new(kind_view(return_type.kind)),
        ),
    }
}

pub open spec fn kinds_view(ts: Seq<Type>) -> Seq<TypeKindV>
    decreases ts, 1int,
{
    if ts.len() == 0 {
        seq![]
    } else {
        kinds_view(ts.drop_last()).push(kind_view(ts.last().kind))
    }
}

impl View for TypeKind {
    type V = TypeKindV;

    open spec fn view(&self) -> TypeKindV {
        kind_view(*self)
    }
}

impl View for Type {
    type V = TypeKindV;

    open spec fn view(&self) -> TypeKindV {
        kind_view(self.kind)
    }
}

pub struct IdentV {
    pub name: Seq<char>,
    pub span: Span,
}

pub enum ExprKindV {
    Unit,
    Int(u64),
    Float(u64),
    String(Seq<char>),
    Var(IdentV),
    BinOp(BinOp, Box<ExprV>, Box<ExprV>),
    Match(Box<ExprV>, Seq<(Spanned<Pattern>, ExprV)>),
    MacroCall(IdentV, Seq<ExprV>),
}

pub struct ExprV {
    pub kind: ExprKindV,
    pub ty: TypeKindV,
    pub span: Span,
}

pub struct StatementV {
    pub expr: ExprV,
    pub ty: TypeKindV,
    pub span: Span,
}

pub struct BlockV {
    pub body: Seq<StatementV>,
    pub trailing: ExprV,
    pub span: Span,
}

pub struct FuncItemV {
    pub name: IdentV,
    pub body: BlockV,
}

pub struct ItemV {
    pub func: FuncItemV,
    pub span: Span,
}

pub struct ModuleV {
    pub items: Seq<ItemV>,
    pub span: Span,
}

impl View for Ident<'_> {
    type V = IdentV;

    open spec fn view(&self) -> IdentV {
        IdentV { name: self.name@, span: self.span }
    }
}

pub open spec fn expr_view(e: Expr) -> ExprV
    decreases e, 0int,
{
    let kind = match e.kind {
        ExprKind::Unit => ExprKindV::Unit,
        ExprKind::Int(i) => ExprKindV::Int(i),
        ExprKind::Float(f) => ExprKindV::Float(f),
        ExprKind::String(s) => ExprKindV::String(s@),
        ExprKind::Var(v) => ExprKindV::Var(v@),
        ExprKind::BinOp(b) => ExprKindV::BinOp(b.op, Box::new(expr_view(*b.lhs)), Box::new(expr_view(*b.rhs))),
        ExprKind::Match(m) => ExprKindV::Match(Box::new(expr_view(*m.scrutinee)), arms_view(m.arms@)),
        ExprKind::MacroCall(c) => ExprKindV::MacroCall(c.name@, exprs_view(c.args@)),
    };
    ExprV { kind, ty: e.ty@, span: e.span }
}

pub open spec fn exprs_view(es: Seq<Expr>) -> Seq<ExprV>
    decreases es, 1int,
{
    if es.len() == 0 {
        seq![]
    } else {
        exprs_view(es.drop_last()).push(expr_view(es.last()))
    }
}

pub open spec fn arms_view(arms: Seq<(Spanned<Pattern>, Expr)>) -> Seq<(Spanned<Pattern>, ExprV)>
    decreases arms, 1int,
{
    if arms.len() == 0 {
        seq![]
    } else {
        arms_view(arms.drop_last()).push((arms.last().0, expr_view(arms.last().1)))
    }
}

impl View for Expr<'_> {
    type V = ExprV;

    open spec fn view(&self) -> ExprV {
        expr_view(*self)
    }
}

impl View for Statement<'_> {
    type V = StatementV;

    open spec fn view(&self) -> StatementV {
        match self.kind {
            StatementKind::Expr(e) => StatementV { expr: e@, ty: self.ty@, span: self.span },
        }
    }
}

pub open spec fn statements_view(stmts: Seq<Statement>) -> Seq<StatementV> {
    Seq::new(stmts.len(), |i: int| stmts[i]@)
}

impl View for Block<'_> {
    type V = BlockV;

    open spec fn view(&self) -> BlockV {
        BlockV { body: statements_view(self.body@), trailing: self.trailing@, span: self.span }
    }
}

impl View for FuncItem<'_> {
    type V = FuncItemV;

    open spec fn view(&self) -> FuncItemV {
        FuncItemV { name: self.name@, body: self.body@ }
    }
}

impl View for Item<'_> {
    type V = ItemV;

    open spec fn view(&self) -> ItemV {
        match self.kind {
            ItemKind::Func(f) => ItemV { func: f@, span: self.span },
        }
    }
}

impl View for Module<'_> {
    type V = ModuleV;

    open spec fn view(&self) -> ModuleV {
        ModuleV { items: Seq::new(self.items@.len(), |i: int| self.items@[i]@), span: self.span }
    }
}

} // verus!
