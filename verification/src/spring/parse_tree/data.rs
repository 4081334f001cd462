//! The parse tree: the program as it was written.

use crate::spring::span::Spanned;
use vstd::prelude::*;

verus! {

#[derive(Debug, Clone, Copy, PartialEq)]
pub struct Ident<'src>(pub &'src str);

#[derive(Debug, PartialEq)]
pub struct Module<'src> {
    pub items: Vec<Spanned<Item<'src>>>,
}

#[derive(Debug, PartialEq)]
pub enum Item<'src> {
    Func(FuncItem<'src>),
}

#[derive(Debug, PartialEq)]
pub struct FuncItem<'src> {
    pub name: Spanned<Ident<'src>>,
    pub args: Spanned<Vec<Argument<'src>>>,
    pub body: Spanned<Block<'src>>,
    pub return_type: Spanned<Type>,
}

#[derive(Debug, PartialEq)]
pub struct Argument<'src> {
    pub name: Spanned<Ident<'src>>,
    pub ty: Spanned<Type>,
}

/// Statements, each ended by `;`, then an optional trailing expression whose
/// value is the block's value.
#[derive(Debug, PartialEq)]
pub struct Block<'src> {
    pub body: Vec<Spanned<Statement<'src>>>,
    pub trailing: Spanned<Option<Spanned<Expr<'src>>>>,
}

#[derive(Debug, PartialEq)]
pub enum Statement<'src> {
    Expr(Spanned<Expr<'src>>),
}

#[derive(Debug, PartialEq)]
pub enum Expr<'src> {
    Int(u64),
    /// A floating-point literal, by the bits of its IEEE 754 double.
    Float(u64),
    String(&'src str),
    Var(Ident<'src>),
    BinOp(BinOpExpr<'src>),
    Match(MatchExpr<'src>),
    MacroCall(MacroCallExpr<'src>),
    FuncCall(FuncCallExpr<'src>),
}

#[derive(Debug, PartialEq)]
pub struct BinOpExpr<'src> {
    pub op: BinOp,
    pub lhs: Box<Spanned<Expr<'src>>>,
    pub rhs: Box<Spanned<Expr<'src>>>,
}

#[derive(Debug, Clone, Copy, PartialEq, Eq)]
pub enum BinOp {
    Add,
    Sub,
    Mul,
    Div,
}

/// A `match` over an integer: each arm is a pattern and the expression it
/// selects.
#[derive(Debug, PartialEq)]
pub struct MatchExpr<'src> {
    pub scrutinee: Box<Spanned<Expr<'src>>>,
    pub arms: Vec<(Spanned<Pattern>, Spanned<Expr<'src>>)>,
}

#[derive(Debug, Clone, Copy, PartialEq, Eq)]
pub enum Pattern {
    Int(u64),
    Discard,
}

#[derive(Debug, PartialEq)]
pub struct MacroCallExpr<'src> {
    pub name: Spanned<Ident<'src>>,
    pub args: Vec<Spanned<Expr<'src>>>,
}

#[derive(Debug, PartialEq)]
pub struct FuncCallExpr<'src> {
    pub name: Spanned<Ident<'src>>,
    pub args: Vec<Spanned<Expr<'src>>>,
}

#[derive(Debug, Clone, Copy, PartialEq, Eq)]
pub enum Type {
    Unit,
    Int,
    Float,
    String,
}

} // verus!
