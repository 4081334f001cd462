//! The parse tree as mathematical values.

use crate::spring::parse_tree::data::{
    Argument, BinOp, Block, Expr, FuncItem, Item, Module, Pattern, Statement, Type,
};
use crate::spring::span::Spanned;
use vstd::prelude::*;

verus! {

pub enum PExprV {
    Int(u64),
    Float(u64),
    String(Seq<char>),
    Var(Seq<char>),
    BinOp(BinOp, Box<Spanned<PExprV>>, Box<Spanned<PExprV>>),
    Match(Box<Spanned<PExprV>>, Seq<(Spanned<Pattern>, Spanned<PExprV>)>),
    MacroCall(Spanned<Seq<char>>, Seq<Spanned<PExprV>>),
    FuncCall(Spanned<Seq<char>>, Seq<Spanned<PExprV>>),
}

pub open spec fn pexpr_view(e: Spanned<Expr>) -> Spanned<PExprV>
    decreases e, 0int,
{
    let inner = match e.inner {
        Expr::Int(i) => PExprV::Int(i),
        Expr::Float(f) => PExprV::Float(f),
        Expr::String(s) => PExprV::String(s@),
        Expr::Var(v) => PExprV::Var(v.0@),
        Expr::BinOp(b) => PExprV::BinOp(b.op, Box::new(pexpr_view(*b.lhs)), Box::new(pexpr_view(*b.rhs))),
        Expr::Match(m) => PExprV::Match(Box::new(pexpr_view(*m.scrutinee)), parms_view(m.arms@)),
        Expr::MacroCall(c) => PExprV::MacroCall(
            Spanned { inner: c.name.inner.0@, span: c.name.span },
            pexprs_view(c.args@),
        ),
        Expr::FuncCall(c) => PExprV::FuncCall(
            Spanned { inner: c.name.inner.0@, span: c.name.span },
            pexprs_view(c.args@),
        ),
    };
    Spanned { inner, span: e.span }
}

pub open spec fn pexprs_view(es: Seq<Spanned<Expr>>) -> Seq<Spanned<PExprV>>
    decreases es, 1int,
{
    if es.len() == 0 {
        seq![]
    } else {
        pexprs_view(es.drop_last()).push(pexpr_view(es.last()))
    }
}

pub open spec fn parms_view(arms: Seq<(Spanned<Pattern>, Spanned<Expr>)>) -> Seq<(Spanned<Pattern>, Spanned<PExprV>)>
    decreases arms, 1int,
{
    if arms.len() == 0 {
        seq![]
    } else {
        parms_view(arms.drop_last()).push((arms.last().0, pexpr_view(arms.last().1)))
    }
}

/// A block: each statement's expression within the statement's span, and
/// the optional trailing expression within its span.
pub struct PBlockV {
    pub body: Seq<Spanned<Spanned<PExprV>>>,
    pub trailing: Spanned<Option<Spanned<PExprV>>>,
}

pub open spec fn pstmt_view(s: Spanned<Statement>) -> Spanned<Spanned<PExprV>> {
    match s.inner {
        Statement::Expr(e) => Spanned { inner: pexpr_view(e), span: s.span },
    }
}

pub open spec fn pblock_view(b: Block) -> PBlockV {
    PBlockV {
        body: Seq::new(b.body@.len(), |i: int| pstmt_view(b.body@[i])),
        trailing: Spanned {
            inner: match b.trailing.inner {
                Some(e) => Some(pexpr_view(e)),
                None => None,
            },
            span: b.trailing.span,
        },
    }
}

pub struct PArgV {
    pub name: Spanned<Seq<char>>,
    pub ty: Spanned<Type>,
}

pub struct PFuncV {
    pub name: Spanned<Seq<char>>,
    pub args: Spanned<Seq<PArgV>>,
    pub body: Spanned<PBlockV>,
    pub return_type: Spanned<Type>,
}

pub open spec fn parg_view(a: Argument) -> PArgV {
    PArgV { name: Spanned { inner: a.name.inner.0@, span: a.name.span }, ty: a.ty }
}

pub open spec fn pfunc_view(f: FuncItem) -> PFuncV {
    PFuncV {
        name: Spanned { inner: f.name.inner.0@, span: f.name.span },
        args: Spanned { inner: Seq::new(f.args.inner@.len(), |i: int| parg_view(f.args.inner@[i])), span: f.args.span },
        body: Spanned { inner: pblock_view(f.body.inner), span: f.body.span },
        return_type: f.return_type,
    }
}

pub open spec fn pitem_view(item: Spanned<Item>) -> Spanned<PFuncV> {
    match item.inner {
        Item::Func(f) => Spanned { inner: pfunc_view(f), span: item.span },
    }
}

pub open spec fn pmodule_view(m: Spanned<Module>) -> Spanned<Seq<Spanned<PFuncV>>> {
    Spanned { inner: Seq::new(m.inner.items@.len(), |i: int| pitem_view(m.inner.items@[i])), span: m.span }
}

pub proof fn lemma_pexprs_view(es: Seq<Spanned<Expr>>)
    ensures
        pexprs_view(es).len() == es.len(),
        forall|i: int| 0 <= i < es.len() ==> #[trigger] pexprs_view(es)[i] == pexpr_view(es[i]),
    decreases es.len(),
{
    if es.len() > 0 {
        lemma_pexprs_view(es.drop_last());
        assert forall|i: int| 0 <= i < es.len() implies #[trigger] pexprs_view(es)[i] == pexpr_view(es[i]) by {
            if i < es.len() - 1 {
                assert(es.drop_last()[i] == es[i]);
            }
        }
    }
}

pub proof fn lemma_parms_view(arms: Seq<(Spanned<Pattern>, Spanned<Expr>)>)
    ensures
        parms_view(arms).len() == arms.len(),
        forall|i: int| 0 <= i < arms.len() ==> #[trigger] parms_view(arms)[i] == (arms[i].0, pexpr_view(arms[i].1)),
    decreases arms.len(),
{
    if arms.len() > 0 {
        lemma_parms_view(arms.drop_last());
        assert forall|i: int| 0 <= i < arms.len() implies #[trigger] parms_view(arms)[i] == (arms[i].0, pexpr_view(arms[i].1)) by {
            if i < arms.len() - 1 {
                assert(arms.drop_last()[i] == arms[i]);
            }
        }
    }
}

pub proof fn lemma_pexprs_view_push(es: Seq<Spanned<Expr>>, e: Spanned<Expr>)
    ensures
        pexprs_view(es.push(e)) == pexprs_view(es).push(pexpr_view(e)),
{
    assert(es.push(e).drop_last() =~= es);
}

pub proof fn lemma_parms_view_push(arms: Seq<(Spanned<Pattern>, Spanned<Expr>)>, arm: (Spanned<Pattern>, Spanned<Expr>))
    ensures
        parms_view(arms.push(arm)) == parms_view(arms).push((arm.0, pexpr_view(arm.1))),
{
    assert(arms.push(arm).drop_last() =~= arms);
}

} // verus!
