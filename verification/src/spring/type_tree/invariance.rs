//! Type checking depends on a parse tree only through its view: two parse
//! trees with the same view type check alike.

use crate::spring::parse_tree::data as pt;
use crate::spring::parse_tree::view::{
    lemma_parms_view, lemma_pexprs_view, parg_view, parms_view, pblock_view, pexpr_view,
    pexprs_view, pfunc_view, pitem_view, pmodule_view, pstmt_view,
};
use crate::spring::span::Spanned;
use crate::spring::type_tree::data::{Pattern, TypeKindV};
use crate::spring::type_tree::rules::{
    arm_patterns, args_distinct, args_scope, arms_reach_call, block_reaches_call, exprs_reach_call,
    func_unsupported, item_func, items_unsupported, module_checkable, reaches_call,
    statement_reaches_call, statements_reach_call, type_arms_rule,
    type_block_rule, type_expr_rule, type_exprs_rule, type_func_item_rule, type_item_rule,
    type_items_rule, type_module_rule, type_statement_rule, type_statements_rule,
};
use vstd::prelude::*;

verus! {

proof fn lemma_pexprs_eq(a: Seq<Spanned<pt::Expr>>, b: Seq<Spanned<pt::Expr>>)
    requires
        pexprs_view(a) == pexprs_view(b),
    ensures
        a.len() == b.len(),
        a.len() > 0 ==> pexprs_view(a.drop_last()) == pexprs_view(b.drop_last()) && pexpr_view(a.last())
            == pexpr_view(b.last()),
{
    lemma_pexprs_view(a);
    lemma_pexprs_view(b);
    if a.len() > 0 {
        assert(pexprs_view(a).drop_last() =~= pexprs_view(a.drop_last()));
        assert(pexprs_view(b).drop_last() =~= pexprs_view(b.drop_last()));
        assert(pexprs_view(a).last() == pexpr_view(a.last()));
    }
}

proof fn lemma_parms_eq(a: Seq<(Spanned<Pattern>, Spanned<pt::Expr>)>, b: Seq<(Spanned<Pattern>, Spanned<pt::Expr>)>)
    requires
        parms_view(a) == parms_view(b),
    ensures
        a.len() == b.len(),
        arm_patterns(a) == arm_patterns(b),
        a.len() > 0 ==> parms_view(a.drop_last()) == parms_view(b.drop_last()) && a.last().0 == b.last().0
            && pexpr_view(a.last().1) == pexpr_view(b.last().1),
{
    lemma_parms_view(a);
    lemma_parms_view(b);
    assert forall|i: int| 0 <= i < a.len() implies #[trigger] arm_patterns(a)[i] == arm_patterns(b)[i] by {
        assert(parms_view(a)[i] == parms_view(b)[i]);
    }
    assert(arm_patterns(a) =~= arm_patterns(b));
    if a.len() > 0 {
        assert(parms_view(a).drop_last() =~= parms_view(a.drop_last()));
        assert(parms_view(b).drop_last() =~= parms_view(b.drop_last()));
        assert(parms_view(a).last() == parms_view(b).last());
    }
}

/// Expressions with the same view type check alike.
pub proof fn lemma_type_expr_view(a: Spanned<pt::Expr>, b: Spanned<pt::Expr>, scope: Map<Seq<char>, TypeKindV>)
    requires
        pexpr_view(a) == pexpr_view(b),
    ensures
        type_expr_rule(a, scope) == type_expr_rule(b, scope),
        reaches_call(a, scope) == reaches_call(b, scope),
    decreases a, 0int,
{
    match a.inner {
        pt::Expr::BinOp(x) => {
            let y = b.inner->BinOp_0;
            assert(decreases_to!(a => a.inner));
            lemma_type_expr_view(*x.lhs, *y.lhs, scope);
            lemma_type_expr_view(*x.rhs, *y.rhs, scope);
        },
        pt::Expr::Match(x) => {
            let y = b.inner->Match_0;
            lemma_type_expr_view(*x.scrutinee, *y.scrutinee, scope);
            lemma_type_arms_view(x.arms@, y.arms@, scope);
            lemma_parms_eq(x.arms@, y.arms@);
        },
        pt::Expr::MacroCall(x) => {
            let y = b.inner->MacroCall_0;
            lemma_type_exprs_view(x.args@, y.args@, scope);
        },
        pt::Expr::FuncCall(x) => {
            assert(b.inner is FuncCall);
        },
        _ => {},
    }
}

pub proof fn lemma_type_exprs_view(a: Seq<Spanned<pt::Expr>>, b: Seq<Spanned<pt::Expr>>, scope: Map<Seq<char>, TypeKindV>)
    requires
        pexprs_view(a) == pexprs_view(b),
    ensures
        type_exprs_rule(a, scope) == type_exprs_rule(b, scope),
        exprs_reach_call(a, scope) == exprs_reach_call(b, scope),
    decreases a, 1int,
{
    lemma_pexprs_eq(a, b);
    if a.len() > 0 {
        lemma_type_exprs_view(a.drop_last(), b.drop_last(), scope);
        lemma_type_expr_view(a.last(), b.last(), scope);
    }
}

pub proof fn lemma_type_arms_view(
    a: Seq<(Spanned<Pattern>, Spanned<pt::Expr>)>,
    b: Seq<(Spanned<Pattern>, Spanned<pt::Expr>)>,
    scope: Map<Seq<char>, TypeKindV>,
)
    requires
        parms_view(a) == parms_view(b),
    ensures
        type_arms_rule(a, scope) == type_arms_rule(b, scope),
        arms_reach_call(a, scope) == arms_reach_call(b, scope),
    decreases a, 1int,
{
    lemma_parms_eq(a, b);
    if a.len() > 0 {
        lemma_type_arms_view(a.drop_last(), b.drop_last(), scope);
        lemma_type_expr_view(a.last().1, b.last().1, scope);
    }
}

proof fn lemma_type_statements_view(a: Seq<Spanned<pt::Statement>>, b: Seq<Spanned<pt::Statement>>, scope: Map<Seq<char>, TypeKindV>)
    requires
        a.len() == b.len(),
        forall|i: int| 0 <= i < a.len() ==> pstmt_view(#[trigger] a[i]) == pstmt_view(b[i]),
    ensures
        type_statements_rule(a, scope) == type_statements_rule(b, scope),
        statements_reach_call(a, scope) == statements_reach_call(b, scope),
    decreases a.len(),
{
    if a.len() > 0 {
        assert forall|i: int| 0 <= i < a.len() - 1 implies pstmt_view(#[trigger] a.drop_last()[i]) == pstmt_view(
            b.drop_last()[i],
        ) by {
            assert(pstmt_view(a[i]) == pstmt_view(b[i]));
        }
        lemma_type_statements_view(a.drop_last(), b.drop_last(), scope);
        let (x, y) = (a.last(), b.last());
        assert(pstmt_view(a[a.len() - 1]) == pstmt_view(b[a.len() - 1]));
        match x.inner {
            pt::Statement::Expr(ex) => match y.inner {
                pt::Statement::Expr(ey) => {
                    lemma_type_expr_view(ex, ey, scope);
                    assert(type_statement_rule(x, scope) == type_statement_rule(y, scope));
                    assert(statement_reaches_call(x, scope) == statement_reaches_call(y, scope));
                },
            },
        }
    }
}

/// Blocks with the same view type check alike.
pub proof fn lemma_type_block_view(a: Spanned<pt::Block>, b: Spanned<pt::Block>, scope: Map<Seq<char>, TypeKindV>)
    requires
        pblock_view(a.inner) == pblock_view(b.inner),
        a.span == b.span,
    ensures
        type_block_rule(a, scope) == type_block_rule(b, scope),
        block_reaches_call(a.inner, scope) == block_reaches_call(b.inner, scope),
{
    let (av, bv) = (pblock_view(a.inner), pblock_view(b.inner));
    assert(av.body.len() == a.inner.body@.len());
    assert(bv.body.len() == b.inner.body@.len());
    assert forall|i: int| 0 <= i < a.inner.body@.len() implies pstmt_view(#[trigger] a.inner.body@[i]) == pstmt_view(
        b.inner.body@[i],
    ) by {
        assert(av.body[i] == bv.body[i]);
    }
    lemma_type_statements_view(a.inner.body@, b.inner.body@, scope);
    match a.inner.trailing.inner {
        Some(x) => {
            let y = b.inner.trailing.inner->Some_0;
            lemma_type_expr_view(x, y, scope);
        },
        None => {
            assert(b.inner.trailing.inner is None);
        },
    }
}

proof fn lemma_args_scope_view(a: Seq<pt::Argument>, b: Seq<pt::Argument>)
    requires
        a.len() == b.len(),
        forall|i: int| 0 <= i < a.len() ==> parg_view(#[trigger] a[i]) == parg_view(b[i]),
    ensures
        args_scope(a) == args_scope(b),
        args_distinct(a) == args_distinct(b),
    decreases a.len(),
{
    if a.len() > 0 {
        assert forall|i: int| 0 <= i < a.len() - 1 implies parg_view(#[trigger] a.drop_last()[i]) == parg_view(
            b.drop_last()[i],
        ) by {
            assert(parg_view(a[i]) == parg_view(b[i]));
        }
        lemma_args_scope_view(a.drop_last(), b.drop_last());
        assert(parg_view(a[a.len() - 1]) == parg_view(b[a.len() - 1]));
    }
    if args_distinct(a) {
        assert forall|i: int, j: int| 0 <= i < j < b.len() implies (#[trigger] b[i]).name.inner.0@ != (#[trigger] b[j]).name.inner.0@ by {
            assert(parg_view(a[i]) == parg_view(b[i]));
            assert(parg_view(a[j]) == parg_view(b[j]));
            assert(a[i].name.inner.0@ != a[j].name.inner.0@);
        }
    }
    if args_distinct(b) {
        assert forall|i: int, j: int| 0 <= i < j < a.len() implies (#[trigger] a[i]).name.inner.0@ != (#[trigger] a[j]).name.inner.0@ by {
            assert(parg_view(a[i]) == parg_view(b[i]));
            assert(parg_view(a[j]) == parg_view(b[j]));
            assert(b[i].name.inner.0@ != b[j].name.inner.0@);
        }
    }
}

/// Functions with the same view type check alike.
pub proof fn lemma_type_func_view(a: pt::FuncItem, b: pt::FuncItem)
    requires
        pfunc_view(a) == pfunc_view(b),
    ensures
        type_func_item_rule(a) == type_func_item_rule(b),
        func_unsupported(a) == func_unsupported(b),
        a.name.inner.0@ == b.name.inner.0@,
{
    let (av, bv) = (pfunc_view(a), pfunc_view(b));
    assert(av.args.inner.len() == a.args.inner@.len());
    assert(bv.args.inner.len() == b.args.inner@.len());
    assert forall|i: int| 0 <= i < a.args.inner@.len() implies parg_view(#[trigger] a.args.inner@[i]) == parg_view(
        b.args.inner@[i],
    ) by {
        assert(av.args.inner[i] == bv.args.inner[i]);
    }
    assert(av.args.inner.len() == a.args.inner@.len());
    lemma_args_scope_view(a.args.inner@, b.args.inner@);
    lemma_type_block_view(a.body, b.body, args_scope(a.args.inner@));
}

proof fn lemma_type_items_view(a: Seq<Spanned<pt::Item>>, b: Seq<Spanned<pt::Item>>)
    requires
        a.len() == b.len(),
        forall|i: int| 0 <= i < a.len() ==> pitem_view(#[trigger] a[i]) == pitem_view(b[i]),
    ensures
        type_items_rule(a) == type_items_rule(b),
        items_unsupported(a) == items_unsupported(b),
    decreases a.len(),
{
    if a.len() > 0 {
        assert forall|i: int| 0 <= i < a.len() - 1 implies pitem_view(#[trigger] a.drop_last()[i]) == pitem_view(
            b.drop_last()[i],
        ) by {
            assert(pitem_view(a[i]) == pitem_view(b[i]));
        }
        lemma_type_items_view(a.drop_last(), b.drop_last());
        assert(pitem_view(a[a.len() - 1]) == pitem_view(b[a.len() - 1]));
        lemma_type_func_view(item_func(a.last()), item_func(b.last()));
        assert(type_item_rule(a.last()) == type_item_rule(b.last()));
    }
}

/// Modules with the same view type check alike, and are checkable alike.
pub proof fn lemma_type_module_view(a: Spanned<pt::Module>, b: Spanned<pt::Module>)
    requires
        pmodule_view(a) == pmodule_view(b),
    ensures
        type_module_rule(a) == type_module_rule(b),
        module_checkable(a.inner) == module_checkable(b.inner),
{
    let (ai, bi) = (a.inner.items@, b.inner.items@);
    assert(pmodule_view(a).inner.len() == ai.len());
    assert(pmodule_view(b).inner.len() == bi.len());
    assert(ai.len() == bi.len());
    assert forall|i: int| 0 <= i < ai.len() implies pitem_view(#[trigger] ai[i]) == pitem_view(bi[i]) by {
        assert(pmodule_view(a).inner[i] == pitem_view(ai[i]));
        assert(pmodule_view(b).inner[i] == pitem_view(bi[i]));
        assert(pmodule_view(a).inner[i] == pmodule_view(b).inner[i]);
    }
    lemma_type_items_view(ai, bi);
    assert forall|i: int| 0 <= i < ai.len() implies #[trigger] item_func(ai[i]).name.inner.0@ == item_func(bi[i]).name.inner.0@ by {
        assert(pitem_view(ai[i]) == pitem_view(bi[i]));
        lemma_type_func_view(item_func(ai[i]), item_func(bi[i]));
    }
    if module_checkable(a.inner) {
        assert forall|i: int, j: int| 0 <= i < j < bi.len() implies item_func(#[trigger] bi[i]).name.inner.0@ != item_func(
            #[trigger] bi[j],
        ).name.inner.0@ by {
            assert(item_func(ai[i]).name.inner.0@ != item_func(ai[j]).name.inner.0@);
        }
    }
    if module_checkable(b.inner) {
        assert forall|i: int, j: int| 0 <= i < j < ai.len() implies item_func(#[trigger] ai[i]).name.inner.0@ != item_func(
            #[trigger] ai[j],
        ).name.inner.0@ by {
            assert(item_func(bi[i]).name.inner.0@ != item_func(bi[j]).name.inner.0@);
        }
    }
}

} // verus!
