//! The typing rules: what type checking makes of each part of a parse tree,
//! and which errors it reports on the way.

use crate::spring::parse_tree::data as pt;
use crate::spring::span::{Span, Spanned};
use crate::spring::type_tree::data::{
    BlockV, ExprKindV, ExprV, FuncItemV, IdentV, ItemV, ModuleV, Pattern, StatementV, TypeKindV,
};
use crate::spring::type_tree::error::TypeErrorV;
use vstd::prelude::*;

verus! {

/// A typing outcome: the typed value, or `None` where type checking stops
/// with an error, and the errors reported on the way.
pub type Typing<T> = (Option<T>, Seq<TypeErrorV>);

pub open spec fn mismatch(
    receive_expr: Span,
    expected_expr: Span,
    expected: Seq<TypeKindV>,
    received: TypeKindV,
) -> TypeErrorV {
    TypeErrorV::TypeMismatchError { receive_expr, expected_expr, expected, received }
}

/// The type of an arithmetic expression and the errors it reports: its left
/// operand must be an `Int` or a `Float`, its right operand must have the
/// same type, and then the result is an `Int`.
pub open spec fn binop_rule(lhs: ExprV, rhs: ExprV, span: Span) -> (TypeKindV, Seq<TypeErrorV>) {
    if lhs.ty != TypeKindV::Int && lhs.ty != TypeKindV::Float {
        (
            TypeKindV::Error,
            seq![mismatch(lhs.span, span, seq![TypeKindV::Int, TypeKindV::Float], lhs.ty)],
        )
    } else if lhs.ty != rhs.ty {
        (TypeKindV::Error, seq![mismatch(rhs.span, span, seq![lhs.ty], rhs.ty)])
    } else {
        (TypeKindV::Int, seq![])
    }
}

/// The patterns of a `match`'s arms.
pub open spec fn arm_patterns<E>(arms: Seq<(Spanned<Pattern>, E)>) -> Seq<Spanned<Pattern>> {
    Seq::new(arms.len(), |i: int| arms[i].0)
}

/// For each integer covered by `pats`, the span of the first pattern covering it.
pub open spec fn first_covers(pats: Seq<Spanned<Pattern>>) -> Map<u64, Span>
    decreases pats.len(),
{
    if pats.len() == 0 {
        Map::empty()
    } else {
        let prev = first_covers(pats.drop_last());
        match pats.last().inner {
            Pattern::Int(i) => if prev.contains_key(i) {
                prev
            } else {
                prev.insert(i, pats.last().span)
            },
            Pattern::Discard => prev,
        }
    }
}

/// The first integer pattern that repeats an earlier one: the span of the
/// earlier one and of the repeat.
pub open spec fn first_overlap(pats: Seq<Spanned<Pattern>>) -> Option<(Span, Span)>
    decreases pats.len(),
{
    if pats.len() == 0 {
        None
    } else {
        match first_overlap(pats.drop_last()) {
            Some(found) => Some(found),
            None => match pats.last().inner {
                Pattern::Int(i) => if first_covers(pats.drop_last()).contains_key(i) {
                    Some((first_covers(pats.drop_last())[i], pats.last().span))
                } else {
                    None
                },
                Pattern::Discard => None,
            },
        }
    }
}

pub open spec fn has_discard(pats: Seq<Spanned<Pattern>>) -> bool {
    exists|i: int| 0 <= i < pats.len() && (#[trigger] pats[i]).inner == Pattern::Discard
}

/// The first arm from index `k` on whose type differs from the first arm's.
pub open spec fn first_mismatch(arms: Seq<(Spanned<Pattern>, ExprV)>, k: int) -> Option<int>
    decreases arms.len() - k,
{
    if 0 <= k < arms.len() {
        if arms[k].1.ty != arms[0].1.ty {
            Some(k)
        } else {
            first_mismatch(arms, k + 1)
        }
    } else {
        None
    }
}

/// The type of a `match` whose arms are typed, and the errors it reports
/// once its patterns are known to be fine: the scrutinee must be an `Int`,
/// and every arm must have the first arm's type, which is then the match's.
pub open spec fn match_rule(scrutinee: ExprV, arms: Seq<(Spanned<Pattern>, ExprV)>) -> (TypeKindV, Seq<TypeErrorV>) {
    let scrutinee_errors = if scrutinee.ty != TypeKindV::Int {
        seq![mismatch(scrutinee.span, scrutinee.span, seq![TypeKindV::Int], scrutinee.ty)]
    } else {
        seq![]
    };
    let first = arms[0].1;
    match first_mismatch(arms, 1) {
        Some(k) => (
            TypeKindV::Error,
            scrutinee_errors + seq![mismatch(arms[k].1.span, first.span, seq![first.ty], arms[k].1.ty)],
        ),
        None => (first.ty, scrutinee_errors),
    }
}

/// Typing an expression in a scope.
pub open spec fn type_expr_rule(e: Spanned<pt::Expr>, scope: Map<Seq<char>, TypeKindV>) -> Typing<ExprV>
    decreases e, 0int,
{
    let span = e.span;
    match e.inner {
        pt::Expr::Int(i) => (Some(ExprV { kind: ExprKindV::Int(i), ty: TypeKindV::Int, span }), seq![]),
        pt::Expr::Float(f) => (
            Some(ExprV { kind: ExprKindV::Float(f), ty: TypeKindV::Float, span }),
            seq![],
        ),
        pt::Expr::String(s) => (
            Some(ExprV { kind: ExprKindV::String(s@), ty: TypeKindV::String, span }),
            seq![],
        ),
        pt::Expr::Var(ident) => {
            let id = IdentV { name: ident.0@, span };
            if scope.contains_key(ident.0@) {
                (Some(ExprV { kind: ExprKindV::Var(id), ty: scope[ident.0@], span }), seq![])
            } else {
                (
                    Some(ExprV { kind: ExprKindV::Var(id), ty: TypeKindV::Error, span }),
                    seq![TypeErrorV::UnknownVariableError { ident_span: span }],
                )
            }
        },
        pt::Expr::BinOp(b) => {
            let (l, lerrs) = type_expr_rule(*b.lhs, scope);
            match l {
                None => (None, lerrs),
                Some(lhs) => {
                    let (r, rerrs) = type_expr_rule(*b.rhs, scope);
                    match r {
                        None => (None, lerrs + rerrs),
                        Some(rhs) => {
                            let (ty, errs) = binop_rule(lhs, rhs, span);
                            (
                                Some(
                                    ExprV {
                                        kind: ExprKindV::BinOp(b.op, Box::new(lhs), Box::new(rhs)),
                                        ty,
                                        span,
                                    },
                                ),
                                lerrs + rerrs + errs,
                            )
                        },
                    }
                },
            }
        },
        pt::Expr::Match(m) => {
            let (s, serrs) = type_expr_rule(*m.scrutinee, scope);
            match s {
                None => (None, serrs),
                Some(scrutinee) => {
                    let (a, aerrs) = type_arms_rule(m.arms@, scope);
                    match a {
                        None => (None, serrs + aerrs),
                        Some(arms) => {
                            let pats = arm_patterns(m.arms@);
                            match first_overlap(pats) {
                                Some((first_span, repeat_span)) => (
                                    None,
                                    serrs + aerrs + seq![
                                        TypeErrorV::MatchOverlapError {
                                            match_span: span,
                                            first_span,
                                            repeat_span,
                                        },
                                    ],
                                ),
                                None => if !has_discard(pats) {
                                    (
                                        None,
                                        serrs + aerrs + seq![
                                            TypeErrorV::MatchMissingDiscardError { match_span: span },
                                        ],
                                    )
                                } else {
                                    let (ty, errs) = match_rule(scrutinee, arms);
                                    (
                                        Some(
                                            ExprV {
                                                kind: ExprKindV::Match(Box::new(scrutinee), arms),
                                                ty,
                                                span,
                                            },
                                        ),
                                        serrs + aerrs + errs,
                                    )
                                },
                            }
                        },
                    }
                },
            }
        },
        pt::Expr::MacroCall(c) => {
            let (a, errs) = type_exprs_rule(c.args@, scope);
            match a {
                None => (None, errs),
                Some(args) => (
                    Some(
                        ExprV {
                            kind: ExprKindV::MacroCall(IdentV { name: c.name.inner.0@, span: c.name.span }, args),
                            ty: TypeKindV::Unit,
                            span,
                        },
                    ),
                    errs,
                ),
            }
        },
        pt::Expr::FuncCall(_) => (None, seq![]),
    }
}

/// Typing expressions one after the other, stopping at the first that stops.
pub open spec fn type_exprs_rule(es: Seq<Spanned<pt::Expr>>, scope: Map<Seq<char>, TypeKindV>) -> Typing<Seq<ExprV>>
    decreases es, 1int,
{
    if es.len() == 0 {
        (Some(seq![]), seq![])
    } else {
        let (p, perrs) = type_exprs_rule(es.drop_last(), scope);
        match p {
            None => (None, perrs),
            Some(prev) => {
                let (x, xerrs) = type_expr_rule(es.last(), scope);
                match x {
                    None => (None, perrs + xerrs),
                    Some(v) => (Some(prev.push(v)), perrs + xerrs),
                }
            },
        }
    }
}

/// Typing the arms of a `match` one after the other.
pub open spec fn type_arms_rule(
    arms: Seq<(Spanned<Pattern>, Spanned<pt::Expr>)>,
    scope: Map<Seq<char>, TypeKindV>,
) -> Typing<Seq<(Spanned<Pattern>, ExprV)>>
    decreases arms, 1int,
{
    if arms.len() == 0 {
        (Some(seq![]), seq![])
    } else {
        let (p, perrs) = type_arms_rule(arms.drop_last(), scope);
        match p {
            None => (None, perrs),
            Some(prev) => {
                let (x, xerrs) = type_expr_rule(arms.last().1, scope);
                match x {
                    None => (None, perrs + xerrs),
                    Some(v) => (Some(prev.push((arms.last().0, v))), perrs + xerrs),
                }
            },
        }
    }
}

pub open spec fn type_type_rule(t: pt::Type) -> TypeKindV {
    match t {
        pt::Type::Unit => TypeKindV::Unit,
        pt::Type::Int => TypeKindV::Int,
        pt::Type::Float => TypeKindV::Float,
        pt::Type::String => TypeKindV::String,
    }
}

pub open spec fn type_statement_rule(stmt: Spanned<pt::Statement>, scope: Map<Seq<char>, TypeKindV>) -> Typing<StatementV> {
    match stmt.inner {
        pt::Statement::Expr(e) => {
            let (x, errs) = type_expr_rule(e, scope);
            match x {
                None => (None, errs),
                Some(ev) => (Some(StatementV { expr: ev, ty: ev.ty, span: stmt.span }), errs),
            }
        },
    }
}

/// Typing statements one after the other, stopping at the first that stops.
pub open spec fn type_statements_rule(
    stmts: Seq<Spanned<pt::Statement>>,
    scope: Map<Seq<char>, TypeKindV>,
) -> Typing<Seq<StatementV>>
    decreases stmts.len(),
{
    if stmts.len() == 0 {
        (Some(seq![]), seq![])
    } else {
        let (p, perrs) = type_statements_rule(stmts.drop_last(), scope);
        match p {
            None => (None, perrs),
            Some(prev) => {
                let (x, xerrs) = type_statement_rule(stmts.last(), scope);
                match x {
                    None => (None, perrs + xerrs),
                    Some(v) => (Some(prev.push(v)), perrs + xerrs),
                }
            },
        }
    }
}

/// Typing a block: its statements, then its trailing expression, which is
/// the unit value where there is none.
pub open spec fn type_block_rule(block: Spanned<pt::Block>, scope: Map<Seq<char>, TypeKindV>) -> Typing<BlockV> {
    let (b, berrs) = type_statements_rule(block.inner.body@, scope);
    match b {
        None => (None, berrs),
        Some(body) => match block.inner.trailing.inner {
            Some(t) => {
                let (x, xerrs) = type_expr_rule(t, scope);
                match x {
                    None => (None, berrs + xerrs),
                    Some(trailing) => (Some(BlockV { body, trailing, span: block.span }), berrs + xerrs),
                }
            },
            None => (
                Some(
                    BlockV {
                        body,
                        trailing: ExprV {
                            kind: ExprKindV::Unit,
                            ty: TypeKindV::Unit,
                            span: block.inner.trailing.span,
                        },
                        span: block.span,
                    },
                ),
                berrs,
            ),
        },
    }
}

/// The scope of a function's body: its arguments with their types.
pub open spec fn args_scope(args: Seq<pt::Argument>) -> Map<Seq<char>, TypeKindV>
    decreases args.len(),
{
    if args.len() == 0 {
        Map::empty()
    } else {
        args_scope(args.drop_last()).insert(args.last().name.inner.0@, type_type_rule(args.last().ty.inner))
    }
}

pub open spec fn type_func_item_rule(f: pt::FuncItem) -> Typing<FuncItemV> {
    let (b, errs) = type_block_rule(f.body, args_scope(f.args.inner@));
    match b {
        None => (None, errs),
        Some(body) => (Some(FuncItemV { name: IdentV { name: f.name.inner.0@, span: f.name.span }, body }), errs),
    }
}

pub open spec fn type_item_rule(item: Spanned<pt::Item>) -> Typing<ItemV> {
    match item.inner {
        pt::Item::Func(f) => {
            let (x, errs) = type_func_item_rule(f);
            match x {
                None => (None, errs),
                Some(fv) => (Some(ItemV { func: fv, span: item.span }), errs),
            }
        },
    }
}

/// Typing items one after the other, stopping at the first that stops.
pub open spec fn type_items_rule(items: Seq<Spanned<pt::Item>>) -> Typing<Seq<ItemV>>
    decreases items.len(),
{
    if items.len() == 0 {
        (Some(seq![]), seq![])
    } else {
        let (p, perrs) = type_items_rule(items.drop_last());
        match p {
            None => (None, perrs),
            Some(prev) => {
                let (x, xerrs) = type_item_rule(items.last());
                match x {
                    None => (None, perrs + xerrs),
                    Some(v) => (Some(prev.push(v)), perrs + xerrs),
                }
            },
        }
    }
}

pub open spec fn type_module_rule(m: Spanned<pt::Module>) -> Typing<ModuleV> {
    let (x, errs) = type_items_rule(m.inner.items@);
    match x {
        None => (None, errs),
        Some(items) => (Some(ModuleV { items, span: m.span }), errs),
    }
}

/// No two arguments of a function share a name.
pub open spec fn args_distinct(args: Seq<pt::Argument>) -> bool {
    forall|i: int, j: int| 0 <= i < j < args.len() ==> (#[trigger] args[i]).name.inner.0@ != (#[trigger] args[j]).name.inner.0@
}

pub open spec fn item_func(item: Spanned<pt::Item>) -> pt::FuncItem {
    match item.inner {
        pt::Item::Func(f) => f,
    }
}

/// Whether type checking `e` reaches a function call before it stops
/// (type checking a call is not supported).
pub open spec fn reaches_call(e: Spanned<pt::Expr>, scope: Map<Seq<char>, TypeKindV>) -> bool
    decreases e, 0int,
{
    match e.inner {
        pt::Expr::FuncCall(_) => true,
        pt::Expr::BinOp(b) => reaches_call(*b.lhs, scope) || (type_expr_rule(*b.lhs, scope).0 is Some && reaches_call(
            *b.rhs,
            scope,
        )),
        pt::Expr::Match(m) => reaches_call(*m.scrutinee, scope) || (type_expr_rule(*m.scrutinee, scope).0 is Some
            && arms_reach_call(m.arms@, scope)),
        pt::Expr::MacroCall(c) => exprs_reach_call(c.args@, scope),
        _ => false,
    }
}

pub open spec fn exprs_reach_call(es: Seq<Spanned<pt::Expr>>, scope: Map<Seq<char>, TypeKindV>) -> bool
    decreases es, 1int,
{
    if es.len() == 0 {
        false
    } else {
        exprs_reach_call(es.drop_last(), scope) || (type_exprs_rule(es.drop_last(), scope).0 is Some && reaches_call(
            es.last(),
            scope,
        ))
    }
}

pub open spec fn arms_reach_call(arms: Seq<(Spanned<Pattern>, Spanned<pt::Expr>)>, scope: Map<Seq<char>, TypeKindV>) -> bool
    decreases arms, 1int,
{
    if arms.len() == 0 {
        false
    } else {
        arms_reach_call(arms.drop_last(), scope) || (type_arms_rule(arms.drop_last(), scope).0 is Some && reaches_call(
            arms.last().1,
            scope,
        ))
    }
}

pub open spec fn statement_reaches_call(stmt: Spanned<pt::Statement>, scope: Map<Seq<char>, TypeKindV>) -> bool {
    match stmt.inner {
        pt::Statement::Expr(e) => reaches_call(e, scope),
    }
}

pub open spec fn statements_reach_call(stmts: Seq<Spanned<pt::Statement>>, scope: Map<Seq<char>, TypeKindV>) -> bool
    decreases stmts.len(),
{
    if stmts.len() == 0 {
        false
    } else {
        statements_reach_call(stmts.drop_last(), scope) || (type_statements_rule(stmts.drop_last(), scope).0 is Some
            && statement_reaches_call(stmts.last(), scope))
    }
}

pub open spec fn block_reaches_call(block: pt::Block, scope: Map<Seq<char>, TypeKindV>) -> bool {
    statements_reach_call(block.body@, scope) || (type_statements_rule(block.body@, scope).0 is Some
        && match block.trailing.inner {
        Some(t) => reaches_call(t, scope),
        None => false,
    })
}

/// What type checking a function does not handle: two of its arguments
/// share a name, or checking its body reaches a function call.
pub open spec fn func_unsupported(f: pt::FuncItem) -> bool {
    !args_distinct(f.args.inner@) || block_reaches_call(f.body.inner, args_scope(f.args.inner@))
}

/// Whether type checking the items one after the other reaches an item it
/// does not handle before it stops.
pub open spec fn items_unsupported(items: Seq<Spanned<pt::Item>>) -> bool
    decreases items.len(),
{
    if items.len() == 0 {
        false
    } else {
        items_unsupported(items.drop_last()) || (type_items_rule(items.drop_last()).0 is Some && func_unsupported(
            item_func(items.last()),
        ))
    }
}

/// A module the type checker handles: no two functions share a name, and
/// checking its functions in order reaches none it does not handle.
pub open spec fn module_checkable(m: pt::Module) -> bool {
    let items = m.items@;
    &&& forall|i: int, j: int|
        0 <= i < j < items.len() ==> item_func(#[trigger] items[i]).name.inner.0@ != item_func(#[trigger] items[j]).name.inner.0@
    &&& !items_unsupported(items)
}

/// The type of a function: its arguments' types and its return type.
pub open spec fn signature_rule(f: pt::FuncItem) -> TypeKindV {
    TypeKindV::Func(
        Seq::new(f.args.inner@.len(), |i: int| type_type_rule(f.args.inner@[i].ty.inner)),
        Box::new(type_type_rule(f.return_type.inner)),
    )
}

// ---------------------------------------------------------------------------
// Type checking stops only after reporting an error
// ---------------------------------------------------------------------------

/// Type checking an expression that reaches no call stops only after it
/// has reported an error.
pub proof fn law_expr_stop_reported(e: Spanned<pt::Expr>, scope: Map<Seq<char>, TypeKindV>)
    requires
        type_expr_rule(e, scope).0 is None,
        !reaches_call(e, scope),
    ensures
        type_expr_rule(e, scope).1.len() > 0,
    decreases e, 0int,
{
    match e.inner {
        pt::Expr::BinOp(b) => {
            if type_expr_rule(*b.lhs, scope).0 is None {
                law_expr_stop_reported(*b.lhs, scope);
            } else {
                law_expr_stop_reported(*b.rhs, scope);
            }
        },
        pt::Expr::Match(m) => {
            if type_expr_rule(*m.scrutinee, scope).0 is None {
                law_expr_stop_reported(*m.scrutinee, scope);
            } else if type_arms_rule(m.arms@, scope).0 is None {
                law_arms_stop_reported(m.arms@, scope);
            }
        },
        pt::Expr::MacroCall(c) => {
            law_exprs_stop_reported(c.args@, scope);
        },
        _ => {},
    }
}

pub proof fn law_exprs_stop_reported(es: Seq<Spanned<pt::Expr>>, scope: Map<Seq<char>, TypeKindV>)
    requires
        type_exprs_rule(es, scope).0 is None,
        !exprs_reach_call(es, scope),
    ensures
        type_exprs_rule(es, scope).1.len() > 0,
    decreases es, 1int,
{
    if es.len() > 0 {
        if type_exprs_rule(es.drop_last(), scope).0 is None {
            law_exprs_stop_reported(es.drop_last(), scope);
        } else {
            law_expr_stop_reported(es.last(), scope);
        }
    }
}

pub proof fn law_arms_stop_reported(arms: Seq<(Spanned<Pattern>, Spanned<pt::Expr>)>, scope: Map<Seq<char>, TypeKindV>)
    requires
        type_arms_rule(arms, scope).0 is None,
        !arms_reach_call(arms, scope),
    ensures
        type_arms_rule(arms, scope).1.len() > 0,
    decreases arms, 1int,
{
    if arms.len() > 0 {
        if type_arms_rule(arms.drop_last(), scope).0 is None {
            law_arms_stop_reported(arms.drop_last(), scope);
        } else {
            law_expr_stop_reported(arms.last().1, scope);
        }
    }
}

proof fn lemma_statements_stop_reported(stmts: Seq<Spanned<pt::Statement>>, scope: Map<Seq<char>, TypeKindV>)
    requires
        type_statements_rule(stmts, scope).0 is None,
        !statements_reach_call(stmts, scope),
    ensures
        type_statements_rule(stmts, scope).1.len() > 0,
    decreases stmts.len(),
{
    if stmts.len() > 0 {
        if type_statements_rule(stmts.drop_last(), scope).0 is None {
            lemma_statements_stop_reported(stmts.drop_last(), scope);
        } else {
            match stmts.last().inner {
                pt::Statement::Expr(e) => law_expr_stop_reported(e, scope),
            }
        }
    }
}

/// Type checking a statement that reaches no call stops only after it has
/// reported an error.
pub proof fn law_statement_stop_reported(stmt: Spanned<pt::Statement>, scope: Map<Seq<char>, TypeKindV>)
    requires
        type_statement_rule(stmt, scope).0 is None,
        !statement_reaches_call(stmt, scope),
    ensures
        type_statement_rule(stmt, scope).1.len() > 0,
{
    match stmt.inner {
        pt::Statement::Expr(e) => law_expr_stop_reported(e, scope),
    }
}

/// Type checking a block that reaches no call stops only after it has
/// reported an error.
pub proof fn law_block_stop_reported(block: Spanned<pt::Block>, scope: Map<Seq<char>, TypeKindV>)
    requires
        type_block_rule(block, scope).0 is None,
        !block_reaches_call(block.inner, scope),
    ensures
        type_block_rule(block, scope).1.len() > 0,
{
    if type_statements_rule(block.inner.body@, scope).0 is None {
        lemma_statements_stop_reported(block.inner.body@, scope);
    } else {
        match block.inner.trailing.inner {
            Some(t) => law_expr_stop_reported(t, scope),
            None => {},
        }
    }
}

proof fn lemma_items_stop_reported(items: Seq<Spanned<pt::Item>>)
    requires
        type_items_rule(items).0 is None,
        !items_unsupported(items),
    ensures
        type_items_rule(items).1.len() > 0,
    decreases items.len(),
{
    if items.len() > 0 {
        if type_items_rule(items.drop_last()).0 is None {
            lemma_items_stop_reported(items.drop_last());
        } else {
            let f = item_func(items.last());
            law_block_stop_reported(f.body, args_scope(f.args.inner@));
        }
    }
}

/// Type checking a module it handles stops only after it has reported an
/// error.
pub proof fn law_module_stop_reported(m: Spanned<pt::Module>)
    requires
        type_module_rule(m).0 is None,
        module_checkable(m.inner),
    ensures
        type_module_rule(m).1.len() > 0,
{
    lemma_items_stop_reported(m.inner.items@);
}


/// Arithmetic is on numbers. Where the left operand of an arithmetic
/// expression is neither an `Int` nor a `Float`, typing it reports, last,
/// that the operand's type mismatches the expected `[Int, Float]`, and gives
/// the expression the error type. So an arithmetic expression typed without
/// error has two numeric operands of the same type.
pub proof fn law_arithmetic_on_numbers(e: Spanned<pt::Expr>, scope: Map<Seq<char>, TypeKindV>)
    requires
        e.inner is BinOp,
        type_expr_rule(e, scope).0 is Some,
    ensures
        ({
            let typed = type_expr_rule(e, scope).0->Some_0;
            let errs = type_expr_rule(e, scope).1;
            match typed.kind {
                ExprKindV::BinOp(_, l, r) => {
                    &&& (l.ty != TypeKindV::Int && l.ty != TypeKindV::Float) ==> typed.ty == TypeKindV::Error
                        && errs.len() > 0 && errs.last() == (TypeErrorV::TypeMismatchError {
                        receive_expr: l.span,
                        expected_expr: e.span,
                        expected: seq![TypeKindV::Int, TypeKindV::Float],
                        received: l.ty,
                    })
                    &&& typed.ty != TypeKindV::Error ==> (l.ty == TypeKindV::Int || l.ty == TypeKindV::Float)
                        && r.ty == l.ty
                },
                _ => false,
            }
        }),
{
    match e.inner {
        pt::Expr::BinOp(b) => {
            let (l, lerrs) = type_expr_rule(*b.lhs, scope);
            let (r, rerrs) = type_expr_rule(*b.rhs, scope);
            if let (Some(lhs), Some(rhs)) = (l, r) {
                let (ty, errs) = binop_rule(lhs, rhs, e.span);
                if errs.len() > 0 {
                    let all = lerrs + rerrs + errs;
                    assert(all[all.len() - 1] == errs[errs.len() - 1]);
                }
            }
        },
        _ => {},
    }
}

} // verus!
