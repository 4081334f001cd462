//! Type checking the parse tree into the typed tree.

pub mod data;
pub mod error;
pub mod invariance;
pub mod rules;
pub mod scope;
pub mod support;

use crate::spring::parse_tree::data as pt;
use crate::spring::span::{Span, Spanned};
use crate::spring::type_tree::data::{
    arms_view, exprs_view, kind_view, kinds_view, statements_view, BinOpExpr, Block, Expr,
    ExprKind, ExprV, FuncItem, Ident, Item, ItemKind, MacroCallExpr, MatchExpr, Module,
    Pattern, Statement, StatementKind, Type, TypeKind, TypeKindV,
};
use crate::spring::type_tree::error::{kind_seq_view, TypeError, TypeErrorV};
use crate::spring::type_tree::rules::{
    arm_patterns, args_distinct, args_scope, arms_reach_call, binop_rule, block_reaches_call,
    exprs_reach_call, first_covers, first_mismatch, first_overlap, func_unsupported, has_discard,
    item_func, items_unsupported, match_rule, mismatch, module_checkable, reaches_call,
    signature_rule, statement_reaches_call, statements_reach_call,
    type_arms_rule, type_block_rule, type_expr_rule, type_exprs_rule, type_func_item_rule,
    type_item_rule, type_items_rule, type_module_rule, type_statement_rule,
    type_statements_rule, type_type_rule,
};
use crate::spring::type_tree::rules::{
    law_block_stop_reported, law_expr_stop_reported, law_module_stop_reported, law_statement_stop_reported,
};
use crate::spring::type_tree::scope::Scope;
use crate::spring::DummyError;
use std::collections::HashMap;
use vstd::prelude::*;
use vstd::string::StringExecFns;

verus! {

broadcast use vstd::std_specs::hash::group_hash_axioms;

/// The state of type checking one source text: the text, and the errors
/// reported so far.
pub struct TypeContext<'src> {
    pub src: &'src str,
    pub errors: Vec<TypeError>,
}

// ---------------------------------------------------------------------------
// Lemmas
// ---------------------------------------------------------------------------

pub proof fn lemma_kinds_view(ts: Seq<Type>)
    ensures
        kinds_view(ts).len() == ts.len(),
        forall|i: int| 0 <= i < ts.len() ==> #[trigger] kinds_view(ts)[i] == kind_view(ts[i].kind),
    decreases ts.len(),
{
    if ts.len() > 0 {
        lemma_kinds_view(ts.drop_last());
        assert forall|i: int| 0 <= i < ts.len() implies #[trigger] kinds_view(ts)[i] == kind_view(ts[i].kind) by {
            if i < ts.len() - 1 {
                assert(ts.drop_last()[i] == ts[i]);
            }
        }
    }
}

pub proof fn lemma_exprs_view(es: Seq<Expr>)
    ensures
        exprs_view(es).len() == es.len(),
        forall|i: int| 0 <= i < es.len() ==> #[trigger] exprs_view(es)[i] == es[i]@,
    decreases es.len(),
{
    if es.len() > 0 {
        lemma_exprs_view(es.drop_last());
        assert forall|i: int| 0 <= i < es.len() implies #[trigger] exprs_view(es)[i] == es[i]@ by {
            if i < es.len() - 1 {
                assert(es.drop_last()[i] == es[i]);
            }
        }
    }
}

pub proof fn lemma_arms_view(arms: Seq<(Spanned<Pattern>, Expr)>)
    ensures
        arms_view(arms).len() == arms.len(),
        forall|i: int| 0 <= i < arms.len() ==> #[trigger] arms_view(arms)[i] == (arms[i].0, arms[i].1@),
    decreases arms.len(),
{
    if arms.len() > 0 {
        lemma_arms_view(arms.drop_last());
        assert forall|i: int| 0 <= i < arms.len() implies #[trigger] arms_view(arms)[i] == (arms[i].0, arms[i].1@) by {
            if i < arms.len() - 1 {
                assert(arms.drop_last()[i] == arms[i]);
            }
        }
    }
}

proof fn lemma_exprs_view_push(es: Seq<Expr>, e: Expr)
    ensures
        exprs_view(es.push(e)) == exprs_view(es).push(e@),
{
    assert(es.push(e).drop_last() =~= es);
}

proof fn lemma_arms_view_push(arms: Seq<(Spanned<Pattern>, Expr)>, arm: (Spanned<Pattern>, Expr))
    ensures
        arms_view(arms.push(arm)) == arms_view(arms).push((arm.0, arm.1@)),
{
    assert(arms.push(arm).drop_last() =~= arms);
}

/// Once a prefix of the expressions stops type checking, so do all of them,
/// with the same errors.
proof fn lemma_type_exprs_stop(es: Seq<Spanned<pt::Expr>>, k: int, scope: Map<Seq<char>, TypeKindV>)
    requires
        0 <= k <= es.len(),
        type_exprs_rule(es.take(k), scope).0 is None,
    ensures
        type_exprs_rule(es, scope) == type_exprs_rule(es.take(k), scope),
    decreases es.len() - k,
{
    if k < es.len() {
        assert(es.take(k + 1).drop_last() =~= es.take(k));
        lemma_type_exprs_stop(es, k + 1, scope);
    } else {
        assert(es.take(k) =~= es);
    }
}

proof fn lemma_type_arms_stop(
    arms: Seq<(Spanned<Pattern>, Spanned<pt::Expr>)>,
    k: int,
    scope: Map<Seq<char>, TypeKindV>,
)
    requires
        0 <= k <= arms.len(),
        type_arms_rule(arms.take(k), scope).0 is None,
    ensures
        type_arms_rule(arms, scope) == type_arms_rule(arms.take(k), scope),
    decreases arms.len() - k,
{
    if k < arms.len() {
        assert(arms.take(k + 1).drop_last() =~= arms.take(k));
        lemma_type_arms_stop(arms, k + 1, scope);
    } else {
        assert(arms.take(k) =~= arms);
    }
}

/// Once type checking a prefix of the expressions reaches a call, so does
/// type checking all of them.
proof fn lemma_exprs_reach_prefix(es: Seq<Spanned<pt::Expr>>, k: int, scope: Map<Seq<char>, TypeKindV>)
    requires
        0 <= k <= es.len(),
        exprs_reach_call(es.take(k), scope),
    ensures
        exprs_reach_call(es, scope),
    decreases es.len() - k,
{
    if k < es.len() {
        assert(es.take(k + 1).drop_last() =~= es.take(k));
        lemma_exprs_reach_prefix(es, k + 1, scope);
    } else {
        assert(es.take(k) =~= es);
    }
}

proof fn lemma_arms_reach_prefix(arms: Seq<(Spanned<Pattern>, Spanned<pt::Expr>)>, k: int, scope: Map<Seq<char>, TypeKindV>)
    requires
        0 <= k <= arms.len(),
        arms_reach_call(arms.take(k), scope),
    ensures
        arms_reach_call(arms, scope),
    decreases arms.len() - k,
{
    if k < arms.len() {
        assert(arms.take(k + 1).drop_last() =~= arms.take(k));
        lemma_arms_reach_prefix(arms, k + 1, scope);
    } else {
        assert(arms.take(k) =~= arms);
    }
}

proof fn lemma_statements_reach_prefix(stmts: Seq<Spanned<pt::Statement>>, k: int, scope: Map<Seq<char>, TypeKindV>)
    requires
        0 <= k <= stmts.len(),
        statements_reach_call(stmts.take(k), scope),
    ensures
        statements_reach_call(stmts, scope),
    decreases stmts.len() - k,
{
    if k < stmts.len() {
        assert(stmts.take(k + 1).drop_last() =~= stmts.take(k));
        lemma_statements_reach_prefix(stmts, k + 1, scope);
    } else {
        assert(stmts.take(k) =~= stmts);
    }
}

proof fn lemma_items_unsupported_prefix(items: Seq<Spanned<pt::Item>>, k: int)
    requires
        0 <= k <= items.len(),
        items_unsupported(items.take(k)),
    ensures
        items_unsupported(items),
    decreases items.len() - k,
{
    if k < items.len() {
        assert(items.take(k + 1).drop_last() =~= items.take(k));
        lemma_items_unsupported_prefix(items, k + 1);
    } else {
        assert(items.take(k) =~= items);
    }
}

proof fn lemma_type_statements_stop(stmts: Seq<Spanned<pt::Statement>>, k: int, scope: Map<Seq<char>, TypeKindV>)
    requires
        0 <= k <= stmts.len(),
        type_statements_rule(stmts.take(k), scope).0 is None,
    ensures
        type_statements_rule(stmts, scope) == type_statements_rule(stmts.take(k), scope),
    decreases stmts.len() - k,
{
    if k < stmts.len() {
        assert(stmts.take(k + 1).drop_last() =~= stmts.take(k));
        lemma_type_statements_stop(stmts, k + 1, scope);
    } else {
        assert(stmts.take(k) =~= stmts);
    }
}

proof fn lemma_type_items_stop(items: Seq<Spanned<pt::Item>>, k: int)
    requires
        0 <= k <= items.len(),
        type_items_rule(items.take(k)).0 is None,
    ensures
        type_items_rule(items) == type_items_rule(items.take(k)),
    decreases items.len() - k,
{
    if k < items.len() {
        assert(items.take(k + 1).drop_last() =~= items.take(k));
        lemma_type_items_stop(items, k + 1);
    } else {
        assert(items.take(k) =~= items);
    }
}

/// Once a prefix of the patterns overlaps, the whole list overlaps the same way.
proof fn lemma_overlap_stays(pats: Seq<Spanned<Pattern>>, k: int)
    requires
        0 <= k <= pats.len(),
        first_overlap(pats.take(k)) is Some,
    ensures
        first_overlap(pats) == first_overlap(pats.take(k)),
    decreases pats.len() - k,
{
    if k < pats.len() {
        assert(pats.take(k + 1).drop_last() =~= pats.take(k));
        lemma_overlap_stays(pats, k + 1);
    } else {
        assert(pats.take(k) =~= pats);
    }
}

proof fn lemma_first_mismatch_skip(arms: Seq<(Spanned<Pattern>, ExprV)>, k: int)
    requires
        1 <= k <= arms.len(),
        forall|j: int| 1 <= j < k ==> (#[trigger] arms[j]).1.ty == arms[0].1.ty,
    ensures
        first_mismatch(arms, 1) == first_mismatch(arms, k),
    decreases k,
{
    if k > 1 {
        lemma_first_mismatch_skip(arms, k - 1);
        assert(arms[k - 1].1.ty == arms[0].1.ty);
    }
}

// ---------------------------------------------------------------------------
// Types as values
// ---------------------------------------------------------------------------

/// A copy of a type kind.
pub fn clone_kind(k: &TypeKind) -> (c: TypeKind)
    ensures
        c@ == k@,
    decreases k,
{
    match k {
        TypeKind::Error => TypeKind::Error,
        TypeKind::Unit => TypeKind::Unit,
        TypeKind::Int => TypeKind::Int,
        TypeKind::Float => TypeKind::Float,
        TypeKind::String => TypeKind::String,
        TypeKind::Func { args, return_type } => {
            proof {
                assert forall|j: int| 0 <= j < args@.len() implies decreases_to!(k => (#[trigger] args@[j]).kind) by {
                    assert(decreases_to!(k => k->args));
                    assert(decreases_to!(k->args => k->args@));
                    assert(decreases_to!(k->args@ => k->args@[j]));
                    assert(decreases_to!(k->args@[j] => k->args@[j].kind));
                }
                assert(decreases_to!(k => k->return_type));
            }
            let mut copied: Vec<Type> = Vec::new();
            let mut i: usize = 0;
            while i < args.len()
                invariant
                    i <= args@.len(),
                    copied@.len() == i,
                    forall|j: int| 0 <= j < i ==> kind_view((#[trigger] copied@[j]).kind) == kind_view(args@[j].kind),
                    forall|j: int| 0 <= j < args@.len() ==> decreases_to!(k => (#[trigger] args@[j]).kind),
                decreases args@.len() - i,
            {
                let c = clone_kind(&args[i].kind);
                copied.push(Type { kind: c });
                i = i + 1;
            }
            let ret = clone_kind(&return_type.kind);
            proof {
                lemma_kinds_view(copied@);
                lemma_kinds_view(args@);
                assert(kinds_view(copied@) =~= kinds_view(args@));
            }
            TypeKind::Func { args: copied, return_type: Box::new(Type { kind: ret }) }
        },
    }
}

/// How a type reads when shown to the user.
pub open spec fn kind_text(k: TypeKindV) -> Seq<char>
    decreases k, 0int,
{
    match k {
        TypeKindV::Error => "<error>"@,
        TypeKindV::Unit => "Unit"@,
        TypeKindV::Int => "Int"@,
        TypeKindV::Float => "Float"@,
        TypeKindV::String => "String"@,
        TypeKindV::Func(args, ret) => "func("@ + kinds_text(args) + ") -> "@ + kind_text(*ret),
    }
}

/// Types shown one after the other, separated by a comma and a space.
pub open spec fn kinds_text(ks: Seq<TypeKindV>) -> Seq<char>
    decreases ks, 1int,
{
    if ks.len() == 0 {
        seq![]
    } else if ks.len() == 1 {
        kind_text(ks[0])
    } else {
        kinds_text(ks.drop_last()) + ", "@ + kind_text(ks.last())
    }
}

/// The text of a type as shown to the user (see `kind_text`).
pub fn type_text(k: &TypeKind) -> (text: String)
    ensures
        text@ == kind_text(k@),
    decreases k,
{
    match k {
        TypeKind::Error => "<error>".to_owned(),
        TypeKind::Unit => "Unit".to_owned(),
        TypeKind::Int => "Int".to_owned(),
        TypeKind::Float => "Float".to_owned(),
        TypeKind::String => "String".to_owned(),
        TypeKind::Func { args, return_type } => {
            let ghost ks = kinds_view(args@);
            proof {
                assert forall|j: int| 0 <= j < args@.len() implies decreases_to!(k => (#[trigger] args@[j]).kind) by {
                    assert(decreases_to!(k => k->args));
                    assert(decreases_to!(k->args => k->args@));
                    assert(decreases_to!(k->args@ => k->args@[j]));
                    assert(decreases_to!(k->args@[j] => k->args@[j].kind));
                }
                assert(decreases_to!(k => k->return_type));
                lemma_kinds_view(args@);
                assert(ks.take(0) =~= Seq::<TypeKindV>::empty());
            }
            let mut text = "func(".to_owned();
            let mut i: usize = 0;
            while i < args.len()
                invariant
                    i <= args@.len(),
                    ks == kinds_view(args@),
                    ks.len() == args@.len(),
                    forall|j: int| 0 <= j < args@.len() ==> #[trigger] ks[j] == kind_view(args@[j].kind),
                    forall|j: int| 0 <= j < args@.len() ==> decreases_to!(k => (#[trigger] args@[j]).kind),
                    text@ == "func("@ + kinds_text(ks.take(i as int)),
                decreases args@.len() - i,
            {
                let ghost before = text@;
                let piece = type_text(&args[i].kind);
                proof {
                    assert(ks.take(i + 1).last() == ks[i as int]);
                    assert(ks.take(i + 1).drop_last() =~= ks.take(i as int));
                }
                if i > 0 {
                    text = text.concat(", ");
                }
                text = text.concat(piece.as_str());
                proof {
                    if i == 0 {
                        assert(ks.take(1)[0] == ks[0]);
                        assert(text@ =~= "func("@ + kinds_text(ks.take(i + 1)));
                    } else {
                        assert(text@ =~= "func("@ + kinds_text(ks.take(i + 1)));
                    }
                }
                i = i + 1;
            }
            proof {
                assert(ks.take(args@.len() as int) =~= ks);
            }
            let ret = type_text(&return_type.kind);
            let text = text.concat(") -> ");
            let text = text.concat(ret.as_str());
            assert(text@ =~= kind_text(k@));
            text
        },
    }
}

/// A copy of a type.
pub fn clone_type(t: &Type) -> (c: Type)
    ensures
        c@ == t@,
{
    Type { kind: clone_kind(&t.kind) }
}

/// Whether two type kinds are the same.
pub fn kind_eq(a: &TypeKind, b: &TypeKind) -> (same: bool)
    ensures
        same == (a@ == b@),
    decreases a,
{
    match (a, b) {
        (TypeKind::Error, TypeKind::Error) => true,
        (TypeKind::Unit, TypeKind::Unit) => true,
        (TypeKind::Int, TypeKind::Int) => true,
        (TypeKind::Float, TypeKind::Float) => true,
        (TypeKind::String, TypeKind::String) => true,
        (
            TypeKind::Func { args: a_args, return_type: a_ret },
            TypeKind::Func { args: b_args, return_type: b_ret },
        ) => {
            proof {
                lemma_kinds_view(a_args@);
                lemma_kinds_view(b_args@);
                assert forall|j: int| 0 <= j < a_args@.len() implies decreases_to!(a => (#[trigger] a_args@[j]).kind) by {
                    assert(decreases_to!(a => a->args));
                    assert(decreases_to!(a->args => a->args@));
                    assert(decreases_to!(a->args@ => a->args@[j]));
                    assert(decreases_to!(a->args@[j] => a->args@[j].kind));
                }
                assert(decreases_to!(a => a->return_type));
            }
            if a_args.len() != b_args.len() {
                return false;
            }
            let mut i: usize = 0;
            while i < a_args.len()
                invariant
                    i <= a_args@.len(),
                    a_args@.len() == b_args@.len(),
                    forall|j: int| 0 <= j < i ==> kind_view((#[trigger] a_args@[j]).kind) == kind_view(b_args@[j].kind),
                    forall|j: int| 0 <= j < a_args@.len() ==> decreases_to!(a => (#[trigger] a_args@[j]).kind),
                    a@ == TypeKindV::Func(kinds_view(a_args@), Box::new(kind_view(a_ret.kind))),
                    b@ == TypeKindV::Func(kinds_view(b_args@), Box::new(kind_view(b_ret.kind))),
                    kinds_view(a_args@).len() == a_args@.len(),
                    kinds_view(b_args@).len() == b_args@.len(),
                    forall|j: int| 0 <= j < a_args@.len() ==> #[trigger] kinds_view(a_args@)[j] == kind_view(a_args@[j].kind),
                    forall|j: int| 0 <= j < b_args@.len() ==> #[trigger] kinds_view(b_args@)[j] == kind_view(b_args@[j].kind),
                decreases a_args@.len() - i,
            {
                if !kind_eq(&a_args[i].kind, &b_args[i].kind) {
                    assert(kinds_view(a_args@)[i as int] != kinds_view(b_args@)[i as int]);
                    return false;
                }
                i = i + 1;
            }
            assert(kinds_view(a_args@) =~= kinds_view(b_args@));
            kind_eq(&a_ret.kind, &b_ret.kind)
        },
        _ => false,
    }
}

impl<'src> TypeContext<'src> {
    pub open spec fn errors_view(&self) -> Seq<TypeErrorV> {
        Seq::new(self.errors@.len(), |i: int| self.errors@[i]@)
    }

    pub fn new(src: &'src str) -> (ctx: Self)
        ensures
            ctx.src == src,
            ctx.errors_view() == Seq::<TypeErrorV>::empty(),
    {
        let ctx = Self { src, errors: Vec::new() };
        assert(ctx.errors_view() =~= Seq::<TypeErrorV>::empty());
        ctx
    }

    /// The identifier with its span.
    pub fn type_ident(&mut self, ident: Spanned<pt::Ident<'src>>) -> (typed: Ident<'src>)
        ensures
            *final(self) == *old(self),
            typed.name == ident.inner.0,
            typed.span == ident.span,
    {
        Ident { name: ident.inner.0, span: ident.span }
    }

    /// Reports a type mismatch.
    fn report_mismatch(&mut self, receive_expr: Span, expected_expr: Span, expected: Vec<TypeKind>, received: TypeKind)
        ensures
            final(self).src == old(self).src,
            final(self).errors_view() == old(self).errors_view().push(
                mismatch(receive_expr, expected_expr, kind_seq_view(expected@), received@),
            ),
    {
        TypeError::TypeMismatchError { receive_expr, expected_expr, expected, received }.report(self);
    }

    /// Checks the patterns of a `match`: no integer may repeat and a discard
    /// must be among them. Reports what is wrong and answers whether all is fine.
    fn check_patterns(&mut self, arms: &Vec<(Spanned<Pattern>, Expr<'src>)>, match_span: Span) -> (ok: bool)
        ensures
            final(self).src == old(self).src,
            ({
                let pats = arm_patterns(arms@);
                match first_overlap(pats) {
                    Some((first_span, repeat_span)) => {
                        &&& !ok
                        &&& final(self).errors_view() == old(self).errors_view().push(
                            TypeErrorV::MatchOverlapError { match_span, first_span, repeat_span },
                        )
                    },
                    None => if !has_discard(pats) {
                        &&& !ok
                        &&& final(self).errors_view() == old(self).errors_view().push(
                            TypeErrorV::MatchMissingDiscardError { match_span },
                        )
                    } else {
                        &&& ok
                        &&& final(self).errors_view() == old(self).errors_view()
                    },
                }
            }),
    {
        let ghost pats = arm_patterns(arms@);
        let mut has_discard = false;
        let mut ints_covered: HashMap<u64, Span> = HashMap::with_capacity(arms.len());
        let mut i: usize = 0;
        proof {
            assert(pats.take(0) =~= Seq::<Spanned<Pattern>>::empty());
        }
        while i < arms.len()
            invariant
                i <= arms@.len(),
                pats == arm_patterns(arms@),
                ints_covered@ == first_covers(pats.take(i as int)),
                first_overlap(pats.take(i as int)) is None,
                has_discard <==> exists|j: int| 0 <= j < i && (#[trigger] pats[j]).inner == Pattern::Discard,
                self.src == old(self).src,
                self.errors_view() == old(self).errors_view(),
            decreases arms@.len() - i,
        {
            let pat = arms[i].0;
            proof {
                assert(pats.take(i + 1).drop_last() =~= pats.take(i as int));
                assert(pats.take(i + 1).last() == pats[i as int]);
                assert(pats[i as int] == pat);
            }
            match pat.inner {
                Pattern::Int(value) => {
                    match ints_covered.insert(value, pat.span) {
                        Some(first_span) => {
                            proof {
                                lemma_overlap_stays(pats, i as int + 1);
                            }
                            TypeError::MatchOverlapError { match_span, first_span, repeat_span: pat.span }.report(self);
                            return false;
                        },
                        None => {},
                    }
                },
                Pattern::Discard => {
                    has_discard = true;
                },
            }
            i = i + 1;
        }
        proof {
            assert(pats.take(pats.len() as int) =~= pats);
        }
        if !has_discard {
            TypeError::MatchMissingDiscardError { match_span }.report(self);
            return false;
        }
        true
    }

    /// The type of a `match` with these arms: the first arm's type, where
    /// every arm has it; otherwise an error type, after reporting the first
    /// arm that differs.
    fn type_of_arms(&mut self, arms: &Vec<(Spanned<Pattern>, Expr<'src>)>) -> (ty: Type)
        requires
            arms@.len() >= 1,
        ensures
            final(self).src == old(self).src,
            ({
                let av = arms_view(arms@);
                match first_mismatch(av, 1) {
                    Some(m) => {
                        &&& ty@ == TypeKindV::Error
                        &&& final(self).errors_view() == old(self).errors_view().push(
                            mismatch(av[m].1.span, av[0].1.span, seq![av[0].1.ty], av[m].1.ty),
                        )
                    },
                    None => {
                        &&& ty@ == av[0].1.ty
                        &&& final(self).errors_view() == old(self).errors_view()
                    },
                }
            }),
    {
        let ghost av = arms_view(arms@);
        proof {
            lemma_arms_view(arms@);
        }
        let mut k: usize = 1;
        while k < arms.len()
            invariant
                1 <= k <= arms@.len(),
                av == arms_view(arms@),
                av.len() == arms@.len(),
                forall|j: int| 0 <= j < arms@.len() ==> #[trigger] av[j] == (arms@[j].0, arms@[j].1@),
                forall|j: int| 1 <= j < k ==> (#[trigger] av[j]).1.ty == av[0].1.ty,
                self.src == old(self).src,
                self.errors_view() == old(self).errors_view(),
            decreases arms@.len() - k,
        {
            if !kind_eq(&arms[k].1.ty.kind, &arms[0].1.ty.kind) {
                proof {
                    lemma_first_mismatch_skip(av, k as int);
                }
                let expected = vec![clone_kind(&arms[0].1.ty.kind)];
                assert(kind_seq_view(expected@) =~= seq![av[0].1.ty]);
                self.report_mismatch(arms[k].1.span, arms[0].1.span, expected, clone_kind(&arms[k].1.ty.kind));
                return Type { kind: TypeKind::Error };
            }
            k = k + 1;
        }
        proof {
            lemma_first_mismatch_skip(av, k as int);
        }
        clone_type(&arms[0].1.ty)
    }

    /// Type checks an expression in `scope`, reporting the errors it finds.
    pub fn type_expr(&mut self, expr: Spanned<pt::Expr<'src>>, scope: &Scope) -> (res: Result<Expr<'src>, DummyError>)
        requires
            !reaches_call(expr, scope.view_map()),
        ensures
            final(self).src == old(self).src,
            res is Err ==> final(self).errors_view().len() > old(self).errors_view().len(),
            ({
                let (typed, errs) = type_expr_rule(expr, scope.view_map());
                &&& final(self).errors_view() == old(self).errors_view() + errs
                &&& match res {
                    Ok(e) => typed == Some(e@),
                    Err(_) => typed is None,
                }
            }),
        decreases expr,
    {
        proof {
            if type_expr_rule(expr, scope.view_map()).0 is None { law_expr_stop_reported(expr, scope.view_map()); }
        }
        let ghost old_errors = self.errors_view();
        let ghost e0 = expr;
        let ghost sm = scope.view_map();
        let span = expr.span;
        assert(old_errors + Seq::<TypeErrorV>::empty() =~= old_errors);
        match expr.inner {
            pt::Expr::Int(i) => Ok(Expr { kind: ExprKind::Int(i), ty: Type { kind: TypeKind::Int }, span }),
            pt::Expr::Float(f) => Ok(Expr { kind: ExprKind::Float(f), ty: Type { kind: TypeKind::Float }, span }),
            pt::Expr::String(s) => Ok(Expr { kind: ExprKind::String(s), ty: Type { kind: TypeKind::String }, span }),
            pt::Expr::Var(ident) => {
                let ident = self.type_ident(Spanned::with_span(ident, span));
                let ty = match scope.get(&ident) {
                    Some(t) => clone_type(t),
                    None => {
                        TypeError::UnknownVariableError { ident_span: ident.span }.report(self);
                        Type { kind: TypeKind::Error }
                    },
                };
                Ok(Expr { kind: ExprKind::Var(ident), ty, span })
            },
            pt::Expr::BinOp(pt::BinOpExpr { op, lhs, rhs }) => {
                proof {
                    assert(decreases_to!(expr => e0.inner));
                    assert(decreases_to!(expr.inner => e0.inner->BinOp_0));
                    assert(decreases_to!(e0.inner->BinOp_0 => e0.inner->BinOp_0.lhs));
                    assert(decreases_to!(e0.inner->BinOp_0 => e0.inner->BinOp_0.rhs));
                }
                let ghost lrule = type_expr_rule(*lhs, sm);
                let lhs = Box::new(self.type_expr(*lhs, scope)?);
                let ghost mid_errors = self.errors_view();
                let rhs = Box::new(self.type_expr(*rhs, scope)?);
                let ghost rrule = type_expr_rule(*e0.inner->BinOp_0.rhs, sm);
                let ghost lv = expr_view_of(&*lhs);
                let ghost rv = expr_view_of(&*rhs);
                let ghost before = self.errors_view();
                let is_num = match lhs.ty.kind {
                    TypeKind::Int => true,
                    TypeKind::Float => true,
                    _ => false,
                };
                let ty = if !is_num {
                    let expected = vec![TypeKind::Int, TypeKind::Float];
                    assert(kind_seq_view(expected@) =~= seq![TypeKindV::Int, TypeKindV::Float]);
                    self.report_mismatch(lhs.span, span, expected, clone_kind(&lhs.ty.kind));
                    TypeKind::Error
                } else if !kind_eq(&lhs.ty.kind, &rhs.ty.kind) {
                    let expected = vec![clone_kind(&lhs.ty.kind)];
                    assert(kind_seq_view(expected@) =~= seq![lv.ty]);
                    self.report_mismatch(rhs.span, span, expected, clone_kind(&rhs.ty.kind));
                    TypeKind::Error
                } else {
                    TypeKind::Int
                };
                proof {
                    let (bty, berrs) = binop_rule(lv, rv, span);
                    assert(self.errors_view() =~= old_errors + lrule.1 + rrule.1 + berrs);
                }
                Ok(Expr { kind: ExprKind::BinOp(BinOpExpr { op, lhs, rhs }), ty: Type { kind: ty }, span })
            },
            pt::Expr::Match(pt::MatchExpr { scrutinee, arms }) => {
                let ghost pm = e0.inner->Match_0;
                let ghost parms = arms@;
                proof {
                    assert(decreases_to!(expr => e0.inner));
                    assert(decreases_to!(expr.inner => e0.inner->Match_0));
                    assert(decreases_to!(pm => pm.scrutinee));
                    assert forall|j: int| 0 <= j < parms.len() implies decreases_to!(expr => (#[trigger] parms[j]).1) by {
                        assert(decreases_to!(pm => pm.arms));
                        assert(decreases_to!(pm.arms => pm.arms@));
                        assert(decreases_to!(pm.arms@ => pm.arms@[j]));
                        assert(decreases_to!(pm.arms@[j] => pm.arms@[j].1));
                    }
                }
                let ghost srule = type_expr_rule(*pm.scrutinee, sm);
                let scrutinee = match self.type_expr(*scrutinee, scope) {
                    Ok(s) => Box::new(s),
                    Err(err) => {
                        return Err(err);
                    },
                };
                let ghost after_scrutinee = self.errors_view();
                let mut typed_arms: Vec<(Spanned<Pattern>, Expr<'src>)> = Vec::new();
                proof {
                    assert(parms.take(0) =~= Seq::<(Spanned<Pattern>, Spanned<pt::Expr>)>::empty());
                    assert(after_scrutinee + Seq::<TypeErrorV>::empty() =~= after_scrutinee);
                }
                for arm in it: arms.into_iter()
                    invariant
                        old_errors == old(self).errors_view(),
                        expr.inner == pt::Expr::Match(pm),
                        pm.arms@ == parms,
                        srule == type_expr_rule(*pm.scrutinee, sm),
                        srule.0 == Some(scrutinee@),
                        after_scrutinee == old_errors + srule.1,
                        it.seq() == parms,
                        sm == scope.view_map(),
                        self.src == old(self).src,
                        forall|j: int| 0 <= j < parms.len() ==> decreases_to!(expr => (#[trigger] parms[j]).1),
                        !arms_reach_call(parms, sm),
                        typed_arms@.len() == it.index(),
                        forall|j: int| 0 <= j < it.index() ==> (#[trigger] typed_arms@[j]).0 == parms[j].0,
                        ({
                            let (t, errs) = type_arms_rule(parms.take(it.index() as int), sm);
                            &&& t == Some(arms_view(typed_arms@))
                            &&& self.errors_view() == after_scrutinee + errs
                        }),
                {
                    let ghost k = it.index() as int;
                    let ghost before = self.errors_view();
                    proof {
                        assert(parms.take(k + 1).drop_last() =~= parms.take(k));
                        assert(parms.take(k + 1).last() == parms[k]);
                        if reaches_call(parms[k].1, sm) {
                            lemma_arms_reach_prefix(parms, k + 1, sm);
                        }
                    }
                    let (pat, body) = arm;
                    match self.type_expr(body, scope) {
                        Ok(typed) => {
                            proof {
                                lemma_arms_view_push(typed_arms@, (pat, typed));
                                assert(self.errors_view() =~= after_scrutinee + type_arms_rule(parms.take(k + 1), sm).1);
                            }
                            typed_arms.push((pat, typed));
                        },
                        Err(err) => {
                            proof {
                                lemma_type_arms_stop(parms, k + 1, sm);
                                assert(self.errors_view() =~= old_errors + srule.1 + type_arms_rule(parms, sm).1);
                            }
                            return Err(err);
                        },
                    }
                }
                proof {
                    assert(parms.take(parms.len() as int) =~= parms);
                }
                let ghost arms_v = arms_view(typed_arms@);
                proof {
                    lemma_arms_view(typed_arms@);
                    assert(arm_patterns(typed_arms@) =~= arm_patterns(parms));
                }
                if !self.check_patterns(&typed_arms, span) {
                    return Err(DummyError);
                }

                let ghost scrutinee_v = expr_view_of(&*scrutinee);
                let is_int = match scrutinee.ty.kind {
                    TypeKind::Int => true,
                    _ => false,
                };
                if !is_int {
                    let expected = vec![TypeKind::Int];
                    assert(kind_seq_view(expected@) =~= seq![TypeKindV::Int]);
                    self.report_mismatch(scrutinee.span, scrutinee.span, expected, clone_kind(&scrutinee.ty.kind));
                }
                let ty = self.type_of_arms(&typed_arms);
                proof {
                    let (mty, merrs) = match_rule(scrutinee_v, arms_v);
                    assert(self.errors_view() =~= old_errors + srule.1 + type_arms_rule(parms, sm).1 + merrs);
                }
                Ok(Expr { kind: ExprKind::Match(MatchExpr { scrutinee, arms: typed_arms }), ty, span })
            },
            pt::Expr::MacroCall(pt::MacroCallExpr { name, args }) => {
                let ghost pc = e0.inner->MacroCall_0;
                let ghost pargs = args@;
                proof {
                    assert(decreases_to!(expr => e0.inner));
                    assert(decreases_to!(expr.inner => e0.inner->MacroCall_0));
                    assert forall|j: int| 0 <= j < pargs.len() implies decreases_to!(expr => #[trigger] pargs[j]) by {
                        assert(decreases_to!(pc => pc.args));
                        assert(decreases_to!(pc.args => pc.args@));
                        assert(decreases_to!(pc.args@ => pc.args@[j]));
                    }
                    assert(pargs.take(0) =~= Seq::<Spanned<pt::Expr>>::empty());
                }
                let name = self.type_ident(name);
                let mut typed: Vec<Expr<'src>> = Vec::new();
                for arg in it: args.into_iter()
                    invariant
                        old_errors == old(self).errors_view(),
                        expr.inner == pt::Expr::MacroCall(pc),
                        pc.args@ == pargs,
                        it.seq() == pargs,
                        sm == scope.view_map(),
                        self.src == old(self).src,
                        forall|j: int| 0 <= j < pargs.len() ==> decreases_to!(expr => #[trigger] pargs[j]),
                        !exprs_reach_call(pargs, sm),
                        ({
                            let (t, errs) = type_exprs_rule(pargs.take(it.index() as int), sm);
                            &&& t == Some(exprs_view(typed@))
                            &&& self.errors_view() == old_errors + errs
                        }),
                {
                    let ghost k = it.index() as int;
                    proof {
                        assert(pargs.take(k + 1).drop_last() =~= pargs.take(k));
                        assert(pargs.take(k + 1).last() == pargs[k]);
                        assert(it.seq()[k] == pargs[k]);
                        assert(arg == pargs[k]);
                        if reaches_call(pargs[k], sm) {
                            lemma_exprs_reach_prefix(pargs, k + 1, sm);
                        }
                    }
                    match self.type_expr(arg, scope) {
                        Ok(e) => {
                            proof {
                                lemma_exprs_view_push(typed@, e);
                                let prev = type_exprs_rule(pargs.take(k), sm);
                                assert(prev.0 == Some(exprs_view(typed@)));
                                let whole = type_exprs_rule(pargs.take(k + 1), sm);
                                let x = type_expr_rule(pargs[k], sm);
                                assert(x.0 == Some(e@));
                                assert(whole.0 == Some(exprs_view(typed@).push(e@)));
                                assert(whole.1 == prev.1 + x.1);
                                assert(self.errors_view() =~= old_errors + type_exprs_rule(pargs.take(k + 1), sm).1);
                            }
                            typed.push(e);
                        },
                        Err(err) => {
                            proof {
                                lemma_type_exprs_stop(pargs, k + 1, sm);
                                assert(self.errors_view() =~= old_errors + type_exprs_rule(pargs, sm).1);
                            }
                            return Err(err);
                        },
                    }
                }
                proof {
                    assert(pargs.take(pargs.len() as int) =~= pargs);
                }
                Ok(Expr { kind: ExprKind::MacroCall(MacroCallExpr { name, args: typed }), ty: Type { kind: TypeKind::Unit }, span })
            },
            pt::Expr::FuncCall(_) => unreached(),
        }
    }
}

impl<'src> TypeContext<'src> {
    /// The type a type annotation stands for.
    pub fn type_type(&mut self, ty: Spanned<pt::Type>) -> (res: Result<Type, DummyError>)
        ensures
            *final(self) == *old(self),
            res matches Ok(t) && t@ == type_type_rule(ty.inner),
    {
        Ok(Type {
            kind: match ty.inner {
                pt::Type::Unit => TypeKind::Unit,
                pt::Type::Int => TypeKind::Int,
                pt::Type::Float => TypeKind::Float,
                pt::Type::String => TypeKind::String,
            },
        })
    }

    /// Type checks a statement in `scope`.
    pub fn type_statement(&mut self, stmt: Spanned<pt::Statement<'src>>, scope: &Scope) -> (res: Result<Statement<'src>, DummyError>)
        requires
            !statement_reaches_call(stmt, scope.view_map()),
        ensures
            final(self).src == old(self).src,
            res is Err ==> final(self).errors_view().len() > old(self).errors_view().len(),
            ({
                let (typed, errs) = type_statement_rule(stmt, scope.view_map());
                &&& final(self).errors_view() == old(self).errors_view() + errs
                &&& match res {
                    Ok(s) => typed == Some(s@),
                    Err(_) => typed is None,
                }
            }),
    {
        proof {
            if type_statement_rule(stmt, scope.view_map()).0 is None { law_statement_stop_reported(stmt, scope.view_map()); }
        }
        let kind = match stmt.inner {
            pt::Statement::Expr(expr) => StatementKind::Expr(self.type_expr(expr, scope)?),
        };
        let ty = match &kind {
            StatementKind::Expr(expr) => clone_type(&expr.ty),
        };
        Ok(Statement { kind, ty, span: stmt.span })
    }

    /// Type checks a block in `scope`: its statements, then its trailing
    /// expression, which is the unit value where there is none.
    pub fn type_block(&mut self, block: Spanned<pt::Block<'src>>, scope: &Scope) -> (res: Result<Block<'src>, DummyError>)
        requires
            !block_reaches_call(block.inner, scope.view_map()),
        ensures
            final(self).src == old(self).src,
            res is Err ==> final(self).errors_view().len() > old(self).errors_view().len(),
            ({
                let (typed, errs) = type_block_rule(block, scope.view_map());
                &&& final(self).errors_view() == old(self).errors_view() + errs
                &&& match res {
                    Ok(b) => typed == Some(b@),
                    Err(_) => typed is None,
                }
            }),
    {
        proof {
            if type_block_rule(block, scope.view_map()).0 is None { law_block_stop_reported(block, scope.view_map()); }
        }
        let ghost old_errors = self.errors_view();
        let ghost b0 = block;
        let ghost stmts = block.inner.body@;
        let ghost sm = scope.view_map();
        let mut body: Vec<Statement<'src>> = Vec::new();
        proof {
            assert(stmts.take(0) =~= Seq::<Spanned<pt::Statement>>::empty());
            assert(statements_view(body@) =~= Seq::empty());
            assert(old_errors + Seq::<TypeErrorV>::empty() =~= old_errors);
        }
        for stmt in it: block.inner.body.into_iter()
            invariant
                it.seq() == stmts,
                stmts == b0.inner.body@,
                sm == scope.view_map(),
                old_errors == old(self).errors_view(),
                self.src == old(self).src,
                !statements_reach_call(stmts, sm),
                ({
                    let (t, errs) = type_statements_rule(stmts.take(it.index() as int), sm);
                    &&& t == Some(statements_view(body@))
                    &&& self.errors_view() == old_errors + errs
                }),
        {
            let ghost k = it.index() as int;
            proof {
                assert(stmts.take(k + 1).drop_last() =~= stmts.take(k));
                assert(stmts.take(k + 1).last() == stmts[k]);
                if statement_reaches_call(stmts[k], sm) {
                    lemma_statements_reach_prefix(stmts, k + 1, sm);
                }
            }
            match self.type_statement(stmt, scope) {
                Ok(s) => {
                    proof {
                        assert(statements_view(body@.push(s)) =~= statements_view(body@).push(s@));
                        assert(self.errors_view() =~= old_errors + type_statements_rule(stmts.take(k + 1), sm).1);
                    }
                    body.push(s);
                },
                Err(err) => {
                    proof {
                        lemma_type_statements_stop(stmts, k + 1, sm);
                        assert(self.errors_view() =~= old_errors + type_statements_rule(stmts, sm).1);
                    }
                    return Err(err);
                },
            }
        }
        proof {
            assert(stmts.take(stmts.len() as int) =~= stmts);
        }
        let ghost after_body = self.errors_view();
        let trailing = match block.inner.trailing.inner {
            Some(t) => match self.type_expr(t, scope) {
                Ok(e) => e,
                Err(err) => {
                    assert(self.errors_view() =~= old_errors + type_block_rule(b0, sm).1);
                    return Err(err);
                },
            },
            None => Expr {
                kind: ExprKind::Unit,
                ty: Type { kind: TypeKind::Unit },
                span: block.inner.trailing.span,
            },
        };
        proof {
            assert(self.errors_view() =~= old_errors + type_block_rule(b0, sm).1);
        }
        Ok(Block { body, trailing, span: block.span })
    }

    /// The type of a function: its arguments' types and its return type.
    pub fn type_func_signature(&mut self, func: &pt::FuncItem<'src>) -> (res: Result<Type, DummyError>)
        ensures
            *final(self) == *old(self),
            res matches Ok(t) && t@ == signature_rule(*func),
    {
        let ghost args_v = func.args.inner@;
        let mut args: Vec<Type> = Vec::new();
        let mut i: usize = 0;
        while i < func.args.inner.len()
            invariant
                i <= args_v.len(),
                args_v == func.args.inner@,
                args@.len() == i,
                forall|j: int| 0 <= j < i ==> kind_view((#[trigger] args@[j]).kind) == type_type_rule(args_v[j].ty.inner),
                *self == *old(self),
            decreases args_v.len() - i,
        {
            let t = self.type_type(func.args.inner[i].ty)?;
            args.push(t);
            i = i + 1;
        }
        let return_type = self.type_type(func.return_type)?;
        proof {
            lemma_kinds_view(args@);
            assert(kinds_view(args@) =~= Seq::new(args_v.len(), |j: int| type_type_rule(args_v[j].ty.inner)));
        }
        Ok(Type { kind: TypeKind::Func { args, return_type: Box::new(return_type) } })
    }

    /// Type checks a function with its arguments in scope.
    pub fn type_func_item(&mut self, func: pt::FuncItem<'src>) -> (res: Result<FuncItem<'src>, DummyError>)
        requires
            !func_unsupported(func),
        ensures
            final(self).src == old(self).src,
            res is Err ==> final(self).errors_view().len() > old(self).errors_view().len(),
            ({
                let (typed, errs) = type_func_item_rule(func);
                &&& final(self).errors_view() == old(self).errors_view() + errs
                &&& match res {
                    Ok(f) => typed == Some(f@),
                    Err(_) => typed is None,
                }
            }),
    {
        proof {
            if type_func_item_rule(func).0 is None { law_block_stop_reported(func.body, args_scope(func.args.inner@)); }
        }
        let ghost f0 = func;
        let ghost args_v = func.args.inner@;
        let mut scope = Scope::new();
        proof {
            assert(args_v.take(0) =~= Seq::<pt::Argument>::empty());
        }
        for arg in it: func.args.inner.into_iter()
            invariant
                it.seq() == args_v,
                args_distinct(args_v),
                *self == *old(self),
                scope.view_map() == args_scope(args_v.take(it.index() as int)),
                forall|name: Seq<char>| #[trigger] scope.declares(name) ==> exists|j: int| 0 <= j < it.index() && (#[trigger] args_v[j]).name.inner.0@ == name,
        {
            let ghost k = it.index() as int;
            proof {
                assert(args_v.take(k + 1).drop_last() =~= args_v.take(k));
                assert(args_v.take(k + 1).last() == args_v[k]);
                assert(arg == args_v[k]);
                if scope.declares(arg.name.inner.0@) {
                    let j = choose|j: int| 0 <= j < k && (#[trigger] args_v[j]).name.inner.0@ == arg.name.inner.0@;
                    assert(args_v[j].name.inner.0@ != args_v[k].name.inner.0@);
                }
            }
            let ty = self.type_type(arg.ty)?;
            scope.set(arg.name.inner.0, ty);
            proof {
                assert forall|name: Seq<char>| #[trigger] scope.declares(name) implies exists|j: int| 0 <= j < k + 1 && (#[trigger] args_v[j]).name.inner.0@ == name by {
                    if name == arg.name.inner.0@ {
                        assert(args_v[k].name.inner.0@ == name);
                    } else {
                        let j = choose|j: int| 0 <= j < k && (#[trigger] args_v[j]).name.inner.0@ == name;
                        assert(0 <= j < k + 1 && args_v[j].name.inner.0@ == name);
                    }
                }
            }
        }
        proof {
            assert(args_v.take(args_v.len() as int) =~= args_v);
        }
        let name = self.type_ident(func.name);
        let body = self.type_block(func.body, &scope)?;
        Ok(FuncItem { name, body })
    }

    /// Type checks an item.
    pub fn type_item(&mut self, item: Spanned<pt::Item<'src>>) -> (res: Result<Item<'src>, DummyError>)
        requires
            !func_unsupported(item_func(item)),
        ensures
            final(self).src == old(self).src,
            res is Err ==> final(self).errors_view().len() > old(self).errors_view().len(),
            ({
                let (typed, errs) = type_item_rule(item);
                &&& final(self).errors_view() == old(self).errors_view() + errs
                &&& match res {
                    Ok(i) => typed == Some(i@),
                    Err(_) => typed is None,
                }
            }),
    {
        proof {
            if type_item_rule(item).0 is None { law_block_stop_reported(item_func(item).body, args_scope(item_func(item).args.inner@)); }
        }
        Ok(match item.inner {
            pt::Item::Func(func) => Item { kind: ItemKind::Func(self.type_func_item(func)?), span: item.span },
        })
    }

    /// Type checks a module: first the signatures of its functions, then
    /// each function in turn, stopping at the first that stops.
    pub fn type_module(&mut self, module: Spanned<pt::Module<'src>>) -> (res: Result<Module<'src>, DummyError>)
        requires
            module_checkable(module.inner),
        ensures
            final(self).src == old(self).src,
            res is Err ==> final(self).errors_view().len() > old(self).errors_view().len(),
            ({
                let (typed, errs) = type_module_rule(module);
                &&& final(self).errors_view() == old(self).errors_view() + errs
                &&& match res {
                    Ok(m) => typed == Some(m@),
                    Err(_) => typed is None,
                }
            }),
    {
        proof {
            if type_module_rule(module).0 is None { law_module_stop_reported(module); }
        }
        let ghost old_errors = self.errors_view();
        let ghost items_v = module.inner.items@;
        let mut scope = Scope::new();
        let mut i: usize = 0;
        while i < module.inner.items.len()
            invariant
                i <= items_v.len(),
                items_v == module.inner.items@,
                module_checkable(module.inner),
                *self == *old(self),
                forall|name: Seq<char>| #[trigger] scope.declares(name) ==> exists|j: int| 0 <= j < i && item_func(#[trigger] items_v[j]).name.inner.0@ == name,
            decreases items_v.len() - i,
        {
            match &module.inner.items[i].inner {
                pt::Item::Func(func_item) => {
                    proof {
                        assert(item_func(items_v[i as int]) == *func_item);
                        if scope.declares(func_item.name.inner.0@) {
                            let j = choose|j: int| 0 <= j < i && item_func(#[trigger] items_v[j]).name.inner.0@ == func_item.name.inner.0@;
                            assert(item_func(items_v[j]).name.inner.0@ != item_func(items_v[i as int]).name.inner.0@);
                        }
                    }
                    let signature = self.type_func_signature(func_item)?;
                    scope.set(func_item.name.inner.0, signature);
                    proof {
                        assert forall|name: Seq<char>| #[trigger] scope.declares(name) implies exists|j: int| 0 <= j < i + 1 && item_func(#[trigger] items_v[j]).name.inner.0@ == name by {
                            if name == func_item.name.inner.0@ {
                                assert(item_func(items_v[i as int]).name.inner.0@ == name);
                            } else {
                                let j = choose|j: int| 0 <= j < i && item_func(#[trigger] items_v[j]).name.inner.0@ == name;
                                assert(0 <= j < i + 1);
                            }
                        }
                    }
                },
            }
            i = i + 1;
        }

        let mut items: Vec<Item<'src>> = Vec::new();
        proof {
            assert(items_v.take(0) =~= Seq::<Spanned<pt::Item>>::empty());
            assert(Seq::new(items@.len(), |j: int| items@[j]@) =~= Seq::<crate::spring::type_tree::data::ItemV>::empty());
            assert(old_errors + Seq::<TypeErrorV>::empty() =~= old_errors);
        }
        for item in it: module.inner.items.into_iter()
            invariant
                it.seq() == items_v,
                module_checkable(module.inner),
                items_v == module.inner.items@,
                old_errors == old(self).errors_view(),
                self.src == old(self).src,
                ({
                    let (t, errs) = type_items_rule(items_v.take(it.index() as int));
                    &&& t == Some(Seq::new(items@.len(), |j: int| items@[j]@))
                    &&& self.errors_view() == old_errors + errs
                }),
        {
            let ghost k = it.index() as int;
            proof {
                assert(items_v.take(k + 1).drop_last() =~= items_v.take(k));
                assert(items_v.take(k + 1).last() == items_v[k]);
                assert(item == items_v[k]);
                if func_unsupported(item_func(items_v[k])) {
                    lemma_items_unsupported_prefix(items_v, k + 1);
                }
            }
            match self.type_item(item) {
                Ok(typed) => {
                    proof {
                        assert(Seq::new(items@.push(typed).len(), |j: int| items@.push(typed)[j]@) =~= Seq::new(items@.len(), |j: int| items@[j]@).push(typed@));
                        assert(self.errors_view() =~= old_errors + type_items_rule(items_v.take(k + 1)).1);
                    }
                    items.push(typed);
                },
                Err(err) => {
                    proof {
                        lemma_type_items_stop(items_v, k + 1);
                        assert(self.errors_view() =~= old_errors + type_items_rule(items_v).1);
                    }
                    return Err(err);
                },
            }
        }
        proof {
            assert(items_v.take(items_v.len() as int) =~= items_v);
        }
        Ok(Module { items, span: module.span })
    }
}

/// The view of a typed expression behind a reference.
pub open spec fn expr_view_of(e: &Expr) -> ExprV {
    e@
}

} // verus!
