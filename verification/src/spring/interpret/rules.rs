//! The evaluation rules: what evaluating each part of a typed tree gives,
//! and what it prints and records on the way.

use crate::spring::interpret::error::InterpretErrorV;
use crate::spring::interpret::{EffectV, ValueV};
use crate::spring::span::{Span, Spanned};
use crate::spring::type_tree::data::{
    BinOp, BlockV, ExprKindV, ExprV, ItemV, ModuleV, Pattern, StatementV, TypeKindV,
};
use crate::spring::parse_tree::data as pt;
use crate::spring::type_tree::rules::{arm_patterns, has_discard, type_arms_rule, type_expr_rule};
use vstd::prelude::*;

verus! {

/// How an evaluation ends: it gets stuck (where evaluation would panic: an
/// unbound variable, a value of the wrong kind, an integer overflow, no
/// matching arm, arithmetic on floats), it fails with an error, or it
/// gives a result.
pub enum Outcome<T> {
    Stuck,
    Fail(InterpretErrorV),
    Done(T),
}

/// What evaluation has produced so far: the values handed to `output!`, and
/// the printing and debugging requests, in order.
pub struct Trace {
    pub output: Seq<ValueV>,
    pub effects: Seq<EffectV>,
}

pub open spec fn add_effect(t: Trace, effect: EffectV) -> Trace {
    Trace { output: t.output, effects: t.effects.push(effect) }
}

/// Integer arithmetic on the two operand values; `rhs_span` locates the
/// divisor.
pub open spec fn int_op(op: BinOp, l: u64, r: u64, rhs_span: Span) -> Outcome<ValueV> {
    match op {
        BinOp::Add => if l + r <= u64::MAX {
            Outcome::Done(ValueV::Int((l + r) as u64))
        } else {
            Outcome::Stuck
        },
        BinOp::Sub => if l >= r {
            Outcome::Done(ValueV::Int((l - r) as u64))
        } else {
            Outcome::Stuck
        },
        BinOp::Mul => if l * r <= u64::MAX {
            Outcome::Done(ValueV::Int((l * r) as u64))
        } else {
            Outcome::Stuck
        },
        BinOp::Div => if r == 0 {
            Outcome::Fail(InterpretErrorV::DivideByZeroError { span: rhs_span })
        } else {
            Outcome::Done(ValueV::Int(l / r))
        },
    }
}

/// Whether a pattern matches the integer `v`.
pub open spec fn pattern_matches(p: Pattern, v: u64) -> bool {
    match p {
        Pattern::Int(i) => i == v,
        Pattern::Discard => true,
    }
}

/// The index of the first arm from `k` on whose pattern matches `v`.
pub open spec fn first_arm(arms: Seq<(Spanned<Pattern>, ExprV)>, v: u64, k: int) -> Option<int>
    decreases arms.len() - k,
{
    if 0 <= k < arms.len() {
        if pattern_matches(arms[k].0.inner, v) {
            Some(k)
        } else {
            first_arm(arms, v, k + 1)
        }
    } else {
        None
    }
}

/// The labels of a `debug!` report: each argument's span with its value.
pub open spec fn value_labels(args: Seq<ExprV>, vals: Seq<ValueV>) -> Seq<(Span, ValueV)> {
    Seq::new(vals.len(), |i: int| (args[i].span, vals[i]))
}

/// The labels of a `type!` report: each argument's span with its type.
pub open spec fn type_labels(args: Seq<ExprV>) -> Seq<(Span, TypeKindV)> {
    Seq::new(args.len(), |i: int| (args[i].span, args[i].ty))
}

/// The arguments of an `error!`, each value with the span of its expression.
pub open spec fn spanned_values(args: Seq<ExprV>, vals: Seq<ValueV>) -> Seq<Spanned<ValueV>> {
    Seq::new(vals.len(), |i: int| Spanned { inner: vals[i], span: args[i].span })
}

/// The builtins whose arguments are evaluated before they act.
pub open spec fn evaluates_args(name: Seq<char>) -> bool {
    name == "print"@ || name == "debug"@ || name == "error"@ || name == "output"@
}

/// What a builtin that evaluates its arguments does with their values:
/// `print!` prints them on a line, `debug!` reports each with its span,
/// `error!` fails with them, `output!` records them as the program's output.
pub open spec fn builtin_rule(name: Seq<char>, args: Seq<ExprV>, vals: Seq<ValueV>, span: Span, t: Trace) -> (
    Outcome<ValueV>,
    Trace,
) {
    if name == "print"@ {
        (Outcome::Done(ValueV::Unit), add_effect(t, EffectV::Print(vals)))
    } else if name == "debug"@ {
        (Outcome::Done(ValueV::Unit), add_effect(t, EffectV::Debug { span, labels: value_labels(args, vals) }))
    } else if name == "error"@ {
        (Outcome::Fail(InterpretErrorV::CustomError { args: spanned_values(args, vals), span }), t)
    } else {
        (Outcome::Done(ValueV::Unit), Trace { output: t.output + vals, effects: t.effects })
    }
}

/// Evaluating an expression in a scope, from the trace `t` on.
pub open spec fn eval_rule(e: ExprV, scope: Map<Seq<char>, ValueV>, t: Trace) -> (Outcome<ValueV>, Trace)
    decreases e, 0int,
{
    match e.kind {
        ExprKindV::Unit => (Outcome::Done(ValueV::Unit), t),
        ExprKindV::Int(i) => (Outcome::Done(ValueV::Int(i)), t),
        ExprKindV::Float(f) => (Outcome::Done(ValueV::Float(f)), t),
        ExprKindV::String(s) => (Outcome::Done(ValueV::String(s)), t),
        ExprKindV::Var(id) => if scope.contains_key(id.name) {
            (Outcome::Done(scope[id.name]), t)
        } else {
            (Outcome::Stuck, t)
        },
        ExprKindV::BinOp(op, lhs, rhs) => match lhs.ty {
            TypeKindV::Int => {
                let (l, t1) = eval_rule(*lhs, scope, t);
                match l {
                    Outcome::Done(ValueV::Int(lv)) => {
                        let (r, t2) = eval_rule(*rhs, scope, t1);
                        match r {
                            Outcome::Done(ValueV::Int(rv)) => (int_op(op, lv, rv, rhs.span), t2),
                            Outcome::Fail(err) => (Outcome::Fail(err), t2),
                            _ => (Outcome::Stuck, t2),
                        }
                    },
                    Outcome::Fail(err) => (Outcome::Fail(err), t1),
                    _ => (Outcome::Stuck, t1),
                }
            },
            TypeKindV::Float => {
                let (l, t1) = eval_rule(*lhs, scope, t);
                match l {
                    Outcome::Done(ValueV::Float(_)) => {
                        let (r, t2) = eval_rule(*rhs, scope, t1);
                        match r {
                            Outcome::Fail(err) => (Outcome::Fail(err), t2),
                            _ => (Outcome::Stuck, t2),
                        }
                    },
                    Outcome::Fail(err) => (Outcome::Fail(err), t1),
                    _ => (Outcome::Stuck, t1),
                }
            },
            _ => (Outcome::Stuck, t),
        },
        ExprKindV::Match(scrutinee, arms) => {
            let (s, t1) = eval_rule(*scrutinee, scope, t);
            match s {
                Outcome::Done(ValueV::Int(v)) => match first_arm(arms, v, 0) {
                    Some(k) => if 0 <= k < arms.len() {
                        eval_rule(arms[k].1, scope, t1)
                    } else {
                        (Outcome::Stuck, t1)
                    },
                    None => (Outcome::Stuck, t1),
                },
                Outcome::Fail(err) => (Outcome::Fail(err), t1),
                _ => (Outcome::Stuck, t1),
            }
        },
        ExprKindV::MacroCall(name, args) => if name.name == "type"@ {
            (Outcome::Done(ValueV::Unit), add_effect(t, EffectV::TypeDebug { span: e.span, labels: type_labels(args) }))
        } else if evaluates_args(name.name) {
            let (a, t1) = eval_args_rule(args, scope, t);
            match a {
                Outcome::Done(vals) => builtin_rule(name.name, args, vals, e.span, t1),
                Outcome::Fail(err) => (Outcome::Fail(err), t1),
                Outcome::Stuck => (Outcome::Stuck, t1),
            }
        } else {
            (Outcome::Fail(InterpretErrorV::UnknownBuiltinError { name }), t)
        },
    }
}

/// Evaluating expressions one after the other, stopping at the first that
/// does not give a value.
pub open spec fn eval_args_rule(args: Seq<ExprV>, scope: Map<Seq<char>, ValueV>, t: Trace) -> (
    Outcome<Seq<ValueV>>,
    Trace,
)
    decreases args, 1int,
{
    if args.len() == 0 {
        (Outcome::Done(seq![]), t)
    } else {
        let (p, t1) = eval_args_rule(args.drop_last(), scope, t);
        match p {
            Outcome::Done(vals) => {
                let (x, t2) = eval_rule(args.last(), scope, t1);
                match x {
                    Outcome::Done(v) => (Outcome::Done(vals.push(v)), t2),
                    Outcome::Fail(err) => (Outcome::Fail(err), t2),
                    Outcome::Stuck => (Outcome::Stuck, t2),
                }
            },
            Outcome::Fail(err) => (Outcome::Fail(err), t1),
            Outcome::Stuck => (Outcome::Stuck, t1),
        }
    }
}

/// Evaluating statements one after the other for their effects.
pub open spec fn eval_stmts_rule(stmts: Seq<StatementV>, scope: Map<Seq<char>, ValueV>, t: Trace) -> (
    Outcome<()>,
    Trace,
)
    decreases stmts.len(),
{
    if stmts.len() == 0 {
        (Outcome::Done(()), t)
    } else {
        let (p, t1) = eval_stmts_rule(stmts.drop_last(), scope, t);
        match p {
            Outcome::Done(_) => {
                let (x, t2) = eval_rule(stmts.last().expr, scope, t1);
                match x {
                    Outcome::Done(_) => (Outcome::Done(()), t2),
                    Outcome::Fail(err) => (Outcome::Fail(err), t2),
                    Outcome::Stuck => (Outcome::Stuck, t2),
                }
            },
            Outcome::Fail(err) => (Outcome::Fail(err), t1),
            Outcome::Stuck => (Outcome::Stuck, t1),
        }
    }
}

/// Evaluating a block: its statements, then its trailing expression, whose
/// value is the block's.
pub open spec fn eval_block_rule(b: BlockV, scope: Map<Seq<char>, ValueV>, t: Trace) -> (Outcome<ValueV>, Trace) {
    let (p, t1) = eval_stmts_rule(b.body, scope, t);
    match p {
        Outcome::Done(_) => eval_rule(b.trailing, scope, t1),
        Outcome::Fail(err) => (Outcome::Fail(err), t1),
        Outcome::Stuck => (Outcome::Stuck, t1),
    }
}

/// The index of the first function named `main` from `k` on.
pub open spec fn main_index(items: Seq<ItemV>, k: int) -> Option<int>
    decreases items.len() - k,
{
    if 0 <= k < items.len() {
        if items[k].func.name.name == "main"@ {
            Some(k)
        } else {
            main_index(items, k + 1)
        }
    } else {
        None
    }
}

/// Running a module: the body of its first `main` function, in an empty scope.
pub open spec fn eval_module_rule(m: ModuleV, t: Trace) -> (Outcome<ValueV>, Trace) {
    match main_index(m.items, 0) {
        Some(k) => if 0 <= k < m.items.len() {
            eval_block_rule(m.items[k].func.body, Map::empty(), t)
        } else {
            (Outcome::Stuck, t)
        },
        None => (Outcome::Stuck, t),
    }
}

/// `later` continues `earlier`: the output and the effects of `earlier`
/// come first in `later`, unchanged.
pub open spec fn continues(earlier: Trace, later: Trace) -> bool {
    &&& earlier.output.len() <= later.output.len()
    &&& later.output.take(earlier.output.len() as int) == earlier.output
    &&& earlier.effects.len() <= later.effects.len()
    &&& later.effects.take(earlier.effects.len() as int) == earlier.effects
}

proof fn lemma_continues_trans(a: Trace, b: Trace, c: Trace)
    requires
        continues(a, b),
        continues(b, c),
    ensures
        continues(a, c),
{
    assert(c.output.take(a.output.len() as int) =~= c.output.take(b.output.len() as int).take(a.output.len() as int));
    assert(c.effects.take(a.effects.len() as int) =~= c.effects.take(b.effects.len() as int).take(a.effects.len() as int));
}

proof fn lemma_continues_refl(a: Trace)
    ensures
        continues(a, a),
{
    assert(a.output.take(a.output.len() as int) =~= a.output);
    assert(a.effects.take(a.effects.len() as int) =~= a.effects);
}

proof fn lemma_builtin_appends(name: Seq<char>, args: Seq<ExprV>, vals: Seq<ValueV>, span: Span, t: Trace)
    ensures
        continues(t, builtin_rule(name, args, vals, span, t).1),
{
    let t2 = builtin_rule(name, args, vals, span, t).1;
    lemma_continues_refl(t);
    assert(t2.output.take(t.output.len() as int) =~= t.output);
    assert(t2.effects.take(t.effects.len() as int) =~= t.effects);
}

/// Evaluating an expression only adds to what was produced before it: the
/// output and effects already recorded stay, unchanged and first.
pub proof fn law_eval_appends(e: ExprV, scope: Map<Seq<char>, ValueV>, t: Trace)
    ensures
        continues(t, eval_rule(e, scope, t).1),
    decreases e, 0int,
{
    lemma_continues_refl(t);
    match e.kind {
        ExprKindV::BinOp(op, lhs, rhs) => {
            let t1 = eval_rule(*lhs, scope, t).1;
            law_eval_appends(*lhs, scope, t);
            law_eval_appends(*rhs, scope, t1);
            lemma_continues_trans(t, t1, eval_rule(*rhs, scope, t1).1);
        },
        ExprKindV::Match(scrutinee, arms) => {
            let t1 = eval_rule(*scrutinee, scope, t).1;
            law_eval_appends(*scrutinee, scope, t);
            let s = eval_rule(*scrutinee, scope, t).0;
            if let Outcome::Done(ValueV::Int(v)) = s {
                if let Some(k) = first_arm(arms, v, 0) {
                    if 0 <= k < arms.len() {
                        law_eval_appends(arms[k].1, scope, t1);
                        lemma_continues_trans(t, t1, eval_rule(arms[k].1, scope, t1).1);
                    }
                }
            }
        },
        ExprKindV::MacroCall(name, args) => {
            let ty = add_effect(t, EffectV::TypeDebug { span: e.span, labels: type_labels(args) });
            assert(ty.effects.take(t.effects.len() as int) =~= t.effects);
            lemma_args_appends(args, scope, t);
            let (a, t1) = eval_args_rule(args, scope, t);
            if let Outcome::Done(vals) = a {
                lemma_builtin_appends(name.name, args, vals, e.span, t1);
                lemma_continues_trans(t, t1, builtin_rule(name.name, args, vals, e.span, t1).1);
            }
        },
        _ => {},
    }
}

proof fn lemma_args_appends(args: Seq<ExprV>, scope: Map<Seq<char>, ValueV>, t: Trace)
    ensures
        continues(t, eval_args_rule(args, scope, t).1),
    decreases args, 1int,
{
    lemma_continues_refl(t);
    if args.len() > 0 {
        lemma_args_appends(args.drop_last(), scope, t);
        let t1 = eval_args_rule(args.drop_last(), scope, t).1;
        law_eval_appends(args.last(), scope, t1);
        lemma_continues_trans(t, t1, eval_rule(args.last(), scope, t1).1);
    }
}

proof fn lemma_stmts_appends(stmts: Seq<StatementV>, scope: Map<Seq<char>, ValueV>, t: Trace)
    ensures
        continues(t, eval_stmts_rule(stmts, scope, t).1),
    decreases stmts.len(),
{
    lemma_continues_refl(t);
    if stmts.len() > 0 {
        lemma_stmts_appends(stmts.drop_last(), scope, t);
        let t1 = eval_stmts_rule(stmts.drop_last(), scope, t).1;
        law_eval_appends(stmts.last().expr, scope, t1);
        lemma_continues_trans(t, t1, eval_rule(stmts.last().expr, scope, t1).1);
    }
}

/// Running a module only adds to what was produced before it: the output
/// and effects already recorded stay, unchanged and first.
pub proof fn law_run_appends(m: ModuleV, t: Trace)
    ensures
        continues(t, eval_module_rule(m, t).1),
{
    lemma_continues_refl(t);
    if let Some(k) = main_index(m.items, 0) {
        if 0 <= k < m.items.len() {
            let b = m.items[k].func.body;
            lemma_stmts_appends(b.body, Map::empty(), t);
            let t1 = eval_stmts_rule(b.body, Map::empty(), t).1;
            law_eval_appends(b.trailing, Map::empty(), t1);
            lemma_continues_trans(t, t1, eval_rule(b.trailing, Map::empty(), t1).1);
        }
    }
}

proof fn lemma_arms_keep_patterns(
    parms: Seq<(Spanned<Pattern>, Spanned<pt::Expr>)>,
    scope: Map<Seq<char>, TypeKindV>,
)
    requires
        type_arms_rule(parms, scope).0 is Some,
    ensures
        ({
            let arms = type_arms_rule(parms, scope).0->Some_0;
            &&& arms.len() == parms.len()
            &&& forall|i: int| 0 <= i < arms.len() ==> (#[trigger] arms[i]).0 == parms[i].0
        }),
    decreases parms.len(),
{
    if parms.len() > 0 {
        lemma_arms_keep_patterns(parms.drop_last(), scope);
        let prev = type_arms_rule(parms.drop_last(), scope).0->Some_0;
        let arms = type_arms_rule(parms, scope).0->Some_0;
        assert forall|i: int| 0 <= i < arms.len() implies (#[trigger] arms[i]).0 == parms[i].0 by {
            if i < arms.len() - 1 {
                assert(arms[i] == prev[i]);
                assert(parms.drop_last()[i] == parms[i]);
            }
        }
    }
}

proof fn lemma_first_arm_found(arms: Seq<(Spanned<Pattern>, ExprV)>, v: u64, k: int, d: int)
    requires
        0 <= k <= d < arms.len(),
        arms[d].0.inner == Pattern::Discard,
    ensures
        first_arm(arms, v, k) is Some,
    decreases d - k,
{
    if !pattern_matches(arms[k].0.inner, v) {
        lemma_first_arm_found(arms, v, k + 1, d);
    }
}

/// A `match` that type checks always finds an arm: whatever integer the
/// scrutinee gives, some arm's pattern matches it.
pub proof fn law_typed_match_exhaustive(e: Spanned<pt::Expr>, scope: Map<Seq<char>, TypeKindV>, v: u64)
    requires
        type_expr_rule(e, scope).0 matches Some(ev) && ev.kind is Match,
    ensures
        match type_expr_rule(e, scope).0->Some_0.kind {
            ExprKindV::Match(_, arms) => first_arm(arms, v, 0) is Some,
            _ => false,
        },
{
    match e.inner {
        pt::Expr::Match(m) => {
            let pats = arm_patterns(m.arms@);
            lemma_arms_keep_patterns(m.arms@, scope);
            let arms = type_arms_rule(m.arms@, scope).0->Some_0;
            assert(has_discard(pats));
            let d = choose|d: int| 0 <= d < pats.len() && (#[trigger] pats[d]).inner == Pattern::Discard;
            assert(arms[d].0 == m.arms@[d].0);
            lemma_first_arm_found(arms, v, 0, d);
        },
        _ => {},
    }
}


/// Integer arithmetic computes with the operands' values. Where the operands
/// of an arithmetic expression on integers evaluate to `l` and then `r`,
/// evaluating it gives `l + r`, `l - r`, `l * r` or `l / r` wherever that is
/// a `u64`, fails at the divisor when dividing by zero, and leaves the trace
/// as evaluating the operands left it.
pub proof fn law_integer_arithmetic(e: ExprV, scope: Map<Seq<char>, ValueV>, t: Trace, l: u64, r: u64)
    requires
        e.kind is BinOp,
        (e.kind->BinOp_1).ty == TypeKindV::Int,
        eval_rule(*(e.kind->BinOp_1), scope, t).0 == Outcome::Done(ValueV::Int(l)),
        eval_rule(*(e.kind->BinOp_2), scope, eval_rule(*(e.kind->BinOp_1), scope, t).1).0 == Outcome::Done(
            ValueV::Int(r),
        ),
    ensures
        ({
            let op = e.kind->BinOp_0;
            let rhs = *(e.kind->BinOp_2);
            let res = eval_rule(e, scope, t);
            &&& op == BinOp::Add && l + r <= u64::MAX ==> res.0 == Outcome::Done(ValueV::Int((l + r) as u64))
            &&& op == BinOp::Sub && r <= l ==> res.0 == Outcome::Done(ValueV::Int((l - r) as u64))
            &&& op == BinOp::Mul && l * r <= u64::MAX ==> res.0 == Outcome::Done(ValueV::Int((l * r) as u64))
            &&& op == BinOp::Div && r != 0 ==> res.0 == Outcome::Done(ValueV::Int(l / r))
            &&& op == BinOp::Div && r == 0 ==> res.0 == Outcome::<ValueV>::Fail(
                InterpretErrorV::DivideByZeroError { span: rhs.span },
            )
            &&& res.1 == eval_rule(rhs, scope, eval_rule(*(e.kind->BinOp_1), scope, t).1).1
        }),
{
}

} // verus!
