//! Evaluating the typed tree.

pub mod error;
pub mod rules;
pub mod scope;

use crate::spring::interpret::error::{spanned_values_view, InterpretError, InterpretErrorV};
use crate::spring::interpret::rules::{
    add_effect, builtin_rule, eval_args_rule, eval_block_rule, eval_module_rule, eval_rule,
    eval_stmts_rule, evaluates_args, first_arm, int_op, main_index, pattern_matches, spanned_values,
    type_labels, value_labels, Outcome, Trace,
};
use crate::spring::interpret::scope::Scope;
use crate::spring::span::{Span, Spanned};
use crate::spring::type_tree::data::{
    arms_view, exprs_view, statements_view, BinOp, BinOpExpr, Block, Expr, ExprKind, ExprV, Ident,
    ItemKind, MacroCallExpr, MatchExpr, Module, Pattern, Statement, StatementKind, TypeKind,
    TypeKindV,
};
use crate::spring::type_tree::{clone_kind, lemma_arms_view, lemma_exprs_view};
use crate::spring::text_eq;
use crate::compiler::{decimal_string, decimal_text};
use vstd::prelude::*;

verus! {

/// A value of the language.
#[derive(Debug, Clone, Copy, PartialEq)]
pub enum Value<'src> {
    Unit,
    Int(u64),
    /// A floating-point number, by the bits of its IEEE 754 double.
    Float(u64),
    String(&'src str),
}

pub enum ValueV {
    Unit,
    Int(u64),
    Float(u64),
    String(Seq<char>),
}

impl View for Value<'_> {
    type V = ValueV;

    open spec fn view(&self) -> ValueV {
        match self {
            Value::Unit => ValueV::Unit,
            Value::Int(i) => ValueV::Int(*i),
            Value::Float(f) => ValueV::Float(*f),
            Value::String(s) => ValueV::String(s@),
        }
    }
}

/// How a value reads when shown to the user: `Unit`, the decimal digits of
/// an integer, or the text of a string.
pub open spec fn value_text(v: ValueV) -> Seq<char> {
    match v {
        ValueV::Unit => "Unit"@,
        ValueV::Int(i) => decimal_text(i as nat),
        ValueV::String(s) => s,
        ValueV::Float(_) => seq![],
    }
}

impl<'src> Value<'src> {
    /// The text of this value as shown to the user (see `value_text`); a
    /// float is shown by its `f64`, which is not held here.
    pub fn text(&self) -> (text: String)
        requires
            !(self is Float),
        ensures
            text@ == value_text(self@),
    {
        match self {
            Value::Unit => "Unit".to_owned(),
            Value::Int(i) => decimal_string(*i),
            Value::String(s) => (*s).to_owned(),
            Value::Float(_) => unreached(),
        }
    }
}

pub open spec fn values_view(vs: Seq<Value>) -> Seq<ValueV> {
    Seq::new(vs.len(), |i: int| vs[i]@)
}

/// A request to show something to the user, made while evaluating: a line
/// printed by `print!`, or a report by `debug!` of values or by `type!` of
/// types, over the span of the call, each label over an argument's span.
#[derive(Debug, PartialEq)]
pub enum Effect<'src> {
    Print(Vec<Value<'src>>),
    Debug { span: Span, labels: Vec<(Span, Value<'src>)> },
    TypeDebug { span: Span, labels: Vec<(Span, TypeKind)> },
}

pub enum EffectV {
    Print(Seq<ValueV>),
    Debug { span: Span, labels: Seq<(Span, ValueV)> },
    TypeDebug { span: Span, labels: Seq<(Span, TypeKindV)> },
}

impl View for Effect<'_> {
    type V = EffectV;

    open spec fn view(&self) -> EffectV {
        match self {
            Effect::Print(vs) => EffectV::Print(values_view(vs@)),
            Effect::Debug { span, labels } => EffectV::Debug {
                span: *span,
                labels: Seq::new(labels@.len(), |i: int| (labels@[i].0, labels@[i].1@)),
            },
            Effect::TypeDebug { span, labels } => EffectV::TypeDebug {
                span: *span,
                labels: Seq::new(labels@.len(), |i: int| (labels@[i].0, labels@[i].1@)),
            },
        }
    }
}

/// Whether a result of evaluation is the outcome `o`.
pub open spec fn result_is(res: Result<Value, InterpretError>, o: Outcome<ValueV>) -> bool {
    match res {
        Ok(v) => o == Outcome::Done(v@),
        Err(e) => o == Outcome::<ValueV>::Fail(e@),
    }
}

/// Why evaluation ended without a value: an error, or a stuck evaluation
/// (see `Outcome::Stuck`), where evaluation panics.
#[derive(Debug, PartialEq)]
pub enum Stop<'src> {
    Error(InterpretError<'src>),
    Stuck,
}

/// Whether a result of evaluation, which may have got stuck, is the outcome `o`.
pub open spec fn stop_result_is(res: Result<Value, Stop>, o: Outcome<ValueV>) -> bool {
    match res {
        Ok(v) => o == Outcome::Done(v@),
        Err(Stop::Error(e)) => o == Outcome::<ValueV>::Fail(e@),
        Err(Stop::Stuck) => o is Stuck,
    }
}

/// The result of an evaluation that did not get stuck.
fn settle<'src>(res: Result<Value<'src>, Stop<'src>>) -> (r: Result<Value<'src>, InterpretError<'src>>)
    requires
        !(res matches Err(Stop::Stuck)),
    ensures
        match res {
            Ok(v) => r == Ok::<Value, InterpretError>(v),
            Err(Stop::Error(e)) => r == Err::<Value, InterpretError>(e),
            Err(Stop::Stuck) => false,
        },
{
    match res {
        Ok(v) => Ok(v),
        Err(Stop::Error(e)) => Err(e),
        Err(Stop::Stuck) => unreached(),
    }
}

/// The interpreter of one source text: the values that `output!` recorded,
/// and the requests to show something that evaluation made, in order.
pub struct Interpreter<'src> {
    pub src: &'src str,
    pub test_output: Vec<Value<'src>>,
    pub effects: Vec<Effect<'src>>,
}

/// Once a prefix of the arguments does not give values, evaluating all of
/// them ends as the prefix does.
proof fn lemma_args_stop(args: Seq<ExprV>, k: int, scope: Map<Seq<char>, ValueV>, t: Trace)
    requires
        0 <= k <= args.len(),
        !(eval_args_rule(args.take(k), scope, t).0 is Done),
    ensures
        eval_args_rule(args, scope, t) == eval_args_rule(args.take(k), scope, t),
    decreases args.len() - k,
{
    if k < args.len() {
        let next = args.take(k + 1);
        assert(next.drop_last() =~= args.take(k));
        lemma_args_stop(args, k + 1, scope, t);
    } else {
        assert(args.take(k) =~= args);
    }
}

/// Once a prefix of the statements does not finish, evaluating all of them
/// ends as the prefix does.
proof fn lemma_stmts_stop(stmts: Seq<crate::spring::type_tree::data::StatementV>, k: int, scope: Map<Seq<char>, ValueV>, t: Trace)
    requires
        0 <= k <= stmts.len(),
        !(eval_stmts_rule(stmts.take(k), scope, t).0 is Done),
    ensures
        eval_stmts_rule(stmts, scope, t) == eval_stmts_rule(stmts.take(k), scope, t),
    decreases stmts.len() - k,
{
    if k < stmts.len() {
        let next = stmts.take(k + 1);
        assert(next.drop_last() =~= stmts.take(k));
        lemma_stmts_stop(stmts, k + 1, scope, t);
    } else {
        assert(stmts.take(k) =~= stmts);
    }
}

impl<'src> Interpreter<'src> {
    /// What evaluation has produced so far.
    pub open spec fn trace(&self) -> Trace {
        Trace {
            output: values_view(self.test_output@),
            effects: Seq::new(self.effects@.len(), |i: int| self.effects@[i]@),
        }
    }

    pub fn new(src: &'src str) -> (interpreter: Self)
        ensures
            interpreter.src == src,
            interpreter.trace() == (Trace { output: seq![], effects: seq![] }),
    {
        let interpreter = Self { src, test_output: Vec::new(), effects: Vec::new() };
        assert(interpreter.trace().output =~= Seq::<ValueV>::empty());
        assert(interpreter.trace().effects =~= Seq::<EffectV>::empty());
        interpreter
    }

    fn push_effect(&mut self, effect: Effect<'src>)
        ensures
            final(self).src == old(self).src,
            final(self).trace() == add_effect(old(self).trace(), effect@),
    {
        self.effects.push(effect);
        assert(self.trace().output =~= old(self).trace().output);
        assert(self.trace().effects =~= old(self).trace().effects.push(effect@));
    }

    /// Evaluates an expression in `scope`.
    fn eval_expr(&mut self, expr: &Expr<'src>, scope: &mut Scope<'src, '_>) -> (res: Result<Value<'src>, Stop<'src>>)
        ensures
            final(self).src == old(self).src,
            *final(scope) == *old(scope),
            ({
                let (o, t) = eval_rule(expr@, old(scope).view_map(), old(self).trace());
                stop_result_is(res, o) && final(self).trace() == t
            }),
        decreases *expr, 1int,
    {
        let ghost sm = scope.view_map();
        let ghost t0 = self.trace();
        match &expr.kind {
            ExprKind::Unit => Ok(Value::Unit),
            ExprKind::Int(i) => Ok(Value::Int(*i)),
            ExprKind::Float(f) => Ok(Value::Float(*f)),
            ExprKind::String(s) => Ok(Value::String(*s)),
            ExprKind::Var(v) => match scope.get(v.name) {
                Some(value) => Ok(*value),
                None => Err(Stop::Stuck),
            },
            ExprKind::BinOp(BinOpExpr { op, lhs, rhs }) => {
                let ghost b = expr.kind->BinOp_0;
                proof {
                    assert(decreases_to!(*expr => expr.kind));
                    assert(decreases_to!(expr.kind => b));
                    assert(decreases_to!(b => b.lhs));
                    assert(decreases_to!(b => b.rhs));
                }
                match lhs.ty.kind {
                    TypeKind::Int => {
                        let l = match self.eval_expr(lhs, scope) {
                            Ok(v) => v,
                            Err(e) => {
                                return Err(e);
                            },
                        };
                        let lv = match l {
                            Value::Int(v) => v,
                            _ => {
                                return Err(Stop::Stuck);
                            },
                        };
                        let r = match self.eval_expr(rhs, scope) {
                            Ok(v) => v,
                            Err(e) => {
                                return Err(e);
                            },
                        };
                        let rv = match r {
                            Value::Int(v) => v,
                            _ => {
                                return Err(Stop::Stuck);
                            },
                        };
                        proof {
                            assert(eval_rule(expr@, sm, t0).0 == int_op(*op, lv, rv, rhs.span));
                        }
                        let value = match op {
                            BinOp::Add => {
                                if lv > u64::MAX - rv {
                                    return Err(Stop::Stuck);
                                } else {
                                    lv + rv
                                }
                            },
                            BinOp::Sub => {
                                if lv < rv {
                                    return Err(Stop::Stuck);
                                } else {
                                    lv - rv
                                }
                            },
                            BinOp::Mul => match lv.checked_mul(rv) {
                                Some(v) => v,
                                None => {
                                    return Err(Stop::Stuck);
                                },
                            },
                            BinOp::Div => {
                                if rv == 0 {
                                    return Err(Stop::Error(InterpretError::DivideByZeroError { span: rhs.span }.report(self)));
                                }
                                lv / rv
                            },
                        };
                        Ok(Value::Int(value))
                    },
                    TypeKind::Float => {
                        let l = match self.eval_expr(lhs, scope) {
                            Ok(v) => v,
                            Err(e) => {
                                return Err(e);
                            },
                        };
                        match l {
                            Value::Float(_) => {},
                            _ => {
                                return Err(Stop::Stuck);
                            },
                        }
                        match self.eval_expr(rhs, scope) {
                            Ok(_) => Err(Stop::Stuck),
                            Err(e) => Err(e),
                        }
                    },
                    _ => {
                                return Err(Stop::Stuck);
                            },
                }
            },
            ExprKind::Match(MatchExpr { scrutinee, arms }) => {
                let ghost m = expr.kind->Match_0;
                let ghost av = arms_view(arms@);
                proof {
                    assert(decreases_to!(*expr => expr.kind));
                    assert(decreases_to!(expr.kind => m));
                    assert(decreases_to!(m => m.scrutinee));
                    assert forall|j: int| 0 <= j < arms@.len() implies decreases_to!(*expr => (#[trigger] arms@[j]).1) by {
                        assert(decreases_to!(m => m.arms));
                        assert(decreases_to!(m.arms => m.arms@));
                        assert(decreases_to!(m.arms@ => m.arms@[j]));
                        assert(decreases_to!(m.arms@[j] => m.arms@[j].1));
                    }
                    lemma_arms_view(arms@);
                }
                let s = match self.eval_expr(scrutinee, scope) {
                    Ok(v) => v,
                    Err(e) => {
                        return Err(e);
                    },
                };
                let sv = match s {
                    Value::Int(v) => v,
                    _ => {
                                return Err(Stop::Stuck);
                            },
                };
                let ghost t1 = self.trace();
                let mut i: usize = 0;
                while i < arms.len()
                    invariant
                        i <= arms@.len(),
                        av.len() == arms@.len(),
                        forall|j: int| 0 <= j < arms@.len() ==> #[trigger] av[j] == (arms@[j].0, arms@[j].1@),
                        forall|j: int| 0 <= j < arms@.len() ==> decreases_to!(*expr => (#[trigger] arms@[j]).1),
                        expr.kind == ExprKind::Match(m),
                        m.arms == *arms,
                        expr@.kind == crate::spring::type_tree::data::ExprKindV::Match(Box::new((*m.scrutinee)@), av),
                        first_arm(av, sv, i as int) == first_arm(av, sv, 0),
                        eval_rule(expr@, sm, t0) == (match first_arm(av, sv, 0) {
                            Some(k) => if 0 <= k < av.len() {
                                eval_rule(av[k].1, sm, t1)
                            } else {
                                (Outcome::Stuck, t1)
                            },
                            None => (Outcome::Stuck, t1),
                        }),
                        self.trace() == t1,
                        t0 == old(self).trace(),
                        sm == old(scope).view_map(),
                        self.src == old(self).src,
                        *scope == *old(scope),
                        sm == scope.view_map(),
                    decreases arms@.len() - i,
                {
                    let matched = match arms[i].0.inner {
                        Pattern::Int(p) => p == sv,
                        Pattern::Discard => true,
                    };
                    if matched {
                        proof {
                            assert(pattern_matches(av[i as int].0.inner, sv));
                            assert(first_arm(av, sv, i as int) == Some(i as int));
                            assert(av[i as int].1 == arms@[i as int].1@);
                        }
                        return self.eval_expr(&arms[i].1, scope);
                    }
                    proof {
                        assert(!pattern_matches(av[i as int].0.inner, sv));
                        assert(first_arm(av, sv, i as int) == first_arm(av, sv, i + 1));
                    }
                    i = i + 1;
                }
                Err(Stop::Stuck)
            },
            ExprKind::MacroCall(MacroCallExpr { name, args }) => self.eval_macro(expr, name, args, scope),
        }
    }

    /// Evaluates a call of the builtin `name` with arguments `args`; `expr`
    /// is the call.
    fn eval_macro(
        &mut self,
        expr: &Expr<'src>,
        name: &Ident<'src>,
        args: &Vec<Expr<'src>>,
        scope: &mut Scope<'src, '_>,
    ) -> (res: Result<Value<'src>, Stop<'src>>)
        requires
            expr.kind == ExprKind::MacroCall(MacroCallExpr { name: *name, args: *args }),
        ensures
            final(self).src == old(self).src,
            *final(scope) == *old(scope),
            ({
                let (o, t) = eval_rule(expr@, old(scope).view_map(), old(self).trace());
                stop_result_is(res, o) && final(self).trace() == t
            }),
        decreases *expr, 0int,
    {
        let ghost sm = scope.view_map();
        let ghost t0 = self.trace();
        let ghost av = exprs_view(args@);
        let ghost c = expr.kind->MacroCall_0;
        proof {
            lemma_exprs_view(args@);
            assert forall|j: int| 0 <= j < args@.len() implies decreases_to!(*expr => #[trigger] args@[j]) by {
                assert(decreases_to!(*expr => expr.kind));
                assert(decreases_to!(expr.kind => c));
                assert(decreases_to!(c => c.args));
                assert(decreases_to!(c.args => c.args@));
                assert(decreases_to!(c.args@ => c.args@[j]));
            }
        }
        if text_eq(name.name, "type") {
            let mut labels: Vec<(Span, TypeKind)> = Vec::new();
            let mut i: usize = 0;
            while i < args.len()
                invariant
                    i <= args@.len(),
                    av.len() == args@.len(),
                    forall|j: int| 0 <= j < args@.len() ==> #[trigger] av[j] == args@[j]@,
                    labels@.len() == i,
                    forall|j: int| 0 <= j < i ==> (#[trigger] labels@[j]).0 == av[j].span && labels@[j].1@ == av[j].ty,
                decreases args@.len() - i,
            {
                labels.push((args[i].span, clone_kind(&args[i].ty.kind)));
                i = i + 1;
            }
            proof {
                assert(Seq::new(labels@.len(), |j: int| (labels@[j].0, labels@[j].1@)) =~= type_labels(av));
            }
            let effect = Effect::TypeDebug { span: expr.span, labels };
            proof {
                assert(effect@ == crate::spring::interpret::EffectV::TypeDebug { span: expr.span, labels: type_labels(av) });
            }
            self.push_effect(effect);
            return Ok(Value::Unit);
        }
        let is_print = text_eq(name.name, "print");
        let is_debug = text_eq(name.name, "debug");
        let is_error = text_eq(name.name, "error");
        let is_output = text_eq(name.name, "output");
        if !(is_print || is_debug || is_error || is_output) {
            return Err(Stop::Error(InterpretError::UnknownBuiltinError { name: *name }.report(self)));
        }
        let mut vals: Vec<Value<'src>> = Vec::new();
        proof {
            assert(av.take(0) =~= Seq::<ExprV>::empty());
            assert(values_view(vals@) =~= Seq::<ValueV>::empty());
        }
        let mut i: usize = 0;
        while i < args.len()
            invariant
                i <= args@.len(),
                av.len() == args@.len(),
                forall|j: int| 0 <= j < args@.len() ==> #[trigger] av[j] == args@[j]@,
                forall|j: int| 0 <= j < args@.len() ==> decreases_to!(*expr => #[trigger] args@[j]),
                evaluates_args(name.name@),
                name.name@ != "type"@,
                expr@.kind == crate::spring::type_tree::data::ExprKindV::MacroCall(name@, av),
                eval_rule(expr@, sm, t0) == (match eval_args_rule(av, sm, t0) {
                    (Outcome::Done(vs), t1) => builtin_rule(name.name@, av, vs, expr.span, t1),
                    (Outcome::Fail(err), t1) => (Outcome::Fail(err), t1),
                    (Outcome::Stuck, t1) => (Outcome::Stuck, t1),
                }),
                vals@.len() == i,
                eval_args_rule(av.take(i as int), sm, t0) == (Outcome::Done(values_view(vals@)), self.trace()),
                t0 == old(self).trace(),
                sm == old(scope).view_map(),
                self.src == old(self).src,
                *scope == *old(scope),
                sm == scope.view_map(),
            decreases args@.len() - i,
        {
            let ghost k = i as int;
            let ghost old_trace = self.trace();
            proof {
                assert(av.take(k + 1).drop_last() =~= av.take(k));
                assert(av.take(k + 1).last() == av[k]);
            }
            match self.eval_expr(&args[i], scope) {
                Ok(v) => {
                    proof {
                        assert(values_view(vals@.push(v)) =~= values_view(vals@).push(v@));
                    }
                    vals.push(v);
                },
                Err(e) => {
                    proof {
                        assert(eval_rule(av[k], sm, old_trace).1 == self.trace());
                        assert(!(eval_args_rule(av.take(k + 1), sm, t0).0 is Done));
                        assert(eval_args_rule(av.take(k + 1), sm, t0).1 == self.trace());
                        lemma_args_stop(av, k + 1, sm, t0);
                    }
                    return Err(e);
                },
            }
            i = i + 1;
        }
        proof {
            assert(av.take(args@.len() as int) =~= av);
        }
        let ghost vv = values_view(vals@);
        if is_print {
            self.push_effect(Effect::Print(vals));
            Ok(Value::Unit)
        } else if is_debug {
            let mut labels: Vec<(Span, Value<'src>)> = Vec::new();
            let mut j: usize = 0;
            while j < vals.len()
                invariant
                    j <= vals@.len(),
                    vals@.len() == args@.len(),
                    av.len() == args@.len(),
                    forall|x: int| 0 <= x < args@.len() ==> #[trigger] av[x] == args@[x]@,
                    vv == values_view(vals@),
                    labels@.len() == j,
                    forall|x: int| 0 <= x < j ==> (#[trigger] labels@[x]).0 == av[x].span && labels@[x].1@ == vv[x],
                decreases vals@.len() - j,
            {
                labels.push((args[j].span, vals[j]));
                j = j + 1;
            }
            proof {
                assert(Seq::new(labels@.len(), |x: int| (labels@[x].0, labels@[x].1@)) =~= value_labels(av, vv));
            }
            let effect = Effect::Debug { span: expr.span, labels };
            proof {
                assert(effect@ == crate::spring::interpret::EffectV::Debug { span: expr.span, labels: value_labels(av, vv) });
            }
            self.push_effect(effect);
            Ok(Value::Unit)
        } else if is_error {
            let mut spanned: Vec<Spanned<Value<'src>>> = Vec::new();
            let mut j: usize = 0;
            while j < vals.len()
                invariant
                    j <= vals@.len(),
                    vals@.len() == args@.len(),
                    av.len() == args@.len(),
                    forall|x: int| 0 <= x < args@.len() ==> #[trigger] av[x] == args@[x]@,
                    vv == values_view(vals@),
                    spanned@.len() == j,
                    forall|x: int| 0 <= x < j ==> (#[trigger] spanned@[x]).span == av[x].span && spanned@[x].inner@ == vv[x],
                decreases vals@.len() - j,
            {
                spanned.push(Spanned::with_span(vals[j], args[j].span));
                j = j + 1;
            }
            let err = InterpretError::CustomError { args: spanned, span: expr.span };
            proof {
                assert(spanned_values_view(spanned@) =~= spanned_values(av, vv));
            }
            Err(Stop::Error(err.report(self)))
        } else {
            let ghost before = self.trace();
            let mut j: usize = 0;
            while j < vals.len()
                invariant
                    j <= vals@.len(),
                    vv == values_view(vals@),
                    self.trace().effects == before.effects,
                    self.trace().output == before.output + vv.take(j as int),
                    self.src == old(self).src,
                decreases vals@.len() - j,
            {
                let ghost prev = self.test_output@;
                self.test_output.push(vals[j]);
                proof {
                    assert(values_view(self.test_output@) =~= values_view(prev).push(vals@[j as int]@));
                    assert(vv[j as int] == vals@[j as int]@);
                    assert(vv.take(j + 1) =~= vv.take(j as int).push(vals@[j as int]@));
                    assert(before.output + vv.take(j + 1) =~= (before.output + vv.take(j as int)).push(vals@[j as int]@));
                    assert(self.trace().output =~= before.output + vv.take(j + 1));
                    assert(self.trace().effects =~= before.effects);
                }
                j = j + 1;
            }
            proof {
                assert(vv.take(vals@.len() as int) =~= vv);
            }
            Ok(Value::Unit)
        }
    }

    /// Evaluates a statement for its value.
    pub fn eval_stmt(&mut self, stmt: &Statement<'src>, scope: &mut Scope<'src, '_>) -> (res: Result<Value<'src>, InterpretError<'src>>)
        requires
            !(eval_rule(stmt@.expr, old(scope).view_map(), old(self).trace()).0 is Stuck),
        ensures
            final(self).src == old(self).src,
            *final(scope) == *old(scope),
            ({
                let (o, t) = eval_rule(stmt@.expr, old(scope).view_map(), old(self).trace());
                result_is(res, o) && final(self).trace() == t
            }),
    {
        match &stmt.kind {
            StatementKind::Expr(expr) => settle(self.eval_expr(expr, scope)),
        }
    }

    /// Evaluates a block, or tells that its evaluation gets stuck.
    fn block_or_stuck(&mut self, block: &Block<'src>, scope: &mut Scope<'src, '_>) -> (res: Result<Value<'src>, Stop<'src>>)
        ensures
            final(self).src == old(self).src,
            *final(scope) == *old(scope),
            ({
                let (o, t) = eval_block_rule(block@, old(scope).view_map(), old(self).trace());
                stop_result_is(res, o) && final(self).trace() == t
            }),
    {
        let ghost sm = scope.view_map();
        let ghost t0 = self.trace();
        let ghost sv = statements_view(block.body@);
        let mut i: usize = 0;
        proof {
            assert(sv.take(0) =~= Seq::<crate::spring::type_tree::data::StatementV>::empty());
        }
        while i < block.body.len()
            invariant
                i <= block.body@.len(),
                sv == statements_view(block.body@),
                sv.len() == block.body@.len(),
                block@.body == sv,
                eval_stmts_rule(sv.take(i as int), sm, t0) == (Outcome::<()>::Done(()), self.trace()),
                t0 == old(self).trace(),
                sm == old(scope).view_map(),
                self.src == old(self).src,
                *scope == *old(scope),
                sm == scope.view_map(),
            decreases block.body@.len() - i,
        {
            let ghost k = i as int;
            proof {
                assert(sv.take(k + 1).drop_last() =~= sv.take(k));
                assert(sv.take(k + 1).last() == sv[k]);
                assert(sv[k] == block.body@[k]@);
            }
            let ghost old_trace = self.trace();
            let stmt = &block.body[i];
            let res = match &stmt.kind {
                StatementKind::Expr(expr) => self.eval_expr(expr, scope),
            };
            match res {
                Ok(_) => {},
                Err(e) => {
                    proof {
                        assert(eval_rule(sv[k].expr, sm, old_trace).1 == self.trace());
                        assert(!(eval_stmts_rule(sv.take(k + 1), sm, t0).0 is Done));
                        assert(eval_stmts_rule(sv.take(k + 1), sm, t0).1 == self.trace());
                        lemma_stmts_stop(sv, k + 1, sm, t0);
                    }
                    return Err(e);
                },
            }
            i = i + 1;
        }
        proof {
            assert(sv.take(block.body@.len() as int) =~= sv);
        }
        self.eval_expr(&block.trailing, scope)
    }

    /// Evaluates a block: its statements in order, then its trailing
    /// expression, whose value is the block's.
    pub fn eval_block(&mut self, block: &Block<'src>, scope: &mut Scope<'src, '_>) -> (res: Result<Value<'src>, InterpretError<'src>>)
        requires
            !(eval_block_rule(block@, old(scope).view_map(), old(self).trace()).0 is Stuck),
        ensures
            final(self).src == old(self).src,
            *final(scope) == *old(scope),
            ({
                let (o, t) = eval_block_rule(block@, old(scope).view_map(), old(self).trace());
                result_is(res, o) && final(self).trace() == t
            }),
    {
        settle(self.block_or_stuck(block, scope))
    }

    /// Runs a module as `eval_module` does, where evaluation would get stuck
    /// (see `Outcome::Stuck`) telling so instead.
    pub fn run_module(&mut self, module: &Module<'src>) -> (res: Result<Value<'src>, Stop<'src>>)
        ensures
            final(self).src == old(self).src,
            ({
                let (o, t) = eval_module_rule(module@, old(self).trace());
                stop_result_is(res, o) && final(self).trace() == t
            }),
    {
        let ghost iv = module@.items;
        let mut i: usize = 0;
        while i < module.items.len()
            invariant
                i <= module.items@.len(),
                iv == module@.items,
                iv.len() == module.items@.len(),
                main_index(iv, i as int) == main_index(iv, 0),
                *self == *old(self),
            decreases module.items@.len() - i,
        {
            match &module.items[i].kind {
                ItemKind::Func(f) => {
                    proof {
                        assert(iv[i as int].func == f@);
                    }
                    if text_eq(f.name.name, "main") {
                        let mut scope = Scope::new();
                        return self.block_or_stuck(&f.body, &mut scope);
                    }
                },
            }
            i = i + 1;
        }
        Err(Stop::Stuck)
    }

    /// Runs a module: evaluates the body of its first function named `main`.
    pub fn eval_module(&mut self, module: &Module<'src>) -> (res: Result<Value<'src>, InterpretError<'src>>)
        requires
            !(eval_module_rule(module@, old(self).trace()).0 is Stuck),
        ensures
            final(self).src == old(self).src,
            ({
                let (o, t) = eval_module_rule(module@, old(self).trace());
                result_is(res, o) && final(self).trace() == t
            }),
    {
        settle(self.run_module(module))
    }
}

} // verus!
