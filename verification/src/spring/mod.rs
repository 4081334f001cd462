//! An interpreter for the Spring language: a lexer and parser that build a
//! parse tree, a type checker that turns it into a typed tree, and a tree
//! walking interpreter.

pub mod interpret;
pub mod parse_tree;
pub mod span;
pub mod type_tree;

use crate::spring::interpret::error::{InterpretError, InterpretErrorV};
use crate::spring::interpret::rules::{eval_module_rule, Outcome, Trace};
use crate::spring::interpret::{values_view, Effect, EffectV, Interpreter, Stop, Value, ValueV};
use crate::spring::parse_tree::data as pt;
use crate::spring::parse_tree::grammar::parse_module;
use crate::spring::parse_tree::lexer::tokens_of;
use crate::spring::parse_tree::token::TokenV;
use crate::spring::parse_tree::view::{pmodule_view, PFuncV};
use crate::spring::parse_tree::{error_at, parse, syntax_error_view, text_end, ParseError};
use crate::spring::span::{Span, Spanned};
use crate::spring::type_tree::data::ModuleV;
use crate::spring::type_tree::error::{TypeError, TypeErrorV};
use crate::spring::type_tree::invariance::lemma_type_module_view;
use crate::spring::type_tree::rules::{law_module_stop_reported, module_checkable, type_module_rule, Typing};
use crate::spring::type_tree::support::checkable;
use crate::spring::type_tree::TypeContext;
use vstd::prelude::*;

verus! {

/// Whether two texts are the same.
pub(crate) fn text_eq(a: &str, b: &str) -> (same: bool)
    ensures
        same == (a@ == b@),
{
    a.to_owned() == b.to_owned()
}

/// The marker of a type checking step that stopped; the errors behind it
/// have been reported.
#[derive(Debug, Clone, Copy, PartialEq)]
pub struct DummyError;

/// Why running a program stopped: its text does not parse, it does not
/// type check, or evaluating it failed.
#[derive(Debug, PartialEq)]
pub enum LibError<'src> {
    ParseError(ParseError<'src>),
    TypeError(Vec<TypeError>),
    InterpretError(InterpretError<'src>),
}

/// The parse tree of the source text `s`, by its view, or the index of the
/// token where `s` stops fitting the grammar.
pub open spec fn parsed(s: Seq<char>) -> Result<Spanned<Seq<Spanned<PFuncV>>>, int> {
    parse_module(tokens_of(s), text_end(s))
}

/// A parse tree whose view is `mv`.
pub open spec fn tree_of(mv: Spanned<Seq<Spanned<PFuncV>>>) -> Spanned<pt::Module<'static>> {
    choose|m: Spanned<pt::Module<'static>>| pmodule_view(m) == mv
}

/// How running a program ends.
pub enum RunV {
    SyntaxError(Span, Option<TokenV>),
    TypeErrors(Seq<TypeErrorV>),
    Failed(InterpretErrorV),
    Output(Seq<ValueV>),
    /// Evaluation gets stuck (see `Outcome::Stuck`).
    Stuck,
}

/// Running the program `s`: parse it, type check it, and if no error was
/// reported evaluate its `main`; the outcome, and the requests to show
/// something that evaluation made.
pub open spec fn run_rule(s: Seq<char>) -> (RunV, Seq<EffectV>) {
    match parsed(s) {
        Err(x) => {
            let (span, found) = error_at(tokens_of(s), x, text_end(s));
            (RunV::SyntaxError(span, found), seq![])
        },
        Ok(mv) => {
            let (typed, errs) = type_module_rule(tree_of(mv));
            match typed {
                Some(tm) => if errs.len() == 0 {
                    match eval_module_rule(tm, Trace { output: seq![], effects: seq![] }) {
                        (Outcome::Done(_), t) => (RunV::Output(t.output), t.effects),
                        (Outcome::Fail(e), t) => (RunV::Failed(e), t.effects),
                        (Outcome::Stuck, t) => (RunV::Stuck, t.effects),
                    }
                } else {
                    (RunV::TypeErrors(errs), seq![])
                },
                None => (RunV::TypeErrors(errs), seq![]),
            }
        },
    }
}

/// A program that can be run: if it parses, the type checker handles its
/// tree (see `module_checkable`), and evaluating it does not get stuck.
pub open spec fn runnable(s: Seq<char>) -> bool {
    &&& parsed(s) matches Ok(mv) ==> module_checkable(tree_of(mv).inner)
    &&& !(run_rule(s).0 is Stuck)
}

/// Whether the result of running a program is the outcome `rv`.
pub open spec fn run_result_is(res: Result<Vec<Value>, LibError>, rv: RunV) -> bool {
    match res {
        Ok(vals) => rv == RunV::Output(values_view(vals@)),
        Err(LibError::ParseError(e)) => rv matches RunV::SyntaxError(span, found) && e.0@.len() == 1
            && syntax_error_view(e.0@[0]) == (span, found),
        Err(LibError::TypeError(errs)) => rv == RunV::TypeErrors(Seq::new(errs@.len(), |i: int| errs@[i]@)),
        Err(LibError::InterpretError(e)) => rv == RunV::Failed(e@),
    }
}

/// A program that type checking refuses is refused with at least one error.
pub proof fn law_type_refusal_reported(s: Seq<char>)
    requires
        parsed(s) matches Ok(mv) ==> module_checkable(tree_of(mv).inner),
    ensures
        run_rule(s).0 matches RunV::TypeErrors(errs) ==> errs.len() > 0,
{
    if let Ok(mv) = parsed(s) {
        if type_module_rule(tree_of(mv)).0 is None {
            law_module_stop_reported(tree_of(mv));
        }
    }
}

/// Running a program ends as its stages decide. A text that does not parse
/// ends with its syntax error, and nothing is type checked or evaluated. A
/// program that type checking refuses ends with the type errors in the order
/// they were reported, at least one wherever the type checker handles the
/// tree, and nothing is evaluated. A program that runs to its end gives the
/// values that `output!` recorded, in the order it recorded them.
pub proof fn law_run_outcome(s: Seq<char>)
    ensures
        parsed(s) is Err ==> run_rule(s).0 is SyntaxError && run_rule(s).1.len() == 0,
        run_rule(s).0 matches RunV::TypeErrors(errs) ==> ({
            let tree = tree_of(parsed(s)->Ok_0);
            &&& parsed(s) is Ok
            &&& run_rule(s).1.len() == 0
            &&& errs == type_module_rule(tree).1
            &&& module_checkable(tree.inner) ==> errs.len() > 0
        }),
        run_rule(s).0 matches RunV::Output(outs) ==> ({
            let tree = tree_of(parsed(s)->Ok_0);
            let typed = type_module_rule(tree);
            let evaluated = eval_module_rule(typed.0->0, Trace { output: seq![], effects: seq![] });
            &&& parsed(s) is Ok
            &&& typed.0 is Some
            &&& typed.1.len() == 0
            &&& evaluated.0 is Done
            &&& outs == evaluated.1.output
            &&& run_rule(s).1 == evaluated.1.effects
        }),
{
    if let Ok(mv) = parsed(s) {
        if module_checkable(tree_of(mv).inner) {
            law_type_refusal_reported(s);
        }
    }
}

/// Why a program could not be run to an end: an error stopped it, the type
/// checker does not handle it (see `module_checkable`), or its evaluation
/// gets stuck (see `Outcome::Stuck`).
#[derive(Debug, PartialEq)]
pub enum Halt<'src> {
    Error(LibError<'src>),
    Unhandled,
    Stuck,
}

/// The program parses to a tree the type checker does not handle.
pub open spec fn unhandled(s: Seq<char>) -> bool {
    parsed(s) matches Ok(mv) && !module_checkable(tree_of(mv).inner)
}

/// Runs the program `src` as `execute` does, on every source text: where the
/// type checker does not handle its tree, or evaluation gets stuck, it says
/// so instead, with the requests evaluation made until then.
pub fn try_execute<'src>(src: &'src str) -> (ex: (Result<Vec<Value<'src>>, Halt<'src>>, Vec<Effect<'src>>))
    ensures
        unhandled(src@) <==> ex.0 matches Err(Halt::Unhandled),
        unhandled(src@) ==> ex.1@.len() == 0,
        !unhandled(src@) ==> {
            &&& (run_rule(src@).0 is Stuck <==> ex.0 matches Err(Halt::Stuck))
            &&& Seq::new(ex.1@.len(), |i: int| ex.1@[i]@) == run_rule(src@).1
            &&& match ex.0 {
                Ok(vals) => run_result_is(Ok(vals), run_rule(src@).0),
                Err(Halt::Error(e)) => run_result_is(Err(e), run_rule(src@).0),
                _ => true,
            }
        },
        ex.0 matches Err(Halt::Error(LibError::TypeError(errs))) ==> errs@.len() > 0,
{
    let module = match parse(src) {
        Ok(m) => m,
        Err(e) => {
            let effects: Vec<Effect<'src>> = Vec::new();
            assert(Seq::new(effects@.len(), |i: int| effects@[i]@) =~= Seq::<EffectV>::empty());
            return (Err(Halt::Error(LibError::ParseError(e))), effects);
        },
    };
    proof {
        let mv = pmodule_view(module);
        assert(pmodule_view(tree_of(mv)) == mv);
        lemma_type_module_view(module, tree_of(mv));
    }
    if !checkable(&module) {
        return (Err(Halt::Unhandled), Vec::new());
    }
    let mut ctx = TypeContext::new(src);
    let typed = ctx.type_module(module);
    let typed = match typed {
        Ok(t) => {
            if ctx.errors.len() != 0 {
                let effects: Vec<Effect<'src>> = Vec::new();
                assert(Seq::new(effects@.len(), |i: int| effects@[i]@) =~= Seq::<EffectV>::empty());
                return (Err(Halt::Error(LibError::TypeError(ctx.errors))), effects);
            }
            t
        },
        Err(_) => {
            let effects: Vec<Effect<'src>> = Vec::new();
            assert(Seq::new(effects@.len(), |i: int| effects@[i]@) =~= Seq::<EffectV>::empty());
            return (Err(Halt::Error(LibError::TypeError(ctx.errors))), effects);
        },
    };
    let mut interpreter = Interpreter::new(src);
    let res = interpreter.run_module(&typed);
    let Interpreter { test_output, effects, .. } = interpreter;
    match res {
        Ok(_) => (Ok(test_output), effects),
        Err(Stop::Error(e)) => (Err(Halt::Error(LibError::InterpretError(e))), effects),
        Err(Stop::Stuck) => (Err(Halt::Stuck), effects),
    }
}

/// Runs the program `src` as `run` does, and also hands back the requests
/// to show something that evaluation made, in order.
pub fn execute<'src>(src: &'src str) -> (ex: (Result<Vec<Value<'src>>, LibError<'src>>, Vec<Effect<'src>>))
    requires
        runnable(src@),
    ensures
        run_result_is(ex.0, run_rule(src@).0),
        ex.0 matches Err(LibError::TypeError(errs)) ==> errs@.len() > 0,
        Seq::new(ex.1@.len(), |i: int| ex.1@[i]@) == run_rule(src@).1,
{
    let (res, effects) = try_execute(src);
    let res = match res {
        Ok(vals) => Ok(vals),
        Err(Halt::Error(e)) => Err(e),
        Err(Halt::Unhandled) => unreached(),
        Err(Halt::Stuck) => unreached(),
    };
    (res, effects)
}

/// Runs the program `src`: parses it, type checks it, and evaluates its
/// `main`; gives the values that `output!` recorded, or the error that
/// stopped it.
pub fn run<'src>(src: &'src str) -> (res: Result<Vec<Value<'src>>, LibError<'src>>)
    requires
        runnable(src@),
    ensures
        run_result_is(res, run_rule(src@).0),
        res matches Err(LibError::TypeError(errs)) ==> errs@.len() > 0,
{
    execute(src).0
}

} // verus!
