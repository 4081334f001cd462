//! The errors that stop evaluation.

use crate::spring::interpret::{Interpreter, Value};
use crate::spring::span::{Span, Spanned};
use crate::spring::interpret::ValueV;
use crate::spring::type_tree::data::{Ident, IdentV};
use vstd::prelude::*;

verus! {

#[derive(Debug, PartialEq)]
pub enum InterpretError<'src> {
    UnknownBuiltinError { name: Ident<'src> },
    DivideByZeroError { span: Span },
    /// Raised by the `error!` macro, with its evaluated arguments.
    CustomError { args: Vec<Spanned<Value<'src>>>, span: Span },
}

pub enum InterpretErrorV {
    UnknownBuiltinError { name: IdentV },
    DivideByZeroError { span: Span },
    CustomError { args: Seq<Spanned<ValueV>>, span: Span },
}

/// The values of `error!`'s arguments with their spans.
pub open spec fn spanned_values_view(args: Seq<Spanned<Value>>) -> Seq<Spanned<ValueV>> {
    Seq::new(args.len(), |i: int| Spanned { inner: args[i].inner@, span: args[i].span })
}

impl<'src> View for InterpretError<'src> {
    type V = InterpretErrorV;

    open spec fn view(&self) -> InterpretErrorV {
        match self {
            InterpretError::UnknownBuiltinError { name } => InterpretErrorV::UnknownBuiltinError { name: name@ },
            InterpretError::DivideByZeroError { span } => InterpretErrorV::DivideByZeroError { span: *span },
            InterpretError::CustomError { args, span } => InterpretErrorV::CustomError {
                args: spanned_values_view(args@),
                span: *span,
            },
        }
    }
}

impl<'src> InterpretError<'src> {
    /// Marks this error as reported and hands it back; showing it to the
    /// user is up to whoever receives it.
    pub fn report(self, ctx: &mut Interpreter<'src>) -> (err: Self)
        ensures
            err == self,
            *final(ctx) == *old(ctx),
    {
        self
    }
}

} // verus!
