//! The errors the type checker reports.

use crate::spring::span::Span;
use crate::spring::type_tree::data::{kinds_view, Type, TypeKind, TypeKindV};
use crate::spring::type_tree::TypeContext;
use vstd::prelude::*;

verus! {

#[derive(Debug, PartialEq)]
pub enum TypeError {
    UnifyError { expected: Type, received: Type },
    TypeMismatchError {
        receive_expr: Span,
        expected_expr: Span,
        expected: Vec<TypeKind>,
        received: TypeKind,
    },
    MatchOverlapError { match_span: Span, first_span: Span, repeat_span: Span },
    MatchMissingDiscardError { match_span: Span },
    UnknownVariableError { ident_span: Span },
}

pub enum TypeErrorV {
    UnifyError { expected: TypeKindV, received: TypeKindV },
    TypeMismatchError {
        receive_expr: Span,
        expected_expr: Span,
        expected: Seq<TypeKindV>,
        received: TypeKindV,
    },
    MatchOverlapError { match_span: Span, first_span: Span, repeat_span: Span },
    MatchMissingDiscardError { match_span: Span },
    UnknownVariableError { ident_span: Span },
}

pub open spec fn kind_seq_view(kinds: Seq<TypeKind>) -> Seq<TypeKindV> {
    Seq::new(kinds.len(), |i: int| kinds[i]@)
}

impl View for TypeError {
    type V = TypeErrorV;

    open spec fn view(&self) -> TypeErrorV {
        match self {
            TypeError::UnifyError { expected, received } => TypeErrorV::UnifyError {
                expected: expected@,
                received: received@,
            },
            TypeError::TypeMismatchError { receive_expr, expected_expr, expected, received } =>
                TypeErrorV::TypeMismatchError {
                receive_expr: *receive_expr,
                expected_expr: *expected_expr,
                expected: kind_seq_view(expected@),
                received: received@,
            },
            TypeError::MatchOverlapError { match_span, first_span, repeat_span } =>
                TypeErrorV::MatchOverlapError {
                match_span: *match_span,
                first_span: *first_span,
                repeat_span: *repeat_span,
            },
            TypeError::MatchMissingDiscardError { match_span } =>
                TypeErrorV::MatchMissingDiscardError { match_span: *match_span },
            TypeError::UnknownVariableError { ident_span } => TypeErrorV::UnknownVariableError {
                ident_span: *ident_span,
            },
        }
    }
}

impl TypeError {
    /// Records this error in the context's list of errors.
    pub fn report(self, ctx: &mut TypeContext<'_>)
        ensures
            final(ctx).src == old(ctx).src,
            final(ctx).errors_view() == old(ctx).errors_view().push(self@),
    {
        ctx.errors.push(self);
        assert(final(ctx).errors_view() =~= old(ctx).errors_view().push(self@));
    }
}

} // verus!
