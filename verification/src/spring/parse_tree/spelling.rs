//! The two spellings of a call and of a `match`.
//!
//! A call written after a dot takes the expression before the dot as its
//! first argument, and `A.match { .. }` matches on `A` as `match(A) { .. }`
//! does. The laws at the end of this file state that both spellings parse to
//! the same expression.
//!
//! They rest on one fact about the grammar: a parse reads only the tokens it
//! covers, and the token after them only to see where it stops. So the same
//! tokens parse to the same value wherever they stand, as long as what
//! follows them stops the parse in the same way.

use crate::spring::parse_tree::grammar::{
    args_items, arms_items, at, binary_rest, infix_op, parse_args, parse_arms, parse_atom,
    parse_binary, parse_expr, parse_ident, parse_pattern, parse_postfix, postfix_args, postfix_rest,
    span_of,
};
use crate::spring::parse_tree::token::TokenV;
use crate::spring::parse_tree::view::PExprV;
use crate::spring::span::Spanned;
use vstd::prelude::*;

verus! {

/// Tokens `lo..k` of `t` stand in `u` at `lo + d..k + d`.
pub open spec fn same_tokens(t: Seq<Spanned<TokenV>>, u: Seq<Spanned<TokenV>>, lo: int, k: int, d: int) -> bool {
    &&& 0 <= lo <= k <= t.len()
    &&& 0 <= lo + d
    &&& k + d <= u.len()
    &&& forall|j: int| lo <= j < k ==> u[j + d] == #[trigger] t[j]
}

/// Token `k` of `t` is an infix operator.
pub open spec fn infix_at(t: Seq<Spanned<TokenV>>, k: int) -> bool {
    0 <= k < t.len() && infix_op(t[k].inner) is Some
}

/// What follows a call's name stops it the same way in `t` at `k` and in
/// `u` at `k + d`: an argument list follows in both or in neither.
pub open spec fn stops_args(t: Seq<Spanned<TokenV>>, u: Seq<Spanned<TokenV>>, k: int, d: int) -> bool {
    at(t, k, TokenV::OpenParen) == at(u, k + d, TokenV::OpenParen)
}

/// What follows an atom stops it the same way in `t` at `k` and in `u` at
/// `k + d`: no `!` follows, and an argument list follows in both or in
/// neither.
pub open spec fn stops_atom(t: Seq<Spanned<TokenV>>, u: Seq<Spanned<TokenV>>, k: int, d: int) -> bool {
    &&& !at(t, k, TokenV::Bang)
    &&& !at(u, k + d, TokenV::Bang)
    &&& stops_args(t, u, k, d)
}

/// What follows an expression stops it the same way in `t` at `k` and in `u`
/// at `k + d`: neither a dot nor a `!` follows, and the same token, or in
/// neither an infix operator, follows.
pub open spec fn stops_expr(t: Seq<Spanned<TokenV>>, u: Seq<Spanned<TokenV>>, k: int, d: int) -> bool {
    &&& stops_atom(t, u, k, d)
    &&& !at(t, k, TokenV::Dot)
    &&& !at(u, k + d, TokenV::Dot)
    &&& ((k < t.len()) == (k + d < u.len()) && (k < t.len() ==> u[k + d].inner == t[k].inner) || !infix_at(
        t,
        k,
    ) && !infix_at(u, k + d))
}

// ---------------------------------------------------------------------------
// Where a parse ends
// ---------------------------------------------------------------------------

proof fn lemma_binary_rest_end(
    t: Seq<Spanned<TokenV>>,
    start: int,
    lhs: Spanned<PExprV>,
    j: int,
    min: int,
    eof: usize,
)
    ensures
        binary_rest(t, start, lhs, j, min, eof) matches Ok((v, k)) ==> k >= j && (k > j ==> infix_at(t, j)) && (k == j
            ==> v == lhs) && (0 <= j < t.len() && infix_op(t[j].inner) is Some && (infix_op(t[j].inner)->0).1 >= min
            ==> k > j),
    decreases t.len() - j,
{
    if 0 <= j < t.len() {
        match infix_op(t[j].inner) {
            Some((op, prec)) => if prec >= min {
                match parse_binary(t, j + 1, prec + 1, eof) {
                    Ok((rhs, k)) => if j < k <= t.len() {
                        let e = Spanned {
                            inner: PExprV::BinOp(op, Box::new(lhs), Box::new(rhs)),
                            span: span_of(t, start, k, eof),
                        };
                        lemma_binary_rest_end(t, start, e, k, min, eof);
                    },
                    Err(_) => {},
                }
            },
            None => {},
        }
    }
}

proof fn lemma_args_items_end(t: Seq<Spanned<TokenV>>, j: int, acc: Seq<Spanned<PExprV>>, eof: usize)
    ensures
        args_items(t, j, acc, eof) matches Ok((v, k)) ==> k > j,
    decreases t.len() - j,
{
    if !at(t, j, TokenV::CloseParen) && 0 <= j < t.len() {
        match parse_expr(t, j, eof) {
            Ok((e, k)) => if j < k < t.len() && at(t, k, TokenV::Comma) {
                lemma_args_items_end(t, k + 1, acc.push(e), eof);
            },
            Err(_) => {},
        }
    }
}

proof fn lemma_arms_items_end(
    t: Seq<Spanned<TokenV>>,
    j: int,
    acc: Seq<(Spanned<crate::spring::parse_tree::data::Pattern>, Spanned<PExprV>)>,
    eof: usize,
)
    ensures
        arms_items(t, j, acc, eof) matches Ok((v, k)) ==> k > j,
    decreases t.len() - j,
{
    if !at(t, j, TokenV::CloseBrace) && 0 <= j < t.len() {
        match parse_pattern(t, j) {
            Ok((p, j1)) => if at(t, j1, TokenV::Arrow) {
                match parse_expr(t, j1 + 1, eof) {
                    Ok((e, k)) => if j < k < t.len() && at(t, k, TokenV::Comma) {
                        lemma_arms_items_end(t, k + 1, acc.push((p, e)), eof);
                    },
                    Err(_) => {},
                }
            },
            Err(_) => {},
        }
    }
}

proof fn lemma_expr_end(t: Seq<Spanned<TokenV>>, i: int, eof: usize)
    ensures
        parse_expr(t, i, eof) matches Ok((v, k)) ==> k > i,
{
    match parse_postfix(t, i, eof) {
        Ok((lhs, j)) => lemma_binary_rest_end(t, i, lhs, j, 1, eof),
        Err(_) => {},
    }
}

proof fn lemma_args_end(t: Seq<Spanned<TokenV>>, i: int, eof: usize)
    ensures
        parse_args(t, i, eof) matches Ok((v, k)) ==> k > i + 1,
{
    lemma_args_items_end(t, i + 1, seq![], eof);
}

proof fn lemma_arms_end(t: Seq<Spanned<TokenV>>, i: int, eof: usize)
    ensures
        parse_arms(t, i, eof) matches Ok((v, k)) ==> k > i + 1,
{
    lemma_arms_items_end(t, i + 1, seq![], eof);
}

proof fn lemma_postfix_args_end(t: Seq<Spanned<TokenV>>, operand: Spanned<PExprV>, k0: int, eof: usize)
    ensures
        postfix_args(t, operand, k0, eof) matches Ok((v, k)) ==> k >= k0,
{
    lemma_args_end(t, k0, eof);
}

proof fn lemma_postfix_rest_end(t: Seq<Spanned<TokenV>>, start: int, e: Spanned<PExprV>, j: int, eof: usize)
    ensures
        postfix_rest(t, start, e, j, eof) matches Ok((v, k)) ==> k >= j && (k > j ==> at(t, j, TokenV::Dot) && j
            + 1 < t.len()) && (k == j ==> v == e),
    decreases t.len() - j,
{
    if at(t, j, TokenV::Dot) && j + 1 < t.len() {
        let next = if at(t, j + 1, TokenV::Match) {
            match parse_arms(t, j + 2, eof) {
                Ok((arms, k)) => Ok((PExprV::Match(Box::new(e), arms), k)),
                Err(x) => Err(x),
            }
        } else {
            match parse_ident(t, j + 1) {
                Ok((name, k)) => if at(t, k, TokenV::Bang) {
                    match postfix_args(t, e, k + 1, eof) {
                        Ok((args, m)) => Ok((PExprV::MacroCall(name, args), m)),
                        Err(x) => Err(x),
                    }
                } else {
                    match postfix_args(t, e, k, eof) {
                        Ok((args, m)) => Ok((PExprV::FuncCall(name, args), m)),
                        Err(x) => Err(x),
                    }
                },
                Err(x) => Err(x),
            }
        };
        match next {
            Ok((inner, k)) => if j < k <= t.len() {
                lemma_postfix_rest_end(t, start, Spanned { inner, span: span_of(t, start, k, eof) }, k, eof);
            },
            Err(_) => {},
        }
    }
}

// ---------------------------------------------------------------------------
// The same tokens parse the same way
// ---------------------------------------------------------------------------

proof fn lemma_span_moves(
    t: Seq<Spanned<TokenV>>,
    u: Seq<Spanned<TokenV>>,
    lo: int,
    s: int,
    k: int,
    d: int,
    eof1: usize,
    eof2: usize,
)
    requires
        same_tokens(t, u, lo, k, d),
        lo <= s < k,
    ensures
        span_of(u, s + d, k + d, eof2) == span_of(t, s, k, eof1),
{
    assert(u[s + d] == t[s]);
    assert(u[(k - 1) + d] == t[k - 1]);
}

proof fn relocate_expr(
    t: Seq<Spanned<TokenV>>,
    u: Seq<Spanned<TokenV>>,
    i: int,
    eof1: usize,
    eof2: usize,
    lo: int,
    d: int,
    v: Spanned<PExprV>,
    k: int,
)
    requires
        parse_expr(t, i, eof1) == Ok::<(Spanned<PExprV>, int), int>((v, k)),
        same_tokens(t, u, lo, k, d),
        lo <= i,
        stops_expr(t, u, k, d),
    ensures
        parse_expr(u, i + d, eof2) == Ok::<(Spanned<PExprV>, int), int>((v, k + d)),
    decreases t.len() - i, 3int,
{
    relocate_binary(t, u, i, 1, eof1, eof2, lo, d, v, k);
}

proof fn relocate_binary(
    t: Seq<Spanned<TokenV>>,
    u: Seq<Spanned<TokenV>>,
    i: int,
    min: int,
    eof1: usize,
    eof2: usize,
    lo: int,
    d: int,
    v: Spanned<PExprV>,
    k: int,
)
    requires
        parse_binary(t, i, min, eof1) == Ok::<(Spanned<PExprV>, int), int>((v, k)),
        same_tokens(t, u, lo, k, d),
        lo <= i,
        stops_expr(t, u, k, d),
    ensures
        parse_binary(u, i + d, min, eof2) == Ok::<(Spanned<PExprV>, int), int>((v, k + d)),
    decreases t.len() - i, 2int,
{
    match parse_postfix(t, i, eof1) {
        Ok((lhs, j)) => {
            lemma_binary_rest_end(t, i, lhs, j, min, eof1);
            if j < k {
                assert(u[j + d] == t[j]);
            }
            relocate_postfix(t, u, i, eof1, eof2, lo, d, lhs, j);
            relocate_binary_rest(t, u, i, lhs, j, min, eof1, eof2, lo, d, v, k);
        },
        Err(_) => {},
    }
}

proof fn relocate_binary_rest(
    t: Seq<Spanned<TokenV>>,
    u: Seq<Spanned<TokenV>>,
    start: int,
    lhs: Spanned<PExprV>,
    j: int,
    min: int,
    eof1: usize,
    eof2: usize,
    lo: int,
    d: int,
    v: Spanned<PExprV>,
    k: int,
)
    requires
        binary_rest(t, start, lhs, j, min, eof1) == Ok::<(Spanned<PExprV>, int), int>((v, k)),
        same_tokens(t, u, lo, k, d),
        lo <= start < j,
        stops_expr(t, u, k, d),
    ensures
        binary_rest(u, start + d, lhs, j + d, min, eof2) == Ok::<(Spanned<PExprV>, int), int>((v, k + d)),
    decreases t.len() - j, 1int,
{
    lemma_binary_rest_end(t, start, lhs, j, min, eof1);
    if k > j {
        assert(u[j + d] == t[j]);
        let (op, prec) = infix_op(t[j].inner)->0;
        match parse_binary(t, j + 1, prec + 1, eof1) {
            Ok((rhs, k1)) => {
                let e = Spanned {
                    inner: PExprV::BinOp(op, Box::new(lhs), Box::new(rhs)),
                    span: span_of(t, start, k1, eof1),
                };
                lemma_binary_rest_end(t, start, e, k1, min, eof1);
                if k1 < k {
                    assert(u[k1 + d] == t[k1]);
                }
                relocate_binary(t, u, j + 1, prec + 1, eof1, eof2, lo, d, rhs, k1);
                lemma_span_moves(t, u, lo, start, k1, d, eof1, eof2);
                relocate_binary_rest(t, u, start, e, k1, min, eof1, eof2, lo, d, v, k);
            },
            Err(_) => {},
        }
    }
}

proof fn relocate_postfix(
    t: Seq<Spanned<TokenV>>,
    u: Seq<Spanned<TokenV>>,
    i: int,
    eof1: usize,
    eof2: usize,
    lo: int,
    d: int,
    v: Spanned<PExprV>,
    k: int,
)
    requires
        parse_postfix(t, i, eof1) == Ok::<(Spanned<PExprV>, int), int>((v, k)),
        same_tokens(t, u, lo, k, d),
        lo <= i,
        stops_expr(t, u, k, d),
    ensures
        parse_postfix(u, i + d, eof2) == Ok::<(Spanned<PExprV>, int), int>((v, k + d)),
    decreases t.len() - i, 1int,
{
    match parse_atom(t, i, eof1) {
        Ok((a, j)) => {
            lemma_postfix_rest_end(t, i, a, j, eof1);
            if j < k {
                assert(u[j + d] == t[j]);
            }
            relocate_atom(t, u, i, eof1, eof2, lo, d, a, j);
            relocate_postfix_rest(t, u, i, a, j, eof1, eof2, lo, d, v, k);
        },
        Err(_) => {},
    }
}

/// One postfix operation after the operand `e`, which ends before the dot
/// at `j`: the expression it makes and where it ends.
spec fn postfix_step(t: Seq<Spanned<TokenV>>, e: Spanned<PExprV>, j: int, eof: usize) -> Result<(PExprV, int), int> {
    if at(t, j + 1, TokenV::Match) {
        match parse_arms(t, j + 2, eof) {
            Ok((arms, k)) => Ok((PExprV::Match(Box::new(e), arms), k)),
            Err(x) => Err(x),
        }
    } else {
        match parse_ident(t, j + 1) {
            Ok((name, k)) => if at(t, k, TokenV::Bang) {
                match postfix_args(t, e, k + 1, eof) {
                    Ok((args, m)) => Ok((PExprV::MacroCall(name, args), m)),
                    Err(x) => Err(x),
                }
            } else {
                match postfix_args(t, e, k, eof) {
                    Ok((args, m)) => Ok((PExprV::FuncCall(name, args), m)),
                    Err(x) => Err(x),
                }
            },
            Err(x) => Err(x),
        }
    }
}

proof fn lemma_postfix_rest_unfold(t: Seq<Spanned<TokenV>>, start: int, e: Spanned<PExprV>, j: int, eof: usize)
    ensures
        postfix_rest(t, start, e, j, eof) == (if at(t, j, TokenV::Dot) && j + 1 < t.len() {
            match postfix_step(t, e, j, eof) {
                Ok((inner, k)) => if j < k <= t.len() {
                    postfix_rest(t, start, Spanned { inner, span: span_of(t, start, k, eof) }, k, eof)
                } else {
                    Err(k)
                },
                Err(x) => Err(x),
            }
        } else {
            Ok((e, j))
        }),
{
}

/// One postfix operation reads the same in `u` as in `t`.
#[verifier::spinoff_prover]
#[verifier::rlimit(40)]
proof fn relocate_postfix_step(
    t: Seq<Spanned<TokenV>>,
    u: Seq<Spanned<TokenV>>,
    e: Spanned<PExprV>,
    j: int,
    eof1: usize,
    eof2: usize,
    lo: int,
    d: int,
    inner: PExprV,
    k: int,
)
    requires
        postfix_step(t, e, j, eof1) == Ok::<(PExprV, int), int>((inner, k)),
        same_tokens(t, u, lo, k, d),
        lo <= j < k,
        stops_atom(t, u, k, d),
    ensures
        postfix_step(u, e, j + d, eof2) == Ok::<(PExprV, int), int>((inner, k + d)),
    decreases t.len() - j - 1, 8int,
{
    if at(t, j + 1, TokenV::Match) {
        lemma_arms_end(t, j + 2, eof1);
        assert(u[(j + 1) + d] == t[j + 1]);
        match parse_arms(t, j + 2, eof1) {
            Ok((arms, k1)) => relocate_arms(t, u, j + 2, eof1, eof2, lo, d, arms, k1),
            Err(_) => {},
        }
    } else {
        match parse_ident(t, j + 1) {
            Ok((name, k1)) => {
                if at(t, k1, TokenV::Bang) {
                    lemma_postfix_args_end(t, e, k1 + 1, eof1);
                    assert(u[(j + 1) + d] == t[j + 1]);
                    assert(u[k1 + d] == t[k1]);
                    match postfix_args(t, e, k1 + 1, eof1) {
                        Ok((args, m)) => relocate_postfix_args(t, u, e, k1 + 1, eof1, eof2, lo, d, args, m),
                        Err(_) => {},
                    }
                } else {
                    lemma_postfix_args_end(t, e, k1, eof1);
                    assert(u[(j + 1) + d] == t[j + 1]);
                    if k1 < k {
                        assert(u[k1 + d] == t[k1]);
                    }
                    match postfix_args(t, e, k1, eof1) {
                        Ok((args, m)) => relocate_postfix_args(t, u, e, k1, eof1, eof2, lo, d, args, m),
                        Err(_) => {},
                    }
                }
            },
            Err(_) => {},
        }
    }
}

/// The postfix operations of `t` from `j` to `k` are read the same way in
/// `u`, whatever follows them there (so long as it is no `!` and starts an
/// argument list exactly where `t` does).
proof fn relocate_postfix_rest(
    t: Seq<Spanned<TokenV>>,
    u: Seq<Spanned<TokenV>>,
    start: int,
    e: Spanned<PExprV>,
    j: int,
    eof1: usize,
    eof2: usize,
    lo: int,
    d: int,
    v: Spanned<PExprV>,
    k: int,
)
    requires
        postfix_rest(t, start, e, j, eof1) == Ok::<(Spanned<PExprV>, int), int>((v, k)),
        same_tokens(t, u, lo, k, d),
        lo <= start < j,
        stops_atom(t, u, k, d),
    ensures
        postfix_rest(u, start + d, e, j + d, eof2) == postfix_rest(u, start + d, v, k + d, eof2),
    decreases t.len() - j, 0int,
{
    lemma_postfix_rest_end(t, start, e, j, eof1);
    lemma_postfix_rest_unfold(t, start, e, j, eof1);
    lemma_postfix_rest_unfold(u, start + d, e, j + d, eof2);
    if k > j {
        assert(u[j + d] == t[j]);
        match postfix_step(t, e, j, eof1) {
            Ok((inner, k1)) => {
                let n = Spanned { inner, span: span_of(t, start, k1, eof1) };
                lemma_postfix_rest_end(t, start, n, k1, eof1);
                if k1 < k {
                    assert(u[k1 + d] == t[k1]);
                }
                relocate_postfix_step(t, u, e, j, eof1, eof2, lo, d, inner, k1);
                lemma_span_moves(t, u, lo, start, k1, d, eof1, eof2);
                relocate_postfix_rest(t, u, start, n, k1, eof1, eof2, lo, d, v, k);
            },
            Err(_) => {},
        }
    }
}

proof fn relocate_postfix_args(
    t: Seq<Spanned<TokenV>>,
    u: Seq<Spanned<TokenV>>,
    operand: Spanned<PExprV>,
    k0: int,
    eof1: usize,
    eof2: usize,
    lo: int,
    d: int,
    v: Seq<Spanned<PExprV>>,
    k: int,
)
    requires
        postfix_args(t, operand, k0, eof1) == Ok::<(Seq<Spanned<PExprV>>, int), int>((v, k)),
        same_tokens(t, u, lo, k, d),
        lo <= k0,
        stops_args(t, u, k, d),
    ensures
        postfix_args(u, operand, k0 + d, eof2) == Ok::<(Seq<Spanned<PExprV>>, int), int>((v, k + d)),
    decreases t.len() - k0, 7int,
{
    if at(t, k0, TokenV::OpenParen) {
        match parse_args(t, k0, eof1) {
            Ok((args, m)) => {
                lemma_args_end(t, k0, eof1);
                assert(u[k0 + d] == t[k0]);
                relocate_args(t, u, k0, eof1, eof2, lo, d, args, m);
            },
            Err(_) => {},
        }
    }
}

proof fn relocate_atom(
    t: Seq<Spanned<TokenV>>,
    u: Seq<Spanned<TokenV>>,
    i: int,
    eof1: usize,
    eof2: usize,
    lo: int,
    d: int,
    v: Spanned<PExprV>,
    k: int,
)
    requires
        parse_atom(t, i, eof1) == Ok::<(Spanned<PExprV>, int), int>((v, k)),
        same_tokens(t, u, lo, k, d),
        lo <= i,
        stops_atom(t, u, k, d),
    ensures
        parse_atom(u, i + d, eof2) == Ok::<(Spanned<PExprV>, int), int>((v, k + d)),
    decreases t.len() - i, 0int,
{
    match t[i].inner {
        TokenV::Int(_) => {
            assert(0 <= i < t.len());
            assert(k == i + 1);
            assert(u[i + d] == t[i]);
        },
        TokenV::String(_) => {
            assert(0 <= i < t.len());
            assert(k == i + 1);
            assert(u[i + d] == t[i]);
        },
        TokenV::OpenParen => {
            match parse_expr(t, i + 1, eof1) {
                Ok((e, j)) => {
                    lemma_expr_end(t, i + 1, eof1);
                    assert(u[i + d] == t[i]);
                    assert(u[j + d] == t[j]);
                    relocate_expr(t, u, i + 1, eof1, eof2, lo, d, e, j);
                },
                Err(_) => {},
            }
        },
        TokenV::Match => {
            match parse_expr(t, i + 2, eof1) {
                Ok((s, j)) => {
                    match parse_arms(t, j + 1, eof1) {
                        Ok((arms, k1)) => {
                            lemma_arms_end(t, j + 1, eof1);
                            assert(u[i + d] == t[i]);
                            assert(u[(i + 1) + d] == t[i + 1]);
                            assert(u[j + d] == t[j]);
                            relocate_expr(t, u, i + 2, eof1, eof2, lo, d, s, j);
                            relocate_arms(t, u, j + 1, eof1, eof2, lo, d, arms, k1);
                            lemma_span_moves(t, u, lo, i, k1, d, eof1, eof2);
                        },
                        Err(_) => {},
                    }
                },
                Err(_) => {},
            }
        },
        TokenV::Ident(name) => {
            if at(t, i + 1, TokenV::Bang) && at(t, i + 2, TokenV::OpenParen) {
                match parse_args(t, i + 2, eof1) {
                    Ok((args, k1)) => {
                        lemma_args_end(t, i + 2, eof1);
                        assert(u[i + d] == t[i]);
                        assert(u[(i + 1) + d] == t[i + 1]);
                        assert(u[(i + 2) + d] == t[i + 2]);
                        relocate_args(t, u, i + 2, eof1, eof2, lo, d, args, k1);
                        lemma_span_moves(t, u, lo, i, k1, d, eof1, eof2);
                    },
                    Err(_) => {},
                }
            } else if at(t, i + 1, TokenV::OpenParen) {
                match parse_args(t, i + 1, eof1) {
                    Ok((args, k1)) => {
                        lemma_args_end(t, i + 1, eof1);
                        assert(u[i + d] == t[i]);
                        assert(u[(i + 1) + d] == t[i + 1]);
                        relocate_args(t, u, i + 1, eof1, eof2, lo, d, args, k1);
                        lemma_span_moves(t, u, lo, i, k1, d, eof1, eof2);
                    },
                    Err(_) => {},
                }
            } else {
                assert(u[i + d] == t[i]);
            }
        },
        _ => {},
    }
}

proof fn relocate_args(
    t: Seq<Spanned<TokenV>>,
    u: Seq<Spanned<TokenV>>,
    i: int,
    eof1: usize,
    eof2: usize,
    lo: int,
    d: int,
    v: Seq<Spanned<PExprV>>,
    k: int,
)
    requires
        parse_args(t, i, eof1) == Ok::<(Seq<Spanned<PExprV>>, int), int>((v, k)),
        same_tokens(t, u, lo, k, d),
        lo <= i,
    ensures
        parse_args(u, i + d, eof2) == Ok::<(Seq<Spanned<PExprV>>, int), int>((v, k + d)),
    decreases t.len() - i, 6int,
{
    lemma_args_end(t, i, eof1);
    assert(u[i + d] == t[i]);
    relocate_args_items(t, u, i + 1, seq![], eof1, eof2, lo, d, v, k);
}

proof fn relocate_args_items(
    t: Seq<Spanned<TokenV>>,
    u: Seq<Spanned<TokenV>>,
    j: int,
    acc: Seq<Spanned<PExprV>>,
    eof1: usize,
    eof2: usize,
    lo: int,
    d: int,
    v: Seq<Spanned<PExprV>>,
    k: int,
)
    requires
        args_items(t, j, acc, eof1) == Ok::<(Seq<Spanned<PExprV>>, int), int>((v, k)),
        same_tokens(t, u, lo, k, d),
        lo <= j,
    ensures
        args_items(u, j + d, acc, eof2) == Ok::<(Seq<Spanned<PExprV>>, int), int>((v, k + d)),
    decreases t.len() - j, 5int,
{
    lemma_args_items_end(t, j, acc, eof1);
    assert(u[j + d] == t[j]);
    if !at(t, j, TokenV::CloseParen) {
        match parse_expr(t, j, eof1) {
            Ok((e, k1)) => {
                if at(t, k1, TokenV::Comma) {
                    lemma_args_items_end(t, k1 + 1, acc.push(e), eof1);
                    assert(u[k1 + d] == t[k1]);
                    relocate_expr(t, u, j, eof1, eof2, lo, d, e, k1);
                    relocate_args_items(t, u, k1 + 1, acc.push(e), eof1, eof2, lo, d, v, k);
                } else {
                    assert(u[k1 + d] == t[k1]);
                    relocate_expr(t, u, j, eof1, eof2, lo, d, e, k1);
                }
            },
            Err(_) => {},
        }
    }
}

proof fn relocate_arms(
    t: Seq<Spanned<TokenV>>,
    u: Seq<Spanned<TokenV>>,
    i: int,
    eof1: usize,
    eof2: usize,
    lo: int,
    d: int,
    v: Seq<(Spanned<crate::spring::parse_tree::data::Pattern>, Spanned<PExprV>)>,
    k: int,
)
    requires
        parse_arms(t, i, eof1) == Ok::<(Seq<(Spanned<crate::spring::parse_tree::data::Pattern>, Spanned<PExprV>)>, int), int>((v, k)),
        same_tokens(t, u, lo, k, d),
        lo <= i,
    ensures
        parse_arms(u, i + d, eof2) == Ok::<(Seq<(Spanned<crate::spring::parse_tree::data::Pattern>, Spanned<PExprV>)>, int), int>((v, k + d)),
    decreases t.len() - i, 6int,
{
    lemma_arms_end(t, i, eof1);
    assert(u[i + d] == t[i]);
    relocate_arms_items(t, u, i + 1, seq![], eof1, eof2, lo, d, v, k);
}

proof fn relocate_arms_items(
    t: Seq<Spanned<TokenV>>,
    u: Seq<Spanned<TokenV>>,
    j: int,
    acc: Seq<(Spanned<crate::spring::parse_tree::data::Pattern>, Spanned<PExprV>)>,
    eof1: usize,
    eof2: usize,
    lo: int,
    d: int,
    v: Seq<(Spanned<crate::spring::parse_tree::data::Pattern>, Spanned<PExprV>)>,
    k: int,
)
    requires
        arms_items(t, j, acc, eof1) == Ok::<(Seq<(Spanned<crate::spring::parse_tree::data::Pattern>, Spanned<PExprV>)>, int), int>((v, k)),
        same_tokens(t, u, lo, k, d),
        lo <= j,
    ensures
        arms_items(u, j + d, acc, eof2) == Ok::<(Seq<(Spanned<crate::spring::parse_tree::data::Pattern>, Spanned<PExprV>)>, int), int>((v, k + d)),
    decreases t.len() - j, 5int,
{
    lemma_arms_items_end(t, j, acc, eof1);
    assert(u[j + d] == t[j]);
    if !at(t, j, TokenV::CloseBrace) {
        match parse_pattern(t, j) {
            Ok((p, j1)) => {
                match parse_expr(t, j1 + 1, eof1) {
                    Ok((e, k1)) => {
                        lemma_expr_end(t, j1 + 1, eof1);
                        lemma_arms_items_end(t, k1 + 1, acc.push((p, e)), eof1);
                        assert(u[j1 + d] == t[j1]);
                        assert(u[k1 + d] == t[k1]);
                        relocate_expr(t, u, j1 + 1, eof1, eof2, lo, d, e, k1);
                        if at(t, k1, TokenV::Comma) {
                            relocate_arms_items(t, u, k1 + 1, acc.push((p, e)), eof1, eof2, lo, d, v, k);
                        }
                    },
                    Err(_) => {},
                }
            },
            Err(_) => {},
        }
    }
}

// ---------------------------------------------------------------------------
// The receiver of a postfix operation
// ---------------------------------------------------------------------------

/// Arguments read after some already read ones are those read alone, after
/// them.
proof fn lemma_args_acc(t: Seq<Spanned<TokenV>>, j: int, acc: Seq<Spanned<PExprV>>, eof: usize)
    ensures
        args_items(t, j, acc, eof) == (match args_items(t, j, Seq::<Spanned<PExprV>>::empty(), eof) {
            Ok((w, k)) => Ok::<(Seq<Spanned<PExprV>>, int), int>((acc + w, k)),
            Err(x) => Err(x),
        }),
    decreases t.len() - j,
{
    let none = Seq::<Spanned<PExprV>>::empty();
    if at(t, j, TokenV::CloseParen) {
        assert(acc + none =~= acc);
    } else if 0 <= j < t.len() {
        match parse_expr(t, j, eof) {
            Ok((e, k)) => if j < k < t.len() {
                assert(none.push(e) =~= seq![e]);
                if at(t, k, TokenV::Comma) {
                    lemma_args_acc(t, k + 1, acc.push(e), eof);
                    lemma_args_acc(t, k + 1, seq![e], eof);
                    match args_items(t, k + 1, none, eof) {
                        Ok((w, m)) => {
                            assert(acc.push(e) + w =~= acc + (seq![e] + w));
                        },
                        Err(_) => {},
                    }
                } else if at(t, k, TokenV::CloseParen) {
                    assert(acc.push(e) =~= acc + seq![e]);
                }
            },
            Err(_) => {},
        }
    }
}

/// A receiver `a`, an expression without infix operators, followed by a
/// dot in `u`: the postfix expression at the start of `u` reads `a` as it
/// reads alone and goes on after the dot.
proof fn lemma_receiver_before_dot(
    a: Seq<Spanned<TokenV>>,
    u: Seq<Spanned<TokenV>>,
    eof: usize,
    eof2: usize,
    ea: Spanned<PExprV>,
)
    requires
        parse_postfix(a, 0, eof) == Ok::<(Spanned<PExprV>, int), int>((ea, a.len() as int)),
        a.len() < u.len(),
        u[a.len() as int].inner == TokenV::Dot,
        forall|j: int| 0 <= j < a.len() ==> u[j] == #[trigger] a[j],
    ensures
        a.len() > 0,
        parse_postfix(u, 0, eof2) == postfix_rest(u, 0, ea, a.len() as int, eof2),
{
    let n = a.len() as int;
    assert(same_tokens(a, u, 0, n, 0)) by {
        assert forall|j: int| 0 <= j < n implies u[j + 0] == #[trigger] a[j] by {}
    }
    match parse_atom(a, 0, eof) {
        Ok((at0, j0)) => {
            lemma_postfix_rest_end(a, 0, at0, j0, eof);
            if j0 < n {
                assert(u[j0] == a[j0]);
            }
            relocate_atom(a, u, 0, eof, eof2, 0, 0, at0, j0);
            relocate_postfix_rest(a, u, 0, at0, j0, eof, eof2, 0, 0, ea, n);
        },
        Err(_) => {},
    }
}

/// A receiver `a`, an expression without infix operators, standing in `u`
/// at `d` and followed there by a comma or a closing parenthesis: the
/// expression at `d` is the receiver, read as it reads alone.
proof fn lemma_receiver_inside(
    a: Seq<Spanned<TokenV>>,
    u: Seq<Spanned<TokenV>>,
    d: int,
    eof: usize,
    eof2: usize,
    ea: Spanned<PExprV>,
)
    requires
        parse_postfix(a, 0, eof) == Ok::<(Spanned<PExprV>, int), int>((ea, a.len() as int)),
        0 <= d,
        a.len() + d < u.len(),
        u[a.len() + d].inner == TokenV::Comma || u[a.len() + d].inner == TokenV::CloseParen,
        forall|j: int| 0 <= j < a.len() ==> u[j + d] == #[trigger] a[j],
    ensures
        a.len() > 0,
        !at(u, d, TokenV::CloseParen),
        parse_expr(u, d, eof2) == Ok::<(Spanned<PExprV>, int), int>((ea, a.len() + d)),
{
    let n = a.len() as int;
    assert(parse_expr(a, 0, eof) == Ok::<(Spanned<PExprV>, int), int>((ea, n)));
    assert(u[0 + d] == a[0]);
    relocate_expr(a, u, 0, eof, eof2, 0, d, ea, n);
}

// ---------------------------------------------------------------------------
// The laws
// ---------------------------------------------------------------------------

/// A call written after its receiver, `A.m!(B1, .., Bn)`, parses as the call
/// `m!(A, B1, .., Bn)`: the receiver becomes the first argument and the
/// others keep their order.
///
/// `a` holds the tokens of `A`, an expression without infix operators (an
/// atom and its postfix operations), and `rest` those of `B1, .., Bn)`;
/// `name`, `bang`, `open`, `comma` and `dot` are tokens of the name, `!`,
/// `(`, `,` and `.`. Both spellings parse, as whole expressions, to the same
/// call, with the same spans inside; they differ only in the span of the
/// whole.
pub proof fn law_postfix_call_spelling(
    a: Seq<Spanned<TokenV>>,
    rest: Seq<Spanned<TokenV>>,
    dot: Spanned<TokenV>,
    name: Spanned<TokenV>,
    bang: Spanned<TokenV>,
    open: Spanned<TokenV>,
    comma: Spanned<TokenV>,
    eof: usize,
    eof1: usize,
    eof2: usize,
)
    requires
        dot.inner == TokenV::Dot,
        name.inner is Ident,
        bang.inner == TokenV::Bang,
        open.inner == TokenV::OpenParen,
        comma.inner == TokenV::Comma,
        parse_postfix(a, 0, eof) is Ok,
        (parse_postfix(a, 0, eof)->Ok_0).1 == a.len(),
        args_items(rest, 0, seq![], eof) is Ok,
        (args_items(rest, 0, seq![], eof)->Ok_0).1 == rest.len(),
    ensures
        ({
            let receiver = (parse_postfix(a, 0, eof)->Ok_0).0;
            let others = (args_items(rest, 0, seq![], eof)->Ok_0).0;
            let call = PExprV::MacroCall(
                Spanned { inner: name.inner->Ident_0, span: name.span },
                seq![receiver] + others,
            );
            let after = a + seq![dot, name, bang, open] + rest;
            let inside = seq![name, bang, open] + a + seq![comma] + rest;
            &&& parse_expr(after, 0, eof1) is Ok
            &&& (parse_expr(after, 0, eof1)->Ok_0).1 == after.len()
            &&& (parse_expr(after, 0, eof1)->Ok_0).0.inner == call
            &&& parse_expr(inside, 0, eof2) is Ok
            &&& (parse_expr(inside, 0, eof2)->Ok_0).1 == inside.len()
            &&& (parse_expr(inside, 0, eof2)->Ok_0).0.inner == call
        }),
{
    let none = Seq::<Spanned<PExprV>>::empty();
    let ea = (parse_postfix(a, 0, eof)->Ok_0).0;
    let others = (args_items(rest, 0, none, eof)->Ok_0).0;
    call_after_receiver(a, rest, dot, name, bang, open, eof, eof1, ea, others);
    call_around_receiver(a, rest, name, bang, open, comma, eof, eof2, ea, others);
}

#[verifier::spinoff_prover]
#[verifier::rlimit(50)]
proof fn call_after_receiver(
    a: Seq<Spanned<TokenV>>,
    rest: Seq<Spanned<TokenV>>,
    dot: Spanned<TokenV>,
    name: Spanned<TokenV>,
    bang: Spanned<TokenV>,
    open: Spanned<TokenV>,
    eof: usize,
    eof1: usize,
    ea: Spanned<PExprV>,
    others: Seq<Spanned<PExprV>>,
)
    requires
        dot.inner == TokenV::Dot,
        name.inner is Ident,
        bang.inner == TokenV::Bang,
        open.inner == TokenV::OpenParen,
        parse_postfix(a, 0, eof) == Ok::<(Spanned<PExprV>, int), int>((ea, a.len() as int)),
        args_items(rest, 0, seq![], eof) == Ok::<(Seq<Spanned<PExprV>>, int), int>((others, rest.len() as int)),
    ensures
        ({
            let t = a + seq![dot, name, bang, open] + rest;
            let call = PExprV::MacroCall(Spanned { inner: name.inner->Ident_0, span: name.span }, seq![ea] + others);
            parse_expr(t, 0, eof1) == Ok::<(Spanned<PExprV>, int), int>((Spanned { inner: call, span: span_of(t, 0, t.len() as int, eof1) }, t.len() as int))
        }),
{
    let none = Seq::<Spanned<PExprV>>::empty();
    let n = a.len() as int;
    let r = rest.len() as int;
    let id = Spanned { inner: name.inner->Ident_0, span: name.span };
    let call = PExprV::MacroCall(id, seq![ea] + others);
    let t1 = a + seq![dot, name, bang, open] + rest;
    let len1 = t1.len() as int;
    assert(t1[n] == dot && t1[n + 1] == name && t1[n + 2] == bang && t1[n + 3] == open);
    assert forall|j: int| 0 <= j < n implies t1[j] == #[trigger] a[j] by {}
    assert(same_tokens(rest, t1, 0, r, n + 4)) by {
        assert forall|j: int| 0 <= j < r implies t1[j + (n + 4)] == #[trigger] rest[j] by {}
    }
    lemma_receiver_before_dot(a, t1, eof, eof1, ea);
    relocate_args_items(rest, t1, 0, none, eof, eof1, 0, n + 4, others, r);
    assert(parse_args(t1, n + 3, eof1) == Ok::<(Seq<Spanned<PExprV>>, int), int>((others, len1)));
    assert(parse_ident(t1, n + 1) == Ok::<(Spanned<Seq<char>>, int), int>((id, n + 2)));
    assert(postfix_args(t1, ea, n + 3, eof1) == Ok::<(Seq<Spanned<PExprV>>, int), int>((seq![ea] + others, len1)));
    assert(postfix_step(t1, ea, n, eof1) == Ok::<(PExprV, int), int>((call, len1)));
    lemma_postfix_rest_unfold(t1, 0, ea, n, eof1);
    let x1 = Spanned { inner: call, span: span_of(t1, 0, len1, eof1) };
    lemma_postfix_rest_unfold(t1, 0, x1, len1, eof1);
    assert(parse_postfix(t1, 0, eof1) == Ok::<(Spanned<PExprV>, int), int>((x1, len1)));
    assert(parse_expr(t1, 0, eof1) == Ok::<(Spanned<PExprV>, int), int>((x1, len1)));
}

#[verifier::spinoff_prover]
#[verifier::rlimit(50)]
proof fn call_around_receiver(
    a: Seq<Spanned<TokenV>>,
    rest: Seq<Spanned<TokenV>>,
    name: Spanned<TokenV>,
    bang: Spanned<TokenV>,
    open: Spanned<TokenV>,
    comma: Spanned<TokenV>,
    eof: usize,
    eof2: usize,
    ea: Spanned<PExprV>,
    others: Seq<Spanned<PExprV>>,
)
    requires
        name.inner is Ident,
        bang.inner == TokenV::Bang,
        open.inner == TokenV::OpenParen,
        comma.inner == TokenV::Comma,
        parse_postfix(a, 0, eof) == Ok::<(Spanned<PExprV>, int), int>((ea, a.len() as int)),
        args_items(rest, 0, seq![], eof) == Ok::<(Seq<Spanned<PExprV>>, int), int>((others, rest.len() as int)),
    ensures
        ({
            let t = seq![name, bang, open] + a + seq![comma] + rest;
            let call = PExprV::MacroCall(Spanned { inner: name.inner->Ident_0, span: name.span }, seq![ea] + others);
            parse_expr(t, 0, eof2) == Ok::<(Spanned<PExprV>, int), int>((Spanned { inner: call, span: span_of(t, 0, t.len() as int, eof2) }, t.len() as int))
        }),
{
    let none = Seq::<Spanned<PExprV>>::empty();
    let n = a.len() as int;
    let r = rest.len() as int;
    let id = Spanned { inner: name.inner->Ident_0, span: name.span };
    let call = PExprV::MacroCall(id, seq![ea] + others);
    let t2 = seq![name, bang, open] + a + seq![comma] + rest;
    let len2 = t2.len() as int;
    assert(t2[0] == name && t2[1] == bang && t2[2] == open && t2[n + 3] == comma);
    assert forall|j: int| 0 <= j < n implies t2[j + 3] == #[trigger] a[j] by {}
    assert(same_tokens(rest, t2, 0, r, n + 4)) by {
        assert forall|j: int| 0 <= j < r implies t2[j + (n + 4)] == #[trigger] rest[j] by {}
    }
    lemma_receiver_inside(a, t2, 3, eof, eof2, ea);
    relocate_args_items(rest, t2, 0, none, eof, eof2, 0, n + 4, others, r);
    lemma_args_acc(t2, n + 4, none.push(ea), eof2);
    assert(none.push(ea) + others =~= seq![ea] + others);
    assert(args_items(t2, 3, none, eof2) == Ok::<(Seq<Spanned<PExprV>>, int), int>((seq![ea] + others, len2)));
    let x2 = Spanned { inner: call, span: span_of(t2, 0, len2, eof2) };
    assert(parse_atom(t2, 0, eof2) == Ok::<(Spanned<PExprV>, int), int>((x2, len2)));
    lemma_postfix_rest_unfold(t2, 0, x2, len2, eof2);
    assert(parse_postfix(t2, 0, eof2) == Ok::<(Spanned<PExprV>, int), int>((x2, len2)));
    assert(parse_expr(t2, 0, eof2) == Ok::<(Spanned<PExprV>, int), int>((x2, len2)));
}

/// A call written after its receiver with no argument list, `A.m!`, parses
/// as the call `m!(A)`, whose one argument is the receiver.
///
/// `a` holds the tokens of `A`, an expression without infix operators;
/// `name`, `bang`, `open`, `close` and `dot` are tokens of the name, `!`,
/// `(`, `)` and `.`. Both spellings parse, as whole expressions, to the same
/// call, with the same spans inside.
pub proof fn law_bare_postfix_call_spelling(
    a: Seq<Spanned<TokenV>>,
    dot: Spanned<TokenV>,
    name: Spanned<TokenV>,
    bang: Spanned<TokenV>,
    open: Spanned<TokenV>,
    close: Spanned<TokenV>,
    eof: usize,
    eof1: usize,
    eof2: usize,
)
    requires
        dot.inner == TokenV::Dot,
        name.inner is Ident,
        bang.inner == TokenV::Bang,
        open.inner == TokenV::OpenParen,
        close.inner == TokenV::CloseParen,
        parse_postfix(a, 0, eof) is Ok,
        (parse_postfix(a, 0, eof)->Ok_0).1 == a.len(),
    ensures
        ({
            let receiver = (parse_postfix(a, 0, eof)->Ok_0).0;
            let call = PExprV::MacroCall(Spanned { inner: name.inner->Ident_0, span: name.span }, seq![receiver]);
            let after = a + seq![dot, name, bang];
            let inside = seq![name, bang, open] + a + seq![close];
            &&& parse_expr(after, 0, eof1) is Ok
            &&& (parse_expr(after, 0, eof1)->Ok_0).1 == after.len()
            &&& (parse_expr(after, 0, eof1)->Ok_0).0.inner == call
            &&& parse_expr(inside, 0, eof2) is Ok
            &&& (parse_expr(inside, 0, eof2)->Ok_0).1 == inside.len()
            &&& (parse_expr(inside, 0, eof2)->Ok_0).0.inner == call
        }),
{
    let ea = (parse_postfix(a, 0, eof)->Ok_0).0;
    bare_call_after_receiver(a, dot, name, bang, eof, eof1, ea);
    bare_call_around_receiver(a, name, bang, open, close, eof, eof2, ea);
}

#[verifier::spinoff_prover]
#[verifier::rlimit(50)]
proof fn bare_call_after_receiver(
    a: Seq<Spanned<TokenV>>,
    dot: Spanned<TokenV>,
    name: Spanned<TokenV>,
    bang: Spanned<TokenV>,
    eof: usize,
    eof1: usize,
    ea: Spanned<PExprV>,
)
    requires
        dot.inner == TokenV::Dot,
        name.inner is Ident,
        bang.inner == TokenV::Bang,
        parse_postfix(a, 0, eof) == Ok::<(Spanned<PExprV>, int), int>((ea, a.len() as int)),
    ensures
        ({
            let t = a + seq![dot, name, bang];
            let call = PExprV::MacroCall(Spanned { inner: name.inner->Ident_0, span: name.span }, seq![ea]);
            parse_expr(t, 0, eof1) == Ok::<(Spanned<PExprV>, int), int>((Spanned { inner: call, span: span_of(t, 0, t.len() as int, eof1) }, t.len() as int))
        }),
{
    let n = a.len() as int;
    let id = Spanned { inner: name.inner->Ident_0, span: name.span };
    let call = PExprV::MacroCall(id, seq![ea]);
    let t1 = a + seq![dot, name, bang];
    let len1 = t1.len() as int;
    assert(t1[n] == dot && t1[n + 1] == name && t1[n + 2] == bang && len1 == n + 3);
    assert forall|j: int| 0 <= j < n implies t1[j] == #[trigger] a[j] by {}
    lemma_receiver_before_dot(a, t1, eof, eof1, ea);
    assert(parse_ident(t1, n + 1) == Ok::<(Spanned<Seq<char>>, int), int>((id, n + 2)));
    assert(postfix_args(t1, ea, n + 3, eof1) == Ok::<(Seq<Spanned<PExprV>>, int), int>((seq![ea], len1)));
    assert(postfix_step(t1, ea, n, eof1) == Ok::<(PExprV, int), int>((call, len1)));
    lemma_postfix_rest_unfold(t1, 0, ea, n, eof1);
    let x1 = Spanned { inner: call, span: span_of(t1, 0, len1, eof1) };
    lemma_postfix_rest_unfold(t1, 0, x1, len1, eof1);
    assert(parse_postfix(t1, 0, eof1) == Ok::<(Spanned<PExprV>, int), int>((x1, len1)));
    assert(parse_expr(t1, 0, eof1) == Ok::<(Spanned<PExprV>, int), int>((x1, len1)));
}

#[verifier::spinoff_prover]
#[verifier::rlimit(50)]
proof fn bare_call_around_receiver(
    a: Seq<Spanned<TokenV>>,
    name: Spanned<TokenV>,
    bang: Spanned<TokenV>,
    open: Spanned<TokenV>,
    close: Spanned<TokenV>,
    eof: usize,
    eof2: usize,
    ea: Spanned<PExprV>,
)
    requires
        name.inner is Ident,
        bang.inner == TokenV::Bang,
        open.inner == TokenV::OpenParen,
        close.inner == TokenV::CloseParen,
        parse_postfix(a, 0, eof) == Ok::<(Spanned<PExprV>, int), int>((ea, a.len() as int)),
    ensures
        ({
            let t = seq![name, bang, open] + a + seq![close];
            let call = PExprV::MacroCall(Spanned { inner: name.inner->Ident_0, span: name.span }, seq![ea]);
            parse_expr(t, 0, eof2) == Ok::<(Spanned<PExprV>, int), int>((Spanned { inner: call, span: span_of(t, 0, t.len() as int, eof2) }, t.len() as int))
        }),
{
    let none = Seq::<Spanned<PExprV>>::empty();
    let n = a.len() as int;
    let id = Spanned { inner: name.inner->Ident_0, span: name.span };
    let call = PExprV::MacroCall(id, seq![ea]);
    let t2 = seq![name, bang, open] + a + seq![close];
    let len2 = t2.len() as int;
    assert(t2[0] == name && t2[1] == bang && t2[2] == open && t2[n + 3] == close && len2 == n + 4);
    assert forall|j: int| 0 <= j < n implies t2[j + 3] == #[trigger] a[j] by {}
    lemma_receiver_inside(a, t2, 3, eof, eof2, ea);
    assert(none.push(ea) =~= seq![ea]);
    assert(args_items(t2, 3, none, eof2) == Ok::<(Seq<Spanned<PExprV>>, int), int>((seq![ea], len2)));
    let x2 = Spanned { inner: call, span: span_of(t2, 0, len2, eof2) };
    assert(parse_atom(t2, 0, eof2) == Ok::<(Spanned<PExprV>, int), int>((x2, len2)));
    lemma_postfix_rest_unfold(t2, 0, x2, len2, eof2);
    assert(parse_postfix(t2, 0, eof2) == Ok::<(Spanned<PExprV>, int), int>((x2, len2)));
    assert(parse_expr(t2, 0, eof2) == Ok::<(Spanned<PExprV>, int), int>((x2, len2)));
}

/// A `match` written after its scrutinee, `A.match { ARMS }`, parses as
/// `match(A) { ARMS }`: a match on `A` over the same arms in the same order.
///
/// `a` holds the tokens of `A`, an expression without infix operators (an
/// atom and its postfix operations), and `arms` those of `{ ARMS }`; `mat`,
/// `open`, `close` and `dot` are tokens of `match`, `(`, `)` and `.`. Both
/// spellings parse, as whole expressions, to the same match, with the same
/// spans inside; they differ only in the span of the whole.
pub proof fn law_postfix_match_spelling(
    a: Seq<Spanned<TokenV>>,
    arms: Seq<Spanned<TokenV>>,
    dot: Spanned<TokenV>,
    mat: Spanned<TokenV>,
    open: Spanned<TokenV>,
    close: Spanned<TokenV>,
    eof: usize,
    eof1: usize,
    eof2: usize,
)
    requires
        dot.inner == TokenV::Dot,
        mat.inner == TokenV::Match,
        open.inner == TokenV::OpenParen,
        close.inner == TokenV::CloseParen,
        parse_postfix(a, 0, eof) is Ok,
        (parse_postfix(a, 0, eof)->Ok_0).1 == a.len(),
        parse_arms(arms, 0, eof) is Ok,
        (parse_arms(arms, 0, eof)->Ok_0).1 == arms.len(),
    ensures
        ({
            let scrutinee = (parse_postfix(a, 0, eof)->Ok_0).0;
            let m = PExprV::Match(Box::new(scrutinee), (parse_arms(arms, 0, eof)->Ok_0).0);
            let after = a + seq![dot, mat] + arms;
            let inside = seq![mat, open] + a + seq![close] + arms;
            &&& parse_expr(after, 0, eof1) is Ok
            &&& (parse_expr(after, 0, eof1)->Ok_0).1 == after.len()
            &&& (parse_expr(after, 0, eof1)->Ok_0).0.inner == m
            &&& parse_expr(inside, 0, eof2) is Ok
            &&& (parse_expr(inside, 0, eof2)->Ok_0).1 == inside.len()
            &&& (parse_expr(inside, 0, eof2)->Ok_0).0.inner == m
        }),
{
    let ea = (parse_postfix(a, 0, eof)->Ok_0).0;
    let av = (parse_arms(arms, 0, eof)->Ok_0).0;
    match_after_scrutinee(a, arms, dot, mat, eof, eof1, ea, av);
    match_around_scrutinee(a, arms, mat, open, close, eof, eof2, ea, av);
}

#[verifier::spinoff_prover]
#[verifier::rlimit(50)]
proof fn match_after_scrutinee(
    a: Seq<Spanned<TokenV>>,
    arms: Seq<Spanned<TokenV>>,
    dot: Spanned<TokenV>,
    mat: Spanned<TokenV>,
    eof: usize,
    eof1: usize,
    ea: Spanned<PExprV>,
    av: Seq<(Spanned<crate::spring::parse_tree::data::Pattern>, Spanned<PExprV>)>,
)
    requires
        dot.inner == TokenV::Dot,
        mat.inner == TokenV::Match,
        parse_postfix(a, 0, eof) == Ok::<(Spanned<PExprV>, int), int>((ea, a.len() as int)),
        parse_arms(arms, 0, eof) == Ok::<(Seq<(Spanned<crate::spring::parse_tree::data::Pattern>, Spanned<PExprV>)>, int), int>((av, arms.len() as int)),
    ensures
        ({
            let t = a + seq![dot, mat] + arms;
            let m = PExprV::Match(Box::new(ea), av);
            parse_expr(t, 0, eof1) == Ok::<(Spanned<PExprV>, int), int>((Spanned { inner: m, span: span_of(t, 0, t.len() as int, eof1) }, t.len() as int))
        }),
{
    let n = a.len() as int;
    let r = arms.len() as int;
    let m = PExprV::Match(Box::new(ea), av);
    let t1 = a + seq![dot, mat] + arms;
    let len1 = t1.len() as int;
    lemma_arms_end(arms, 0, eof);
    assert(t1[n] == dot && t1[n + 1] == mat && len1 == n + 2 + r);
    assert forall|j: int| 0 <= j < n implies t1[j] == #[trigger] a[j] by {}
    assert(same_tokens(arms, t1, 0, r, n + 2)) by {
        assert forall|j: int| 0 <= j < r implies t1[j + (n + 2)] == #[trigger] arms[j] by {}
    }
    lemma_receiver_before_dot(a, t1, eof, eof1, ea);
    relocate_arms(arms, t1, 0, eof, eof1, 0, n + 2, av, r);
    assert(postfix_step(t1, ea, n, eof1) == Ok::<(PExprV, int), int>((m, len1)));
    lemma_postfix_rest_unfold(t1, 0, ea, n, eof1);
    let x1 = Spanned { inner: m, span: span_of(t1, 0, len1, eof1) };
    lemma_postfix_rest_unfold(t1, 0, x1, len1, eof1);
    assert(parse_postfix(t1, 0, eof1) == Ok::<(Spanned<PExprV>, int), int>((x1, len1)));
    assert(parse_expr(t1, 0, eof1) == Ok::<(Spanned<PExprV>, int), int>((x1, len1)));
}

#[verifier::spinoff_prover]
#[verifier::rlimit(50)]
proof fn match_around_scrutinee(
    a: Seq<Spanned<TokenV>>,
    arms: Seq<Spanned<TokenV>>,
    mat: Spanned<TokenV>,
    open: Spanned<TokenV>,
    close: Spanned<TokenV>,
    eof: usize,
    eof2: usize,
    ea: Spanned<PExprV>,
    av: Seq<(Spanned<crate::spring::parse_tree::data::Pattern>, Spanned<PExprV>)>,
)
    requires
        mat.inner == TokenV::Match,
        open.inner == TokenV::OpenParen,
        close.inner == TokenV::CloseParen,
        parse_postfix(a, 0, eof) == Ok::<(Spanned<PExprV>, int), int>((ea, a.len() as int)),
        parse_arms(arms, 0, eof) == Ok::<(Seq<(Spanned<crate::spring::parse_tree::data::Pattern>, Spanned<PExprV>)>, int), int>((av, arms.len() as int)),
    ensures
        ({
            let t = seq![mat, open] + a + seq![close] + arms;
            let m = PExprV::Match(Box::new(ea), av);
            parse_expr(t, 0, eof2) == Ok::<(Spanned<PExprV>, int), int>((Spanned { inner: m, span: span_of(t, 0, t.len() as int, eof2) }, t.len() as int))
        }),
{
    let n = a.len() as int;
    let r = arms.len() as int;
    let m = PExprV::Match(Box::new(ea), av);
    let t2 = seq![mat, open] + a + seq![close] + arms;
    let len2 = t2.len() as int;
    lemma_arms_end(arms, 0, eof);
    assert(t2[0] == mat && t2[1] == open && t2[n + 2] == close && len2 == n + 3 + r);
    assert forall|j: int| 0 <= j < n implies t2[j + 2] == #[trigger] a[j] by {}
    assert(same_tokens(arms, t2, 0, r, n + 3)) by {
        assert forall|j: int| 0 <= j < r implies t2[j + (n + 3)] == #[trigger] arms[j] by {}
    }
    lemma_receiver_inside(a, t2, 2, eof, eof2, ea);
    relocate_arms(arms, t2, 0, eof, eof2, 0, n + 3, av, r);
    let x2 = Spanned { inner: m, span: span_of(t2, 0, len2, eof2) };
    assert(parse_atom(t2, 0, eof2) == Ok::<(Spanned<PExprV>, int), int>((x2, len2)));
    lemma_postfix_rest_unfold(t2, 0, x2, len2, eof2);
    assert(parse_postfix(t2, 0, eof2) == Ok::<(Spanned<PExprV>, int), int>((x2, len2)));
    assert(parse_expr(t2, 0, eof2) == Ok::<(Spanned<PExprV>, int), int>((x2, len2)));
}

} // verus!
