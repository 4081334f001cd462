//! The grammar of the language, as the parse of a token sequence.
//!
//! ```text
//! module   := func*
//! func     := "func" ident "(" (arg ("," arg)* ","?)? ")" ("->" type)? block
//! arg      := ident ":" type
//! type     := "unit" | "int" | "float" | "string"
//! block    := "{" (expr ";")* expr? "}"
//! expr     := binary expressions over postfix expressions: "*" and "/"
//!             bind tighter than "+" and "-", and all associate to the left
//! postfix  := atom ("." "match" arms | "." ident "!" args? | "." ident args?)*
//! atom     := int | string | "(" expr ")" | "match" "(" expr ")" arms
//!           | ident "!" args | ident args | ident
//! args     := "(" (expr ("," expr)* ","?)? ")"
//! arms     := "{" (pattern "->" expr ("," pattern "->" expr)* ","?)? "}"
//! pattern  := int | "_"
//! ```
//!
//! A postfix call takes the expression before the dot as its first
//! argument. Each parse function takes the token sequence and an index and
//! gives the parsed value with the index after it, or the index of the token
//! where the input stops fitting the grammar.

use crate::compiler::decimal_value;
use crate::spring::parse_tree::data::{BinOp, Pattern, Type};
use crate::spring::parse_tree::lexer::is_digit;
use crate::spring::parse_tree::token::TokenV;
use crate::spring::parse_tree::view::{PArgV, PBlockV, PExprV, PFuncV};
use crate::spring::span::{Span, Spanned};
use vstd::prelude::*;

verus! {

pub type Parsed<T> = Result<(T, int), int>;

/// Whether token `i` of `t` is `k`.
pub open spec fn at(t: Seq<Spanned<TokenV>>, i: int, k: TokenV) -> bool {
    0 <= i < t.len() && t[i].inner == k
}

/// The span of tokens `i..j`; where that is empty, the empty span at the
/// start of token `i`, or at `eof` after the last token.
pub open spec fn span_of(t: Seq<Spanned<TokenV>>, i: int, j: int, eof: usize) -> Span {
    if 0 <= i < j <= t.len() {
        Span { start: t[i].span.start, end: t[j - 1].span.end }
    } else {
        let p = if 0 <= i < t.len() {
            t[i].span.start
        } else {
            eof
        };
        Span { start: p, end: p }
    }
}

/// The value of an integer literal: a non-empty run of decimal digits
/// whose value fits in a `u64`.
pub open spec fn int_literal(digits: Seq<char>) -> Option<u64> {
    if digits.len() > 0 && (forall|k: int| 0 <= k < digits.len() ==> is_digit(#[trigger] digits[k]))
        && decimal_value(digits) <= u64::MAX {
        Some(decimal_value(digits) as u64)
    } else {
        None
    }
}

/// The operator of an infix token and how tightly it binds.
pub open spec fn infix_op(k: TokenV) -> Option<(BinOp, int)> {
    match k {
        TokenV::Mul => Some((BinOp::Mul, 2)),
        TokenV::Div => Some((BinOp::Div, 2)),
        TokenV::Add => Some((BinOp::Add, 1)),
        TokenV::Sub => Some((BinOp::Sub, 1)),
        _ => None,
    }
}

pub open spec fn parse_ident(t: Seq<Spanned<TokenV>>, i: int) -> Parsed<Spanned<Seq<char>>> {
    if 0 <= i < t.len() {
        match t[i].inner {
            TokenV::Ident(name) => Ok((Spanned { inner: name, span: t[i].span }, i + 1)),
            _ => Err(i),
        }
    } else {
        Err(i)
    }
}

pub open spec fn parse_type(t: Seq<Spanned<TokenV>>, i: int) -> Parsed<Spanned<Type>> {
    if 0 <= i < t.len() {
        let ty = match t[i].inner {
            TokenV::TUnit => Some(Type::Unit),
            TokenV::TInt => Some(Type::Int),
            TokenV::TFloat => Some(Type::Float),
            TokenV::TString => Some(Type::String),
            _ => None,
        };
        match ty {
            Some(ty) => Ok((Spanned { inner: ty, span: t[i].span }, i + 1)),
            None => Err(i),
        }
    } else {
        Err(i)
    }
}

pub open spec fn parse_pattern(t: Seq<Spanned<TokenV>>, i: int) -> Parsed<Spanned<Pattern>> {
    if 0 <= i < t.len() {
        match t[i].inner {
            TokenV::Int(digits) => match int_literal(digits) {
                Some(v) => Ok((Spanned { inner: Pattern::Int(v), span: t[i].span }, i + 1)),
                None => Err(i),
            },
            TokenV::Underscore => Ok((Spanned { inner: Pattern::Discard, span: t[i].span }, i + 1)),
            _ => Err(i),
        }
    } else {
        Err(i)
    }
}

pub open spec fn parse_expr(t: Seq<Spanned<TokenV>>, i: int, eof: usize) -> Parsed<Spanned<PExprV>>
    decreases t.len() - i, 3int,
{
    parse_binary(t, i, 1, eof)
}

/// An expression whose infix operators all bind at least as tightly as `min`.
pub open spec fn parse_binary(t: Seq<Spanned<TokenV>>, i: int, min: int, eof: usize) -> Parsed<Spanned<PExprV>>
    decreases t.len() - i, 2int,
{
    match parse_postfix(t, i, eof) {
        Ok((lhs, j)) => if i < j <= t.len() {
            binary_rest(t, i, lhs, j, min, eof)
        } else {
            Err(j)
        },
        Err(k) => Err(k),
    }
}

/// The infix operators that follow the operand `lhs`, which started at
/// token `start` and ends before token `j`.
pub open spec fn binary_rest(
    t: Seq<Spanned<TokenV>>,
    start: int,
    lhs: Spanned<PExprV>,
    j: int,
    min: int,
    eof: usize,
) -> Parsed<Spanned<PExprV>>
    decreases t.len() - j, 1int,
{
    if 0 <= j < t.len() {
        match infix_op(t[j].inner) {
            Some((op, prec)) => if prec >= min {
                match parse_binary(t, j + 1, prec + 1, eof) {
                    Ok((rhs, k)) => if j < k <= t.len() {
                        let e = Spanned {
                            inner: PExprV::BinOp(op, Box::new(lhs), Box::new(rhs)),
                            span: span_of(t, start, k, eof),
                        };
                        binary_rest(t, start, e, k, min, eof)
                    } else {
                        Err(k)
                    },
                    Err(x) => Err(x),
                }
            } else {
                Ok((lhs, j))
            },
            None => Ok((lhs, j)),
        }
    } else {
        Ok((lhs, j))
    }
}

pub open spec fn parse_postfix(t: Seq<Spanned<TokenV>>, i: int, eof: usize) -> Parsed<Spanned<PExprV>>
    decreases t.len() - i, 1int,
{
    match parse_atom(t, i, eof) {
        Ok((a, j)) => if i < j <= t.len() {
            postfix_rest(t, i, a, j, eof)
        } else {
            Err(j)
        },
        Err(k) => Err(k),
    }
}

/// The arguments after a postfix call's name, which ends before token `k`:
/// the operand, then those in parentheses if a parenthesis follows.
pub open spec fn postfix_args(
    t: Seq<Spanned<TokenV>>,
    operand: Spanned<PExprV>,
    k: int,
    eof: usize,
) -> Parsed<Seq<Spanned<PExprV>>>
    decreases t.len() - k, 7int,
{
    if at(t, k, TokenV::OpenParen) {
        match parse_args(t, k, eof) {
            Ok((args, m)) => Ok((seq![operand] + args, m)),
            Err(x) => Err(x),
        }
    } else {
        Ok((seq![operand], k))
    }
}

/// The postfix operations that follow the operand `e`, which started at
/// token `start` and ends before token `j`.
pub open spec fn postfix_rest(
    t: Seq<Spanned<TokenV>>,
    start: int,
    e: Spanned<PExprV>,
    j: int,
    eof: usize,
) -> Parsed<Spanned<PExprV>>
    decreases t.len() - j, 0int,
{
    if at(t, j, TokenV::Dot) && j + 1 < t.len() {
        let next = if at(t, j + 1, TokenV::Match) {
            match parse_arms(t, j + 2, eof) {
                Ok((arms, k)) => Ok((PExprV::Match(Box::new(e), arms), k)),
                Err(x) => Err(x),
            }
        } else {
            match parse_ident(t, j + 1) {
                Ok((name, k)) => if at(t, k, TokenV::Bang) {
                    match postfix_args(t, e, k + 1, eof) {
                        Ok((args, m)) => Ok((PExprV::MacroCall(name, args), m)),
                        Err(x) => Err(x),
                    }
                } else {
                    match postfix_args(t, e, k, eof) {
                        Ok((args, m)) => Ok((PExprV::FuncCall(name, args), m)),
                        Err(x) => Err(x),
                    }
                },
                Err(x) => Err(x),
            }
        };
        match next {
            Ok((inner, k)) => if j < k <= t.len() {
                postfix_rest(t, start, Spanned { inner, span: span_of(t, start, k, eof) }, k, eof)
            } else {
                Err(k)
            },
            Err(x) => Err(x),
        }
    } else {
        Ok((e, j))
    }
}

pub open spec fn parse_atom(t: Seq<Spanned<TokenV>>, i: int, eof: usize) -> Parsed<Spanned<PExprV>>
    decreases t.len() - i, 0int,
{
    if 0 <= i < t.len() {
        let here = t[i].span;
        match t[i].inner {
            TokenV::Int(digits) => match int_literal(digits) {
                Some(v) => Ok((Spanned { inner: PExprV::Int(v), span: here }, i + 1)),
                None => Err(i),
            },
            TokenV::String(s) => Ok((Spanned { inner: PExprV::String(s), span: here }, i + 1)),
            TokenV::OpenParen => match parse_expr(t, i + 1, eof) {
                Ok((e, j)) => if at(t, j, TokenV::CloseParen) {
                    Ok((e, j + 1))
                } else {
                    Err(j)
                },
                Err(k) => Err(k),
            },
            TokenV::Match => if at(t, i + 1, TokenV::OpenParen) {
                match parse_expr(t, i + 2, eof) {
                    Ok((s, j)) => if i < j && at(t, j, TokenV::CloseParen) {
                        match parse_arms(t, j + 1, eof) {
                            Ok((arms, k)) => Ok(
                                (Spanned { inner: PExprV::Match(Box::new(s), arms), span: span_of(t, i, k, eof) }, k),
                            ),
                            Err(x) => Err(x),
                        }
                    } else {
                        Err(j)
                    },
                    Err(k) => Err(k),
                }
            } else {
                Err(i + 1)
            },
            TokenV::Ident(name) => {
                let id = Spanned { inner: name, span: here };
                if at(t, i + 1, TokenV::Bang) && at(t, i + 2, TokenV::OpenParen) {
                    match parse_args(t, i + 2, eof) {
                        Ok((args, k)) => Ok(
                            (Spanned { inner: PExprV::MacroCall(id, args), span: span_of(t, i, k, eof) }, k),
                        ),
                        Err(x) => Err(x),
                    }
                } else if at(t, i + 1, TokenV::OpenParen) {
                    match parse_args(t, i + 1, eof) {
                        Ok((args, k)) => Ok(
                            (Spanned { inner: PExprV::FuncCall(id, args), span: span_of(t, i, k, eof) }, k),
                        ),
                        Err(x) => Err(x),
                    }
                } else {
                    Ok((Spanned { inner: PExprV::Var(name), span: here }, i + 1))
                }
            },
            _ => Err(i),
        }
    } else {
        Err(i)
    }
}

/// A parenthesized argument list starting at token `i`.
pub open spec fn parse_args(t: Seq<Spanned<TokenV>>, i: int, eof: usize) -> Parsed<Seq<Spanned<PExprV>>>
    decreases t.len() - i, 6int,
{
    if at(t, i, TokenV::OpenParen) {
        args_items(t, i + 1, seq![], eof)
    } else {
        Err(i)
    }
}

/// The rest of an argument list from token `j`, after the arguments `acc`.
pub open spec fn args_items(
    t: Seq<Spanned<TokenV>>,
    j: int,
    acc: Seq<Spanned<PExprV>>,
    eof: usize,
) -> Parsed<Seq<Spanned<PExprV>>>
    decreases t.len() - j, 5int,
{
    if at(t, j, TokenV::CloseParen) {
        Ok((acc, j + 1))
    } else if 0 <= j < t.len() {
        match parse_expr(t, j, eof) {
            Ok((e, k)) => if j < k < t.len() {
                if at(t, k, TokenV::Comma) {
                    args_items(t, k + 1, acc.push(e), eof)
                } else if at(t, k, TokenV::CloseParen) {
                    Ok((acc.push(e), k + 1))
                } else {
                    Err(k)
                }
            } else {
                Err(k)
            },
            Err(x) => Err(x),
        }
    } else {
        Err(j)
    }
}

/// The braced arms of a `match`, starting at token `i`.
pub open spec fn parse_arms(t: Seq<Spanned<TokenV>>, i: int, eof: usize) -> Parsed<Seq<(Spanned<Pattern>, Spanned<PExprV>)>>
    decreases t.len() - i, 6int,
{
    if at(t, i, TokenV::OpenBrace) {
        arms_items(t, i + 1, seq![], eof)
    } else {
        Err(i)
    }
}

/// The rest of the arms from token `j`, after the arms `acc`.
pub open spec fn arms_items(
    t: Seq<Spanned<TokenV>>,
    j: int,
    acc: Seq<(Spanned<Pattern>, Spanned<PExprV>)>,
    eof: usize,
) -> Parsed<Seq<(Spanned<Pattern>, Spanned<PExprV>)>>
    decreases t.len() - j, 5int,
{
    if at(t, j, TokenV::CloseBrace) {
        Ok((acc, j + 1))
    } else if 0 <= j < t.len() {
        match parse_pattern(t, j) {
            Ok((p, j1)) => if at(t, j1, TokenV::Arrow) {
                match parse_expr(t, j1 + 1, eof) {
                    Ok((e, k)) => if j < k < t.len() {
                        if at(t, k, TokenV::Comma) {
                            arms_items(t, k + 1, acc.push((p, e)), eof)
                        } else if at(t, k, TokenV::CloseBrace) {
                            Ok((acc.push((p, e)), k + 1))
                        } else {
                            Err(k)
                        }
                    } else {
                        Err(k)
                    },
                    Err(x) => Err(x),
                }
            } else {
                Err(j1)
            },
            Err(x) => Err(x),
        }
    } else {
        Err(j)
    }
}

/// The rest of a block from token `j`, after the statements `acc`; `open`
/// is the index of its opening brace.
pub open spec fn block_items(
    t: Seq<Spanned<TokenV>>,
    open: int,
    j: int,
    acc: Seq<Spanned<Spanned<PExprV>>>,
    eof: usize,
) -> Parsed<Spanned<PBlockV>>
    decreases t.len() - j,
{
    if at(t, j, TokenV::CloseBrace) {
        Ok(
            (
                Spanned {
                    inner: PBlockV { body: acc, trailing: Spanned { inner: None, span: span_of(t, j, j, eof) } },
                    span: span_of(t, open, j + 1, eof),
                },
                j + 1,
            ),
        )
    } else if 0 <= j < t.len() {
        match parse_expr(t, j, eof) {
            Ok((e, k)) => if j < k < t.len() {
                if at(t, k, TokenV::Semi) {
                    block_items(t, open, k + 1, acc.push(Spanned { inner: e, span: span_of(t, j, k, eof) }), eof)
                } else if at(t, k, TokenV::CloseBrace) {
                    Ok(
                        (
                            Spanned {
                                inner: PBlockV {
                                    body: acc,
                                    trailing: Spanned { inner: Some(e), span: span_of(t, j, k, eof) },
                                },
                                span: span_of(t, open, k + 1, eof),
                            },
                            k + 1,
                        ),
                    )
                } else {
                    Err(k)
                }
            } else {
                Err(k)
            },
            Err(x) => Err(x),
        }
    } else {
        Err(j)
    }
}

pub open spec fn parse_block(t: Seq<Spanned<TokenV>>, i: int, eof: usize) -> Parsed<Spanned<PBlockV>> {
    if at(t, i, TokenV::OpenBrace) {
        block_items(t, i, i + 1, seq![], eof)
    } else {
        Err(i)
    }
}

/// The rest of a function's argument list from token `j`, after the arguments `acc`.
pub open spec fn params_items(t: Seq<Spanned<TokenV>>, j: int, acc: Seq<PArgV>) -> Parsed<Seq<PArgV>>
    decreases t.len() - j,
{
    if at(t, j, TokenV::CloseParen) {
        Ok((acc, j + 1))
    } else if 0 <= j < t.len() {
        match parse_ident(t, j) {
            Ok((name, j1)) => if at(t, j1, TokenV::Colon) {
                match parse_type(t, j1 + 1) {
                    Ok((ty, k)) => {
                        let arg = PArgV { name, ty };
                        if at(t, k, TokenV::Comma) {
                            params_items(t, k + 1, acc.push(arg))
                        } else if at(t, k, TokenV::CloseParen) {
                            Ok((acc.push(arg), k + 1))
                        } else {
                            Err(k)
                        }
                    },
                    Err(x) => Err(x),
                }
            } else {
                Err(j1)
            },
            Err(x) => Err(x),
        }
    } else {
        Err(j)
    }
}

/// A function; without `->`, its return type is `unit`, over the empty span
/// before its body.
pub open spec fn parse_func(t: Seq<Spanned<TokenV>>, i: int, eof: usize) -> Parsed<Spanned<PFuncV>> {
    if at(t, i, TokenV::Func) {
        match parse_ident(t, i + 1) {
            Ok((name, j)) => if at(t, j, TokenV::OpenParen) {
                match params_items(t, j + 1, seq![]) {
                    Ok((params, k)) => {
                        let args = Spanned { inner: params, span: span_of(t, j, k, eof) };
                        let ret = if at(t, k, TokenV::Arrow) {
                            parse_type(t, k + 1)
                        } else {
                            Ok((Spanned { inner: Type::Unit, span: span_of(t, k, k, eof) }, k))
                        };
                        match ret {
                            Ok((return_type, m)) => match parse_block(t, m, eof) {
                                Ok((body, n)) => Ok(
                                    (
                                        Spanned {
                                            inner: PFuncV { name, args, body, return_type },
                                            span: span_of(t, i, n, eof),
                                        },
                                        n,
                                    ),
                                ),
                                Err(x) => Err(x),
                            },
                            Err(x) => Err(x),
                        }
                    },
                    Err(x) => Err(x),
                }
            } else {
                Err(j)
            },
            Err(x) => Err(x),
        }
    } else {
        Err(i)
    }
}

/// The functions from token `i` to the end, after the functions `acc`.
pub open spec fn module_items(
    t: Seq<Spanned<TokenV>>,
    i: int,
    acc: Seq<Spanned<PFuncV>>,
    eof: usize,
) -> Result<Seq<Spanned<PFuncV>>, int>
    decreases t.len() - i,
{
    if 0 <= i < t.len() {
        match parse_func(t, i, eof) {
            Ok((f, j)) => if i < j <= t.len() {
                module_items(t, j, acc.push(f), eof)
            } else {
                Err(j)
            },
            Err(x) => Err(x),
        }
    } else {
        Ok(acc)
    }
}

/// The parse of a whole token sequence: a module of functions, or the index
/// of the token where the input stops fitting the grammar (the length of
/// the sequence where it ends too early).
pub open spec fn parse_module(t: Seq<Spanned<TokenV>>, eof: usize) -> Result<Spanned<Seq<Spanned<PFuncV>>>, int> {
    match module_items(t, 0, seq![], eof) {
        Ok(items) => Ok(Spanned { inner: items, span: span_of(t, 0, t.len() as int, eof) }),
        Err(x) => Err(x),
    }
}

} // verus!
