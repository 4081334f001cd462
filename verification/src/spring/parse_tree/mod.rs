//! Lexing and parsing Spring source text into a parse tree.

pub mod data;
pub mod grammar;
pub mod lexer;
pub mod spelling;
pub mod token;
pub mod view;

use crate::compiler::{decimal_value, digit_value, lemma_decimal_prefix};
use crate::spring::parse_tree::data::{
    Argument, BinOp, BinOpExpr, Block, Expr, FuncCallExpr, FuncItem, Ident, Item, MacroCallExpr,
    MatchExpr, Module, Pattern, Statement, Type,
};
use crate::spring::parse_tree::grammar::{at, infix_op, int_literal, span_of};
use crate::spring::parse_tree::lexer::{is_digit, lex, position, tokens_of, tokens_view};
use crate::spring::parse_tree::token::{Token, TokenV};
use crate::spring::parse_tree::view::{
    lemma_parms_view, lemma_parms_view_push, lemma_pexprs_view, lemma_pexprs_view_push, parg_view,
    parms_view, pblock_view, pexpr_view, pexprs_view, pfunc_view, pitem_view, pmodule_view,
    pstmt_view, PArgV, PExprV, PFuncV,
};
use crate::spring::span::{Span, Spanned};
use vstd::prelude::*;
use vstd::string::StrSliceExecFns;

verus! {

/// Where the source text stops fitting the grammar: the token found there,
/// or none at the end of the text, and its span.
#[derive(Debug, Clone, Copy, PartialEq)]
pub struct SyntaxError<'src> {
    pub span: Span,
    pub found: Option<Token<'src>>,
}

#[derive(Debug, Clone, PartialEq)]
pub struct ParseError<'src>(pub Vec<SyntaxError<'src>>);

/// The error reported where parsing stops at token `x`.
pub open spec fn error_at(t: Seq<Spanned<TokenV>>, x: int, eof: usize) -> (Span, Option<TokenV>) {
    if 0 <= x < t.len() {
        (t[x].span, Some(t[x].inner))
    } else {
        (Span { start: eof, end: eof }, None)
    }
}

pub open spec fn syntax_error_view(e: SyntaxError) -> (Span, Option<TokenV>) {
    (
        e.span,
        match e.found {
            Some(t) => Some(t@),
            None => None,
        },
    )
}

/// The end of the source text `s`, as a byte offset.
pub open spec fn text_end(s: Seq<char>) -> usize {
    position(s, s.len() as int)
}

/// Whether an exec parse result `res` of an expression is the parse `p`,
/// which started at token `i` of `n`.
pub open spec fn expr_parsed(res: Result<(Spanned<Expr>, usize), usize>, p: grammar::Parsed<Spanned<PExprV>>, i: int, n: int) -> bool {
    match res {
        Ok((e, k)) => p == Ok::<(Spanned<PExprV>, int), int>((pexpr_view(e), k as int)) && i < k <= n,
        Err(x) => p == Err::<(Spanned<PExprV>, int), int>(x as int),
    }
}

/// Whether an exec parse result of a list of expressions is the parse `p`.
pub open spec fn exprs_parsed(
    res: Result<(Vec<Spanned<Expr>>, usize), usize>,
    p: grammar::Parsed<Seq<Spanned<PExprV>>>,
    i: int,
    n: int,
) -> bool {
    match res {
        Ok((es, k)) => p == Ok::<(Seq<Spanned<PExprV>>, int), int>((pexprs_view(es@), k as int)) && i < k <= n,
        Err(x) => p == Err::<(Seq<Spanned<PExprV>>, int), int>(x as int),
    }
}

/// Whether token `j` exists and is `kind`, a token without text.
fn at_token(tokens: &Vec<Spanned<Token<'_>>>, j: usize, kind: Token<'_>) -> (b: bool)
    requires
        !(kind is Int || kind is Ident || kind is String),
    ensures
        b == at(tokens_view(tokens@), j as int, kind@),
        b ==> j < tokens.len(),
{
    if j < tokens.len() {
        let t = tokens[j].inner;
        match kind {
            Token::Error => matches!(t, Token::Error),
            Token::Whitespace => matches!(t, Token::Whitespace),
            Token::OpenParen => matches!(t, Token::OpenParen),
            Token::CloseParen => matches!(t, Token::CloseParen),
            Token::OpenBracket => matches!(t, Token::OpenBracket),
            Token::CloseBracket => matches!(t, Token::CloseBracket),
            Token::OpenBrace => matches!(t, Token::OpenBrace),
            Token::CloseBrace => matches!(t, Token::CloseBrace),
            Token::Add => matches!(t, Token::Add),
            Token::Sub => matches!(t, Token::Sub),
            Token::Mul => matches!(t, Token::Mul),
            Token::Div => matches!(t, Token::Div),
            Token::Arrow => matches!(t, Token::Arrow),
            Token::Bang => matches!(t, Token::Bang),
            Token::Semi => matches!(t, Token::Semi),
            Token::Comma => matches!(t, Token::Comma),
            Token::Colon => matches!(t, Token::Colon),
            Token::Dot => matches!(t, Token::Dot),
            Token::Underscore => matches!(t, Token::Underscore),
            Token::Func => matches!(t, Token::Func),
            Token::Match => matches!(t, Token::Match),
            Token::TUnit => matches!(t, Token::TUnit),
            Token::TInt => matches!(t, Token::TInt),
            Token::TFloat => matches!(t, Token::TFloat),
            Token::TString => matches!(t, Token::TString),
            _ => false,
        }
    } else {
        false
    }
}

/// The span of tokens `i..j` (see `span_of`).
fn span_between(tokens: &Vec<Spanned<Token<'_>>>, i: usize, j: usize, eof: usize) -> (s: Span)
    ensures
        s == span_of(tokens_view(tokens@), i as int, j as int, eof),
{
    if i < j && j <= tokens.len() {
        Span::new(tokens[i].span.start, tokens[j - 1].span.end)
    } else {
        let p = if i < tokens.len() {
            tokens[i].span.start
        } else {
            eof
        };
        Span::new(p, p)
    }
}

/// The value of an integer literal (see `int_literal`).
fn literal_value(digits: &str) -> (v: Option<u64>)
    ensures
        v == int_literal(digits@),
{
    let n = digits.unicode_len();
    if n == 0 {
        return None;
    }
    let mut value: u64 = 0;
    let mut i: usize = 0;
    while i < n
        invariant
            n == digits@.len(),
            n > 0,
            i <= n,
            forall|k: int| 0 <= k < i ==> is_digit(#[trigger] digits@[k]),
            value == decimal_value(digits@.take(i as int)),
        decreases n - i,
    {
        let c = digits.get_char(i);
        if !('0' <= c && c <= '9') {
            return None;
        }
        let d = (c as u32 - 48) as u64;
        assert(d == digit_value(c));
        assert(digits@.take(i + 1).drop_last() =~= digits@.take(i as int));
        match value.checked_mul(10) {
            Some(tens) => match tens.checked_add(d) {
                Some(next) => {
                    value = next;
                },
                None => {
                    proof {
                        lemma_decimal_prefix(digits@, i + 1);
                    }
                    return None;
                },
            },
            None => {
                proof {
                    lemma_decimal_prefix(digits@, i + 1);
                }
                return None;
            },
        }
        i = i + 1;
    }
    assert(digits@.take(n as int) =~= digits@);
    Some(value)
}

/// The identifier at token `i`.
pub fn ident<'src>(tokens: &Vec<Spanned<Token<'src>>>, i: usize) -> (res: Result<(Spanned<Ident<'src>>, usize), usize>)
    ensures
        match res {
            Ok((id, k)) => grammar::parse_ident(tokens_view(tokens@), i as int) == Ok::<(Spanned<Seq<char>>, int), int>(
                (Spanned { inner: id.inner.0@, span: id.span }, k as int),
            ) && k == i + 1,
            Err(x) => grammar::parse_ident(tokens_view(tokens@), i as int) == Err::<(Spanned<Seq<char>>, int), int>(x as int),
        },
{
    if i < tokens.len() {
        match tokens[i].inner {
            Token::Ident(name) => Ok((Spanned::with_span(Ident(name), tokens[i].span), i + 1)),
            _ => Err(i),
        }
    } else {
        Err(i)
    }
}

/// The type at token `i`.
pub fn ty<'src>(tokens: &Vec<Spanned<Token<'src>>>, i: usize) -> (res: Result<(Spanned<Type>, usize), usize>)
    ensures
        match res {
            Ok((t, k)) => grammar::parse_type(tokens_view(tokens@), i as int) == Ok::<(Spanned<Type>, int), int>((t, k as int))
                && k == i + 1,
            Err(x) => grammar::parse_type(tokens_view(tokens@), i as int) == Err::<(Spanned<Type>, int), int>(x as int),
        },
{
    if i < tokens.len() {
        let found = match tokens[i].inner {
            Token::TUnit => Some(Type::Unit),
            Token::TInt => Some(Type::Int),
            Token::TFloat => Some(Type::Float),
            Token::TString => Some(Type::String),
            _ => None,
        };
        match found {
            Some(t) => Ok((Spanned::with_span(t, tokens[i].span), i + 1)),
            None => Err(i),
        }
    } else {
        Err(i)
    }
}

/// The pattern of a `match` arm at token `i`.
pub fn pattern<'src>(tokens: &Vec<Spanned<Token<'src>>>, i: usize) -> (res: Result<(Spanned<Pattern>, usize), usize>)
    ensures
        match res {
            Ok((p, k)) => grammar::parse_pattern(tokens_view(tokens@), i as int) == Ok::<(Spanned<Pattern>, int), int>(
                (p, k as int),
            ) && k == i + 1,
            Err(x) => grammar::parse_pattern(tokens_view(tokens@), i as int) == Err::<(Spanned<Pattern>, int), int>(x as int),
        },
{
    if i < tokens.len() {
        match tokens[i].inner {
            Token::Int(digits) => match literal_value(digits) {
                Some(v) => Ok((Spanned::with_span(Pattern::Int(v), tokens[i].span), i + 1)),
                None => Err(i),
            },
            Token::Underscore => Ok((Spanned::with_span(Pattern::Discard, tokens[i].span), i + 1)),
            _ => Err(i),
        }
    } else {
        Err(i)
    }
}

fn infix(tok: Token<'_>) -> (r: Option<(BinOp, u8)>)
    ensures
        match infix_op(tok@) {
            Some((op, prec)) => r == Some((op, prec as u8)) && 1 <= prec <= 2,
            None => r is None,
        },
{
    match tok {
        Token::Mul => Some((BinOp::Mul, 2)),
        Token::Div => Some((BinOp::Div, 2)),
        Token::Add => Some((BinOp::Add, 1)),
        Token::Sub => Some((BinOp::Sub, 1)),
        _ => None,
    }
}

/// The expression starting at token `i`.
pub fn expr<'src>(tokens: &Vec<Spanned<Token<'src>>>, i: usize, eof: usize) -> (res: Result<(Spanned<Expr<'src>>, usize), usize>)
    ensures
        expr_parsed(res, grammar::parse_expr(tokens_view(tokens@), i as int, eof), i as int, tokens@.len() as int),
    decreases tokens@.len() - i, 3int,
{
    binary(tokens, i, 1, eof)
}

/// The expression starting at token `i` whose infix operators all bind at
/// least as tightly as `min`.
fn binary<'src>(tokens: &Vec<Spanned<Token<'src>>>, i: usize, min: u8, eof: usize) -> (res: Result<(Spanned<Expr<'src>>, usize), usize>)
    requires
        min <= 3,
    ensures
        expr_parsed(res, grammar::parse_binary(tokens_view(tokens@), i as int, min as int, eof), i as int, tokens@.len() as int),
    decreases tokens@.len() - i, 2int,
{
    let ghost t = tokens_view(tokens@);
    let (mut lhs, mut j) = match postfix(tokens, i, eof) {
        Ok(r) => r,
        Err(x) => {
            return Err(x);
        },
    };
    loop
        invariant
            t == tokens_view(tokens@),
            t.len() == tokens@.len(),
            i < j <= tokens@.len(),
            min <= 3,
            grammar::binary_rest(t, i as int, pexpr_view(lhs), j as int, min as int, eof) == grammar::parse_binary(
                t,
                i as int,
                min as int,
                eof,
            ),
        decreases tokens@.len() - j,
    {
        let op = if j < tokens.len() {
            infix(tokens[j].inner)
        } else {
            None
        };
        match op {
            Some((op, prec)) => {
                if prec < min {
                    return Ok((lhs, j));
                }
                match binary(tokens, j + 1, prec + 1, eof) {
                    Ok((rhs, k)) => {
                        let span = span_between(tokens, i, k, eof);
                        lhs = Spanned::with_span(Expr::BinOp(BinOpExpr { op, lhs: Box::new(lhs), rhs: Box::new(rhs) }), span);
                        j = k;
                    },
                    Err(x) => {
                        return Err(x);
                    },
                }
            },
            None => {
                return Ok((lhs, j));
            },
        }
    }
}

/// The arguments of a postfix call whose name ends before token `k`: the
/// operand, then those in parentheses if a parenthesis follows.
fn call_args<'src>(tokens: &Vec<Spanned<Token<'src>>>, operand: Spanned<Expr<'src>>, k: usize, eof: usize) -> (res: Result<
    (Vec<Spanned<Expr<'src>>>, usize),
    usize,
>)
    requires
        k <= tokens@.len(),
    ensures
        match res {
            Ok((es, m)) => grammar::postfix_args(tokens_view(tokens@), pexpr_view(operand), k as int, eof) == Ok::<
                (Seq<Spanned<PExprV>>, int),
                int,
            >((pexprs_view(es@), m as int)) && k <= m <= tokens@.len(),
            Err(x) => grammar::postfix_args(tokens_view(tokens@), pexpr_view(operand), k as int, eof) == Err::<
                (Seq<Spanned<PExprV>>, int),
                int,
            >(x as int),
        },
    decreases tokens@.len() - k, 7int,
{
    if at_token(tokens, k, Token::OpenParen) {
        match args(tokens, k, eof) {
            Ok((rest, m)) => {
                let ghost rv = pexprs_view(rest@);
                let mut all = rest;
                all.insert(0, operand);
                proof {
                    lemma_pexprs_view(all@);
                    lemma_pexprs_view(rest@);
                    assert forall|y: int| 0 <= y < all@.len() implies #[trigger] pexprs_view(all@)[y] == (seq![pexpr_view(operand)] + rv)[y] by {
                        if y > 0 {
                            assert(all@[y] == rest@[y - 1]);
                        }
                    }
                    assert(pexprs_view(all@) =~= seq![pexpr_view(operand)] + rv);
                }
                Ok((all, m))
            },
            Err(x) => Err(x),
        }
    } else {
        let all = vec![operand];
        proof {
            lemma_pexprs_view(all@);
            assert(pexprs_view(all@) =~= seq![pexpr_view(operand)]);
        }
        Ok((all, k))
    }
}

/// The expression starting at token `i` made of an atom and the postfix
/// operations after it.
fn postfix<'src>(tokens: &Vec<Spanned<Token<'src>>>, i: usize, eof: usize) -> (res: Result<(Spanned<Expr<'src>>, usize), usize>)
    ensures
        expr_parsed(res, grammar::parse_postfix(tokens_view(tokens@), i as int, eof), i as int, tokens@.len() as int),
    decreases tokens@.len() - i, 1int,
{
    let ghost t = tokens_view(tokens@);
    let (mut e, mut j) = match atom(tokens, i, eof) {
        Ok(r) => r,
        Err(x) => {
            return Err(x);
        },
    };
    loop
        invariant
            t == tokens_view(tokens@),
            t.len() == tokens@.len(),
            i < j <= tokens@.len(),
            grammar::postfix_rest(t, i as int, pexpr_view(e), j as int, eof) == grammar::parse_postfix(t, i as int, eof),
        decreases tokens@.len() - j,
    {
        if !(at_token(tokens, j, Token::Dot) && j + 1 < tokens.len()) {
            return Ok((e, j));
        }
        let ghost ev = pexpr_view(e);
        let span_start = i;
        if at_token(tokens, j + 1, Token::Match) {
            match arms(tokens, j + 2, eof) {
                Ok((arms, k)) => {
                    let span = span_between(tokens, span_start, k, eof);
                    e = Spanned::with_span(Expr::Match(MatchExpr { scrutinee: Box::new(e), arms }), span);
                    j = k;
                },
                Err(x) => {
                    return Err(x);
                },
            }
        } else {
            let (name, k) = match ident(tokens, j + 1) {
                Ok(r) => r,
                Err(x) => {
                    return Err(x);
                },
            };
            if at_token(tokens, k, Token::Bang) {
                match call_args(tokens, e, k + 1, eof) {
                    Ok((args, m)) => {
                        let span = span_between(tokens, span_start, m, eof);
                        e = Spanned::with_span(Expr::MacroCall(MacroCallExpr { name, args }), span);
                        j = m;
                    },
                    Err(x) => {
                        return Err(x);
                    },
                }
            } else {
                match call_args(tokens, e, k, eof) {
                    Ok((args, m)) => {
                        let span = span_between(tokens, span_start, m, eof);
                        e = Spanned::with_span(Expr::FuncCall(FuncCallExpr { name, args }), span);
                        j = m;
                    },
                    Err(x) => {
                        return Err(x);
                    },
                }
            }
        }
    }
}

/// The atom at token `i`: a literal, a parenthesized expression, a `match`,
/// a call or a variable.
fn atom<'src>(tokens: &Vec<Spanned<Token<'src>>>, i: usize, eof: usize) -> (res: Result<(Spanned<Expr<'src>>, usize), usize>)
    ensures
        expr_parsed(res, grammar::parse_atom(tokens_view(tokens@), i as int, eof), i as int, tokens@.len() as int),
    decreases tokens@.len() - i, 0int,
{
    if i >= tokens.len() {
        return Err(i);
    }
    let here = tokens[i].span;
    match tokens[i].inner {
        Token::Int(digits) => match literal_value(digits) {
            Some(v) => Ok((Spanned::with_span(Expr::Int(v), here), i + 1)),
            None => Err(i),
        },
        Token::String(s) => Ok((Spanned::with_span(Expr::String(s), here), i + 1)),
        Token::OpenParen => match expr(tokens, i + 1, eof) {
            Ok((e, j)) => {
                if at_token(tokens, j, Token::CloseParen) {
                    Ok((e, j + 1))
                } else {
                    Err(j)
                }
            },
            Err(k) => Err(k),
        },
        Token::Match => {
            if !at_token(tokens, i + 1, Token::OpenParen) {
                return Err(i + 1);
            }
            match expr(tokens, i + 2, eof) {
                Ok((s, j)) => {
                    if !at_token(tokens, j, Token::CloseParen) {
                        return Err(j);
                    }
                    match arms(tokens, j + 1, eof) {
                        Ok((arms, k)) => {
                            let span = span_between(tokens, i, k, eof);
                            Ok((Spanned::with_span(Expr::Match(MatchExpr { scrutinee: Box::new(s), arms }), span), k))
                        },
                        Err(x) => Err(x),
                    }
                },
                Err(k) => Err(k),
            }
        },
        Token::Ident(name) => {
            let id = Spanned::with_span(Ident(name), here);
            if at_token(tokens, i + 1, Token::Bang) && at_token(tokens, i + 2, Token::OpenParen) {
                match args(tokens, i + 2, eof) {
                    Ok((args, k)) => {
                        let span = span_between(tokens, i, k, eof);
                        Ok((Spanned::with_span(Expr::MacroCall(MacroCallExpr { name: id, args }), span), k))
                    },
                    Err(x) => Err(x),
                }
            } else if at_token(tokens, i + 1, Token::OpenParen) {
                match args(tokens, i + 1, eof) {
                    Ok((args, k)) => {
                        let span = span_between(tokens, i, k, eof);
                        Ok((Spanned::with_span(Expr::FuncCall(FuncCallExpr { name: id, args }), span), k))
                    },
                    Err(x) => Err(x),
                }
            } else {
                Ok((Spanned::with_span(Expr::Var(Ident(name)), here), i + 1))
            }
        },
        _ => Err(i),
    }
}

/// The parenthesized argument list starting at token `i`.
pub fn args<'src>(tokens: &Vec<Spanned<Token<'src>>>, i: usize, eof: usize) -> (res: Result<(Vec<Spanned<Expr<'src>>>, usize), usize>)
    ensures
        exprs_parsed(res, grammar::parse_args(tokens_view(tokens@), i as int, eof), i as int, tokens@.len() as int),
    decreases tokens@.len() - i, 6int,
{
    let ghost t = tokens_view(tokens@);
    if !at_token(tokens, i, Token::OpenParen) {
        return Err(i);
    }
    let mut acc: Vec<Spanned<Expr<'src>>> = Vec::new();
    let mut j = i + 1;
    proof {
        assert(pexprs_view(acc@) =~= Seq::<Spanned<PExprV>>::empty());
    }
    loop
        invariant
            t == tokens_view(tokens@),
            t.len() == tokens@.len(),
            i < j <= tokens@.len(),
            grammar::args_items(t, j as int, pexprs_view(acc@), eof) == grammar::parse_args(t, i as int, eof),
        decreases tokens@.len() - j,
    {
        if at_token(tokens, j, Token::CloseParen) {
            return Ok((acc, j + 1));
        }
        if j >= tokens.len() {
            return Err(j);
        }
        match expr(tokens, j, eof) {
            Ok((e, k)) => {
                if k >= tokens.len() {
                    return Err(k);
                }
                proof {
                    lemma_pexprs_view_push(acc@, e);
                }
                if at_token(tokens, k, Token::Comma) {
                    acc.push(e);
                    j = k + 1;
                } else if at_token(tokens, k, Token::CloseParen) {
                    acc.push(e);
                    return Ok((acc, k + 1));
                } else {
                    return Err(k);
                }
            },
            Err(x) => {
                return Err(x);
            },
        }
    }
}

/// The braced arms of a `match` starting at token `i`.
fn arms<'src>(tokens: &Vec<Spanned<Token<'src>>>, i: usize, eof: usize) -> (res: Result<
    (Vec<(Spanned<Pattern>, Spanned<Expr<'src>>)>, usize),
    usize,
>)
    ensures
        match res {
            Ok((arms, k)) => grammar::parse_arms(tokens_view(tokens@), i as int, eof) == Ok::<
                (Seq<(Spanned<Pattern>, Spanned<PExprV>)>, int),
                int,
            >((parms_view(arms@), k as int)) && i < k <= tokens@.len(),
            Err(x) => grammar::parse_arms(tokens_view(tokens@), i as int, eof) == Err::<
                (Seq<(Spanned<Pattern>, Spanned<PExprV>)>, int),
                int,
            >(x as int),
        },
    decreases tokens@.len() - i, 6int,
{
    let ghost t = tokens_view(tokens@);
    if !at_token(tokens, i, Token::OpenBrace) {
        return Err(i);
    }
    let mut acc: Vec<(Spanned<Pattern>, Spanned<Expr<'src>>)> = Vec::new();
    let mut j = i + 1;
    proof {
        assert(parms_view(acc@) =~= Seq::<(Spanned<Pattern>, Spanned<PExprV>)>::empty());
    }
    loop
        invariant
            t == tokens_view(tokens@),
            t.len() == tokens@.len(),
            i < j <= tokens@.len(),
            grammar::arms_items(t, j as int, parms_view(acc@), eof) == grammar::parse_arms(t, i as int, eof),
        decreases tokens@.len() - j,
    {
        if at_token(tokens, j, Token::CloseBrace) {
            return Ok((acc, j + 1));
        }
        if j >= tokens.len() {
            return Err(j);
        }
        let (p, j1) = match pattern(tokens, j) {
            Ok(r) => r,
            Err(x) => {
                return Err(x);
            },
        };
        if !at_token(tokens, j1, Token::Arrow) {
            return Err(j1);
        }
        match expr(tokens, j1 + 1, eof) {
            Ok((e, k)) => {
                if k >= tokens.len() {
                    return Err(k);
                }
                proof {
                    lemma_parms_view_push(acc@, (p, e));
                }
                if at_token(tokens, k, Token::Comma) {
                    acc.push((p, e));
                    j = k + 1;
                } else if at_token(tokens, k, Token::CloseBrace) {
                    acc.push((p, e));
                    return Ok((acc, k + 1));
                } else {
                    return Err(k);
                }
            },
            Err(x) => {
                return Err(x);
            },
        }
    }
}

/// The statement starting at token `i`: an expression.
pub fn statement<'src>(tokens: &Vec<Spanned<Token<'src>>>, i: usize, eof: usize) -> (res: Result<
    (Spanned<Statement<'src>>, usize),
    usize,
>)
    ensures
        match res {
            Ok((s, k)) => {
                &&& grammar::parse_expr(tokens_view(tokens@), i as int, eof) matches Ok((e, k2))
                &&& k2 == k
                &&& pstmt_view(s) == (Spanned { inner: e, span: span_of(tokens_view(tokens@), i as int, k as int, eof) })
                &&& i < k <= tokens@.len()
            },
            Err(x) => grammar::parse_expr(tokens_view(tokens@), i as int, eof) == Err::<(Spanned<PExprV>, int), int>(x as int),
        },
{
    match expr(tokens, i, eof) {
        Ok((e, k)) => Ok((Spanned::with_span(Statement::Expr(e), span_between(tokens, i, k, eof)), k)),
        Err(x) => Err(x),
    }
}

/// The block starting at token `i`.
pub fn block<'src>(tokens: &Vec<Spanned<Token<'src>>>, i: usize, eof: usize) -> (res: Result<(Spanned<Block<'src>>, usize), usize>)
    ensures
        match res {
            Ok((b, k)) => grammar::parse_block(tokens_view(tokens@), i as int, eof) == Ok::<
                (Spanned<crate::spring::parse_tree::view::PBlockV>, int),
                int,
            >((Spanned { inner: pblock_view(b.inner), span: b.span }, k as int)) && i < k <= tokens@.len(),
            Err(x) => grammar::parse_block(tokens_view(tokens@), i as int, eof) == Err::<
                (Spanned<crate::spring::parse_tree::view::PBlockV>, int),
                int,
            >(x as int),
        },
{
    let ghost t = tokens_view(tokens@);
    if !at_token(tokens, i, Token::OpenBrace) {
        return Err(i);
    }
    let mut body: Vec<Spanned<Statement<'src>>> = Vec::new();
    let mut j = i + 1;
    proof {
        assert(Seq::new(body@.len(), |x: int| pstmt_view(body@[x])) =~= Seq::<Spanned<Spanned<PExprV>>>::empty());
    }
    loop
        invariant
            t == tokens_view(tokens@),
            t.len() == tokens@.len(),
            i < j <= tokens@.len(),
            grammar::block_items(t, i as int, j as int, Seq::new(body@.len(), |x: int| pstmt_view(body@[x])), eof)
                == grammar::parse_block(t, i as int, eof),
        decreases tokens@.len() - j,
    {
        let ghost acc = Seq::new(body@.len(), |x: int| pstmt_view(body@[x]));
        if at_token(tokens, j, Token::CloseBrace) {
            let trailing = Spanned::with_span(None, span_between(tokens, j, j, eof));
            let span = span_between(tokens, i, j + 1, eof);
            let b = Block { body, trailing };
            proof {
                assert(pblock_view(b).body =~= acc);
            }
            return Ok((Spanned::with_span(b, span), j + 1));
        }
        if j >= tokens.len() {
            return Err(j);
        }
        match statement(tokens, j, eof) {
            Ok((stmt, k)) => {
                if k >= tokens.len() {
                    return Err(k);
                }
                if at_token(tokens, k, Token::Semi) {
                    body.push(stmt);
                    proof {
                        assert(Seq::new(body@.len(), |x: int| pstmt_view(body@[x])) =~= acc.push(pstmt_view(stmt)));
                    }
                    j = k + 1;
                } else if at_token(tokens, k, Token::CloseBrace) {
                    let stmt_span = stmt.span;
                    let e = match stmt.inner {
                        Statement::Expr(e) => e,
                    };
                    let trailing = Spanned::with_span(Some(e), stmt_span);
                    let span = span_between(tokens, i, k + 1, eof);
                    let b = Block { body, trailing };
                    proof {
                        assert(pblock_view(b).body =~= acc);
                    }
                    return Ok((Spanned::with_span(b, span), k + 1));
                } else {
                    return Err(k);
                }
            },
            Err(x) => {
                return Err(x);
            },
        }
    }
}

/// The function starting at token `i`.
pub fn func<'src>(tokens: &Vec<Spanned<Token<'src>>>, i: usize, eof: usize) -> (res: Result<(FuncItem<'src>, usize), usize>)
    ensures
        match res {
            Ok((f, k)) => grammar::parse_func(tokens_view(tokens@), i as int, eof) == Ok::<(Spanned<PFuncV>, int), int>(
                (Spanned { inner: pfunc_view(f), span: span_of(tokens_view(tokens@), i as int, k as int, eof) }, k as int),
            ) && i < k <= tokens@.len(),
            Err(x) => grammar::parse_func(tokens_view(tokens@), i as int, eof) == Err::<(Spanned<PFuncV>, int), int>(x as int),
        },
{
    let ghost t = tokens_view(tokens@);
    if !at_token(tokens, i, Token::Func) {
        return Err(i);
    }
    let (name, j) = match ident(tokens, i + 1) {
        Ok(r) => r,
        Err(x) => {
            return Err(x);
        },
    };
    if !at_token(tokens, j, Token::OpenParen) {
        return Err(j);
    }
    let mut params: Vec<Argument<'src>> = Vec::new();
    let mut k = j + 1;
    proof {
        assert(Seq::new(params@.len(), |x: int| parg_view(params@[x])) =~= Seq::<PArgV>::empty());
    }
    loop
        invariant_except_break
            grammar::params_items(t, k as int, Seq::new(params@.len(), |x: int| parg_view(params@[x])))
                == grammar::params_items(t, j + 1, seq![]),
        invariant
            t == tokens_view(tokens@),
            t.len() == tokens@.len(),
            j < k <= tokens@.len(),
            j == i + 2,
            at(t, i as int, TokenV::Func),
            at(t, j as int, TokenV::OpenParen),
            grammar::parse_ident(t, i + 1) == Ok::<(Spanned<Seq<char>>, int), int>(
                (Spanned { inner: name.inner.0@, span: name.span }, j as int),
            ),
        ensures
            grammar::params_items(t, j + 1, seq![]) == Ok::<(Seq<PArgV>, int), int>(
                (Seq::new(params@.len(), |x: int| parg_view(params@[x])), k as int),
            ),
        decreases tokens@.len() - k,
    {
        if at_token(tokens, k, Token::CloseParen) {
            k = k + 1;
            break;
        }
        if k >= tokens.len() {
            return Err(k);
        }
        let (pname, k1) = match ident(tokens, k) {
            Ok(r) => r,
            Err(x) => {
                return Err(x);
            },
        };
        if !at_token(tokens, k1, Token::Colon) {
            return Err(k1);
        }
        let (pty, k2) = match ty(tokens, k1 + 1) {
            Ok(r) => r,
            Err(x) => {
                return Err(x);
            },
        };
        let ghost acc = Seq::new(params@.len(), |x: int| parg_view(params@[x]));
        let arg = Argument { name: pname, ty: pty };
        if at_token(tokens, k2, Token::Comma) {
            params.push(arg);
            proof {
                assert(Seq::new(params@.len(), |x: int| parg_view(params@[x])) =~= acc.push(parg_view(arg)));
            }
            k = k2 + 1;
        } else if at_token(tokens, k2, Token::CloseParen) {
            params.push(arg);
            proof {
                assert(Seq::new(params@.len(), |x: int| parg_view(params@[x])) =~= acc.push(parg_view(arg)));
            }
            k = k2 + 1;
            break;
        } else {
            return Err(k2);
        }
    }
    let args = Spanned::with_span(params, span_between(tokens, j, k, eof));
    let (return_type, m) = if at_token(tokens, k, Token::Arrow) {
        match ty(tokens, k + 1) {
            Ok(r) => r,
            Err(x) => {
                return Err(x);
            },
        }
    } else {
        (Spanned::with_span(Type::Unit, span_between(tokens, k, k, eof)), k)
    };
    match block(tokens, m, eof) {
        Ok((body, n)) => Ok((FuncItem { name, args, body, return_type }, n)),
        Err(x) => Err(x),
    }
}

/// The item starting at token `i`: a function.
pub fn item<'src>(tokens: &Vec<Spanned<Token<'src>>>, i: usize, eof: usize) -> (res: Result<(Spanned<Item<'src>>, usize), usize>)
    ensures
        match res {
            Ok((it, k)) => grammar::parse_func(tokens_view(tokens@), i as int, eof) == Ok::<(Spanned<PFuncV>, int), int>(
                (pitem_view(it), k as int),
            ) && i < k <= tokens@.len(),
            Err(x) => grammar::parse_func(tokens_view(tokens@), i as int, eof) == Err::<(Spanned<PFuncV>, int), int>(x as int),
        },
{
    match func(tokens, i, eof) {
        Ok((f, k)) => Ok((Spanned::with_span(Item::Func(f), span_between(tokens, i, k, eof)), k)),
        Err(x) => Err(x),
    }
}

/// The module of all the tokens: functions up to the end.
pub fn module<'src>(tokens: &Vec<Spanned<Token<'src>>>, eof: usize) -> (res: Result<Spanned<Module<'src>>, usize>)
    ensures
        match res {
            Ok(m) => grammar::parse_module(tokens_view(tokens@), eof) == Ok::<Spanned<Seq<Spanned<PFuncV>>>, int>(
                pmodule_view(m),
            ),
            Err(x) => grammar::parse_module(tokens_view(tokens@), eof) == Err::<Spanned<Seq<Spanned<PFuncV>>>, int>(
                x as int,
            ),
        },
{
    let ghost t = tokens_view(tokens@);
    let mut items: Vec<Spanned<Item<'src>>> = Vec::new();
    let mut i: usize = 0;
    proof {
        assert(Seq::new(items@.len(), |x: int| pitem_view(items@[x])) =~= Seq::<Spanned<PFuncV>>::empty());
    }
    while i < tokens.len()
        invariant
            t == tokens_view(tokens@),
            t.len() == tokens@.len(),
            i <= tokens@.len(),
            grammar::module_items(t, i as int, Seq::new(items@.len(), |x: int| pitem_view(items@[x])), eof)
                == grammar::module_items(t, 0, seq![], eof),
        decreases tokens@.len() - i,
    {
        let ghost acc = Seq::new(items@.len(), |x: int| pitem_view(items@[x]));
        match item(tokens, i, eof) {
            Ok((it, j)) => {
                items.push(it);
                proof {
                    assert(Seq::new(items@.len(), |x: int| pitem_view(items@[x])) =~= acc.push(pitem_view(it)));
                }
                i = j;
            },
            Err(x) => {
                return Err(x);
            },
        }
    }
    let span = span_between(tokens, 0, tokens.len(), eof);
    let m = Spanned::with_span(Module { items }, span);
    proof {
        assert(pmodule_view(m).inner =~= Seq::new(items@.len(), |x: int| pitem_view(items@[x])));
    }
    Ok(m)
}

/// Parses source text into a module, or reports where it stops fitting the
/// grammar.
pub fn parse<'src>(src: &'src str) -> (res: Result<Spanned<Module<'src>>, ParseError<'src>>)
    ensures
        match grammar::parse_module(tokens_of(src@), text_end(src@)) {
            Ok(m) => res matches Ok(pm) && pmodule_view(pm) == m,
            Err(x) => res matches Err(e) && e.0@.len() == 1 && syntax_error_view(e.0@[0]) == error_at(
                tokens_of(src@),
                x,
                text_end(src@),
            ),
        },
{
    let tokens = lex(src);
    let eof = src.len();
    proof {
        assert(src@.take(src@.len() as int) =~= src@);
    }
    match module(&tokens, eof) {
        Ok(m) => Ok(m),
        Err(x) => {
            let err = if x < tokens.len() {
                SyntaxError { span: tokens[x].span, found: Some(tokens[x].inner) }
            } else {
                SyntaxError { span: Span::new(eof, eof), found: None }
            };
            Err(ParseError(vec![err]))
        },
    }
}

} // verus!
