use sonance::spring::interpret::Value;
use sonance::spring::run;

#[test]
fn match_macro() {
    let output = run(r#"
        func main() {
            output!(match(1) {
                1 -> "foo",
                2 -> "bar",
                _ -> "baz",
            });
        }
    "#);

    assert_eq!(output, Ok(vec![Value::String("foo")]));
}

#[test]
fn postfix_match_macro() {
    let output = run(r#"
        func main() {
            2
            .match {
                1 -> "foo",
                2 -> "bar",
                _ -> "baz",
            }
            .output!;
        }
    "#);

    assert_eq!(output, Ok(vec![Value::String("bar")]));
}

#[test]
fn two_functions() {
    let output = run(r#"
        func main() { output!(1) }
        func foobar() { output!(2) }
    "#);

    assert_eq!(output, Ok(vec![Value::Int(1)]));
}

use sonance::spring::execute;
use sonance::spring::interpret::error::InterpretError;
use sonance::spring::interpret::{Effect, Interpreter};
use sonance::spring::parse_tree::data::{BinOp, BinOpExpr, Block, Expr, Item, Pattern, Statement, Type};
use sonance::spring::parse_tree::lexer::lex;
use sonance::spring::parse_tree::token::Token;
use sonance::spring::parse_tree::{parse, ParseError, SyntaxError};
use sonance::spring::span::{Span, Spanned};
use sonance::spring::type_tree::data::{Ident, TypeKind};
use sonance::spring::type_tree::error::TypeError;
use sonance::spring::type_tree::TypeContext;
use sonance::spring::LibError;

fn at(inner: Token<'static>, start: usize, end: usize) -> Spanned<Token<'static>> {
    Spanned { inner, span: Span { start, end } }
}

fn span(start: usize, end: usize) -> Span {
    Span { start, end }
}

fn main_block<'a>(src: &'a str) -> Block<'a> {
    let module = parse(src).expect("parses");
    let mut items = module.inner.items;
    assert_eq!(items.len(), 1);
    let Item::Func(func) = items.remove(0).inner;
    func.body.inner
}

#[test]
fn lex_gives_kinds_and_byte_spans() {
    let tokens = lex("func main() { 1 + x }");
    assert_eq!(
        tokens,
        vec![
            at(Token::Func, 0, 4),
            at(Token::Ident("main"), 5, 9),
            at(Token::OpenParen, 9, 10),
            at(Token::CloseParen, 10, 11),
            at(Token::OpenBrace, 12, 13),
            at(Token::Int("1"), 14, 15),
            at(Token::Add, 16, 17),
            at(Token::Ident("x"), 18, 19),
            at(Token::CloseBrace, 20, 21),
        ]
    );
}

#[test]
fn lex_prefers_keywords_and_longest_matches() {
    let tokens = lex("match matcher _ _x int a->b - c");
    let kinds: Vec<Token> = tokens.iter().map(|t| t.inner).collect();
    assert_eq!(
        kinds,
        vec![
            Token::Match,
            Token::Ident("matcher"),
            Token::Underscore,
            Token::Ident("_x"),
            Token::TInt,
            Token::Ident("a"),
            Token::Arrow,
            Token::Ident("b"),
            Token::Sub,
            Token::Ident("c"),
        ]
    );
}

#[test]
fn lex_strings_keep_escapes_as_written() {
    let tokens = lex(r#""a\"b" "x""#);
    assert_eq!(tokens, vec![at(Token::String(r#"a\"b"#), 0, 6), at(Token::String("x"), 7, 10)]);
}

#[test]
fn lex_unterminated_string_is_one_error_to_the_end() {
    let tokens = lex(r#"1 "abc"#);
    assert_eq!(tokens, vec![at(Token::Int("1"), 0, 1), at(Token::Error, 2, 6)]);
}

#[test]
fn lex_skips_unicode_whitespace_and_flags_other_characters() {
    let tokens = lex("\u{3000}é x");
    assert_eq!(tokens, vec![at(Token::Error, 3, 5), at(Token::Ident("x"), 6, 7)]);
}

#[test]
fn parse_binds_products_tighter_than_sums() {
    let block = main_block("func main() { 1 + 2 * 3 }");
    assert!(block.body.is_empty());
    let trailing = block.trailing.inner.expect("trailing expression");
    let product = Spanned {
        inner: Expr::BinOp(BinOpExpr {
            op: BinOp::Mul,
            lhs: Box::new(Spanned { inner: Expr::Int(2), span: span(18, 19) }),
            rhs: Box::new(Spanned { inner: Expr::Int(3), span: span(22, 23) }),
        }),
        span: span(18, 23),
    };
    let expected = Spanned {
        inner: Expr::BinOp(BinOpExpr {
            op: BinOp::Add,
            lhs: Box::new(Spanned { inner: Expr::Int(1), span: span(14, 15) }),
            rhs: Box::new(product),
        }),
        span: span(14, 23),
    };
    assert_eq!(trailing, expected);
}

#[test]
fn parse_associates_to_the_left() {
    let block = main_block("func main() { 8 - 2 - 1 }");
    let trailing = block.trailing.inner.expect("trailing expression");
    let Expr::BinOp(outer) = trailing.inner else { panic!("expected a binary operation") };
    assert_eq!(outer.op, BinOp::Sub);
    assert_eq!(outer.rhs.inner, Expr::Int(1));
    let Expr::BinOp(inner) = outer.lhs.inner else { panic!("expected a binary operation") };
    assert_eq!(inner.lhs.inner, Expr::Int(8));
    assert_eq!(inner.rhs.inner, Expr::Int(2));
}

#[test]
fn parse_statements_and_missing_return_type() {
    let module = parse("func main() { 1; 2; }").expect("parses");
    let Item::Func(func) = &module.inner.items[0].inner;
    assert_eq!(func.return_type, Spanned { inner: Type::Unit, span: span(12, 12) });
    assert_eq!(func.body.inner.body.len(), 2);
    assert_eq!(func.body.inner.trailing, Spanned { inner: None, span: span(20, 20) });
    let Statement::Expr(first) = &func.body.inner.body[0].inner;
    assert_eq!(first.inner, Expr::Int(1));
}

#[test]
fn parse_function_arguments_and_return_type() {
    let module = parse("func f(a: int, b: float,) -> string { a }").expect("parses");
    let Item::Func(func) = &module.inner.items[0].inner;
    assert_eq!(func.args.inner.len(), 2);
    assert_eq!(func.args.inner[1].ty.inner, Type::Float);
    assert_eq!(func.args.span, span(6, 25));
    assert_eq!(func.return_type, Spanned { inner: Type::String, span: span(29, 35) });
}

#[test]
fn parse_pipeline_passes_the_receiver_first() {
    let block = main_block("func main() { 5.output!(6) }");
    let trailing = block.trailing.inner.expect("trailing expression");
    let Expr::MacroCall(call) = trailing.inner else { panic!("expected a macro call") };
    assert_eq!(call.name.inner.0, "output");
    assert_eq!(call.args.len(), 2);
    assert_eq!(call.args[0].inner, Expr::Int(5));
    assert_eq!(call.args[1].inner, Expr::Int(6));
    assert_eq!(trailing.span, span(14, 26));
}

#[test]
fn parse_match_arms_and_patterns() {
    let block = main_block("func main() { match(3) { 3 -> 1, _ -> 2 } }");
    let trailing = block.trailing.inner.expect("trailing expression");
    let Expr::Match(m) = trailing.inner else { panic!("expected a match") };
    assert_eq!(m.arms.len(), 2);
    assert_eq!(m.arms[0].0.inner, Pattern::Int(3));
    assert_eq!(m.arms[1].0.inner, Pattern::Discard);
}

#[test]
fn parse_reports_the_offending_token() {
    assert_eq!(
        parse("func main( { }"),
        Err(ParseError(vec![SyntaxError { span: span(11, 12), found: Some(Token::OpenBrace) }]))
    );
}

#[test]
fn parse_reports_an_early_end() {
    assert_eq!(
        parse("func main() {"),
        Err(ParseError(vec![SyntaxError { span: span(13, 13), found: None }]))
    );
}

#[test]
fn parse_rejects_literals_too_large_for_u64() {
    let err = parse("func main() { 18446744073709551616 }").unwrap_err();
    assert_eq!(err.0[0].found, Some(Token::Int("18446744073709551616")));
}

#[test]
fn run_parse_error() {
    assert!(matches!(run("func main() { 1 2 }"), Err(LibError::ParseError(_))));
}

#[test]
fn type_mismatch_in_arithmetic() {
    assert_eq!(
        run(r#"func main() { 1 + "a" }"#),
        Err(LibError::TypeError(vec![TypeError::TypeMismatchError {
            receive_expr: span(18, 21),
            expected_expr: span(14, 21),
            expected: vec![TypeKind::Int],
            received: TypeKind::String,
        }]))
    );
}

#[test]
fn unknown_variable_is_a_type_error() {
    assert_eq!(
        run("func main() { x }"),
        Err(LibError::TypeError(vec![TypeError::UnknownVariableError { ident_span: span(14, 15) }]))
    );
}

#[test]
fn match_without_discard_is_a_type_error() {
    assert_eq!(
        run("func main() { match(1) { 1 -> 2 } }"),
        Err(LibError::TypeError(vec![TypeError::MatchMissingDiscardError { match_span: span(14, 33) }]))
    );
}

#[test]
fn match_with_repeated_pattern_is_a_type_error() {
    assert_eq!(
        run("func main() { match(1) { 1 -> 2, 1 -> 3, _ -> 4 } }"),
        Err(LibError::TypeError(vec![TypeError::MatchOverlapError {
            match_span: span(14, 49),
            first_span: span(25, 26),
            repeat_span: span(33, 34),
        }]))
    );
}

#[test]
fn match_arms_of_different_types_are_a_type_error() {
    let res = run(r#"func main() { match(1) { 1 -> 2, _ -> "b" } }"#);
    let Err(LibError::TypeError(errors)) = res else { panic!("expected type errors") };
    assert_eq!(errors.len(), 1);
    assert!(matches!(errors[0], TypeError::TypeMismatchError { received: TypeKind::String, .. }));
}

#[test]
fn arithmetic_on_integers() {
    assert_eq!(
        run("func main() { output!(7 - 2 * 3, 8 / 2 - 1, (1 + 2) * 3) }"),
        Ok(vec![Value::Int(1), Value::Int(3), Value::Int(9)])
    );
}

#[test]
fn division_by_zero_fails_at_the_divisor() {
    assert_eq!(
        run("func main() { output!(4 / 0) }"),
        Err(LibError::InterpretError(InterpretError::DivideByZeroError { span: span(26, 27) }))
    );
}

#[test]
fn unknown_builtin_fails() {
    assert_eq!(
        run("func main() { nope!(1) }"),
        Err(LibError::InterpretError(InterpretError::UnknownBuiltinError {
            name: Ident { name: "nope", span: span(14, 18) },
        }))
    );
}

#[test]
fn error_macro_fails_with_its_values() {
    assert_eq!(
        run(r#"func main() { error!(1, "x") }"#),
        Err(LibError::InterpretError(InterpretError::CustomError {
            args: vec![
                Spanned { inner: Value::Int(1), span: span(21, 22) },
                Spanned { inner: Value::String("x"), span: span(24, 27) },
            ],
            span: span(14, 28),
        }))
    );
}

#[test]
fn output_keeps_order_across_calls() {
    assert_eq!(
        run("func main() { output!(1); output!(2, 3); 4.output! }"),
        Ok(vec![Value::Int(1), Value::Int(2), Value::Int(3), Value::Int(4)])
    );
}

#[test]
fn main_runs_wherever_it_stands() {
    assert_eq!(run("func helper() { output!(0) } func main() { output!(1) }"), Ok(vec![Value::Int(1)]));
}

#[test]
fn effects_record_prints_and_reports() {
    let (res, effects) = execute(r#"func main() { print!(1, "a"); debug!(2); type!(3, "b") }"#);
    assert_eq!(res, Ok(vec![]));
    assert_eq!(
        effects,
        vec![
            Effect::Print(vec![Value::Int(1), Value::String("a")]),
            Effect::Debug { span: span(30, 39), labels: vec![(span(37, 38), Value::Int(2))] },
            Effect::TypeDebug {
                span: span(41, 54),
                labels: vec![(span(47, 48), TypeKind::Int), (span(50, 53), TypeKind::String)],
            },
        ]
    );
}

#[test]
fn new_interpreter_and_context_start_empty() {
    let interpreter = Interpreter::new("src");
    assert_eq!(interpreter.src, "src");
    assert!(interpreter.test_output.is_empty());
    assert!(interpreter.effects.is_empty());
    let ctx = TypeContext::new("src");
    assert!(ctx.errors.is_empty());
}

#[test]
fn token_text_is_symbol_or_written_text() {
    assert_eq!(Token::Arrow.text(), "->");
    assert_eq!(Token::TString.text(), "string");
    assert_eq!(Token::String("a b").text(), "a b");
    assert_eq!(Token::Error.text(), "<error>");
}

#[test]
fn typed_match_falls_back_to_discard() {
    assert_eq!(
        run("func main() { output!(match(7) { 1 -> 2, _ -> 3 }, match(1) { 1 -> 2, _ -> 3 }) }"),
        Ok(vec![Value::Int(3), Value::Int(2)])
    );
}

#[test]
fn statements_run_in_order_before_the_trailing_expression() {
    let (res, effects) = execute(r#"func main() { print!("a"); output!(1); print!("b"); output!(2) }"#);
    assert_eq!(res, Ok(vec![Value::Int(1), Value::Int(2)]));
    assert_eq!(effects, vec![Effect::Print(vec![Value::String("a")]), Effect::Print(vec![Value::String("b")])]);
}

#[test]
fn type_checking_stops_before_what_it_does_not_handle() {
    let expected = Err(LibError::TypeError(vec![TypeError::MatchMissingDiscardError { match_span: span(14, 33) }]));
    assert_eq!(run("func main() { match(1) { 1 -> 2 }; helper() }"), expected);
    assert_eq!(run("func main() { match(1) { 1 -> 2 } } func f(a: int, a: int) { 1 }"), expected);
}

use sonance::spring::type_tree::data::Type as TypedType;
use sonance::spring::type_tree::type_text;
use sonance::spring::{try_execute, Halt};

#[test]
fn try_execute_tells_a_stuck_evaluation() {
    let (res, effects) = try_execute("func main() { print!(1); output!(18446744073709551615 + 1) }");
    assert_eq!(res, Err(Halt::Stuck));
    assert_eq!(effects, vec![Effect::Print(vec![Value::Int(1)])]);
    let (res, effects) = try_execute("func main(x: int) { x }");
    assert_eq!(res, Err(Halt::Stuck));
    assert!(effects.is_empty());
    let (res, _) = try_execute("func helper() { 1 }");
    assert_eq!(res, Err(Halt::Stuck));
}

#[test]
fn try_execute_tells_what_type_checking_does_not_handle() {
    assert_eq!(try_execute("func main() { f() }").0, Err(Halt::Unhandled));
    assert_eq!(try_execute("func main() { 1 } func main() { 2 }").0, Err(Halt::Unhandled));
    assert_eq!(try_execute("func main(a: int, a: int) { 1 }").0, Err(Halt::Unhandled));
}

#[test]
fn try_execute_agrees_with_run() {
    let src = "func main() { output!(1, 2 * 3) }";
    assert_eq!(try_execute(src).0, Ok(vec![Value::Int(1), Value::Int(6)]));
    assert_eq!(run(src), Ok(vec![Value::Int(1), Value::Int(6)]));
    assert!(matches!(try_execute("func main() { x }").0, Err(Halt::Error(LibError::TypeError(_)))));
}

#[test]
fn value_text_is_decimal_or_the_string() {
    assert_eq!(Value::Int(0).text(), "0");
    assert_eq!(Value::Int(1234567890).text(), "1234567890");
    assert_eq!(Value::Int(u64::MAX).text(), "18446744073709551615");
    assert_eq!(Value::Unit.text(), "Unit");
    assert_eq!(Value::String("a b").text(), "a b");
}

#[test]
fn type_text_shows_function_types() {
    let func = TypeKind::Func {
        args: vec![TypedType { kind: TypeKind::Int }, TypedType { kind: TypeKind::String }],
        return_type: Box::new(TypedType { kind: TypeKind::Unit }),
    };
    assert_eq!(type_text(&func), "func(Int, String) -> Unit");
    let empty = TypeKind::Func { args: vec![], return_type: Box::new(TypedType { kind: TypeKind::Float }) };
    assert_eq!(type_text(&empty), "func() -> Float");
    assert_eq!(type_text(&TypeKind::Error), "<error>");
}

#[test]
fn shown_tokens_lex_back() {
    for token in lex("func main(a: int) -> unit { 12 + x_1 * 3 - 4 / 5; f!(a).match { _ -> 0 }, [] }") {
        let text = token.inner.text();
        let again = lex(text);
        assert_eq!(again.len(), 1);
        assert_eq!(again[0].inner, token.inner);
        assert_eq!(again[0].span, Span { start: 0, end: text.len() });
    }
}
