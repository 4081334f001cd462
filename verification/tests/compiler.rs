use sonance::compiler::{decimal_string, run, tokenize, try_tokenize, TokenKind};

#[test]
fn blank() {
    let input = "
    func main() {}";
    assert_eq!(run(input), 0);
}

#[test]
fn return_code() {
    let input = "func main() -> USize { 123 }";
    assert_eq!(run(input), 123);
}

#[test]
fn spacing() {
    let input = "
    func main() -> USize {
        456
    }";
    assert_eq!(run(input), 456);
}

#[test]
fn multi_number() {
    let input = "
    func main() -> USize {
        123;
        456;
        789
    }";
    assert_eq!(run(input), 789);
}

#[test]
fn first_character_is_not_tokenized() {
    assert_eq!(run("5"), 0);
    assert_eq!(run("7 8"), 8);
    assert!(try_tokenize("$ func").is_some());
}

#[test]
fn token_kinds_and_spans() {
    let tree = tokenize(" func f(){ 12 ; } ->");
    let expected: Vec<(&str, usize, usize)> = vec![
        ("func", 1, 5),
        ("f", 6, 7),
        ("(", 7, 8),
        (")", 8, 9),
        ("{", 9, 10),
        ("12", 11, 13),
        (";", 14, 15),
        ("}", 16, 17),
        ("->", 18, 20),
    ];
    assert_eq!(tree.len(), expected.len());
    for (i, (text, start, end)) in expected.iter().enumerate() {
        let token = tree.get(i);
        assert_eq!(token.span().start(), *start);
        assert_eq!(token.span().stop(), *end);
        let shown = match token.kind() {
            TokenKind::Func => "func".to_string(),
            TokenKind::Ident(name) => name.to_string(),
            TokenKind::OpenParen => "(".to_string(),
            TokenKind::CloseParen => ")".to_string(),
            TokenKind::Arrow => "->".to_string(),
            TokenKind::OpenBrace => "{".to_string(),
            TokenKind::CloseBrace => "}".to_string(),
            TokenKind::Number(n) => n.to_string(),
            TokenKind::Semi => ";".to_string(),
        };
        assert_eq!(&shown, text);
    }
}

#[test]
fn keyword_needs_whole_word() {
    let tree = tokenize(" funcs func9 func");
    assert_eq!(tree.len(), 3);
    assert!(matches!(tree.get(0).kind(), TokenKind::Ident("funcs")));
    assert!(matches!(tree.get(1).kind(), TokenKind::Ident("func9")));
    assert!(matches!(tree.get(2).kind(), TokenKind::Func));
}

#[test]
fn invalid_sources_do_not_tokenize() {
    assert!(try_tokenize(" a - b").is_none());
    assert!(try_tokenize(" a + b").is_none());
    assert!(try_tokenize(" é").is_none());
    assert!(try_tokenize(" 99999999999999999999999").is_none());
    assert!(try_tokenize(" 18446744073709551615").is_some());
    assert!(try_tokenize("").is_some());
}

#[test]
fn numbers_keep_leading_zeros_value() {
    assert_eq!(run(" 007 x"), 7);
    assert_eq!(run(" 12ab"), 12);
}

#[test]
fn first_character_may_take_several_bytes() {
    let tree = tokenize("é func 7");
    assert_eq!(tree.len(), 2);
    assert!(matches!(tree.get(0).kind(), TokenKind::Func));
    assert_eq!(tree.get(0).span().start(), 3);
    assert_eq!(tree.get(0).span().stop(), 7);
    assert_eq!(tree.get(1).span().start(), 8);
    assert_eq!(run("€ 1 2"), 2);
}

#[test]
fn token_tree_reads_span_then_kind() {
    let tree = tokenize(" func f() -> x { 120; }");
    let expected = "1..5 Func\n6..7 Ident(\"f\")\n7..8 OpenParen\n8..9 CloseParen\n10..12 Arrow\n13..14 Ident(\"x\")\n15..16 OpenBrace\n17..20 Number(120)\n20..21 Semi\n22..23 CloseBrace\n";
    assert_eq!(tree.text(), expected);
    assert_eq!(tree.get(7).span().text(), "17..20");
    assert_eq!(tree.get(7).kind().text(), "Number(120)");
    assert_eq!(tokenize("").text(), "");
}

#[test]
fn decimal_text_of_numbers() {
    assert_eq!(decimal_string(0), "0");
    assert_eq!(decimal_string(7), "7");
    assert_eq!(decimal_string(10), "10");
    assert_eq!(decimal_string(4096), "4096");
    assert_eq!(decimal_string(u64::MAX), "18446744073709551615");
}

#[test]
fn lone_dash_and_overflow_do_not_tokenize() {
    assert!(try_tokenize(" -").is_none());
    assert!(try_tokenize(" ->").is_some());
    assert!(try_tokenize(" 1 ; 18446744073709551616").is_none());
}
