//! Splitting source text into tokens.
//!
//! Whitespace separates tokens and is dropped. At each other position the
//! longest token that matches is taken; where a keyword and an identifier
//! match the same text, the keyword wins. A character that starts no token,
//! and a string literal that is never closed, give an `Error` token.

use crate::char_cursor::{byte_offset, cursor_items, cursor_new, cursor_next, indexed_chars};
use crate::spring::parse_tree::token::{token_text, Token, TokenV};
use crate::spring::span::{Span, Spanned};
use crate::spring::text_eq;
use vstd::prelude::*;
use vstd::string::StrSliceExecFns;
use vstd::utf8::encode_utf8;

verus! {

/// Unicode white space (the `White_Space` property).
pub open spec fn is_whitespace(c: char) -> bool {
    ||| ('\t' <= c <= '\r')
    ||| c == ' '
    ||| c == '\u{85}'
    ||| c == '\u{A0}'
    ||| c == '\u{1680}'
    ||| ('\u{2000}' <= c <= '\u{200A}')
    ||| c == '\u{2028}'
    ||| c == '\u{2029}'
    ||| c == '\u{202F}'
    ||| c == '\u{205F}'
    ||| c == '\u{3000}'
}

pub open spec fn is_digit(c: char) -> bool {
    '0' <= c <= '9'
}

pub open spec fn is_ident_start(c: char) -> bool {
    ('a' <= c <= 'z') || ('A' <= c <= 'Z') || c == '_'
}

pub open spec fn is_ident_continue(c: char) -> bool {
    is_ident_start(c) || is_digit(c)
}

/// The end of the run of digits starting at `i`.
pub open spec fn digits_end(s: Seq<char>, i: int) -> int
    decreases s.len() - i,
{
    if 0 <= i < s.len() && is_digit(s[i]) {
        digits_end(s, i + 1)
    } else {
        i
    }
}

/// The end of the run of identifier characters starting at `i`.
pub open spec fn ident_end(s: Seq<char>, i: int) -> int
    decreases s.len() - i,
{
    if 0 <= i < s.len() && is_ident_continue(s[i]) {
        ident_end(s, i + 1)
    } else {
        i
    }
}

/// The index of the quote that closes a string literal whose text starts
/// at `i`: a backslash takes the character after it into the text.
pub open spec fn string_end(s: Seq<char>, i: int) -> Option<int>
    decreases s.len() - i,
{
    if 0 <= i < s.len() {
        if s[i] == '"' {
            Some(i)
        } else if s[i] == '\\' {
            if i + 1 < s.len() {
                string_end(s, i + 2)
            } else {
                None
            }
        } else {
            string_end(s, i + 1)
        }
    } else {
        None
    }
}

/// The token of a word: a keyword, the discard `_`, or an identifier.
pub open spec fn word_token(text: Seq<char>) -> TokenV {
    if text == "func"@ {
        TokenV::Func
    } else if text == "match"@ {
        TokenV::Match
    } else if text == "unit"@ {
        TokenV::TUnit
    } else if text == "int"@ {
        TokenV::TInt
    } else if text == "float"@ {
        TokenV::TFloat
    } else if text == "string"@ {
        TokenV::TString
    } else if text == "_"@ {
        TokenV::Underscore
    } else {
        TokenV::Ident(text)
    }
}

/// The token of a single punctuation character; `Error` for any other character.
pub open spec fn punct_token(c: char) -> TokenV {
    if c == '(' {
        TokenV::OpenParen
    } else if c == ')' {
        TokenV::CloseParen
    } else if c == '[' {
        TokenV::OpenBracket
    } else if c == ']' {
        TokenV::CloseBracket
    } else if c == '{' {
        TokenV::OpenBrace
    } else if c == '}' {
        TokenV::CloseBrace
    } else if c == '+' {
        TokenV::Add
    } else if c == '-' {
        TokenV::Sub
    } else if c == '*' {
        TokenV::Mul
    } else if c == '/' {
        TokenV::Div
    } else if c == '!' {
        TokenV::Bang
    } else if c == ';' {
        TokenV::Semi
    } else if c == ',' {
        TokenV::Comma
    } else if c == ':' {
        TokenV::Colon
    } else if c == '.' {
        TokenV::Dot
    } else {
        TokenV::Error
    }
}

/// The token that starts at character `i` (not white space), and the index
/// where it ends.
pub open spec fn token_rule(s: Seq<char>, i: int) -> (TokenV, int) {
    let c = s[i];
    if is_digit(c) {
        let j = digits_end(s, i);
        (TokenV::Int(s.subrange(i, j)), j)
    } else if is_ident_start(c) {
        let j = ident_end(s, i);
        (word_token(s.subrange(i, j)), j)
    } else if c == '"' {
        match string_end(s, i + 1) {
            Some(j) => (TokenV::String(s.subrange(i + 1, j)), j + 1),
            None => (TokenV::Error, s.len() as int),
        }
    } else if c == '-' && i + 1 < s.len() && s[i + 1] == '>' {
        (TokenV::Arrow, i + 2)
    } else {
        (punct_token(c), i + 1)
    }
}

/// The tokens of `s` from character `i` on, each with the range of
/// characters it covers.
pub open spec fn lex_rule(s: Seq<char>, i: int) -> Seq<(TokenV, int, int)>
    decreases s.len() - i,
{
    if 0 <= i < s.len() {
        if is_whitespace(s[i]) {
            lex_rule(s, i + 1)
        } else {
            let (t, j) = token_rule(s, i);
            if i < j <= s.len() {
                seq![(t, i, j)] + lex_rule(s, j)
            } else {
                seq![]
            }
        }
    } else {
        seq![]
    }
}

/// The byte offset of character `i` of `s`, as `str::char_indices` gives it.
pub open spec fn position(s: Seq<char>, i: int) -> usize {
    byte_offset(s, i) as usize
}

/// A token with the byte range of its characters.
pub open spec fn placed(s: Seq<char>, t: (TokenV, int, int)) -> Spanned<TokenV> {
    Spanned { inner: t.0, span: Span { start: position(s, t.1), end: position(s, t.2) } }
}

/// The tokens of the source text `s`, each with its byte span.
pub open spec fn tokens_of(s: Seq<char>) -> Seq<Spanned<TokenV>> {
    let raw = lex_rule(s, 0);
    Seq::new(raw.len(), |k: int| placed(s, raw[k]))
}

pub open spec fn tokens_view(tokens: Seq<Spanned<Token>>) -> Seq<Spanned<TokenV>> {
    Seq::new(tokens.len(), |k: int| Spanned { inner: tokens[k].inner@, span: tokens[k].span })
}

/// A token reads the characters of its range as its kind says: an integer
/// is the digits it covers, an identifier the word it covers, and a string
/// is the text between the quotes that open and close its range.
pub open spec fn token_reads(s: Seq<char>, t: (TokenV, int, int)) -> bool {
    match t.0 {
        TokenV::Int(digits) => digits == s.subrange(t.1, t.2) && forall|p: int| t.1 <= p < t.2 ==> is_digit(#[trigger] s[p]),
        TokenV::Ident(word) => word == s.subrange(t.1, t.2),
        TokenV::String(text) => s[t.1] == '"' && s[t.2 - 1] == '"' && text == s.subrange(t.1 + 1, t.2 - 1),
        _ => true,
    }
}

/// `toks` cut the characters of `s` from `from` on into tokens: each lies
/// inside the text and reads its characters, they come in order without
/// overlapping, and only white space lies outside them.
pub open spec fn cuts(s: Seq<char>, from: int, toks: Seq<(TokenV, int, int)>) -> bool {
    &&& forall|k: int| 0 <= k < toks.len() ==> from <= (#[trigger] toks[k]).1 < toks[k].2 <= s.len() && token_reads(s, toks[k])
    &&& forall|k: int, l: int| 0 <= k < l < toks.len() ==> (#[trigger] toks[k]).2 <= (#[trigger] toks[l]).1
    &&& forall|p: int|
        from <= p < s.len() && (forall|k: int| 0 <= k < toks.len() ==> !((#[trigger] toks[k]).1 <= p < toks[k].2))
            ==> is_whitespace(#[trigger] s[p])
}

proof fn lemma_token_reads(s: Seq<char>, i: int)
    requires
        0 <= i < s.len(),
        !is_whitespace(s[i]),
    ensures
        token_reads(s, (token_rule(s, i).0, i, token_rule(s, i).1)),
{
    let c = s[i];
    lemma_token_advances(s, i);
    if is_digit(c) {
        lemma_digits_all(s, i);
    } else if is_ident_start(c) {
        let j = ident_end(s, i);
        let text = s.subrange(i, j);
        if word_token(text) is Ident {
            assert(word_token(text) == TokenV::Ident(text));
        }
    } else if c == '"' {
        lemma_string_end(s, i + 1);
    }
}

proof fn lemma_digits_all(s: Seq<char>, i: int)
    requires
        0 <= i <= s.len(),
    ensures
        forall|p: int| i <= p < digits_end(s, i) ==> is_digit(#[trigger] s[p]),
    decreases s.len() - i,
{
    if i < s.len() && is_digit(s[i]) {
        lemma_digits_all(s, i + 1);
    }
}

proof fn lemma_lex_cuts(s: Seq<char>, i: int)
    requires
        0 <= i <= s.len(),
    ensures
        cuts(s, i, lex_rule(s, i)),
    decreases s.len() - i,
{
    let toks = lex_rule(s, i);
    if i < s.len() {
        if is_whitespace(s[i]) {
            lemma_lex_cuts(s, i + 1);
        } else {
            lemma_token_advances(s, i);
            lemma_token_reads(s, i);
            let (t, j) = token_rule(s, i);
            let rest = lex_rule(s, j);
            lemma_lex_cuts(s, j);
            assert(toks == seq![(t, i, j)] + rest);
            assert forall|k: int| 0 <= k < toks.len() implies i <= (#[trigger] toks[k]).1 < toks[k].2 <= s.len()
                && token_reads(s, toks[k]) by {
                if k > 0 {
                    assert(toks[k] == rest[k - 1]);
                }
            }
            assert forall|k: int, l: int| 0 <= k < l < toks.len() implies (#[trigger] toks[k]).2 <= (#[trigger] toks[l]).1 by {
                assert(toks[l] == rest[l - 1]);
                if k > 0 {
                    assert(toks[k] == rest[k - 1]);
                }
            }
            assert forall|p: int|
                i <= p < s.len() && (forall|k: int| 0 <= k < toks.len() ==> !((#[trigger] toks[k]).1 <= p < toks[k].2))
                implies is_whitespace(#[trigger] s[p]) by {
                if p < j {
                    assert(toks[0] == (t, i, j));
                } else {
                    assert forall|k: int| 0 <= k < rest.len() implies !((#[trigger] rest[k]).1 <= p < rest[k].2) by {
                        assert(toks[k + 1] == rest[k]);
                    }
                }
            }
        }
    }
}

/// Lexing cuts the whole source text into tokens: each token lies inside the
/// text and reads exactly the characters its kind says, the tokens come in
/// order without overlapping, and only white space lies outside them.
pub proof fn law_lexing_covers_source(s: Seq<char>)
    ensures
        cuts(s, 0, lex_rule(s, 0)),
{
    lemma_lex_cuts(s, 0);
}

/// A token that lexing gives back from its own text: an integer of digits,
/// an identifier that is no keyword, or a symbol or keyword. (A string
/// shows without its quotes, and an error token shows as `<error>`.)
pub open spec fn lexable(t: TokenV) -> bool {
    match t {
        TokenV::Int(d) => d.len() > 0 && forall|k: int| 0 <= k < d.len() ==> is_digit(#[trigger] d[k]),
        TokenV::Ident(x) => {
            &&& x.len() > 0
            &&& is_ident_start(x[0])
            &&& forall|k: int| 0 <= k < x.len() ==> is_ident_continue(#[trigger] x[k])
            &&& word_token(x) == TokenV::Ident(x)
        },
        TokenV::String(_) => false,
        TokenV::Error => false,
        TokenV::Whitespace => false,
        _ => true,
    }
}

proof fn lemma_ident_all(s: Seq<char>, i: int)
    requires
        0 <= i <= s.len(),
    ensures
        forall|p: int| i <= p < ident_end(s, i) ==> is_ident_continue(#[trigger] s[p]),
    decreases s.len() - i,
{
    if i < s.len() && is_ident_continue(s[i]) {
        lemma_ident_all(s, i + 1);
    }
}

proof fn lemma_digits_full(s: Seq<char>, i: int)
    requires
        0 <= i <= s.len(),
        forall|p: int| i <= p < s.len() ==> is_digit(#[trigger] s[p]),
    ensures
        digits_end(s, i) == s.len(),
    decreases s.len() - i,
{
    if i < s.len() {
        lemma_digits_full(s, i + 1);
    }
}

proof fn lemma_ident_full(s: Seq<char>, i: int)
    requires
        0 <= i <= s.len(),
        forall|p: int| i <= p < s.len() ==> is_ident_continue(#[trigger] s[p]),
    ensures
        ident_end(s, i) == s.len(),
    decreases s.len() - i,
{
    if i < s.len() {
        lemma_ident_full(s, i + 1);
    }
}

/// The token starting at `i`, where it is no string and no error, is lexable.
proof fn lemma_token_lexable(s: Seq<char>, i: int)
    requires
        0 <= i < s.len(),
        !is_whitespace(s[i]),
    ensures
        ({
            let t = token_rule(s, i).0;
            !(t is String || t is Error) ==> lexable(t)
        }),
{
    let c = s[i];
    lemma_token_advances(s, i);
    if is_digit(c) {
        lemma_digits_all(s, i);
    } else if is_ident_start(c) {
        let j = ident_end(s, i);
        lemma_ident_all(s, i);
        let text = s.subrange(i, j);
        assert(text[0] == c);
        assert forall|k: int| 0 <= k < text.len() implies is_ident_continue(#[trigger] text[k]) by {
            assert(text[k] == s[i + k]);
        }
    }
}

proof fn lemma_lex_lexable(s: Seq<char>, i: int)
    requires
        0 <= i <= s.len(),
    ensures
        forall|k: int|
            0 <= k < lex_rule(s, i).len() && !((#[trigger] lex_rule(s, i)[k]).0 is String || lex_rule(s, i)[k].0 is Error)
                ==> lexable(lex_rule(s, i)[k].0),
    decreases s.len() - i,
{
    if i < s.len() {
        if is_whitespace(s[i]) {
            lemma_lex_lexable(s, i + 1);
        } else {
            lemma_token_advances(s, i);
            lemma_token_lexable(s, i);
            let (t, j) = token_rule(s, i);
            let rest = lex_rule(s, j);
            lemma_lex_lexable(s, j);
            assert(lex_rule(s, i) == seq![(t, i, j)] + rest);
            assert forall|k: int|
                0 <= k < lex_rule(s, i).len() && !((#[trigger] lex_rule(s, i)[k]).0 is String || lex_rule(s, i)[k].0 is Error)
                implies lexable(lex_rule(s, i)[k].0) by {
                if k > 0 {
                    assert(lex_rule(s, i)[k] == rest[k - 1]);
                }
            }
        }
    }
}

/// Every token that lexing gives, other than a string or an error, is lexable.
pub proof fn law_lexed_tokens_lexable(s: Seq<char>)
    ensures
        forall|k: int|
            0 <= k < lex_rule(s, 0).len() && !((#[trigger] lex_rule(s, 0)[k]).0 is String || lex_rule(s, 0)[k].0 is Error)
                ==> lexable(lex_rule(s, 0)[k].0),
{
    lemma_lex_lexable(s, 0);
}

/// Lexing the text that a lexable token shows as gives back that token, and
/// nothing else.
pub proof fn law_token_text_lexes_back(t: TokenV)
    requires
        lexable(t),
    ensures
        lex_rule(token_text(t), 0) == seq![(t, 0int, token_text(t).len() as int)],
{
    let x = token_text(t);
    reveal_strlit("<error>");
    reveal_strlit("<whitespace>");
    reveal_strlit("(");
    reveal_strlit(")");
    reveal_strlit("[");
    reveal_strlit("]");
    reveal_strlit("{");
    reveal_strlit("}");
    reveal_strlit("+");
    reveal_strlit("-");
    reveal_strlit("*");
    reveal_strlit("/");
    reveal_strlit("->");
    reveal_strlit("!");
    reveal_strlit(";");
    reveal_strlit(",");
    reveal_strlit(":");
    reveal_strlit(".");
    reveal_strlit("_");
    reveal_strlit("func");
    reveal_strlit("match");
    reveal_strlit("unit");
    reveal_strlit("int");
    reveal_strlit("float");
    reveal_strlit("string");
    assert(x.len() > 0);
    assert(!is_whitespace(x[0]));
    let n = x.len() as int;
    match t {
        TokenV::Int(d) => {
            lemma_digits_full(x, 0);
            assert(x.subrange(0, n) =~= x);
        },
        _ => {
            if is_ident_start(x[0]) {
                assert forall|p: int| 0 <= p < x.len() implies is_ident_continue(#[trigger] x[p]) by {}
                lemma_ident_full(x, 0);
                assert(x.subrange(0, n) =~= x);
            }
        },
    }
    assert(lex_rule(x, n) == Seq::<(TokenV, int, int)>::empty());
    assert(token_rule(x, 0) == (t, n));
    assert(lex_rule(x, 0) =~= seq![(t, 0int, n)]);
}

proof fn lemma_token_advances(s: Seq<char>, i: int)
    requires
        0 <= i < s.len(),
    ensures
        i < token_rule(s, i).1 <= s.len(),
{
    let c = s[i];
    if is_digit(c) {
        lemma_digits_end(s, i);
    } else if is_ident_start(c) {
        lemma_ident_end(s, i);
    } else if c == '"' {
        lemma_string_end(s, i + 1);
    }
}

proof fn lemma_digits_end(s: Seq<char>, i: int)
    requires
        0 <= i <= s.len(),
    ensures
        i <= digits_end(s, i) <= s.len(),
        0 <= i < s.len() && is_digit(s[i]) ==> i < digits_end(s, i),
    decreases s.len() - i,
{
    if i < s.len() && is_digit(s[i]) {
        lemma_digits_end(s, i + 1);
    }
}

proof fn lemma_ident_end(s: Seq<char>, i: int)
    requires
        0 <= i <= s.len(),
    ensures
        i <= ident_end(s, i) <= s.len(),
        0 <= i < s.len() && is_ident_continue(s[i]) ==> i < ident_end(s, i),
    decreases s.len() - i,
{
    if i < s.len() && is_ident_continue(s[i]) {
        lemma_ident_end(s, i + 1);
    }
}

proof fn lemma_string_end(s: Seq<char>, i: int)
    requires
        0 <= i,
    ensures
        string_end(s, i) matches Some(j) ==> i <= j < s.len() && s[j] == '"',
    decreases s.len() - i,
{
    if 0 <= i < s.len() && s[i] != '"' {
        if s[i] == '\\' {
            if i + 1 < s.len() {
                lemma_string_end(s, i + 2);
            }
        } else {
            lemma_string_end(s, i + 1);
        }
    }
}

/// The characters of `src` with their byte offsets.
fn indexed(src: &str) -> (items: Vec<(usize, char)>)
    ensures
        items@ == indexed_chars(src@),
{
    let mut cursor = cursor_new(src);
    let ghost all = indexed_chars(src@);
    let mut items: Vec<(usize, char)> = Vec::new();
    loop
        invariant
            all == indexed_chars(src@),
            all == items@ + cursor_items(cursor),
        decreases cursor_items(cursor).len(),
    {
        let ghost before = cursor_items(cursor);
        match cursor_next(&mut cursor) {
            Some(item) => {
                items.push(item);
                assert(all =~= items@ + cursor_items(cursor));
            },
            None => {
                assert(items@ =~= all);
                return items;
            },
        }
    }
}

/// Whether `c` is white space.
fn whitespace(c: char) -> (b: bool)
    ensures
        b == is_whitespace(c),
{
    ('\t' <= c && c <= '\r') || c == ' ' || c == '\u{85}' || c == '\u{A0}' || c == '\u{1680}' || ('\u{2000}' <= c
        && c <= '\u{200A}') || c == '\u{2028}' || c == '\u{2029}' || c == '\u{202F}' || c == '\u{205F}' || c
        == '\u{3000}'
}

fn digit(c: char) -> (b: bool)
    ensures
        b == is_digit(c),
{
    '0' <= c && c <= '9'
}

fn ident_start(c: char) -> (b: bool)
    ensures
        b == is_ident_start(c),
{
    ('a' <= c && c <= 'z') || ('A' <= c && c <= 'Z') || c == '_'
}

fn ident_continue(c: char) -> (b: bool)
    ensures
        b == is_ident_continue(c),
{
    ident_start(c) || digit(c)
}

/// The token of the word `text`.
fn word<'src>(text: &'src str) -> (t: Token<'src>)
    ensures
        t@ == word_token(text@),
{
    if text_eq(text, "func") {
        Token::Func
    } else if text_eq(text, "match") {
        Token::Match
    } else if text_eq(text, "unit") {
        Token::TUnit
    } else if text_eq(text, "int") {
        Token::TInt
    } else if text_eq(text, "float") {
        Token::TFloat
    } else if text_eq(text, "string") {
        Token::TString
    } else if text_eq(text, "_") {
        Token::Underscore
    } else {
        Token::Ident(text)
    }
}

fn punct<'src>(c: char) -> (t: Token<'src>)
    ensures
        t@ == punct_token(c),
{
    match c {
        '(' => Token::OpenParen,
        ')' => Token::CloseParen,
        '[' => Token::OpenBracket,
        ']' => Token::CloseBracket,
        '{' => Token::OpenBrace,
        '}' => Token::CloseBrace,
        '+' => Token::Add,
        '-' => Token::Sub,
        '*' => Token::Mul,
        '/' => Token::Div,
        '!' => Token::Bang,
        ';' => Token::Semi,
        ',' => Token::Comma,
        ':' => Token::Colon,
        '.' => Token::Dot,
        _ => Token::Error,
    }
}

/// Splits `src` into its tokens, each with its byte span.
pub fn lex<'src>(src: &'src str) -> (tokens: Vec<Spanned<Token<'src>>>)
    ensures
        tokens_view(tokens@) == tokens_of(src@),
{
    let ghost s = src@;
    let items = indexed(src);
    let n = items.len();
    let end = src.len();
    proof {
        assert(s.take(s.len() as int) =~= s);
    }
    let mut tokens: Vec<Spanned<Token<'src>>> = Vec::new();
    let ghost mut raw: Seq<(TokenV, int, int)> = seq![];
    let mut i: usize = 0;
    proof {
        assert(raw + lex_rule(s, 0) =~= lex_rule(s, 0));
    }
    while i < n
        invariant
            s == src@,
            items@ == indexed_chars(s),
            n == s.len(),
            end == position(s, s.len() as int),
            i <= n,
            lex_rule(s, 0) == raw + lex_rule(s, i as int),
            tokens_view(tokens@) == Seq::new(raw.len(), |k: int| placed(s, raw[k])),
        decreases n - i,
    {
        let c = items[i].1;
        if whitespace(c) {
            i = i + 1;
            continue;
        }
        proof {
            lemma_token_advances(s, i as int);
        }
        let (tok, j) = if digit(c) {
            let mut j = i + 1;
            while j < n && digit(items[j].1)
                invariant
                    items@ == indexed_chars(s),
                    n == s.len(),
                    i < j <= n,
                    digits_end(s, i as int) == digits_end(s, j as int),
                decreases n - j,
            {
                j = j + 1;
            }
            (Token::Int(src.substring_char(i, j)), j)
        } else if ident_start(c) {
            let mut j = i + 1;
            while j < n && ident_continue(items[j].1)
                invariant
                    items@ == indexed_chars(s),
                    n == s.len(),
                    i < j <= n,
                    ident_end(s, i as int) == ident_end(s, j as int),
                decreases n - j,
            {
                j = j + 1;
            }
            (word(src.substring_char(i, j)), j)
        } else if c == '"' {
            let mut j = i + 1;
            while j < n && items[j].1 != '"'
                invariant
                    items@ == indexed_chars(s),
                    n == s.len(),
                    i < j,
                    string_end(s, i + 1) == string_end(s, j as int),
                decreases n - j,
            {
                if items[j].1 == '\\' {
                    if j + 1 < n {
                        j = j + 2;
                    } else {
                        j = n;
                    }
                } else {
                    j = j + 1;
                }
            }
            let closed = j < n;
            if closed {
                (Token::String(src.substring_char(i + 1, j)), j + 1)
            } else {
                (Token::Error, n)
            }
        } else if c == '-' && i + 1 < n && items[i + 1].1 == '>' {
            (Token::Arrow, i + 2)
        } else {
            (punct(c), i + 1)
        };
        let start = items[i].0;
        let stop = if j < n {
            items[j].0
        } else {
            end
        };
        proof {
            assert(tok@ == token_rule(s, i as int).0);
            assert(j == token_rule(s, i as int).1);
        }
        let ghost before = tokens@;
        let spanned = Spanned::with_span(tok, Span::new(start, stop));
        tokens.push(spanned);
        proof {
            let t = (tok@, i as int, j as int);
            assert(start == position(s, i as int));
            assert(stop == position(s, j as int));
            assert(placed(s, t) == Spanned { inner: tok@, span: spanned.span });
            assert(tokens_view(tokens@) =~= tokens_view(before).push(placed(s, t)));
            assert(Seq::new(raw.push(t).len(), |k: int| placed(s, raw.push(t)[k])) =~= Seq::new(raw.len(), |k: int| placed(s, raw[k])).push(placed(s, t)));
            assert(lex_rule(s, i as int) == seq![t] + lex_rule(s, j as int));
            assert(raw + lex_rule(s, i as int) =~= raw.push(t) + lex_rule(s, j as int));
            raw = raw.push(t);
        }
        i = j;
    }
    proof {
        assert(raw + lex_rule(s, i as int) =~= raw);
    }
    tokens
}

} // verus!
